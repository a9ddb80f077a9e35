use vstd::prelude::*;
use crate::tree::{spans_wf, SpanTriple};

verus! {

/// A heading located in a rendered fragment: its byte range within the
/// fragment, its level as the ASCII digit of its opening tag, and its inner
/// text.
pub struct Heading {
    pub start: usize,
    pub end: usize,
    pub level_digit: u8,
    pub text: Vec<u8>,
}

impl Heading {
    pub open spec fn item(self) -> (usize, usize, u8, Seq<u8>) {
        (self.start, self.end, self.level_digit, self.text@)
    }
}

pub open spec fn items_of(hs: Seq<Heading>) -> Seq<(usize, usize, u8, Seq<u8>)> {
    hs.map_values(|h: Heading| h.item())
}

/// What the fixed heading pattern finds in fragment `s`: for each heading
/// element in document order, its byte range, its level digit and its inner
/// text.
pub uninterp spec fn heading_scan(s: Seq<u8>) -> Seq<(usize, usize, u8, Seq<u8>)>;

/// The scanned headings are non-empty, non-overlapping, in document order and
/// within bounds, and their levels are the digits 1 through 6.
pub open spec fn scan_wf(s: Seq<u8>, items: Seq<(usize, usize, u8, Seq<u8>)>) -> bool {
    &&& forall|i: int|
        0 <= i < items.len() ==> {
            &&& (#[trigger] items[i]).0 < items[i].1 <= s.len()
            &&& 49 <= items[i].2 <= 54
        }
    &&& forall|i: int|
        0 <= i && i + 1 < items.len() ==> (#[trigger] items[i]).1 <= items[i + 1].0
}

/// Relies on regex::bytes::Regex::captures_iter with the fixed pattern
/// `<h([1-6])([^>]*)>(.*?)</h[1-6]>`: matches come leftmost-first,
/// non-overlapping, in document order; group 1 is the single level digit and
/// group 3 the element's inner text.
#[verifier::external_body]
pub(crate) fn scan_headings(html: &[u8]) -> (r: Vec<Heading>)
    ensures
        items_of(r@) == heading_scan(html@),
        scan_wf(html@, items_of(r@)),
{
    let re = regex::bytes::Regex::new(r"<h([1-6])([^>]*)>(.*?)</h[1-6]>").unwrap();
    let mut out = Vec::new();
    for cap in re.captures_iter(html) {
        let m = cap.get(0).unwrap();
        out.push(Heading {
            start: m.start(),
            end: m.end(),
            level_digit: cap[1][0],
            text: cap[3].to_vec(),
        });
    }
    out
}

/// The same spans with each level parsed from its digit.
pub open spec fn span_items(items: Seq<(usize, usize, u8, Seq<u8>)>) -> Seq<SpanTriple> {
    items.map_values(|it: (usize, usize, u8, Seq<u8>)| (it.0 as int, it.1 as int, it.2 - 48))
}

pub proof fn lemma_scan_wf_spans(s: Seq<u8>, items: Seq<(usize, usize, u8, Seq<u8>)>)
    requires
        scan_wf(s, items),
    ensures
        spans_wf(s, span_items(items)),
{
    let sp = span_items(items);
    assert forall|i: int| 0 <= i < sp.len() implies 0 <= (#[trigger] sp[i]).0 < sp[i].1 <= s.len()
        && 1 <= sp[i].2 <= 6 by {
        assert(items[i].0 < items[i].1 <= s.len() && 49 <= items[i].2 <= 54);
    }
    assert forall|i: int| 0 <= i && i + 1 < sp.len() implies (#[trigger] sp[i]).1 <= sp[i + 1].0 by {
        assert(items[i].1 <= items[i + 1].0);
    }
}

/// Each heading's byte range and numeric level, parsed from the digit.
pub fn heading_spans(hs: &Vec<Heading>) -> (r: Vec<(usize, usize, usize)>)
    requires
        forall|i: int| 0 <= i < hs@.len() ==> 49 <= (#[trigger] hs@[i]).level_digit <= 54,
    ensures
        Seq::new(r@.len(), |i: int| (r@[i].0 as int, r@[i].1 as int, r@[i].2 as int))
            == span_items(items_of(hs@)),
{
    let mut r: Vec<(usize, usize, usize)> = Vec::new();
    let mut i: usize = 0;
    while i < hs.len()
        invariant
            0 <= i <= hs@.len(),
            r@.len() == i,
            forall|i2: int| 0 <= i2 < hs@.len() ==> 49 <= (#[trigger] hs@[i2]).level_digit <= 54,
            forall|j: int|
                0 <= j < i ==> (#[trigger] r@[j]).0 == hs@[j].start && r@[j].1 == hs@[j].end
                    && r@[j].2 == hs@[j].level_digit - 48,
        decreases hs@.len() - i,
    {
        let h = &hs[i];
        let lv = (h.level_digit - 48) as usize;
        r.push((h.start, h.end, lv));
        i = i + 1;
    }
    proof {
        assert(Seq::new(r@.len(), |i: int| (r@[i].0 as int, r@[i].1 as int, r@[i].2 as int))
            =~= span_items(items_of(hs@)));
    }
    r
}

} // verus!
