use vstd::prelude::*;
use crate::bytes::{find_pat, lemma_find_pat_props};
use crate::scan::{Heading, items_of};

verus! {

// ---------------------------------------------------------------------------
// Table-of-contents entries and their model
// ---------------------------------------------------------------------------

/// One table-of-contents entry: a heading's level, its text with code-span
/// wrappers stripped, the anchor derived from that text, and its sub-entries.
pub struct TocEntry {
    pub level: usize,
    pub text: Vec<u8>,
    pub id: Vec<u8>,
    pub children: Vec<TocEntry>,
}

/// The mathematical shape of a table-of-contents entry.
pub struct TocModel {
    pub level: int,
    pub text: Seq<u8>,
    pub id: Seq<u8>,
    pub children: Seq<TocModel>,
}

impl TocEntry {
    pub open spec fn model(self) -> TocModel
        decreases self,
    {
        TocModel {
            level: self.level as int,
            text: self.text@,
            id: self.id@,
            children: Self::models_of(self.children),
        }
    }

    pub open spec fn models_of(children: Vec<TocEntry>) -> Seq<TocModel>
        decreases children,
    {
        Seq::new(
            children@.len(),
            |i: int|
                if 0 <= i < children@.len() {
                    children@[i].model()
                } else {
                    TocModel { level: 0, text: Seq::empty(), id: Seq::empty(), children: Seq::empty() }
                },
        )
    }
}

// ---------------------------------------------------------------------------
// Anchors and code-span stripping
// ---------------------------------------------------------------------------

/// One byte of an anchor: spaces become hyphens and ASCII capitals become
/// lower case; everything else passes through unchanged.
pub open spec fn anchor_byte(b: u8) -> u8 {
    if b == 32 {
        45
    } else if 65 <= b <= 90 {
        (b + 32) as u8
    } else {
        b
    }
}

/// The anchor derived from heading text: spaces replaced by hyphens, ASCII
/// letters lower-cased, everything else as it stands.
pub open spec fn anchor_of(t: Seq<u8>) -> Seq<u8> {
    t.map_values(|b: u8| anchor_byte(b))
}

pub fn anchor_exec(t: &[u8]) -> (r: Vec<u8>)
    ensures
        r@ == anchor_of(t@),
{
    let mut r: Vec<u8> = Vec::new();
    let mut i: usize = 0;
    while i < t.len()
        invariant
            0 <= i <= t@.len(),
            r@ == anchor_of(t@.subrange(0, i as int)),
        decreases t@.len() - i,
    {
        let b = t[i];
        let c: u8 = if b == 32 {
            45
        } else if 65 <= b && b <= 90 {
            b + 32
        } else {
            b
        };
        r.push(c);
        proof {
            assert(t@.subrange(0, (i + 1) as int) =~= t@.subrange(0, i as int) + seq![
                t@[i as int],
            ]);
            assert(r@ =~= anchor_of(t@.subrange(0, (i + 1) as int)));
        }
        i = i + 1;
    }
    proof {
        assert(t@.subrange(0, t@.len() as int) =~= t@);
    }
    r
}

/// `s` from `pos` on, with every occurrence of `pat` removed; occurrences
/// are found left to right and the scan resumes after each removal.
pub open spec fn remove_from(s: Seq<u8>, pat: Seq<u8>, pos: int) -> Seq<u8>
    decreases s.len() - pos,
{
    match find_pat(s, pat, pos) {
        Some(i) => {
            if pos <= i && i + pat.len() <= s.len() && pat.len() > 0 {
                s.subrange(pos, i) + remove_from(s, pat, i + pat.len() as int)
            } else {
                s.subrange(pos, s.len() as int)
            }
        },
        None => s.subrange(pos, s.len() as int),
    }
}

pub fn remove_all_exec(s: &[u8], pat: &[u8]) -> (r: Vec<u8>)
    requires
        pat@.len() > 0,
    ensures
        r@ == remove_from(s@, pat@, 0),
{
    let n = s.len();
    let mut r: Vec<u8> = Vec::new();
    let mut pos: usize = 0;
    loop
        invariant
            pos <= n == s@.len(),
            pat@.len() > 0,
            remove_from(s@, pat@, 0) == r@ + remove_from(s@, pat@, pos as int),
        decreases n - pos,
    {
        proof {
            lemma_find_pat_props(s@, pat@, pos as int);
        }
        match crate::bytes::find_pat_exec(s, pat, pos) {
            Some(i) => {
                crate::bytes::append_sub(&mut r, s, pos, i);
                pos = i + pat.len();
            },
            None => {
                crate::bytes::append_sub(&mut r, s, pos, n);
                proof {
                    assert(remove_from(s@, pat@, 0) =~= r@);
                }
                return r;
            },
        }
    }
}

/// "`<code>`"
pub open spec fn code_open() -> Seq<u8> {
    seq![60u8, 99u8, 111u8, 100u8, 101u8, 62u8]
}

/// "`</code>`"
pub open spec fn code_close() -> Seq<u8> {
    seq![60u8, 47u8, 99u8, 111u8, 100u8, 101u8, 62u8]
}

/// Heading text with code-span wrappers stripped: first every opening tag,
/// then every closing tag.
pub open spec fn strip_code(t: Seq<u8>) -> Seq<u8> {
    remove_from(remove_from(t, code_open(), 0), code_close(), 0)
}

fn code_open_vec() -> (r: Vec<u8>)
    ensures
        r@ == code_open(),
{
    let mut r: Vec<u8> = Vec::new();
    r.push(60);
    r.push(99);
    r.push(111);
    r.push(100);
    r.push(101);
    r.push(62);
    proof {
        assert(r@ =~= code_open());
    }
    r
}

fn code_close_vec() -> (r: Vec<u8>)
    ensures
        r@ == code_close(),
{
    let mut r: Vec<u8> = Vec::new();
    r.push(60);
    r.push(47);
    r.push(99);
    r.push(111);
    r.push(100);
    r.push(101);
    r.push(62);
    proof {
        assert(r@ =~= code_close());
    }
    r
}

pub fn strip_code_exec(t: &[u8]) -> (r: Vec<u8>)
    ensures
        r@ == strip_code(t@),
{
    let co = code_open_vec();
    let cc = code_close_vec();
    let first = remove_all_exec(t, co.as_slice());
    remove_all_exec(first.as_slice(), cc.as_slice())
}

// ---------------------------------------------------------------------------
// The table-of-contents builder
// ---------------------------------------------------------------------------

/// The synthetic level-0 entry that roots the structure and is never
/// rendered.
pub open spec fn toc_root() -> TocModel {
    TocModel { level: 0, text: Seq::empty(), id: Seq::empty(), children: Seq::empty() }
}

/// The entry a scanned heading becomes: its parsed level, its stripped text
/// and the anchor derived from it, with no sub-entries yet.
pub open spec fn toc_entry_of(it: (usize, usize, u8, Seq<u8>)) -> TocModel {
    TocModel {
        level: it.2 - 48,
        text: strip_code(it.3),
        id: anchor_of(strip_code(it.3)),
        children: Seq::empty(),
    }
}

pub open spec fn toc_add(parent: TocModel, child: TocModel) -> TocModel {
    TocModel {
        level: parent.level,
        text: parent.text,
        id: parent.id,
        children: parent.children.push(child),
    }
}

pub open spec fn toc_close_one(st: Seq<TocModel>) -> Seq<TocModel> {
    if st.len() <= 1 {
        st
    } else {
        let top = st.last();
        let rest = st.drop_last();
        rest.update(rest.len() - 1, toc_add(rest.last(), top))
    }
}

/// Pops every stacked entry whose level is at least `level`, attaching each
/// to the entry below it.
pub open spec fn toc_close_ge(st: Seq<TocModel>, level: int) -> Seq<TocModel>
    decreases st.len(),
{
    if st.len() > 1 && st.last().level >= level {
        toc_close_ge(toc_close_one(st), level)
    } else {
        st
    }
}

pub open spec fn toc_close_all(st: Seq<TocModel>) -> Seq<TocModel>
    decreases st.len(),
{
    if st.len() > 1 {
        toc_close_all(toc_close_one(st))
    } else {
        st
    }
}

/// Runs the table-of-contents builder over the scanned headings.
pub open spec fn toc_steps(
    st: Seq<TocModel>,
    items: Seq<(usize, usize, u8, Seq<u8>)>,
    k: int,
) -> Seq<TocModel>
    decreases items.len() - k,
{
    if 0 <= k < items.len() {
        let e = toc_entry_of(items[k]);
        toc_steps(toc_close_ge(st, e.level).push(e), items, k + 1)
    } else {
        toc_close_all(st)
    }
}

/// The table of contents built from the scanned headings: a synthetic
/// level-0 root whose children are the top-level entries.
pub open spec fn toc_model(items: Seq<(usize, usize, u8, Seq<u8>)>) -> TocModel {
    toc_steps(seq![toc_root()], items, 0)[0]
}

// ---------------------------------------------------------------------------
// Rendering the table of contents
// ---------------------------------------------------------------------------

/// "`<ul class="toc-list">`"
pub open spec fn ul_open() -> Seq<u8> {
    seq![
        60u8, 117u8, 108u8, 32u8, 99u8, 108u8, 97u8, 115u8, 115u8, 61u8, 34u8, 116u8, 111u8,
        99u8, 45u8, 108u8, 105u8, 115u8, 116u8, 34u8, 62u8,
    ]
}

/// "`</ul>`"
pub open spec fn ul_close() -> Seq<u8> {
    seq![60u8, 47u8, 117u8, 108u8, 62u8]
}

/// "`<li class="toc-level`"
pub open spec fn li_pre() -> Seq<u8> {
    seq![
        60u8, 108u8, 105u8, 32u8, 99u8, 108u8, 97u8, 115u8, 115u8, 61u8, 34u8, 116u8, 111u8,
        99u8, 45u8, 108u8, 101u8, 118u8, 101u8, 108u8,
    ]
}

/// "`"><a href="#`"
pub open spec fn li_mid() -> Seq<u8> {
    seq![34u8, 62u8, 60u8, 97u8, 32u8, 104u8, 114u8, 101u8, 102u8, 61u8, 34u8, 35u8]
}

/// "`">`"
pub open spec fn li_gt() -> Seq<u8> {
    seq![34u8, 62u8]
}

/// "`</a>`"
pub open spec fn a_close() -> Seq<u8> {
    seq![60u8, 47u8, 97u8, 62u8]
}

/// "`</li>`"
pub open spec fn li_close() -> Seq<u8> {
    seq![60u8, 47u8, 108u8, 105u8, 62u8]
}

/// Some entry of the list carries non-empty text, so the list is rendered at
/// all.
pub open spec fn toc_visible(items: Seq<TocModel>) -> bool {
    exists|i: int| 0 <= i < items.len() && items[i].text.len() > 0
}

/// The rendered list: nothing when no entry is visible, otherwise the list
/// wrapper around the rendered items.
pub open spec fn render_toc_list(items: Seq<TocModel>) -> Seq<u8>
    decreases items, items.len() + 1,
{
    if !toc_visible(items) {
        Seq::empty()
    } else {
        ul_open() + toc_items(items, items.len() as int) + ul_close()
    }
}

/// The renderings of the first `i` entries, concatenated.
pub open spec fn toc_items(items: Seq<TocModel>, i: int) -> Seq<u8>
    decreases items, i,
{
    if i <= 0 || i > items.len() {
        Seq::empty()
    } else {
        toc_items(items, i - 1) + toc_item(items[i - 1])
    }
}

/// One entry: skipped entirely when its text is empty, otherwise a list item
/// holding an anchor link followed by the rendered list of its sub-entries.
pub open spec fn toc_item(e: TocModel) -> Seq<u8>
    decreases e, 0int,
{
    if e.text.len() == 0 {
        Seq::empty()
    } else {
        li_pre() + seq![(48 + e.level) as u8] + li_mid() + e.id + li_gt() + e.text + a_close()
            + render_toc_list(e.children) + li_close()
    }
}

/// Levels within 1 through 6 (0 for the synthetic root), recursively.
pub open spec fn toc_wf(e: TocModel) -> bool
    decreases e,
{
    0 <= e.level <= 6 && forall|i: int|
        0 <= i < e.children.len() ==> toc_wf(#[trigger] e.children[i])
}

pub open spec fn toc_stack_wf(st: Seq<TocModel>) -> bool {
    forall|i: int| 0 <= i < st.len() ==> toc_wf(#[trigger] st[i])
}

/// The heading levels handed to the builder are the digits 1 through 6.
pub open spec fn items_digits_ok(items: Seq<(usize, usize, u8, Seq<u8>)>) -> bool {
    forall|i: int| 0 <= i < items.len() ==> 49 <= (#[trigger] items[i]).2 <= 54
}

proof fn lemma_toc_add_wf(parent: TocModel, child: TocModel)
    requires
        toc_wf(parent),
        toc_wf(child),
    ensures
        toc_wf(toc_add(parent, child)),
{
    let cs = parent.children.push(child);
    assert forall|i: int| 0 <= i < cs.len() implies toc_wf(#[trigger] cs[i]) by {
        if i < parent.children.len() {
            assert(cs[i] == parent.children[i]);
        } else {
            assert(cs[i] == child);
        }
    }
}

proof fn lemma_toc_close_one_wf(st: Seq<TocModel>)
    requires
        toc_stack_wf(st),
        st.len() >= 1,
    ensures
        toc_stack_wf(toc_close_one(st)),
        toc_close_one(st).len() >= 1,
{
    if st.len() > 1 {
        lemma_toc_add_wf(st[st.len() - 2], st.last());
        let st2 = toc_close_one(st);
        assert forall|i: int| 0 <= i < st2.len() implies toc_wf(#[trigger] st2[i]) by {
            if i < st.len() - 2 {
                assert(st2[i] == st[i]);
            }
        }
    }
}

proof fn lemma_toc_close_ge_wf(st: Seq<TocModel>, level: int)
    requires
        toc_stack_wf(st),
        st.len() >= 1,
    ensures
        toc_stack_wf(toc_close_ge(st, level)),
        toc_close_ge(st, level).len() >= 1,
    decreases st.len(),
{
    if st.len() > 1 && st.last().level >= level {
        lemma_toc_close_one_wf(st);
        lemma_toc_close_ge_wf(toc_close_one(st), level);
    }
}

proof fn lemma_toc_close_all_wf(st: Seq<TocModel>)
    requires
        toc_stack_wf(st),
        st.len() >= 1,
    ensures
        toc_stack_wf(toc_close_all(st)),
        toc_close_all(st).len() >= 1,
    decreases st.len(),
{
    if st.len() > 1 {
        lemma_toc_close_one_wf(st);
        lemma_toc_close_all_wf(toc_close_one(st));
    }
}

proof fn lemma_toc_steps_wf(st: Seq<TocModel>, items: Seq<(usize, usize, u8, Seq<u8>)>, k: int)
    requires
        toc_stack_wf(st),
        st.len() >= 1,
        items_digits_ok(items),
    ensures
        toc_stack_wf(toc_steps(st, items, k)),
        toc_steps(st, items, k).len() >= 1,
    decreases items.len() - k,
{
    if 0 <= k < items.len() {
        let e = toc_entry_of(items[k]);
        lemma_toc_close_ge_wf(st, e.level);
        let st1 = toc_close_ge(st, e.level).push(e);
        assert(toc_wf(e));
        assert forall|i: int| 0 <= i < st1.len() implies toc_wf(#[trigger] st1[i]) by {
            if i < st1.len() - 1 {
                assert(st1[i] == toc_close_ge(st, e.level)[i]);
            }
        }
        lemma_toc_steps_wf(st1, items, k + 1);
    } else {
        lemma_toc_close_all_wf(st);
    }
}

/// The built table of contents has levels within range throughout.
pub proof fn lemma_toc_model_wf(items: Seq<(usize, usize, u8, Seq<u8>)>)
    requires
        items_digits_ok(items),
    ensures
        toc_wf(toc_model(items)),
{
    assert(toc_stack_wf(seq![toc_root()])) by {
        assert(toc_wf(toc_root()));
    }
    lemma_toc_steps_wf(seq![toc_root()], items, 0);
}

// ---------------------------------------------------------------------------
// The executable builder
// ---------------------------------------------------------------------------

pub open spec fn toc_stack_model(st: Seq<TocEntry>) -> Seq<TocModel> {
    Seq::new(st.len(), |i: int| st[i].model())
}

fn toc_add_exec(parent: TocEntry, child: TocEntry) -> (r: TocEntry)
    ensures
        r.model() == toc_add(parent.model(), child.model()),
{
    let ghost cm = child.model();
    let TocEntry { level, text, id, mut children } = parent;
    let ghost before = children;
    children.push(child);
    proof {
        assert(TocEntry::models_of(children) =~= TocEntry::models_of(before).push(cm));
    }
    TocEntry { level, text, id, children }
}

fn toc_close_one_exec(stack: &mut Vec<TocEntry>)
    requires
        old(stack)@.len() >= 1,
    ensures
        toc_stack_model(final(stack)@) == toc_close_one(toc_stack_model(old(stack)@)),
        final(stack)@.len() == if old(stack)@.len() > 1 {
            old(stack)@.len() - 1
        } else {
            old(stack)@.len() as int
        },
{
    let ghost st0 = toc_stack_model(stack@);
    if stack.len() <= 1 {
        proof {
            assert(toc_stack_model(stack@) =~= toc_close_one(st0));
        }
        return;
    }
    let top = stack.pop().unwrap();
    let parent = stack.pop().unwrap();
    let np = toc_add_exec(parent, top);
    stack.push(np);
    proof {
        assert(toc_stack_model(stack@) =~= toc_close_one(st0));
    }
}

fn toc_level_ge(e: &TocEntry, level: usize) -> (r: bool)
    ensures
        r == (e.model().level >= level as int),
{
    e.level >= level
}

/// Builds the table of contents from the scanned headings: each heading
/// closes every stacked entry of its level or deeper, then opens its own
/// entry; at the end everything is attached up to the synthetic root.
pub fn build_toc(hs: &Vec<Heading>) -> (root: TocEntry)
    requires
        forall|i: int| 0 <= i < hs@.len() ==> 49 <= (#[trigger] hs@[i]).level_digit <= 54,
    ensures
        root.model() == toc_model(items_of(hs@)),
{
    let ghost items = items_of(hs@);
    let mut stack: Vec<TocEntry> = Vec::new();
    let fresh: Vec<TocEntry> = Vec::new();
    proof {
        assert(TocEntry::models_of(fresh) =~= Seq::<TocModel>::empty());
    }
    let empty_text: Vec<u8> = Vec::new();
    let empty_id: Vec<u8> = Vec::new();
    stack.push(TocEntry { level: 0, text: empty_text, id: empty_id, children: fresh });
    proof {
        assert(toc_stack_model(stack@) =~= seq![toc_root()]);
    }
    let mut k: usize = 0;
    while k < hs.len()
        invariant
            0 <= k <= hs@.len(),
            items == items_of(hs@),
            forall|i: int| 0 <= i < hs@.len() ==> 49 <= (#[trigger] hs@[i]).level_digit <= 54,
            stack@.len() >= 1,
            toc_steps(seq![toc_root()], items, 0) == toc_steps(
                toc_stack_model(stack@),
                items,
                k as int,
            ),
        decreases hs@.len() - k,
    {
        let h = &hs[k];
        let level = (h.level_digit - 48) as usize;
        let text = strip_code_exec(h.text.as_slice());
        let id = anchor_exec(text.as_slice());
        let ghost em = toc_entry_of(items[k as int]);
        let ghost before = toc_stack_model(stack@);
        while stack.len() > 1 && toc_level_ge(&stack[stack.len() - 1], level)
            invariant
                stack@.len() >= 1,
                toc_close_ge(before, level as int) == toc_close_ge(
                    toc_stack_model(stack@),
                    level as int,
                ),
            decreases stack@.len(),
        {
            proof {
                assert(toc_stack_model(stack@).last() == stack@[stack@.len() - 1].model());
            }
            toc_close_one_exec(&mut stack);
        }
        proof {
            if stack@.len() > 1 {
                assert(toc_stack_model(stack@).last() == stack@[stack@.len() - 1].model());
            }
            assert(toc_close_ge(toc_stack_model(stack@), level as int) == toc_stack_model(
                stack@,
            ));
        }
        let fresh2: Vec<TocEntry> = Vec::new();
        proof {
            assert(TocEntry::models_of(fresh2) =~= Seq::<TocModel>::empty());
        }
        stack.push(TocEntry { level, text, id, children: fresh2 });
        proof {
            assert(toc_stack_model(stack@) =~= toc_close_ge(before, level as int).push(em));
        }
        k = k + 1;
    }
    while stack.len() > 1
        invariant
            stack@.len() >= 1,
            toc_model(items) == toc_close_all(toc_stack_model(stack@))[0],
        decreases stack@.len(),
    {
        toc_close_one_exec(&mut stack);
    }
    let root = stack.pop().unwrap();
    proof {
        assert(toc_close_all(toc_stack_model(stack@.push(root))) == toc_stack_model(
            stack@.push(root),
        ));
        assert(toc_stack_model(stack@.push(root))[0] == root.model());
    }
    root
}

// ---------------------------------------------------------------------------
// The executable renderer
// ---------------------------------------------------------------------------

fn ul_open_vec() -> (r: Vec<u8>)
    ensures
        r@ == ul_open(),
{
    let mut r: Vec<u8> = Vec::new();
    r.push(60);
    r.push(117);
    r.push(108);
    r.push(32);
    r.push(99);
    r.push(108);
    r.push(97);
    r.push(115);
    r.push(115);
    r.push(61);
    r.push(34);
    r.push(116);
    r.push(111);
    r.push(99);
    r.push(45);
    r.push(108);
    r.push(105);
    r.push(115);
    r.push(116);
    r.push(34);
    r.push(62);
    proof {
        assert(r@ =~= ul_open());
    }
    r
}

fn li_pre_vec() -> (r: Vec<u8>)
    ensures
        r@ == li_pre(),
{
    let mut r: Vec<u8> = Vec::new();
    r.push(60);
    r.push(108);
    r.push(105);
    r.push(32);
    r.push(99);
    r.push(108);
    r.push(97);
    r.push(115);
    r.push(115);
    r.push(61);
    r.push(34);
    r.push(116);
    r.push(111);
    r.push(99);
    r.push(45);
    r.push(108);
    r.push(101);
    r.push(118);
    r.push(101);
    r.push(108);
    proof {
        assert(r@ =~= li_pre());
    }
    r
}

fn li_mid_vec() -> (r: Vec<u8>)
    ensures
        r@ == li_mid(),
{
    let mut r: Vec<u8> = Vec::new();
    r.push(34);
    r.push(62);
    r.push(60);
    r.push(97);
    r.push(32);
    r.push(104);
    r.push(114);
    r.push(101);
    r.push(102);
    r.push(61);
    r.push(34);
    r.push(35);
    proof {
        assert(r@ =~= li_mid());
    }
    r
}

/// Renders a list of entries: nothing when none is visible, else the list
/// wrapper around one item per visible entry, each item holding an anchor
/// link followed by its recursively rendered sub-entries.
#[verifier::rlimit(100)]
pub fn render_toc(entries: &Vec<TocEntry>) -> (r: Vec<u8>)
    requires
        forall|i: int| 0 <= i < entries@.len() ==> toc_wf((#[trigger] entries@[i]).model()),
    ensures
        r@ == render_toc_list(TocEntry::models_of(*entries)),
    decreases *entries,
{
    let ghost cs = TocEntry::models_of(*entries);
    let mut any: bool = false;
    let mut i: usize = 0;
    while i < entries.len()
        invariant
            0 <= i <= entries@.len(),
            cs == TocEntry::models_of(*entries),
            any == exists|j: int| 0 <= j < i && cs[j].text.len() > 0,
        decreases entries@.len() - i,
    {
        if entries[i].text.len() > 0 {
            proof {
                assert(cs[i as int].text.len() > 0);
            }
            any = true;
        }
        i = i + 1;
    }
    let mut out: Vec<u8> = Vec::new();
    if !any {
        proof {
            assert(!toc_visible(cs));
        }
        return out;
    }
    let uo = ul_open_vec();
    crate::bytes::append_sub(&mut out, uo.as_slice(), 0, uo.len());
    proof {
        assert(uo@.subrange(0, uo@.len() as int) =~= ul_open());
        assert(out@ =~= ul_open() + toc_items(cs, 0));
    }
    let lp = li_pre_vec();
    let lm = li_mid_vec();
    let mut k: usize = 0;
    while k < entries.len()
        invariant
            0 <= k <= entries@.len(),
            cs == TocEntry::models_of(*entries),
            forall|i2: int| 0 <= i2 < entries@.len() ==> toc_wf((#[trigger] entries@[i2]).model()),
            lp@ == li_pre(),
            lm@ == li_mid(),
            out@ == ul_open() + toc_items(cs, k as int),
        decreases entries@.len() - k,
    {
        let ghost oprev = out@;
        let e = &entries[k];
        if e.text.len() > 0 {
            proof {
                assert(toc_wf(cs[k as int]));
            }
            crate::bytes::append_sub(&mut out, lp.as_slice(), 0, lp.len());
            let digit: u8 = 48 + (e.level as u8);
            out.push(digit);
            crate::bytes::append_sub(&mut out, lm.as_slice(), 0, lm.len());
            crate::bytes::append_sub(&mut out, e.id.as_slice(), 0, e.id.len());
            out.push(34);
            out.push(62);
            crate::bytes::append_sub(&mut out, e.text.as_slice(), 0, e.text.len());
            out.push(60);
            out.push(47);
            out.push(97);
            out.push(62);
            proof {
                assert(decreases_to!(*entries => entries@[k as int]));
                assert(decreases_to!(entries@[k as int] => entries@[k as int].children));
                assert forall|i2: int| 0 <= i2 < e.children@.len() implies toc_wf(
                    (#[trigger] e.children@[i2]).model(),
                ) by {
                    assert(cs[k as int].children[i2] == e.children@[i2].model());
                }
            }
            let sub = render_toc(&e.children);
            crate::bytes::append_sub(&mut out, sub.as_slice(), 0, sub.len());
            out.push(60);
            out.push(47);
            out.push(108);
            out.push(105);
            out.push(62);
            proof {
                assert(lp@.subrange(0, lp@.len() as int) =~= li_pre());
                assert(lm@.subrange(0, lm@.len() as int) =~= li_mid());
                assert(e.id@.subrange(0, e.id@.len() as int) =~= e.id@);
                assert(e.text@.subrange(0, e.text@.len() as int) =~= e.text@);
                assert(sub@.subrange(0, sub@.len() as int) =~= sub@);
                assert(out@ =~= oprev + (li_pre() + seq![(48 + cs[k as int].level) as u8]
                    + li_mid() + cs[k as int].id + li_gt() + cs[k as int].text + a_close()
                    + render_toc_list(cs[k as int].children) + li_close()));
                assert(toc_item(cs[k as int]) == li_pre() + seq![(48 + cs[k as int].level) as u8]
                    + li_mid() + cs[k as int].id + li_gt() + cs[k as int].text + a_close()
                    + render_toc_list(cs[k as int].children) + li_close());
                assert(toc_items(cs, k as int + 1) == toc_items(cs, k as int) + toc_item(
                    cs[k as int],
                ));
                assert(out@ =~= ul_open() + toc_items(cs, k as int + 1));
            }
        } else {
            proof {
                assert(cs[k as int].text.len() == 0);
                assert(toc_item(cs[k as int]) == Seq::<u8>::empty());
                assert(toc_items(cs, k as int + 1) == toc_items(cs, k as int) + toc_item(
                    cs[k as int],
                ));
                assert(out@ =~= ul_open() + toc_items(cs, k as int + 1));
            }
        }
        k = k + 1;
    }
    out.push(60);
    out.push(47);
    out.push(117);
    out.push(108);
    out.push(62);
    proof {
        assert(toc_visible(cs));
        assert(out@ =~= ul_open() + toc_items(cs, cs.len() as int) + ul_close());
    }
    out
}

} // verus!
