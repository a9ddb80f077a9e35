use vstd::prelude::*;
use crate::bytes::{trim, find_byte, match_at, indent_seq, lemma_find_byte_bounds};
use crate::tree::{Section, SecModel, build_model, build_section_tree};
use crate::scan::{heading_scan, span_items, scan_headings, heading_spans, items_of,
    lemma_scan_wf_spans};

verus! {

// ---------------------------------------------------------------------------
// What the renderer emits, as functions on the model
// ---------------------------------------------------------------------------

/// The opening wrapper line of a section.
pub open spec fn div_open() -> Seq<u8> {
    seq![
        60u8, 100u8, 105u8, 118u8, 32u8, 99u8, 108u8, 97u8, 115u8, 115u8, 61u8, 34u8, 115u8,
        101u8, 99u8, 116u8, 105u8, 111u8, 110u8, 34u8, 62u8,
    ]
}

/// The closing wrapper of a section.
pub open spec fn div_close() -> Seq<u8> {
    seq![60u8, 47u8, 100u8, 105u8, 118u8, 62u8]
}

/// The marker that opens a preformatted code block.
pub open spec fn pre_open() -> Seq<u8> {
    seq![60u8, 112u8, 114u8, 101u8, 62u8, 60u8, 99u8, 111u8, 100u8, 101u8]
}

/// The marker that closes a preformatted code block.
pub open spec fn pre_close() -> Seq<u8> {
    seq![60u8, 47u8, 99u8, 111u8, 100u8, 101u8, 62u8, 60u8, 47u8, 112u8, 114u8, 101u8, 62u8]
}

/// A complete preformatted block: it begins with the opening marker and ends
/// with the matching closing marker.
pub open spec fn is_pre_block(t: Seq<u8>) -> bool {
    match_at(t, pre_open(), 0) && match_at(t, pre_close(), t.len() - pre_close().len())
}

/// The non-blank lines of `t` from `pos` on, each trimmed, indented and
/// newline-terminated; blank lines are dropped.
pub open spec fn lines_out(t: Seq<u8>, pos: int, ind: nat) -> Seq<u8>
    decreases t.len() - pos,
{
    if pos < 0 || pos >= t.len() {
        Seq::empty()
    } else {
        let k = find_byte(t, pos, 10);
        let line = trim(t.subrange(pos, k));
        let head = if line.len() > 0 {
            indent_seq(ind) + line + seq![10u8]
        } else {
            Seq::empty()
        };
        if pos <= k < t.len() {
            head + lines_out(t, k + 1, ind)
        } else {
            head
        }
    }
}

/// The rendering of one node at indent `ind`: the root emits its children
/// bare; a section wraps its trimmed heading and children; a preformatted
/// leaf is emitted verbatim on one line; any other leaf is re-flowed line by
/// line.
pub open spec fn render_node(n: SecModel, ind: nat) -> Seq<u8>
    decreases n, 0int,
{
    match n {
        SecModel::Root { children } => render_prefix(children, children.len() as int, ind),
        SecModel::Sec { head, children, .. } => indent_seq(ind) + div_open() + seq![10u8]
            + indent_seq(ind + 1) + trim(head) + seq![10u8] + render_prefix(
            children,
            children.len() as int,
            ind + 1,
        ) + indent_seq(ind) + div_close() + seq![10u8],
        SecModel::Text { text } => {
            let t = trim(text);
            if is_pre_block(t) {
                indent_seq(ind) + t + seq![10u8]
            } else {
                lines_out(t, 0, ind)
            }
        },
    }
}

/// The renderings of the first `i` nodes of `cs`, concatenated.
pub open spec fn render_prefix(cs: Seq<SecModel>, i: int, ind: nat) -> Seq<u8>
    decreases cs, i,
{
    if i <= 0 || i > cs.len() {
        Seq::empty()
    } else {
        render_prefix(cs, i - 1, ind) + render_node(cs[i - 1], ind)
    }
}

// ---------------------------------------------------------------------------
// Executable rendering
// ---------------------------------------------------------------------------

fn div_open_vec() -> (r: Vec<u8>)
    ensures
        r@ == div_open(),
{
    let mut r: Vec<u8> = Vec::new();
    r.push(60);
    r.push(100);
    r.push(105);
    r.push(118);
    r.push(32);
    r.push(99);
    r.push(108);
    r.push(97);
    r.push(115);
    r.push(115);
    r.push(61);
    r.push(34);
    r.push(115);
    r.push(101);
    r.push(99);
    r.push(116);
    r.push(105);
    r.push(111);
    r.push(110);
    r.push(34);
    r.push(62);
    proof {
        assert(r@ =~= div_open());
    }
    r
}

fn div_close_vec() -> (r: Vec<u8>)
    ensures
        r@ == div_close(),
{
    let mut r: Vec<u8> = Vec::new();
    r.push(60);
    r.push(47);
    r.push(100);
    r.push(105);
    r.push(118);
    r.push(62);
    proof {
        assert(r@ =~= div_close());
    }
    r
}

fn pre_open_vec() -> (r: Vec<u8>)
    ensures
        r@ == pre_open(),
{
    let mut r: Vec<u8> = Vec::new();
    r.push(60);
    r.push(112);
    r.push(114);
    r.push(101);
    r.push(62);
    r.push(60);
    r.push(99);
    r.push(111);
    r.push(100);
    r.push(101);
    proof {
        assert(r@ =~= pre_open());
    }
    r
}

fn pre_close_vec() -> (r: Vec<u8>)
    ensures
        r@ == pre_close(),
{
    let mut r: Vec<u8> = Vec::new();
    r.push(60);
    r.push(47);
    r.push(99);
    r.push(111);
    r.push(100);
    r.push(101);
    r.push(62);
    r.push(60);
    r.push(47);
    r.push(112);
    r.push(114);
    r.push(101);
    r.push(62);
    proof {
        assert(r@ =~= pre_close());
    }
    r
}

/// Emits the non-blank lines of `t`, trimmed, at indent `pre`.
fn emit_lines(f: &mut Vec<u8>, t: &[u8], pre: &Vec<u8>, Ghost(ind): Ghost<nat>)
    requires
        pre@ == indent_seq(ind),
    ensures
        final(f)@ == old(f)@ + lines_out(t@, 0, ind),
{
    let n = t.len();
    let ghost f0 = f@;
    let mut pos: usize = 0;
    while pos < n
        invariant
            pos <= n == t@.len(),
            pre@ == indent_seq(ind),
            f0 == old(f)@,
            f0 + lines_out(t@, 0, ind) == f@ + lines_out(t@, pos as int, ind),
        decreases n - pos,
    {
        proof {
            lemma_find_byte_bounds(t@, pos as int, 10);
        }
        let k = crate::bytes::find_byte_exec(t, pos, 10);
        let line = {
            let piece = crate::bytes::subvec(t, pos, k);
            crate::bytes::trim_vec(piece.as_slice())
        };
        let ghost fprev = f@;
        if line.len() > 0 {
            crate::bytes::append_sub(f, pre.as_slice(), 0, pre.len());
            crate::bytes::append_sub(f, line.as_slice(), 0, line.len());
            f.push(10);
            proof {
                assert(pre@.subrange(0, pre@.len() as int) =~= indent_seq(ind));
                assert(line@.subrange(0, line@.len() as int) =~= line@);
                assert(f@ =~= fprev + (indent_seq(ind) + line@ + seq![10u8]));
            }
        }
        if k < n {
            pos = k + 1;
        } else {
            proof {
                assert(f0 + lines_out(t@, 0, ind) =~= f@);
            }
            return;
        }
    }
    proof {
        assert(f0 + lines_out(t@, 0, ind) =~= f@);
    }
}

impl Section {
    /// Appends the rendering of this node at indent `indent` to `f`:
    /// sections as indented wrappers around their trimmed heading and
    /// children, preformatted leaves verbatim on one line, other leaves
    /// trimmed line by line.
    pub fn fmt_with_indent(&self, f: &mut Vec<u8>, indent: usize)
        ensures
            final(f)@ == old(f)@ + render_node(self.model(), indent as nat),
    {
        let mut pre: Vec<u8> = Vec::new();
        crate::bytes::push_indent(&mut pre, indent);
        self.fmt_rec(f, &pre, Ghost(indent as nat));
    }

    fn fmt_rec(&self, f: &mut Vec<u8>, pre: &Vec<u8>, Ghost(ind): Ghost<nat>)
        requires
            pre@ == indent_seq(ind),
        ensures
            final(f)@ == old(f)@ + render_node(self.model(), ind),
        decreases *self,
    {
        match self {
            Section::Root(children) => {
                let ghost cs = Section::models_of(*children);
                let ghost f0 = f@;
                let mut i: usize = 0;
                while i < children.len()
                    invariant
                        0 <= i <= children@.len(),
                        cs == Section::models_of(*children),
                        pre@ == indent_seq(ind),
                        f@ == f0 + render_prefix(cs, i as int, ind),
                        *self == Section::Root(*children),
                    decreases children@.len() - i,
                {
                    proof {
                        assert((*self)->Root_0 == *children);
                        assert(decreases_to!(*self => (*self)->Root_0));
                        assert(decreases_to!(*children => children@[i as int]));
                    }
                    children[i].fmt_rec(f, pre, Ghost(ind));
                    i = i + 1;
                }
                proof {
                    assert(render_node(self.model(), ind) == render_prefix(
                        cs,
                        cs.len() as int,
                        ind,
                    ));
                }
            },
            Section::Section { head, children, .. } => {
                let ghost cs = Section::models_of(*children);
                let ghost f0 = f@;
                let mut pre2: Vec<u8> = Vec::new();
                crate::bytes::append_sub(&mut pre2, pre.as_slice(), 0, pre.len());
                pre2.push(32);
                pre2.push(32);
                pre2.push(32);
                pre2.push(32);
                proof {
                    assert(pre@.subrange(0, pre@.len() as int) =~= indent_seq(ind));
                    assert(pre2@ =~= indent_seq(ind + 1));
                }
                crate::bytes::append_sub(f, pre.as_slice(), 0, pre.len());
                let dop = div_open_vec();
                crate::bytes::append_sub(f, dop.as_slice(), 0, dop.len());
                f.push(10);
                crate::bytes::append_sub(f, pre2.as_slice(), 0, pre2.len());
                let th = crate::bytes::trim_vec(head.as_slice());
                crate::bytes::append_sub(f, th.as_slice(), 0, th.len());
                f.push(10);
                let ghost fmid = f@;
                proof {
                    assert(dop@.subrange(0, dop@.len() as int) =~= div_open());
                    assert(pre2@.subrange(0, pre2@.len() as int) =~= indent_seq(ind + 1));
                    assert(th@.subrange(0, th@.len() as int) =~= trim(head@));
                    assert(fmid =~= f0 + (indent_seq(ind) + div_open() + seq![10u8] + indent_seq(
                        ind + 1,
                    ) + trim(head@) + seq![10u8]));
                }
                let mut i: usize = 0;
                while i < children.len()
                    invariant
                        0 <= i <= children@.len(),
                        cs == Section::models_of(*children),
                        pre2@ == indent_seq(ind + 1),
                        f@ == fmid + render_prefix(cs, i as int, ind + 1),
                        *self matches Section::Section { children: c, .. } && c == *children,
                    decreases children@.len() - i,
                {
                    proof {
                        assert((*self)->Section_children == *children);
                        assert(decreases_to!(*self => (*self)->Section_children));
                        assert(decreases_to!(*children => children@[i as int]));
                    }
                    children[i].fmt_rec(f, &pre2, Ghost(ind + 1));
                    i = i + 1;
                }
                crate::bytes::append_sub(f, pre.as_slice(), 0, pre.len());
                let dcl = div_close_vec();
                crate::bytes::append_sub(f, dcl.as_slice(), 0, dcl.len());
                f.push(10);
                proof {
                    assert(dcl@.subrange(0, dcl@.len() as int) =~= div_close());
                    assert(f@ =~= f0 + render_node(self.model(), ind));
                }
            },
            Section::Content(text) => {
                let ghost f0 = f@;
                let t = crate::bytes::trim_vec(text.as_slice());
                let po = pre_open_vec();
                let pc = pre_close_vec();
                let open_ok = crate::bytes::match_at_exec(t.as_slice(), po.as_slice(), 0);
                let close_ok = t.len() >= pc.len() && crate::bytes::match_at_exec(
                    t.as_slice(),
                    pc.as_slice(),
                    t.len() - pc.len(),
                );
                if open_ok && close_ok {
                    crate::bytes::append_sub(f, pre.as_slice(), 0, pre.len());
                    crate::bytes::append_sub(f, t.as_slice(), 0, t.len());
                    f.push(10);
                    proof {
                        assert(pre@.subrange(0, pre@.len() as int) =~= indent_seq(ind));
                        assert(t@.subrange(0, t@.len() as int) =~= t@);
                        assert(f@ =~= f0 + render_node(self.model(), ind));
                    }
                } else {
                    proof {
                        assert(!is_pre_block(trim(text@)));
                    }
                    emit_lines(f, t.as_slice(), pre, Ghost(ind));
                }
            },
        }
    }
}

/// Locates the headings of rendered fragment `html`, builds the section tree
/// from them with both the depth rule and the explicit-close markers, and
/// renders the tree as nested wrapper markup starting at indent 2.
#[verifier::rlimit(60)]
pub fn wrap_head_sections_nested(html: &[u8]) -> (r: Vec<u8>)
    ensures
        r@ == render_node(build_model(html@, span_items(heading_scan(html@))), 2),
{
    let hs = scan_headings(html);
    proof {
        lemma_scan_wf_spans(html@, items_of(hs@));
        assert forall|i: int| 0 <= i < hs@.len() implies 49 <= (#[trigger] hs@[i]).level_digit
            <= 54 by {
            assert(items_of(hs@)[i] == hs@[i].item());
        }
    }
    let spans = heading_spans(&hs);
    proof {
        assert(Seq::new(
            spans@.len(),
            |i: int| (spans@[i].0 as int, spans@[i].1 as int, spans@[i].2 as int),
        ) == span_items(heading_scan(html@)));
    }
    let root = build_section_tree(html, &spans);
    let mut buf: Vec<u8> = Vec::new();
    root.fmt_with_indent(&mut buf, 2);
    buf
}

} // verus!
