use vstd::prelude::*;
use crate::bytes::{trim, find_pat, indent_seq};
use crate::render::{render_node, render_prefix, lines_out, is_pre_block};
use crate::toc::{toc_model, toc_root, render_toc_list};
use crate::tree::{SecModel, build_model, init_stack, gap_step, push_content, close_one,
    close_all, delim};

verus! {

/// An explicit-close marker closes exactly one open section: a gap holding
/// one marker and nothing else maps the open-node stack to one close; a gap
/// holding two consecutive markers closes exactly two; and with no section
/// open a marker is a no-op that consumes nothing.
pub proof fn lemma_marker_closes_exactly_one(st: Seq<SecModel>)
    ensures
        gap_step(st, delim(), 0) == close_one(st),
        gap_step(st, delim() + delim(), 0) == close_one(close_one(st)),
        st.len() <= 1 ==> gap_step(st, delim(), 0) == st,
{
    let d = delim();
    let dd = delim() + delim();
    assert(d.subrange(0, d.len() as int) =~= d);
    assert(find_pat(d, d, 0) == Some(0int));
    assert(d.subrange(0, 0) =~= Seq::<u8>::empty());
    assert(trim(Seq::<u8>::empty()).len() == 0);
    assert(push_content(st, d.subrange(0, 0)) == st);
    assert(find_pat(d, d, 10) is None);
    assert(d.subrange(10, 10) =~= Seq::<u8>::empty());
    assert(push_content(close_one(st), d.subrange(10, 10)) == close_one(st));
    assert(gap_step(st, d, 0) == gap_step(close_one(st), d, 10));
    assert(gap_step(close_one(st), d, 10) == push_content(close_one(st), d.subrange(10, 10)));
    assert(gap_step(st, d, 0) == close_one(st));

    assert(dd.subrange(0, 10) =~= d);
    assert(find_pat(dd, d, 0) == Some(0int));
    assert(dd.subrange(0, 0) =~= Seq::<u8>::empty());
    assert(dd.subrange(10, 20) =~= d);
    assert(find_pat(dd, d, 10) == Some(10int));
    assert(dd.subrange(10, 10) =~= Seq::<u8>::empty());
    assert(find_pat(dd, d, 20) is None);
    assert(dd.subrange(20, 20) =~= Seq::<u8>::empty());
    assert(push_content(st, dd.subrange(0, 0)) == st);
    assert(gap_step(st, dd, 0) == gap_step(close_one(st), dd, 10));
    assert(push_content(close_one(st), dd.subrange(10, 10)) == close_one(st));
    assert(gap_step(close_one(st), dd, 10) == gap_step(close_one(close_one(st)), dd, 20));
    assert(push_content(close_one(close_one(st)), dd.subrange(20, 20)) == close_one(
        close_one(st),
    ));
    assert(gap_step(close_one(close_one(st)), dd, 20) == close_one(close_one(st)));
    assert(gap_step(st, dd, 0) == close_one(close_one(st)));
}

/// A preformatted content leaf is emitted byte for byte, changed only by its
/// surrounding indentation and terminating newline; any other leaf is
/// emitted line by line, each line trimmed and blank lines dropped.
pub proof fn lemma_content_leaf_render(text: Seq<u8>, ind: nat)
    ensures
        is_pre_block(trim(text)) ==> render_node(SecModel::Text { text }, ind) == indent_seq(ind)
            + trim(text) + seq![10u8],
        !is_pre_block(trim(text)) ==> render_node(SecModel::Text { text }, ind) == lines_out(
            trim(text),
            0,
            ind,
        ),
{
}

/// A fragment with no headings and no markers renders to exactly its
/// trimmed, line-split content, wrapped in no section element. (A fragment
/// that is itself one complete preformatted block is emitted verbatim
/// instead, so it is excluded here.)
pub proof fn lemma_no_headings_round_trip(html: Seq<u8>, ind: nat)
    requires
        (find_pat(html, delim(), 0) is None),
        !is_pre_block(trim(html)),
    ensures
        render_node(build_model(html, Seq::empty()), ind) == lines_out(trim(html), 0, ind),
{
    assert(html.subrange(0, html.len() as int) =~= html);
    let st1 = push_content(init_stack(), html);
    assert(gap_step(init_stack(), html, 0) == st1);
    if trim(html).len() == 0 {
        assert(st1 == init_stack());
        assert(close_all(st1) == init_stack());
        assert(build_model(html, Seq::empty()) == SecModel::Root { children: Seq::empty() });
        assert(render_node(SecModel::Root { children: Seq::empty() }, ind)
            == render_prefix(Seq::empty(), 0, ind));
        assert(lines_out(trim(html), 0, ind) == Seq::<u8>::empty());
    } else {
        let leaf = SecModel::Text { text: html };
        let root = SecModel::Root { children: seq![leaf] };
        assert(init_stack().last() == SecModel::Root { children: Seq::empty() });
        assert(Seq::<SecModel>::empty().push(leaf) =~= seq![leaf]);
        assert(st1 =~= seq![root]);
        assert(close_all(st1) == st1);
        assert(build_model(html, Seq::empty()) == root);
        assert(render_node(root, ind) == render_prefix(seq![leaf], 1, ind));
        assert(render_prefix(seq![leaf], 0, ind) == Seq::<u8>::empty());
        assert(render_prefix(seq![leaf], 1, ind) =~= render_node(leaf, ind));
        assert(render_node(leaf, ind) == lines_out(trim(html), 0, ind));
    }
}

/// An empty document yields a root with no children, an empty rendered
/// body, a table of contents with no entries, and an empty rendered list.
pub proof fn lemma_empty_document(ind: nat)
    ensures
        build_model(Seq::empty(), Seq::empty()) == (SecModel::Root { children: Seq::empty() }),
        render_node(build_model(Seq::empty(), Seq::empty()), ind) == (Seq::<u8>::empty()),
        toc_model(Seq::empty()) == toc_root(),
        render_toc_list(toc_model(Seq::empty()).children) == (Seq::<u8>::empty()),
{
    let e = Seq::<u8>::empty();
    assert(e.subrange(0, 0) =~= e);
    assert(trim(e).len() == 0);
    assert(push_content(init_stack(), e) == init_stack());
    assert(gap_step(init_stack(), e, 0) == init_stack());
    assert(close_all(init_stack()) == init_stack());
    assert(build_model(e, Seq::empty()) == SecModel::Root { children: Seq::empty() });
    assert(render_node(SecModel::Root { children: Seq::empty() }, ind) == render_prefix(
        Seq::empty(),
        0,
        ind,
    ));
    assert(crate::toc::toc_steps(seq![toc_root()], Seq::empty(), 0) == crate::toc::toc_close_all(
        seq![toc_root()],
    ));
    assert(toc_model(Seq::empty()) == toc_root());
}

} // verus!
