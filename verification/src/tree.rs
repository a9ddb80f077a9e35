use vstd::prelude::*;
use crate::bytes::{trim, find_pat, lemma_find_pat_props};

verus! {

// ---------------------------------------------------------------------------
// The section tree and its mathematical model
// ---------------------------------------------------------------------------

/// One node of the section tree: the document root, a section opened by a
/// heading, or a leaf of verbatim content.
pub enum Section {
    Root(Vec<Section>),
    Section { level: usize, head: Vec<u8>, children: Vec<Section> },
    Content(Vec<u8>),
}

/// The mathematical shape of a section tree, used by every contract.
pub enum SecModel {
    Root { children: Seq<SecModel> },
    Sec { level: int, head: Seq<u8>, children: Seq<SecModel> },
    Text { text: Seq<u8> },
}

impl Section {
    /// The model of this node: the same tree over `Seq` values.
    pub open spec fn model(self) -> SecModel
        decreases self,
    {
        match self {
            Section::Root(children) => SecModel::Root { children: Self::models_of(children) },
            Section::Section { level, head, children } => SecModel::Sec {
                level: level as int,
                head: head@,
                children: Self::models_of(children),
            },
            Section::Content(text) => SecModel::Text { text: text@ },
        }
    }

    /// The models of a vector of child nodes, in order.
    pub open spec fn models_of(children: Vec<Section>) -> Seq<SecModel>
        decreases children,
    {
        Seq::new(
            children@.len(),
            |i: int|
                if 0 <= i < children@.len() {
                    children@[i].model()
                } else {
                    SecModel::Text { text: Seq::empty() }
                },
        )
    }
}

// ---------------------------------------------------------------------------
// The builder, as a machine over stacks of open nodes
// ---------------------------------------------------------------------------

/// The explicit-close marker: a paragraph holding exactly three semicolons.
pub open spec fn delim() -> Seq<u8> {
    seq![60u8, 112u8, 62u8, 59u8, 59u8, 59u8, 60u8, 47u8, 112u8, 62u8]
}

/// A located heading: start offset, end offset (both byte offsets into the
/// fragment) and its level.
pub type SpanTriple = (int, int, int);

/// The spans are in document order, non-overlapping, within bounds, and carry
/// levels between 1 and 6.
pub open spec fn spans_wf(s: Seq<u8>, spans: Seq<SpanTriple>) -> bool {
    &&& forall|i: int|
        0 <= i < spans.len() ==> {
            &&& 0 <= (#[trigger] spans[i]).0 < spans[i].1 <= s.len()
            &&& 1 <= spans[i].2 <= 6
        }
    &&& forall|i: int|
        0 <= i && i + 1 < spans.len() ==> (#[trigger] spans[i]).1 <= spans[i + 1].0
}

/// `c` appended to the children of `n` (no effect on a content leaf, which
/// never has children).
pub open spec fn add_child(n: SecModel, c: SecModel) -> SecModel {
    match n {
        SecModel::Root { children } => SecModel::Root { children: children.push(c) },
        SecModel::Sec { level, head, children } => SecModel::Sec {
            level,
            head,
            children: children.push(c),
        },
        SecModel::Text { text } => SecModel::Text { text },
    }
}

/// Appends `text` as a content leaf of the innermost open node, unless it is
/// blank after trimming.
pub open spec fn push_content(st: Seq<SecModel>, text: Seq<u8>) -> Seq<SecModel> {
    if trim(text).len() == 0 || st.len() == 0 {
        st
    } else {
        st.update(st.len() - 1, add_child(st.last(), SecModel::Text { text }))
    }
}

/// Closes the innermost open section, appending it to its parent; a no-op
/// when only the root is open.
pub open spec fn close_one(st: Seq<SecModel>) -> Seq<SecModel> {
    if st.len() <= 1 {
        st
    } else {
        let top = st.last();
        let rest = st.drop_last();
        rest.update(rest.len() - 1, add_child(rest.last(), top))
    }
}

/// Closes every open section whose level is greater than or equal to `level`.
pub open spec fn close_ge(st: Seq<SecModel>, level: int) -> Seq<SecModel>
    decreases st.len(),
{
    if st.len() > 1 && (st.last() matches SecModel::Sec { level: l, .. } && l >= level) {
        close_ge(close_one(st), level)
    } else {
        st
    }
}

/// The depth rule, then a fresh open section for the incoming heading.
pub open spec fn open_heading(st: Seq<SecModel>, level: int, head: Seq<u8>) -> Seq<SecModel> {
    close_ge(st, level).push(SecModel::Sec { level, head, children: Seq::empty() })
}

/// Closes every open section, deepest first, until only the root remains.
pub open spec fn close_all(st: Seq<SecModel>) -> Seq<SecModel>
    decreases st.len(),
{
    if st.len() > 1 {
        close_all(close_one(st))
    } else {
        st
    }
}

/// Scans `text` from `pos` for explicit-close markers: the text before each
/// marker becomes a content leaf and one open section is closed per marker;
/// the tail after the last marker becomes a final content leaf.
pub open spec fn gap_step(st: Seq<SecModel>, text: Seq<u8>, pos: int) -> Seq<SecModel>
    decreases text.len() - pos,
{
    match find_pat(text, delim(), pos) {
        Some(i) => {
            if pos <= i && i + delim().len() <= text.len() {
                gap_step(
                    close_one(push_content(st, text.subrange(pos, i))),
                    text,
                    i + delim().len() as int,
                )
            } else {
                push_content(st, text.subrange(pos, text.len() as int))
            }
        },
        None => push_content(st, text.subrange(pos, text.len() as int)),
    }
}

/// Runs the whole builder: alternating content gaps and headings, the final
/// trailing gap, then the unconditional close of every open section.
pub open spec fn build_steps(
    st: Seq<SecModel>,
    s: Seq<u8>,
    spans: Seq<SpanTriple>,
    k: int,
    last_end: int,
) -> Seq<SecModel>
    decreases spans.len() - k,
{
    if 0 <= k < spans.len() {
        let sp = spans[k];
        let st1 = gap_step(st, s.subrange(last_end, sp.0), 0);
        let st2 = open_heading(st1, sp.2, s.subrange(sp.0, sp.1));
        build_steps(st2, s, spans, k + 1, sp.1)
    } else {
        close_all(gap_step(st, s.subrange(last_end, s.len() as int), 0))
    }
}

pub open spec fn init_stack() -> Seq<SecModel> {
    seq![SecModel::Root { children: Seq::empty() }]
}

/// The tree built from fragment `s` and its located headings.
pub open spec fn build_model(s: Seq<u8>, spans: Seq<SpanTriple>) -> SecModel {
    build_steps(init_stack(), s, spans, 0, 0)[0]
}

// ---------------------------------------------------------------------------
// Strict nesting of levels
// ---------------------------------------------------------------------------

/// Along every root-to-leaf path, section levels strictly increase: a section
/// only ever directly contains sections of strictly greater level, and the
/// root appears nowhere below the top.
pub open spec fn wf_node(n: SecModel) -> bool
    decreases n,
{
    match n {
        SecModel::Root { children } => forall|i: int|
            0 <= i < children.len() ==> wf_node(#[trigger] children[i]) && !(children[i] is Root),
        SecModel::Sec { level, children, .. } => forall|i: int|
            0 <= i < children.len() ==> wf_node(#[trigger] children[i]) && !(children[i] is Root)
                && (children[i] is Sec ==> children[i]->Sec_level > level),
        SecModel::Text { .. } => true,
    }
}

/// What the builder maintains of its stack of open nodes: the root at the
/// bottom, open sections above it with strictly increasing levels, and every
/// node well formed so far.
pub open spec fn stack_inv(st: Seq<SecModel>) -> bool {
    &&& st.len() >= 1
    &&& st[0] is Root
    &&& forall|i: int| 1 <= i < st.len() ==> (#[trigger] st[i]) is Sec
    &&& forall|i: int, j: int|
        1 <= i < j < st.len() ==> (#[trigger] st[i])->Sec_level < (#[trigger] st[j])->Sec_level
    &&& forall|i: int| 0 <= i < st.len() ==> wf_node(#[trigger] st[i])
}

proof fn lemma_add_child_wf(n: SecModel, c: SecModel)
    requires
        wf_node(n),
        wf_node(c),
        !(c is Root),
        n is Sec && c is Sec ==> c->Sec_level > n->Sec_level,
    ensures
        wf_node(add_child(n, c)),
{
    match n {
        SecModel::Root { children } => {
            let cs = children.push(c);
            assert forall|i: int| 0 <= i < cs.len() implies wf_node(#[trigger] cs[i]) && !(cs[i]
                is Root) by {
                if i < children.len() {
                    assert(cs[i] == children[i]);
                } else {
                    assert(cs[i] == c);
                }
            }
        },
        SecModel::Sec { level, children, .. } => {
            let cs = children.push(c);
            assert forall|i: int| 0 <= i < cs.len() implies wf_node(#[trigger] cs[i]) && !(cs[i]
                is Root) && (cs[i] is Sec ==> cs[i]->Sec_level > level) by {
                if i < children.len() {
                    assert(cs[i] == children[i]);
                } else {
                    assert(cs[i] == c);
                }
            }
        },
        SecModel::Text { .. } => {},
    }
}

proof fn lemma_push_content_inv(st: Seq<SecModel>, text: Seq<u8>)
    requires
        stack_inv(st),
    ensures
        stack_inv(push_content(st, text)),
        push_content(st, text).len() == st.len(),
        forall|i: int|
            0 <= i < st.len() ==> is_same_shape(#[trigger] push_content(st, text)[i], st[i]),
{
    let st2 = push_content(st, text);
    if !(trim(text).len() == 0 || st.len() == 0) {
        lemma_add_child_wf(st.last(), SecModel::Text { text });
        assert forall|i: int| 0 <= i < st2.len() implies wf_node(#[trigger] st2[i]) by {
            if i < st.len() - 1 {
                assert(st2[i] == st[i]);
            }
        }
    }
}

/// Same variant, and for sections the same level: what stack operations on
/// other frames preserve of a frame.
pub open spec fn is_same_shape(a: SecModel, b: SecModel) -> bool {
    &&& a is Root <==> b is Root
    &&& a is Sec <==> b is Sec
    &&& a is Sec ==> a->Sec_level == b->Sec_level
}

proof fn lemma_close_one_inv(st: Seq<SecModel>)
    requires
        stack_inv(st),
    ensures
        stack_inv(close_one(st)),
        close_one(st).len() == if st.len() > 1 {
            st.len() - 1
        } else {
            st.len() as int
        },
        forall|i: int|
            0 <= i < close_one(st).len() ==> is_same_shape(#[trigger] close_one(st)[i], st[i]),
{
    if st.len() > 1 {
        let top = st.last();
        let parent = st[st.len() - 2];
        assert(wf_node(top));
        assert(wf_node(parent));
        if st.len() - 2 >= 1 {
            assert(parent is Sec && parent->Sec_level < top->Sec_level);
        }
        lemma_add_child_wf(parent, top);
        let st2 = close_one(st);
        assert forall|i: int| 0 <= i < st2.len() implies wf_node(#[trigger] st2[i]) by {
            if i < st.len() - 2 {
                assert(st2[i] == st[i]);
            }
        }
    }
}

proof fn lemma_close_ge_inv(st: Seq<SecModel>, level: int)
    requires
        stack_inv(st),
    ensures
        stack_inv(close_ge(st, level)),
        1 <= close_ge(st, level).len() <= st.len(),
        close_ge(st, level).len() > 1 ==> close_ge(st, level).last() is Sec && close_ge(
            st,
            level,
        ).last()->Sec_level < level,
        forall|i: int|
            0 <= i < close_ge(st, level).len() ==> is_same_shape(
                #[trigger] close_ge(st, level)[i],
                st[i],
            ),
    decreases st.len(),
{
    if st.len() > 1 && (st.last() matches SecModel::Sec { level: l, .. } && l >= level) {
        lemma_close_one_inv(st);
        lemma_close_ge_inv(close_one(st), level);
        let st1 = close_one(st);
        let st2 = close_ge(st, level);
        assert forall|i: int| 0 <= i < st2.len() implies is_same_shape(#[trigger] st2[i], st[i]) by {
            assert(is_same_shape(st2[i], st1[i]));
            assert(is_same_shape(st1[i], st[i]));
        }
    }
}

proof fn lemma_open_heading_inv(st: Seq<SecModel>, level: int, head: Seq<u8>)
    requires
        stack_inv(st),
    ensures
        stack_inv(open_heading(st, level, head)),
{
    lemma_close_ge_inv(st, level);
    let st1 = close_ge(st, level);
    let st2 = open_heading(st, level, head);
    assert(st2 == st1.push(SecModel::Sec { level, head, children: Seq::empty() }));
    assert(wf_node(st2[st2.len() - 1]));
    assert forall|i: int, j: int| 1 <= i < j < st2.len() implies (#[trigger] st2[i])->Sec_level < (
    #[trigger] st2[j])->Sec_level by {
        if j < st2.len() - 1 {
            assert(st2[i] == st1[i] && st2[j] == st1[j]);
        } else if i < st2.len() - 1 {
            assert(st2[i] == st1[i]);
            assert(st1[i]->Sec_level < st1[st1.len() - 1]->Sec_level || i == st1.len() - 1);
        }
    }
    assert forall|i: int| 0 <= i < st2.len() implies wf_node(#[trigger] st2[i]) by {
        if i < st2.len() - 1 {
            assert(st2[i] == st1[i]);
        }
    }
}

proof fn lemma_gap_step_inv(st: Seq<SecModel>, text: Seq<u8>, pos: int)
    requires
        stack_inv(st),
    ensures
        stack_inv(gap_step(st, text, pos)),
    decreases text.len() - pos,
{
    match find_pat(text, delim(), pos) {
        Some(i) => {
            if pos <= i && i + delim().len() <= text.len() {
                lemma_push_content_inv(st, text.subrange(pos, i));
                lemma_close_one_inv(push_content(st, text.subrange(pos, i)));
                lemma_gap_step_inv(
                    close_one(push_content(st, text.subrange(pos, i))),
                    text,
                    i + delim().len() as int,
                );
            } else {
                lemma_push_content_inv(st, text.subrange(pos, text.len() as int));
            }
        },
        None => {
            lemma_push_content_inv(st, text.subrange(pos, text.len() as int));
        },
    }
}

proof fn lemma_close_all_inv(st: Seq<SecModel>)
    requires
        stack_inv(st),
    ensures
        stack_inv(close_all(st)),
    decreases st.len(),
{
    if st.len() > 1 {
        lemma_close_one_inv(st);
        lemma_close_all_inv(close_one(st));
    }
}

proof fn lemma_build_steps_inv(
    st: Seq<SecModel>,
    s: Seq<u8>,
    spans: Seq<SpanTriple>,
    k: int,
    last_end: int,
)
    requires
        stack_inv(st),
    ensures
        stack_inv(build_steps(st, s, spans, k, last_end)),
    decreases spans.len() - k,
{
    if 0 <= k < spans.len() {
        let sp = spans[k];
        lemma_gap_step_inv(st, s.subrange(last_end, sp.0), 0);
        lemma_open_heading_inv(gap_step(st, s.subrange(last_end, sp.0), 0), sp.2, s.subrange(sp.0, sp.1));
        lemma_build_steps_inv(
            open_heading(gap_step(st, s.subrange(last_end, sp.0), 0), sp.2, s.subrange(sp.0, sp.1)),
            s,
            spans,
            k + 1,
            sp.1,
        );
    } else {
        lemma_gap_step_inv(st, s.subrange(last_end, s.len() as int), 0);
        lemma_close_all_inv(gap_step(st, s.subrange(last_end, s.len() as int), 0));
    }
}

/// Whatever the order and levels of the headings, the built tree is strictly
/// nested: every section's level is less than the level of every section
/// below it.
pub proof fn lemma_build_strictly_nested(s: Seq<u8>, spans: Seq<SpanTriple>)
    ensures
        wf_node(build_model(s, spans)),
{
    assert(stack_inv(init_stack()));
    lemma_build_steps_inv(init_stack(), s, spans, 0, 0);
}

// ---------------------------------------------------------------------------
// The executable builder
// ---------------------------------------------------------------------------

/// The models of the nodes of an open-node stack, in order.
pub open spec fn stack_model(st: Seq<Section>) -> Seq<SecModel> {
    Seq::new(st.len(), |i: int| st[i].model())
}

/// The explicit-close marker as an executable vector.
pub fn delim_vec() -> (r: Vec<u8>)
    ensures
        r@ == delim(),
{
    let mut r: Vec<u8> = Vec::new();
    r.push(60);
    r.push(112);
    r.push(62);
    r.push(59);
    r.push(59);
    r.push(59);
    r.push(60);
    r.push(47);
    r.push(112);
    r.push(62);
    proof {
        assert(r@ =~= delim());
    }
    r
}

fn add_child_exec(n: Section, c: Section) -> (r: Section)
    ensures
        r.model() == add_child(n.model(), c.model()),
{
    let ghost cm = c.model();
    match n {
        Section::Root(mut children) => {
            let ghost before = children;
            children.push(c);
            proof {
                assert(Section::models_of(children) =~= Section::models_of(before).push(cm));
            }
            Section::Root(children)
        },
        Section::Section { level, head, children } => {
            let mut children = children;
            let ghost before = children;
            children.push(c);
            proof {
                assert(Section::models_of(children) =~= Section::models_of(before).push(cm));
            }
            Section::Section { level, head, children }
        },
        Section::Content(text) => Section::Content(text),
    }
}

fn push_content_exec(stack: &mut Vec<Section>, text: Vec<u8>)
    requires
        old(stack)@.len() >= 1,
    ensures
        stack_model(final(stack)@) == push_content(stack_model(old(stack)@), text@),
        final(stack)@.len() == old(stack)@.len(),
{
    let ghost st0 = stack_model(stack@);
    let ghost t0 = text@;
    let blank = {
        let tr = crate::bytes::trim_vec(text.as_slice());
        tr.len() == 0
    };
    if blank {
        proof {
            assert(stack_model(stack@) =~= push_content(st0, t0));
        }
        return;
    }
    let top = stack.pop().unwrap();
    let newtop = add_child_exec(top, Section::Content(text));
    stack.push(newtop);
    proof {
        assert(stack_model(stack@) =~= push_content(st0, t0));
    }
}

fn close_one_exec(stack: &mut Vec<Section>)
    requires
        old(stack)@.len() >= 1,
    ensures
        stack_model(final(stack)@) == close_one(stack_model(old(stack)@)),
        final(stack)@.len() == if old(stack)@.len() > 1 {
            old(stack)@.len() - 1
        } else {
            old(stack)@.len() as int
        },
{
    let ghost st0 = stack_model(stack@);
    if stack.len() <= 1 {
        proof {
            assert(stack_model(stack@) =~= close_one(st0));
        }
        return;
    }
    let top = stack.pop().unwrap();
    let parent = stack.pop().unwrap();
    let np = add_child_exec(parent, top);
    stack.push(np);
    proof {
        assert(stack_model(stack@) =~= close_one(st0));
    }
}

fn sec_level_ge(n: &Section, level: usize) -> (r: bool)
    ensures
        r == (n.model() matches SecModel::Sec { level: l, .. } && l >= level as int),
{
    match n {
        Section::Section { level: l, .. } => *l >= level,
        _ => false,
    }
}

fn open_heading_exec(stack: &mut Vec<Section>, level: usize, head: Vec<u8>)
    requires
        old(stack)@.len() >= 1,
    ensures
        stack_model(final(stack)@) == open_heading(stack_model(old(stack)@), level as int, head@),
        final(stack)@.len() >= 2,
{
    let ghost st0 = stack_model(stack@);
    let ghost h0 = head@;
    while stack.len() > 1 && sec_level_ge(&stack[stack.len() - 1], level)
        invariant
            stack@.len() >= 1,
            close_ge(st0, level as int) == close_ge(stack_model(stack@), level as int),
        decreases stack@.len(),
    {
        proof {
            assert(stack_model(stack@).last() == stack@[stack@.len() - 1].model());
        }
        close_one_exec(stack);
    }
    proof {
        assert(stack_model(stack@).len() == stack@.len());
        if stack@.len() > 1 {
            assert(stack_model(stack@).last() == stack@[stack@.len() - 1].model());
        }
        assert(close_ge(stack_model(stack@), level as int) == stack_model(stack@));
    }
    let fresh: Vec<Section> = Vec::new();
    proof {
        assert(Section::models_of(fresh) =~= Seq::<SecModel>::empty());
    }
    stack.push(Section::Section { level, head, children: fresh });
    proof {
        let prev = stack@.drop_last();
        assert(stack_model(stack@) =~= stack_model(prev).push(
            SecModel::Sec { level: level as int, head: h0, children: Seq::empty() },
        ));
    }
}

/// Processes one content gap: explicit-close markers close one section each,
/// and the text between them becomes content leaves.
fn process_gap(stack: &mut Vec<Section>, text: &[u8])
    requires
        old(stack)@.len() >= 1,
    ensures
        stack_model(final(stack)@) == gap_step(stack_model(old(stack)@), text@, 0),
        final(stack)@.len() >= 1,
{
    let d = delim_vec();
    let n = text.len();
    let ghost st0 = stack_model(stack@);
    let mut pos: usize = 0;
    loop
        invariant
            stack@.len() >= 1,
            pos <= n == text@.len(),
            d@ == delim(),
            st0 == stack_model(old(stack)@),
            gap_step(st0, text@, 0) == gap_step(stack_model(stack@), text@, pos as int),
        decreases text@.len() - pos,
    {
        proof {
            lemma_find_pat_props(text@, delim(), pos as int);
        }
        match crate::bytes::find_pat_exec(text, d.as_slice(), pos) {
            Some(i) => {
                let ghost before = stack_model(stack@);
                let piece = crate::bytes::subvec(text, pos, i);
                push_content_exec(stack, piece);
                close_one_exec(stack);
                proof {
                    assert(gap_step(before, text@, pos as int) == gap_step(
                        stack_model(stack@),
                        text@,
                        i + delim().len(),
                    ));
                }
                pos = i + d.len();
            },
            None => {
                let ghost before = stack_model(stack@);
                let piece = crate::bytes::subvec(text, pos, text.len());
                push_content_exec(stack, piece);
                proof {
                    assert(gap_step(before, text@, pos as int) == stack_model(stack@));
                }
                return;
            },
        }
    }
}

/// Builds the section tree for fragment `html` whose located headings are
/// `spans`: depth-based closing before each heading, explicit-close markers
/// inside the gaps, and a final close of everything still open.
#[verifier::rlimit(60)]
pub fn build_section_tree(html: &[u8], spans: &Vec<(usize, usize, usize)>) -> (root: Section)
    requires
        spans_wf(html@, Seq::new(spans@.len(), |i: int| (spans@[i].0 as int, spans@[i].1 as int, spans@[i].2 as int))),
    ensures
        root.model() == build_model(html@, Seq::new(spans@.len(), |i: int| (spans@[i].0 as int, spans@[i].1 as int, spans@[i].2 as int))),
        wf_node(root.model()),
{
    proof {
        lemma_build_strictly_nested(
            html@,
            Seq::new(
                spans@.len(),
                |i: int| (spans@[i].0 as int, spans@[i].1 as int, spans@[i].2 as int),
            ),
        );
    }
    let ghost sm = Seq::new(spans@.len(), |i: int| (spans@[i].0 as int, spans@[i].1 as int, spans@[i].2 as int));
    let mut stack: Vec<Section> = Vec::new();
    let fresh: Vec<Section> = Vec::new();
    proof {
        assert(Section::models_of(fresh) =~= Seq::<SecModel>::empty());
    }
    stack.push(Section::Root(fresh));
    proof {
        assert(stack_model(stack@) =~= init_stack());
    }
    let mut k: usize = 0;
    let mut last_end: usize = 0;
    while k < spans.len()
        invariant
            spans_wf(html@, sm),
            sm == Seq::new(spans@.len(), |i: int| (spans@[i].0 as int, spans@[i].1 as int, spans@[i].2 as int)),
            stack@.len() >= 1,
            0 <= k <= spans@.len(),
            last_end <= html@.len(),
            k < spans@.len() ==> last_end <= spans@[k as int].0,
            build_steps(init_stack(), html@, sm, 0, 0) == build_steps(
                stack_model(stack@),
                html@,
                sm,
                k as int,
                last_end as int,
            ),
        decreases spans@.len() - k,
    {
        let (start, end, level) = spans[k];
        let ghost before = stack_model(stack@);
        let gap = crate::bytes::subvec(html, last_end, start);
        process_gap(&mut stack, gap.as_slice());
        let head = crate::bytes::subvec(html, start, end);
        open_heading_exec(&mut stack, level, head);
        proof {
            assert(build_steps(before, html@, sm, k as int, last_end as int) == build_steps(
                stack_model(stack@),
                html@,
                sm,
                k as int + 1,
                end as int,
            ));
        }
        last_end = end;
        k = k + 1;
    }
    let gap = crate::bytes::subvec(html, last_end, html.len());
    let ghost before = stack_model(stack@);
    process_gap(&mut stack, gap.as_slice());
    proof {
        assert(build_steps(before, html@, sm, k as int, last_end as int) == close_all(
            stack_model(stack@),
        ));
    }
    while stack.len() > 1
        invariant
            stack@.len() >= 1,
            build_model(html@, sm) == close_all(stack_model(stack@))[0],
        decreases stack@.len(),
    {
        close_one_exec(&mut stack);
    }
    let root = stack.pop().unwrap();
    proof {
        assert(close_all(stack_model(stack@.push(root))) == stack_model(stack@.push(root)));
        assert(stack_model(stack@.push(root))[0] == root.model());
    }
    root
}

} // verus!
