use vstd::prelude::*;
use crate::bytes::{trim, find_byte, join_nl, lemma_find_byte_bounds};

verus! {

// ---------------------------------------------------------------------------
// Splitting a document into lines
// ---------------------------------------------------------------------------

/// A line with one trailing carriage return removed, if it has one.
pub open spec fn chomp_cr(l: Seq<u8>) -> Seq<u8> {
    if l.len() > 0 && l[l.len() - 1] == 13 {
        l.drop_last()
    } else {
        l
    }
}

/// The lines of `s` from `pos` on: split at newlines, each line stripped of
/// one trailing carriage return; a trailing newline opens no extra line.
pub open spec fn split_lines(s: Seq<u8>, pos: int) -> Seq<Seq<u8>>
    decreases s.len() - pos,
{
    if pos < 0 || pos >= s.len() {
        Seq::empty()
    } else {
        let k = find_byte(s, pos, 10);
        let line = chomp_cr(s.subrange(pos, k));
        if pos <= k < s.len() {
            seq![line] + split_lines(s, k + 1)
        } else {
            seq![line]
        }
    }
}

pub open spec fn views_of(v: Seq<Vec<u8>>) -> Seq<Seq<u8>> {
    Seq::new(v.len(), |i: int| v[i]@)
}

pub fn split_lines_exec(s: &[u8]) -> (r: Vec<Vec<u8>>)
    ensures
        views_of(r@) == split_lines(s@, 0),
{
    let n = s.len();
    let mut r: Vec<Vec<u8>> = Vec::new();
    let mut pos: usize = 0;
    while pos < n
        invariant
            pos <= n == s@.len(),
            split_lines(s@, 0) == views_of(r@) + split_lines(s@, pos as int),
        decreases n - pos,
    {
        proof {
            lemma_find_byte_bounds(s@, pos as int, 10);
        }
        let k = crate::bytes::find_byte_exec(s, pos, 10);
        let mut line = crate::bytes::subvec(s, pos, k);
        if line.len() > 0 && line[line.len() - 1] == 13 {
            let ghost lv = line@;
            let popped = line.pop();
            proof {
                assert(line@ =~= lv.drop_last());
            }
        }
        proof {
            assert(line@ == chomp_cr(s@.subrange(pos as int, k as int)));
        }
        let ghost rprev = views_of(r@);
        r.push(line);
        proof {
            assert(views_of(r@) =~= rprev.push(line@));
        }
        if k < n {
            proof {
                assert(split_lines(s@, pos as int) == seq![line@] + split_lines(s@, k + 1));
                assert(rprev + split_lines(s@, pos as int) =~= views_of(r@) + split_lines(
                    s@,
                    k + 1,
                ));
            }
            pos = k + 1;
        } else {
            proof {
                assert(split_lines(s@, pos as int) =~= seq![line@]);
                assert(rprev + split_lines(s@, pos as int) =~= views_of(r@) + split_lines(
                    s@,
                    n as int,
                ));
            }
            pos = n;
        }
    }
    proof {
        assert(views_of(r@) =~= split_lines(s@, 0));
    }
    r
}

// ---------------------------------------------------------------------------
// The front-matter scanner
// ---------------------------------------------------------------------------

/// The leading metadata of a document: an optional description and an
/// optional list of tags.
pub struct FrontMatter {
    pub description: Option<Vec<u8>>,
    pub tags: Option<Vec<Vec<u8>>>,
}

/// The scanner state after some lines: inside a tag block, a tag block seen,
/// collecting body text, and the lines gathered so far.
pub struct FmState {
    pub in_tags: bool,
    pub found_tags: bool,
    pub body_flag: bool,
    pub desc: Seq<Seq<u8>>,
    pub tags: Seq<Seq<u8>>,
    pub body: Seq<Seq<u8>>,
}

pub open spec fn fm_init() -> FmState {
    FmState {
        in_tags: false,
        found_tags: false,
        body_flag: false,
        desc: Seq::empty(),
        tags: Seq::empty(),
        body: Seq::empty(),
    }
}

/// "`tags:`"
pub open spec fn tags_lit() -> Seq<u8> {
    seq![116u8, 97u8, 103u8, 115u8, 58u8]
}

/// First index at or after `i` holding a byte other than a hyphen.
pub open spec fn skip_dashes(s: Seq<u8>, i: int) -> int
    decreases s.len() - i,
{
    if 0 <= i && i < s.len() && s[i] == 45 {
        skip_dashes(s, i + 1)
    } else {
        i
    }
}

pub proof fn lemma_skip_dashes_bounds(s: Seq<u8>, i: int)
    requires
        0 <= i <= s.len(),
    ensures
        i <= skip_dashes(s, i) <= s.len(),
    decreases s.len() - i,
{
    if i < s.len() && s[i] == 45 {
        lemma_skip_dashes_bounds(s, i + 1);
    }
}

/// `s` with every leading hyphen removed.
pub open spec fn strip_dashes(s: Seq<u8>) -> Seq<u8> {
    s.subrange(skip_dashes(s, 0), s.len() as int)
}

/// One line of the scanner, after the title line. Body lines are gathered
/// verbatim once a tag block has ended at a blank line; a `tags:` line opens
/// the tag block; hyphen lines inside it are tags; description lines are
/// gathered until the first blank line before any tag block.
pub open spec fn fm_step(st: FmState, line: Seq<u8>) -> FmState {
    let tr = trim(line);
    if st.body_flag {
        FmState { body: st.body.push(line), ..st }
    } else if !st.in_tags && tr == tags_lit() {
        FmState { in_tags: true, found_tags: true, ..st }
    } else if st.in_tags && tr.len() > 0 && tr[0] == 45 {
        FmState { tags: st.tags.push(trim(strip_dashes(tr))), ..st }
    } else if st.in_tags && tr.len() == 0 {
        FmState { body_flag: true, ..st }
    } else {
        let st1 = if st.in_tags {
            FmState { in_tags: false, ..st }
        } else {
            st
        };
        if !st1.found_tags {
            if tr.len() == 0 {
                FmState { found_tags: true, ..st1 }
            } else {
                FmState { desc: st1.desc.push(line), ..st1 }
            }
        } else {
            st1
        }
    }
}

pub open spec fn fm_run(st: FmState, lines: Seq<Seq<u8>>, i: int) -> FmState
    decreases lines.len() - i,
{
    if 0 <= i < lines.len() {
        fm_run(fm_step(st, lines[i]), lines, i + 1)
    } else {
        st
    }
}

/// The first line, trimmed: the document's title.
pub open spec fn fm_title(md: Seq<u8>) -> Seq<u8> {
    let ls = split_lines(md, 0);
    if ls.len() > 0 {
        trim(ls[0])
    } else {
        Seq::empty()
    }
}

/// The scanner run over every line after the title.
pub open spec fn fm_final(md: Seq<u8>) -> FmState {
    fm_run(fm_init(), split_lines(md, 0), 1)
}

/// The description: the gathered lines joined and trimmed, or nothing when
/// none were gathered.
pub open spec fn fm_description(md: Seq<u8>) -> Option<Seq<u8>> {
    let st = fm_final(md);
    if st.desc.len() == 0 {
        None
    } else {
        Some(trim(join_nl(st.desc, st.desc.len() as int)))
    }
}

/// The tag list, or nothing when no tags were gathered.
pub open spec fn fm_tags(md: Seq<u8>) -> Option<Seq<Seq<u8>>> {
    let st = fm_final(md);
    if st.tags.len() == 0 {
        None
    } else {
        Some(st.tags)
    }
}

/// The remaining body text: the gathered body lines joined with newlines.
pub open spec fn fm_body(md: Seq<u8>) -> Seq<u8> {
    let st = fm_final(md);
    join_nl(st.body, st.body.len() as int)
}

fn strip_dashes_exec(s: &[u8]) -> (r: Vec<u8>)
    ensures
        r@ == strip_dashes(s@),
{
    proof {
        lemma_skip_dashes_bounds(s@, 0);
    }
    let mut a: usize = 0;
    while a < s.len() && s[a] == 45
        invariant
            0 <= a <= s@.len(),
            skip_dashes(s@, 0) == skip_dashes(s@, a as int),
        decreases s@.len() - a,
    {
        a = a + 1;
    }
    assert(a as int == skip_dashes(s@, 0));
    crate::bytes::subvec(s, a, s.len())
}

fn tags_lit_vec() -> (r: Vec<u8>)
    ensures
        r@ == tags_lit(),
{
    let mut r: Vec<u8> = Vec::new();
    r.push(116);
    r.push(97);
    r.push(103);
    r.push(115);
    r.push(58);
    proof {
        assert(r@ =~= tags_lit());
    }
    r
}

/// Splits a document into its front matter, its title line and its body:
/// the first line is the title; description lines follow until a blank line
/// or a `tags:` block; hyphen lines inside the block are tags; body lines
/// are gathered once the tag block ends at a blank line.
pub fn split_front_matter(md: &[u8]) -> (r: (FrontMatter, Vec<u8>, Vec<u8>))
    ensures
        (match r.0.description {
            Some(d) => Some(d@),
            None => None,
        }) == fm_description(md@),
        (match r.0.tags {
            Some(ts) => Some(views_of(ts@)),
            None => None,
        }) == fm_tags(md@),
        r.1@ == fm_title(md@),
        r.2@ == fm_body(md@),
{
    let lines = split_lines_exec(md);
    let ghost lsm = split_lines(md@, 0);
    let title = if lines.len() > 0 {
        crate::bytes::trim_vec(lines[0].as_slice())
    } else {
        Vec::new()
    };
    let tlit = tags_lit_vec();
    let mut in_tags: bool = false;
    let mut found_tags: bool = false;
    let mut body_flag: bool = false;
    let mut desc: Vec<Vec<u8>> = Vec::new();
    let mut tags: Vec<Vec<u8>> = Vec::new();
    let mut body: Vec<Vec<u8>> = Vec::new();
    proof {
        assert(views_of(desc@) =~= Seq::<Seq<u8>>::empty());
        assert(views_of(tags@) =~= Seq::<Seq<u8>>::empty());
        assert(views_of(body@) =~= Seq::<Seq<u8>>::empty());
        assert(FmState {
            in_tags,
            found_tags,
            body_flag,
            desc: views_of(desc@),
            tags: views_of(tags@),
            body: views_of(body@),
        } == fm_init());
    }
    let mut i: usize = 1;
    while i < lines.len()
        invariant
            1 <= i <= lsm.len() + 1,
            i <= lines@.len() + 1,
            lsm == views_of(lines@),
            tlit@ == tags_lit(),
            fm_run(fm_init(), lsm, 1) == fm_run(
                FmState {
                    in_tags,
                    found_tags,
                    body_flag,
                    desc: views_of(desc@),
                    tags: views_of(tags@),
                    body: views_of(body@),
                },
                lsm,
                i as int,
            ),
        decreases lines@.len() - i,
    {
        let ghost stprev = FmState {
            in_tags,
            found_tags,
            body_flag,
            desc: views_of(desc@),
            tags: views_of(tags@),
            body: views_of(body@),
        };
        let line = &lines[i];
        let tr = crate::bytes::trim_vec(line.as_slice());
        if body_flag {
            let ghost bprev = views_of(body@);
            let own = crate::bytes::subvec(line.as_slice(), 0, line.len());
            proof {
                assert(own@ =~= line@);
            }
            body.push(own);
            proof {
                assert(views_of(body@) =~= bprev.push(lsm[i as int]));
            }
        } else if !in_tags && crate::bytes::bytes_eq(tr.as_slice(), tlit.as_slice()) {
            in_tags = true;
            found_tags = true;
        } else if in_tags && tr.len() > 0 && tr[0] == 45 {
            let stripped = strip_dashes_exec(tr.as_slice());
            let tag = crate::bytes::trim_vec(stripped.as_slice());
            let ghost tprev = views_of(tags@);
            tags.push(tag);
            proof {
                assert(views_of(tags@) =~= tprev.push(trim(strip_dashes(trim(lsm[i as int])))));
            }
        } else if in_tags && tr.len() == 0 {
            body_flag = true;
        } else {
            if in_tags {
                in_tags = false;
            }
            if !found_tags {
                if tr.len() == 0 {
                    found_tags = true;
                } else {
                    let ghost dprev = views_of(desc@);
                    let own = crate::bytes::subvec(line.as_slice(), 0, line.len());
                    proof {
                        assert(own@ =~= line@);
                    }
                    desc.push(own);
                    proof {
                        assert(views_of(desc@) =~= dprev.push(lsm[i as int]));
                    }
                }
            }
        }
        proof {
            let stnow = FmState {
                in_tags,
                found_tags,
                body_flag,
                desc: views_of(desc@),
                tags: views_of(tags@),
                body: views_of(body@),
            };
            assert(stnow == fm_step(stprev, lsm[i as int]));
        }
        i = i + 1;
    }
    let ghost stend = fm_final(md@);
    proof {
        assert(fm_run(fm_init(), lsm, 1) == FmState {
            in_tags,
            found_tags,
            body_flag,
            desc: views_of(desc@),
            tags: views_of(tags@),
            body: views_of(body@),
        });
    }
    let description: Option<Vec<u8>> = if desc.len() == 0 {
        None
    } else {
        let joined = crate::bytes::join_nl_exec(&desc);
        Some(crate::bytes::trim_vec(joined.as_slice()))
    };
    let tags_out: Option<Vec<Vec<u8>>> = if tags.len() == 0 {
        None
    } else {
        Some(tags)
    };
    let body_out = crate::bytes::join_nl_exec(&body);
    (FrontMatter { description, tags: tags_out }, title, body_out)
}

} // verus!
