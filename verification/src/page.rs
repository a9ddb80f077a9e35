use vstd::prelude::*;
use crate::bytes::trim;
use crate::front::{FrontMatter, fm_title, fm_description, fm_tags, fm_body, split_front_matter,
    views_of};
use crate::render::{render_node, wrap_head_sections_nested};
use crate::scan::{heading_scan, span_items, scan_headings, items_of};
use crate::toc::{toc_model, render_toc_list, build_toc, render_toc, toc_wf, lemma_toc_model_wf};
use crate::tree::build_model;

verus! {

// ---------------------------------------------------------------------------
// The rendered-fragment collaborator
// ---------------------------------------------------------------------------

/// What the conversion collaborator returns for a document body: its
/// rendered, tag-annotated fragment.
pub uninterp spec fn html_of(md: Seq<u8>) -> Seq<u8>;

/// Relies on pulldown_cmark::Parser::new_ext with every option enabled and
/// pulldown_cmark::html::push_html: the rendered fragment of the document,
/// a function of the text alone; an empty document renders to nothing.
#[verifier::external_body]
fn markdown_to_html(md: &[u8]) -> (r: Vec<u8>)
    ensures
        r@ == html_of(md@),
        md@.len() == 0 ==> r@.len() == 0,
{
    let s = core::str::from_utf8(md).unwrap_or("");
    let parser = pulldown_cmark::Parser::new_ext(s, pulldown_cmark::Options::all());
    let mut out = String::new();
    pulldown_cmark::html::push_html(&mut out, parser);
    out.into_bytes()
}

// ---------------------------------------------------------------------------
// Page assembly
// ---------------------------------------------------------------------------

/// A tag with the address of its listing page.
pub struct TagLink {
    pub name: Vec<u8>,
    pub url: Vec<u8>,
}

/// Every slot of the final page: what the templating collaborator receives.
pub struct HtmlTemplate {
    pub title: Vec<u8>,
    pub description: Vec<u8>,
    pub url: Vec<u8>,
    pub image: Vec<u8>,
    pub body: Vec<u8>,
    pub tags: Vec<TagLink>,
    pub toc: Vec<u8>,
}

/// First index at or after `i` holding a byte other than `#`.
pub open spec fn skip_hashes(s: Seq<u8>, i: int) -> int
    decreases s.len() - i,
{
    if 0 <= i && i < s.len() && s[i] == 35 {
        skip_hashes(s, i + 1)
    } else {
        i
    }
}

proof fn lemma_skip_hashes_bounds(s: Seq<u8>, i: int)
    requires
        0 <= i <= s.len(),
    ensures
        i <= skip_hashes(s, i) <= s.len(),
    decreases s.len() - i,
{
    if i < s.len() && s[i] == 35 {
        lemma_skip_hashes_bounds(s, i + 1);
    }
}

/// A title with its leading `#` marks removed and the rest trimmed.
pub open spec fn clean_title(t: Seq<u8>) -> Seq<u8> {
    trim(t.subrange(skip_hashes(t, 0), t.len() as int))
}

fn clean_title_exec(t: &[u8]) -> (r: Vec<u8>)
    ensures
        r@ == clean_title(t@),
{
    proof {
        lemma_skip_hashes_bounds(t@, 0);
    }
    let mut a: usize = 0;
    while a < t.len() && t[a] == 35
        invariant
            0 <= a <= t@.len(),
            skip_hashes(t@, 0) == skip_hashes(t@, a as int),
        decreases t@.len() - a,
    {
        a = a + 1;
    }
    assert(a as int == skip_hashes(t@, 0));
    let rest = crate::bytes::subvec(t, a, t.len());
    crate::bytes::trim_vec(rest.as_slice())
}

/// "`/tags/`"
pub open spec fn tags_prefix() -> Seq<u8> {
    seq![47u8, 116u8, 97u8, 103u8, 115u8, 47u8]
}

/// "`.html`"
pub open spec fn html_suffix() -> Seq<u8> {
    seq![46u8, 104u8, 116u8, 109u8, 108u8]
}

/// The address of a tag's listing page.
pub open spec fn tag_url(name: Seq<u8>) -> Seq<u8> {
    tags_prefix() + name + html_suffix()
}

/// "`no description`"
pub open spec fn default_desc() -> Seq<u8> {
    seq![
        110u8, 111u8, 32u8, 100u8, 101u8, 115u8, 99u8, 114u8, 105u8, 112u8, 116u8, 105u8, 111u8,
        110u8,
    ]
}

/// "`https://example.com/sample`"
pub open spec fn page_url() -> Seq<u8> {
    seq![
        104u8, 116u8, 116u8, 112u8, 115u8, 58u8, 47u8, 47u8, 101u8, 120u8, 97u8, 109u8, 112u8,
        108u8, 101u8, 46u8, 99u8, 111u8, 109u8, 47u8, 115u8, 97u8, 109u8, 112u8, 108u8, 101u8,
    ]
}

/// "`https://example.com/ogp.png`"
pub open spec fn page_image() -> Seq<u8> {
    seq![
        104u8, 116u8, 116u8, 112u8, 115u8, 58u8, 47u8, 47u8, 101u8, 120u8, 97u8, 109u8, 112u8,
        108u8, 101u8, 46u8, 99u8, 111u8, 109u8, 47u8, 111u8, 103u8, 112u8, 46u8, 112u8, 110u8,
        103u8,
    ]
}

/// The rendered, section-wrapped body of a document.
pub open spec fn process_body(md: Seq<u8>) -> Seq<u8> {
    render_node(
        build_model(html_of(fm_body(md)), span_items(heading_scan(html_of(fm_body(md))))),
        2,
    )
}

/// The rendered table of contents of a document.
pub open spec fn process_toc(md: Seq<u8>) -> Seq<u8> {
    render_toc_list(toc_model(heading_scan(html_of(fm_body(md)))).children)
}

/// The tag links of a document: one per tag, each with its listing address.
pub open spec fn tag_links_of(tags: Option<Seq<Seq<u8>>>) -> Seq<(Seq<u8>, Seq<u8>)> {
    match tags {
        None => Seq::empty(),
        Some(ts) => ts.map_values(|n: Seq<u8>| (n, tag_url(n))),
    }
}

fn tags_prefix_vec() -> (r: Vec<u8>)
    ensures
        r@ == tags_prefix(),
{
    let mut r: Vec<u8> = Vec::new();
    r.push(47);
    r.push(116);
    r.push(97);
    r.push(103);
    r.push(115);
    r.push(47);
    proof {
        assert(r@ =~= tags_prefix());
    }
    r
}

fn html_suffix_vec() -> (r: Vec<u8>)
    ensures
        r@ == html_suffix(),
{
    let mut r: Vec<u8> = Vec::new();
    r.push(46);
    r.push(104);
    r.push(116);
    r.push(109);
    r.push(108);
    proof {
        assert(r@ =~= html_suffix());
    }
    r
}

fn default_desc_vec() -> (r: Vec<u8>)
    ensures
        r@ == default_desc(),
{
    let mut r: Vec<u8> = Vec::new();
    r.push(110);
    r.push(111);
    r.push(32);
    r.push(100);
    r.push(101);
    r.push(115);
    r.push(99);
    r.push(114);
    r.push(105);
    r.push(112);
    r.push(116);
    r.push(105);
    r.push(111);
    r.push(110);
    proof {
        assert(r@ =~= default_desc());
    }
    r
}

fn page_url_vec() -> (r: Vec<u8>)
    ensures
        r@ == page_url(),
{
    let mut r: Vec<u8> = Vec::new();
    r.push(104);
    r.push(116);
    r.push(116);
    r.push(112);
    r.push(115);
    r.push(58);
    r.push(47);
    r.push(47);
    r.push(101);
    r.push(120);
    r.push(97);
    r.push(109);
    r.push(112);
    r.push(108);
    r.push(101);
    r.push(46);
    r.push(99);
    r.push(111);
    r.push(109);
    r.push(47);
    r.push(115);
    r.push(97);
    r.push(109);
    r.push(112);
    r.push(108);
    r.push(101);
    proof {
        assert(r@ =~= page_url());
    }
    r
}

fn page_image_vec() -> (r: Vec<u8>)
    ensures
        r@ == page_image(),
{
    let mut r: Vec<u8> = Vec::new();
    r.push(104);
    r.push(116);
    r.push(116);
    r.push(112);
    r.push(115);
    r.push(58);
    r.push(47);
    r.push(47);
    r.push(101);
    r.push(120);
    r.push(97);
    r.push(109);
    r.push(112);
    r.push(108);
    r.push(101);
    r.push(46);
    r.push(99);
    r.push(111);
    r.push(109);
    r.push(47);
    r.push(111);
    r.push(103);
    r.push(112);
    r.push(46);
    r.push(112);
    r.push(110);
    r.push(103);
    proof {
        assert(r@ =~= page_image());
    }
    r
}

/// Converts a document into every slot of its final page: title and
/// description from the front matter, the section-wrapped body, the rendered
/// table of contents, and one link per tag.
#[verifier::rlimit(60)]
pub fn process_markdown(md: &[u8]) -> (t: HtmlTemplate)
    ensures
        t.title@ == clean_title(fm_title(md@)),
        t.description@ == match fm_description(md@) {
            Some(d) => d,
            None => default_desc(),
        },
        t.url@ == page_url(),
        t.image@ == page_image(),
        t.body@ == process_body(md@),
        t.toc@ == process_toc(md@),
        Seq::new(t.tags@.len(), |i: int| (t.tags@[i].name@, t.tags@[i].url@))
            == tag_links_of(fm_tags(md@)),
{
    let (front_matter, title, content) = split_front_matter(md);
    let clean = clean_title_exec(title.as_slice());
    let html = markdown_to_html(content.as_slice());
    let wrapped = wrap_head_sections_nested(html.as_slice());
    let hs = scan_headings(html.as_slice());
    proof {
        assert forall|i: int| 0 <= i < hs@.len() implies 49 <= (#[trigger] hs@[i]).level_digit
            <= 54 by {
            assert(items_of(hs@)[i] == hs@[i].item());
        }
    }
    let toc_tree = build_toc(&hs);
    proof {
        assert forall|i: int| 0 <= i < items_of(hs@).len() implies 49 <= (#[trigger] items_of(
            hs@,
        )[i]).2 <= 54 by {
            assert(items_of(hs@)[i] == hs@[i].item());
        }
        lemma_toc_model_wf(items_of(hs@));
        assert forall|i: int| 0 <= i < toc_tree.children@.len() implies toc_wf(
            (#[trigger] toc_tree.children@[i]).model(),
        ) by {
            assert(toc_tree.model().children[i] == toc_tree.children@[i].model());
        }
    }
    let toc = render_toc(&toc_tree.children);
    let description = match front_matter.description {
        Some(d) => d,
        None => default_desc_vec(),
    };
    let pref = tags_prefix_vec();
    let suff = html_suffix_vec();
    let mut tags: Vec<TagLink> = Vec::new();
    match front_matter.tags {
        Some(ts) => {
            let ghost tsm = views_of(ts@);
            let mut i: usize = 0;
            while i < ts.len()
                invariant
                    0 <= i <= ts@.len(),
                    tsm == views_of(ts@),
                    pref@ == tags_prefix(),
                    suff@ == html_suffix(),
                    tags@.len() == i,
                    forall|j: int|
                        0 <= j < i ==> (#[trigger] tags@[j]).name@ == tsm[j] && tags@[j].url@
                            == tag_url(tsm[j]),
                decreases ts@.len() - i,
            {
                let name = crate::bytes::subvec(ts[i].as_slice(), 0, ts[i].len());
                let mut url: Vec<u8> = Vec::new();
                crate::bytes::append_sub(&mut url, pref.as_slice(), 0, pref.len());
                crate::bytes::append_sub(&mut url, name.as_slice(), 0, name.len());
                crate::bytes::append_sub(&mut url, suff.as_slice(), 0, suff.len());
                proof {
                    assert(name@ =~= tsm[i as int]);
                    assert(url@ =~= tag_url(tsm[i as int]));
                }
                tags.push(TagLink { name, url });
                i = i + 1;
            }
        },
        None => {},
    }
    proof {
        assert(Seq::new(tags@.len(), |i: int| (tags@[i].name@, tags@[i].url@))
            =~= tag_links_of(fm_tags(md@)));
    }
    HtmlTemplate {
        title: clean,
        description,
        url: page_url_vec(),
        image: page_image_vec(),
        body: wrapped,
        tags,
        toc,
    }
}

} // verus!
