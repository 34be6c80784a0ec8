//! Markdown pages, one file each.

use crate::catalog::is_all_slug;
use crate::paths::join_path;
use crate::text::join2;
use pulldown_cmark::{html, Options, Parser};
use vstd::prelude::*;
use vstd::string::*;

verus! {

/// The HTML that `pulldown_cmark` gives for some Markdown, with its tables and
/// its strikethrough extension on or off.
pub uninterp spec fn markdown_html(md: Seq<char>, tables: bool, strikethrough: bool) -> Seq<char>;

/// `pulldown_cmark::html::push_html` on a `Parser::new_ext` with these two
/// options.
#[verifier::external_body]
fn markdown_to_html(md: &str, tables: bool, strikethrough: bool) -> (out: String)
    ensures
        out@ == markdown_html(md@, tables, strikethrough),
{
    let mut opts = Options::empty();
    opts.set(Options::ENABLE_TABLES, tables);
    opts.set(Options::ENABLE_STRIKETHROUGH, strikethrough);
    let mut out = String::new();
    html::push_html(&mut out, Parser::new_ext(md, opts));
    out
}

/// Whether a slug can be part of a file name: it holds nothing that could lead
/// out of the directory.
pub open spec fn is_safe_slug(slug: Seq<char>) -> bool {
    slug.len() > 0 && crate::catalog::all_slug(slug)
}

/// Whether a slug can be part of a file name.
pub fn safe_slug(slug: &str) -> (r: bool)
    ensures
        r == is_safe_slug(slug@),
{
    !slug.is_empty() && is_all_slug(slug)
}

/// The file of a page.
pub open spec fn page_file(content_dir: Seq<char>, slug: Seq<char>) -> Seq<char> {
    crate::paths::joined_path(content_dir, slug + ".md"@)
}

/// The file of a page with a safe slug lies in the directory itself: its name
/// has no slash in it, and no dot but the one before its ending.
pub proof fn lemma_page_stays_in_directory(content_dir: Seq<char>, slug: Seq<char>)
    requires
        is_safe_slug(slug),
    ensures
        !slug.contains('/'),
        !slug.contains('.'),
        page_file(content_dir, slug) == content_dir + slug + ".md"@ || page_file(content_dir, slug)
            == content_dir + "/"@ + slug + ".md"@,
{
    assert forall|i: int| 0 <= i < slug.len() implies slug[i] != '/' && slug[i] != '.' by {
        assert(crate::catalog::is_slug_char(slug[i]));
    }
    assert((slug + ".md"@)[0] == slug[0]);
    assert(content_dir + (slug + ".md"@) =~= content_dir + slug + ".md"@);
    assert(content_dir + "/"@ + (slug + ".md"@) =~= content_dir + "/"@ + slug + ".md"@);
}

fn page_path(content_dir: &str, slug: &str) -> (r: String)
    ensures
        r@ == page_file(content_dir@, slug@),
{
    let name = join2(slug, ".md");
    join_path(content_dir, &name)
}

/// A page as HTML: Markdown with tables and strikethrough.
pub fn render_markdown(md: &str) -> (html: String)
    ensures
        html@ == markdown_html(md@, true, true),
{
    markdown_to_html(md, true, true)
}

/// A page as HTML, out of what a reader of files gives for it. There is none if
/// the slug is not safe, or if there is no file.
pub fn render(content_dir: &str, slug: &str, read: &impl Fn(&str) -> Option<String>) -> (r: Option<
    String,
>)
    requires
        forall|path: &str| call_requires(*read, (path,)),
    ensures
        !is_safe_slug(slug@) ==> r is None,
        is_safe_slug(slug@) ==> exists|path: &str, md: Option<String>| #[trigger]
            call_ensures(*read, (path,), md) && path@ == page_file(content_dir@, slug@) && match md {
                Some(t) => r is Some && r->0@ == markdown_html(t@, true, true),
                None => r is None,
            },
{
    if !safe_slug(slug) {
        return None;
    }
    let path = page_path(content_dir, slug);
    let at: &str = path.as_str();
    let md = read(at);
    assert(call_ensures(*read, (at,), md));
    match md {
        Some(t) => Some(render_markdown(&t)),
        None => None,
    }
}

/// Whether a page has a file. The footer links only to pages that have one.
pub fn page_exists(content_dir: &str, slug: &str, is_file: &impl Fn(&str) -> bool) -> (r: bool)
    requires
        forall|path: &str| call_requires(*is_file, (path,)),
    ensures
        !is_safe_slug(slug@) ==> !r,
        is_safe_slug(slug@) ==> exists|path: &str| #[trigger]
            call_ensures(*is_file, (path,), r) && path@ == page_file(content_dir@, slug@),
{
    if !safe_slug(slug) {
        return false;
    }
    let path = page_path(content_dir, slug);
    let at: &str = path.as_str();
    let r = is_file(at);
    assert(call_ensures(*is_file, (at,), r));
    r
}

/// A slug is safe exactly if it is not empty and holds nothing but small
/// letters, digits and hyphens.
pub proof fn lemma_safe_slugs(slug: Seq<char>)
    ensures
        is_safe_slug(slug) <==> slug.len() > 0 && forall|i: int|
            0 <= i < slug.len() ==> 'a' <= (#[trigger] slug[i]) <= 'z' || '0' <= slug[i] <= '9'
                || slug[i] == '-',
{
    crate::catalog::lemma_slug_chars(slug);
}

/// Different safe slugs have different files.
pub proof fn lemma_pages_have_files_of_their_own(
    content_dir: Seq<char>,
    a: Seq<char>,
    b: Seq<char>,
)
    requires
        is_safe_slug(a),
        is_safe_slug(b),
        page_file(content_dir, a) == page_file(content_dir, b),
    ensures
        a == b,
{
    reveal_strlit(".md");
    reveal_strlit("/");
    crate::catalog::lemma_slug_chars(a);
    crate::catalog::lemma_slug_chars(b);
    let x = a + ".md"@;
    let y = b + ".md"@;
    assert(x[0] == a[0]);
    assert(y[0] == b[0]);
    crate::paths::lemma_joined_path(content_dir, x);
    crate::paths::lemma_joined_path(content_dir, y);
    assert(x == y);
    assert(x.take(a.len() as int) =~= a);
    assert(y.take(b.len() as int) =~= b);
}

} // verus!
