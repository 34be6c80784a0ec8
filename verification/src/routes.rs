//! What the shop answers to its visitors.

use crate::catalog::{Analytics, Catalog, Category, Sku};
use crate::content::{page_exists, render};
use crate::fulfill::FulfillOutcome;
use crate::payments::{checkout_request, CheckoutRequest, WebhookStep};
use crate::text::{
    clone_opt, cut_at_either, join2, join3, same, split_at_each, starts_with, strip_prefix, trim,
};
use vstd::prelude::*;
use vstd::string::*;

verus! {

/// How often an address may call the pages that reach Stripe: so many times a
/// second, after a burst.
pub const RATE_PER_SECOND: u64 = 2;

/// How often an address may call the pages that reach Stripe at once.
pub const RATE_BURST: u32 = 5;

/// The longest report from Stripe that is read, in bytes.
pub const WEBHOOK_BODY_LIMIT: usize = 65536;

/// The origin of an https address: its scheme and host.
pub open spec fn origin_of(src: Seq<char>) -> Option<Seq<char>> {
    match crate::text::after_prefix(src, "https://"@) {
        Some(rest) => {
            let host = crate::text::until_either(rest, '/', '/');
            if host.len() == 0 {
                None
            } else {
                Some("https://"@ + host)
            }
        },
        None => None,
    }
}

/// The origin of an analytics script.
pub fn analytics_origin(src: &str) -> (r: Option<String>)
    ensures
        crate::text::opt_text(r) == origin_of(src@),
{
    let rest = match strip_prefix(src, "https://") {
        Some(t) => t,
        None => return None,
    };
    let host = cut_at_either(rest, '/', '/');
    if host.is_empty() {
        None
    } else {
        Some(join2("https://", host))
    }
}

/// An origin that is let into the pages besides the shop's own.
pub open spec fn extra_origin(analytics: Option<Analytics>) -> Seq<char> {
    match analytics {
        Some(a) => match origin_of(a.src@) {
            Some(origin) => " "@ + origin,
            None => ""@,
        },
        None => ""@,
    }
}

/// The content security policy of the pages.
pub open spec fn policy(analytics: Option<Analytics>) -> Seq<char> {
    let extra = extra_origin(analytics);
    "default-src 'self'; img-src 'self' data:; base-uri 'none'; script-src 'self'"@ + extra
        + "; connect-src 'self'"@ + (extra
        + "; form-action 'self' https://checkout.stripe.com; frame-ancestors 'none'"@)
}

/// The content security policy of the pages: nothing but the shop's own files,
/// the way to Stripe's checkout, and the analytics script, if there is one.
pub fn content_security_policy(analytics: &Option<Analytics>) -> (r: String)
    ensures
        r@ == policy(*analytics),
{
    let extra = match analytics {
        Some(a) => match analytics_origin(&a.src) {
            Some(origin) => join2(" ", &origin),
            None => "".to_owned(),
        },
        None => "".to_owned(),
    };
    let mut r = join3(
        "default-src 'self'; img-src 'self' data:; base-uri 'none'; script-src 'self'",
        &extra,
        "; connect-src 'self'",
    );
    r.append(
        &join2(
            &extra,
            "; form-action 'self' https://checkout.stripe.com; frame-ancestors 'none'",
        ),
    );
    r
}

/// A header that every answer has.
#[derive(Debug)]
pub struct Header {
    pub name: &'static str,
    pub value: String,
}

/// The headers that every answer has.
pub fn security_headers(catalog: &Catalog) -> (r: Vec<Header>)
    ensures
        r@.len() == 3,
        r@[0].name@ == "x-content-type-options"@ && r@[0].value@ == "nosniff"@,
        r@[1].name@ == "referrer-policy"@ && r@[1].value@ == "no-referrer"@,
        r@[2].name@ == "content-security-policy"@ && r@[2].value@ == policy(catalog.analytics),
{
    let mut r: Vec<Header> = Vec::new();
    r.push(Header { name: "x-content-type-options", value: "nosniff".to_owned() });
    r.push(Header { name: "referrer-policy", value: "no-referrer".to_owned() });
    r.push(
        Header {
            name: "content-security-policy",
            value: content_security_policy(&catalog.analytics),
        },
    );
    r
}

/// The value of the first of some cookies with a name, where the name is given
/// with the equals sign behind it.
pub open spec fn cookie_value(cookies: Seq<Seq<char>>, name: Seq<char>) -> Option<Seq<char>>
    decreases cookies.len(),
{
    if cookies.len() == 0 {
        None
    } else {
        match crate::text::after_prefix(crate::text::trimmed(cookies[0]), name) {
            Some(v) => Some(v),
            None => cookie_value(cookies.drop_first(), name),
        }
    }
}

/// The look that a visitor asked for.
pub open spec fn theme_of(header: Option<Seq<char>>) -> Seq<char> {
    match header {
        None => "system"@,
        Some(cookies) => match cookie_value(
            crate::text::pieces(cookies, ';'),
            "license_theme="@,
        ) {
            Some(v) => if v == "light"@ {
                "light"@
            } else if v == "dark"@ {
                "dark"@
            } else {
                "system"@
            },
            None => "system"@,
        },
    }
}

/// The view of a header that may be absent.
pub open spec fn opt_str(header: Option<&str>) -> Option<Seq<char>> {
    match header {
        Some(h) => Some(h@),
        None => None,
    }
}

/// The look that a visitor asked for, out of the cookie header: light, dark, or
/// that of the visitor's system.
pub fn theme_pref(header: Option<&str>) -> (r: &'static str)
    ensures
        r@ == theme_of(opt_str(header)),
        r@ == "light"@ || r@ == "dark"@ || r@ == "system"@,
{
    let cookies = match header {
        Some(h) => h,
        None => return "system",
    };
    let list = split_at_each(cookies, ';');
    let ghost all = crate::text::texts(list@);
    assert(all.skip(0) =~= all);
    for i in 0..list.len()
        invariant
            all == crate::text::texts(list@),
            all == crate::text::pieces(cookies@, ';'),
            opt_str(header) == Some(cookies@),
            cookie_value(all.skip(i as int), "license_theme="@) == cookie_value(
                all,
                "license_theme="@,
            ),
    {
        assert(all.skip(i as int)[0] == list@[i as int]@);
        assert(all.skip(i as int).drop_first() =~= all.skip(i + 1));
        if let Some(v) = strip_prefix(trim(&list[i]), "license_theme=") {
            return if same(v, "light") {
                "light"
            } else if same(v, "dark") {
                "dark"
            } else {
                "system"
            };
        }
    }
    "system"
}

/// A link in the footer.
#[derive(Debug)]
pub struct ChromeLink {
    pub title: String,
    pub href: String,
}

/// The mathematical content of a [`ChromeLink`].
pub struct LinkView {
    pub title: Seq<char>,
    pub href: Seq<char>,
}

impl View for ChromeLink {
    type V = LinkView;

    open spec fn view(&self) -> LinkView {
        LinkView { title: self.title@, href: self.href@ }
    }
}

/// The mathematical content of some links.
pub open spec fn link_views(links: Seq<ChromeLink>) -> Seq<LinkView> {
    links.map_values(|l: ChromeLink| l@)
}

/// The analytics script of a page.
#[derive(Debug)]
pub struct ChromeAnalytics {
    pub src: String,
    pub entity: Option<String>,
    pub module: bool,
}

/// What every page has around its content.
#[derive(Debug)]
pub struct Chrome {
    pub theme: &'static str,
    pub notice: Option<String>,
    pub links: Vec<ChromeLink>,
    pub analytics: Option<ChromeAnalytics>,
}

/// The links to the first `n` pages: to those that belong in the footer and
/// have content.
pub open spec fn page_links(
    pages: Seq<crate::catalog::Page>,
    present: Seq<bool>,
    n: nat,
) -> Seq<LinkView>
    decreases n,
{
    if n == 0 {
        Seq::empty()
    } else {
        let before = page_links(pages, present, (n - 1) as nat);
        let p = pages[n - 1];
        if p.footer && present[n - 1] {
            before.push(LinkView { title: p.title@, href: "/p/"@ + p.slug@ })
        } else {
            before
        }
    }
}

/// The links to some other addresses.
pub open spec fn extra_links(links: Seq<crate::catalog::FooterLink>) -> Seq<LinkView> {
    links.map_values(
        |l: crate::catalog::FooterLink| LinkView { title: l.title@, href: l.url@ },
    )
}

/// The links in the footer: the pages first, then the others.
pub open spec fn footer(c: Catalog, present: Seq<bool>) -> Seq<LinkView> {
    page_links(c.pages@, present, c.pages@.len()) + extra_links(c.footer_links@)
}

/// The links in the footer, given which pages have content.
pub fn footer_links(catalog: &Catalog, present: &Vec<bool>) -> (links: Vec<ChromeLink>)
    requires
        present@.len() == catalog.pages@.len(),
    ensures
        link_views(links@) == footer(*catalog, present@),
{
    let mut links: Vec<ChromeLink> = Vec::new();
    for i in 0..catalog.pages.len()
        invariant
            present@.len() == catalog.pages@.len(),
            link_views(links@) == page_links(catalog.pages@, present@, i as nat),
    {
        let ghost before = links@;
        let p = &catalog.pages[i];
        if p.footer && present[i] {
            links.push(ChromeLink { title: p.title.clone(), href: join2("/p/", &p.slug) });
            assert(link_views(links@) =~= link_views(before).push(links@.last()@));
        }
    }
    let ghost head = link_views(links@);
    let ghost more = extra_links(catalog.footer_links@);
    assert(head + more.take(0) =~= head);
    for i in 0..catalog.footer_links.len()
        invariant
            more == extra_links(catalog.footer_links@),
            link_views(links@) == head + more.take(i as int),
    {
        let ghost before = links@;
        let l = &catalog.footer_links[i];
        links.push(ChromeLink { title: l.title.clone(), href: l.url.clone() });
        assert(link_views(links@) =~= link_views(before).push(links@.last()@));
        assert(head + more.take(i + 1) =~= (head + more.take(i as int)).push(more[i as int]));
    }
    assert(more.take(more.len() as int) =~= more);
    links
}

/// The usual notice on payment data.
pub const DEFAULT_PAYMENT_NOTICE: &'static str =
    "Payments are processed by Stripe, which collects your email, company name and payment details.";

/// The notice on payment data: the usual one, the shop's own, or none if that
/// is empty.
pub open spec fn notice_of(payment_notice: Option<String>) -> Option<Seq<char>> {
    match payment_notice {
        None => Some(DEFAULT_PAYMENT_NOTICE@),
        Some(s) => if s@.len() == 0 {
            None
        } else {
            Some(s@)
        },
    }
}

/// The notice on payment data.
pub fn payment_notice(configured: &Option<String>) -> (r: Option<String>)
    ensures
        crate::text::opt_text(r) == notice_of(*configured),
        r is None <==> (configured matches Some(s) && s@.len() == 0),
        configured is Some && configured->0@.len() > 0 ==> r is Some && r->0@ == configured->0@,
        *configured is None ==> r is Some && r->0@ == DEFAULT_PAYMENT_NOTICE@,
{
    match configured {
        None => Some(DEFAULT_PAYMENT_NOTICE.to_owned()),
        Some(s) => if s.as_str().is_empty() {
            None
        } else {
            Some(s.clone())
        },
    }
}

/// Whether the pages of a catalog may have been found to have content, or not,
/// by looking for their files. Only those of the footer are looked for.
pub open spec fn probed<F: Fn(&str) -> bool>(
    is_file: F,
    content_dir: Seq<char>,
    pages: Seq<crate::catalog::Page>,
    present: Seq<bool>,
) -> bool {
    &&& present.len() == pages.len()
    &&& forall|i: int|
        0 <= i < pages.len() && (#[trigger] pages[i]).footer && crate::content::is_safe_slug(
            pages[i].slug@,
        ) ==> exists|path: &str| #[trigger]
            call_ensures(is_file, (path,), present[i]) && path@ == crate::content::page_file(
                content_dir,
                pages[i].slug@,
            )
    &&& forall|i: int|
        0 <= i < pages.len() && !((#[trigger] pages[i]).footer && crate::content::is_safe_slug(
            pages[i].slug@,
        )) ==> !present[i]
}

/// Whether a page has the surroundings that it should have, given which pages
/// have content.
pub open spec fn is_chrome(
    ch: Chrome,
    c: Catalog,
    cookies: Option<Seq<char>>,
    present: Seq<bool>,
) -> bool {
    &&& ch.theme@ == theme_of(cookies)
    &&& crate::text::opt_text(ch.notice) == notice_of(c.shop.payment_notice)
    &&& link_views(ch.links@) == footer(c, present)
    &&& match c.analytics {
        Some(a) => ch.analytics matches Some(x) && x.src == a.src && x.entity == a.entity && x.module
            == a.module,
        None => ch.analytics is None,
    }
}

/// What every page has around its content.
pub fn chrome(
    catalog: &Catalog,
    content_dir: &str,
    cookies: Option<&str>,
    is_file: &impl Fn(&str) -> bool,
) -> (r: Chrome)
    requires
        forall|path: &str| call_requires(*is_file, (path,)),
    ensures
        exists|present: Seq<bool>| #[trigger]
            probed(*is_file, content_dir@, catalog.pages@, present) && is_chrome(
                r,
                *catalog,
                opt_str(cookies),
                present,
            ),
{
    let mut present: Vec<bool> = Vec::new();
    for i in 0..catalog.pages.len()
        invariant
            forall|path: &str| call_requires(*is_file, (path,)),
            probed(*is_file, content_dir@, catalog.pages@.take(i as int), present@),
    {
        let p = &catalog.pages[i];
        let there = p.footer && page_exists(content_dir, &p.slug, is_file);
        let ghost before = present@;
        present.push(there);
        proof {
            let pages = catalog.pages@.take(i + 1);
            assert forall|k: int|
                0 <= k < pages.len() && (#[trigger] pages[k]).footer
                    && crate::content::is_safe_slug(pages[k].slug@) implies exists|path: &str|
                #[trigger]
                call_ensures(*is_file, (path,), present@[k]) && path@
                    == crate::content::page_file(content_dir@, pages[k].slug@) by {
                if k < i {
                    let q = catalog.pages@.take(i as int)[k];
                    assert(q == pages[k]);
                    assert(present@[k] == before[k]);
                    let path = choose|path: &str| #[trigger]
                        call_ensures(*is_file, (path,), before[k]) && path@
                            == crate::content::page_file(content_dir@, q.slug@);
                    assert(call_ensures(*is_file, (path,), present@[k]));
                } else {
                    assert(pages[k] == *p);
                    assert(present@[k] == there);
                    let path = choose|path: &str| #[trigger]
                        call_ensures(*is_file, (path,), there) && path@
                            == crate::content::page_file(content_dir@, p.slug@);
                    assert(call_ensures(*is_file, (path,), present@[k]));
                }
            }
            assert forall|k: int|
                0 <= k < pages.len() && !((#[trigger] pages[k]).footer
                    && crate::content::is_safe_slug(pages[k].slug@)) implies !present@[k] by {
                if k < i {
                    assert(catalog.pages@.take(i as int)[k] == pages[k]);
                    assert(present@[k] == before[k]);
                }
            }
        }
    }
    assert(catalog.pages@.take(catalog.pages@.len() as int) =~= catalog.pages@);
    let analytics = match &catalog.analytics {
        Some(a) => Some(
            ChromeAnalytics { src: a.src.clone(), entity: clone_opt(&a.entity), module: a.module },
        ),
        None => None,
    };
    let r = Chrome {
        theme: theme_pref(cookies),
        notice: payment_notice(&catalog.shop.payment_notice),
        links: footer_links(catalog, &present),
        analytics,
    };
    assert(is_chrome(r, *catalog, opt_str(cookies), present@));
    r
}

/// A character of a session identifier.
pub open spec fn is_session_char(c: char) -> bool {
    ||| 'a' <= c <= 'z'
    ||| 'A' <= c <= 'Z'
    ||| '0' <= c <= '9'
    ||| c == '_'
}

/// Whether a text has the shape of a session identifier.
pub open spec fn valid_session_id(s: Seq<char>) -> bool {
    &&& 4 <= s.len() <= 255
    &&& "cs_"@.is_prefix_of(s)
    &&& forall|i: int| 0 <= i < s.len() ==> is_session_char(#[trigger] s[i])
}

/// Whether a text has the shape of a session identifier. Nothing else reaches
/// Stripe, the database or a page.
pub fn is_valid_session_id(s: &str) -> (r: bool)
    ensures
        r == valid_session_id(s@),
        r <==> 4 <= s@.len() <= 255 && s@[0] == 'c' && s@[1] == 's' && s@[2] == '_' && forall|
            i: int,
        |
            0 <= i < s@.len() ==> 'a' <= (#[trigger] s@[i]) <= 'z' || 'A' <= s@[i] <= 'Z' || '0'
                <= s@[i] <= '9' || s@[i] == '_',
{
    let len = s.unicode_len();
    proof {
        reveal_strlit("cs_");
        assert("cs_"@.is_prefix_of(s@) <==> s@.len() >= 3 && s@[0] == 'c' && s@[1] == 's' && s@[2]
            == '_') by {
            if s@.len() >= 3 {
                let start = s@.subrange(0, 3);
                assert(start[0] == s@[0] && start[1] == s@[1] && start[2] == s@[2]);
                if start[0] == 'c' && start[1] == 's' && start[2] == '_' {
                    assert(start =~= "cs_"@);
                }
            }
        }
    }
    if len < 4 || len > 255 || !starts_with(s, "cs_") {
        return false;
    }
    for c in it: s.chars()
        invariant
            it.seq() == s@,
            forall|i: int| 0 <= i < it.index() ==> is_session_char(#[trigger] s@[i]),
    {
        if !(('a' <= c && c <= 'z') || ('A' <= c && c <= 'Z') || ('0' <= c && c <= '9') || c
            == '_') {
            assert(!is_session_char(s@[it.index() as int]));
            return false;
        }
    }
    true
}

/// A plan on a page.
#[derive(Debug)]
pub struct SkuView {
    pub id: String,
    pub display_name: String,
    pub description: Option<String>,
    pub url: Option<String>,
    pub price_label: String,
}

/// A category on a page, with its plans.
#[derive(Debug)]
pub struct CategoryGroup {
    pub id: String,
    pub name: String,
    pub description: Option<String>,
    pub url: Option<String>,
    pub skus: Vec<SkuView>,
}

/// What a page shows of a plan.
pub open spec fn shown(s: Sku) -> SkuView {
    SkuView {
        id: s.id,
        display_name: s.display_name,
        description: s.description,
        url: s.url,
        price_label: s.price_label,
    }
}

/// What a page shows of the plans of a category, in order.
pub open spec fn plans_of(skus: Seq<Sku>, category: Seq<char>) -> Seq<SkuView>
    decreases skus.len(),
{
    if skus.len() == 0 {
        Seq::empty()
    } else {
        let before = plans_of(skus.drop_last(), category);
        if skus.last().category@ == category {
            before.push(shown(skus.last()))
        } else {
            before
        }
    }
}

/// Whether a category is shown: it has plans, and it is the one that is asked
/// for, if one is.
pub open spec fn is_shown(c: Category, skus: Seq<Sku>, only: Option<Seq<char>>) -> bool {
    &&& (only matches Some(id) ==> c.id@ == id)
    &&& plans_of(skus, c.id@).len() > 0
}

/// The categories that are shown, in order.
pub open spec fn shown_categories(
    categories: Seq<Category>,
    skus: Seq<Sku>,
    only: Option<Seq<char>>,
) -> Seq<Category>
    decreases categories.len(),
{
    if categories.len() == 0 {
        Seq::empty()
    } else {
        let before = shown_categories(categories.drop_last(), skus, only);
        if is_shown(categories.last(), skus, only) {
            before.push(categories.last())
        } else {
            before
        }
    }
}

/// Whether a group shows a category with its plans.
pub open spec fn is_group(g: CategoryGroup, c: Category, skus: Seq<Sku>) -> bool {
    &&& g.id == c.id
    &&& g.name == c.name
    &&& g.description == c.description
    &&& g.url == c.url
    &&& g.skus@ == plans_of(skus, c.id@)
}

/// Whether groups show categories, one each.
pub open spec fn are_groups(
    groups: Seq<CategoryGroup>,
    categories: Seq<Category>,
    skus: Seq<Sku>,
) -> bool {
    &&& groups.len() == categories.len()
    &&& forall|i: int|
        0 <= i < groups.len() ==> is_group(#[trigger] groups[i], categories[i], skus)
}

fn plans(skus: &Vec<Sku>, category: &str) -> (r: Vec<SkuView>)
    ensures
        r@ == plans_of(skus@, category@),
{
    let mut r: Vec<SkuView> = Vec::new();
    for i in 0..skus.len()
        invariant
            r@ == plans_of(skus@.take(i as int), category@),
    {
        assert(skus@.take(i + 1).drop_last() =~= skus@.take(i as int));
        let s = &skus[i];
        if same(&s.category, category) {
            r.push(
                SkuView {
                    id: s.id.clone(),
                    display_name: s.display_name.clone(),
                    description: clone_opt(&s.description),
                    url: clone_opt(&s.url),
                    price_label: s.price_label.clone(),
                },
            );
        }
    }
    assert(skus@.take(skus@.len() as int) =~= skus@);
    r
}

/// The categories with their plans, in the order of the catalog: all of them,
/// or one. Those without plans are left out.
pub fn category_groups(cat: &Catalog, only: Option<&str>) -> (r: Vec<CategoryGroup>)
    ensures
        are_groups(
            r@,
            shown_categories(cat.categories@, cat.skus@, opt_str(only)),
            cat.skus@,
        ),
{
    let mut r: Vec<CategoryGroup> = Vec::new();
    for i in 0..cat.categories.len()
        invariant
            are_groups(
                r@,
                shown_categories(cat.categories@.take(i as int), cat.skus@, opt_str(only)),
                cat.skus@,
            ),
    {
        assert(cat.categories@.take(i + 1).drop_last() =~= cat.categories@.take(i as int));
        let c = &cat.categories[i];
        let wanted = match only {
            Some(id) => same(&c.id, id),
            None => true,
        };
        if wanted {
            let skus = plans(&cat.skus, &c.id);
            if skus.len() > 0 {
                let ghost before = r@;
                r.push(
                    CategoryGroup {
                        id: c.id.clone(),
                        name: c.name.clone(),
                        description: clone_opt(&c.description),
                        url: clone_opt(&c.url),
                        skus,
                    },
                );
                assert forall|k: int| 0 <= k < r@.len() implies is_group(
                    #[trigger] r@[k],
                    shown_categories(cat.categories@.take(i + 1), cat.skus@, opt_str(only))[k],
                    cat.skus@,
                ) by {
                    if k < before.len() {
                        assert(r@[k] == before[k]);
                    }
                }
            }
        }
    }
    assert(cat.categories@.take(cat.categories@.len() as int) =~= cat.categories@);
    r
}

proof fn lemma_shown(categories: Seq<Category>, skus: Seq<Sku>, only: Option<Seq<char>>, i: int)
    requires
        0 <= i < shown_categories(categories, skus, only).len(),
    ensures
        is_shown(shown_categories(categories, skus, only)[i], skus, only),
        categories.contains(shown_categories(categories, skus, only)[i]),
    decreases categories.len(),
{
    let before = shown_categories(categories.drop_last(), skus, only);
    if i < before.len() {
        lemma_shown(categories.drop_last(), skus, only, i);
        let k = categories.drop_last().index_of(before[i]);
        assert(categories[k] == before[i]);
    } else {
        assert(categories[categories.len() - 1] == categories.last());
    }
}

/// No group is shown without a plan, and where one category is asked for, no
/// other is shown.
pub proof fn lemma_groups_are_not_empty(
    groups: Seq<CategoryGroup>,
    cat: Catalog,
    only: Option<Seq<char>>,
    i: int,
)
    requires
        are_groups(groups, shown_categories(cat.categories@, cat.skus@, only), cat.skus@),
        0 <= i < groups.len(),
    ensures
        groups[i].skus@.len() > 0,
        only matches Some(id) ==> groups[i].id@ == id,
{
    lemma_shown(cat.categories@, cat.skus@, only, i);
}

/// A short answer in plain text.
#[derive(Debug, Clone, Copy)]
pub struct PlainReply {
    pub status: u16,
    pub text: &'static str,
}

/// Whether an answer has a status and a text.
pub open spec fn says(r: PlainReply, status: u16, text: Seq<char>) -> bool {
    r.status == status && r.text@ == text
}

/// The page of one category, unless there is none to show.
pub fn category_page(cat: &Catalog, category: &str) -> (r: Result<CategoryGroup, PlainReply>)
    ensures
        ({
            let found = shown_categories(cat.categories@, cat.skus@, Some(category@));
            match r {
                Ok(g) => found.len() > 0 && is_group(g, found.last(), cat.skus@),
                Err(e) => found.len() == 0 && says(e, 404, "unknown category"@),
            }
        }),
{
    let mut groups = category_groups(cat, Some(category));
    match groups.pop() {
        Some(g) => Ok(g),
        None => Err(PlainReply { status: 404, text: "unknown category" }),
    }
}

/// A content page.
#[derive(Debug)]
pub struct ContentPage {
    pub title: String,
    pub body: String,
}

/// A content page, out of what a reader of files gives for it.
pub fn page_view(
    cat: &Catalog,
    content_dir: &str,
    slug: &str,
    read: &impl Fn(&str) -> Option<String>,
) -> (r: Result<ContentPage, PlainReply>)
    requires
        forall|path: &str| call_requires(*read, (path,)),
    ensures
        match crate::catalog::page_with(cat.pages@, slug@) {
            None => r matches Err(e) && says(e, 404, "unknown page"@),
            Some(p) => if !crate::content::is_safe_slug(p.slug@) {
                r matches Err(e) && says(e, 404, "page has no content"@)
            } else {
                exists|path: &str, md: Option<String>| #[trigger]
                    call_ensures(*read, (path,), md) && path@ == crate::content::page_file(
                        content_dir@,
                        p.slug@,
                    ) && match md {
                        Some(t) => r matches Ok(page) && page.title == p.title && page.body@
                            == crate::content::markdown_html(t@, true, true),
                        None => r matches Err(e) && says(e, 404, "page has no content"@),
                    }
            },
        },
{
    let p = match cat.page(slug) {
        Some(p) => p,
        None => return Err(PlainReply { status: 404, text: "unknown page" }),
    };
    match render(content_dir, &p.slug, read) {
        Some(body) => Ok(ContentPage { title: p.title.clone(), body }),
        None => Err(PlainReply { status: 404, text: "page has no content" }),
    }
}

/// The checkout session for a plan that a visitor wants to buy.
pub fn checkout(cat: &Catalog, base_url: &str, sku_id: &str) -> (r: Result<
    CheckoutRequest,
    PlainReply,
>)
    ensures
        match crate::catalog::sku_with(cat.skus@, sku_id@) {
            Some(sku) => r matches Ok(q) && crate::payments::is_checkout_of(q, base_url@, sku),
            None => r matches Err(e) && says(e, 400, "unknown product"@),
        },
        r is Ok <==> exists|k: int|
            0 <= k < cat.skus@.len() && (#[trigger] cat.skus@[k]).id@ == sku_id@,
        r matches Ok(q) ==> exists|k: int|
            0 <= k < cat.skus@.len() && (#[trigger] cat.skus@[k]).id@ == sku_id@ && q.price_id@
                == cat.skus@[k].stripe_price_id@,
        r matches Ok(q) ==> q.quantity == 1 && q.sku_id@ == sku_id@ && q.success_url@ == base_url@
            + "/success?session_id={CHECKOUT_SESSION_ID}"@ && q.cancel_url@ == base_url@ + "/"@,
        r matches Err(e) ==> e.status == 400 && e.text@ == "unknown product"@,
{
    proof {
        crate::catalog::lemma_sku_with_finds(cat.skus@, sku_id@);
    }
    match cat.by_id(sku_id) {
        Some(sku) => Ok(checkout_request(base_url, sku)),
        None => Err(PlainReply { status: 400, text: "unknown product" }),
    }
}

/// Where a visitor goes once Stripe has made the session, or failed to.
pub fn after_checkout(created: Option<Option<String>>) -> (r: Result<String, PlainReply>)
    ensures
        match created {
            Some(Some(url)) => r == Ok::<String, PlainReply>(url),
            Some(None) => r matches Err(e) && says(e, 502, "stripe returned no url"@),
            None => r matches Err(e) && says(e, 502, "could not start checkout"@),
        },
{
    match created {
        Some(Some(url)) => Ok(url),
        Some(None) => Err(PlainReply { status: 502, text: "stripe returned no url" }),
        None => Err(PlainReply { status: 502, text: "could not start checkout" }),
    }
}

/// Lets nothing but session identifiers through.
pub fn check_session_id(session_id: &str) -> (r: Result<(), PlainReply>)
    ensures
        match r {
            Ok(()) => valid_session_id(session_id@),
            Err(e) => !valid_session_id(session_id@) && says(e, 400, "invalid session id"@),
        },
{
    if is_valid_session_id(session_id) {
        Ok(())
    } else {
        Err(PlainReply { status: 400, text: "invalid session id" })
    }
}

/// The page after a checkout.
#[derive(Debug)]
pub enum SuccessReply {
    /// The license, or that it is still to come.
    Page { pending: bool, session_id: String, blob: String, product: String },
    /// A page that says what is wrong.
    ErrorPage { status: u16, title: &'static str, message: &'static str },
    Plain(PlainReply),
}

/// Whether a page after a checkout is the right one, given how the fulfillment
/// ended, if it did.
pub open spec fn is_success_reply(
    r: SuccessReply,
    id: Seq<char>,
    outcome: Option<FulfillOutcome>,
) -> bool {
    match outcome {
        Some(FulfillOutcome::Ready(lic)) => r matches SuccessReply::Page {
            pending,
            session_id,
            blob,
            product,
        } && !pending && session_id@ == id && blob == lic.blob && product == lic.product,
        Some(FulfillOutcome::Pending) => r matches SuccessReply::Page {
            pending,
            session_id,
            blob,
            product,
        } && pending && session_id@ == id && blob@.len() == 0 && product@.len() == 0,
        Some(FulfillOutcome::LookupFailed) => r matches SuccessReply::ErrorPage { status, .. }
            && status == 404,
        None => r matches SuccessReply::Plain(e) && says(e, 500, "fulfillment error"@),
    }
}

/// Whether the answer to a request for a license as a file is the right one,
/// given how the fulfillment ended, if it did.
pub open spec fn is_download_reply(
    r: DownloadReply,
    id: Seq<char>,
    outcome: Option<FulfillOutcome>,
) -> bool {
    match outcome {
        Some(FulfillOutcome::Ready(lic)) => r matches DownloadReply::File { disposition, blob }
            && disposition@ == disposition_of(lic.product@) && blob == lic.blob,
        Some(_) => r matches DownloadReply::Redirect(url) && url@ == "/success?session_id="@ + id,
        None => r matches DownloadReply::Plain(e) && says(e, 500, "download error"@),
    }
}

/// The page after a checkout shows the license that was stored, and the download
/// is that same license, under the name of its product. While there is none, the
/// page shows none, and the download leads to the page.
pub proof fn lemma_page_and_download_agree(
    page: SuccessReply,
    file: DownloadReply,
    id: Seq<char>,
    outcome: Option<FulfillOutcome>,
)
    requires
        is_success_reply(page, id, outcome),
        is_download_reply(file, id, outcome),
    ensures
        file is File <==> outcome is Some && outcome->0 is Ready,
        file matches DownloadReply::File { disposition, blob } ==> page is Page && !page->pending
            && page->blob@ == blob@ && disposition@ == disposition_of(page->product@) && blob@
            == outcome->0->Ready_0.blob@,
        page is Page ==> page->session_id@ == id && (page->pending <==> !(file is File)) && (page->pending ==> page->blob@.len() == 0),
        page is Page <==> outcome is Some && !(outcome->0 is LookupFailed),
        page is Plain <==> outcome is None,
        file is Plain <==> outcome is None,
        file matches DownloadReply::Redirect(url) ==> url@ == "/success?session_id="@ + id,
{
}

/// The page after a checkout, given how the fulfillment ended, if it did.
pub fn success(session_id: String, outcome: Option<FulfillOutcome>) -> (r: SuccessReply)
    ensures
        is_success_reply(r, session_id@, outcome),
        match outcome {
            Some(FulfillOutcome::Ready(lic)) => r == (SuccessReply::Page {
                pending: false,
                session_id,
                blob: lic.blob,
                product: lic.product,
            }),
            Some(FulfillOutcome::Pending) => r matches SuccessReply::Page {
                pending,
                session_id: id,
                blob,
                product,
            } && pending && id == session_id && blob@.len() == 0 && product@.len() == 0,
            Some(FulfillOutcome::LookupFailed) => r matches SuccessReply::ErrorPage {
                status,
                title,
                message,
            } && status == 404 && title@ == "Checkout session not found"@ && message@
                == "We could not find this checkout session. Check the link you followed, or contact support."@,
            None => r matches SuccessReply::Plain(e) && says(e, 500, "fulfillment error"@),
        },
{
    match outcome {
        Some(FulfillOutcome::Ready(lic)) => SuccessReply::Page {
            pending: false,
            session_id,
            blob: lic.blob,
            product: lic.product,
        },
        Some(FulfillOutcome::Pending) => SuccessReply::Page {
            pending: true,
            session_id,
            blob: String::new(),
            product: String::new(),
        },
        Some(FulfillOutcome::LookupFailed) => SuccessReply::ErrorPage {
            status: 404,
            title: "Checkout session not found",
            message:
                "We could not find this checkout session. Check the link you followed, or contact support.",
        },
        None => SuccessReply::Plain(PlainReply { status: 500, text: "fulfillment error" }),
    }
}

/// The answer to a request for a license as a file.
#[derive(Debug)]
pub enum DownloadReply {
    File { disposition: String, blob: String },
    /// There is no license: the success page says why.
    Redirect(String),
    Plain(PlainReply),
}

/// The name under which a license is downloaded, as a header.
pub open spec fn disposition_of(product: Seq<char>) -> Seq<char> {
    "attachment; filename=\""@ + product + "-license.txt\""@
}

/// The answer to a request for a license as a file, given how the fulfillment
/// ended, if it did.
pub fn success_download(session_id: &str, outcome: Option<FulfillOutcome>) -> (r: DownloadReply)
    ensures
        is_download_reply(r, session_id@, outcome),
        match outcome {
            Some(FulfillOutcome::Ready(lic)) => r matches DownloadReply::File { disposition, blob }
                && disposition@ == disposition_of(lic.product@) && blob == lic.blob && disposition@
                == "attachment; filename=\""@ + lic.product@ + "-license.txt\""@,
            Some(_) => r matches DownloadReply::Redirect(url) && url@ == "/success?session_id="@
                + session_id@,
            None => r matches DownloadReply::Plain(e) && says(e, 500, "download error"@),
        },
{
    match outcome {
        Some(FulfillOutcome::Ready(lic)) => DownloadReply::File {
            disposition: join3("attachment; filename=\"", &lic.product, "-license.txt\""),
            blob: lic.blob,
        },
        Some(_) => DownloadReply::Redirect(join2("/success?session_id=", session_id)),
        None => DownloadReply::Plain(PlainReply { status: 500, text: "download error" }),
    }
}

/// The answer to a report from Stripe that is not to be fulfilled.
pub fn webhook_refusal(step: &WebhookStep) -> (r: Option<PlainReply>)
    ensures
        match *step {
            WebhookStep::MissingSignature => r matches Some(e) && says(
                e,
                400,
                "missing signature"@,
            ),
            WebhookStep::BadSignature => r matches Some(e) && says(e, 400, "bad signature"@),
            _ => r is None,
        },
{
    match step {
        WebhookStep::MissingSignature => Some(
            PlainReply { status: 400, text: "missing signature" },
        ),
        WebhookStep::BadSignature => Some(PlainReply { status: 400, text: "bad signature" }),
        _ => None,
    }
}

/// The answer to a report from Stripe that was accepted: an error if its session
/// could not be fulfilled, so that Stripe reports it again.
pub fn after_webhook(fulfilled: bool) -> (r: PlainReply)
    ensures
        if fulfilled {
            says(r, 200, ""@)
        } else {
            says(r, 500, "fulfill error"@)
        },
{
    if fulfilled {
        PlainReply { status: 200, text: "" }
    } else {
        PlainReply { status: 500, text: "fulfill error" }
    }
}

/// An answer that says something has that status and that text.
pub proof fn lemma_answers_say_it(r: PlainReply, status: u16, text: Seq<char>)
    ensures
        says(r, status, text) <==> r.status == status && r.text@ == text,
{
}

/// The origin of an address begins it, is no longer than its scheme and its
/// host, and has a host.
pub proof fn lemma_origin_is_scheme_and_host(src: Seq<char>)
    ensures
        origin_of(src) is Some <==> "https://"@.is_prefix_of(src) && src.len() > 8 && src[8] != '/',
        origin_of(src) matches Some(origin) ==> {
            &&& 8 < origin.len() <= src.len()
            &&& origin == src.take(origin.len() as int)
            &&& !origin.skip(8).contains('/')
            &&& origin.len() < src.len() ==> src[origin.len() as int] == '/'
        },
{
    reveal_strlit("https://");
    if "https://"@.is_prefix_of(src) {
        let rest = src.skip(8);
        let host = crate::text::until_either(rest, '/', '/');
        crate::text::lemma_until_is_first(rest, '/', '/');
        assert("https://"@ =~= src.take(8));
        assert("https://"@ + host =~= src.take(8int + host.len()));
        assert(("https://"@ + host).skip(8) =~= host);
        if rest.len() > 0 {
            assert(rest[0] == src[8]);
            if host.len() > 0 {
                assert(host[0] == rest.take(host.len() as int)[0]);
                assert(host.contains(host[0]));
            }
        }
    }
}

/// The pages load nothing but the shop's own files and what the analytics
/// script needs: scripts come from its origin, and data goes there, and nothing
/// else is let in.
pub proof fn lemma_policy_lets_in_analytics_alone(analytics: Option<Analytics>)
    ensures
        ({
            let extra = if analytics is Some && origin_of(analytics->0.src@) is Some {
                " "@ + origin_of(analytics->0.src@)->0
            } else {
                Seq::empty()
            };
            let p = policy(analytics);
            &&& "default-src 'self'; "@.is_prefix_of(p)
            &&& crate::text::occurs_in("; img-src 'self' data:; base-uri 'none'; "@, p)
            &&& crate::text::occurs_in("; script-src 'self'"@ + extra + "; "@, p)
            &&& crate::text::occurs_in("; connect-src 'self'"@ + extra + "; "@, p)
            &&& "; form-action 'self' https://checkout.stripe.com; frame-ancestors 'none'"@.is_suffix_of(
                p,
            )
        }),
{
    let extra = if analytics is Some && origin_of(analytics->0.src@) is Some {
        " "@ + origin_of(analytics->0.src@)->0
    } else {
        Seq::empty()
    };
    assert(""@ =~= Seq::<char>::empty()) by {
        reveal_strlit("");
    }
    let p = policy(analytics);
    let first = "default-src 'self'; img-src 'self' data:; base-uri 'none'; script-src 'self'"@;
    let last = "; form-action 'self' https://checkout.stripe.com; frame-ancestors 'none'"@;
    assert(first =~= "default-src 'self'"@ + "; img-src 'self' data:; base-uri 'none'; "@
        + "script-src 'self'"@) by {
        reveal_strlit(
            "default-src 'self'; img-src 'self' data:; base-uri 'none'; script-src 'self'",
        );
        reveal_strlit("default-src 'self'");
        reveal_strlit("; img-src 'self' data:; base-uri 'none'; ");
        reveal_strlit("script-src 'self'");
    }
    assert(first =~= "default-src 'self'; "@ + "img-src 'self' data:; base-uri 'none'"@
        + "; script-src 'self'"@) by {
        reveal_strlit(
            "default-src 'self'; img-src 'self' data:; base-uri 'none'; script-src 'self'",
        );
        reveal_strlit("default-src 'self'; ");
        reveal_strlit("img-src 'self' data:; base-uri 'none'");
        reveal_strlit("; script-src 'self'");
    }
    assert("; connect-src 'self'"@ =~= "; "@ + "connect-src 'self'"@) by {
        reveal_strlit("; connect-src 'self'");
        reveal_strlit("; ");
        reveal_strlit("connect-src 'self'");
    }
    assert(last =~= "; "@
        + "form-action 'self' https://checkout.stripe.com; frame-ancestors 'none'"@) by {
        reveal_strlit("; form-action 'self' https://checkout.stripe.com; frame-ancestors 'none'");
        reveal_strlit("; ");
        reveal_strlit("form-action 'self' https://checkout.stripe.com; frame-ancestors 'none'");
    }
    let connect = "; connect-src 'self'"@;
    assert(p == first + extra + connect + (extra + last));
    assert("default-src 'self'; "@.is_prefix_of(p)) by {
        let a = "default-src 'self'; "@;
        assert(p.subrange(0, a.len() as int) =~= a);
    }
    assert(last.is_suffix_of(p)) by {
        assert(p.subrange(p.len() - last.len(), p.len() as int) =~= last);
    }
    let more = "connect-src 'self'"@;
    assert(crate::text::occurs_in("; img-src 'self' data:; base-uri 'none'; "@, p)) by {
        let a = "default-src 'self'"@;
        let b = "; img-src 'self' data:; base-uri 'none'; "@;
        let c = "script-src 'self'"@ + extra + connect + (extra + last);
        crate::text::lemma_occurs(a, b, c);
        assert(p =~= a + b + c);
    }
    assert(crate::text::occurs_in("; script-src 'self'"@ + extra + "; "@, p)) by {
        let a = "default-src 'self'; "@ + "img-src 'self' data:; base-uri 'none'"@;
        let b = "; script-src 'self'"@ + extra + "; "@;
        let c = more + (extra + last);
        crate::text::lemma_occurs(a, b, c);
        assert(p =~= a + b + c);
    }
    assert(crate::text::occurs_in("; connect-src 'self'"@ + extra + "; "@, p)) by {
        let a = first + extra;
        let b = connect + extra + "; "@;
        let c = "form-action 'self' https://checkout.stripe.com; frame-ancestors 'none'"@;
        crate::text::lemma_occurs(a, b, c);
        assert(p =~= a + b + c);
    }
}

proof fn lemma_cookie_at(cookies: Seq<Seq<char>>, name: Seq<char>, k: int)
    requires
        0 <= k < cookies.len(),
        name.is_prefix_of(crate::text::trimmed(cookies[k])),
        forall|j: int| 0 <= j < k ==> !name.is_prefix_of(crate::text::trimmed(#[trigger] cookies[j])),
    ensures
        cookie_value(cookies, name) == Some(
            crate::text::trimmed(cookies[k]).skip(name.len() as int),
        ),
    decreases cookies.len(),
{
    if k > 0 {
        let rest = cookies.drop_first();
        assert(!name.is_prefix_of(crate::text::trimmed(cookies[0])));
        assert(rest[k - 1] == cookies[k]);
        assert forall|j: int| 0 <= j < k - 1 implies !name.is_prefix_of(
            crate::text::trimmed(#[trigger] rest[j]),
        ) by {
            assert(rest[j] == cookies[j + 1]);
        }
        lemma_cookie_at(rest, name, k - 1);
    }
}

proof fn lemma_no_cookie(cookies: Seq<Seq<char>>, name: Seq<char>)
    requires
        forall|j: int|
            0 <= j < cookies.len() ==> !name.is_prefix_of(
                crate::text::trimmed(#[trigger] cookies[j]),
            ),
    ensures
        cookie_value(cookies, name) is None,
    decreases cookies.len(),
{
    if cookies.len() > 0 {
        let rest = cookies.drop_first();
        assert(!name.is_prefix_of(crate::text::trimmed(cookies[0])));
        assert forall|j: int| 0 <= j < rest.len() implies !name.is_prefix_of(
            crate::text::trimmed(#[trigger] rest[j]),
        ) by {
            assert(rest[j] == cookies[j + 1]);
        }
        lemma_no_cookie(rest, name);
    }
}

/// The first theme cookie decides how the pages look, if it names a look: what
/// stands behind its equals sign is the look.
pub proof fn lemma_first_theme_cookie_decides(header: Seq<char>, k: int)
    requires
        0 <= k < crate::text::pieces(header, ';').len(),
        "license_theme="@.is_prefix_of(crate::text::trimmed(crate::text::pieces(header, ';')[k])),
        forall|j: int|
            0 <= j < k ==> !"license_theme="@.is_prefix_of(
                crate::text::trimmed(#[trigger] crate::text::pieces(header, ';')[j]),
            ),
    ensures
        ({
            let cookie = crate::text::trimmed(crate::text::pieces(header, ';')[k]);
            &&& cookie == "license_theme="@ + "light"@ <==> theme_of(Some(header)) == "light"@
            &&& cookie == "license_theme="@ + "dark"@ <==> theme_of(Some(header)) == "dark"@
            &&& cookie != "license_theme="@ + "light"@ && cookie != "license_theme="@ + "dark"@
                ==> theme_of(Some(header)) == "system"@
        }),
{
    let name = "license_theme="@;
    let cookie = crate::text::trimmed(crate::text::pieces(header, ';')[k]);
    lemma_cookie_at(crate::text::pieces(header, ';'), name, k);
    let v = cookie.skip(name.len() as int);
    assert(cookie =~= name + v);
    assert((name + "light"@).skip(name.len() as int) =~= "light"@);
    assert((name + "dark"@).skip(name.len() as int) =~= "dark"@);
    reveal_strlit("light");
    reveal_strlit("dark");
    reveal_strlit("system");
    assert("light"@.len() == 5 && "dark"@.len() == 4 && "system"@.len() == 6);
}

/// Without a theme cookie the pages look as the visitor's system does.
pub proof fn lemma_no_theme_cookie(header: Option<Seq<char>>)
    requires
        header matches Some(h) ==> forall|j: int|
            0 <= j < crate::text::pieces(h, ';').len() ==> !"license_theme="@.is_prefix_of(
                crate::text::trimmed(#[trigger] crate::text::pieces(h, ';')[j]),
            ),
    ensures
        theme_of(header) == "system"@,
{
    if header is Some {
        lemma_no_cookie(crate::text::pieces(header->0, ';'), "license_theme="@);
    }
}

/// Whether some places below `n` are those where something holds, in order.
pub open spec fn places(at: Seq<int>, n: int, holds: spec_fn(int) -> bool) -> bool {
    &&& forall|k: int| 0 <= k < at.len() ==> 0 <= (#[trigger] at[k]) < n && holds(at[k])
    &&& forall|j: int, k: int| 0 <= j < k < at.len() ==> #[trigger] at[j] < #[trigger] at[k]
    &&& forall|i: int| 0 <= i < n && #[trigger] holds(i) ==> at.contains(i)
}

/// The places below the next number are those below this one, and this one if
/// it is such a place.
pub proof fn lemma_places_grow(at: Seq<int>, n: int, holds: spec_fn(int) -> bool)
    requires
        0 <= n,
        places(at, n, holds),
    ensures
        holds(n) ==> places(at.push(n), n + 1, holds),
        !holds(n) ==> places(at, n + 1, holds),
{
    if holds(n) {
        let more = at.push(n);
        assert forall|i: int| 0 <= i < n + 1 && #[trigger] holds(i) implies more.contains(i) by {
            if i < n {
                let k = at.index_of(i);
                assert(more[k] == i);
            } else {
                assert(more[at.len() as int] == i);
            }
        }
    }
}

proof fn lemma_page_links(pages: Seq<crate::catalog::Page>, present: Seq<bool>, n: nat) -> (at: Seq<int>)
    ensures
        places(at, n as int, |i: int| pages[i].footer && present[i]),
        at.len() == page_links(pages, present, n).len(),
        forall|k: int|
            0 <= k < at.len() ==> page_links(pages, present, n)[k].title == pages[#[trigger] at[k]].title@
                && page_links(pages, present, n)[k].href == "/p/"@ + pages[at[k]].slug@,
    decreases n,
{
    let holds = |i: int| pages[i].footer && present[i];
    if n == 0 {
        Seq::empty()
    } else {
        let before = lemma_page_links(pages, present, (n - 1) as nat);
        lemma_places_grow(before, n - 1, holds);
        if pages[n - 1].footer && present[n - 1] {
            assert(holds(n - 1));
            before.push(n - 1)
        } else {
            assert(!holds(n - 1));
            before
        }
    }
}

/// The footer has one link to each page that belongs there and has content, in
/// the order of the catalog and by the title and the slug of the page, then the
/// other links as they are, and nothing else.
pub proof fn lemma_footer_has_each_link_once(c: Catalog, present: Seq<bool>) -> (at: Seq<int>)
    ensures
        places(at, c.pages@.len() as int, |i: int| c.pages@[i].footer && present[i]),
        footer(c, present).len() == at.len() + c.footer_links@.len(),
        forall|k: int|
            0 <= k < at.len() ==> footer(c, present)[k].title == c.pages@[#[trigger] at[k]].title@
                && footer(c, present)[k].href == "/p/"@ + c.pages@[at[k]].slug@,
        forall|k: int|
            0 <= k < c.footer_links@.len() ==> footer(c, present)[at.len() + k].title == (
            #[trigger] c.footer_links@[k]).title@ && footer(c, present)[at.len() + k].href
                == c.footer_links@[k].url@,
{
    let at = lemma_page_links(c.pages@, present, c.pages@.len());
    let first = page_links(c.pages@, present, c.pages@.len());
    assert(extra_links(c.footer_links@).len() == c.footer_links@.len());
    assert forall|k: int| 0 <= k < at.len() implies footer(c, present)[k].title
        == c.pages@[#[trigger] at[k]].title@ && footer(c, present)[k].href == "/p/"@
        + c.pages@[at[k]].slug@ by {
        assert(footer(c, present)[k] == first[k]);
    }
    assert forall|k: int| 0 <= k < c.footer_links@.len() implies footer(c, present)[at.len()
        + k].title == (#[trigger] c.footer_links@[k]).title@ && footer(c, present)[at.len()
        + k].href == c.footer_links@[k].url@ by {
        assert(footer(c, present)[at.len() + k] == extra_links(c.footer_links@)[k]);
    }
    at
}

/// Every page has the theme, the notice, the links and the analytics script of
/// the shop.
pub proof fn lemma_chrome_is_the_shops(
    ch: Chrome,
    c: Catalog,
    cookies: Option<Seq<char>>,
    present: Seq<bool>,
)
    requires
        is_chrome(ch, c, cookies, present),
    ensures
        ch.theme@ == theme_of(cookies),
        link_views(ch.links@) == footer(c, present),
        ch.links@.len() == footer(c, present).len(),
        forall|k: int|
            0 <= k < ch.links@.len() ==> (#[trigger] ch.links@[k]).title@ == footer(
                c,
                present,
            )[k].title && ch.links@[k].href@ == footer(c, present)[k].href,
        ch.notice is None <==> (c.shop.payment_notice matches Some(s) && s@.len() == 0),
        c.shop.payment_notice is Some && c.shop.payment_notice->0@.len() > 0 ==> ch.notice is Some
            && ch.notice->0@ == c.shop.payment_notice->0@,
        ch.analytics is Some <==> c.analytics is Some,
        c.analytics matches Some(a) ==> ch.analytics->0.src == a.src && ch.analytics->0.entity
            == a.entity && ch.analytics->0.module == a.module,
{
    assert(link_views(ch.links@).len() == ch.links@.len());
    assert forall|k: int| 0 <= k < ch.links@.len() implies (#[trigger] ch.links@[k]).title@
        == footer(c, present)[k].title && ch.links@[k].href@ == footer(c, present)[k].href by {
        assert(link_views(ch.links@)[k] == ch.links@[k]@);
    }
}

/// Whether a page shows a plan: by its identifier, names, description, address
/// and price label.
pub open spec fn shows(v: SkuView, s: Sku) -> bool {
    &&& v.id@ == s.id@
    &&& v.display_name@ == s.display_name@
    &&& crate::text::opt_text(v.description) == crate::text::opt_text(s.description)
    &&& crate::text::opt_text(v.url) == crate::text::opt_text(s.url)
    &&& v.price_label@ == s.price_label@
}

/// A page shows every plan of a category once, in the order of the catalog, and
/// no plan of another.
pub proof fn lemma_plans_are_the_categorys(skus: Seq<Sku>, category: Seq<char>) -> (at: Seq<int>)
    ensures
        places(at, skus.len() as int, |i: int| skus[i].category@ == category),
        at.len() == plans_of(skus, category).len(),
        forall|k: int| 0 <= k < at.len() ==> shows(plans_of(skus, category)[k], skus[#[trigger] at[k]]),
    decreases skus.len(),
{
    let holds = |i: int| skus[i].category@ == category;
    if skus.len() == 0 {
        Seq::empty()
    } else {
        let rest = skus.drop_last();
        let n = skus.len() - 1;
        let before = lemma_plans_are_the_categorys(rest, category);
        let fewer = |i: int| rest[i].category@ == category;
        assert(places(before, n, holds)) by {
            assert forall|k: int| 0 <= k < before.len() implies 0 <= (#[trigger] before[k]) < n
                && holds(before[k]) by {
                assert(fewer(before[k]));
                assert(rest[before[k]] == skus[before[k]]);
            }
            assert forall|i: int| 0 <= i < n && #[trigger] holds(i) implies before.contains(i) by {
                assert(rest[i] == skus[i]);
                assert(fewer(i));
            }
        }
        lemma_places_grow(before, n, holds);
        assert forall|k: int| 0 <= k < before.len() implies shows(
            plans_of(rest, category)[k],
            skus[#[trigger] before[k]],
        ) by {
            assert(rest[before[k]] == skus[before[k]]);
        }
        if skus.last().category@ == category {
            assert(holds(n));
            before.push(n)
        } else {
            assert(!holds(n));
            before
        }
    }
}

/// Whether a category has a plan.
pub open spec fn has_plan(skus: Seq<Sku>, category: Seq<char>) -> bool {
    exists|i: int| 0 <= i < skus.len() && (#[trigger] skus[i]).category@ == category
}

proof fn lemma_is_shown(c: Category, skus: Seq<Sku>, only: Option<Seq<char>>)
    ensures
        is_shown(c, skus, only) <==> (only is None || only == Some(c.id@)) && has_plan(skus, c.id@),
{
    let category = c.id@;
    let at = lemma_plans_are_the_categorys(skus, category);
    let holds = |i: int| skus[i].category@ == category;
    if at.len() > 0 {
        assert(holds(at[0]));
        assert(skus[at[0]].category@ == c.id@);
    }
    if has_plan(skus, c.id@) {
        let i = choose|i: int| 0 <= i < skus.len() && (#[trigger] skus[i]).category@ == c.id@;
        assert(holds(i));
        assert(at.contains(i));
    }
}

proof fn lemma_shown_categories(
    categories: Seq<Category>,
    skus: Seq<Sku>,
    only: Option<Seq<char>>,
) -> (at: Seq<int>)
    ensures
        places(
            at,
            categories.len() as int,
            |i: int|
                (only is None || only == Some(categories[i].id@)) && has_plan(
                    skus,
                    categories[i].id@,
                ),
        ),
        at.len() == shown_categories(categories, skus, only).len(),
        forall|k: int|
            0 <= k < at.len() ==> shown_categories(categories, skus, only)[k]
                == categories[#[trigger] at[k]],
    decreases categories.len(),
{
    let holds = |i: int|
        (only is None || only == Some(categories[i].id@)) && has_plan(skus, categories[i].id@);
    if categories.len() == 0 {
        Seq::empty()
    } else {
        let rest = categories.drop_last();
        let n = categories.len() - 1;
        let before = lemma_shown_categories(rest, skus, only);
        let fewer = |i: int|
            (only is None || only == Some(rest[i].id@)) && has_plan(skus, rest[i].id@);
        assert(places(before, n, holds)) by {
            assert forall|k: int| 0 <= k < before.len() implies 0 <= (#[trigger] before[k]) < n
                && holds(before[k]) by {
                assert(fewer(before[k]));
                assert(rest[before[k]] == categories[before[k]]);
            }
            assert forall|i: int| 0 <= i < n && #[trigger] holds(i) implies before.contains(i) by {
                assert(rest[i] == categories[i]);
                assert(fewer(i));
            }
        }
        lemma_places_grow(before, n, holds);
        lemma_is_shown(categories.last(), skus, only);
        assert forall|k: int| 0 <= k < before.len() implies shown_categories(rest, skus, only)[k]
            == categories[#[trigger] before[k]] by {
            assert(rest[before[k]] == categories[before[k]]);
        }
        if is_shown(categories.last(), skus, only) {
            assert(holds(n));
            before.push(n)
        } else {
            assert(!holds(n));
            before
        }
    }
}

/// A page shows every category with a plan once, or the one that is asked for,
/// in the order of the catalog: by its identifier, name, description and
/// address, with its own plans.
pub proof fn lemma_groups_are_the_catalogs(
    groups: Seq<CategoryGroup>,
    cat: Catalog,
    only: Option<Seq<char>>,
) -> (at: Seq<int>)
    requires
        are_groups(groups, shown_categories(cat.categories@, cat.skus@, only), cat.skus@),
    ensures
        places(
            at,
            cat.categories@.len() as int,
            |i: int|
                (only is None || only == Some(cat.categories@[i].id@)) && has_plan(
                    cat.skus@,
                    cat.categories@[i].id@,
                ),
        ),
        groups.len() == at.len(),
        forall|k: int|
            0 <= k < at.len() ==> groups[k].id == cat.categories@[#[trigger] at[k]].id
                && groups[k].name == cat.categories@[at[k]].name && groups[k].description
                == cat.categories@[at[k]].description && groups[k].url
                == cat.categories@[at[k]].url && groups[k].skus@ == plans_of(
                cat.skus@,
                cat.categories@[at[k]].id@,
            ),
{
    let at = lemma_shown_categories(cat.categories@, cat.skus@, only);
    let found = shown_categories(cat.categories@, cat.skus@, only);
    assert forall|k: int| 0 <= k < at.len() implies groups[k].id
        == cat.categories@[#[trigger] at[k]].id && groups[k].name == cat.categories@[at[k]].name
        && groups[k].description == cat.categories@[at[k]].description && groups[k].url
        == cat.categories@[at[k]].url && groups[k].skus@ == plans_of(
        cat.skus@,
        cat.categories@[at[k]].id@,
    ) by {
        assert(is_group(groups[k], found[k], cat.skus@));
    }
    at
}

/// The pages are asked for by the files that hold them: a page counts as there
/// only if it belongs in the footer and its own file was found.
pub proof fn lemma_only_footer_pages_are_probed<F: Fn(&str) -> bool>(
    is_file: F,
    content_dir: Seq<char>,
    pages: Seq<crate::catalog::Page>,
    present: Seq<bool>,
    i: int,
)
    requires
        probed(is_file, content_dir, pages, present),
        0 <= i < pages.len(),
        present[i],
    ensures
        present.len() == pages.len(),
        pages[i].footer,
        pages[i].slug@.len() > 0,
        exists|path: &str| #[trigger]
            call_ensures(is_file, (path,), true) && path@ == crate::content::page_file(
                content_dir,
                pages[i].slug@,
            ),
{
    assert(pages[i].footer);
}

/// A session identifier is what Stripe's begin with, and then one to 252
/// letters, digits and underscores.
pub proof fn lemma_session_identifiers(rest: Seq<char>)
    ensures
        valid_session_id("cs_"@ + rest) <==> 1 <= rest.len() <= 252 && forall|i: int|
            0 <= i < rest.len() ==> 'a' <= (#[trigger] rest[i]) <= 'z' || 'A' <= rest[i] <= 'Z'
                || '0' <= rest[i] <= '9' || rest[i] == '_',
        valid_session_id(rest) ==> "cs_"@.is_prefix_of(rest),
{
    reveal_strlit("cs_");
    let s = "cs_"@ + rest;
    assert(s.subrange(0, 3) =~= "cs_"@);
    if valid_session_id(s) {
        assert forall|i: int| 0 <= i < rest.len() implies 'a' <= (#[trigger] rest[i]) <= 'z' || 'A'
            <= rest[i] <= 'Z' || '0' <= rest[i] <= '9' || rest[i] == '_' by {
            assert(is_session_char(s[i + 3]));
        }
    }
    if 1 <= rest.len() <= 252 && forall|i: int|
        0 <= i < rest.len() ==> 'a' <= (#[trigger] rest[i]) <= 'z' || 'A' <= rest[i] <= 'Z' || '0'
            <= rest[i] <= '9' || rest[i] == '_' {
        assert forall|i: int| 0 <= i < s.len() implies is_session_char(#[trigger] s[i]) by {
            if i >= 3 {
                assert(s[i] == rest[i - 3]);
            }
        }
    }
}

/// A license is downloaded under the name of its product.
pub proof fn lemma_download_is_named(product: Seq<char>)
    ensures
        ("attachment; filename=\""@ + product).is_prefix_of(disposition_of(product)),
        (product + "-license.txt\""@).is_suffix_of(disposition_of(product)),
{
    let all = disposition_of(product);
    let a = "attachment; filename=\""@ + product;
    let b = product + "-license.txt\""@;
    assert(all.subrange(0, a.len() as int) =~= a);
    assert(all.subrange(all.len() - b.len(), all.len() as int) =~= b);
}

/// The notice on payment data is the shop's own where it has one that is not
/// empty, none where that is empty, and the usual one otherwise.
pub proof fn lemma_notices(configured: Option<String>)
    ensures
        configured is None ==> notice_of(configured) == Some(DEFAULT_PAYMENT_NOTICE@),
        configured is Some && configured->0@.len() == 0 ==> notice_of(configured) is None,
        configured is Some && configured->0@.len() > 0 ==> notice_of(configured) == Some(
            configured->0@,
        ),
{
}

} // verus!
