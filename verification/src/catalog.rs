//! The catalog of a shop: what is for sale, and how the site looks.
//!
//! A site describes its catalog in a file. [`CatalogFile`] is that file as it
//! was written; [`parse`] turns it into a [`Catalog`], or says what is wrong
//! with it.

use crate::issue::{IssueParams, IssueParamsView};
use crate::text::{
    clone_texts, eq_ignore_ascii_case, insert_ascending, join, join2, join3, parse_i64, quoted, same, starts_with, trim,
    write_int,
};
use std::str::FromStr;
use stripe_types::Currency;
use vstd::prelude::*;
use vstd::string::*;

verus! {

/// How long a license is valid.
#[derive(Debug, Clone, Copy)]
pub enum Term {
    Lifetime,
    Days(i64),
}

/// A product line. Its identifier selects the signing key, and is the
/// `product` of its licenses.
#[derive(Debug)]
pub struct Category {
    pub id: String,
    pub name: String,
    pub description: Option<String>,
    pub url: Option<String>,
}

/// A plan that can be bought.
#[derive(Debug)]
pub struct Sku {
    pub id: String,
    pub stripe_price_id: String,
    pub category: String,
    pub display_name: String,
    pub description: Option<String>,
    pub url: Option<String>,
    pub price_label: String,
    pub amount_cents: i64,
    /// A lower-case ISO code.
    pub currency: String,
    pub tier: String,
    pub features: Vec<String>,
    pub max_orgs: Option<u32>,
    pub max_seats: Option<u32>,
    pub term: Term,
}

/// The shop as a whole.
#[derive(Debug)]
pub struct ShopConfig {
    pub title: String,
    /// The footer's notice on payment data. `None` for the usual one, an empty
    /// text for none at all.
    pub payment_notice: Option<String>,
}

impl Default for ShopConfig {
    fn default() -> (r: ShopConfig)
        ensures
            r.title@ == "License Shop"@,
            r.payment_notice is None,
    {
        ShopConfig { title: "License Shop".to_owned(), payment_notice: None }
    }
}

/// An extra link in the footer.
#[derive(Debug)]
pub struct FooterLink {
    pub title: String,
    pub url: String,
}

/// A content page.
#[derive(Debug)]
pub struct Page {
    pub slug: String,
    pub title: String,
    /// Whether the footer links to it.
    pub footer: bool,
}

/// An analytics script.
#[derive(Debug)]
pub struct Analytics {
    pub src: String,
    pub entity: Option<String>,
    pub module: bool,
}

/// What is for sale, and how the site looks.
#[derive(Debug)]
pub struct Catalog {
    pub shop: ShopConfig,
    pub categories: Vec<Category>,
    pub skus: Vec<Sku>,
    pub footer_links: Vec<FooterLink>,
    pub pages: Vec<Page>,
    pub analytics: Option<Analytics>,
}

/// A category as the catalog file has it.
#[derive(Debug)]
pub struct CategoryConfig {
    pub id: String,
    pub name: String,
    pub description: Option<String>,
    pub url: Option<String>,
}

/// A plan as the catalog file has it.
#[derive(Debug)]
pub struct SkuConfig {
    pub id: String,
    pub stripe_price_id: String,
    pub category: String,
    pub display_name: String,
    pub description: Option<String>,
    pub url: Option<String>,
    pub price_label: String,
    pub amount_cents: i64,
    pub currency: String,
    pub tier: String,
    pub features: Vec<String>,
    pub max_orgs: Option<u32>,
    pub max_seats: Option<u32>,
    pub term: String,
}

/// A footer link as the catalog file has it.
#[derive(Debug)]
pub struct FooterLinkConfig {
    pub title: String,
    pub url: String,
}

/// A page as the catalog file has it.
#[derive(Debug)]
pub struct PageConfig {
    pub slug: String,
    pub title: String,
    pub footer: bool,
}

/// The analytics script as the catalog file has it.
#[derive(Debug)]
pub struct AnalyticsConfig {
    pub src: String,
    pub entity: Option<String>,
    pub module: bool,
}

/// A catalog file.
#[derive(Debug)]
pub struct CatalogFile {
    pub shop: ShopConfig,
    pub category: Vec<CategoryConfig>,
    pub sku: Vec<SkuConfig>,
    pub footer_link: Vec<FooterLinkConfig>,
    pub page: Vec<PageConfig>,
    pub analytics: Option<AnalyticsConfig>,
}

/// What is wrong with a term.
#[derive(Debug, Clone, Copy)]
pub enum TermProblem {
    /// Neither `lifetime` nor a number of days.
    NotATerm,
    NotPositive(i64),
    TooLong(i64),
}

/// What is wrong with a catalog file.
#[derive(Debug)]
pub enum CatalogError {
    CategoryWithoutId,
    DuplicateCategory(String),
    CategoryWithoutName(String),
    CategoryNotSlug(String),
    CategoryReserved(String),
    SkuWithoutId,
    DuplicateSku(String),
    UndefinedCategory { sku: String, category: String },
    UnknownCurrency { sku: String, currency: String },
    PriceNotPositive { sku: String, amount_cents: i64 },
    BadTerm { sku: String, term: String, problem: TermProblem },
    PageNotSlug(String),
    DuplicatePage(String),
    PageWithoutTitle(String),
    FooterLinkIncomplete,
    AnalyticsNotHttps(String),
}

/// The longest term that a plan can have: a hundred years.
pub const MAX_TERM_DAYS: i64 = 36500;

/// The seconds of a day.
pub const DAY_SECONDS: i64 = 86400;

/// Whether `stripe_types` knows a currency code.
pub uninterp spec fn known_currency(code: Seq<char>) -> bool;

/// `stripe_types::Currency::from_str`, of which it is kept whether the code is
/// a known one. The call accepts every text.
#[verifier::external_body]
fn is_known_currency(code: &str) -> (r: bool)
    ensures
        r == known_currency(code@),
{
    match Currency::from_str(code) {
        Ok(Currency::Unknown(_)) => false,
        Ok(_) => true,
        Err(e) => match e {},
    }
}

/// A character of a slug: a lower-case letter, a digit or a hyphen.
pub open spec fn is_slug_char(c: char) -> bool {
    ||| 'a' <= c <= 'z'
    ||| '0' <= c <= '9'
    ||| c == '-'
}

/// Whether a text is made of characters of a slug.
pub open spec fn all_slug(s: Seq<char>) -> bool {
    forall|i: int| 0 <= i < s.len() ==> is_slug_char(#[trigger] s[i])
}

pub(crate) fn is_all_slug(s: &str) -> (r: bool)
    ensures
        r == all_slug(s@),
{
    for c in it: s.chars()
        invariant
            it.seq() == s@,
            forall|i: int| 0 <= i < it.index() ==> is_slug_char(#[trigger] s@[i]),
    {
        if !(('a' <= c && c <= 'z') || ('0' <= c && c <= '9') || c == '-') {
            assert(!is_slug_char(s@[it.index() as int]));
            return false;
        }
    }
    true
}

/// The first path segments that the shop's own pages take.
pub open spec fn is_reserved(id: Seq<char>) -> bool {
    ||| id == "checkout"@
    ||| id == "success"@
    ||| id == "webhook"@
    ||| id == "static"@
}

/// What a text says as a term.
pub open spec fn term_of(s: Seq<char>) -> Result<Term, TermProblem> {
    let t = crate::text::trimmed(s);
    if crate::text::same_but_ascii_case(t, "lifetime"@) {
        Ok(Term::Lifetime)
    } else {
        let number = if t.len() > 0 && t.last() == 'd' {
            t.drop_last()
        } else {
            t
        };
        match crate::text::written_i64(number) {
            None => Err(TermProblem::NotATerm),
            Some(days) => if days <= 0 {
                Err(TermProblem::NotPositive(days))
            } else if days > MAX_TERM_DAYS {
                Err(TermProblem::TooLong(days))
            } else {
                Ok(Term::Days(days))
            },
        }
    }
}

/// Reads a term: `lifetime`, or a number of days with or without a `d` behind
/// it.
pub fn parse_term(s: &str) -> (r: Result<Term, TermProblem>)
    ensures
        r == term_of(s@),
{
    let t = trim(s);
    if eq_ignore_ascii_case(t, "lifetime") {
        return Ok(Term::Lifetime);
    }
    let len = t.unicode_len();
    let number = if len > 0 && t.get_char(len - 1) == 'd' {
        t.substring_char(0, len - 1)
    } else {
        t
    };
    proof {
        if len > 0 && t@.last() == 'd' {
            assert(number@ =~= t@.drop_last());
        }
    }
    match parse_i64(number) {
        None => Err(TermProblem::NotATerm),
        Some(days) => if days <= 0 {
            Err(TermProblem::NotPositive(days))
        } else if days > MAX_TERM_DAYS {
            Err(TermProblem::TooLong(days))
        } else {
            Ok(Term::Days(days))
        },
    }
}

/// The first of some problems, where the `i`th thing has the problem
/// `problem(i)`.
pub open spec fn first_problem(
    n: nat,
    problem: spec_fn(int) -> Option<CatalogError>,
) -> Option<CatalogError>
    decreases n,
{
    if n == 0 {
        None
    } else {
        match first_problem((n - 1) as nat, problem) {
            Some(e) => Some(e),
            None => problem(n - 1),
        }
    }
}

proof fn lemma_first_problem_stays(
    m: nat,
    n: nat,
    problem: spec_fn(int) -> Option<CatalogError>,
)
    requires
        m <= n,
        first_problem(m, problem) is Some,
    ensures
        first_problem(n, problem) == first_problem(m, problem),
    decreases n - m,
{
    if m < n {
        lemma_first_problem_stays(m, (n - 1) as nat, problem);
    }
}

proof fn lemma_no_problem(n: nat, problem: spec_fn(int) -> Option<CatalogError>)
    requires
        first_problem(n, problem) is None,
    ensures
        forall|i: int| 0 <= i < n ==> #[trigger] problem(i) is None,
    decreases n,
{
    if n > 0 {
        lemma_no_problem((n - 1) as nat, problem);
    }
}

/// Whether one of the first `n` categories has an identifier.
pub open spec fn category_id_among(cats: Seq<CategoryConfig>, n: int, id: Seq<char>) -> bool {
    exists|j: int| 0 <= j < n && (#[trigger] cats[j]).id@ == id
}

/// What is wrong with a category, seen after those before it.
pub open spec fn category_problem(cats: Seq<CategoryConfig>, i: int) -> Option<CatalogError> {
    let c = cats[i];
    if c.id@.len() == 0 {
        Some(CatalogError::CategoryWithoutId)
    } else if category_id_among(cats, i, c.id@) {
        Some(CatalogError::DuplicateCategory(c.id))
    } else if c.name@.len() == 0 {
        Some(CatalogError::CategoryWithoutName(c.id))
    } else if !all_slug(c.id@) {
        Some(CatalogError::CategoryNotSlug(c.id))
    } else if is_reserved(c.id@) {
        Some(CatalogError::CategoryReserved(c.id))
    } else {
        None
    }
}

/// What is wrong with each of some categories.
pub open spec fn category_problems(cats: Seq<CategoryConfig>) -> spec_fn(int) -> Option<
    CatalogError,
> {
    |i: int| category_problem(cats, i)
}

/// A category of the file, as one of the catalog.
pub open spec fn category_of(c: CategoryConfig) -> Category {
    Category { id: c.id, name: c.name, description: c.description, url: c.url }
}

fn check_categories(cats: Vec<CategoryConfig>) -> (r: Result<Vec<Category>, CatalogError>)
    ensures
        match r {
            Ok(out) => first_problem(cats@.len(), category_problems(cats@)) is None && out@
                == cats@.map_values(|c: CategoryConfig| category_of(c)),
            Err(e) => first_problem(cats@.len(), category_problems(cats@)) == Some(e),
        },
{
    let ghost all = cats@;
    let ghost problems = category_problems(all);
    let mut out: Vec<Category> = Vec::new();
    for c in it: cats.into_iter()
        invariant
            it.seq() == all,
            all == cats@,
            problems == category_problems(all),
            first_problem(it.index() as nat, problems) is None,
            out@ == all.take(it.index() as int).map_values(|c: CategoryConfig| category_of(c)),
    {
        let ghost i = it.index() as int;
        assert(c == all[i]);
        proof {
            if problems(i) is Some {
                lemma_first_problem_stays((i + 1) as nat, all.len(), problems);
            }
        }
        if c.id.as_str().is_empty() {
            return Err(CatalogError::CategoryWithoutId);
        }
        if has_category(&out, &c.id) {
            assert(category_id_among(all, i, c.id@)) by {
                let j = choose|j: int| 0 <= j < out@.len() && (#[trigger] out@[j]).id@ == c.id@;
                assert(all[j].id@ == c.id@);
            }
            return Err(CatalogError::DuplicateCategory(c.id));
        }
        assert(!category_id_among(all, i, c.id@)) by {
            assert forall|j: int| 0 <= j < i implies (#[trigger] all[j]).id@ != c.id@ by {
                assert(out@[j].id@ == all[j].id@);
            }
        }
        if c.name.as_str().is_empty() {
            return Err(CatalogError::CategoryWithoutName(c.id));
        }
        if !is_all_slug(&c.id) {
            return Err(CatalogError::CategoryNotSlug(c.id));
        }
        if same(&c.id, "checkout") || same(&c.id, "success") || same(&c.id, "webhook") || same(
            &c.id,
            "static",
        ) {
            return Err(CatalogError::CategoryReserved(c.id));
        }
        out.push(Category { id: c.id, name: c.name, description: c.description, url: c.url });
        assert(all.take(i + 1).map_values(|c: CategoryConfig| category_of(c)) =~= all.take(
            i,
        ).map_values(|c: CategoryConfig| category_of(c)).push(category_of(all[i])));
    }
    assert(all.take(all.len() as int) =~= all);
    Ok(out)
}

fn has_category(categories: &Vec<Category>, id: &str) -> (r: bool)
    ensures
        r == exists|j: int| 0 <= j < categories@.len() && (#[trigger] categories@[j]).id@ == id@,
{
    for i in 0..categories.len()
        invariant
            forall|j: int| 0 <= j < i ==> (#[trigger] categories@[j]).id@ != id@,
    {
        if same(&categories[i].id, id) {
            return true;
        }
    }
    false
}

/// Whether one of the first `n` plans has an identifier.
pub open spec fn sku_id_among(skus: Seq<SkuConfig>, n: int, id: Seq<char>) -> bool {
    exists|j: int| 0 <= j < n && (#[trigger] skus[j]).id@ == id
}

/// What is wrong with a plan, seen after those before it.
pub open spec fn sku_problem(
    cats: Seq<CategoryConfig>,
    skus: Seq<SkuConfig>,
    i: int,
) -> Option<CatalogError> {
    let s = skus[i];
    if s.id@.len() == 0 {
        Some(CatalogError::SkuWithoutId)
    } else if sku_id_among(skus, i, s.id@) {
        Some(CatalogError::DuplicateSku(s.id))
    } else if !category_id_among(cats, cats.len() as int, s.category@) {
        Some(CatalogError::UndefinedCategory { sku: s.id, category: s.category })
    } else if !known_currency(s.currency@) {
        Some(CatalogError::UnknownCurrency { sku: s.id, currency: s.currency })
    } else if s.amount_cents <= 0 {
        Some(CatalogError::PriceNotPositive { sku: s.id, amount_cents: s.amount_cents })
    } else {
        match term_of(s.term@) {
            Err(problem) => Some(CatalogError::BadTerm { sku: s.id, term: s.term, problem }),
            Ok(_) => None,
        }
    }
}

/// What is wrong with each of some plans.
pub open spec fn sku_problems(
    cats: Seq<CategoryConfig>,
    skus: Seq<SkuConfig>,
) -> spec_fn(int) -> Option<CatalogError> {
    |i: int| sku_problem(cats, skus, i)
}

/// A plan of the file, as one of the catalog.
pub open spec fn sku_of(s: SkuConfig) -> Sku {
    Sku {
        id: s.id,
        stripe_price_id: s.stripe_price_id,
        category: s.category,
        display_name: s.display_name,
        description: s.description,
        url: s.url,
        price_label: s.price_label,
        amount_cents: s.amount_cents,
        currency: s.currency,
        tier: s.tier,
        features: s.features,
        max_orgs: s.max_orgs,
        max_seats: s.max_seats,
        term: term_of(s.term@)->Ok_0,
    }
}

fn check_skus(
    Ghost(cats): Ghost<Seq<CategoryConfig>>,
    categories: &Vec<Category>,
    skus: Vec<SkuConfig>,
) -> (r: Result<Vec<Sku>, CatalogError>)
    requires
        categories@ == cats.map_values(|c: CategoryConfig| category_of(c)),
    ensures
        match r {
            Ok(out) => first_problem(skus@.len(), sku_problems(cats, skus@)) is None && out@
                == skus@.map_values(|s: SkuConfig| sku_of(s)),
            Err(e) => first_problem(skus@.len(), sku_problems(cats, skus@)) == Some(e),
        },
{
    let ghost all = skus@;
    let ghost problems = sku_problems(cats, all);
    let mut out: Vec<Sku> = Vec::new();
    for s in it: skus.into_iter()
        invariant
            it.seq() == all,
            all == skus@,
            problems == sku_problems(cats, all),
            categories@ == cats.map_values(|c: CategoryConfig| category_of(c)),
            first_problem(it.index() as nat, problems) is None,
            out@ == all.take(it.index() as int).map_values(|s: SkuConfig| sku_of(s)),
    {
        let ghost i = it.index() as int;
        assert(s == all[i]);
        proof {
            if problems(i) is Some {
                lemma_first_problem_stays((i + 1) as nat, all.len(), problems);
            }
        }
        if s.id.as_str().is_empty() {
            return Err(CatalogError::SkuWithoutId);
        }
        if has_sku(&out, &s.id) {
            assert(sku_id_among(all, i, s.id@)) by {
                let j = choose|j: int| 0 <= j < out@.len() && (#[trigger] out@[j]).id@ == s.id@;
                assert(all[j].id@ == s.id@);
            }
            return Err(CatalogError::DuplicateSku(s.id));
        }
        assert(!sku_id_among(all, i, s.id@)) by {
            assert forall|j: int| 0 <= j < i implies (#[trigger] all[j]).id@ != s.id@ by {
                assert(out@[j].id@ == all[j].id@);
            }
        }
        if !has_category(categories, &s.category) {
            assert(!category_id_among(cats, cats.len() as int, s.category@)) by {
                assert forall|j: int| 0 <= j < cats.len() implies (#[trigger] cats[j]).id@
                    != s.category@ by {
                    assert(categories@[j].id@ == cats[j].id@);
                }
            }
            return Err(CatalogError::UndefinedCategory { sku: s.id, category: s.category });
        }
        assert(category_id_among(cats, cats.len() as int, s.category@)) by {
            let j = choose|j: int|
                0 <= j < categories@.len() && (#[trigger] categories@[j]).id@ == s.category@;
            assert(cats[j].id@ == s.category@);
        }
        if !is_known_currency(&s.currency) {
            return Err(CatalogError::UnknownCurrency { sku: s.id, currency: s.currency });
        }
        if s.amount_cents <= 0 {
            return Err(
                CatalogError::PriceNotPositive { sku: s.id, amount_cents: s.amount_cents },
            );
        }
        let term = match parse_term(&s.term) {
            Ok(t) => t,
            Err(problem) => return Err(
                CatalogError::BadTerm { sku: s.id, term: s.term, problem },
            ),
        };
        out.push(
            Sku {
                id: s.id,
                stripe_price_id: s.stripe_price_id,
                category: s.category,
                display_name: s.display_name,
                description: s.description,
                url: s.url,
                price_label: s.price_label,
                amount_cents: s.amount_cents,
                currency: s.currency,
                tier: s.tier,
                features: s.features,
                max_orgs: s.max_orgs,
                max_seats: s.max_seats,
                term,
            },
        );
        assert(all.take(i + 1).map_values(|s: SkuConfig| sku_of(s)) =~= all.take(i).map_values(
            |s: SkuConfig| sku_of(s),
        ).push(sku_of(all[i])));
    }
    assert(all.take(all.len() as int) =~= all);
    Ok(out)
}

fn has_sku(skus: &Vec<Sku>, id: &str) -> (r: bool)
    ensures
        r == exists|j: int| 0 <= j < skus@.len() && (#[trigger] skus@[j]).id@ == id@,
{
    for i in 0..skus.len()
        invariant
            forall|j: int| 0 <= j < i ==> (#[trigger] skus@[j]).id@ != id@,
    {
        if same(&skus[i].id, id) {
            return true;
        }
    }
    false
}

/// Whether one of the first `n` pages has a slug.
pub open spec fn slug_among(pages: Seq<PageConfig>, n: int, slug: Seq<char>) -> bool {
    exists|j: int| 0 <= j < n && (#[trigger] pages[j]).slug@ == slug
}

/// What is wrong with a page, seen after those before it.
pub open spec fn page_problem(pages: Seq<PageConfig>, i: int) -> Option<CatalogError> {
    let p = pages[i];
    if !all_slug(p.slug@) || p.slug@.len() == 0 {
        Some(CatalogError::PageNotSlug(p.slug))
    } else if slug_among(pages, i, p.slug@) {
        Some(CatalogError::DuplicatePage(p.slug))
    } else if p.title@.len() == 0 {
        Some(CatalogError::PageWithoutTitle(p.slug))
    } else {
        None
    }
}

/// What is wrong with each of some pages.
pub open spec fn page_problems(pages: Seq<PageConfig>) -> spec_fn(int) -> Option<CatalogError> {
    |i: int| page_problem(pages, i)
}

/// A page of the file, as one of the catalog.
pub open spec fn page_of(p: PageConfig) -> Page {
    Page { slug: p.slug, title: p.title, footer: p.footer }
}

fn check_pages(pages: Vec<PageConfig>) -> (r: Result<Vec<Page>, CatalogError>)
    ensures
        match r {
            Ok(out) => first_problem(pages@.len(), page_problems(pages@)) is None && out@
                == pages@.map_values(|p: PageConfig| page_of(p)),
            Err(e) => first_problem(pages@.len(), page_problems(pages@)) == Some(e),
        },
{
    let ghost all = pages@;
    let ghost problems = page_problems(all);
    let mut out: Vec<Page> = Vec::new();
    for p in it: pages.into_iter()
        invariant
            it.seq() == all,
            all == pages@,
            problems == page_problems(all),
            first_problem(it.index() as nat, problems) is None,
            out@ == all.take(it.index() as int).map_values(|p: PageConfig| page_of(p)),
    {
        let ghost i = it.index() as int;
        assert(p == all[i]);
        proof {
            if problems(i) is Some {
                lemma_first_problem_stays((i + 1) as nat, all.len(), problems);
            }
        }
        if !is_all_slug(&p.slug) || p.slug.as_str().is_empty() {
            return Err(CatalogError::PageNotSlug(p.slug));
        }
        if has_page(&out, &p.slug) {
            assert(slug_among(all, i, p.slug@)) by {
                let j = choose|j: int| 0 <= j < out@.len() && (#[trigger] out@[j]).slug@ == p.slug@;
                assert(all[j].slug@ == p.slug@);
            }
            return Err(CatalogError::DuplicatePage(p.slug));
        }
        assert(!slug_among(all, i, p.slug@)) by {
            assert forall|j: int| 0 <= j < i implies (#[trigger] all[j]).slug@ != p.slug@ by {
                assert(out@[j].slug@ == all[j].slug@);
            }
        }
        if p.title.as_str().is_empty() {
            return Err(CatalogError::PageWithoutTitle(p.slug));
        }
        out.push(Page { slug: p.slug, title: p.title, footer: p.footer });
        assert(all.take(i + 1).map_values(|p: PageConfig| page_of(p)) =~= all.take(i).map_values(
            |p: PageConfig| page_of(p),
        ).push(page_of(all[i])));
    }
    assert(all.take(all.len() as int) =~= all);
    Ok(out)
}

fn has_page(pages: &Vec<Page>, slug: &str) -> (r: bool)
    ensures
        r == exists|j: int| 0 <= j < pages@.len() && (#[trigger] pages@[j]).slug@ == slug@,
{
    for i in 0..pages.len()
        invariant
            forall|j: int| 0 <= j < i ==> (#[trigger] pages@[j]).slug@ != slug@,
    {
        if same(&pages[i].slug, slug) {
            return true;
        }
    }
    false
}

/// What is wrong with a footer link.
pub open spec fn footer_link_problem(link: FooterLinkConfig) -> Option<CatalogError> {
    if link.title@.len() == 0 || link.url@.len() == 0 {
        Some(CatalogError::FooterLinkIncomplete)
    } else {
        None
    }
}

/// What is wrong with each of some footer links.
pub open spec fn footer_link_problems(links: Seq<FooterLinkConfig>) -> spec_fn(int) -> Option<
    CatalogError,
> {
    |i: int| footer_link_problem(links[i])
}

/// A footer link of the file, as one of the catalog.
pub open spec fn footer_link_of(l: FooterLinkConfig) -> FooterLink {
    FooterLink { title: l.title, url: l.url }
}

fn check_footer_links(links: Vec<FooterLinkConfig>) -> (r: Result<Vec<FooterLink>, CatalogError>)
    ensures
        match r {
            Ok(out) => first_problem(links@.len(), footer_link_problems(links@)) is None && out@
                == links@.map_values(|l: FooterLinkConfig| footer_link_of(l)),
            Err(e) => first_problem(links@.len(), footer_link_problems(links@)) == Some(e),
        },
{
    let ghost all = links@;
    let ghost problems = footer_link_problems(all);
    let mut out: Vec<FooterLink> = Vec::new();
    for l in it: links.into_iter()
        invariant
            it.seq() == all,
            all == links@,
            problems == footer_link_problems(all),
            first_problem(it.index() as nat, problems) is None,
            out@ == all.take(it.index() as int).map_values(|l: FooterLinkConfig| footer_link_of(l)),
    {
        let ghost i = it.index() as int;
        assert(l == all[i]);
        proof {
            if problems(i) is Some {
                lemma_first_problem_stays((i + 1) as nat, all.len(), problems);
            }
        }
        if l.title.as_str().is_empty() || l.url.as_str().is_empty() {
            return Err(CatalogError::FooterLinkIncomplete);
        }
        out.push(FooterLink { title: l.title, url: l.url });
        assert(all.take(i + 1).map_values(|l: FooterLinkConfig| footer_link_of(l)) =~= all.take(
            i,
        ).map_values(|l: FooterLinkConfig| footer_link_of(l)).push(footer_link_of(all[i])));
    }
    assert(all.take(all.len() as int) =~= all);
    Ok(out)
}

/// What is wrong with an analytics script: it must come from an https address,
/// so that one https origin can be let into the page.
pub open spec fn analytics_problem(a: Option<AnalyticsConfig>) -> Option<CatalogError> {
    match a {
        Some(x) => if "https://"@.is_prefix_of(x.src@) {
            None
        } else {
            Some(CatalogError::AnalyticsNotHttps(x.src))
        },
        None => None,
    }
}

/// The analytics script of the file, as that of the catalog.
pub open spec fn analytics_of(a: Option<AnalyticsConfig>) -> Option<Analytics> {
    match a {
        Some(x) => Some(Analytics { src: x.src, entity: x.entity, module: x.module }),
        None => None,
    }
}

/// What is wrong with a catalog file: the first thing in the order of the
/// categories, the plans, the pages, the footer links and the analytics script.
pub open spec fn catalog_problem(f: CatalogFile) -> Option<CatalogError> {
    let in_categories = first_problem(f.category@.len(), category_problems(f.category@));
    let in_skus = first_problem(f.sku@.len(), sku_problems(f.category@, f.sku@));
    let in_pages = first_problem(f.page@.len(), page_problems(f.page@));
    let in_links = first_problem(f.footer_link@.len(), footer_link_problems(f.footer_link@));
    if in_categories is Some {
        in_categories
    } else if in_skus is Some {
        in_skus
    } else if in_pages is Some {
        in_pages
    } else if in_links is Some {
        in_links
    } else {
        analytics_problem(f.analytics)
    }
}

/// Whether a catalog holds what a file says.
pub open spec fn is_catalog_of(c: Catalog, f: CatalogFile) -> bool {
    &&& c.shop == f.shop
    &&& c.categories@ == f.category@.map_values(|x: CategoryConfig| category_of(x))
    &&& c.skus@ == f.sku@.map_values(|x: SkuConfig| sku_of(x))
    &&& c.footer_links@ == f.footer_link@.map_values(|x: FooterLinkConfig| footer_link_of(x))
    &&& c.pages@ == f.page@.map_values(|x: PageConfig| page_of(x))
    &&& c.analytics == analytics_of(f.analytics)
}

/// What holds of every catalog that was accepted.
pub open spec fn valid_catalog(c: Catalog) -> bool {
    &&& forall|i: int|
        0 <= i < c.categories@.len() ==> {
            let x = #[trigger] c.categories@[i];
            &&& x.id@.len() > 0
            &&& all_slug(x.id@)
            &&& !is_reserved(x.id@)
            &&& x.name@.len() > 0
        }
    &&& forall|i: int, j: int|
        0 <= i < j < c.categories@.len() ==> (#[trigger] c.categories@[i]).id@ != (
        #[trigger] c.categories@[j]).id@
    &&& forall|i: int|
        0 <= i < c.skus@.len() ==> {
            let s = #[trigger] c.skus@[i];
            &&& s.id@.len() > 0
            &&& has_category_id(c, s.category@)
            &&& known_currency(s.currency@)
            &&& s.amount_cents > 0
            &&& (s.term matches Term::Days(d) ==> 0 < d <= MAX_TERM_DAYS)
        }
    &&& forall|i: int, j: int|
        0 <= i < j < c.skus@.len() ==> (#[trigger] c.skus@[i]).id@ != (#[trigger] c.skus@[j]).id@
    &&& forall|i: int|
        0 <= i < c.pages@.len() ==> {
            let p = #[trigger] c.pages@[i];
            p.slug@.len() > 0 && all_slug(p.slug@) && p.title@.len() > 0
        }
    &&& forall|i: int, j: int|
        0 <= i < j < c.pages@.len() ==> (#[trigger] c.pages@[i]).slug@ != (
        #[trigger] c.pages@[j]).slug@
    &&& forall|i: int|
        0 <= i < c.footer_links@.len() ==> {
            let l = #[trigger] c.footer_links@[i];
            l.title@.len() > 0 && l.url@.len() > 0
        }
    &&& (c.analytics matches Some(a) ==> "https://"@.is_prefix_of(a.src@))
}

/// Whether a catalog has a category with an identifier.
pub open spec fn has_category_id(c: Catalog, id: Seq<char>) -> bool {
    exists|j: int| 0 <= j < c.categories@.len() && (#[trigger] c.categories@[j]).id@ == id
}

/// What is accepted is valid: every identifier is a free slug that occurs once,
/// every plan belongs to a category and has a price above zero in a known
/// currency, and no term is longer than a hundred years.
pub proof fn lemma_accepted_is_valid(f: CatalogFile, c: Catalog)
    requires
        catalog_problem(f) is None,
        is_catalog_of(c, f),
    ensures
        valid_catalog(c),
{
    let cats = f.category@;
    let skus = f.sku@;
    let pages = f.page@;
    lemma_no_problem(cats.len(), category_problems(cats));
    lemma_no_problem(skus.len(), sku_problems(cats, skus));
    lemma_no_problem(pages.len(), page_problems(pages));
    lemma_no_problem(f.footer_link@.len(), footer_link_problems(f.footer_link@));
    assert forall|i: int| 0 <= i < cats.len() implies #[trigger] category_problem(cats, i)
        is None by {
        assert(category_problems(cats)(i) is None);
    }
    assert forall|i: int| 0 <= i < skus.len() implies #[trigger] sku_problem(cats, skus, i)
        is None by {
        assert(sku_problems(cats, skus)(i) is None);
    }
    assert forall|i: int| 0 <= i < pages.len() implies #[trigger] page_problem(pages, i)
        is None by {
        assert(page_problems(pages)(i) is None);
    }
    assert forall|i: int| 0 <= i < c.categories@.len() implies {
        let x = #[trigger] c.categories@[i];
        x.id@.len() > 0 && all_slug(x.id@) && !is_reserved(x.id@) && x.name@.len() > 0
    } by {
        assert(category_problem(cats, i) is None);
    }
    assert forall|i: int, j: int| 0 <= i < j < c.categories@.len() implies (
    #[trigger] c.categories@[i]).id@ != (#[trigger] c.categories@[j]).id@ by {
        assert(category_problem(cats, j) is None);
        assert(cats[i].id@ == c.categories@[i].id@);
    }
    assert forall|i: int| 0 <= i < c.skus@.len() implies {
        let s = #[trigger] c.skus@[i];
        &&& s.id@.len() > 0
        &&& has_category_id(c, s.category@)
        &&& known_currency(s.currency@)
        &&& s.amount_cents > 0
        &&& (s.term matches Term::Days(d) ==> 0 < d <= MAX_TERM_DAYS)
    } by {
        assert(sku_problem(cats, skus, i) is None);
        let id = skus[i].category@;
        let j = choose|j: int| 0 <= j < cats.len() && (#[trigger] cats[j]).id@ == id;
        assert(c.categories@[j].id@ == id);
    }
    assert forall|i: int, j: int| 0 <= i < j < c.skus@.len() implies (#[trigger] c.skus@[i]).id@
        != (#[trigger] c.skus@[j]).id@ by {
        assert(sku_problem(cats, skus, j) is None);
        assert(skus[i].id@ == c.skus@[i].id@);
    }
    assert forall|i: int| 0 <= i < c.pages@.len() implies {
        let p = #[trigger] c.pages@[i];
        p.slug@.len() > 0 && all_slug(p.slug@) && p.title@.len() > 0
    } by {
        assert(page_problem(pages, i) is None);
    }
    assert forall|i: int, j: int| 0 <= i < j < c.pages@.len() implies (
    #[trigger] c.pages@[i]).slug@ != (#[trigger] c.pages@[j]).slug@ by {
        assert(page_problem(pages, j) is None);
        assert(pages[i].slug@ == c.pages@[i].slug@);
    }
    assert forall|i: int| 0 <= i < c.footer_links@.len() implies {
        let l = #[trigger] c.footer_links@[i];
        l.title@.len() > 0 && l.url@.len() > 0
    } by {
        assert(footer_link_problems(f.footer_link@)(i) is None);
    }
}

/// Turns a catalog file into a catalog.
pub fn parse(file: CatalogFile) -> (r: Result<Catalog, CatalogError>)
    ensures
        match r {
            Ok(c) => catalog_problem(file) is None && is_catalog_of(c, file) && valid_catalog(c),
            Err(e) => catalog_problem(file) == Some(e),
        },
{
    let ghost cats = file.category@;
    let categories = match check_categories(file.category) {
        Ok(x) => x,
        Err(e) => return Err(e),
    };
    let skus = match check_skus(Ghost(cats), &categories, file.sku) {
        Ok(x) => x,
        Err(e) => return Err(e),
    };
    let pages = match check_pages(file.page) {
        Ok(x) => x,
        Err(e) => return Err(e),
    };
    let footer_links = match check_footer_links(file.footer_link) {
        Ok(x) => x,
        Err(e) => return Err(e),
    };
    let analytics = match file.analytics {
        Some(a) => {
            if !starts_with(&a.src, "https://") {
                return Err(CatalogError::AnalyticsNotHttps(a.src));
            }
            Some(Analytics { src: a.src, entity: a.entity, module: a.module })
        },
        None => None,
    };
    let catalog = Catalog { shop: file.shop, categories, skus, footer_links, pages, analytics };
    proof {
        lemma_accepted_is_valid(file, catalog);
    }
    Ok(catalog)
}

/// When a license for a term ends, if it is minted at a time.
pub open spec fn expiry_after(term: Term, now: int) -> Option<int> {
    match term {
        Term::Lifetime => None,
        Term::Days(d) => Some(now + d * DAY_SECONDS),
    }
}

/// Whether the end of a term can be told in seconds.
pub open spec fn expiry_fits(term: Term, now: int) -> bool {
    match term {
        Term::Lifetime => true,
        Term::Days(d) => i64::MIN <= d * DAY_SECONDS <= i64::MAX && i64::MIN <= now + d
            * DAY_SECONDS <= i64::MAX,
    }
}

/// Whether a license for each plan of a catalog can be dated at a time.
pub open spec fn terms_fit(c: Catalog, now: int) -> bool {
    forall|i: int| 0 <= i < c.skus@.len() ==> expiry_fits((#[trigger] c.skus@[i]).term, now)
}

/// A license for a plan of an accepted catalog can be dated at every time up
/// to a hundred years before the last second that there is.
pub proof fn lemma_accepted_terms_fit(c: Catalog, now: i64)
    requires
        valid_catalog(c),
        now <= i64::MAX - MAX_TERM_DAYS * DAY_SECONDS,
    ensures
        terms_fit(c, now as int),
{
    assert forall|i: int| 0 <= i < c.skus@.len() implies expiry_fits(
        (#[trigger] c.skus@[i]).term,
        now as int,
    ) by {
        let s = c.skus@[i];
        assert(s.term matches Term::Days(d) ==> 0 < d <= MAX_TERM_DAYS);
    }
}

impl Sku {
    /// Whether a license for the plan can be dated, if it is minted at a time.
    pub fn can_date(&self, now: i64) -> (r: bool)
        ensures
            r == expiry_fits(self.term, now as int),
    {
        match self.term {
            Term::Lifetime => true,
            Term::Days(d) => {
                let span: i128 = d as i128 * 86400;
                let end: i128 = now as i128 + span;
                i64::MIN as i128 <= span && span <= i64::MAX as i128 && i64::MIN as i128 <= end
                    && end <= i64::MAX as i128
            },
        }
    }

    /// What a license for the plan says, if it is minted at a time.
    pub fn to_issue_params(
        &self,
        customer: String,
        email: String,
        now_unix: i64,
        note: String,
    ) -> (p: IssueParams)
        requires
            expiry_fits(self.term, now_unix as int),
        ensures
            p@ == (IssueParamsView {
                product: self.category@,
                customer: customer@,
                email: email@,
                tier: self.tier@,
                expires_at: match self.term {
                    Term::Lifetime => None,
                    Term::Days(d) => Some((now_unix + d * DAY_SECONDS) as i64),
                },
                features: crate::text::texts(self.features@),
                max_orgs: self.max_orgs,
                max_seats: self.max_seats,
                note: note@,
            }),
            (p.expires_at matches Some(t) ==> expiry_after(self.term, now_unix as int) == Some(
                t as int,
            )),
            p.expires_at is None <==> self.term is Lifetime,
            self.term matches Term::Days(d) ==> p.expires_at is Some && p.expires_at->0 == now_unix
                + d * 86400,
            p.product@ == self.category@,
            p.customer@ == customer@,
            p.email@ == email@,
            p.tier@ == self.tier@,
            crate::text::texts(p.features@) == crate::text::texts(self.features@),
            p.max_orgs == self.max_orgs,
            p.max_seats == self.max_seats,
            p.note@ == note@,
    {
        let expires_at = match self.term {
            Term::Lifetime => None,
            Term::Days(d) => Some(now_unix + d * DAY_SECONDS),
        };
        IssueParams {
            product: self.category.clone(),
            customer,
            email,
            tier: self.tier.clone(),
            expires_at,
            features: clone_texts(&self.features),
            max_orgs: self.max_orgs,
            max_seats: self.max_seats,
            note,
        }
    }
}

/// The first plan with an identifier.
pub open spec fn sku_with(skus: Seq<Sku>, id: Seq<char>) -> Option<Sku>
    decreases skus.len(),
{
    if skus.len() == 0 {
        None
    } else if skus[0].id@ == id {
        Some(skus[0])
    } else {
        sku_with(skus.drop_first(), id)
    }
}

/// The first page with a slug.
pub open spec fn page_with(pages: Seq<Page>, slug: Seq<char>) -> Option<Page>
    decreases pages.len(),
{
    if pages.len() == 0 {
        None
    } else if pages[0].slug@ == slug {
        Some(pages[0])
    } else {
        page_with(pages.drop_first(), slug)
    }
}

/// The identifiers of the plans that have no price at Stripe yet, in order.
pub open spec fn unpriced(skus: Seq<Sku>) -> Seq<Seq<char>>
    decreases skus.len(),
{
    if skus.len() == 0 {
        Seq::empty()
    } else {
        let before = unpriced(skus.drop_last());
        if skus.last().stripe_price_id@.len() == 0 {
            before.push(skus.last().id@)
        } else {
            before
        }
    }
}

/// Every plan that is found has the identifier that was looked for, and
/// belongs to the catalog; in a valid catalog it is the only one.
pub proof fn lemma_found_sku_is_the_one(c: Catalog, id: Seq<char>)
    requires
        valid_catalog(c),
    ensures
        match sku_with(c.skus@, id) {
            Some(s) => {
                &&& s.id@ == id
                &&& c.skus@.contains(s)
                &&& forall|i: int| 0 <= i < c.skus@.len() && c.skus@[i].id@ == id ==> c.skus@[i] == s
            },
            None => forall|i: int| 0 <= i < c.skus@.len() ==> c.skus@[i].id@ != id,
        },
{
    lemma_sku_with(c.skus@, id);
    if sku_with(c.skus@, id) is Some {
        let k = choose|k: int|
            0 <= k < c.skus@.len() && c.skus@[k] == sku_with(c.skus@, id)->0 && c.skus@[k].id@
                == id;
        assert forall|i: int| 0 <= i < c.skus@.len() && c.skus@[i].id@ == id implies c.skus@[i]
            == c.skus@[k] by {
            if i < k {
                assert(c.skus@[i].id@ != c.skus@[k].id@);
            } else if k < i {
                assert(c.skus@[k].id@ != c.skus@[i].id@);
            }
        }
    }
}

proof fn lemma_sku_with(skus: Seq<Sku>, id: Seq<char>)
    ensures
        match sku_with(skus, id) {
            Some(s) => exists|k: int|
                0 <= k < skus.len() && #[trigger] skus[k] == s && skus[k].id@ == id,
            None => forall|i: int| 0 <= i < skus.len() ==> (#[trigger] skus[i]).id@ != id,
        },
    decreases skus.len(),
{
    if skus.len() > 0 {
        if skus[0].id@ != id {
            lemma_sku_with(skus.drop_first(), id);
            if sku_with(skus.drop_first(), id) is Some {
                let s = sku_with(skus.drop_first(), id)->0;
                let k = choose|k: int|
                    0 <= k < skus.drop_first().len() && #[trigger] skus.drop_first()[k] == s
                        && skus.drop_first()[k].id@ == id;
                assert(skus[k + 1] == s);
            } else {
                assert forall|i: int| 0 <= i < skus.len() implies (#[trigger] skus[i]).id@
                    != id by {
                    if i > 0 {
                        assert(skus.drop_first()[i - 1] == skus[i]);
                    }
                }
            }
        }
    }
}

/// A plan that is found is one of the catalog's.
pub proof fn lemma_sku_with_is_listed(skus: Seq<Sku>, id: Seq<char>)
    ensures
        sku_with(skus, id) matches Some(s) ==> s.id@ == id && exists|k: int|
            0 <= k < skus.len() && #[trigger] skus[k] == s,
{
    lemma_sku_with(skus, id);
}

/// A plan is found exactly if the catalog has one with the identifier, and the
/// first of those is found.
pub proof fn lemma_sku_with_finds(skus: Seq<Sku>, id: Seq<char>)
    ensures
        sku_with(skus, id) is Some <==> exists|k: int|
            0 <= k < skus.len() && (#[trigger] skus[k]).id@ == id,
        sku_with(skus, id) matches Some(s) ==> exists|k: int|
            0 <= k < skus.len() && #[trigger] skus[k] == s && s.id@ == id && forall|j: int|
                0 <= j < k ==> (#[trigger] skus[j]).id@ != id,
    decreases skus.len(),
{
    if skus.len() > 0 {
        if skus[0].id@ != id {
            let rest = skus.drop_first();
            lemma_sku_with_finds(rest, id);
            assert(forall|k: int| 0 <= k < rest.len() ==> #[trigger] rest[k] == skus[k + 1]);
            if sku_with(rest, id) is Some {
                let s = sku_with(rest, id)->0;
                let k = choose|k: int|
                    0 <= k < rest.len() && #[trigger] rest[k] == s && s.id@ == id && forall|j: int|
                        0 <= j < k ==> (#[trigger] rest[j]).id@ != id;
                assert(skus[k + 1] == s);
                assert forall|j: int| 0 <= j < k + 1 implies (#[trigger] skus[j]).id@ != id by {
                    if j > 0 {
                        assert(rest[j - 1] == skus[j]);
                    }
                }
            } else {
                assert forall|k: int| 0 <= k < skus.len() implies (#[trigger] skus[k]).id@ != id by {
                    if k > 0 {
                        assert(rest[k - 1] == skus[k]);
                    }
                }
            }
        } else {
            assert(skus[0].id@ == id);
        }
    }
}

/// The plans that cannot be sold yet.
#[derive(Debug)]
pub struct Unprovisioned {
    /// Their identifiers.
    pub skus: Vec<String>,
}

impl Unprovisioned {
    /// The error in words.
    pub fn to_string(&self) -> (r: String)
        ensures
            r@ == "SKU(s) missing stripe_price_id: "@ + crate::text::joined(
                crate::text::texts(self.skus@),
                ", "@,
            ) + " (run `signet-shop provision-stripe`)"@,
    {
        let list = join(&self.skus, ", ");
        join3("SKU(s) missing stripe_price_id: ", &list, " (run `signet-shop provision-stripe`)")
    }
}

impl Catalog {
    /// The plan with an identifier.
    pub fn by_id(&self, id: &str) -> (r: Option<&Sku>)
        ensures
            match r {
                Some(s) => sku_with(self.skus@, id@) == Some(*s),
                None => sku_with(self.skus@, id@) is None,
            },
            r is Some <==> exists|k: int|
                0 <= k < self.skus@.len() && (#[trigger] self.skus@[k]).id@ == id@,
            r matches Some(s) ==> s.id@ == id@ && self.skus@.contains(*s),
    {
        proof {
            lemma_sku_with_finds(self.skus@, id@);
        }
        let ghost all = self.skus@;
        assert(all.skip(0) =~= all);
        for i in 0..self.skus.len()
            invariant
                all == self.skus@,
                sku_with(all.skip(i as int), id@) == sku_with(all, id@),
        {
            let ghost rest = all.skip(i as int);
            assert(rest[0] == all[i as int]);
            assert(rest.drop_first() =~= all.skip(i + 1));
            if same(&self.skus[i].id, id) {
                return Some(&self.skus[i]);
            }
        }
        None
    }

    /// The page with a slug.
    pub fn page(&self, slug: &str) -> (r: Option<&Page>)
        ensures
            match r {
                Some(p) => page_with(self.pages@, slug@) == Some(*p),
                None => page_with(self.pages@, slug@) is None,
            },
            r is Some <==> exists|k: int|
                0 <= k < self.pages@.len() && (#[trigger] self.pages@[k]).slug@ == slug@,
            r matches Some(p) ==> p.slug@ == slug@ && self.pages@.contains(*p),
    {
        proof {
            lemma_page_with_finds(self.pages@, slug@);
        }
        let ghost all = self.pages@;
        assert(all.skip(0) =~= all);
        for i in 0..self.pages.len()
            invariant
                all == self.pages@,
                page_with(all.skip(i as int), slug@) == page_with(all, slug@),
        {
            let ghost rest = all.skip(i as int);
            assert(rest[0] == all[i as int]);
            assert(rest.drop_first() =~= all.skip(i + 1));
            if same(&self.pages[i].slug, slug) {
                return Some(&self.pages[i]);
            }
        }
        None
    }

    /// The identifiers of the categories, in ascending order. Each needs a
    /// signing key.
    pub fn category_ids(&self) -> (r: Vec<String>)
        ensures
            crate::text::ascending(crate::text::texts(r@)),
            forall|id: Seq<char>| #[trigger]
                crate::text::texts(r@).contains(id) <==> has_category_id(*self, id),
    {
        let mut r: Vec<String> = Vec::new();
        for i in 0..self.categories.len()
            invariant
                crate::text::ascending(crate::text::texts(r@)),
                forall|id: Seq<char>| #[trigger]
                    crate::text::texts(r@).contains(id) <==> (exists|j: int|
                        0 <= j < i && (#[trigger] self.categories@[j]).id@ == id),
        {
            let ghost before = crate::text::texts(r@);
            insert_ascending(&mut r, &self.categories[i].id);
            assert forall|id: Seq<char>| #[trigger]
                crate::text::texts(r@).contains(id) <==> (exists|j: int|
                    0 <= j < i + 1 && (#[trigger] self.categories@[j]).id@ == id) by {
                assert(before.contains(id) <==> (exists|j: int|
                    0 <= j < i && (#[trigger] self.categories@[j]).id@ == id));
                assert(self.categories@[i as int].id@ == id ==> crate::text::texts(r@).contains(id));
            }
        }
        r
    }

    /// Makes sure that every plan has a price at Stripe. A catalog whose plans
    /// have none yet can be read, but not sold from.
    pub fn ensure_provisioned(&self) -> (r: Result<(), Unprovisioned>)
        ensures
            match r {
                Ok(()) => unpriced(self.skus@).len() == 0,
                Err(e) => unpriced(self.skus@).len() > 0 && crate::text::texts(e.skus@) == unpriced(
                    self.skus@,
                ),
            },
            r is Ok <==> forall|i: int|
                0 <= i < self.skus@.len() ==> (#[trigger] self.skus@[i]).stripe_price_id@.len() > 0,
    {
        proof {
            lemma_unpriced_plans_are_named(self.skus@);
        }
        let ghost all = self.skus@;
        let mut missing: Vec<String> = Vec::new();
        for i in 0..self.skus.len()
            invariant
                all == self.skus@,
                crate::text::texts(missing@) == unpriced(all.take(i as int)),
        {
            assert(all.take(i + 1).drop_last() =~= all.take(i as int));
            let ghost before = missing@;
            if self.skus[i].stripe_price_id.as_str().is_empty() {
                missing.push(self.skus[i].id.clone());
                assert(crate::text::texts(missing@) =~= crate::text::texts(before).push(
                    all[i as int].id@,
                ));
            }
        }
        assert(all.take(all.len() as int) =~= all);
        if missing.len() == 0 {
            Ok(())
        } else {
            Err(Unprovisioned { skus: missing })
        }
    }
}

/// Where the catalog file is, given the value of `CATALOG_PATH`.
pub fn default_path(configured: Option<String>) -> (r: String)
    ensures
        r@ == match configured {
            Some(p) => p@,
            None => "./catalog.toml"@,
        },
{
    match configured {
        Some(p) => p,
        None => "./catalog.toml".to_owned(),
    }
}

/// The words for a problem with a term.
pub open spec fn term_problem_words(term: Seq<char>, problem: TermProblem) -> Seq<char> {
    match problem {
        TermProblem::NotATerm => "term must be \"lifetime\" or \"<days>d\", got "@
            + crate::text::quoted_text(crate::text::trimmed(term)),
        TermProblem::NotPositive(days) => "term days must be positive, got "@
            + crate::text::decimal_int(days as int),
        TermProblem::TooLong(days) => "term days must be at most 36500, got "@
            + crate::text::decimal_int(days as int),
    }
}

/// The words for what is wrong with a catalog file.
pub open spec fn catalog_error_words(e: CatalogError) -> Seq<char> {
    match e {
        CatalogError::CategoryWithoutId => "a [[category]] has an empty id"@,
        CatalogError::DuplicateCategory(id) => "duplicate category id "@
            + crate::text::quoted_text(id@),
        CatalogError::CategoryWithoutName(id) => "category "@ + crate::text::quoted_text(id@)
            + " has an empty name"@,
        CatalogError::CategoryNotSlug(id) => "category id "@ + crate::text::quoted_text(id@)
            + " must be a slug (lowercase letters, digits, hyphens)"@,
        CatalogError::CategoryReserved(id) => "category id "@ + crate::text::quoted_text(id@)
            + " is reserved (collides with a route)"@,
        CatalogError::SkuWithoutId => "a [[sku]] has an empty id"@,
        CatalogError::DuplicateSku(id) => "duplicate sku id "@ + crate::text::quoted_text(id@),
        CatalogError::UndefinedCategory { sku, category } => "sku "@ + crate::text::quoted_text(
            sku@,
        ) + ": category "@ + (crate::text::quoted_text(category@)
            + " is not defined by any [[category]]"@),
        CatalogError::UnknownCurrency { sku, currency } => "sku "@ + crate::text::quoted_text(sku@)
            + ": unknown currency "@ + (crate::text::quoted_text(currency@)
            + " (use a lowercase ISO code like \"eur\")"@),
        CatalogError::PriceNotPositive { sku, amount_cents } => "sku "@ + crate::text::quoted_text(
            sku@,
        ) + ": amount_cents must be positive, got "@ + crate::text::decimal_int(
            amount_cents as int,
        ),
        CatalogError::BadTerm { sku, term, problem } => "sku "@ + crate::text::quoted_text(sku@)
            + " term: "@ + term_problem_words(term@, problem),
        CatalogError::PageNotSlug(slug) => "page slug "@ + crate::text::quoted_text(slug@)
            + " must be a slug (lowercase letters, digits, hyphens)"@,
        CatalogError::DuplicatePage(slug) => "duplicate page slug "@ + crate::text::quoted_text(
            slug@,
        ),
        CatalogError::PageWithoutTitle(slug) => "page "@ + crate::text::quoted_text(slug@)
            + " has an empty title"@,
        CatalogError::FooterLinkIncomplete => "a [[footer_link]] needs a non-empty title and url"@,
        CatalogError::AnalyticsNotHttps(src) => "[analytics] src must be an https URL, got "@
            + crate::text::quoted_text(src@),
    }
}

fn term_words(term: &str, problem: TermProblem) -> (r: String)
    ensures
        r@ == term_problem_words(term@, problem),
{
    match problem {
        TermProblem::NotATerm => {
            let q = quoted(trim(term));
            join2("term must be \"lifetime\" or \"<days>d\", got ", &q)
        },
        TermProblem::NotPositive(days) => {
            let n = write_int(days);
            join2("term days must be positive, got ", &n)
        },
        TermProblem::TooLong(days) => {
            let n = write_int(days);
            join2("term days must be at most 36500, got ", &n)
        },
    }
}

fn about(before: &str, name: &str, after: &str) -> (r: String)
    ensures
        r@ == before@ + crate::text::quoted_text(name@) + after@,
{
    let q = quoted(name);
    join3(before, &q, after)
}

fn ending_in(before: &str, name: &str) -> (r: String)
    ensures
        r@ == before@ + crate::text::quoted_text(name@),
{
    let q = quoted(name);
    join2(before, &q)
}

impl CatalogError {
    /// The error in words.
    pub fn to_string(&self) -> (r: String)
        ensures
            r@ == catalog_error_words(*self),
    {
        match self {
            CatalogError::CategoryWithoutId => "a [[category]] has an empty id".to_owned(),
            CatalogError::DuplicateCategory(id) => ending_in("duplicate category id ", id),
            CatalogError::CategoryWithoutName(id) => about("category ", id, " has an empty name"),
            CatalogError::CategoryNotSlug(id) => about(
                "category id ",
                id,
                " must be a slug (lowercase letters, digits, hyphens)",
            ),
            CatalogError::CategoryReserved(id) => about(
                "category id ",
                id,
                " is reserved (collides with a route)",
            ),
            CatalogError::SkuWithoutId => "a [[sku]] has an empty id".to_owned(),
            CatalogError::DuplicateSku(id) => ending_in("duplicate sku id ", id),
            CatalogError::UndefinedCategory { sku, category } => {
                let head = about("sku ", sku, ": category ");
                let tail = about("", category, " is not defined by any [[category]]");
                proof {
                    reveal_strlit("");
                    assert(""@ + crate::text::quoted_text(category@) =~= crate::text::quoted_text(
                        category@,
                    ));
                }
                join2(&head, &tail)
            },
            CatalogError::UnknownCurrency { sku, currency } => {
                let head = about("sku ", sku, ": unknown currency ");
                let tail = about("", currency, " (use a lowercase ISO code like \"eur\")");
                proof {
                    reveal_strlit("");
                    assert(""@ + crate::text::quoted_text(currency@) =~= crate::text::quoted_text(
                        currency@,
                    ));
                }
                join2(&head, &tail)
            },
            CatalogError::PriceNotPositive { sku, amount_cents } => {
                let head = about("sku ", sku, ": amount_cents must be positive, got ");
                let n = write_int(*amount_cents);
                join2(&head, &n)
            },
            CatalogError::BadTerm { sku, term, problem } => {
                let head = about("sku ", sku, " term: ");
                let tail = term_words(term, *problem);
                join2(&head, &tail)
            },
            CatalogError::PageNotSlug(slug) => about(
                "page slug ",
                slug,
                " must be a slug (lowercase letters, digits, hyphens)",
            ),
            CatalogError::DuplicatePage(slug) => ending_in("duplicate page slug ", slug),
            CatalogError::PageWithoutTitle(slug) => about("page ", slug, " has an empty title"),
            CatalogError::FooterLinkIncomplete =>
                "a [[footer_link]] needs a non-empty title and url".to_owned(),
            CatalogError::AnalyticsNotHttps(src) => ending_in(
                "[analytics] src must be an https URL, got ",
                src,
            ),
        }
    }
}

/// A page is found exactly if the catalog has one with the slug, and the first
/// of those is found.
pub proof fn lemma_page_with_finds(pages: Seq<Page>, slug: Seq<char>)
    ensures
        page_with(pages, slug) is Some <==> exists|k: int|
            0 <= k < pages.len() && (#[trigger] pages[k]).slug@ == slug,
        page_with(pages, slug) matches Some(p) ==> exists|k: int|
            0 <= k < pages.len() && #[trigger] pages[k] == p && p.slug@ == slug && forall|j: int|
                0 <= j < k ==> (#[trigger] pages[j]).slug@ != slug,
    decreases pages.len(),
{
    if pages.len() > 0 {
        if pages[0].slug@ != slug {
            let rest = pages.drop_first();
            lemma_page_with_finds(rest, slug);
            assert(forall|k: int| 0 <= k < rest.len() ==> #[trigger] rest[k] == pages[k + 1]);
            if page_with(rest, slug) is Some {
                let p = page_with(rest, slug)->0;
                let k = choose|k: int|
                    0 <= k < rest.len() && #[trigger] rest[k] == p && p.slug@ == slug && forall|
                        j: int,
                    | 0 <= j < k ==> (#[trigger] rest[j]).slug@ != slug;
                assert(pages[k + 1] == p);
                assert forall|j: int| 0 <= j < k + 1 implies (#[trigger] pages[j]).slug@ != slug by {
                    if j > 0 {
                        assert(rest[j - 1] == pages[j]);
                    }
                }
            } else {
                assert forall|k: int| 0 <= k < pages.len() implies (#[trigger] pages[k]).slug@
                    != slug by {
                    if k > 0 {
                        assert(rest[k - 1] == pages[k]);
                    }
                }
            }
        } else {
            assert(pages[0].slug@ == slug);
        }
    }
}

/// Each plan without a price at Stripe is named once, in the order of the
/// catalog, and no other.
pub proof fn lemma_unpriced_plans_are_named(skus: Seq<Sku>) -> (at: Seq<int>)
    ensures
        crate::routes::places(
            at,
            skus.len() as int,
            |i: int| skus[i].stripe_price_id@.len() == 0,
        ),
        at.len() == unpriced(skus).len(),
        forall|k: int| 0 <= k < at.len() ==> unpriced(skus)[k] == skus[#[trigger] at[k]].id@,
        unpriced(skus).len() == 0 <==> forall|i: int|
            0 <= i < skus.len() ==> (#[trigger] skus[i]).stripe_price_id@.len() > 0,
    decreases skus.len(),
{
    let holds = |i: int| skus[i].stripe_price_id@.len() == 0;
    if skus.len() == 0 {
        Seq::empty()
    } else {
        let rest = skus.drop_last();
        let n = skus.len() - 1;
        let before = lemma_unpriced_plans_are_named(rest);
        let fewer = |i: int| rest[i].stripe_price_id@.len() == 0;
        assert(crate::routes::places(before, n, holds)) by {
            assert forall|k: int| 0 <= k < before.len() implies 0 <= (#[trigger] before[k]) < n
                && holds(before[k]) by {
                assert(fewer(before[k]));
                assert(rest[before[k]] == skus[before[k]]);
            }
            assert forall|i: int| 0 <= i < n && #[trigger] holds(i) implies before.contains(i) by {
                assert(rest[i] == skus[i]);
                assert(fewer(i));
            }
        }
        crate::routes::lemma_places_grow(before, n, holds);
        assert forall|k: int| 0 <= k < before.len() implies unpriced(rest)[k]
            == skus[#[trigger] before[k]].id@ by {
            assert(rest[before[k]] == skus[before[k]]);
        }
        let at = if skus.last().stripe_price_id@.len() == 0 {
            assert(holds(n));
            before.push(n)
        } else {
            assert(!holds(n));
            before
        };
        assert(crate::routes::places(at, n + 1, holds));
        if at.len() == 0 {
            assert forall|i: int| 0 <= i < skus.len() implies (
            #[trigger] skus[i]).stripe_price_id@.len() > 0 by {
                if holds(i) {
                    assert(at.contains(i));
                }
            }
        } else {
            assert(holds(at[0]));
            assert(skus[at[0]].stripe_price_id@.len() == 0);
        }
        at
    }
}

/// A slug is made of small letters, digits and hyphens.
pub proof fn lemma_slug_chars(s: Seq<char>)
    ensures
        all_slug(s) <==> forall|i: int|
            0 <= i < s.len() ==> 'a' <= (#[trigger] s[i]) <= 'z' || '0' <= s[i] <= '9' || s[i]
                == '-',
{
    if forall|i: int|
        0 <= i < s.len() ==> 'a' <= (#[trigger] s[i]) <= 'z' || '0' <= s[i] <= '9' || s[i] == '-' {
        assert forall|i: int| 0 <= i < s.len() implies is_slug_char(#[trigger] s[i]) by {}
    }
}

/// A number of days up to a hundred years is a term, written with or without a
/// `d` behind it; any other number is refused by its value.
pub proof fn lemma_days_are_a_term(n: i64)
    ensures
        ({
            let expected = if n <= 0 {
                Err(TermProblem::NotPositive(n))
            } else if n > 36500 {
                Err(TermProblem::TooLong(n))
            } else {
                Ok(Term::Days(n))
            };
            &&& term_of(crate::text::decimal_int(n as int)) == expected
            &&& term_of(crate::text::decimal_int(n as int) + "d"@) == expected
        }),
{
    let s = crate::text::decimal_int(n as int);
    crate::text::lemma_int_reads_back(n as int);
    reveal_strlit("-");
    reveal_strlit("d");
    reveal_strlit("lifetime");
    if n < 0 {
        crate::text::lemma_decimal_reads_back((-(n as int)) as nat);
        let digits = crate::text::decimal((-(n as int)) as nat);
        assert(s == "-"@ + digits);
        assert(s[0] == '-');
        assert(s.last() == digits.last());
        assert(crate::text::is_digit(digits[digits.len() - 1]));
    } else {
        crate::text::lemma_decimal_reads_back(n as nat);
        assert(crate::text::is_digit(s[0]));
        assert(crate::text::is_digit(s[s.len() - 1]));
    }
    let t = s + "d"@;
    assert(t[0] == s[0]);
    assert(t.last() == 'd');
    assert(t.drop_last() =~= s);
    crate::text::lemma_trimmed_unchanged(s);
    crate::text::lemma_trimmed_unchanged(t);
    assert(crate::text::ascii_lower(s[0]) != crate::text::ascii_lower("lifetime"@[0]));
    assert(crate::text::ascii_lower(t[0]) != crate::text::ascii_lower("lifetime"@[0]));
    assert(!crate::text::same_but_ascii_case(s, "lifetime"@));
    assert(!crate::text::same_but_ascii_case(t, "lifetime"@));
}

/// The word lifetime is a term in any case of its letters, and what is no
/// number is no other term.
pub proof fn lemma_lifetime_is_a_term(s: Seq<char>)
    ensures
        term_of(s) == Ok::<Term, TermProblem>(Term::Lifetime)
            <==> crate::text::same_but_ascii_case(crate::text::trimmed(s), "lifetime"@),
        term_of(s) matches Ok(Term::Days(d)) ==> {
            &&& 1 <= d <= 36500
            &&& {
                ||| crate::text::written_int(crate::text::trimmed(s)) == Some(d as int)
                ||| crate::text::trimmed(s).last() == 'd' && crate::text::written_int(
                    crate::text::trimmed(s).drop_last(),
                ) == Some(d as int)
            }
        },
{
}

/// White space around a term makes no difference.
pub proof fn lemma_padded_term(before: Seq<char>, s: Seq<char>, after: Seq<char>)
    requires
        forall|i: int| 0 <= i < before.len() ==> crate::text::is_white_space(before[i]),
        forall|i: int| 0 <= i < after.len() ==> crate::text::is_white_space(after[i]),
    ensures
        term_of(before + s + after) == term_of(s),
{
    crate::text::lemma_trimmed_padded(before, s, after);
}

/// A license that is sold for some days ends that many days of 86400 seconds
/// later, and one that is sold for life does not end.
pub proof fn lemma_expiry_is_days_later(term: Term, now: int)
    ensures
        expiry_after(term, now) is None <==> term is Lifetime,
        term matches Term::Days(d) ==> expiry_after(term, now) == Some(now + d * 86400),
        expiry_fits(term, now) <==> (term matches Term::Days(d) ==> i64::MIN <= d * 86400
            <= i64::MAX && i64::MIN <= now + d * 86400 <= i64::MAX),
{
}

proof fn lemma_all_fine(n: nat, problem: spec_fn(int) -> Option<CatalogError>)
    ensures
        first_problem(n, problem) is None <==> forall|i: int|
            0 <= i < n ==> #[trigger] problem(i) is None,
    decreases n,
{
    if n > 0 {
        lemma_all_fine((n - 1) as nat, problem);
        if first_problem(n, problem) is None {
            lemma_no_problem(n, problem);
        } else if first_problem((n - 1) as nat, problem) is None {
            assert(problem(n - 1) is Some);
        }
    }
}

/// The fault that is told is that of the first thing with a fault.
pub proof fn lemma_first_fault_is_told(
    n: nat,
    problem: spec_fn(int) -> Option<CatalogError>,
    i: int,
)
    requires
        0 <= i < n,
        problem(i) is Some,
        forall|j: int| 0 <= j < i ==> #[trigger] problem(j) is None,
    ensures
        first_problem(n, problem) == problem(i),
{
    lemma_all_fine(i as nat, problem);
    assert(first_problem((i + 1) as nat, problem) == problem(i));
    lemma_first_problem_stays((i + 1) as nat, n, problem);
}

/// Whether a text is a slug that no page of the shop's own takes.
pub open spec fn free_slug(s: Seq<char>) -> bool {
    &&& s.len() > 0
    &&& forall|i: int|
        0 <= i < s.len() ==> 'a' <= (#[trigger] s[i]) <= 'z' || '0' <= s[i] <= '9' || s[i] == '-'
    &&& s != "checkout"@ && s != "success"@ && s != "webhook"@ && s != "static"@
}

/// Categories are accepted exactly if each has a free slug of its own and a
/// name.
pub proof fn lemma_accepted_categories(cats: Seq<CategoryConfig>)
    ensures
        first_problem(cats.len(), category_problems(cats)) is None <==> {
            &&& forall|i: int|
                0 <= i < cats.len() ==> free_slug((#[trigger] cats[i]).id@) && cats[i].name@.len()
                    > 0
            &&& forall|i: int, j: int|
                0 <= i < j < cats.len() ==> (#[trigger] cats[i]).id@ != (#[trigger] cats[j]).id@
        },
{
    let p = category_problems(cats);
    lemma_all_fine(cats.len(), p);
    if forall|i: int| 0 <= i < cats.len() ==> #[trigger] p(i) is None {
        assert forall|i: int| 0 <= i < cats.len() implies free_slug((#[trigger] cats[i]).id@)
            && cats[i].name@.len() > 0 by {
            assert(p(i) is None);
            lemma_slug_chars(cats[i].id@);
        }
        assert forall|i: int, j: int| 0 <= i < j < cats.len() implies (#[trigger] cats[i]).id@ != (
        #[trigger] cats[j]).id@ by {
            assert(p(j) is None);
        }
    }
    if (forall|i: int|
        0 <= i < cats.len() ==> free_slug((#[trigger] cats[i]).id@) && cats[i].name@.len() > 0) && (
    forall|i: int, j: int|
        0 <= i < j < cats.len() ==> (#[trigger] cats[i]).id@ != (#[trigger] cats[j]).id@) {
        assert forall|i: int| 0 <= i < cats.len() implies #[trigger] p(i) is None by {
            lemma_slug_chars(cats[i].id@);
            assert(free_slug(cats[i].id@));
        }
    }
}

/// Plans are accepted exactly if each has an identifier of its own, a category
/// of the file, a known currency, a price above zero and a term.
pub proof fn lemma_accepted_plans(cats: Seq<CategoryConfig>, skus: Seq<SkuConfig>)
    ensures
        first_problem(skus.len(), sku_problems(cats, skus)) is None <==> {
            &&& forall|i: int|
                0 <= i < skus.len() ==> (#[trigger] skus[i]).id@.len() > 0 && (exists|j: int|
                    0 <= j < cats.len() && (#[trigger] cats[j]).id@ == skus[i].category@)
                    && known_currency(skus[i].currency@) && skus[i].amount_cents >= 1 && term_of(
                    skus[i].term@,
                ) is Ok
            &&& forall|i: int, j: int|
                0 <= i < j < skus.len() ==> (#[trigger] skus[i]).id@ != (#[trigger] skus[j]).id@
        },
{
    let p = sku_problems(cats, skus);
    lemma_all_fine(skus.len(), p);
    if forall|i: int| 0 <= i < skus.len() ==> #[trigger] p(i) is None {
        assert forall|i: int| 0 <= i < skus.len() implies (#[trigger] skus[i]).id@.len() > 0 && (
        exists|j: int| 0 <= j < cats.len() && (#[trigger] cats[j]).id@ == skus[i].category@)
            && known_currency(skus[i].currency@) && skus[i].amount_cents >= 1 && term_of(
            skus[i].term@,
        ) is Ok by {
            assert(p(i) is None);
        }
        assert forall|i: int, j: int| 0 <= i < j < skus.len() implies (#[trigger] skus[i]).id@ != (
        #[trigger] skus[j]).id@ by {
            assert(p(j) is None);
        }
    }
    if (forall|i: int|
        0 <= i < skus.len() ==> (#[trigger] skus[i]).id@.len() > 0 && (exists|j: int|
            0 <= j < cats.len() && (#[trigger] cats[j]).id@ == skus[i].category@) && known_currency(
            skus[i].currency@,
        ) && skus[i].amount_cents >= 1 && term_of(skus[i].term@) is Ok) && (forall|i: int, j: int|
        0 <= i < j < skus.len() ==> (#[trigger] skus[i]).id@ != (#[trigger] skus[j]).id@) {
        assert forall|i: int| 0 <= i < skus.len() implies #[trigger] p(i) is None by {
            assert(skus[i].id@.len() > 0);
        }
    }
}

/// Pages are accepted exactly if each has a slug of its own and a title, and
/// footer links exactly if each has a title and an address.
pub proof fn lemma_accepted_pages_and_links(pages: Seq<PageConfig>, links: Seq<FooterLinkConfig>)
    ensures
        first_problem(pages.len(), page_problems(pages)) is None <==> {
            &&& forall|i: int|
                0 <= i < pages.len() ==> (#[trigger] pages[i]).slug@.len() > 0 && all_slug(
                    pages[i].slug@,
                ) && pages[i].title@.len() > 0
            &&& forall|i: int, j: int|
                0 <= i < j < pages.len() ==> (#[trigger] pages[i]).slug@ != (
                #[trigger] pages[j]).slug@
        },
        first_problem(links.len(), footer_link_problems(links)) is None <==> forall|i: int|
            0 <= i < links.len() ==> (#[trigger] links[i]).title@.len() > 0 && links[i].url@.len()
                > 0,
{
    let p = page_problems(pages);
    lemma_all_fine(pages.len(), p);
    if forall|i: int| 0 <= i < pages.len() ==> #[trigger] p(i) is None {
        assert forall|i: int| 0 <= i < pages.len() implies (#[trigger] pages[i]).slug@.len() > 0
            && all_slug(pages[i].slug@) && pages[i].title@.len() > 0 by {
            assert(p(i) is None);
        }
        assert forall|i: int, j: int| 0 <= i < j < pages.len() implies (
        #[trigger] pages[i]).slug@ != (#[trigger] pages[j]).slug@ by {
            assert(p(j) is None);
        }
    }
    if (forall|i: int|
        0 <= i < pages.len() ==> (#[trigger] pages[i]).slug@.len() > 0 && all_slug(pages[i].slug@)
            && pages[i].title@.len() > 0) && (forall|i: int, j: int|
        0 <= i < j < pages.len() ==> (#[trigger] pages[i]).slug@ != (#[trigger] pages[j]).slug@) {
        assert forall|i: int| 0 <= i < pages.len() implies #[trigger] p(i) is None by {
            assert(pages[i].slug@.len() > 0);
        }
    }
    let q = footer_link_problems(links);
    lemma_all_fine(links.len(), q);
    if forall|i: int| 0 <= i < links.len() ==> #[trigger] q(i) is None {
        assert forall|i: int| 0 <= i < links.len() implies (#[trigger] links[i]).title@.len() > 0
            && links[i].url@.len() > 0 by {
            assert(q(i) is None);
        }
    }
    if forall|i: int|
        0 <= i < links.len() ==> (#[trigger] links[i]).title@.len() > 0 && links[i].url@.len() > 0 {
        assert forall|i: int| 0 <= i < links.len() implies #[trigger] q(i) is None by {
            assert(links[i].title@.len() > 0);
        }
    }
}

/// A file is accepted exactly if its categories, plans, pages and footer links
/// are, and its analytics script, if it has one, comes from an https address.
pub proof fn lemma_accepted_file(f: CatalogFile)
    ensures
        catalog_problem(f) is None <==> {
            &&& first_problem(f.category@.len(), category_problems(f.category@)) is None
            &&& first_problem(f.sku@.len(), sku_problems(f.category@, f.sku@)) is None
            &&& first_problem(f.page@.len(), page_problems(f.page@)) is None
            &&& first_problem(f.footer_link@.len(), footer_link_problems(f.footer_link@)) is None
            &&& f.analytics is Some ==> "https://"@.is_prefix_of(f.analytics->0.src@)
        },
        catalog_problem(f) matches Some(CatalogError::AnalyticsNotHttps(src)) ==> f.analytics
            is Some && src == f.analytics->0.src || first_problem(
            f.category@.len(),
            category_problems(f.category@),
        ) is Some || first_problem(f.sku@.len(), sku_problems(f.category@, f.sku@)) is Some
            || first_problem(f.page@.len(), page_problems(f.page@)) is Some || first_problem(
            f.footer_link@.len(),
            footer_link_problems(f.footer_link@),
        ) is Some,
{
}

/// What is wrong with a category is told of that category, and is so.
pub proof fn lemma_category_faults(cats: Seq<CategoryConfig>, i: int)
    ensures
        category_problem(cats, i) matches Some(e) ==> {
            let c = cats[i];
            match e {
                CatalogError::CategoryWithoutId => c.id@.len() == 0,
                CatalogError::DuplicateCategory(id) => id == c.id && exists|j: int|
                    0 <= j < i && (#[trigger] cats[j]).id@ == c.id@,
                CatalogError::CategoryWithoutName(id) => id == c.id && c.name@.len() == 0,
                CatalogError::CategoryNotSlug(id) => id == c.id && !all_slug(c.id@),
                CatalogError::CategoryReserved(id) => id == c.id && (id@ == "checkout"@ || id@
                    == "success"@ || id@ == "webhook"@ || id@ == "static"@),
                _ => false,
            }
        },
{
}

/// What is wrong with a plan is told of that plan, and is so.
pub proof fn lemma_plan_faults(cats: Seq<CategoryConfig>, skus: Seq<SkuConfig>, i: int)
    ensures
        sku_problem(cats, skus, i) matches Some(e) ==> {
            let s = skus[i];
            match e {
                CatalogError::SkuWithoutId => s.id@.len() == 0,
                CatalogError::DuplicateSku(id) => id == s.id && exists|j: int|
                    0 <= j < i && (#[trigger] skus[j]).id@ == s.id@,
                CatalogError::UndefinedCategory { sku, category } => sku == s.id && category
                    == s.category && forall|j: int|
                    0 <= j < cats.len() ==> (#[trigger] cats[j]).id@ != s.category@,
                CatalogError::UnknownCurrency { sku, currency } => sku == s.id && currency
                    == s.currency && !known_currency(s.currency@),
                CatalogError::PriceNotPositive { sku, amount_cents } => sku == s.id && amount_cents
                    == s.amount_cents && s.amount_cents < 1,
                CatalogError::BadTerm { sku, term, problem } => sku == s.id && term == s.term
                    && term_of(s.term@) == Err::<Term, TermProblem>(problem),
                _ => false,
            }
        },
{
}

/// What is wrong with a page is told of that page, and is so.
pub proof fn lemma_page_faults(pages: Seq<PageConfig>, i: int)
    ensures
        page_problem(pages, i) matches Some(e) ==> {
            let p = pages[i];
            match e {
                CatalogError::PageNotSlug(slug) => slug == p.slug && (slug@.len() == 0 || !all_slug(
                    slug@,
                )),
                CatalogError::DuplicatePage(slug) => slug == p.slug && exists|j: int|
                    0 <= j < i && (#[trigger] pages[j]).slug@ == p.slug@,
                CatalogError::PageWithoutTitle(slug) => slug == p.slug && p.title@.len() == 0,
                _ => false,
            }
        },
{
}

/// A catalog holds what its file says: each category, plan, page and link in its
/// place, with nothing changed but that the terms are read.
pub proof fn lemma_catalog_holds_the_file(c: Catalog, f: CatalogFile)
    requires
        is_catalog_of(c, f),
    ensures
        c.shop == f.shop,
        c.categories@.len() == f.category@.len(),
        forall|i: int|
            0 <= i < f.category@.len() ==> {
                let x = #[trigger] c.categories@[i];
                &&& x.id == f.category@[i].id
                &&& x.name == f.category@[i].name
                &&& x.description == f.category@[i].description
                &&& x.url == f.category@[i].url
            },
        c.skus@.len() == f.sku@.len(),
        forall|i: int|
            0 <= i < f.sku@.len() ==> {
                let x = #[trigger] c.skus@[i];
                let y = f.sku@[i];
                &&& x.id == y.id
                &&& x.stripe_price_id == y.stripe_price_id
                &&& x.category == y.category
                &&& x.display_name == y.display_name
                &&& x.description == y.description
                &&& x.url == y.url
                &&& x.price_label == y.price_label
                &&& x.amount_cents == y.amount_cents
                &&& x.currency == y.currency
                &&& x.tier == y.tier
                &&& x.features == y.features
                &&& x.max_orgs == y.max_orgs
                &&& x.max_seats == y.max_seats
                &&& term_of(y.term@) is Ok ==> term_of(y.term@) == Ok::<Term, TermProblem>(x.term)
            },
        c.pages@.len() == f.page@.len(),
        forall|i: int|
            0 <= i < f.page@.len() ==> (#[trigger] c.pages@[i]).slug == f.page@[i].slug
                && c.pages@[i].title == f.page@[i].title && c.pages@[i].footer == f.page@[i].footer,
        c.footer_links@.len() == f.footer_link@.len(),
        forall|i: int|
            0 <= i < f.footer_link@.len() ==> (#[trigger] c.footer_links@[i]).title
                == f.footer_link@[i].title && c.footer_links@[i].url == f.footer_link@[i].url,
        c.analytics is Some <==> f.analytics is Some,
        f.analytics is Some ==> c.analytics->0.src == f.analytics->0.src && c.analytics->0.entity
            == f.analytics->0.entity && c.analytics->0.module == f.analytics->0.module,
{
}

/// What is wrong with a catalog file is told by the identifier, the slug or the
/// address of what it is about, and by the value that is wrong.
pub proof fn lemma_faults_are_told_by_name(e: CatalogError)
    ensures
        ({
            let words = catalog_error_words(e);
            match e {
                CatalogError::DuplicateCategory(id) => tells(words, id@),
                CatalogError::CategoryWithoutName(id) => tells(words, id@),
                CatalogError::CategoryNotSlug(id) => tells(words, id@),
                CatalogError::CategoryReserved(id) => tells(words, id@),
                CatalogError::DuplicateSku(id) => tells(words, id@),
                CatalogError::UndefinedCategory { sku, category } => tells(words, sku@) && tells(
                    words,
                    category@,
                ),
                CatalogError::UnknownCurrency { sku, currency } => tells(words, sku@) && tells(
                    words,
                    currency@,
                ),
                CatalogError::PriceNotPositive { sku, amount_cents } => tells(words, sku@)
                    && crate::text::decimal_int(amount_cents as int).is_suffix_of(words),
                CatalogError::BadTerm { sku, term, problem } => tells(words, sku@)
                    && term_problem_words(term@, problem).is_suffix_of(words),
                CatalogError::PageNotSlug(slug) => tells(words, slug@),
                CatalogError::DuplicatePage(slug) => tells(words, slug@),
                CatalogError::PageWithoutTitle(slug) => tells(words, slug@),
                CatalogError::AnalyticsNotHttps(src) => tells(words, src@),
                _ => true,
            }
        }),
{
    let words = catalog_error_words(e);
    match e {
        CatalogError::DuplicateCategory(id) => {
            lemma_told_last("duplicate category id "@, id@);
        },
        CatalogError::CategoryWithoutName(id) => {
            lemma_told("category "@, id@, " has an empty name"@);
        },
        CatalogError::CategoryNotSlug(id) => {
            lemma_told(
                "category id "@,
                id@,
                " must be a slug (lowercase letters, digits, hyphens)"@,
            );
        },
        CatalogError::CategoryReserved(id) => {
            lemma_told("category id "@, id@, " is reserved (collides with a route)"@);
        },
        CatalogError::DuplicateSku(id) => {
            lemma_told_last("duplicate sku id "@, id@);
        },
        CatalogError::UndefinedCategory { sku, category } => {
            lemma_two_told(
                "sku "@,
                sku@,
                ": category "@,
                category@,
                " is not defined by any [[category]]"@,
            );
        },
        CatalogError::UnknownCurrency { sku, currency } => {
            lemma_two_told(
                "sku "@,
                sku@,
                ": unknown currency "@,
                currency@,
                " (use a lowercase ISO code like \"eur\")"@,
            );
        },
        CatalogError::PriceNotPositive { sku, amount_cents } => {
            lemma_told_and_last(
                "sku "@,
                sku@,
                ": amount_cents must be positive, got "@,
                crate::text::decimal_int(amount_cents as int),
            );
        },
        CatalogError::BadTerm { sku, term, problem } => {
            lemma_told_and_last("sku "@, sku@, " term: "@, term_problem_words(term@, problem));
        },
        CatalogError::PageNotSlug(slug) => {
            lemma_told(
                "page slug "@,
                slug@,
                " must be a slug (lowercase letters, digits, hyphens)"@,
            );
        },
        CatalogError::DuplicatePage(slug) => {
            lemma_told_last("duplicate page slug "@, slug@);
        },
        CatalogError::PageWithoutTitle(slug) => {
            lemma_told("page "@, slug@, " has an empty title"@);
        },
        CatalogError::AnalyticsNotHttps(src) => {
            lemma_told_last("[analytics] src must be an https URL, got "@, src@);
        },
        _ => {},
    }
}

/// Whether some words tell a text, in quotation marks.
pub open spec fn tells(words: Seq<char>, text: Seq<char>) -> bool {
    crate::text::occurs_in(crate::text::quoted_text(text), words)
}

proof fn lemma_told(before: Seq<char>, text: Seq<char>, after: Seq<char>)
    ensures
        tells(before + crate::text::quoted_text(text) + after, text),
{
    crate::text::lemma_occurs(before, crate::text::quoted_text(text), after);
}

proof fn lemma_told_last(before: Seq<char>, text: Seq<char>)
    ensures
        tells(before + crate::text::quoted_text(text), text),
{
    crate::text::lemma_occurs_last(before, crate::text::quoted_text(text));
}

proof fn lemma_two_told(
    a: Seq<char>,
    first: Seq<char>,
    b: Seq<char>,
    second: Seq<char>,
    c: Seq<char>,
)
    ensures
        ({
            let words = a + crate::text::quoted_text(first) + b + (crate::text::quoted_text(second)
                + c);
            tells(words, first) && tells(words, second)
        }),
{
    let x = crate::text::quoted_text(first);
    let y = crate::text::quoted_text(second);
    let words = a + x + b + (y + c);
    lemma_told(a, first, b + (y + c));
    assert(words =~= a + x + (b + (y + c)));
    lemma_told(a + x + b, second, c);
    assert(words =~= (a + x + b) + y + c);
}

proof fn lemma_told_and_last(a: Seq<char>, text: Seq<char>, b: Seq<char>, last: Seq<char>)
    ensures
        ({
            let words = a + crate::text::quoted_text(text) + b + last;
            tells(words, text) && last.is_suffix_of(words)
        }),
{
    let x = crate::text::quoted_text(text);
    let words = a + x + b + last;
    lemma_told(a, text, b + last);
    assert(words =~= a + x + (b + last));
    assert(words.subrange(words.len() - last.len(), words.len() as int) =~= last);
}

/// A term that is none is told as it was given, without the white space around
/// it, and a number of days that is not allowed by its value.
pub proof fn lemma_bad_terms_are_told(term: Seq<char>, days: i64)
    ensures
        tells(term_problem_words(term, TermProblem::NotATerm), crate::text::trimmed(term)),
        crate::text::decimal_int(days as int).is_suffix_of(
            term_problem_words(term, TermProblem::NotPositive(days)),
        ),
        crate::text::decimal_int(days as int).is_suffix_of(
            term_problem_words(term, TermProblem::TooLong(days)),
        ),
{
    lemma_told_last(
        "term must be \"lifetime\" or \"<days>d\", got "@,
        crate::text::trimmed(term),
    );
    let n = crate::text::decimal_int(days as int);
    let a = term_problem_words(term, TermProblem::NotPositive(days));
    let b = term_problem_words(term, TermProblem::TooLong(days));
    assert(a.subrange(a.len() - n.len(), a.len() as int) =~= n);
    assert(b.subrange(b.len() - n.len(), b.len() as int) =~= n);
}

} // verus!
