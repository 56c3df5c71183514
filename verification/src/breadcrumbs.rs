//! Breadcrumbs: the chain of a page's ancestors, from the profile's root
//! down to the page.

use vstd::prelude::*;
use crate::generator::SiteProfile;
use crate::page::{Page, PaginationInfo};
use std::collections::HashMap;
use crate::mapper::SiteMapper;
use crate::paths::{ensure_html, html_path, relative_url};

verus! {

broadcast use vstd::std_specs::hash::group_hash_axioms;

/// One link of a breadcrumb chain.
#[derive(Debug, Clone)]
pub enum Breadcrumb {
    /// A page that is not paginated, with its URL.
    Single { title: String, absolute_url: String },
    /// A paginated page, with the URL of the first page of its sequence and
    /// its own place in the sequence.
    Paged { title: String, root_url: String, page: PaginationInfo },
}

/// A crumb over plain values.
pub enum CrumbView {
    Single { title: Seq<char>, absolute_url: Seq<char> },
    Paged { title: Seq<char>, root_url: Seq<char>, page: PaginationInfo },
}

impl View for Breadcrumb {
    type V = CrumbView;

    open spec fn view(&self) -> CrumbView {
        match self {
            Breadcrumb::Single { title, absolute_url } => CrumbView::Single {
                title: title@,
                absolute_url: absolute_url@,
            },
            Breadcrumb::Paged { title, root_url, page } => CrumbView::Paged {
                title: title@,
                root_url: root_url@,
                page: *page,
            },
        }
    }
}

/// A chain of breadcrumbs, outermost first.
#[derive(Debug, Clone)]
pub struct Breadcrumbs {
    pub crumbs: Vec<Breadcrumb>,
}

impl View for Breadcrumbs {
    type V = Seq<CrumbView>;

    open spec fn view(&self) -> Seq<CrumbView> {
        self.crumbs@.map_values(|c: Breadcrumb| c@)
    }
}

/// The crumb of a page: with the URL of the first page and the pagination
/// state where the page is one of several of a sequence, else with the
/// page's own URL.
pub open spec fn crumb_of(page: Page) -> CrumbView {
    match page.spec_pagination() {
        Some(p) => if p.total_pages > 1 {
            CrumbView::Paged {
                title: page.spec_short_title(),
                root_url: html_path(page.spec_page_url(1)),
                page: p,
            }
        } else {
            CrumbView::Single {
                title: page.spec_short_title(),
                absolute_url: html_path(page.spec_path()),
            }
        },
        None => CrumbView::Single {
            title: page.spec_short_title(),
            absolute_url: html_path(page.spec_path()),
        },
    }
}

/// The position of the first of `pages` with the id `id`.
pub open spec fn page_index(pages: Seq<Page>, id: u64) -> Option<int>
    decreases pages.len(),
{
    if pages.len() == 0 {
        None
    } else {
        match page_index(pages.drop_last(), id) {
            Some(i) => Some(i),
            None => if pages.last().spec_id() == id {
                Some(pages.len() - 1)
            } else {
                None
            },
        }
    }
}

/// The crumbs of `page` and its ancestors among `pages`, outermost first, if
/// the chain of parents ends within `steps` pages: there is none where a
/// parent is missing, or where the chain is longer than that (as it is
/// where it runs in a circle).
pub open spec fn chain_of(pages: Seq<Page>, page: Page, steps: nat) -> Option<Seq<CrumbView>>
    decreases steps,
{
    if steps == 0 {
        None
    } else {
        match page.spec_parent_id() {
            None => Some(seq![crumb_of(page)]),
            Some(parent_id) => match page_index(pages, parent_id) {
                None => None,
                Some(i) => match chain_of(pages, pages[i], (steps - 1) as nat) {
                    None => None,
                    Some(above) => Some(above.push(crumb_of(page))),
                },
            },
        }
    }
}

/// How many pages a chain may hold before it is taken to run in a circle: one
/// more than there are pages, as far as that can be counted.
pub open spec fn chain_bound(pages: nat) -> nat {
    if pages < usize::MAX {
        pages + 1
    } else {
        pages
    }
}

/// The breadcrumbs of `page` in a profile titled `title`: the crumb of the
/// profile's root, then the crumbs of the page's ancestors and of the page.
pub open spec fn breadcrumbs_of(title: Seq<char>, pages: Seq<Page>, page: Page) -> Option<
    Seq<CrumbView>,
> {
    match chain_of(pages, page, chain_bound(pages.len())) {
        None => None,
        Some(chain) => Some(
            seq![CrumbView::Single { title, absolute_url: "index"@ }] + chain,
        ),
    }
}

/// A crumb as a template shows it on one page.
#[derive(Debug, Clone)]
pub struct CrumbParams {
    pub is_first: bool,
    pub is_last: bool,
    pub is_paged: bool,
    pub title: String,
    /// The crumb's place in its sequence, where it is paginated.
    pub page: Option<PaginationInfo>,
    /// The URL of the crumb, from the page that shows it.
    pub url: String,
}

/// The parameters of a crumb over plain values.
pub struct CrumbParamsView {
    pub is_first: bool,
    pub is_last: bool,
    pub is_paged: bool,
    pub title: Seq<char>,
    pub page: Option<PaginationInfo>,
    pub url: Seq<char>,
}

impl View for CrumbParams {
    type V = CrumbParamsView;

    open spec fn view(&self) -> CrumbParamsView {
        CrumbParamsView {
            is_first: self.is_first,
            is_last: self.is_last,
            is_paged: self.is_paged,
            title: self.title@,
            page: self.page,
            url: self.url@,
        }
    }
}

impl CrumbView {
    /// The path that the crumb points at.
    pub open spec fn target(self) -> Seq<char> {
        match self {
            CrumbView::Single { absolute_url, .. } => absolute_url,
            CrumbView::Paged { root_url, .. } => root_url,
        }
    }

    /// The crumb's title.
    pub open spec fn title(self) -> Seq<char> {
        match self {
            CrumbView::Single { title, .. } => title,
            CrumbView::Paged { title, .. } => title,
        }
    }

    /// The crumb's place in its sequence, where it is paginated.
    pub open spec fn page(self) -> Option<PaginationInfo> {
        match self {
            CrumbView::Single { .. } => None,
            CrumbView::Paged { page, .. } => Some(page),
        }
    }
}

/// The parameters of the crumb at `i` of `crumbs`, as the page at `from`
/// shows it.
pub open spec fn crumb_params(crumbs: Seq<CrumbView>, i: int, from: Seq<char>) -> CrumbParamsView {
    CrumbParamsView {
        is_first: i == 0,
        is_last: i == crumbs.len() - 1,
        is_paged: crumbs[i] is Paged,
        title: crumbs[i].title(),
        page: crumbs[i].page(),
        url: relative_url(from, crumbs[i].target()).unwrap(),
    }
}

/// Whether the page at `from` can link to every one of `crumbs`.
pub open spec fn can_reach_all(crumbs: Seq<CrumbView>, from: Seq<char>) -> bool {
    forall|i: int| 0 <= i < crumbs.len() ==> relative_url(from, (#[trigger] crumbs[i]).target()) is Some
}

/// The position of the first of `pages` with the id `id`.
fn find_page(pages: &Vec<Page>, id: u64) -> (r: Option<usize>)
    ensures
        match r {
            Some(i) => i < pages@.len() && page_index(pages@, id) == Some(i as int),
            None => page_index(pages@, id) is None,
        },
{
    let mut i: usize = 0;
    while i < pages.len()
        invariant
            i <= pages@.len(),
            page_index(pages@.take(i as int), id) is None,
        decreases pages@.len() - i,
    {
        proof {
            assert(pages@.take(i + 1).drop_last() =~= pages@.take(i as int));
        }
        if pages[i].id() == id {
            proof {
                lemma_page_index_stays(pages@, i + 1, id);
            }
            return Some(i);
        }
        i += 1;
    }
    assert(pages@.take(i as int) =~= pages@);
    None
}

/// The first page with an id stays the first when more pages follow.
proof fn lemma_page_index_stays(all: Seq<Page>, n: int, id: u64)
    requires
        0 <= n <= all.len(),
        page_index(all.take(n), id) is Some,
    ensures
        page_index(all, id) == page_index(all.take(n), id),
    decreases all.len() - n,
{
    if n < all.len() {
        assert(all.take(n + 1).drop_last() =~= all.take(n));
        lemma_page_index_stays(all, n + 1, id);
    } else {
        assert(all.take(n) =~= all);
    }
}

/// The crumbs of a list over plain values.
pub open spec fn crumb_views(crumbs: Seq<Breadcrumb>) -> Seq<CrumbView> {
    crumbs.map_values(|c: Breadcrumb| c@)
}

impl Breadcrumbs {
    /// The chain that holds `crumbs`.
    pub fn new(crumbs: Vec<Breadcrumb>) -> (r: Breadcrumbs)
        ensures
            r.crumbs == crumbs,
    {
        Breadcrumbs { crumbs }
    }

    /// How many crumbs the chain has.
    pub fn len(&self) -> (r: usize)
        ensures
            r == self@.len(),
    {
        self.crumbs.len()
    }

    /// The URL of a page path: the path with the extension of the page
    /// format.
    pub fn ensure_html_on_url(url: &str) -> (r: String)
        ensures
            r@ == html_path(url@),
    {
        ensure_html(url)
    }

    /// The crumb of one page.
    pub fn crumb(page: &Page) -> (r: Breadcrumb)
        ensures
            r@ == crumb_of(*page),
    {
        let info = page.info();
        match info.pagination {
            Some(pagination) => if pagination.total_pages > 1 {
                Breadcrumb::Paged {
                    title: info.short_title,
                    root_url: Self::ensure_html_on_url(page.page_url(1).as_str()),
                    page: pagination,
                }
            } else {
                Breadcrumb::Single {
                    title: info.short_title,
                    absolute_url: Self::ensure_html_on_url(info.path.as_str()),
                }
            },
            None => Breadcrumb::Single {
                title: info.short_title,
                absolute_url: Self::ensure_html_on_url(info.path.as_str()),
            },
        }
    }

    /// The crumbs of `page` and of its ancestors among `pages`, outermost
    /// first, or `None` where the chain of parents does not end within
    /// `steps` pages.
    pub fn from_page_inner(page: &Page, pages: &Vec<Page>, steps: usize) -> (r: Option<
        Vec<Breadcrumb>,
    >)
        ensures
            match r {
                Some(crumbs) => chain_of(pages@, *page, steps as nat) == Some(crumb_views(crumbs@)),
                None => chain_of(pages@, *page, steps as nat) is None,
            },
        decreases steps,
    {
        if steps == 0 {
            return None;
        }
        let mut crumbs: Vec<Breadcrumb> = match page.parent_id() {
            Some(parent_id) => match find_page(pages, parent_id) {
                Some(at) => match Self::from_page_inner(&pages[at], pages, steps - 1) {
                    Some(above) => above,
                    None => {
                        return None;
                    },
                },
                None => {
                    return None;
                },
            },
            None => Vec::new(),
        };
        let ghost above = crumb_views(crumbs@);
        crumbs.push(Self::crumb(page));
        proof {
            assert(crumb_views(crumbs@) =~= above.push(crumb_of(*page)));
            if page.spec_parent_id() is None {
                assert(above =~= Seq::<CrumbView>::empty());
                assert(crumb_views(crumbs@) =~= seq![crumb_of(*page)]);
            }
        }
        Some(crumbs)
    }

    /// The breadcrumbs of `page` in `profile`, or `None` where a parent is
    /// missing among the profile's pages or the parents run in a circle.
    pub fn try_from_page(page: &Page, profile: &SiteProfile) -> (r: Option<Breadcrumbs>)
        ensures
            match r {
                Some(b) => breadcrumbs_of(profile.profile.title@, profile.pages@, *page) == Some(
                    b@,
                ),
                None => breadcrumbs_of(profile.profile.title@, profile.pages@, *page) is None,
            },
    {
        let n = profile.pages.len();
        let steps = if n < usize::MAX {
            n + 1
        } else {
            n
        };
        match Self::from_page_inner(page, &profile.pages, steps) {
            Some(mut inner) => {
                let ghost chain = crumb_views(inner@);
                let mut crumbs: Vec<Breadcrumb> = Vec::new();
                crumbs.push(
                    Breadcrumb::Single {
                        title: profile.profile.title.clone(),
                        absolute_url: "index".to_owned(),
                    },
                );
                let ghost head = crumb_views(crumbs@);
                crumbs.append(&mut inner);
                let r = Breadcrumbs { crumbs };
                proof {
                    assert(r@ =~= head + chain);
                    assert(head =~= seq![
                        CrumbView::Single {
                            title: profile.profile.title@,
                            absolute_url: "index"@,
                        },
                    ]);
                }
                Some(r)
            },
            None => None,
        }
    }

    /// The breadcrumbs of `page` in `profile`: the profile's root, the
    /// page's ancestors from the outermost on, and the page itself.
    pub fn from_page(page: &Page, profile: &SiteProfile) -> (r: Breadcrumbs)
        requires
            breadcrumbs_of(profile.profile.title@, profile.pages@, *page) is Some,
        ensures
            Some(r@) == breadcrumbs_of(profile.profile.title@, profile.pages@, *page),
    {
        match Self::try_from_page(page, profile) {
            Some(b) => b,
            None => Breadcrumbs { crumbs: Vec::new() },
        }
    }

    /// The crumbs as the page `page_id` shows them: each with the URL that
    /// leads to it from that page, and with its place in the chain. There
    /// are none where `mapping` does not hold the page, or where no relative
    /// path leads from the page to one of the crumbs.
    pub fn params(&self, mapping: &HashMap<u64, String>, page_id: u64) -> (r: Option<
        Vec<CrumbParams>,
    >)
        ensures
            match r {
                Some(params) => mapping@.contains_key(page_id) && can_reach_all(
                    self@,
                    mapping@[page_id]@,
                ) && params@.len() == self@.len() && forall|i: int|
                    0 <= i < params@.len() ==> (#[trigger] params@[i])@ == crumb_params(
                        self@,
                        i,
                        mapping@[page_id]@,
                    ),
                None => !mapping@.contains_key(page_id) || !can_reach_all(
                    self@,
                    mapping@[page_id]@,
                ),
            },
    {
        if !mapping.contains_key(&page_id) {
            return None;
        }
        let ghost from = mapping@[page_id]@;
        let len = self.crumbs.len();
        let mut params: Vec<CrumbParams> = Vec::new();
        let mut i: usize = 0;
        while i < len
            invariant
                len == self.crumbs@.len(),
                mapping@.contains_key(page_id),
                from == mapping@[page_id]@,
                i <= len,
                params@.len() == i,
                forall|j: int|
                    0 <= j < i ==> relative_url(from, (#[trigger] self@[j]).target()) is Some,
                forall|j: int|
                    0 <= j < i ==> (#[trigger] params@[j])@ == crumb_params(self@, j, from),
            decreases len - i,
        {
            assert(self@[i as int] == self.crumbs@[i as int]@);
            let (is_paged, title, page, target) = match &self.crumbs[i] {
                Breadcrumb::Single { title, absolute_url } => (
                    false,
                    title.clone(),
                    None,
                    absolute_url.as_str(),
                ),
                Breadcrumb::Paged { title, root_url, page } => (
                    true,
                    title.clone(),
                    Some(*page),
                    root_url.as_str(),
                ),
            };
            let url = match SiteMapper::try_url_with_mapping(mapping, page_id, target) {
                Some(url) => url,
                None => {
                    assert(relative_url(from, self@[i as int].target()) is None);
                    return None;
                },
            };
            params.push(
                CrumbParams { is_first: i == 0, is_last: i == len - 1, is_paged, title, page, url },
            );
            i += 1;
        }
        Some(params)
    }

    /// The crumbs, each with its position.
    pub fn into_iter(self) -> (r: Vec<(usize, Breadcrumb)>)
        ensures
            r@.len() == self.crumbs@.len(),
            forall|i: int| 0 <= i < r@.len() ==> (#[trigger] r@[i]) == (i as usize, self.crumbs@[i]),
    {
        let ghost all = self.crumbs@;
        let n = self.crumbs.len();
        let mut rest = self.crumbs;
        let mut turned: Vec<(usize, Breadcrumb)> = Vec::new();
        while rest.len() > 0
            invariant
                n == all.len(),
                turned@.len() + rest@.len() == all.len(),
                rest@ == all.take(rest@.len() as int),
                forall|j: int|
                    0 <= j < turned@.len() ==> (#[trigger] turned@[j]) == (
                        (all.len() - 1 - j) as usize,
                        all[all.len() - 1 - j],
                    ),
            decreases rest@.len(),
        {
            let at = rest.len() - 1;
            let c = rest.pop().unwrap();
            turned.push((at, c));
            assert(rest@ =~= all.take(rest@.len() as int));
        }
        let mut r: Vec<(usize, Breadcrumb)> = Vec::new();
        while turned.len() > 0
            invariant
                n == all.len(),
                r@.len() + turned@.len() == all.len(),
                forall|j: int|
                    0 <= j < turned@.len() ==> (#[trigger] turned@[j]) == (
                        (all.len() - 1 - j) as usize,
                        all[all.len() - 1 - j],
                    ),
                forall|i: int| 0 <= i < r@.len() ==> (#[trigger] r@[i]) == (i as usize, all[i]),
            decreases turned@.len(),
        {
            let item = turned.pop().unwrap();
            r.push(item);
        }
        r
    }
}

} // verus!
