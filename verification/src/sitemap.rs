//! The site map: the tree of a profile's pages by the segments of their
//! paths.

use vstd::prelude::*;
use crate::generator::SiteProfile;
use crate::page::{Page, PaginationInfo};
use crate::paths::{components_of, ensure_html, html_path, path_segments, texts};
use crate::text::{has_prefix, starts_with, str_eq};

verus! {

/// A node of the site map.
pub struct SiteMap {
    pub title: String,
    pub key: String,
    pub page_ids: Vec<u64>,
    pub absolute_url: String,
    pub children: Vec<SiteMap>,
    pub page: Option<PaginationInfo>,
}

/// A node of the site map over plain values.
pub struct SiteMapView {
    pub title: Seq<char>,
    pub key: Seq<char>,
    pub page_ids: Seq<u64>,
    pub absolute_url: Seq<char>,
    pub children: Seq<SiteMapView>,
    pub page: Option<PaginationInfo>,
}

/// A node over plain values: its own fields, and its children in the same
/// way.
pub open spec fn node_view(map: SiteMap) -> SiteMapView
    decreases map,
{
    SiteMapView {
        title: map.title@,
        key: map.key@,
        page_ids: map.page_ids@,
        absolute_url: map.absolute_url@,
        children: Seq::new(
            map.children@.len(),
            |i: int|
                if 0 <= i < map.children@.len() {
                    node_view(map.children@[i])
                } else {
                    arbitrary()
                },
        ),
        page: map.page,
    }
}

impl View for SiteMap {
    type V = SiteMapView;

    open spec fn view(&self) -> SiteMapView {
        node_view(*self)
    }
}

/// The position of the first of `children` with the key `key`.
pub open spec fn child_index(children: Seq<SiteMapView>, key: Seq<char>) -> Option<int>
    decreases children.len(),
{
    if children.len() == 0 {
        None
    } else {
        match child_index(children.drop_last(), key) {
            Some(i) => Some(i),
            None => if children.last().key == key {
                Some(children.len() - 1)
            } else {
                None
            },
        }
    }
}

/// The URL under which the site map shows a page: the page's own, or that of
/// the first page of its sequence where the sequence has several pages.
pub open spec fn canonical_url(page: Page) -> Seq<char> {
    html_path(
        match page.spec_pagination() {
            Some(p) => if p.total_pages > 1 {
                page.spec_page_url(1)
            } else {
                page.spec_path()
            },
            None => page.spec_path(),
        },
    )
}

/// A node for the segment `key`, made for the page `id`.
pub open spec fn fresh_node(key: Seq<char>, id: u64) -> SiteMapView {
    SiteMapView {
        key,
        title: Seq::empty(),
        absolute_url: Seq::empty(),
        children: Seq::empty(),
        page: None,
        page_ids: seq![id],
    }
}

impl SiteMapView {
    /// The node after `page` was entered at the path `segments` below it.
    /// Every node on the way notes the page's id. A segment that begins
    /// with `index.` stands for the node itself; any other segment leads to
    /// the child with that key, which is made if there is none. The node at
    /// the end of the path takes the page's title, pagination and URL.
    pub open spec fn filled(self, segments: Seq<Seq<char>>, page: Page) -> SiteMapView
        decreases segments.len(),
    {
        let me = SiteMapView { page_ids: self.page_ids.push(page.spec_id()), ..self };
        if segments.len() == 0 {
            SiteMapView {
                title: page.spec_short_title(),
                page: page.spec_pagination(),
                absolute_url: canonical_url(page),
                ..me
            }
        } else if has_prefix(segments[0], "index."@) {
            me.filled(segments.skip(1), page)
        } else {
            match child_index(me.children, segments[0]) {
                Some(i) => SiteMapView {
                    children: me.children.update(
                        i,
                        me.children[i].filled(segments.skip(1), page),
                    ),
                    ..me
                },
                None => SiteMapView {
                    children: me.children.push(
                        fresh_node(segments[0], page.spec_id()).filled(segments.skip(1), page),
                    ),
                    ..me
                },
            }
        }
    }

    /// The node at the path `segments` below this one, if there is one.
    pub open spec fn node_at(self, segments: Seq<Seq<char>>) -> Option<SiteMapView>
        decreases segments.len(),
    {
        if segments.len() == 0 {
            Some(self)
        } else if has_prefix(segments[0], "index."@) {
            self.node_at(segments.skip(1))
        } else {
            match child_index(self.children, segments[0]) {
                Some(i) => self.children[i].node_at(segments.skip(1)),
                None => None,
            }
        }
    }

    /// The tree after the first `n` of `pages` were entered, each at the
    /// segments of its path.
    pub open spec fn with_pages(self, pages: Seq<Page>, n: nat) -> SiteMapView
        decreases n,
    {
        if n == 0 || n > pages.len() {
            self
        } else {
            self.with_pages(pages, (n - 1) as nat).filled(
                path_segments(pages[n - 1].spec_path()),
                pages[n - 1],
            )
        }
    }
}

/// The first child with a key is found where one has it, and it has the key.
pub proof fn lemma_child_index(children: Seq<SiteMapView>, key: Seq<char>)
    ensures
        match child_index(children, key) {
            Some(i) => 0 <= i < children.len() && children[i].key == key,
            None => forall|j: int| 0 <= j < children.len() ==> (#[trigger] children[j]).key != key,
        },
    decreases children.len(),
{
    if children.len() > 0 {
        lemma_child_index(children.drop_last(), key);
        match child_index(children.drop_last(), key) {
            Some(i) => {
                assert(children.drop_last()[i] == children[i]);
            },
            None => {
                assert forall|j: int| 0 <= j < children.len() && child_index(children, key)
                    is None implies (#[trigger] children[j]).key != key by {
                    if j < children.len() - 1 {
                        assert(children.drop_last()[j] == children[j]);
                    }
                }
            },
        }
    }
}

/// Replacing a child by one with the same key leaves the first child with
/// any key where it was.
proof fn lemma_child_index_update(
    children: Seq<SiteMapView>,
    i: int,
    node: SiteMapView,
    key: Seq<char>,
)
    requires
        0 <= i < children.len(),
        node.key == children[i].key,
    ensures
        child_index(children.update(i, node), key) == child_index(children, key),
    decreases children.len(),
{
    let updated = children.update(i, node);
    if i < children.len() - 1 {
        assert(updated.drop_last() =~= children.drop_last().update(i, node));
        lemma_child_index_update(children.drop_last(), i, node, key);
    } else {
        assert(updated.drop_last() =~= children.drop_last());
    }
}

/// A child that is added at the end is the first with its key where no
/// child had that key.
proof fn lemma_child_index_push(children: Seq<SiteMapView>, node: SiteMapView)
    requires
        child_index(children, node.key) is None,
    ensures
        child_index(children.push(node), node.key) == Some(children.len() as int),
{
    assert(children.push(node).drop_last() =~= children);
}

/// Entering a page keeps the key of the node.
proof fn lemma_filled_key(node: SiteMapView, segments: Seq<Seq<char>>, page: Page)
    ensures
        node.filled(segments, page).key == node.key,
    decreases segments.len(),
{
    if segments.len() > 0 && has_prefix(segments[0], "index."@) {
        lemma_filled_key(
            SiteMapView { page_ids: node.page_ids.push(page.spec_id()), ..node },
            segments.skip(1),
            page,
        );
    }
}

/// After a page was entered at a path, the node at that path shows the
/// page: it has the page's short title and pagination, and its URL is the
/// page's canonical URL, which for a page that is not paginated is the
/// page's own path, and for a paginated sequence the path of its first
/// page, each with the extension of the page format.
pub proof fn lemma_filled_round_trip(node: SiteMapView, segments: Seq<Seq<char>>, page: Page)
    ensures
        node.filled(segments, page).node_at(segments) is Some,
        node.filled(segments, page).node_at(segments).unwrap().absolute_url == canonical_url(page),
        node.filled(segments, page).node_at(segments).unwrap().title == page.spec_short_title(),
        node.filled(segments, page).node_at(segments).unwrap().page == page.spec_pagination(),
        page.spec_pagination() is None ==> canonical_url(page) == html_path(page.spec_path()),
        page.spec_pagination() matches Some(p) && p.total_pages > 1 ==> canonical_url(page)
            == html_path(page.spec_page_url(1)),
    decreases segments.len(),
{
    let me = SiteMapView { page_ids: node.page_ids.push(page.spec_id()), ..node };
    if segments.len() == 0 {
    } else if has_prefix(segments[0], "index."@) {
        lemma_filled_round_trip(me, segments.skip(1), page);
    } else {
        lemma_child_index(me.children, segments[0]);
        match child_index(me.children, segments[0]) {
            Some(i) => {
                let child = me.children[i].filled(segments.skip(1), page);
                lemma_filled_key(me.children[i], segments.skip(1), page);
                lemma_child_index_update(me.children, i, child, segments[0]);
                lemma_filled_round_trip(me.children[i], segments.skip(1), page);
            },
            None => {
                let fresh = fresh_node(segments[0], page.spec_id());
                let child = fresh.filled(segments.skip(1), page);
                lemma_filled_key(fresh, segments.skip(1), page);
                lemma_child_index_push(me.children, child);
                lemma_filled_round_trip(fresh, segments.skip(1), page);
            },
        }
    }
}

/// The segments of a path that lead from node to node: those that do not
/// begin with `index.`.
pub open spec fn node_path(segments: Seq<Seq<char>>) -> Seq<Seq<char>>
    decreases segments.len(),
{
    if segments.len() == 0 {
        Seq::empty()
    } else if has_prefix(segments[0], "index."@) {
        node_path(segments.skip(1))
    } else {
        seq![segments[0]] + node_path(segments.skip(1))
    }
}

/// Whether two nodes show the same: title, key, URL and pagination.
pub open spec fn same_face(a: SiteMapView, b: SiteMapView) -> bool {
    a.title == b.title && a.key == b.key && a.absolute_url == b.absolute_url && a.page == b.page
}

/// A child that is added at the end leaves the first child with any key
/// that a child had where it was.
proof fn lemma_child_index_push_keeps(children: Seq<SiteMapView>, node: SiteMapView, key: Seq<char>)
    requires
        child_index(children, key) is Some,
    ensures
        child_index(children.push(node), key) == child_index(children, key),
{
    assert(children.push(node).drop_last() =~= children);
}

/// Entering a page at one path leaves the node at every other path as it
/// was shown: a page changes the title, the URL and the pagination of the
/// node at the end of its own path only.
pub proof fn lemma_filled_elsewhere(
    node: SiteMapView,
    at: Seq<Seq<char>>,
    segments: Seq<Seq<char>>,
    page: Page,
)
    requires
        node.node_at(at) is Some,
        node_path(at) != node_path(segments),
    ensures
        node.filled(segments, page).node_at(at) is Some,
        same_face(node.filled(segments, page).node_at(at).unwrap(), node.node_at(at).unwrap()),
    decreases at.len() + segments.len(),
{
    let me = SiteMapView { page_ids: node.page_ids.push(page.spec_id()), ..node };
    if at.len() == 0 {
        if segments.len() == 0 {
            assert(node_path(at) =~= node_path(segments));
        } else if has_prefix(segments[0], "index."@) {
            lemma_filled_elsewhere(me, at, segments.skip(1), page);
        } else {
        }
    } else if has_prefix(at[0], "index."@) {
        lemma_filled_elsewhere(node, at.skip(1), segments, page);
        lemma_filled_node_at_index(node.filled(segments, page), at);
    } else {
        lemma_child_index(node.children, at[0]);
        let i = child_index(node.children, at[0]).unwrap();
        if segments.len() == 0 {
        } else if has_prefix(segments[0], "index."@) {
            lemma_filled_elsewhere(me, at, segments.skip(1), page);
        } else {
            lemma_child_index(me.children, segments[0]);
            match child_index(me.children, segments[0]) {
                Some(j) => {
                    let child = me.children[j].filled(segments.skip(1), page);
                    lemma_filled_key(me.children[j], segments.skip(1), page);
                    lemma_child_index_update(me.children, j, child, at[0]);
                    if segments[0] == at[0] {
                        assert(j == i);
                        if node_path(at.skip(1)) == node_path(segments.skip(1)) {
                            assert(node_path(at) =~= node_path(segments));
                        }
                        lemma_filled_elsewhere(me.children[i], at.skip(1), segments.skip(1), page);
                    } else {
                        assert(j != i);
                    }
                },
                None => {
                    let child = fresh_node(segments[0], page.spec_id()).filled(
                        segments.skip(1),
                        page,
                    );
                    lemma_child_index_push_keeps(me.children, child, at[0]);
                },
            }
        }
    }
}

/// The node at a path that begins with an `index.` segment is the node at
/// the rest of the path.
proof fn lemma_filled_node_at_index(node: SiteMapView, at: Seq<Seq<char>>)
    requires
        at.len() > 0,
        has_prefix(at[0], "index."@),
    ensures
        node.node_at(at) == node.node_at(at.skip(1)),
{
}

/// Whether `page` belongs to a paginated sequence of several pages.
pub open spec fn is_one_of_several(page: Page) -> bool {
    match page.spec_pagination() {
        Some(p) => p.total_pages > 1,
        None => false,
    }
}

/// The node at a path has the last of the path's node segments as key; a
/// path without node segments leads to the node itself.
pub proof fn lemma_node_at_key(node: SiteMapView, at: Seq<Seq<char>>)
    requires
        node.node_at(at) is Some,
    ensures
        node_path(at).len() > 0 ==> node.node_at(at).unwrap().key == node_path(at).last(),
        node_path(at).len() == 0 ==> node.node_at(at) == Some(node),
    decreases at.len(),
{
    if at.len() == 0 {
    } else if has_prefix(at[0], "index."@) {
        lemma_node_at_key(node, at.skip(1));
    } else {
        lemma_child_index(node.children, at[0]);
        let i = child_index(node.children, at[0]).unwrap();
        lemma_node_at_key(node.children[i], at.skip(1));
        let rest = node_path(at.skip(1));
        assert(node_path(at) =~= seq![at[0]] + rest);
        if rest.len() > 0 {
            assert(node_path(at).last() == rest.last());
        } else {
            assert(node_path(at).last() == at[0]);
        }
    }
}

/// The site map shows every page whose node no later page of the profile
/// takes: after the first `n` of `pages` were entered, the node at the path
/// of the page at `i` is there and has the page's short title, its
/// pagination and its canonical URL, which is the page's own where it is
/// not one of several, and that of the first page of its sequence where it
/// is.
pub proof fn lemma_site_map_shows_page(
    root: SiteMapView,
    pages: Seq<Page>,
    n: nat,
    i: int,
    profile_name: Seq<char>,
)
    requires
        0 <= i < n <= pages.len(),
        forall|j: int|
            i < j < n ==> node_path(path_segments((#[trigger] pages[j]).spec_path())) != node_path(
                path_segments(pages[i].spec_path()),
            ),
    ensures
        ({
            let shown = root.with_pages(pages, n).node_at(path_segments(pages[i].spec_path()));
            &&& shown is Some
            &&& shown.unwrap().absolute_url == canonical_url(pages[i])
            &&& shown.unwrap().title == pages[i].spec_short_title()
            &&& shown.unwrap().page == pages[i].spec_pagination()
            &&& (node_path(path_segments(pages[i].spec_path())).len() > 0 ==> shown.unwrap().key
                == node_path(path_segments(pages[i].spec_path())).last())
            &&& (!is_one_of_several(pages[i]) ==> shown.unwrap().absolute_url
                == crate::mapper::page_url_path(pages[i], profile_name, false))
            &&& (is_one_of_several(pages[i]) ==> shown.unwrap().absolute_url == html_path(
                pages[i].spec_page_url(1),
            ))
        }),
    decreases n,
{
    let at = path_segments(pages[i].spec_path());
    let before = root.with_pages(pages, (n - 1) as nat);
    lemma_canonical_url_is_recorded(pages[i], pages[i], profile_name);
    if i == n - 1 {
        lemma_filled_round_trip(before, at, pages[i]);
        lemma_node_at_key(before.filled(at, pages[i]), at);
    } else {
        lemma_site_map_shows_page(root, pages, (n - 1) as nat, i, profile_name);
        assert(node_path(path_segments(pages[n - 1].spec_path())) != node_path(at));
        lemma_filled_elsewhere(before, at, path_segments(pages[n - 1].spec_path()), pages[n - 1]);
        lemma_node_at_key(root.with_pages(pages, n), at);
    }
}

/// Whether `first` is the first page of the paginated sequence that `page`
/// belongs to.
pub open spec fn is_first_page_of(first: Page, page: Page) -> bool {
    &&& first.spec_pagination() matches Some(p) && p.current_page == 1 && p.total_pages > 1
    &&& match (first, page) {
        (Page::CategoryList(a), Page::CategoryList(b)) => a.category_name@ == b.category_name@,
        (Page::Mask(a), Page::Mask(b)) => a.name@ == b.name@,
        _ => false,
    }
}

/// The URL that the site map shows for a page is a URL path that the site
/// mapper records, where profiles have no folders: for a page that is not
/// one of several, the page's own; for a page of a paginated sequence, that
/// of the first page of the sequence.
pub proof fn lemma_canonical_url_is_recorded(page: Page, first: Page, profile_name: Seq<char>)
    ensures
        page.spec_pagination() is None ==> canonical_url(page) == crate::mapper::page_url_path(
            page,
            profile_name,
            false,
        ),
        page.spec_pagination() matches Some(p) && p.total_pages == 1 ==> canonical_url(page)
            == crate::mapper::page_url_path(page, profile_name, false),
        page.spec_pagination() matches Some(p) && p.total_pages > 1 && is_first_page_of(first, page)
            ==> canonical_url(page) == crate::mapper::page_url_path(first, profile_name, false),
{
}

/// The position of the first of `children` with the key `key`.
fn find_child(children: &Vec<SiteMap>, key: &str) -> (r: Option<usize>)
    ensures
        match r {
            Some(i) => i < children@.len() && child_index(
                Seq::new(children@.len(), |j: int| children@[j]@),
                key@,
            ) == Some(i as int),
            None => child_index(Seq::new(children@.len(), |j: int| children@[j]@), key@) is None,
        },
{
    let ghost all = Seq::new(children@.len(), |j: int| children@[j]@);
    let mut i: usize = 0;
    while i < children.len()
        invariant
            all == Seq::new(children@.len(), |j: int| children@[j]@),
            i <= children@.len(),
            child_index(all.take(i as int), key@) is None,
        decreases children@.len() - i,
    {
        proof {
            assert(all.take(i + 1).drop_last() =~= all.take(i as int));
            assert(all.take(i + 1).last() == children@[i as int]@);
        }
        if str_eq(children[i].key.as_str(), key) {
            proof {
                lemma_child_index_stays(all, i + 1, key@);
            }
            return Some(i);
        }
        i += 1;
    }
    assert(all.take(i as int) =~= all);
    None
}

/// The first child with a key stays the first when more children follow.
proof fn lemma_child_index_stays(all: Seq<SiteMapView>, n: int, key: Seq<char>)
    requires
        0 <= n <= all.len(),
        child_index(all.take(n), key) is Some,
    ensures
        child_index(all, key) == child_index(all.take(n), key),
    decreases all.len() - n,
{
    if n < all.len() {
        assert(all.take(n + 1).drop_last() =~= all.take(n));
        lemma_child_index_stays(all, n + 1, key);
    } else {
        assert(all.take(n) =~= all);
    }
}

/// The view of a node holds the views of the node's children.
pub proof fn lemma_view_children(map: SiteMap)
    ensures
        map@.children.len() == map.children@.len(),
        forall|j: int| 0 <= j < map.children@.len() ==> map@.children[j] == (#[trigger] map.children@[j])@,
        map@.children == Seq::new(map.children@.len(), |j: int| map.children@[j]@),
{
    assert(map@.children =~= Seq::new(map.children@.len(), |j: int| map.children@[j]@));
}

impl SiteMap {

    /// Enters `page` at the path made of the components from `from` on.
    pub fn fill_from_path(&mut self, components: &Vec<String>, from: usize, page: &Page)
        requires
            from <= components@.len(),
        ensures
            final(self)@ == old(self)@.filled(texts(components@).skip(from as int), *page),
        decreases components@.len() - from,
    {
        let ghost start = self@;
        let ghost segments = texts(components@).skip(from as int);
        self.page_ids.push(page.id());
        let ghost me = SiteMapView { page_ids: start.page_ids.push(page.spec_id()), ..start };
        assert(self@.children =~= start.children);
        assert(self@ == me);
        if from >= components.len() {
            let info = page.info();
            self.title = info.short_title;
            self.page = info.pagination;
            let path = match info.pagination {
                Some(pagination) => if pagination.total_pages > 1 {
                    page.page_url(1)
                } else {
                    info.path
                },
                None => info.path,
            };
            self.absolute_url = ensure_html(path.as_str());
            assert(self@.children =~= start.children);
            return ;
        }
        let first = &components[from];
        proof {
            assert(segments[0] == first@);
            assert(segments.skip(1) =~= texts(components@).skip(from + 1));
        }
        // An index page describes the node it lies in.
        if starts_with(first.as_str(), "index.") {
            self.fill_from_path(components, from + 1, page);
            return ;
        }
        proof {
            lemma_view_children(*self);
        }
        match find_child(&self.children, first.as_str()) {
            Some(at) => {
                let ghost held = self.children@;
                proof {
                    lemma_view_children(*self);
                }
                assert(me.children.len() == held.len());
                assert(forall|j: int| 0 <= j < held.len() ==> me.children[j] == held[j]@);
                let mut child = self.children.remove(at);
                let ghost before = child@;
                assert(before == me.children[at as int]);
                child.fill_from_path(components, from + 1, page);
                self.children.insert(at, child);
                proof {
                    lemma_view_children(*self);
                }
                assert(self.children@ =~= held.update(at as int, child));
                assert(self@.children.len() == held.len());
                assert forall|j: int| 0 <= j < held.len() implies self@.children[j]
                    == me.children.update(at as int, before.filled(segments.skip(1), *page))[j] by {
                    assert(self@.children[j] == self.children@[j]@);
                }
                assert(self@.children =~= me.children.update(
                    at as int,
                    before.filled(segments.skip(1), *page),
                ));
            },
            None => {
                let mut ids: Vec<u64> = Vec::new();
                ids.push(page.id());
                let mut child = SiteMap {
                    key: first.clone(),
                    title: String::new(),
                    absolute_url: String::new(),
                    children: Vec::new(),
                    page: None,
                    page_ids: ids,
                };
                assert(child@.children =~= Seq::<SiteMapView>::empty());
                assert(child@.page_ids =~= seq![page.spec_id()]);
                assert(child@ == fresh_node(first@, page.spec_id()));
                let ghost held = self.children@;
                proof {
                    lemma_view_children(*self);
                }
                assert(me.children.len() == held.len());
                assert(forall|j: int| 0 <= j < held.len() ==> me.children[j] == held[j]@);
                child.fill_from_path(components, from + 1, page);
                self.children.push(child);
                proof {
                    lemma_view_children(*self);
                }
                assert(self.children@ =~= held.push(child));
                assert forall|j: int| 0 <= j < held.len() + 1 implies self@.children[j]
                    == me.children.push(
                    fresh_node(first@, page.spec_id()).filled(segments.skip(1), *page),
                )[j] by {
                    assert(self@.children[j] == self.children@[j]@);
                }
                assert(self@.children =~= me.children.push(
                    fresh_node(first@, page.spec_id()).filled(segments.skip(1), *page),
                ));
            },
        }
    }

    /// The site map of a profile: a root with the profile's title, and every
    /// page entered at the components of its path, in the order of the
    /// pages.
    pub fn from_pages(profile: &SiteProfile) -> (r: SiteMap)
        ensures
            r@ == (SiteMapView {
                title: profile.profile.title@,
                key: Seq::empty(),
                absolute_url: "/index.html"@,
                children: Seq::empty(),
                page: None,
                page_ids: Seq::empty(),
            }).with_pages(profile.pages@, profile.pages@.len()),
    {
        let mut map = SiteMap {
            title: profile.profile.title.clone(),
            key: String::new(),
            absolute_url: "/index.html".to_owned(),
            children: Vec::new(),
            page: None,
            page_ids: Vec::new(),
        };
        let ghost root = map@;
        assert(root.children =~= Seq::<SiteMapView>::empty());
        let mut i: usize = 0;
        while i < profile.pages.len()
            invariant
                i <= profile.pages@.len(),
                map@ == root.with_pages(profile.pages@, i as nat),
            decreases profile.pages@.len() - i,
        {
            let page = &profile.pages[i];
            let info = page.info();
            let components = components_of(info.path.as_str());
            assert(texts(components@).skip(0) =~= texts(components@));
            map.fill_from_path(&components, 0, page);
            i += 1;
        }
        map
    }
}

} // verus!
