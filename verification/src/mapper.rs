//! The site mapper: where each page lies on disk and under which URL, which
//! pages form a paginated group, which page owns which entry, and how one
//! page links to another.

use std::collections::HashMap;
use vstd::prelude::*;
use crate::config::{Config, Profile, ProfileView, UrlScheme};
use crate::generator::SiteProfile;
use crate::page::{anchor_texts, Page};
use crate::paths::{
    ensure_html, html_path, join_path, path_joined, relative_url, try_url_from, url_from,
};
use crate::text::{join2, join3};
use crate::util::{hash, spec_hash};

verus! {

broadcast use vstd::std_specs::hash::group_hash_axioms;

/// Where a page lies: on disk, and under the site's root.
#[derive(Clone, Debug)]
pub struct SiteMapperPath {
    pub disk: String,
    pub path: String,
}

/// The tables of the site mapper.
pub struct SiteMapper {
    pub page_paths: HashMap<u64, SiteMapperPath>,
    pub groups: HashMap<u64, Vec<(usize, u64)>>,
    pub page_groups: HashMap<u64, u64>,
    pub entry_anchors: HashMap<u64, String>,
    /// Maps each entry id to the id of the page that owns it.
    pub entry_pages: HashMap<u64, u64>,
    pub config: Config,
    pub page_profiles: HashMap<u64, u64>,
    pub profiles: HashMap<u64, Profile>,
    pub mapping: HashMap<u64, String>,
}

/// The tables of the site mapper as mathematical maps over plain values.
pub struct MapperView {
    /// Page id to the page's path on disk and its URL path.
    pub paths: Map<u64, (Seq<char>, Seq<char>)>,
    /// Group id to the group's pages, each with its page number.
    pub groups: Map<u64, Seq<(usize, u64)>>,
    /// Page id to the id of the page's group.
    pub page_groups: Map<u64, u64>,
    /// Entry id to the fragment that addresses the entry inside its page.
    pub anchors: Map<u64, Seq<char>>,
    /// Entry id to the id of the page that owns the entry.
    pub entry_pages: Map<u64, u64>,
    /// Page id to the id of the page's profile.
    pub page_profiles: Map<u64, u64>,
    /// Profile id to the profile.
    pub profiles: Map<u64, ProfileView>,
}

/// `m` after each of `entries` was given to the page `page_id`, in order.
pub open spec fn with_entries(m: Map<u64, u64>, entries: Seq<u64>, page_id: u64) -> Map<u64, u64>
    decreases entries.len(),
{
    if entries.len() == 0 {
        m
    } else {
        with_entries(m, entries.drop_last(), page_id).insert(entries.last(), page_id)
    }
}

/// `m` after each of `anchors` was recorded, in order.
pub open spec fn with_anchors(m: Map<u64, Seq<char>>, anchors: Seq<(u64, Seq<char>)>) -> Map<
    u64,
    Seq<char>,
>
    decreases anchors.len(),
{
    if anchors.len() == 0 {
        m
    } else {
        with_anchors(m, anchors.drop_last()).insert(anchors.last().0, anchors.last().1)
    }
}

/// The URL path of a page: the page's own path, inside the profile's folder
/// where profiles have folders, with the extension of the page format.
pub open spec fn page_url_path(page: Page, profile_name: Seq<char>, subfolder: bool) -> Seq<char> {
    html_path(
        if subfolder {
            path_joined(profile_name, page.spec_path())
        } else {
            page.spec_path()
        },
    )
}

/// The place of a page with the number `number` in `group`: before the
/// first page with a greater number.
pub open spec fn place_in_group(group: Seq<(usize, u64)>, number: usize) -> int
    decreases group.len(),
{
    if group.len() == 0 {
        0
    } else if group[0].0 > number {
        0
    } else {
        1 + place_in_group(group.skip(1), number)
    }
}

/// `group` with the page `id` entered at the place of its number.
pub open spec fn with_page(group: Seq<(usize, u64)>, number: usize, id: u64) -> Seq<(usize, u64)> {
    group.insert(place_in_group(group, number), (number, id))
}

/// Whether the pages of `group` stand in the order of their numbers.
pub open spec fn ascends(group: Seq<(usize, u64)>) -> bool {
    forall|i: int, j: int| 0 <= i < j < group.len() ==> (#[trigger] group[i]).0 <= (#[trigger] group[j]).0
}

/// The place of a page lies in the group or at its end; no page before it
/// has a greater number, and the page at it has one.
pub proof fn lemma_place_in_group(group: Seq<(usize, u64)>, number: usize)
    ensures
        0 <= place_in_group(group, number) <= group.len(),
        forall|i: int| 0 <= i < place_in_group(group, number) ==> (#[trigger] group[i]).0 <= number,
        place_in_group(group, number) < group.len() ==> group[place_in_group(group, number)].0
            > number,
    decreases group.len(),
{
    if group.len() > 0 && group[0].0 <= number {
        lemma_place_in_group(group.skip(1), number);
        let p = place_in_group(group.skip(1), number);
        assert forall|i: int| 0 <= i < p + 1 implies (#[trigger] group[i]).0 <= number by {
            if i > 0 {
                assert(group.skip(1)[i - 1] == group[i]);
            }
        }
        if p + 1 < group.len() {
            assert(group.skip(1)[p] == group[p + 1]);
        }
    }
}

/// A group whose pages stand in the order of their numbers stays in that
/// order when a page is entered, whatever its number: the pages of a group
/// are ordered by page number, in whatever order they are recorded.
pub proof fn lemma_with_page_ascends(group: Seq<(usize, u64)>, number: usize, id: u64)
    requires
        ascends(group),
    ensures
        ascends(with_page(group, number, id)),
        with_page(group, number, id).len() == group.len() + 1,
        with_page(group, number, id).contains((number, id)),
        forall|k: int| 0 <= k < group.len() ==> with_page(group, number, id).contains(#[trigger] group[k]),
{
    lemma_place_in_group(group, number);
    let p = place_in_group(group, number);
    let r = with_page(group, number, id);
    assert forall|i: int, j: int| 0 <= i < j < r.len() implies (#[trigger] r[i]).0 <= (
    #[trigger] r[j]).0 by {
        if j < p {
            assert(r[i] == group[i] && r[j] == group[j]);
        } else if i > p {
            assert(r[i] == group[i - 1] && r[j] == group[j - 1]);
        } else if i < p && j > p {
            assert(r[i] == group[i] && r[j] == group[j - 1]);
        } else if j == p {
            assert(r[i] == group[i]);
        } else {
            assert(r[j] == group[j - 1]);
            assert(group[p].0 > number);
            if j - 1 > p {
                assert(group[p].0 <= group[j - 1].0);
            }
        }
    }
    assert(r[p] == (number, id));
    assert forall|k: int| 0 <= k < group.len() implies r.contains(#[trigger] group[k]) by {
        if k < p {
            assert(r[k] == group[k]);
        } else {
            assert(r[k + 1] == group[k]);
        }
    }
}

impl MapperView {
    /// Whether the pages of every group stand in the order of their numbers.
    pub open spec fn groups_ascend(self) -> bool {
        forall|g: u64| #[trigger] self.groups.contains_key(g) ==> ascends(self.groups[g])
    }

    /// The tables after `page` of the profile called `profile_name` was
    /// recorded.
    pub open spec fn record_page(
        self,
        page: Page,
        profile_name: Seq<char>,
        subfolder: bool,
        output_dir: Seq<char>,
    ) -> MapperView {
        let id = page.spec_id();
        let url = page_url_path(page, profile_name, subfolder);
        MapperView {
            paths: self.paths.insert(id, (path_joined(output_dir, url), url)),
            groups: match page.spec_pagination() {
                Some(p) => self.groups.insert(
                    page.spec_group_id(),
                    with_page(
                        if self.groups.contains_key(page.spec_group_id()) {
                            self.groups[page.spec_group_id()]
                        } else {
                            Seq::empty()
                        },
                        p.current_page,
                        id,
                    ),
                ),
                None => self.groups,
            },
            page_groups: match page.spec_pagination() {
                Some(_) => self.page_groups.insert(id, page.spec_group_id()),
                None => self.page_groups,
            },
            anchors: with_anchors(self.anchors, page.spec_anchors()),
            entry_pages: with_entries(self.entry_pages, page.spec_entries(), id),
            page_profiles: self.page_profiles.insert(id, spec_hash(profile_name)),
            profiles: self.profiles,
        }
    }

    /// The tables after the first `n` of `pages` were recorded, in order.
    pub open spec fn record_pages(
        self,
        pages: Seq<Page>,
        n: nat,
        profile_name: Seq<char>,
        subfolder: bool,
        output_dir: Seq<char>,
    ) -> MapperView
        decreases n,
    {
        if n == 0 || n > pages.len() {
            self
        } else {
            self.record_pages(
                pages,
                (n - 1) as nat,
                profile_name,
                subfolder,
                output_dir,
            ).record_page(pages[n - 1], profile_name, subfolder, output_dir)
        }
    }

    /// Whether a link from the entry `from_id` to the entry `to_id` can be
    /// resolved: the entries' pages and their paths are on record, and under
    /// the relative scheme a relative path leads from the one to the other.
    pub open spec fn can_link(self, relative: bool, from_id: u64, to_id: u64) -> bool {
        &&& self.entry_pages.contains_key(to_id)
        &&& self.paths.contains_key(self.entry_pages[to_id])
        &&& relative ==> {
            &&& self.entry_pages.contains_key(from_id)
            &&& self.paths.contains_key(self.entry_pages[from_id])
            &&& relative_url(
                self.paths[self.entry_pages[from_id]].1,
                self.paths[self.entry_pages[to_id]].1,
            ) is Some
        }
    }

    /// Whether the page `from_page` can link to the page of the entry
    /// `to_entry`: both pages are on record, and a relative path leads from
    /// the one to the other.
    pub open spec fn can_reach(self, from_page: u64, to_entry: u64) -> bool {
        &&& self.paths.contains_key(from_page)
        &&& self.entry_pages.contains_key(to_entry)
        &&& self.paths.contains_key(self.entry_pages[to_entry])
        &&& relative_url(self.paths[from_page].1, self.paths[self.entry_pages[to_entry]].1) is Some
    }

    /// The URL by which the entry `from_id` links to the entry `to_id`: the
    /// way to the page that owns `to_id`, relative to the page of `from_id`
    /// or behind the base URL, and the entry's anchor where it has one.
    pub open spec fn entry_url(self, scheme: UrlScheme, from_id: u64, to_id: u64) -> Seq<char> {
        let to_path = self.paths[self.entry_pages[to_id]].1;
        let url = match scheme {
            UrlScheme::Relative => relative_url(
                self.paths[self.entry_pages[from_id]].1,
                to_path,
            ).unwrap(),
            UrlScheme::Absolute { base_url } => base_url@ + to_path,
        };
        if self.anchors.contains_key(to_id) {
            url + "#"@ + self.anchors[to_id]
        } else {
            url
        }
    }
}

impl View for SiteMapper {
    type V = MapperView;

    open spec fn view(&self) -> MapperView {
        MapperView {
            paths: self.page_paths@.map_values(|p: SiteMapperPath| (p.disk@, p.path@)),
            groups: self.groups@.map_values(|g: Vec<(usize, u64)>| g@),
            page_groups: self.page_groups@,
            anchors: self.entry_anchors@.map_values(|a: String| a@),
            entry_pages: self.entry_pages@,
            page_profiles: self.page_profiles@,
            profiles: self.profiles@.map_values(|p: Profile| p@),
        }
    }
}

/// Gives each of `entries` to the page `page_id`.
fn insert_entries(m: &mut HashMap<u64, u64>, entries: &Vec<u64>, page_id: u64)
    ensures
        final(m)@ == with_entries(old(m)@, entries@, page_id),
{
    let ghost start = m@;
    let mut i: usize = 0;
    while i < entries.len()
        invariant
            i <= entries@.len(),
            m@ == with_entries(start, entries@.take(i as int), page_id),
        decreases entries@.len() - i,
    {
        m.insert(entries[i], page_id);
        proof {
            assert(entries@.take(i + 1).drop_last() =~= entries@.take(i as int));
        }
        i += 1;
    }
    assert(entries@.take(entries@.len() as int) =~= entries@);
}

/// Records each of `anchors`.
fn insert_anchors(m: &mut HashMap<u64, String>, anchors: Vec<(u64, String)>)
    ensures
        final(m)@.map_values(|a: String| a@) == with_anchors(
            old(m)@.map_values(|a: String| a@),
            anchor_texts(anchors@),
        ),
{
    let ghost start = m@.map_values(|a: String| a@);
    let ghost all = anchor_texts(anchors@);
    let mut i: usize = 0;
    while i < anchors.len()
        invariant
            i <= anchors@.len(),
            all == anchor_texts(anchors@),
            m@.map_values(|a: String| a@) == with_anchors(start, all.take(i as int)),
        decreases anchors@.len() - i,
    {
        let ghost before = m@;
        m.insert(anchors[i].0, anchors[i].1.clone());
        proof {
            assert(all.take(i + 1).drop_last() =~= all.take(i as int));
            assert(all.take(i + 1).last() == (anchors@[i as int].0, anchors@[i as int].1@));
            assert(m@.map_values(|a: String| a@) =~= before.map_values(|a: String| a@).insert(
                anchors@[i as int].0,
                anchors@[i as int].1@,
            ));
        }
        i += 1;
    }
    assert(all.take(all.len() as int) =~= all);
}

/// Recording a page keeps the pages of every group in the order of their
/// numbers.
pub proof fn lemma_record_page_ascends(
    before: MapperView,
    page: Page,
    profile_name: Seq<char>,
    subfolder: bool,
    output_dir: Seq<char>,
)
    requires
        before.groups_ascend(),
    ensures
        before.record_page(page, profile_name, subfolder, output_dir).groups_ascend(),
{
    let after = before.record_page(page, profile_name, subfolder, output_dir);
    match page.spec_pagination() {
        Some(p) => {
            let g = page.spec_group_id();
            let held = if before.groups.contains_key(g) {
                before.groups[g]
            } else {
                Seq::empty()
            };
            lemma_with_page_ascends(held, p.current_page, page.spec_id());
            assert forall|k: u64| #[trigger] after.groups.contains_key(k) implies ascends(
                after.groups[k],
            ) by {
                if k != g {
                    assert(before.groups.contains_key(k));
                }
            }
        },
        None => {},
    }
}

/// Giving entries to a page makes the page the owner of each of them and
/// leaves every other entry with its owner.
pub proof fn lemma_with_entries(m: Map<u64, u64>, entries: Seq<u64>, page_id: u64, x: u64)
    ensures
        entries.contains(x) ==> with_entries(m, entries, page_id).contains_key(x) && with_entries(
            m,
            entries,
            page_id,
        )[x] == page_id,
        !entries.contains(x) ==> with_entries(m, entries, page_id).contains_key(x)
            == m.contains_key(x) && (m.contains_key(x) ==> with_entries(m, entries, page_id)[x]
            == m[x]),
    decreases entries.len(),
{
    if entries.len() > 0 {
        lemma_with_entries(m, entries.drop_last(), page_id, x);
        if entries.contains(x) {
            let k = choose|k: int| 0 <= k < entries.len() && entries[k] == x;
            if k < entries.len() - 1 {
                assert(entries.drop_last()[k] == x);
            }
        } else {
            if entries.drop_last().contains(x) {
                let k = choose|k: int|
                    0 <= k < entries.drop_last().len() && entries.drop_last()[k] == x;
                assert(entries[k] == x);
            }
            assert(entries[entries.len() - 1] != x);
        }
    }
}

/// Whether one of `anchors` addresses the entry `x`.
pub open spec fn names_anchor(anchors: Seq<(u64, Seq<char>)>, x: u64) -> bool {
    exists|i: int| 0 <= i < anchors.len() && (#[trigger] anchors[i]).0 == x
}

/// Whether every one of `anchors` that addresses the entry `x` does so by
/// the fragment `a`.
pub open spec fn agrees_on_anchor(anchors: Seq<(u64, Seq<char>)>, x: u64, a: Seq<char>) -> bool {
    forall|i: int| 0 <= i < anchors.len() && (#[trigger] anchors[i]).0 == x ==> anchors[i].1 == a
}

/// Recording anchors that agree on the fragment of an entry leaves the entry
/// with that fragment where one of them addresses it, and as it was where
/// none does.
pub proof fn lemma_with_anchors(
    m: Map<u64, Seq<char>>,
    anchors: Seq<(u64, Seq<char>)>,
    x: u64,
    a: Seq<char>,
)
    requires
        agrees_on_anchor(anchors, x, a),
    ensures
        names_anchor(anchors, x) ==> with_anchors(m, anchors).contains_key(x) && with_anchors(
            m,
            anchors,
        )[x] == a,
        !names_anchor(anchors, x) ==> with_anchors(m, anchors).contains_key(x) == m.contains_key(x)
            && (m.contains_key(x) ==> with_anchors(m, anchors)[x] == m[x]),
    decreases anchors.len(),
{
    if anchors.len() > 0 {
        let rest = anchors.drop_last();
        assert forall|i: int| 0 <= i < rest.len() && (#[trigger] rest[i]).0 == x implies rest[i].1
            == a by {
            assert(rest[i] == anchors[i]);
        }
        lemma_with_anchors(m, rest, x, a);
        if names_anchor(rest, x) {
            let k = choose|k: int| 0 <= k < rest.len() && (#[trigger] rest[k]).0 == x;
            assert(anchors[k].0 == x);
        }
        if anchors.last().0 == x {
            assert(anchors[anchors.len() - 1].0 == x);
        } else if names_anchor(anchors, x) {
            let k = choose|k: int| 0 <= k < anchors.len() && (#[trigger] anchors[k]).0 == x;
            assert(rest[k].0 == x);
        }
    }
}

/// A link to an entry leads to the page that owns it: after the first `n`
/// of `pages` were recorded, an entry that the page at `i` owns and no later
/// page owns is on record as that page's, the page's URL path is on record
/// where no later page takes its id, and so the way to the entry is the way
/// to that page, and to no other page of its sequence. Where the pages that
/// address the entry agree on its fragment, that fragment is its anchor.
pub proof fn lemma_recorded_owner(
    start: MapperView,
    pages: Seq<Page>,
    n: nat,
    profile_name: Seq<char>,
    subfolder: bool,
    output_dir: Seq<char>,
    i: int,
    x: u64,
    a: Seq<char>,
)
    requires
        0 <= i < n <= pages.len(),
        pages[i].spec_entries().contains(x),
        forall|j: int| i < j < n ==> !(#[trigger] pages[j]).spec_entries().contains(x),
        forall|j: int| i < j < n ==> (#[trigger] pages[j]).spec_id() != pages[i].spec_id(),
        forall|j: int| i <= j < n ==> agrees_on_anchor((#[trigger] pages[j]).spec_anchors(), x, a),
        names_anchor(pages[i].spec_anchors(), x),
    ensures
        ({
            let after = start.record_pages(pages, n, profile_name, subfolder, output_dir);
            &&& after.entry_pages.contains_key(x)
            &&& after.entry_pages[x] == pages[i].spec_id()
            &&& after.paths.contains_key(after.entry_pages[x])
            &&& after.paths[after.entry_pages[x]].1 == page_url_path(
                pages[i],
                profile_name,
                subfolder,
            )
            &&& after.anchors.contains_key(x)
            &&& after.anchors[x] == a
        }),
    decreases n,
{
    let before = start.record_pages(pages, (n - 1) as nat, profile_name, subfolder, output_dir);
    let page = pages[n - 1];
    lemma_with_entries(before.entry_pages, page.spec_entries(), page.spec_id(), x);
    assert(agrees_on_anchor(page.spec_anchors(), x, a));
    lemma_with_anchors(before.anchors, page.spec_anchors(), x, a);
    if i < n - 1 {
        lemma_recorded_owner(
            start,
            pages,
            (n - 1) as nat,
            profile_name,
            subfolder,
            output_dir,
            i,
            x,
            a,
        );
        assert(!pages[n - 1].spec_entries().contains(x));
        assert(pages[n - 1].spec_id() != pages[i].spec_id());
    }
}

/// After the first `n` of `pages` were recorded, the pages of every group
/// stand in the order of their numbers, in whatever order the pages came;
/// and every paginated page among them stands in its group, with its number.
pub proof fn lemma_record_pages_groups(
    start: MapperView,
    pages: Seq<Page>,
    n: nat,
    profile_name: Seq<char>,
    subfolder: bool,
    output_dir: Seq<char>,
)
    requires
        start.groups_ascend(),
        n <= pages.len(),
    ensures
        start.record_pages(pages, n, profile_name, subfolder, output_dir).groups_ascend(),
        forall|i: int|
            0 <= i < n && (#[trigger] pages[i]).spec_pagination() is Some ==> {
                let after = start.record_pages(pages, n, profile_name, subfolder, output_dir);
                after.groups.contains_key(pages[i].spec_group_id())
                    && after.groups[pages[i].spec_group_id()].contains(
                    (pages[i].spec_pagination().unwrap().current_page, pages[i].spec_id()),
                )
            },
        forall|g: u64| #[trigger]
            start.groups.contains_key(g) ==> start.record_pages(
                pages,
                n,
                profile_name,
                subfolder,
                output_dir,
            ).groups.contains_key(g),
    decreases n,
{
    if n > 0 {
        lemma_record_pages_groups(start, pages, (n - 1) as nat, profile_name, subfolder, output_dir);
        let before = start.record_pages(pages, (n - 1) as nat, profile_name, subfolder, output_dir);
        let page = pages[n - 1];
        let after = before.record_page(page, profile_name, subfolder, output_dir);
        lemma_record_page_ascends(before, page, profile_name, subfolder, output_dir);
        match page.spec_pagination() {
            Some(p) => {
                let g = page.spec_group_id();
                let held = if before.groups.contains_key(g) {
                    before.groups[g]
                } else {
                    Seq::empty()
                };
                lemma_with_page_ascends(held, p.current_page, page.spec_id());
                assert forall|i: int|
                    0 <= i < n && (#[trigger] pages[i]).spec_pagination() is Some implies after.groups.contains_key(
                    pages[i].spec_group_id(),
                ) && after.groups[pages[i].spec_group_id()].contains(
                    (pages[i].spec_pagination().unwrap().current_page, pages[i].spec_id()),
                ) by {
                    if i < n - 1 {
                        let gi = pages[i].spec_group_id();
                        let pair = (
                            pages[i].spec_pagination().unwrap().current_page,
                            pages[i].spec_id(),
                        );
                        assert(before.groups.contains_key(gi) && before.groups[gi].contains(pair));
                        if gi == g {
                            let k = choose|k: int| 0 <= k < held.len() && held[k] == pair;
                            assert(after.groups[g].contains(held[k]));
                        }
                    }
                }
            },
            None => {
                assert forall|i: int|
                    0 <= i < n && (#[trigger] pages[i]).spec_pagination() is Some implies after.groups.contains_key(
                    pages[i].spec_group_id(),
                ) && after.groups[pages[i].spec_group_id()].contains(
                    (pages[i].spec_pagination().unwrap().current_page, pages[i].spec_id()),
                ) by {
                    assert(i < n - 1);
                }
            },
        }
    }
}

/// Enters the page `page_id` into the group `group_id`, at the place of its
/// number.
fn enter_in_group(
    groups: &mut HashMap<u64, Vec<(usize, u64)>>,
    group_id: u64,
    number: usize,
    page_id: u64,
)
    ensures
        final(groups)@.map_values(|g: Vec<(usize, u64)>| g@) == old(groups)@.map_values(
            |g: Vec<(usize, u64)>| g@,
        ).insert(
            group_id,
            with_page(
                if old(groups)@.contains_key(group_id) {
                    old(groups)@[group_id]@
                } else {
                    Seq::empty()
                },
                number,
                page_id,
            ),
        ),
{
    let ghost before = groups@;
    let mut group = match groups.remove(&group_id) {
        Some(g) => g,
        None => Vec::new(),
    };
    let ghost held = group@;
    let mut at: usize = 0;
    assert(held.skip(0) =~= held);
    while at < group.len() && group[at].0 <= number
        invariant
            group@ == held,
            at <= held.len(),
            place_in_group(held, number) == at + place_in_group(held.skip(at as int), number),
        decreases held.len() - at,
    {
        proof {
            assert(held.skip(at as int)[0] == held[at as int]);
            assert(held.skip(at as int).skip(1) =~= held.skip(at + 1));
        }
        at += 1;
    }
    proof {
        if at < held.len() {
            assert(held.skip(at as int)[0] == held[at as int]);
        }
        assert(place_in_group(held, number) == at);
    }
    group.insert(at, (number, page_id));
    groups.insert(group_id, group);
    assert(groups@.map_values(|g: Vec<(usize, u64)>| g@) =~= before.map_values(
        |g: Vec<(usize, u64)>| g@,
    ).insert(
        group_id,
        with_page(
            if before.contains_key(group_id) {
                before[group_id]@
            } else {
                Seq::empty()
            },
            number,
            page_id,
        ),
    ));
}

impl SiteMapper {
    /// Records one page of the profile called `profile_name`: its paths, its
    /// place in its group if it is paginated, the entries it owns and its
    /// anchors.
    pub fn record_page(&mut self, page: &Page, profile_name: &str)
        requires
            old(self).wf(),
        ensures
            final(self).wf(),
            final(self).config == old(self).config,
            final(self)@ == old(self)@.record_page(
                *page,
                profile_name@,
                old(self).config.uses_subfolder(),
                old(self).config.output_dir@,
            ),
    {
        let ghost before = self@;
        let ghost want = before.record_page(
            *page,
            profile_name@,
            self.config.uses_subfolder(),
            self.config.output_dir@,
        );
        let info = page.info();
        let page_id = page.id();
        let plain = if self.config.profile_subfolder() {
            join_path(profile_name, info.path.as_str())
        } else {
            info.path
        };
        let url = ensure_html(plain.as_str());
        let disk = join_path(self.config.output_dir.as_str(), url.as_str());
        self.mapping.insert(page_id, url.clone());
        self.page_paths.insert(page_id, SiteMapperPath { disk, path: url });
        if let Some(pagination) = info.pagination {
            let group_id = page.group_id();
            self.page_groups.insert(page_id, group_id);
            enter_in_group(&mut self.groups, group_id, pagination.current_page, page_id);
        }
        let entries = page.entries();
        insert_entries(&mut self.entry_pages, &entries, page_id);
        insert_anchors(&mut self.entry_anchors, page.anchors());
        self.page_profiles.insert(page_id, hash(profile_name));
        proof {
            assert(self@.paths =~= want.paths);
            assert(self@.groups =~= want.groups);
            assert(self@.page_groups =~= want.page_groups);
            assert(self@.anchors =~= want.anchors);
            assert(self@.entry_pages =~= want.entry_pages);
            assert(self@.page_profiles =~= want.page_profiles);
            assert(self@.profiles =~= want.profiles);
            assert(self.mapping@.dom() =~= self.page_paths@.dom());
            lemma_record_page_ascends(
                before,
                *page,
                profile_name@,
                self.config.uses_subfolder(),
                self.config.output_dir@,
            );
        }
    }

    /// Records a profile and every page of it, in the order of the pages.
    /// What earlier profiles recorded stays, unless a page of this profile
    /// takes the same id.
    pub fn record_profile(&mut self, p: &SiteProfile)
        requires
            old(self).wf(),
        ensures
            final(self).wf(),
            final(self).config == old(self).config,
            final(self)@ == (MapperView {
                profiles: old(self)@.profiles.insert(spec_hash(p.profile.name@), p.profile@),
                ..old(self)@
            }).record_pages(
                p.pages@,
                p.pages@.len(),
                p.profile.name@,
                old(self).config.uses_subfolder(),
                old(self).config.output_dir@,
            ),
    {
        let ghost before = self@;
        let ghost config = self.config;
        let profile_id = hash(p.profile.name.as_str());
        self.profiles.insert(profile_id, p.profile.duplicate());
        let ghost start = self@;
        assert(start.profiles =~= before.profiles.insert(profile_id, p.profile@));
        assert(start.paths =~= before.paths);
        assert(start.groups =~= before.groups);
        assert(start.anchors =~= before.anchors);
        assert(start == (MapperView { profiles: start.profiles, ..before }));
        let mut i: usize = 0;
        while i < p.pages.len()
            invariant
                i <= p.pages@.len(),
                self.wf(),
                self.config == config,
                self@ == start.record_pages(
                    p.pages@,
                    i as nat,
                    p.profile.name@,
                    config.uses_subfolder(),
                    config.output_dir@,
                ),
            decreases p.pages@.len() - i,
        {
            self.record_page(&p.pages[i], p.profile.name.as_str());
            i += 1;
        }
    }

    /// The table of URL paths mirrors the table of page paths, and the pages
    /// of every group stand in the order of their numbers.
    pub open spec fn wf(&self) -> bool {
        &&& self.mapping@.dom() == self.page_paths@.dom()
        &&& forall|id: u64| #[trigger]
            self.mapping@.contains_key(id) ==> self.mapping@[id]@ == self.page_paths@[id].path@
        &&& self@.groups_ascend()
    }

    /// Whether links are relative.
    pub open spec fn relative(&self) -> bool {
        self.config.url_scheme is Relative
    }

    /// A mapper with empty tables.
    pub fn new(config: Config) -> (r: SiteMapper)
        ensures
            r.wf(),
            r.config == config,
            r@.paths == Map::<u64, (Seq<char>, Seq<char>)>::empty(),
            r@.groups == Map::<u64, Seq<(usize, u64)>>::empty(),
            r@.page_groups == Map::<u64, u64>::empty(),
            r@.anchors == Map::<u64, Seq<char>>::empty(),
            r@.entry_pages == Map::<u64, u64>::empty(),
            r@.page_profiles == Map::<u64, u64>::empty(),
            r@.profiles == Map::<u64, ProfileView>::empty(),
    {
        let r = SiteMapper {
            page_paths: HashMap::new(),
            entry_anchors: HashMap::new(),
            entry_pages: HashMap::new(),
            config,
            page_profiles: HashMap::new(),
            profiles: HashMap::new(),
            page_groups: HashMap::new(),
            groups: HashMap::new(),
            mapping: HashMap::new(),
        };
        assert(r@.paths =~= Map::<u64, (Seq<char>, Seq<char>)>::empty());
        assert(r@.groups =~= Map::<u64, Seq<(usize, u64)>>::empty());
        assert(r@.anchors =~= Map::<u64, Seq<char>>::empty());
        assert(r@.profiles =~= Map::<u64, ProfileView>::empty());
        r
    }

    /// The URL path of every recorded page, by page id.
    pub fn page_path_mapping(&self) -> (r: HashMap<u64, String>)
        requires
            self.wf(),
        ensures
            r@.dom() == self@.paths.dom(),
            forall|id: u64| #[trigger] r@.contains_key(id) ==> r@[id]@ == self@.paths[id].1,
    {
        let r = self.mapping.clone();
        assert(self@.paths.dom() =~= self.page_paths@.dom());
        r
    }

    /// Where the asset `item` is written: below `assets` in the output
    /// directory.
    pub fn asset_path(&self, item: &str) -> (r: String)
        ensures
            r@ == path_joined(path_joined(self.config.output_dir@, "assets"@), item@),
    {
        let dir = join_path(self.config.output_dir.as_str(), "assets");
        join_path(dir.as_str(), item)
    }

    /// The URL from the page whose path `mapping` records under `from_id` to
    /// the page or file at `item`.
    pub fn url_with_mapping(mapping: &HashMap<u64, String>, from_id: u64, item: &str) -> (r:
        String)
        requires
            mapping@.contains_key(from_id),
            relative_url(mapping@[from_id]@, item@) is Some,
        ensures
            Some(r@) == relative_url(mapping@[from_id]@, item@),
    {
        let from = mapping.get(&from_id);
        match from {
            Some(path) => url_from(path.as_str(), item),
            None => String::new(),
        }
    }

    /// The URL from the page whose path `mapping` records under `from_id` to
    /// the asset `item`.
    pub fn asset_url_with_mapping(mapping: &HashMap<u64, String>, from_id: u64, item: &str) -> (r:
        String)
        requires
            mapping@.contains_key(from_id),
            relative_url(mapping@[from_id]@, path_joined("/assets"@, item@)) is Some,
        ensures
            Some(r@) == relative_url(mapping@[from_id]@, path_joined("/assets"@, item@)),
    {
        let dest = join_path("/assets", item);
        Self::url_with_mapping(mapping, from_id, dest.as_str())
    }

    /// The URL from the page `from_id` to the asset `item`.
    pub fn asset_url(&self, from_id: u64, item: &str) -> (r: String)
        requires
            self@.paths.contains_key(from_id),
            relative_url(self@.paths[from_id].1, path_joined("/assets"@, item@)) is Some,
        ensures
            Some(r@) == relative_url(self@.paths[from_id].1, path_joined("/assets"@, item@)),
    {
        let dest = join_path("/assets", item);
        match self.page_paths.get(&from_id) {
            Some(from) => url_from(from.path.as_str(), dest.as_str()),
            None => String::new(),
        }
    }

    /// The URL from the page whose path `mapping` records under `from_id` to
    /// the page or file at `item`, or `None` where `mapping` does not hold
    /// the page or no relative path leads there.
    pub fn try_url_with_mapping(mapping: &HashMap<u64, String>, from_id: u64, item: &str) -> (r:
        Option<String>)
        ensures
            match r {
                Some(url) => mapping@.contains_key(from_id) && Some(url@) == relative_url(
                    mapping@[from_id]@,
                    item@,
                ),
                None => !mapping@.contains_key(from_id) || relative_url(mapping@[from_id]@, item@)
                    is None,
            },
    {
        match mapping.get(&from_id) {
            Some(path) => match try_url_from(path.as_str(), item) {
                Some(_) => Some(Self::url_with_mapping(mapping, from_id, item)),
                None => None,
            },
            None => None,
        }
    }

    /// The URL from the page whose path `mapping` records under `from_id` to
    /// the asset `item`, or `None` where `mapping` does not hold the page or
    /// no relative path leads there.
    pub fn try_asset_url_with_mapping(mapping: &HashMap<u64, String>, from_id: u64, item: &str)
        -> (r: Option<String>)
        ensures
            match r {
                Some(url) => mapping@.contains_key(from_id) && Some(url@) == relative_url(
                    mapping@[from_id]@,
                    path_joined("/assets"@, item@),
                ),
                None => !mapping@.contains_key(from_id) || relative_url(
                    mapping@[from_id]@,
                    path_joined("/assets"@, item@),
                ) is None,
            },
    {
        let dest = join_path("/assets", item);
        match mapping.get(&from_id) {
            Some(path) => match try_url_from(path.as_str(), dest.as_str()) {
                Some(_) => Some(Self::asset_url_with_mapping(mapping, from_id, item)),
                None => None,
            },
            None => None,
        }
    }

    /// The URL from the page `from_id` to the asset `item`, or `None` where
    /// the page is not on record or no relative path leads there.
    pub fn try_asset_url(&self, from_id: u64, item: &str) -> (r: Option<String>)
        ensures
            match r {
                Some(url) => self@.paths.contains_key(from_id) && Some(url@) == relative_url(
                    self@.paths[from_id].1,
                    path_joined("/assets"@, item@),
                ),
                None => !self@.paths.contains_key(from_id) || relative_url(
                    self@.paths[from_id].1,
                    path_joined("/assets"@, item@),
                ) is None,
            },
    {
        let dest = join_path("/assets", item);
        match self.page_paths.get(&from_id) {
            Some(from) => match try_url_from(from.path.as_str(), dest.as_str()) {
                Some(_) => Some(self.asset_url(from_id, item)),
                None => None,
            },
            None => None,
        }
    }

    /// The URL from the page `from_page` to the page that owns the entry
    /// `to_entry`, or `None` where one of them is not on record or no
    /// relative path leads there.
    pub fn try_page_to_entry_url(&self, from_page: &u64, to_entry: &u64) -> (r: Option<String>)
        ensures
            match r {
                Some(url) => self@.can_reach(*from_page, *to_entry) && Some(url@) == relative_url(
                    self@.paths[*from_page].1,
                    self@.paths[self@.entry_pages[*to_entry]].1,
                ),
                None => !self@.can_reach(*from_page, *to_entry),
            },
    {
        let from = self.page_paths.get(from_page);
        let to_page = self.entry_pages.get(to_entry);
        match (from, to_page) {
            (Some(from), Some(to_page)) => match self.page_paths.get(to_page) {
                Some(to) => match try_url_from(from.path.as_str(), to.path.as_str()) {
                    Some(_) => Some(self.page_to_entry_url(from_page, to_entry)),
                    None => None,
                },
                None => None,
            },
            _ => None,
        }
    }

    /// The URL from the page `from_page` to the page that owns the entry
    /// `to_entry`.
    pub fn page_to_entry_url(&self, from_page: &u64, to_entry: &u64) -> (r: String)
        requires
            self@.can_reach(*from_page, *to_entry),
        ensures
            Some(r@) == relative_url(
                self@.paths[*from_page].1,
                self@.paths[self@.entry_pages[*to_entry]].1,
            ),
    {
        let from = self.page_paths.get(from_page);
        let to_page = self.entry_pages.get(to_entry);
        match (from, to_page) {
            (Some(from), Some(to_page)) => match self.page_paths.get(to_page) {
                Some(to) => url_from(from.path.as_str(), to.path.as_str()),
                None => String::new(),
            },
            _ => String::new(),
        }
    }

    /// The URL by which the entry `from_id` links to the entry `to_id`. The
    /// result depends on the recorded tables alone.
    pub fn url_for_entry(&self, from_id: u64, to_id: u64) -> (r: String)
        requires
            self@.can_link(self.relative(), from_id, to_id),
        ensures
            r@ == self@.entry_url(self.config.url_scheme, from_id, to_id),
    {
        match self.try_url_for_entry(from_id, to_id) {
            Some(url) => url,
            None => String::new(),
        }
    }

    /// The URL by which the entry `from_id` links to the entry `to_id`, or
    /// `None` where the link cannot be resolved.
    pub fn try_url_for_entry(&self, from_id: u64, to_id: u64) -> (r: Option<String>)
        ensures
            r is Some == self@.can_link(self.relative(), from_id, to_id),
            r matches Some(url) ==> url@ == self@.entry_url(
                self.config.url_scheme,
                from_id,
                to_id,
            ),
    {
        let to_path = match self.entry_pages.get(&to_id) {
            Some(page) => match self.page_paths.get(page) {
                Some(path) => path,
                None => {
                    return None;
                },
            },
            None => {
                return None;
            },
        };
        let url = match &self.config.url_scheme {
            UrlScheme::Relative => {
                let from_path = match self.entry_pages.get(&from_id) {
                    Some(page) => match self.page_paths.get(page) {
                        Some(path) => path,
                        None => {
                            return None;
                        },
                    },
                    None => {
                        return None;
                    },
                };
                match try_url_from(from_path.path.as_str(), to_path.path.as_str()) {
                    Some(url) => url,
                    None => {
                        return None;
                    },
                }
            },
            UrlScheme::Absolute { base_url } => join2(base_url.as_str(), to_path.path.as_str()),
        };
        match self.entry_anchors.get(&to_id) {
            Some(anchor) => Some(join3(url.as_str(), "#", anchor.as_str())),
            None => Some(url),
        }
    }
}

} // verus!
