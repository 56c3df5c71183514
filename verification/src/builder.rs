//! Building pages: the listings of the categories, and the pages and
//! indexes that the page builders synthesize for scopes and masks.

use vstd::prelude::*;
use crate::config::{Config, PaginationMode};
use crate::dossier::{named_id, CategoryView, Dossier, DossierView, sources_of};
use crate::entry::{DocEntry, EmptyDocEntry};
use crate::order::{by_keys, sort_by_keys, sorted_positions};
use crate::page::{
    anchor_texts, page_views, CategoryListPage, IndexPage, MaskPage, Page, PageView,
    PaginationInfo, ScopePage,
};
use crate::text::{decimal, decimal_string_u64, join3};
use crate::util::{hash, page_count, page_items, page_made, paginate, spec_hash};

verus! {

broadcast use vstd::std_specs::hash::group_hash_axioms;

/// The kinds of synthesized list.
#[derive(Debug, Clone, Copy, PartialEq, Eq, Structural)]
pub enum ListKind {
    Scopes,
    Masks,
}

impl ListKind {
    /// The id of the category that the kind's entries belong to.
    pub open spec fn spec_category_id(self) -> u64 {
        match self {
            ListKind::Scopes => spec_hash("SCOPES"@),
            ListKind::Masks => spec_hash("MASKS"@),
        }
    }

    /// The id of the category that the kind's entries belong to.
    pub fn category_id(self) -> (r: u64)
        ensures
            r == self.spec_category_id(),
    {
        match self {
            ListKind::Scopes => ScopePage::category_id(),
            ListKind::Masks => MaskPage::category_id(),
        }
    }

    /// The id of the entry that stands for the item called `name`.
    pub fn entry_id_for_name(self, name: &str) -> (r: u64)
        ensures
            r == named_id(self == ListKind::Masks, name@),
    {
        match self {
            ListKind::Scopes => ScopePage::entry_id_for_name(name),
            ListKind::Masks => MaskPage::entry_id_for_name(name),
        }
    }
}

/// A page builder: it synthesizes an entry and pages for each item of one
/// kind, and the index page of the kind.
pub struct GenericListPageBuilder {
    pub kind: ListKind,
    /// The items, by the ids of their names in the string table.
    pub items: Vec<usize>,
}

/// The entries of a list with their names, each as text.
pub open spec fn named(d: DossierView, ids: Seq<u64>) -> Seq<(u64, Seq<char>)> {
    ids.map_values(|id: u64| (id, d.entries[id].spec_name()))
}

/// The ids of `pairs` in the order of the names that stand beside them.
/// Ids with the same name keep their order.
pub open spec fn sorted_by_name(pairs: Seq<(u64, Seq<char>)>) -> Seq<u64> {
    sorted_positions(
        pairs.len() as int,
        by_keys(pairs.map_values(|p: (u64, Seq<char>)| seq![p.1])),
    ).map_values(|i: usize| pairs[i as int].0)
}

/// `pairs` in the order of their names. Pairs with the same name keep their
/// order.
pub open spec fn sorted_pairs(pairs: Seq<(u64, Seq<char>)>) -> Seq<(u64, Seq<char>)> {
    sorted_positions(
        pairs.len() as int,
        by_keys(pairs.map_values(|p: (u64, Seq<char>)| seq![p.1])),
    ).map_values(|i: usize| pairs[i as int])
}

/// The id of the page of the entry `entry_id` in the category
/// `category_id`.
pub open spec fn item_page_id(category_id: u64, entry_id: u64) -> u64 {
    spec_hash(decimal(category_id as nat) + "_"@ + decimal(entry_id as nat))
}

/// Each entry of `ids` with its name.
pub fn named_entries(dossier: &Dossier, ids: &Vec<u64>) -> (r: Vec<(u64, String)>)
    requires
        forall|i: int| 0 <= i < ids@.len() ==> dossier@.entries.contains_key(#[trigger] ids@[i]),
    ensures
        anchor_texts(r@) == named(dossier@, ids@),
{
    let mut r: Vec<(u64, String)> = Vec::new();
    let mut i: usize = 0;
    while i < ids.len()
        invariant
            forall|i: int|
                0 <= i < ids@.len() ==> dossier@.entries.contains_key(#[trigger] ids@[i]),
            i <= ids@.len(),
            r@.len() == i,
            forall|j: int|
                0 <= j < i ==> (#[trigger] r@[j]).0 == ids@[j] && r@[j].1@
                    == dossier@.entries[ids@[j]].spec_name(),
        decreases ids@.len() - i,
    {
        assert(dossier@.entries.contains_key(ids@[i as int]));
        let name = match dossier.entries.get(&ids[i]) {
            Some(entry) => entry.name().to_owned(),
            None => String::new(),
        };
        r.push((ids[i], name));
        i += 1;
    }
    assert(anchor_texts(r@) =~= named(dossier@, ids@));
    r
}

/// A copy of a list of ids with names.
pub fn duplicate_pairs(pairs: &Vec<(u64, String)>) -> (r: Vec<(u64, String)>)
    ensures
        anchor_texts(r@) == anchor_texts(pairs@),
{
    let mut r: Vec<(u64, String)> = Vec::new();
    let mut i: usize = 0;
    while i < pairs.len()
        invariant
            i <= pairs@.len(),
            r@.len() == i,
            forall|j: int|
                0 <= j < i ==> (#[trigger] r@[j]).0 == pairs@[j].0 && r@[j].1@ == pairs@[j].1@,
        decreases pairs@.len() - i,
    {
        r.push((pairs[i].0, pairs[i].1.clone()));
        i += 1;
    }
    assert(anchor_texts(r@) =~= anchor_texts(pairs@));
    r
}

/// The ids of `pairs`, sorted by the names beside them.
pub fn sort_by_name(pairs: &Vec<(u64, String)>) -> (r: Vec<u64>)
    ensures
        r@ == sorted_by_name(anchor_texts(pairs@)),
{
    let sorted = sort_pairs(pairs);
    let mut r: Vec<u64> = Vec::new();
    let mut k: usize = 0;
    while k < sorted.len()
        invariant
            k <= sorted@.len(),
            r@.len() == k,
            forall|j: int| 0 <= j < k ==> (#[trigger] r@[j]) == sorted@[j].0,
        decreases sorted@.len() - k,
    {
        r.push(sorted[k].0);
        k += 1;
    }
    proof {
        let all = anchor_texts(pairs@);
        assert(anchor_texts(sorted@).len() == sorted@.len());
        assert forall|j: int| 0 <= j < r@.len() implies r@[j] == sorted_by_name(all)[j] by {
            assert(anchor_texts(sorted@)[j].0 == sorted@[j].0);
        }
        assert(r@ =~= sorted_by_name(all));
    }
    r
}

/// `pairs`, sorted by name.
pub fn sort_pairs(pairs: &Vec<(u64, String)>) -> (r: Vec<(u64, String)>)
    ensures
        anchor_texts(r@) == sorted_pairs(anchor_texts(pairs@)),
{
    let ghost all = anchor_texts(pairs@);
    let mut keys: Vec<Vec<String>> = Vec::new();
    let mut i: usize = 0;
    while i < pairs.len()
        invariant
            i <= pairs@.len(),
            keys@.len() == i,
            forall|j: int|
                0 <= j < i ==> (#[trigger] keys@[j])@.map_values(|s: String| s@) == seq![
                    pairs@[j].1@,
                ],
        decreases pairs@.len() - i,
    {
        let mut key: Vec<String> = Vec::new();
        key.push(pairs[i].1.clone());
        assert(key@.map_values(|s: String| s@) =~= seq![pairs@[i as int].1@]);
        keys.push(key);
        i += 1;
    }
    assert(crate::order::key_views(keys@) =~= all.map_values(|p: (u64, Seq<char>)| seq![p.1]));
    let order = sort_by_keys(&keys);
    let mut r: Vec<(u64, String)> = Vec::new();
    let mut k: usize = 0;
    while k < order.len()
        invariant
            order@.len() == pairs@.len(),
            forall|i: int| 0 <= i < order@.len() ==> (#[trigger] order@[i]) < pairs@.len(),
            k <= order@.len(),
            r@.len() == k,
            forall|j: int|
                0 <= j < k ==> (#[trigger] r@[j]).0 == pairs@[order@[j] as int].0 && r@[j].1@
                    == pairs@[order@[j] as int].1@,
        decreases order@.len() - k,
    {
        assert(order@[k as int] < pairs@.len());
        r.push((pairs[order[k]].0, pairs[order[k]].1.clone()));
        k += 1;
    }
    assert(anchor_texts(r@) =~= sorted_pairs(all));
    r
}

impl DossierView {
    /// Whether every entry that the category lists is registered.
    pub open spec fn lists_known(self, c: CategoryView) -> bool {
        forall|i: int| 0 <= i < c.entries.len() ==> self.entries.contains_key(#[trigger] c.entries[i])
    }

    /// The page with the 0-based index `i` of the listing of the category
    /// `c`: it shows its share of the category's entries, sorted by name,
    /// and holds the anchors of all of them.
    pub open spec fn category_page(self, c: CategoryView, mode: PaginationMode, i: int) -> PageView {
        let sorted = sorted_by_name(named(self, c.entries));
        PageView::CategoryList {
            category_id: c.id,
            category_name: c.name,
            category_title: c.display_name,
            entries: page_items(mode, 1, sorted, i as nat),
            anchors: named(self, c.entries),
            page: PaginationInfo {
                current_page: (i + 1) as usize,
                total_pages: page_count(mode, 1, sorted.len()) as usize,
            },
        }
    }

    /// The pages of the listing of the category `c`. A category without
    /// entries has one empty page.
    pub open spec fn category_pages(self, c: CategoryView, mode: PaginationMode) -> Seq<PageView> {
        Seq::new(
            page_count(mode, 1, c.entries.len()),
            |i: int| self.category_page(c, mode, i),
        )
    }

    /// The page with the 0-based index `i` of the modifiers that carry the
    /// mask `entry_id`: the entries that refer to the mask, sorted by name,
    /// are split where there are four or more of them.
    pub open spec fn mask_page(
        self,
        id: u64,
        entry_id: u64,
        name: Seq<char>,
        mode: PaginationMode,
        i: int,
    ) -> PageView {
        let sorted = sorted_by_name(named(self, sources_of(self.references, entry_id)));
        PageView::Mask {
            id,
            entry_id,
            name,
            modifiers: page_items(mode, 4, sorted, i as nat),
            page: PaginationInfo {
                current_page: (i + 1) as usize,
                total_pages: page_count(mode, 4, sorted.len()) as usize,
            },
        }
    }

    /// The pages of the modifiers that carry the mask `entry_id`.
    pub open spec fn mask_pages(self, id: u64, entry_id: u64, name: Seq<char>, mode: PaginationMode)
        -> Seq<PageView> {
        Seq::new(
            page_count(mode, 4, sources_of(self.references, entry_id).len()),
            |i: int| self.mask_page(id, entry_id, name, mode, i),
        )
    }

    /// Whether every entry that refers to `entry_id` is registered.
    pub open spec fn sources_known(self, entry_id: u64) -> bool {
        forall|i: int|
            0 <= i < sources_of(self.references, entry_id).len() ==> self.entries.contains_key(
                #[trigger] sources_of(self.references, entry_id)[i],
            )
    }
}

/// Sorting by name neither drops nor adds an id.
pub proof fn lemma_sorted_by_name_len(pairs: Seq<(u64, Seq<char>)>)
    requires
        pairs.len() <= usize::MAX,
    ensures
        sorted_by_name(pairs).len() == pairs.len(),
{
    crate::order::lemma_sorted_is_permutation(
        0,
        pairs.len() as int,
        by_keys(pairs.map_values(|p: (u64, Seq<char>)| seq![p.1])),
    );
}

/// The page that lists all items of a kind.
pub open spec fn index_page(kind: ListKind, entries: Seq<u64>) -> PageView {
    match kind {
        ListKind::Scopes => PageView::Index {
            id: spec_hash("SCOPES_INDEX"@),
            title: "Scopes"@,
            path: "scopes/index.html"@,
            entries,
            parent_id: None,
        },
        ListKind::Masks => PageView::Index {
            id: spec_hash("MODIFIERS_INDEX"@),
            title: "Modifiers"@,
            path: "modifiers/index.html"@,
            entries,
            parent_id: None,
        },
    }
}

/// The ids of a list of ids with names.
pub open spec fn ids_of(pairs: Seq<(u64, Seq<char>)>) -> Seq<u64> {
    pairs.map_values(|p: (u64, Seq<char>)| p.0)
}

impl DossierView {
    /// The items of a builder, each as the id of its entry and its name.
    pub open spec fn builder_items(self, kind: ListKind, items: Seq<usize>) -> Seq<
        (u64, Seq<char>),
    > {
        items.map_values(
            |s: usize|
                (named_id(kind == ListKind::Masks, self.table[s as int]), self.table[s as int]),
        )
    }

    /// The entries that a builder synthesizes: a placeholder for each item.
    pub open spec fn builder_entry(self, kind: ListKind, item: usize, e: DocEntry) -> bool {
        match e {
            DocEntry::Empty(e) => e.id == named_id(kind == ListKind::Masks, self.table[item as int])
                && e.category_id == kind.spec_category_id() && e.name@ == self.table[item as int],
            _ => false,
        }
    }

    /// Whether `e` is the placeholder of one of the items of a builder.
    pub open spec fn built_by(self, kind: ListKind, items: Seq<usize>, e: DocEntry) -> bool {
        exists|j: int| 0 <= j < items.len() && #[trigger] self.builder_entry(kind, items[j], e)
    }

    /// The pages of one item of a builder: the page of a scope, or the pages
    /// of a mask's modifiers.
    pub open spec fn item_pages(self, kind: ListKind, item: (u64, Seq<char>), mode: PaginationMode)
        -> Seq<PageView> {
        let id = item_page_id(kind.spec_category_id(), item.0);
        match kind {
            ListKind::Scopes => seq![PageView::Scope { id, entry_id: item.0, name: item.1 }],
            ListKind::Masks => self.mask_pages(id, item.0, item.1, mode),
        }
    }

    /// The pages of the first `n` of `items`, in order.
    pub open spec fn items_pages(
        self,
        kind: ListKind,
        items: Seq<(u64, Seq<char>)>,
        mode: PaginationMode,
        n: nat,
    ) -> Seq<PageView>
        decreases n,
    {
        if n == 0 || n > items.len() {
            Seq::empty()
        } else {
            self.items_pages(kind, items, mode, (n - 1) as nat) + self.item_pages(
                kind,
                items[n - 1],
                mode,
            )
        }
    }

    /// The pages that a builder makes: the pages of its items, sorted by
    /// name, and then the index page that lists the items in that order.
    pub open spec fn builder_pages(self, kind: ListKind, items: Seq<usize>, mode: PaginationMode)
        -> Seq<PageView> {
        let sorted = sorted_pairs(self.builder_items(kind, items));
        self.items_pages(kind, sorted, mode, sorted.len()).push(index_page(kind, ids_of(sorted)))
    }

    /// Whether a builder's pages can be made: the names of its items are in
    /// the string table, and the sources of every mask are registered.
    pub open spec fn can_build(self, kind: ListKind, items: Seq<usize>) -> bool {
        forall|i: int|
            0 <= i < items.len() ==> (#[trigger] items[i]) < self.table.len() && (kind
                == ListKind::Masks ==> self.sources_known(
                named_id(true, self.table[items[i] as int]),
            ))
    }
}

impl GenericListPageBuilder {
    /// A builder for the items `items` of the kind `kind`.
    pub fn new(kind: ListKind, items: Vec<usize>) -> (r: GenericListPageBuilder)
        ensures
            r.kind == kind,
            r.items == items,
    {
        GenericListPageBuilder { kind, items }
    }

    /// Each item of the builder as the id of its entry and its name.
    fn item_pairs(&self, dossier: &Dossier) -> (r: Vec<(u64, String)>)
        requires
            forall|i: int|
                0 <= i < self.items@.len() ==> (#[trigger] self.items@[i]) < dossier@.table.len(),
        ensures
            anchor_texts(r@) == dossier@.builder_items(self.kind, self.items@),
    {
        let mut r: Vec<(u64, String)> = Vec::new();
        let mut i: usize = 0;
        while i < self.items.len()
            invariant
                forall|i: int|
                    0 <= i < self.items@.len() ==> (#[trigger] self.items@[i])
                        < dossier@.table.len(),
                i <= self.items@.len(),
                r@.len() == i,
                forall|j: int|
                    0 <= j < i ==> (#[trigger] r@[j]).1@ == dossier@.table[self.items@[j] as int]
                        && r@[j].0 == named_id(self.kind == ListKind::Masks, r@[j].1@),
            decreases self.items@.len() - i,
        {
            assert(self.items@[i as int] < dossier@.table.len());
            let name = match dossier.string_table.get(self.items[i]) {
                Some(name) => name.clone(),
                None => String::new(),
            };
            r.push((self.kind.entry_id_for_name(name.as_str()), name));
            i += 1;
        }
        assert(anchor_texts(r@) =~= dossier@.builder_items(self.kind, self.items@));
        r
    }

    /// The entries that the builder synthesizes: for each item a placeholder
    /// with the item's name, under the id that references to the item
    /// resolve to.
    pub fn build_entries(&self, dossier: &Dossier, _config: &Config) -> (r: Vec<DocEntry>)
        requires
            forall|i: int|
                0 <= i < self.items@.len() ==> (#[trigger] self.items@[i]) < dossier@.table.len(),
        ensures
            r@.len() == self.items@.len(),
            forall|i: int|
                0 <= i < r@.len() ==> dossier@.builder_entry(
                    self.kind,
                    self.items@[i],
                    #[trigger] r@[i],
                ),
    {
        let category_id = self.kind.category_id();
        let mut r: Vec<DocEntry> = Vec::new();
        let mut i: usize = 0;
        while i < self.items.len()
            invariant
                category_id == self.kind.spec_category_id(),
                forall|i: int|
                    0 <= i < self.items@.len() ==> (#[trigger] self.items@[i])
                        < dossier@.table.len(),
                i <= self.items@.len(),
                r@.len() == i,
                forall|j: int|
                    0 <= j < i ==> dossier@.builder_entry(
                        self.kind,
                        self.items@[j],
                        #[trigger] r@[j],
                    ),
            decreases self.items@.len() - i,
        {
            assert(self.items@[i as int] < dossier@.table.len());
            let name = match dossier.string_table.get(self.items[i]) {
                Some(name) => name.clone(),
                None => String::new(),
            };
            let id = self.kind.entry_id_for_name(name.as_str());
            r.push(DocEntry::Empty(EmptyDocEntry::new(id, category_id, name)));
            i += 1;
        }
        r
    }

    /// The pages that the builder makes: the pages of its items, sorted by
    /// name, and the one index page of the kind.
    pub fn build_pages(&self, dossier: &Dossier, _config: &Config) -> (r: Vec<Page>)
        requires
            dossier.config.pagination.wf(),
            dossier@.can_build(self.kind, self.items@),
        ensures
            page_views(r@) == dossier@.builder_pages(
                self.kind,
                self.items@,
                dossier.config.pagination,
            ),
    {
        let ghost d = dossier@;
        let ghost mode = dossier.config.pagination;
        let category_id = self.kind.category_id();
        let pairs = self.item_pairs(dossier);
        let entry_ids = sort_pairs(&pairs);
        let ghost sorted = anchor_texts(entry_ids@);
        let count = pairs.len();
        proof {
            assert(pairs@.len() == count);
            crate::order::lemma_sorted_is_permutation(
                0,
                pairs@.len() as int,
                by_keys(anchor_texts(pairs@).map_values(|p: (u64, Seq<char>)| seq![p.1])),
            );
        }
        let ghost base = d.builder_items(self.kind, self.items@);
        let ghost order = sorted_positions(
            base.len() as int,
            by_keys(base.map_values(|p: (u64, Seq<char>)| seq![p.1])),
        );
        let mut pages: Vec<Page> = Vec::new();
        let mut ids: Vec<u64> = Vec::new();
        let mut i: usize = 0;
        assert(page_views(pages@) =~= d.items_pages(self.kind, sorted, mode, 0));
        assert(sorted == order.map_values(|i: usize| base[i as int]));
        while i < entry_ids.len()
            invariant
                d == dossier@,
                mode == dossier.config.pagination,
                mode.wf(),
                d.can_build(self.kind, self.items@),
                category_id == self.kind.spec_category_id(),
                sorted == anchor_texts(entry_ids@),
                sorted == sorted_pairs(d.builder_items(self.kind, self.items@)),
                base == d.builder_items(self.kind, self.items@),
                sorted == order.map_values(|i: usize| base[i as int]),
                sorted.len() == self.items@.len(),
                forall|k: int| 0 <= k < order.len() ==> 0 <= (#[trigger] order[k]) < base.len(),
                i <= entry_ids@.len(),
                ids@ == ids_of(sorted).take(i as int),
                page_views(pages@) == d.items_pages(self.kind, sorted, mode, i as nat),
            decreases entry_ids@.len() - i,
        {
            let entry_id = entry_ids[i].0;
            let name = entry_ids[i].1.clone();
            assert(sorted[i as int] == (entry_id, name@));
            let page_id = hash(
                join3(
                    decimal_string_u64(category_id).as_str(),
                    "_",
                    decimal_string_u64(entry_id).as_str(),
                ).as_str(),
            );
            let ghost before = page_views(pages@);
            match self.kind {
                ListKind::Scopes => {
                    pages.push(Page::Scope(ScopePage { id: page_id, entry_id, name }));
                    assert(page_views(pages@) =~= before + d.item_pages(
                        self.kind,
                        sorted[i as int],
                        mode,
                    ));
                },
                ListKind::Masks => {
                    proof {
                        let at = order[i as int];
                        assert(0 <= at < self.items@.len());
                        assert(sorted[i as int] == base[at as int]);
                        assert(self.items@[at as int] < d.table.len());
                        assert(d.sources_known(entry_id));
                    }
                    let mut more = MaskPage::new(dossier, page_id, entry_id, name);
                    let ghost added = page_views(more@);
                    pages.append(&mut more);
                    assert(page_views(pages@) =~= before + added);
                },
            }
            ids.push(entry_id);
            proof {
                assert(ids@ =~= ids_of(sorted).take(i + 1));
            }
            i += 1;
        }
        assert(ids_of(sorted).take(i as int) =~= ids_of(sorted));
        let ghost before = page_views(pages@);
        let index = match self.kind {
            ListKind::Scopes => IndexPage {
                id: ScopePage::index_id(),
                title: "Scopes".to_owned(),
                path: "scopes/index.html".to_owned(),
                entries: ids,
                parent_id: None,
            },
            ListKind::Masks => IndexPage {
                id: MaskPage::index_id(),
                title: "Modifiers".to_owned(),
                path: "modifiers/index.html".to_owned(),
                entries: ids,
                parent_id: None,
            },
        };
        pages.push(Page::Index(index));
        assert(page_views(pages@) =~= before.push(index_page(self.kind, ids_of(sorted))));
        pages
    }
}

impl MaskPage {
    /// The pages of the modifiers that carry the mask `entry_id`, called
    /// `name`: the entries that refer to the mask, sorted by name, on one
    /// page where there are fewer than four of them, else split as the
    /// configuration says.
    pub fn new(dossier: &Dossier, id: u64, entry_id: u64, name: String) -> (r: Vec<Page>)
        requires
            dossier.config.pagination.wf(),
            dossier@.sources_known(entry_id),
        ensures
            page_views(r@) == dossier@.mask_pages(id, entry_id, name@, dossier.config.pagination),
    {
        let mode = dossier.config.pagination;
        let sources = dossier.find_references_to(entry_id);
        let pairs = named_entries(dossier, &sources);
        let modifiers = sort_by_name(&pairs);
        let count = pairs.len();
        proof {
            assert(anchor_texts(pairs@).len() == count);
            lemma_sorted_by_name_len(anchor_texts(pairs@));
        }
        let ghost d = dossier@;
        let name_ref = &name;
        let make = |total: usize, number: usize, chunk: &[u64]| -> (p: Page)
            ensures
                p@ == (PageView::Mask {
                    id,
                    entry_id,
                    name: name_ref@,
                    modifiers: chunk@,
                    page: PaginationInfo { current_page: number, total_pages: total },
                }),
            {
                Page::Mask(
                    MaskPage {
                        id,
                        entry_id,
                        name: name_ref.clone(),
                        modifiers: vstd::slice::slice_to_vec(chunk),
                        page: PaginationInfo::new((number, total)),
                    },
                )
            };
        let pages = paginate(&mode, 4, modifiers.as_slice(), make);
        proof {
            assert forall|i: int| 0 <= i < pages@.len() implies (#[trigger] pages@[i])@ == d.mask_page(
                id,
                entry_id,
                name@,
                mode,
                i,
            ) by {
                assert(page_made(make, mode, 4, modifiers@, i, pages@[i]));
            }
            assert(page_views(pages@) =~= d.mask_pages(id, entry_id, name@, mode));
        }
        pages
    }
}

impl DossierView {
    /// The pages of the listings of the first `n` categories, in order.
    pub open spec fn listing_pages(self, mode: PaginationMode, n: nat) -> Seq<PageView>
        decreases n,
    {
        if n == 0 || n > self.categories.len() {
            Seq::empty()
        } else {
            self.listing_pages(mode, (n - 1) as nat) + self.category_pages(
                self.categories[n - 1],
                mode,
            )
        }
    }

    /// The pages of the first `n` builders, in the order of their
    /// registration.
    pub open spec fn built_pages(self, mode: PaginationMode, n: nat) -> Seq<PageView>
        decreases n,
    {
        if n == 0 || n > self.builders.len() {
            Seq::empty()
        } else {
            self.built_pages(mode, (n - 1) as nat) + self.builder_pages(
                self.builders[n - 1].0,
                self.builders[n - 1].1,
                mode,
            )
        }
    }

    /// Whether the pages of the registry can be made: the entries that the
    /// categories list are registered, and every builder can build.
    pub open spec fn can_create_pages(self) -> bool {
        &&& forall|i: int|
            0 <= i < self.categories.len() ==> self.lists_known(#[trigger] self.categories[i])
        &&& forall|i: int|
            0 <= i < self.builders.len() ==> self.can_build(
                (#[trigger] self.builders[i]).0,
                self.builders[i].1,
            )
    }
}

impl Dossier {
    /// Whether each of the entries `ids` is registered.
    fn all_registered(&self, ids: &Vec<u64>) -> (r: bool)
        ensures
            r == (forall|i: int|
                0 <= i < ids@.len() ==> self@.entries.contains_key(#[trigger] ids@[i])),
    {
        let mut i: usize = 0;
        while i < ids.len()
            invariant
                i <= ids@.len(),
                forall|j: int| 0 <= j < i ==> self@.entries.contains_key(#[trigger] ids@[j]),
            decreases ids@.len() - i,
        {
            if !self.entries.contains_key(&ids[i]) {
                assert(!self@.entries.contains_key(ids@[i as int]));
                return false;
            }
            i += 1;
        }
        true
    }

    /// Whether a builder's pages can be made.
    pub fn can_build(&self, builder: &GenericListPageBuilder) -> (r: bool)
        ensures
            r == self@.can_build(builder.kind, builder.items@),
    {
        let ghost d = self@;
        let known = self.string_table.strings.len();
        let mut i: usize = 0;
        while i < builder.items.len()
            invariant
                d == self@,
                known == d.table.len(),
                i <= builder.items@.len(),
                forall|j: int|
                    0 <= j < i ==> (#[trigger] builder.items@[j]) < d.table.len() && (builder.kind
                        == ListKind::Masks ==> d.sources_known(
                        named_id(true, d.table[builder.items@[j] as int]),
                    )),
            decreases builder.items@.len() - i,
        {
            let item = builder.items[i];
            if item >= known {
                assert(!(builder.items@[i as int] < d.table.len()));
                return false;
            }
            if builder.kind == ListKind::Masks {
                let id = match self.string_table.get(item) {
                    Some(name) => MaskPage::entry_id_for_name(name.as_str()),
                    None => 0,
                };
                let sources = self.find_references_to(id);
                if !self.all_registered(&sources) {
                    assert(!d.sources_known(named_id(true, d.table[builder.items@[i as int] as int])));
                    return false;
                }
            }
            i += 1;
        }
        true
    }

    /// Whether the pages of the registry can be made.
    pub fn can_create_pages(&self) -> (r: bool)
        ensures
            r == self@.can_create_pages(),
    {
        let ghost d = self@;
        let mut i: usize = 0;
        while i < self.categories.len()
            invariant
                d == self@,
                i <= self.categories@.len(),
                forall|j: int| 0 <= j < i ==> d.lists_known(#[trigger] d.categories[j]),
            decreases self.categories@.len() - i,
        {
            assert(d.categories[i as int] == self.categories@[i as int]@);
            let ghost ids = self.categories@[i as int].entries@;
            assert(d.categories[i as int].entries == ids);
            let listed = self.all_registered(&self.categories[i].entries);
            assert(listed == (forall|j: int| 0 <= j < ids.len() ==> d.entries.contains_key(#[trigger] ids[j])));
            if !listed {
                assert(!d.lists_known(d.categories[i as int])) by {
                    if d.lists_known(d.categories[i as int]) {
                        assert forall|j: int| 0 <= j < ids.len() implies d.entries.contains_key(
                            #[trigger] ids[j],
                        ) by {
                            assert(d.entries.contains_key(d.categories[i as int].entries[j]));
                        }
                    }
                }
                return false;
            }
            assert(d.lists_known(d.categories[i as int])) by {
                assert forall|j: int| 0 <= j < d.categories[i as int].entries.len() implies d.entries.contains_key(
                    #[trigger] d.categories[i as int].entries[j],
                ) by {
                    assert(d.entries.contains_key(ids[j]));
                }
            }
            i += 1;
        }
        let mut k: usize = 0;
        while k < self.builders.len()
            invariant
                d == self@,
                k <= self.builders@.len(),
                forall|j: int| 0 <= j < d.categories.len() ==> d.lists_known(#[trigger] d.categories[j]),
                forall|j: int|
                    0 <= j < k ==> d.can_build((#[trigger] d.builders[j]).0, d.builders[j].1),
            decreases self.builders@.len() - k,
        {
            assert(d.builders[k as int] == (
                self.builders@[k as int].kind,
                self.builders@[k as int].items@,
            ));
            if !self.can_build(&self.builders[k]) {
                assert(!d.can_build(d.builders[k as int].0, d.builders[k as int].1));
                return false;
            }
            k += 1;
        }
        true
    }

    /// The pages of a profile, or `None` where a page size is zero, an entry
    /// that a category lists or that refers to a mask is not registered, or
    /// the name of a builder's item is not in the string table.
    pub fn try_create_pages(dossier: &Dossier, config: &Config) -> (r: Option<Vec<Page>>)
        ensures
            match r {
                Some(pages) => config.pagination.wf() && dossier.config.pagination.wf()
                    && dossier@.can_create_pages() && page_views(pages@)
                    == dossier@.listing_pages(config.pagination, dossier@.categories.len())
                    + dossier@.built_pages(dossier.config.pagination, dossier@.builders.len()),
                None => !(config.pagination.wf() && dossier.config.pagination.wf()
                    && dossier@.can_create_pages()),
            },
    {
        if config.pagination.can_split() && dossier.config.pagination.can_split()
            && dossier.can_create_pages() {
            Some(Dossier::create_pages(dossier, config))
        } else {
            None
        }
    }

    /// Registers a page builder: the entries that it synthesizes are taken
    /// into the registry, each under its id, and the builder is kept for the
    /// building of the pages.
    pub fn add_builder(&mut self, builder: GenericListPageBuilder)
        requires
            forall|i: int|
                0 <= i < builder.items@.len() ==> (#[trigger] builder.items@[i])
                    < old(self)@.table.len(),
        ensures
            final(self)@.categories == old(self)@.categories,
            final(self)@.references == old(self)@.references,
            final(self)@.table == old(self)@.table,
            final(self)@.builders == old(self)@.builders.push((builder.kind, builder.items@)),
            final(self).config == old(self).config,
            final(self).info == old(self).info,
            old(self)@.wf() ==> final(self)@.wf(),
            forall|i: int|
                0 <= i < builder.items@.len() ==> {
                    let id = named_id(
                        builder.kind == ListKind::Masks,
                        old(self)@.table[(#[trigger] builder.items@[i]) as int],
                    );
                    final(self)@.entries.contains_key(id) && final(self)@.entries[id].spec_id()
                        == id && old(self)@.built_by(
                        builder.kind,
                        builder.items@,
                        final(self)@.entries[id],
                    )
                },
            forall|id: u64| #[trigger]
                final(self)@.entries.contains_key(id) ==> old(self)@.entries.contains_key(id)
                    && final(self)@.entries[id] == old(self)@.entries[id] || exists|i: int|
                    0 <= i < builder.items@.len() && id == named_id(
                        builder.kind == ListKind::Masks,
                        old(self)@.table[builder.items@[i] as int],
                    ),
            forall|id: u64| #[trigger]
                old(self)@.entries.contains_key(id) ==> final(self)@.entries.contains_key(id),
    {
        let ghost start = self@;
        let mut entries = builder.build_entries(self, &self.config);
        let ghost built = entries@;
        let n = entries.len();
        while entries.len() > 0
            invariant
                n == built.len(),
                built.len() == builder.items@.len(),
                entries@.len() <= built.len(),
                entries@ == built.take(entries@.len() as int),
                forall|i: int|
                    0 <= i < built.len() ==> start.builder_entry(
                        builder.kind,
                        builder.items@[i],
                        #[trigger] built[i],
                    ),
                self@.categories == start.categories,
                self@.references == start.references,
                self@.table == start.table,
                self@.builders == start.builders,
                self.config == old(self).config,
                self.info == old(self).info,
                start == old(self)@,
                start.wf() ==> self@.wf(),
                forall|i: int|
                    0 <= i < builder.items@.len() ==> (#[trigger] builder.items@[i])
                        < start.table.len(),
                forall|i: int|
                    entries@.len() <= i < built.len() ==> {
                        let id = named_id(
                            builder.kind == ListKind::Masks,
                            start.table[(#[trigger] builder.items@[i]) as int],
                        );
                        self@.entries.contains_key(id) && self@.entries[id].spec_id() == id
                            && start.built_by(builder.kind, builder.items@, self@.entries[id])
                    },
                forall|id: u64| #[trigger]
                    self@.entries.contains_key(id) ==> start.entries.contains_key(id)
                        && self@.entries[id] == start.entries[id] || exists|i: int|
                        0 <= i < builder.items@.len() && id == named_id(
                            builder.kind == ListKind::Masks,
                            start.table[builder.items@[i] as int],
                        ),
                forall|id: u64| #[trigger]
                    start.entries.contains_key(id) ==> self@.entries.contains_key(id),
            decreases entries@.len(),
        {
            let ghost at = entries@.len() - 1;
            let ghost before = self@.entries;
            let entry = entries.pop().unwrap();
            assert(entry == built[at]);
            assert(start.builder_entry(builder.kind, builder.items@[at], entry));
            let id = entry.id();
            self.entries.insert(id, entry);
            proof {
                assert(entries@ =~= built.take(entries@.len() as int));
                assert(start.built_by(builder.kind, builder.items@, entry));
                assert forall|i: int| entries@.len() <= i < built.len() implies {
                    let id = named_id(
                        builder.kind == ListKind::Masks,
                        start.table[(#[trigger] builder.items@[i]) as int],
                    );
                    self@.entries.contains_key(id) && self@.entries[id].spec_id() == id
                        && start.built_by(builder.kind, builder.items@, self@.entries[id])
                } by {
                    let other = named_id(
                        builder.kind == ListKind::Masks,
                        start.table[builder.items@[i] as int],
                    );
                    if i > at && other != id {
                        assert(before.contains_key(other));
                    }
                }
                assert forall|k: u64| #[trigger] self@.entries.contains_key(k) implies start.entries.contains_key(
                    k,
                ) && self@.entries[k] == start.entries[k] || exists|i: int|
                    0 <= i < builder.items@.len() && k == named_id(
                        builder.kind == ListKind::Masks,
                        start.table[builder.items@[i] as int],
                    ) by {
                    if k != id {
                        assert(before.contains_key(k));
                    } else {
                        assert(k == named_id(
                            builder.kind == ListKind::Masks,
                            start.table[builder.items@[at] as int],
                        ));
                    }
                }
                if start.wf() {
                    assert forall|k: u64| #[trigger] self@.entries.contains_key(k) implies self@.entries[k].spec_id()
                        == k by {
                        if k != id {
                            assert(before.contains_key(k));
                        }
                    }
                }
                assert forall|k: u64| #[trigger] start.entries.contains_key(k) implies self@.entries.contains_key(
                    k,
                ) by {
                    assert(before.contains_key(k));
                }
            }
        }
        let ghost before = self@.builders;
        let ghost held = self@.entries;
        self.builders.push(builder);
        assert(self@.builders =~= before.push((builder.kind, builder.items@)));
        assert(self@.entries == held);
        proof {
            if start.wf() {
                assert forall|k: u64| #[trigger] self@.entries.contains_key(k) implies self@.entries[k].spec_id()
                    == k by {
                    assert(held.contains_key(k));
                }
            }
        }
    }

    /// The pages of a profile: the listings of the categories, in the order
    /// of the categories, and then the pages of the builders, in the order
    /// of their registration.
    pub fn create_pages(dossier: &Dossier, config: &Config) -> (r: Vec<Page>)
        requires
            config.pagination.wf(),
            dossier.config.pagination.wf(),
            dossier@.can_create_pages(),
        ensures
            page_views(r@) == dossier@.listing_pages(
                config.pagination,
                dossier@.categories.len(),
            ) + dossier@.built_pages(dossier.config.pagination, dossier@.builders.len()),
    {
        let ghost d = dossier@;
        let mut pages: Vec<Page> = Vec::new();
        let mut i: usize = 0;
        assert(page_views(pages@) =~= d.listing_pages(config.pagination, 0));
        while i < dossier.categories.len()
            invariant
                d == dossier@,
                config.pagination.wf(),
                d.can_create_pages(),
                i <= dossier.categories@.len(),
                dossier.categories@.len() == d.categories.len(),
                page_views(pages@) == d.listing_pages(config.pagination, i as nat),
            decreases dossier.categories@.len() - i,
        {
            assert(d.lists_known(d.categories[i as int]));
            let ghost before = page_views(pages@);
            let mut more = dossier.category_pages(i, config);
            let ghost added = page_views(more@);
            pages.append(&mut more);
            assert(page_views(pages@) =~= before + added);
            i += 1;
        }
        let ghost listings = page_views(pages@);
        let mut k: usize = 0;
        assert(page_views(pages@) =~= listings + d.built_pages(dossier.config.pagination, 0));
        while k < dossier.builders.len()
            invariant
                d == dossier@,
                dossier.config.pagination.wf(),
                d.can_create_pages(),
                k <= dossier.builders@.len(),
                dossier.builders@.len() == d.builders.len(),
                page_views(pages@) == listings + d.built_pages(
                    dossier.config.pagination,
                    k as nat,
                ),
            decreases dossier.builders@.len() - k,
        {
            assert(d.builders[k as int] == (
                dossier.builders@[k as int].kind,
                dossier.builders@[k as int].items@,
            ));
            assert(d.can_build(d.builders[k as int].0, d.builders[k as int].1));
            let ghost before = page_views(pages@);
            let mut more = dossier.builders[k].build_pages(dossier, config);
            let ghost added = page_views(more@);
            pages.append(&mut more);
            assert(page_views(pages@) =~= before + added);
            k += 1;
        }
        pages
    }

    /// The pages of the listing of the category at `at`: its entries, sorted
    /// by name and split as the configuration says.
    pub fn category_pages(&self, at: usize, config: &Config) -> (r: Vec<Page>)
        requires
            at < self@.categories.len(),
            config.pagination.wf(),
            self@.lists_known(self@.categories[at as int]),
        ensures
            page_views(r@) == self@.category_pages(self@.categories[at as int], config.pagination),
    {
        let category = &self.categories[at];
        let ghost c = category@;
        assert(self@.categories[at as int] == c);
        let mode = config.pagination;
        let anchors = named_entries(self, &category.entries);
        let entries = sort_by_name(&anchors);
        let count = anchors.len();
        proof {
            assert(anchor_texts(anchors@).len() == count);
            lemma_sorted_by_name_len(anchor_texts(anchors@));
        }
        let ghost d = self@;
        let anchors_ref = &anchors;
        let make = |total: usize, number: usize, chunk: &[u64]| -> (p: Page)
            ensures
                p@ == (PageView::CategoryList {
                    category_id: category.id,
                    category_name: category.name@,
                    category_title: category.display_name@,
                    entries: chunk@,
                    anchors: anchor_texts(anchors_ref@),
                    page: PaginationInfo { current_page: number, total_pages: total },
                }),
            {
                Page::CategoryList(
                    CategoryListPage::new(
                        category.id,
                        category.name.as_str(),
                        category.display_name.as_str(),
                        chunk,
                        duplicate_pairs(anchors_ref),
                        (number, total),
                    ),
                )
            };
        let pages = paginate(&mode, 1, entries.as_slice(), make);
        proof {
            assert forall|i: int| 0 <= i < pages@.len() implies (#[trigger] pages@[i])@
                == d.category_page(c, mode, i) by {
                assert(page_made(make, mode, 1, entries@, i, pages@[i]));
            }
            assert(page_views(pages@) =~= d.category_pages(c, mode));
        }
        pages
    }
}

} // verus!
