//! The dossier: the registry of a profile's categories and entries, and the
//! index of the references between them.

use std::collections::HashMap;
use vstd::prelude::*;
use crate::builder::{GenericListPageBuilder, ListKind};
use crate::config::Config;
use crate::docstring::{segment_views, DocStringSegment, SegmentView};
use crate::entry::{DocEntry, OutRef, ScriptDocContent};
use crate::error::Error;
use crate::games::GameVersion;
use crate::mapper::SiteMapper;
use crate::config::UrlScheme;
use crate::mapper::MapperView;
use crate::page::{mask_entry_id, scope_entry_id, MaskPage, PageContext, ScopePage};
use crate::paths::texts;
use crate::text::join2;
use crate::util::{hash, spec_hash};

verus! {

broadcast use vstd::std_specs::hash::group_hash_axioms;

/// The interned strings of a profile's documentation, by id.
pub struct StringTable {
    pub strings: Vec<String>,
}

impl View for StringTable {
    type V = Seq<Seq<char>>;

    open spec fn view(&self) -> Seq<Seq<char>> {
        texts(self.strings@)
    }
}

impl StringTable {
    /// A table that holds `strings`, each under its position.
    pub fn new(strings: Vec<String>) -> (r: StringTable)
        ensures
            r@ == texts(strings@),
    {
        StringTable { strings }
    }

    /// The string with the id `id`, if the table holds one.
    pub fn get(&self, id: usize) -> (r: Option<&String>)
        ensures
            match r {
                Some(s) => id < self@.len() && s@ == self@[id as int],
                None => id >= self@.len(),
            },
    {
        if id < self.strings.len() {
            Some(&self.strings[id])
        } else {
            None
        }
    }
}

/// A named group of entries, rendered as one listing.
#[derive(Debug)]
pub struct DocCategory {
    pub id: u64,
    pub name: String,
    pub display_name: String,
    pub entries: Vec<u64>,
}

/// A category over plain values.
pub struct CategoryView {
    pub id: u64,
    pub name: Seq<char>,
    pub display_name: Seq<char>,
    pub entries: Seq<u64>,
}

impl View for DocCategory {
    type V = CategoryView;

    open spec fn view(&self) -> CategoryView {
        CategoryView {
            id: self.id,
            name: self.name@,
            display_name: self.display_name@,
            entries: self.entries@,
        }
    }
}

impl DocCategory {
    /// A category without entries. Its id is the hash of its stable tag `id`.
    pub fn new(id: &str, name: &str, display_name: &str) -> (r: DocCategory)
        ensures
            r@ == (CategoryView {
                id: spec_hash(id@),
                name: name@,
                display_name: display_name@,
                entries: Seq::empty(),
            }),
    {
        DocCategory {
            id: hash(id),
            name: name.to_owned(),
            display_name: display_name.to_owned(),
            entries: Vec::new(),
        }
    }
}

/// The versions that a site was built from and with.
#[derive(Debug, Clone)]
pub struct DocVersion {
    pub game: GameVersion,
    pub pdxdoc: String,
}

/// What a site says of its own making.
#[derive(Debug, Clone)]
pub struct DocInfo {
    pub version: DocVersion,
}

impl DocInfo {
    /// The information for a site built from the game version `game_version`.
    pub fn new(game_version: GameVersion) -> (r: DocInfo)
        ensures
            r.version.game == game_version,
            r.version.pdxdoc@ == "pdxdoc 0.1.0"@,
    {
        DocInfo { version: DocVersion { game: game_version, pdxdoc: "pdxdoc 0.1.0".to_owned() } }
    }
}

/// A directed edge: the property `from_property` of the entry `from_id`
/// points at the entry `to_id`.
#[derive(Debug)]
pub struct CrossReference {
    pub from_id: u64,
    pub from_property: String,
    pub to_id: u64,
}

/// A cross-reference over plain values.
pub struct ReferenceView {
    pub from_id: u64,
    pub from_property: Seq<char>,
    pub to_id: u64,
}

impl View for CrossReference {
    type V = ReferenceView;

    open spec fn view(&self) -> ReferenceView {
        ReferenceView {
            from_id: self.from_id,
            from_property: self.from_property@,
            to_id: self.to_id,
        }
    }
}

/// The categories of a list over plain values.
pub open spec fn category_views(categories: Seq<DocCategory>) -> Seq<CategoryView> {
    categories.map_values(|c: DocCategory| c@)
}

/// The cross-references of a list over plain values.
pub open spec fn reference_views(references: Seq<CrossReference>) -> Seq<ReferenceView> {
    references.map_values(|c: CrossReference| c@)
}

/// The position of the first category with the id `id`.
pub open spec fn category_index(categories: Seq<CategoryView>, id: u64) -> Option<int>
    decreases categories.len(),
{
    if categories.len() == 0 {
        None
    } else {
        match category_index(categories.drop_last(), id) {
            Some(i) => Some(i),
            None => if categories.last().id == id {
                Some(categories.len() - 1)
            } else {
                None
            },
        }
    }
}

/// The categories of a registry that is given `categories`, in order: a
/// category whose id the registry holds already replaces the one held.
pub open spec fn registered(categories: Seq<CategoryView>) -> Seq<CategoryView>
    decreases categories.len(),
{
    if categories.len() == 0 {
        Seq::empty()
    } else {
        let before = registered(categories.drop_last());
        match category_index(before, categories.last().id) {
            Some(i) => before.update(i, categories.last()),
            None => before.push(categories.last()),
        }
    }
}

/// The id of the entry that stands for the mask (`mask`) or the scope called
/// `name`: the hash of the name, qualified by its kind.
pub open spec fn named_id(mask: bool, name: Seq<char>) -> u64 {
    if mask {
        mask_entry_id(name)
    } else {
        scope_entry_id(name)
    }
}

/// The id of the entry that a reference points at.
pub open spec fn target_id(r: OutRef, table: Seq<Seq<char>>) -> u64 {
    named_id(r.mask, table[r.target as int])
}

/// The edges that the entry `from_id` adds to the index by the references
/// `refs`.
pub open spec fn edges_of(from_id: u64, refs: Seq<OutRef>, table: Seq<Seq<char>>) -> Seq<
    ReferenceView,
> {
    refs.map_values(
        |r: OutRef|
            ReferenceView { from_id, from_property: r.property, to_id: target_id(r, table) },
    )
}

/// The ids of the entries that point at `id`, one for each edge, in the order
/// of the edges.
pub open spec fn sources_of(references: Seq<ReferenceView>, id: u64) -> Seq<u64> {
    references.filter(|c: ReferenceView| c.to_id == id).map_values(|c: ReferenceView| c.from_id)
}

/// The registry of one profile.
pub struct Dossier {
    pub categories: Vec<DocCategory>,
    pub entries: HashMap<u64, DocEntry>,
    pub string_table: StringTable,
    pub config: Config,
    pub cross_references: Vec<CrossReference>,
    pub info: DocInfo,
    pub builders: Vec<GenericListPageBuilder>,
}

/// The registry over plain values.
pub struct DossierView {
    pub categories: Seq<CategoryView>,
    pub entries: Map<u64, DocEntry>,
    pub references: Seq<ReferenceView>,
    pub table: Seq<Seq<char>>,
    pub builders: Seq<(ListKind, Seq<usize>)>,
}

impl View for Dossier {
    type V = DossierView;

    open spec fn view(&self) -> DossierView {
        DossierView {
            categories: category_views(self.categories@),
            entries: self.entries@,
            references: reference_views(self.cross_references@),
            table: self.string_table@,
            builders: self.builders@.map_values(|b: GenericListPageBuilder| (b.kind, b.items@)),
        }
    }
}

impl DossierView {
    /// Every entry is held under its own id.
    pub open spec fn wf(self) -> bool {
        forall|k: u64| #[trigger] self.entries.contains_key(k) ==> self.entries[k].spec_id() == k
    }

    /// Whether a link from the entry `from_id` to `id` can be written: `id`
    /// is not registered, and the link degrades to plain text, or the mapper
    /// can resolve it.
    pub open spec fn can_link(self, mapper: &SiteMapper, from_id: u64, id: u64) -> bool {
        self.entries.contains_key(id) ==> mapper@.can_link(mapper.relative(), from_id, id)
    }

    /// The link from the entry `from_id` to the entry `id`, shown as `name`:
    /// a link to the entry's URL where the entry is registered, and the plain
    /// name where it is not.
    pub open spec fn link(self, mapper: &SiteMapper, from_id: u64, name: Seq<char>, id: u64)
        -> SegmentView {
        if self.entries.contains_key(id) {
            SegmentView::Link(name, mapper@.entry_url(mapper.config.url_scheme, from_id, id))
        } else {
            SegmentView::Text(name)
        }
    }

    /// The link from the entry `from_id` to the mask (`mask`) or scope whose
    /// name the string table holds under `target`.
    pub open spec fn link_to(self, mapper: &SiteMapper, from_id: u64, mask: bool, target: usize)
        -> SegmentView {
        self.link(
            mapper,
            from_id,
            self.table[target as int],
            named_id(mask, self.table[target as int]),
        )
    }

    /// The links from the entry `from_id` to each of the scopes `scopes`.
    pub open spec fn links_to_scopes(self, mapper: &SiteMapper, from_id: u64, scopes: Seq<usize>)
        -> Seq<SegmentView> {
        scopes.map_values(|s: usize| self.link_to(mapper, from_id, false, s))
    }

    /// Whether every link that `entry` makes can be written.
    pub open spec fn can_link_all(self, mapper: &SiteMapper, entry: DocEntry) -> bool {
        forall|i: int|
            0 <= i < entry.spec_references().len() ==> self.can_link(
                mapper,
                entry.spec_id(),
                target_id(#[trigger] entry.spec_references()[i], self.table),
            )
    }

    /// Whether the names that `entry` refers to are in the string table.
    pub open spec fn knows_names_of(self, entry: DocEntry) -> bool {
        forall|i: int|
            0 <= i < entry.spec_references().len() ==> (#[trigger] entry.spec_references()[i]).target
                < self.table.len()
    }

    /// Whether `entry` can be added: it names no category, or one that the
    /// registry holds.
    pub open spec fn accepts(self, entry: DocEntry) -> bool {
        match entry.spec_category_id() {
            Some(c) => category_index(self.categories, c) is Some,
            None => true,
        }
    }

    /// The registry after `entry` was added: the entry's category lists it,
    /// the index holds the entry's references, and the registry holds the
    /// entry under its id. An entry that cannot be added changes nothing.
    pub open spec fn add_entry(self, entry: DocEntry) -> DossierView {
        if !self.accepts(entry) {
            self
        } else {
            DossierView {
                categories: match entry.spec_category_id() {
                    Some(c) => {
                        let i = category_index(self.categories, c).unwrap();
                        self.categories.update(
                            i,
                            CategoryView {
                                entries: self.categories[i].entries.push(entry.spec_id()),
                                ..self.categories[i]
                            },
                        )
                    },
                    None => self.categories,
                },
                entries: self.entries.insert(entry.spec_id(), entry),
                references: self.references + edges_of(
                    entry.spec_id(),
                    entry.spec_references(),
                    self.table,
                ),
                table: self.table,
                builders: self.builders,
            }
        }
    }

    /// The registry after the first `n` of `entries` were added, in order,
    /// and whether all of them could be added. After one that cannot be
    /// added nothing more is added.
    pub open spec fn add_entries(self, entries: Seq<DocEntry>, n: nat) -> (DossierView, bool)
        decreases n,
    {
        if n == 0 || n > entries.len() {
            (self, true)
        } else {
            let before = self.add_entries(entries, (n - 1) as nat);
            if !before.1 {
                before
            } else if !before.0.accepts(entries[n - 1]) {
                (before.0, false)
            } else {
                (before.0.add_entry(entries[n - 1]), true)
            }
        }
    }
}

/// The position of the first category with the id `id`.
pub fn find_category(categories: &Vec<DocCategory>, id: u64) -> (r: Option<usize>)
    ensures
        match r {
            Some(i) => category_index(category_views(categories@), id) == Some(i as int) && i
                < categories@.len() && categories@[i as int].id == id,
            None => category_index(category_views(categories@), id) is None,
        },
{
    let ghost all = category_views(categories@);
    let mut i: usize = 0;
    while i < categories.len()
        invariant
            all == category_views(categories@),
            i <= categories@.len(),
            category_index(all.take(i as int), id) is None,
        decreases categories@.len() - i,
    {
        proof {
            assert(all.take(i + 1).drop_last() =~= all.take(i as int));
            assert(all.take(i + 1).last() == categories@[i as int]@);
        }
        if categories[i].id == id {
            proof {
                lemma_category_index_stays(all, i + 1, id);
            }
            return Some(i);
        }
        i += 1;
    }
    assert(all.take(i as int) =~= all);
    None
}

/// The first category with an id stays the first when more categories
/// follow.
proof fn lemma_category_index_stays(all: Seq<CategoryView>, n: int, id: u64)
    requires
        0 <= n <= all.len(),
        category_index(all.take(n), id) is Some,
    ensures
        category_index(all, id) == category_index(all.take(n), id),
    decreases all.len() - n,
{
    if n < all.len() {
        assert(all.take(n + 1).drop_last() =~= all.take(n));
        lemma_category_index_stays(all, n + 1, id);
    } else {
        assert(all.take(n) =~= all);
    }
}

impl Dossier {
    /// A registry that holds `categories` and no entries yet. Of several
    /// categories with one id the last one stays, at the place of the first.
    pub fn new(
        config: Config,
        categories: Vec<DocCategory>,
        string_table: StringTable,
        info: DocInfo,
    ) -> (r: Dossier)
        ensures
            r@.categories == registered(category_views(categories@)),
            r@.entries == Map::<u64, DocEntry>::empty(),
            r@.references == Seq::<ReferenceView>::empty(),
            r@.table == string_table@,
            r@.builders == Seq::<(ListKind, Seq<usize>)>::empty(),
            r@.wf(),
            r.config == config,
            r.info == info,
    {
        let ghost all = category_views(categories@);
        let n = categories.len();
        let mut rest = categories;
        let mut turned: Vec<DocCategory> = Vec::new();
        while rest.len() > 0
            invariant
                turned@.len() + rest@.len() == all.len(),
                forall|j: int| 0 <= j < rest@.len() ==> (#[trigger] rest@[j])@ == all[j],
                forall|j: int|
                    0 <= j < turned@.len() ==> (#[trigger] turned@[j])@ == all[all.len() - 1 - j],
            decreases rest@.len(),
        {
            let c = rest.pop().unwrap();
            turned.push(c);
        }
        let mut kept: Vec<DocCategory> = Vec::new();
        let mut i: usize = 0;
        while turned.len() > 0
            invariant
                all.len() == n,
                i + turned@.len() == all.len(),
                forall|j: int|
                    0 <= j < turned@.len() ==> (#[trigger] turned@[j])@ == all[all.len() - 1 - j],
                category_views(kept@) == registered(all.take(i as int)),
            decreases turned@.len(),
        {
            let c = turned.pop().unwrap();
            proof {
                assert(all.take(i + 1).drop_last() =~= all.take(i as int));
                assert(all.take(i + 1).last() == c@);
            }
            let ghost before = category_views(kept@);
            match find_category(&kept, c.id) {
                Some(at) => {
                    kept.remove(at);
                    kept.insert(at, c);
                    assert(category_views(kept@) =~= before.update(at as int, c@));
                },
                None => {
                    kept.push(c);
                    assert(category_views(kept@) =~= before.push(c@));
                },
            }
            i += 1;
        }
        assert(all.take(i as int) =~= all);
        let r = Dossier {
            categories: kept,
            entries: HashMap::new(),
            info,
            config,
            cross_references: Vec::new(),
            string_table,
            builders: Vec::new(),
        };
        assert(r@.references =~= Seq::<ReferenceView>::empty());
        assert(r@.builders =~= Seq::<(ListKind, Seq<usize>)>::empty());
        r
    }

    /// Records that the property `prop` of the entry `this_id` points at the
    /// entry `that_id`. The target need not be registered.
    pub fn add_reference(&mut self, prop: &str, this_id: u64, that_id: u64)
        ensures
            final(self)@ == (DossierView {
                references: old(self)@.references.push(
                    ReferenceView { from_id: this_id, from_property: prop@, to_id: that_id },
                ),
                ..old(self)@
            }),
            final(self).config == old(self).config,
            final(self).info == old(self).info,
    {
        self.cross_references.push(
            CrossReference { from_id: this_id, from_property: prop.to_owned(), to_id: that_id },
        );
        assert(self@.references =~= old(self)@.references.push(
            ReferenceView { from_id: this_id, from_property: prop@, to_id: that_id },
        ));
    }

    /// Records that the property `prop` of the entry `this_id` points at the
    /// scope whose name the string table holds under `scope`.
    pub fn add_scope_reference(&mut self, prop: &str, this_id: u64, scope: usize)
        requires
            scope < old(self)@.table.len(),
        ensures
            final(self)@ == (DossierView {
                references: old(self)@.references.push(
                    ReferenceView {
                        from_id: this_id,
                        from_property: prop@,
                        to_id: scope_entry_id(old(self)@.table[scope as int]),
                    },
                ),
                ..old(self)@
            }),
            final(self).config == old(self).config,
            final(self).info == old(self).info,
    {
        let id = match self.string_table.get(scope) {
            Some(name) => ScopePage::entry_id_for_name(name.as_str()),
            None => 0,
        };
        self.add_reference(prop, this_id, id);
    }

    /// Records that the property `prop` of the entry `this_id` points at the
    /// mask whose name the string table holds under `mask`.
    pub fn add_mask_reference(&mut self, prop: &str, this_id: u64, mask: usize)
        requires
            mask < old(self)@.table.len(),
        ensures
            final(self)@ == (DossierView {
                references: old(self)@.references.push(
                    ReferenceView {
                        from_id: this_id,
                        from_property: prop@,
                        to_id: mask_entry_id(old(self)@.table[mask as int]),
                    },
                ),
                ..old(self)@
            }),
            final(self).config == old(self).config,
            final(self).info == old(self).info,
    {
        let id = match self.string_table.get(mask) {
            Some(name) => MaskPage::entry_id_for_name(name.as_str()),
            None => 0,
        };
        self.add_reference(prop, this_id, id);
    }

    /// The link from the entry `from` to the entry `id`, shown as `name`.
    /// Where no entry is registered under `id` the name is shown as plain
    /// text.
    pub fn link_for_entry(&self, context: &PageContext, from: &DocEntry, name: &str, id: &u64) -> (r:
        DocStringSegment)
        requires
            self@.can_link(context.mapper, from.spec_id(), *id),
        ensures
            r@ == self@.link(context.mapper, from.spec_id(), name@, *id),
    {
        if self.entries.contains_key(id) {
            let url = context.mapper.url_for_entry(from.id(), *id);
            return DocStringSegment::Link { contents: name.to_owned(), url };
        }
        DocStringSegment::Text { contents: name.to_owned() }
    }

    /// The link from the entry `from` to the scope whose name the string
    /// table holds under `scope`.
    pub fn link_for_scope(&self, context: &PageContext, from: &DocEntry, scope: &usize) -> (r:
        DocStringSegment)
        requires
            *scope < self@.table.len(),
            self@.can_link(
                context.mapper,
                from.spec_id(),
                scope_entry_id(self@.table[*scope as int]),
            ),
        ensures
            r@ == self@.link_to(context.mapper, from.spec_id(), false, *scope),
    {
        match self.string_table.get(*scope) {
            Some(name) => {
                let id = ScopePage::entry_id_for_name(name.as_str());
                self.link_for_entry(context, from, name.as_str(), &id)
            },
            None => DocStringSegment::Text { contents: String::new() },
        }
    }

    /// The link from the entry `from` to the mask whose name the string
    /// table holds under `mask`.
    pub fn link_for_mask(&self, context: &PageContext, from: &DocEntry, mask: &usize) -> (r:
        DocStringSegment)
        requires
            *mask < self@.table.len(),
            self@.can_link(context.mapper, from.spec_id(), mask_entry_id(self@.table[*mask as int])),
        ensures
            r@ == self@.link_to(context.mapper, from.spec_id(), true, *mask),
    {
        match self.string_table.get(*mask) {
            Some(name) => {
                let id = MaskPage::entry_id_for_name(name.as_str());
                self.link_for_entry(context, from, name.as_str(), &id)
            },
            None => DocStringSegment::Text { contents: String::new() },
        }
    }

    /// The links from the entry `from` to each of the scopes `scopes`.
    pub fn links_for_scopes(&self, context: &PageContext, from: &DocEntry, scopes: &Vec<usize>) -> (r:
        Vec<DocStringSegment>)
        requires
            forall|i: int|
                0 <= i < scopes@.len() ==> (#[trigger] scopes@[i]) < self@.table.len()
                    && self@.can_link(
                    context.mapper,
                    from.spec_id(),
                    scope_entry_id(self@.table[scopes@[i] as int]),
                ),
        ensures
            segment_views(r@) == self@.links_to_scopes(context.mapper, from.spec_id(), scopes@),
    {
        let mut r: Vec<DocStringSegment> = Vec::new();
        let mut i: usize = 0;
        while i < scopes.len()
            invariant
                    forall|i: int|
                    0 <= i < scopes@.len() ==> (#[trigger] scopes@[i]) < self@.table.len()
                        && self@.can_link(
                        context.mapper,
                        from.spec_id(),
                        scope_entry_id(self@.table[scopes@[i] as int]),
                    ),
                i <= scopes@.len(),
                r@.len() == i,
                forall|j: int|
                    0 <= j < i ==> (#[trigger] r@[j])@ == self@.link_to(
                        context.mapper,
                        from.spec_id(),
                        false,
                        scopes@[j],
                    ),
            decreases scopes@.len() - i,
        {
            assert(scopes@[i as int] < self@.table.len());
            let link = self.link_for_scope(context, from, &scopes[i]);
            r.push(link);
            i += 1;
        }
        assert(segment_views(r@) =~= self@.links_to_scopes(
            context.mapper,
            from.spec_id(),
            scopes@,
        ));
        r
    }

    /// The ids of the entries that refer to `id`: one for every reference,
    /// in the order in which the references were recorded.
    pub fn find_references_to(&self, id: u64) -> (r: Vec<u64>)
        ensures
            r@ == sources_of(self@.references, id),
    {
        let ghost all = self@.references;
        let ghost pred = |c: ReferenceView| c.to_id == id;
        let ghost from = |c: ReferenceView| c.from_id;
        let mut r: Vec<u64> = Vec::new();
        let mut i: usize = 0;
        proof {
            reveal(Seq::filter);
            assert(all.take(0).filter(pred) =~= Seq::<ReferenceView>::empty());
        }
        while i < self.cross_references.len()
            invariant
                all == reference_views(self.cross_references@),
                pred == |c: ReferenceView| c.to_id == id,
                from == |c: ReferenceView| c.from_id,
                i <= all.len(),
                r@ == all.take(i as int).filter(pred).map_values(from),
            decreases all.len() - i,
        {
            proof {
                reveal(Seq::filter);
                assert(all.take(i + 1).drop_last() =~= all.take(i as int));
                assert(all.take(i + 1).last() == self.cross_references@[i as int]@);
            }
            if self.cross_references[i].to_id == id {
                r.push(self.cross_references[i].from_id);
                proof {
                    assert(all.take(i + 1).filter(pred) == all.take(i as int).filter(pred).push(
                        all[i as int],
                    ));
                    assert(r@ =~= all.take(i + 1).filter(pred).map_values(from));
                }
            }
            i += 1;
        }
        assert(all.take(i as int) =~= all);
        r
    }

    /// Adds one entry: lists it in its category, records its references and
    /// takes it into the registry. An entry that names a category which the
    /// registry does not hold is refused, and nothing changes.
    pub fn add_entry(&mut self, entry: DocEntry) -> (r: Result<(), Error>)
        requires
            old(self)@.knows_names_of(entry),
        ensures
            final(self)@ == old(self)@.add_entry(entry),
            final(self).config == old(self).config,
            final(self).info == old(self).info,
            old(self)@.accepts(entry) ==> r is Ok,
            !old(self)@.accepts(entry) ==> r matches Err(Error::MissingCategory),
            old(self)@.wf() ==> final(self)@.wf(),
    {
        let ghost before = self@;
        let id = entry.id();
        if let Some(category_id) = entry.category_id() {
            match find_category(&self.categories, category_id) {
                Some(at) => {
                    let mut category = self.categories.remove(at);
                    category.entries.push(id);
                    self.categories.insert(at, category);
                    assert(category_views(self.categories@) =~= before.categories.update(
                        at as int,
                        CategoryView {
                            entries: before.categories[at as int].entries.push(id),
                            ..before.categories[at as int]
                        },
                    ));
                },
                None => {
                    return Err(Error::MissingCategory);
                },
            }
        }
        entry.record_cross_references(self);
        self.entries.insert(id, entry);
        proof {
            if before.wf() {
                assert forall|k: u64| #[trigger] self@.entries.contains_key(k) implies self@.entries[k].spec_id()
                    == k by {
                    if k != id {
                        assert(before.entries.contains_key(k));
                    }
                }
            }
        }
        Ok(())
    }

    /// Adds `entries` in order. The first entry that names a category which
    /// the registry does not hold ends the build with `MissingCategory`: it
    /// and the entries after it are not added.
    pub fn add_entries(&mut self, entries: Vec<DocEntry>) -> (r: Result<(), Error>)
        requires
            forall|i: int|
                0 <= i < entries@.len() ==> old(self)@.knows_names_of(#[trigger] entries@[i]),
        ensures
            final(self)@ == old(self)@.add_entries(entries@, entries@.len()).0,
            final(self).config == old(self).config,
            final(self).info == old(self).info,
            old(self)@.add_entries(entries@, entries@.len()).1 ==> r is Ok,
            !old(self)@.add_entries(entries@, entries@.len()).1 ==> r matches Err(
                Error::MissingCategory,
            ),
            old(self)@.wf() ==> final(self)@.wf(),
    {
        let ghost start = self@;
        let ghost all = entries@;
        let n = entries.len();
        let mut rest = entries;
        let mut turned: Vec<DocEntry> = Vec::new();
        while rest.len() > 0
            invariant
                turned@.len() + rest@.len() == all.len(),
                forall|j: int| 0 <= j < rest@.len() ==> (#[trigger] rest@[j]) == all[j],
                forall|j: int|
                    0 <= j < turned@.len() ==> (#[trigger] turned@[j]) == all[all.len() - 1 - j],
            decreases rest@.len(),
        {
            let e = rest.pop().unwrap();
            turned.push(e);
        }
        let mut i: usize = 0;
        while turned.len() > 0
            invariant
                all.len() == n,
                i + turned@.len() == all.len(),
                forall|j: int|
                    0 <= j < turned@.len() ==> (#[trigger] turned@[j]) == all[all.len() - 1 - j],
                forall|j: int| 0 <= j < all.len() ==> start.knows_names_of(#[trigger] all[j]),
                self@.table == start.table,
                start == old(self)@,
                all == entries@,
                start.wf() ==> self@.wf(),
                self.config == old(self).config,
                self.info == old(self).info,
                (self@, true) == start.add_entries(all, i as nat),
            decreases turned@.len(),
        {
            let e = turned.pop().unwrap();
            assert(e == all[i as int]);
            assert(start.knows_names_of(all[i as int]));
            let ghost before = self@;
            let step = self.add_entry(e);
            proof {
                assert(start.add_entries(all, (i + 1) as nat) == if before.accepts(e) {
                    (before.add_entry(e), true)
                } else {
                    (before, false)
                });
            }
            if let Err(error) = step {
                proof {
                    assert(!before.accepts(e));
                    lemma_add_entries_stops(start, all, (i + 1) as nat, all.len());
                }
                return Err(error);
            }
            i += 1;
        }
        Ok(())
    }
}

/// Once an entry was refused, the entries after it change nothing.
proof fn lemma_add_entries_stops(start: DossierView, entries: Seq<DocEntry>, n: nat, m: nat)
    requires
        n <= m <= entries.len(),
        !start.add_entries(entries, n).1,
    ensures
        start.add_entries(entries, m) == start.add_entries(entries, n),
    decreases m,
{
    if m > n {
        lemma_add_entries_stops(start, entries, n, (m - 1) as nat);
    }
}

} // verus!
