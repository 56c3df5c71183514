//! The payload of a page: what a template is given to render, with every
//! link resolved.

use vstd::prelude::*;
use crate::collate::{CollatedCrossReferences, GroupView};
use crate::docstring::{DocString, DocStringSegment, DocStringSer, SegmentView};
use crate::dossier::{Dossier, DossierView};
use crate::dossier::{find_category, named_id, target_id};
use crate::entry::{out_refs, DocEntry, ScriptDocContent};
use crate::page::{MaskPage, ScopePage};
use crate::mapper::SiteMapper;
use crate::page::{Page, PageContext, PaginationInfo};
use crate::paths::relative_url;

verus! {

broadcast use vstd::std_specs::hash::group_hash_axioms;

/// A property of an entry, as a listing shows it.
#[derive(Debug)]
pub struct Property {
    pub name: String,
    pub value: DocStringSer,
}

/// An entry, as a category's listing shows it.
#[derive(Debug)]
pub struct EntryData {
    pub anchor: String,
    pub name: String,
    pub body: Option<DocStringSer>,
    pub properties: Vec<Property>,
    pub cross_refs: CollatedCrossReferences,
}

/// A modifier, as the page of its mask shows it.
#[derive(Debug)]
pub struct ModifierData {
    pub name: String,
    pub display_name: Option<DocStringSer>,
    pub description: Option<DocStringSer>,
}

/// The payload of a page, by the kind of the page.
#[derive(Debug)]
pub enum PageData {
    CategoryList { body: DocStringSer, entries: Vec<EntryData>, pagination: PaginationInfo },
    Index { items: Vec<DocStringSer> },
    Scope { cross_refs: CollatedCrossReferences },
    Mask { modifiers: Vec<ModifierData>, pagination: PaginationInfo },
}

/// An entry of a listing over plain values.
pub struct EntryDataView {
    pub anchor: Seq<char>,
    pub name: Seq<char>,
    pub body: Option<Seq<SegmentView>>,
    pub properties: Seq<(Seq<char>, Seq<SegmentView>)>,
    pub cross_refs: Seq<GroupView>,
}

/// A modifier over plain values.
pub struct ModifierView {
    pub name: Seq<char>,
    pub display_name: Option<Seq<SegmentView>>,
    pub description: Option<Seq<SegmentView>>,
}

/// A payload over plain values.
pub enum PageDataView {
    CategoryList {
        body: Seq<SegmentView>,
        entries: Seq<EntryDataView>,
        pagination: PaginationInfo,
    },
    Index { items: Seq<Seq<SegmentView>> },
    Scope { cross_refs: Seq<GroupView> },
    Mask { modifiers: Seq<ModifierView>, pagination: PaginationInfo },
}

/// The segments of optional rich text.
pub open spec fn opt_doc(d: Option<DocString>) -> Option<Seq<SegmentView>> {
    match d {
        Some(d) => Some(d@),
        None => None,
    }
}

/// The segments of optional rich text that renders itself.
pub open spec fn opt_ser(d: Option<DocStringSer>) -> Option<Seq<SegmentView>> {
    match d {
        Some(d) => Some(d.0@),
        None => None,
    }
}

impl View for EntryData {
    type V = EntryDataView;

    open spec fn view(&self) -> EntryDataView {
        EntryDataView {
            anchor: self.anchor@,
            name: self.name@,
            body: opt_ser(self.body),
            properties: self.properties@.map_values(|p: Property| (p.name@, p.value.0@)),
            cross_refs: self.cross_refs@,
        }
    }
}

impl View for ModifierData {
    type V = ModifierView;

    open spec fn view(&self) -> ModifierView {
        ModifierView {
            name: self.name@,
            display_name: opt_ser(self.display_name),
            description: opt_ser(self.description),
        }
    }
}

impl View for PageData {
    type V = PageDataView;

    open spec fn view(&self) -> PageDataView {
        match self {
            PageData::CategoryList { body, entries, pagination } => PageDataView::CategoryList {
                body: body.0@,
                entries: entries@.map_values(|e: EntryData| e@),
                pagination: *pagination,
            },
            PageData::Index { items } => PageDataView::Index {
                items: items@.map_values(|d: DocStringSer| d.0@),
            },
            PageData::Scope { cross_refs } => PageDataView::Scope { cross_refs: cross_refs@ },
            PageData::Mask { modifiers, pagination } => PageDataView::Mask {
                modifiers: modifiers@.map_values(|m: ModifierData| m@),
                pagination: *pagination,
            },
        }
    }
}

impl DossierView {
    /// Whether the entry `id` can be shown in a listing: it is registered,
    /// its links can be written and the references to it collated.
    pub open spec fn can_show_entry(self, mapper: &SiteMapper, id: u64) -> bool {
        &&& self.entries.contains_key(id)
        &&& self.knows_names_of(self.entries[id])
        &&& self.can_link_all(mapper, self.entries[id])
        &&& self.can_collate(mapper, id)
    }

    /// The entry `id` as a listing shows it: under its name as anchor, with
    /// its description, its properties and the references to it.
    pub open spec fn entry_data(self, mapper: &SiteMapper, id: u64) -> EntryDataView {
        let e = self.entries[id];
        EntryDataView {
            anchor: e.spec_name(),
            name: e.spec_name(),
            body: opt_doc(e.spec_body()),
            properties: e.spec_properties(self, mapper),
            cross_refs: self.collated(mapper, id),
        }
    }

    /// Whether the entry `id` is a registered modifier.
    pub open spec fn is_modifier(self, id: u64) -> bool {
        self.entries.contains_key(id) && match self.entries[id] {
            DocEntry::Script(e) => e.content matches Some(ScriptDocContent::Modifiers { .. }),
            DocEntry::Empty(_) => false,
        }
    }

    /// The modifier `id` as the page of its mask shows it.
    pub open spec fn modifier_data(self, id: u64) -> ModifierView {
        match self.entries[id] {
            DocEntry::Script(e) => match e.content {
                Some(ScriptDocContent::Modifiers { display_name, description, .. }) => ModifierView {
                    name: e.name@,
                    display_name: opt_doc(display_name),
                    description: opt_doc(description),
                },
                _ => arbitrary(),
            },
            DocEntry::Empty(_) => arbitrary(),
        }
    }

    /// Whether the index page `page_id` can link to the entry `id`.
    pub open spec fn can_index(self, mapper: &SiteMapper, page_id: u64, id: u64) -> bool {
        self.entries.contains_key(id) && mapper@.can_reach(page_id, id)
    }

    /// The link by which the index page `page_id` lists the entry `id`.
    pub open spec fn index_item(self, mapper: &SiteMapper, page_id: u64, id: u64) -> Seq<
        SegmentView,
    > {
        seq![
            SegmentView::Link(
                self.entries[id].spec_name(),
                relative_url(
                    mapper@.paths[page_id].1,
                    mapper@.paths[mapper@.entry_pages[id]].1,
                ).unwrap(),
            ),
        ]
    }

    /// Whether the payload of `page` can be made: what the page shows is
    /// registered, and every link on it can be resolved.
    pub open spec fn can_render(self, mapper: &SiteMapper, page: Page) -> bool {
        match page {
            Page::CategoryList(p) => self.can_show_all(mapper, p.entries@),
            Page::Index(p) => self.can_index_all(mapper, p.id, p.entries@),
            Page::Scope(p) => self.can_collate(mapper, p.entry_id),
            Page::Mask(p) => self.are_modifiers(p.modifiers@),
        }
    }

    /// Whether each of the entries `ids` can be shown in a listing.
    pub open spec fn can_show_all(self, mapper: &SiteMapper, ids: Seq<u64>) -> bool {
        forall|i: int| 0 <= i < ids.len() ==> self.can_show_entry(mapper, #[trigger] ids[i])
    }

    /// Whether the index page `page_id` can link to each of the entries
    /// `ids`.
    pub open spec fn can_index_all(self, mapper: &SiteMapper, page_id: u64, ids: Seq<u64>) -> bool {
        forall|i: int| 0 <= i < ids.len() ==> self.can_index(mapper, page_id, #[trigger] ids[i])
    }

    /// Whether each of the entries `ids` is a registered modifier.
    pub open spec fn are_modifiers(self, ids: Seq<u64>) -> bool {
        forall|i: int| 0 <= i < ids.len() ==> self.is_modifier(#[trigger] ids[i])
    }

    /// The payload of `page`.
    pub open spec fn page_data(self, mapper: &SiteMapper, page: Page) -> PageDataView {
        match page {
            Page::CategoryList(p) => PageDataView::CategoryList {
                body: Seq::empty(),
                entries: p.entries@.map_values(|id: u64| self.entry_data(mapper, id)),
                pagination: p.page,
            },
            Page::Index(p) => PageDataView::Index {
                items: p.entries@.map_values(|id: u64| self.index_item(mapper, p.id, id)),
            },
            Page::Scope(p) => PageDataView::Scope { cross_refs: self.collated(mapper, p.entry_id) },
            Page::Mask(p) => PageDataView::Mask {
                modifiers: p.modifiers@.map_values(|id: u64| self.modifier_data(id)),
                pagination: p.page,
            },
        }
    }
}

/// A copy of optional rich text, to be rendered for the page `page_id`.
fn duplicate_opt(d: &Option<DocString>, page_id: u64) -> (r: Option<DocStringSer>)
    ensures
        opt_ser(r) == opt_doc(*d),
{
    match d {
        Some(d) => Some(DocStringSer(d.duplicate(), page_id)),
        None => None,
    }
}

impl Dossier {
    /// The entry `id` as the listing on the page `page_id` shows it.
    pub fn entry_data(&self, context: &PageContext, page_id: u64, id: u64) -> (r: EntryData)
        requires
            self@.can_show_entry(context.mapper, id),
        ensures
            r@ == self@.entry_data(context.mapper, id),
    {
        let entry = match self.entries.get(&id) {
            Some(entry) => entry,
            None => {
                return EntryData {
                    anchor: String::new(),
                    name: String::new(),
                    body: None,
                    properties: Vec::new(),
                    cross_refs: CollatedCrossReferences { groups: Vec::new() },
                };
            },
        };
        let mut found = entry.properties(context, self);
        let ghost all = crate::entry::property_views(found@);
        let ghost total = found@.len();
        let mut turned: Vec<(String, DocString)> = Vec::new();
        while found.len() > 0
            invariant
                turned@.len() + found@.len() == total,
                total == all.len(),
                forall|j: int|
                    0 <= j < found@.len() ==> ((#[trigger] found@[j]).0@, found@[j].1@) == all[j],
                forall|j: int|
                    0 <= j < turned@.len() ==> ((#[trigger] turned@[j]).0@, turned@[j].1@)
                        == all[total - 1 - j],
            decreases found@.len(),
        {
            let p = found.pop().unwrap();
            turned.push(p);
        }
        let mut properties: Vec<Property> = Vec::new();
        while turned.len() > 0
            invariant
                properties@.len() + turned@.len() == total,
                total == all.len(),
                forall|j: int|
                    0 <= j < turned@.len() ==> ((#[trigger] turned@[j]).0@, turned@[j].1@)
                        == all[total - 1 - j],
                forall|j: int|
                    0 <= j < properties@.len() ==> ((#[trigger] properties@[j]).name@, properties@[j].value.0@)
                        == all[j],
            decreases turned@.len(),
        {
            let (name, value) = turned.pop().unwrap();
            properties.push(Property { name, value: DocStringSer(value, page_id) });
        }
        let body = match entry.body() {
            Some(d) => Some(DocStringSer(d.duplicate(), page_id)),
            None => None,
        };
        let r = EntryData {
            anchor: entry.name().to_owned(),
            name: entry.name().to_owned(),
            body,
            properties,
            cross_refs: self.collate_references(context, page_id, id),
        };
        assert(r@.properties =~= all);
        r
    }

    /// The modifier `id` as the page `page_id` of its mask shows it.
    pub fn modifier_data(&self, page_id: u64, id: u64) -> (r: ModifierData)
        requires
            self@.is_modifier(id),
        ensures
            r@ == self@.modifier_data(id),
    {
        match self.entries.get(&id) {
            Some(DocEntry::Script(e)) => match &e.content {
                Some(ScriptDocContent::Modifiers { display_name, description, .. }) => {
                    return ModifierData {
                        name: e.name.clone(),
                        display_name: duplicate_opt(display_name, page_id),
                        description: duplicate_opt(description, page_id),
                    };
                },
                _ => {},
            },
            _ => {},
        }
        ModifierData { name: String::new(), display_name: None, description: None }
    }
}

impl Dossier {
    /// Whether the names that `entry` refers to are in the string table.
    pub fn names_known(&self, entry: &DocEntry) -> (r: bool)
        ensures
            r == self@.knows_names_of(*entry),
    {
        let refs = entry.references();
        let known = self.string_table.strings.len();
        let mut i: usize = 0;
        while i < refs.len()
            invariant
                known == self@.table.len(),
                out_refs(refs@) == entry.spec_references(),
                i <= refs@.len(),
                forall|j: int|
                    0 <= j < i ==> (#[trigger] entry.spec_references()[j]).target
                        < self@.table.len(),
            decreases refs@.len() - i,
        {
            assert(out_refs(refs@)[i as int] == refs@[i as int]@);
            if refs[i].target >= known {
                assert(entry.spec_references()[i as int].target >= self@.table.len());
                return false;
            }
            i += 1;
        }
        true
    }

    /// Whether every link that `entry` makes can be written.
    pub fn links_resolve(&self, context: &PageContext, entry: &DocEntry) -> (r: bool)
        requires
            self@.knows_names_of(*entry),
        ensures
            r == self@.can_link_all(context.mapper, *entry),
    {
        let refs = entry.references();
        let from = entry.id();
        let mut i: usize = 0;
        while i < refs.len()
            invariant
                self@.knows_names_of(*entry),
                from == entry.spec_id(),
                out_refs(refs@) == entry.spec_references(),
                i <= refs@.len(),
                forall|j: int|
                    0 <= j < i ==> self@.can_link(
                        context.mapper,
                        entry.spec_id(),
                        target_id(#[trigger] entry.spec_references()[j], self@.table),
                    ),
            decreases refs@.len() - i,
        {
            assert(out_refs(refs@)[i as int] == refs@[i as int]@);
            assert(entry.spec_references()[i as int].target < self@.table.len());
            let id = match self.string_table.get(refs[i].target) {
                Some(name) => if refs[i].mask {
                    MaskPage::entry_id_for_name(name.as_str())
                } else {
                    ScopePage::entry_id_for_name(name.as_str())
                },
                None => 0,
            };
            assert(id == target_id(entry.spec_references()[i as int], self@.table));
            if self.entries.contains_key(&id) && context.mapper.try_url_for_entry(from, id).is_none() {
                assert(!self@.can_link(
                    context.mapper,
                    entry.spec_id(),
                    target_id(entry.spec_references()[i as int], self@.table),
                ));
                return false;
            }
            i += 1;
        }
        true
    }

    /// Whether the entry `from_id` can be shown as a source of a reference to
    /// `item`.
    pub fn can_show_source(&self, context: &PageContext, item: u64, from_id: u64) -> (r: bool)
        ensures
            r == self@.can_show_source(context.mapper, item, from_id),
    {
        let source = match self.entries.get(&from_id) {
            Some(source) => source,
            None => {
                return false;
            },
        };
        let category = match source.category_id() {
            Some(category) => category,
            None => {
                return false;
            },
        };
        find_category(&self.categories, category).is_some() && context.mapper.try_url_for_entry(
            item,
            from_id,
        ).is_some()
    }

    /// Whether the references to `item` can be collated.
    pub fn can_collate(&self, context: &PageContext, item: u64) -> (r: bool)
        ensures
            r == self@.can_collate(context.mapper, item),
    {
        match self.entries.get(&item) {
            Some(entry) => {
                if entry.id() != item {
                    return false;
                }
            },
            None => {
                return false;
            },
        }
        let ghost d = self@;
        let mut i: usize = 0;
        while i < self.cross_references.len()
            invariant
                d == self@,
                i <= self.cross_references@.len(),
                forall|j: int|
                    0 <= j < i && (#[trigger] d.references[j]).to_id == item
                        ==> d.can_show_source(context.mapper, item, d.references[j].from_id),
            decreases self.cross_references@.len() - i,
        {
            let edge = &self.cross_references[i];
            assert(d.references[i as int] == edge@);
            if edge.to_id == item && !self.can_show_source(context, item, edge.from_id) {
                return false;
            }
            i += 1;
        }
        true
    }

    /// Whether the entry `id` can be shown in a listing.
    pub fn can_show_entry(&self, context: &PageContext, id: u64) -> (r: bool)
        ensures
            r == self@.can_show_entry(context.mapper, id),
    {
        match self.entries.get(&id) {
            Some(entry) => self.names_known(entry) && self.links_resolve(context, entry)
                && self.can_collate(context, id),
            None => false,
        }
    }

    /// Whether the entry `id` is a registered modifier.
    pub fn is_modifier(&self, id: u64) -> (r: bool)
        ensures
            r == self@.is_modifier(id),
    {
        match self.entries.get(&id) {
            Some(DocEntry::Script(e)) => match &e.content {
                Some(ScriptDocContent::Modifiers { .. }) => true,
                _ => false,
            },
            _ => false,
        }
    }

    /// Whether the payload of `page` can be made.
    pub fn can_render(&self, context: &PageContext, page: &Page) -> (r: bool)
        ensures
            r == self@.can_render(context.mapper, *page),
    {
        let ghost d = self@;
        match page {
            Page::CategoryList(p) => {
                let mut i: usize = 0;
                while i < p.entries.len()
                    invariant
                        d == self@,
                        *page == Page::CategoryList(*p),
                        i <= p.entries@.len(),
                        forall|j: int|
                            0 <= j < i ==> d.can_show_entry(context.mapper, #[trigger] p.entries@[j]),
                    decreases p.entries@.len() - i,
                {
                    let ready = self.can_show_entry(context, p.entries[i]);
                    if !ready {
                        assert(!d.can_show_entry(context.mapper, p.entries@[i as int]));
                        assert(!d.can_show_all(context.mapper, p.entries@));
                        return false;
                    }
                    i += 1;
                }
                true
            },
            Page::Index(p) => {
                let mut i: usize = 0;
                while i < p.entries.len()
                    invariant
                        d == self@,
                        *page == Page::Index(*p),
                        i <= p.entries@.len(),
                        forall|j: int|
                            0 <= j < i ==> d.can_index(context.mapper, p.id, #[trigger] p.entries@[j]),
                    decreases p.entries@.len() - i,
                {
                    if !self.entries.contains_key(&p.entries[i])
                        || context.mapper.try_page_to_entry_url(&p.id, &p.entries[i]).is_none() {
                        assert(!d.can_index(context.mapper, p.id, p.entries@[i as int]));
                        assert(!d.can_index_all(context.mapper, p.id, p.entries@));
                        return false;
                    }
                    i += 1;
                }
                true
            },
            Page::Scope(p) => self.can_collate(context, p.entry_id),
            Page::Mask(p) => {
                let mut i: usize = 0;
                while i < p.modifiers.len()
                    invariant
                        d == self@,
                        *page == Page::Mask(*p),
                        i <= p.modifiers@.len(),
                        forall|j: int| 0 <= j < i ==> d.is_modifier(#[trigger] p.modifiers@[j]),
                    decreases p.modifiers@.len() - i,
                {
                    let ready = self.is_modifier(p.modifiers[i]);
                    if !ready {
                        assert(!d.is_modifier(p.modifiers@[i as int]));
                        assert(!d.are_modifiers(p.modifiers@));
                        return false;
                    }
                    i += 1;
                }
                true
            },
        }
    }
}

impl Page {
    /// The payload of the page, or `None` where something that the page
    /// shows is not on record or a link on it cannot be resolved.
    pub fn try_data(&self, context: &PageContext, dossier: &Dossier) -> (r: Option<PageData>)
        ensures
            match r {
                Some(data) => dossier@.can_render(context.mapper, *self) && data@
                    == dossier@.page_data(context.mapper, *self),
                None => !dossier@.can_render(context.mapper, *self),
            },
    {
        if dossier.can_render(context, self) {
            Some(self.data(context, dossier))
        } else {
            None
        }
    }

    /// The payload of the page: its entries with their properties and the
    /// references to them, or its links, with every URL resolved through the
    /// mapper of `context`.
    pub fn data(&self, context: &PageContext, dossier: &Dossier) -> (r: PageData)
        requires
            dossier@.can_render(context.mapper, *self),
        ensures
            r@ == dossier@.page_data(context.mapper, *self),
    {
        let ghost d = dossier@;
        match self {
            Page::CategoryList(p) => {
                let page_id = self.id();
                let mut entries: Vec<EntryData> = Vec::new();
                let mut i: usize = 0;
                while i < p.entries.len()
                    invariant
                        d == dossier@,
                        forall|i: int|
                            0 <= i < p.entries@.len() ==> d.can_show_entry(
                                context.mapper,
                                #[trigger] p.entries@[i],
                            ),
                        i <= p.entries@.len(),
                        entries@.len() == i,
                        forall|j: int|
                            0 <= j < i ==> (#[trigger] entries@[j])@ == d.entry_data(
                                context.mapper,
                                p.entries@[j],
                            ),
                    decreases p.entries@.len() - i,
                {
                    assert(d.can_show_entry(context.mapper, p.entries@[i as int]));
                    entries.push(dossier.entry_data(context, page_id, p.entries[i]));
                    i += 1;
                }
                let r = PageData::CategoryList {
                    body: DocStringSer(DocString::empty(), page_id),
                    entries,
                    pagination: p.page,
                };
                assert(r@ =~= d.page_data(context.mapper, *self)) by {
                    assert(entries@.map_values(|e: EntryData| e@) =~= p.entries@.map_values(
                        |id: u64| d.entry_data(context.mapper, id),
                    ));
                }
                r
            },
            Page::Index(p) => {
                let mut items: Vec<DocStringSer> = Vec::new();
                let mut i: usize = 0;
                while i < p.entries.len()
                    invariant
                        d == dossier@,
                        forall|i: int|
                            0 <= i < p.entries@.len() ==> d.can_index(
                                context.mapper,
                                p.id,
                                #[trigger] p.entries@[i],
                            ),
                        i <= p.entries@.len(),
                        items@.len() == i,
                        forall|j: int|
                            0 <= j < i ==> (#[trigger] items@[j]).0@ == d.index_item(
                                context.mapper,
                                p.id,
                                p.entries@[j],
                            ),
                    decreases p.entries@.len() - i,
                {
                    assert(d.can_index(context.mapper, p.id, p.entries@[i as int]));
                    let name = match dossier.entries.get(&p.entries[i]) {
                        Some(entry) => entry.name().to_owned(),
                        None => String::new(),
                    };
                    let url = context.mapper.page_to_entry_url(&p.id, &p.entries[i]);
                    items.push(
                        DocStringSer(
                            DocString::new_from_segment(
                                DocStringSegment::Link { contents: name, url },
                            ),
                            p.id,
                        ),
                    );
                    i += 1;
                }
                let r = PageData::Index { items };
                assert(r@ =~= d.page_data(context.mapper, *self)) by {
                    assert(items@.map_values(|x: DocStringSer| x.0@) =~= p.entries@.map_values(
                        |id: u64| d.index_item(context.mapper, p.id, id),
                    ));
                }
                r
            },
            Page::Scope(p) => PageData::Scope {
                cross_refs: dossier.collate_references(context, self.id(), p.entry_id),
            },
            Page::Mask(p) => {
                let mut modifiers: Vec<ModifierData> = Vec::new();
                let mut i: usize = 0;
                while i < p.modifiers.len()
                    invariant
                        d == dossier@,
                        forall|i: int|
                            0 <= i < p.modifiers@.len() ==> d.is_modifier(
                                #[trigger] p.modifiers@[i],
                            ),
                        i <= p.modifiers@.len(),
                        modifiers@.len() == i,
                        forall|j: int|
                            0 <= j < i ==> (#[trigger] modifiers@[j])@ == d.modifier_data(
                                p.modifiers@[j],
                            ),
                    decreases p.modifiers@.len() - i,
                {
                    assert(d.is_modifier(p.modifiers@[i as int]));
                    modifiers.push(dossier.modifier_data(p.id, p.modifiers[i]));
                    i += 1;
                }
                let r = PageData::Mask { modifiers, pagination: p.page };
                assert(r@ =~= d.page_data(context.mapper, *self)) by {
                    assert(modifiers@.map_values(|m: ModifierData| m@) =~= p.modifiers@.map_values(
                        |id: u64| d.modifier_data(id),
                    ));
                }
                r
            },
        }
    }
}

} // verus!
