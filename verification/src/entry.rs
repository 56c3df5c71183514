//! Entries: the documented units of a profile, parsed or synthesized.

use vstd::prelude::*;
use crate::docstring::{flag_text, separated, DocString, DocStringSegment, SegmentView};
use crate::mapper::SiteMapper;
use crate::page::PageContext;
use crate::paths::texts;
use crate::dossier::{edges_of, Dossier, DossierView};
use crate::util::{hash, spec_hash};

verus! {

/// A placeholder for a synthesized item: it has an id, a category and a
/// name, and no content.
pub struct EmptyDocEntry {
    pub id: u64,
    pub category_id: u64,
    pub name: String,
}

impl EmptyDocEntry {
    /// A placeholder entry.
    pub fn new(id: u64, category_id: u64, name: String) -> (r: EmptyDocEntry)
        ensures
            r.id == id,
            r.category_id == category_id,
            r.name == name,
    {
        EmptyDocEntry { id, category_id, name }
    }
}

/// The categories of parsed entries.
#[derive(Debug, Clone, Copy, PartialEq, Eq, Structural)]
pub enum ScriptDocCategory {
    CustomLocalization,
    Effects,
    EventTargets,
    Modifiers,
    OnActions,
    Triggers,
}

impl ScriptDocCategory {
    /// The stable tag of the category, from which its id derives.
    pub open spec fn spec_tag(self) -> Seq<char> {
        match self {
            ScriptDocCategory::CustomLocalization => "CustomLocalization"@,
            ScriptDocCategory::Effects => "Effects"@,
            ScriptDocCategory::EventTargets => "EventTargets"@,
            ScriptDocCategory::Modifiers => "Modifiers"@,
            ScriptDocCategory::OnActions => "OnActions"@,
            ScriptDocCategory::Triggers => "Triggers"@,
        }
    }

    /// The stable tag of the category, from which its id derives.
    pub fn tag(self) -> (r: &'static str)
        ensures
            r@ == self.spec_tag(),
    {
        match self {
            ScriptDocCategory::CustomLocalization => "CustomLocalization",
            ScriptDocCategory::Effects => "Effects",
            ScriptDocCategory::EventTargets => "EventTargets",
            ScriptDocCategory::Modifiers => "Modifiers",
            ScriptDocCategory::OnActions => "OnActions",
            ScriptDocCategory::Triggers => "Triggers",
        }
    }
}

/// What a parsed entry documents, by category. Scopes and masks are named by
/// their ids in the string table.
pub enum ScriptDocContent {
    CustomLocalization { scope: usize, random_valid: bool, entries: Vec<String> },
    Effects { description: DocString, supported_scopes: Vec<usize>, supported_targets: Vec<usize> },
    EventTargets {
        description: DocString,
        requires_data: bool,
        wild_card: bool,
        global_link: bool,
        input_scopes: Vec<usize>,
        output_scopes: Vec<usize>,
    },
    Modifiers { display_name: Option<DocString>, description: Option<DocString>, mask: usize },
    OnActions { from_code: bool, expected_scope: usize },
    Triggers {
        description: DocString,
        supported_scopes: Vec<usize>,
        supported_targets: Vec<usize>,
    },
}

/// An entry that the script documentation holds.
pub struct ScriptDocEntry {
    pub id: u64,
    pub category: ScriptDocCategory,
    pub name: String,
    pub content: Option<ScriptDocContent>,
}

/// An entry of the registry.
pub enum DocEntry {
    Script(ScriptDocEntry),
    Empty(EmptyDocEntry),
}

/// A reference that an entry makes: the property that makes it, whether it
/// names a mask (or else a scope), and the name's id in the string table.
pub struct OutRef {
    pub property: Seq<char>,
    pub mask: bool,
    pub target: usize,
}

/// A reference that an entry makes.
pub struct Reference {
    pub property: &'static str,
    pub mask: bool,
    pub target: usize,
}

impl View for Reference {
    type V = OutRef;

    open spec fn view(&self) -> OutRef {
        OutRef { property: self.property@, mask: self.mask, target: self.target }
    }
}

/// The references of a list over plain values.
pub open spec fn out_refs(refs: Seq<Reference>) -> Seq<OutRef> {
    refs.map_values(|r: Reference| r@)
}

/// Appends the references that `property` makes to the scopes `targets`.
fn push_scope_refs(refs: &mut Vec<Reference>, property: &'static str, targets: &Vec<usize>)
    ensures
        out_refs(final(refs)@) == out_refs(old(refs)@) + scope_refs(property@, targets@),
{
    let ghost start = out_refs(refs@);
    let mut i: usize = 0;
    assert(start + scope_refs(property@, targets@).take(0) =~= start);
    while i < targets.len()
        invariant
            i <= targets@.len(),
            out_refs(refs@) == start + scope_refs(property@, targets@).take(i as int),
        decreases targets@.len() - i,
    {
        let ghost before = out_refs(refs@);
        refs.push(Reference { property, mask: false, target: targets[i] });
        proof {
            assert(out_refs(refs@) =~= before.push(
                OutRef { property: property@, mask: false, target: targets@[i as int] },
            ));
            assert(out_refs(refs@) =~= start + scope_refs(property@, targets@).take(i + 1));
        }
        i += 1;
    }
    assert(scope_refs(property@, targets@).take(targets@.len() as int) =~= scope_refs(
        property@,
        targets@,
    ));
}

/// The references that the property `property` makes to the scopes
/// `targets`.
pub open spec fn scope_refs(property: Seq<char>, targets: Seq<usize>) -> Seq<OutRef> {
    targets.map_values(|t: usize| OutRef { property, mask: false, target: t })
}

/// `lines`, each but the last followed by a line feed.
pub open spec fn lines_joined(lines: Seq<Seq<char>>) -> Seq<char>
    decreases lines.len(),
{
    if lines.len() == 0 {
        Seq::empty()
    } else if lines.len() == 1 {
        lines[0]
    } else {
        lines_joined(lines.drop_last()) + "\n"@ + lines.last()
    }
}

/// Joins `lines` with line feeds.
pub fn join_lines(lines: &Vec<String>) -> (r: String)
    ensures
        r@ == lines_joined(texts(lines@)),
{
    let ghost all = texts(lines@);
    let mut r = String::new();
    let mut i: usize = 0;
    while i < lines.len()
        invariant
            all == texts(lines@),
            i <= lines@.len(),
            r@ == lines_joined(all.take(i as int)),
        decreases lines@.len() - i,
    {
        proof {
            assert(all.take(i + 1).drop_last() =~= all.take(i as int));
            assert(all.take(i + 1).last() == lines@[i as int]@);
        }
        if i > 0 {
            r.append("\n");
            r.append(lines[i].as_str());
        } else {
            r.append(lines[i].as_str());
            assert(r@ =~= lines@[0]@);
        }
        i += 1;
    }
    assert(all.take(i as int) =~= all);
    r
}

/// The properties of a list over plain values.
pub open spec fn property_views(properties: Seq<(String, DocString)>) -> Seq<
    (Seq<char>, Seq<SegmentView>),
> {
    properties.map_values(|p: (String, DocString)| (p.0@, p.1@))
}

/// The property that shows a flag.
pub open spec fn flag_property(name: Seq<char>, flag: bool) -> (Seq<char>, Seq<SegmentView>) {
    (name, seq![SegmentView::Text(flag_text(flag))])
}

/// The property that links to each of `scopes`, with commas between the
/// links.
pub open spec fn scopes_property(
    name: Seq<char>,
    d: DossierView,
    mapper: &SiteMapper,
    from_id: u64,
    scopes: Seq<usize>,
) -> (Seq<char>, Seq<SegmentView>) {
    (name, separated(d.links_to_scopes(mapper, from_id, scopes), ", "@))
}

impl DocEntry {
    /// The properties that the entry's listing shows, in order, each with its
    /// name: the scopes and masks as links, the flags as `yes` or `no`.
    pub open spec fn spec_properties(&self, d: DossierView, mapper: &SiteMapper) -> Seq<
        (Seq<char>, Seq<SegmentView>),
    > {
        match self {
            DocEntry::Script(e) => match e.content {
                Some(ScriptDocContent::CustomLocalization { scope, random_valid, entries }) => seq![
                    ("Scope"@, seq![d.link_to(mapper, e.id, false, scope)]),
                    flag_property("Random Valid?"@, random_valid),
                    ("Entries"@, seq![SegmentView::Text(lines_joined(texts(entries@)))]),
                ],
                Some(ScriptDocContent::Effects { supported_scopes, supported_targets, .. }) => seq![
                    scopes_property("Supported Scopes"@, d, mapper, e.id, supported_scopes@),
                    scopes_property("Supported Targets"@, d, mapper, e.id, supported_targets@),
                ],
                Some(
                    ScriptDocContent::EventTargets {
                        requires_data,
                        wild_card,
                        global_link,
                        input_scopes,
                        output_scopes,
                        ..
                    },
                ) => seq![
                    flag_property("Requires Data"@, requires_data),
                    flag_property("Wild Card"@, wild_card),
                    flag_property("Global Link"@, global_link),
                    scopes_property("Input Scopes"@, d, mapper, e.id, input_scopes@),
                    scopes_property("Output Scopes"@, d, mapper, e.id, output_scopes@),
                ],
                Some(ScriptDocContent::Modifiers { display_name, mask, .. }) => (match display_name {
                    Some(name) => seq![("Display Name"@, name@)],
                    None => Seq::empty(),
                }).push(("Mask"@, seq![d.link_to(mapper, e.id, true, mask)])),
                Some(ScriptDocContent::OnActions { from_code, expected_scope }) => seq![
                    ("Expected Scope"@, seq![d.link_to(mapper, e.id, false, expected_scope)]),
                    flag_property("From Code"@, from_code),
                ],
                Some(ScriptDocContent::Triggers { supported_scopes, supported_targets, .. }) => seq![
                    scopes_property("Supported Scopes"@, d, mapper, e.id, supported_scopes@),
                    scopes_property("Supported Targets"@, d, mapper, e.id, supported_targets@),
                ],
                None => Seq::empty(),
            },
            DocEntry::Empty(_) => Seq::empty(),
        }
    }

    /// The property that links to each of `scopes`.
    fn scopes_property(
        &self,
        name: &str,
        context: &PageContext,
        dossier: &Dossier,
        scopes: &Vec<usize>,
    ) -> (r: (String, DocString))
        requires
            forall|i: int|
                0 <= i < scopes@.len() ==> (#[trigger] scopes@[i]) < dossier@.table.len()
                    && dossier@.can_link(
                    context.mapper,
                    self.spec_id(),
                    crate::page::scope_entry_id(dossier@.table[scopes@[i] as int]),
                ),
        ensures
            (r.0@, r.1@) == scopes_property(
                name@,
                dossier@,
                context.mapper,
                self.spec_id(),
                scopes@,
            ),
    {
        let links = dossier.links_for_scopes(context, self, scopes);
        (name.to_owned(), DocString::new_from_iter(links, ", "))
    }

    /// The property that shows a flag.
    fn flag(name: &str, flag: bool) -> (r: (String, DocString))
        ensures
            (r.0@, r.1@) == flag_property(name@, flag),
    {
        (name.to_owned(), DocString::from_flag(flag))
    }

    /// The properties that the entry's listing shows, in order.
    pub fn properties(&self, context: &PageContext, dossier: &Dossier) -> (r: Vec<
        (String, DocString),
    >)
        requires
            dossier@.knows_names_of(*self),
            dossier@.can_link_all(context.mapper, *self),
        ensures
            property_views(r@) == self.spec_properties(dossier@, context.mapper),
    {
        let ghost refs = self.spec_references();
        let ghost d = dossier@;
        let mut r: Vec<(String, DocString)> = Vec::new();
        match self {
            DocEntry::Script(e) => match &e.content {
                Some(ScriptDocContent::CustomLocalization { scope, random_valid, entries }) => {
                    assert(refs[0].target == *scope);
                    let link = dossier.link_for_scope(context, self, scope);
                    r.push(("Scope".to_owned(), DocString::new_from_segment(link)));
                    r.push(Self::flag("Random Valid?", *random_valid));
                    r.push(("Entries".to_owned(), DocString::from_text(join_lines(entries).as_str())));
                },
                Some(ScriptDocContent::Effects { supported_scopes, supported_targets, .. }) => {
                    proof {
                        lemma_scope_refs(*self, "Supported Scopes"@, supported_scopes@, "Supported Targets"@, supported_targets@, d, context.mapper);
                    }
                    r.push(self.scopes_property("Supported Scopes", context, dossier, supported_scopes));
                    r.push(self.scopes_property("Supported Targets", context, dossier, supported_targets));
                },
                Some(
                    ScriptDocContent::EventTargets {
                        requires_data,
                        wild_card,
                        global_link,
                        input_scopes,
                        output_scopes,
                        ..
                    },
                ) => {
                    proof {
                        lemma_scope_refs(*self, "Input Scopes"@, input_scopes@, "Output Scopes"@, output_scopes@, d, context.mapper);
                    }
                    r.push(Self::flag("Requires Data", *requires_data));
                    r.push(Self::flag("Wild Card", *wild_card));
                    r.push(Self::flag("Global Link", *global_link));
                    r.push(self.scopes_property("Input Scopes", context, dossier, input_scopes));
                    r.push(self.scopes_property("Output Scopes", context, dossier, output_scopes));
                },
                Some(ScriptDocContent::Modifiers { display_name, mask, .. }) => {
                    if let Some(display_name) = display_name {
                        r.push(("Display Name".to_owned(), display_name.duplicate()));
                    }
                    assert(refs[0].target == *mask);
                    let link = dossier.link_for_mask(context, self, mask);
                    r.push(("Mask".to_owned(), DocString::new_from_segment(link)));
                },
                Some(ScriptDocContent::OnActions { from_code, expected_scope }) => {
                    assert(refs[0].target == *expected_scope);
                    let link = dossier.link_for_scope(context, self, expected_scope);
                    r.push(("Expected Scope".to_owned(), DocString::new_from_segment(link)));
                    r.push(Self::flag("From Code", *from_code));
                },
                Some(ScriptDocContent::Triggers { supported_scopes, supported_targets, .. }) => {
                    proof {
                        lemma_scope_refs(*self, "Supported Scopes"@, supported_scopes@, "Supported Targets"@, supported_targets@, d, context.mapper);
                    }
                    r.push(self.scopes_property("Supported Scopes", context, dossier, supported_scopes));
                    r.push(self.scopes_property("Supported Targets", context, dossier, supported_targets));
                },
                None => {},
            },
            DocEntry::Empty(_) => {},
        }
        assert(property_views(r@) =~= self.spec_properties(dossier@, context.mapper));
        r
    }

    /// The entry's id.
    pub open spec fn spec_id(&self) -> u64 {
        match self {
            DocEntry::Script(e) => e.id,
            DocEntry::Empty(e) => e.id,
        }
    }

    /// The entry's name.
    pub open spec fn spec_name(&self) -> Seq<char> {
        match self {
            DocEntry::Script(e) => e.name@,
            DocEntry::Empty(e) => e.name@,
        }
    }

    /// The id of the category that lists the entry, if one does. Modifiers
    /// are listed under their masks, and synthesized entries on pages of
    /// their own.
    pub open spec fn spec_category_id(&self) -> Option<u64> {
        match self {
            DocEntry::Script(e) => if e.category == ScriptDocCategory::Modifiers {
                None
            } else {
                Some(spec_hash(e.category.spec_tag()))
            },
            DocEntry::Empty(_) => None,
        }
    }

    /// The references that the entry makes, in the order in which it records
    /// them.
    pub open spec fn spec_references(&self) -> Seq<OutRef> {
        match self {
            DocEntry::Script(e) => match e.content {
                Some(ScriptDocContent::CustomLocalization { scope, .. }) => seq![
                    OutRef { property: "Scope"@, mask: false, target: scope },
                ],
                Some(ScriptDocContent::Effects { supported_scopes, supported_targets, .. }) => {
                    scope_refs("Supported Scopes"@, supported_scopes@) + scope_refs(
                        "Supported Targets"@,
                        supported_targets@,
                    )
                },
                Some(ScriptDocContent::EventTargets { input_scopes, output_scopes, .. }) => {
                    scope_refs("Input Scopes"@, input_scopes@) + scope_refs(
                        "Output Scopes"@,
                        output_scopes@,
                    )
                },
                Some(ScriptDocContent::Modifiers { mask, .. }) => seq![
                    OutRef { property: "Mask"@, mask: true, target: mask },
                ],
                Some(ScriptDocContent::OnActions { expected_scope, .. }) => seq![
                    OutRef { property: "Expected Scope"@, mask: false, target: expected_scope },
                ],
                Some(ScriptDocContent::Triggers { supported_scopes, supported_targets, .. }) => {
                    scope_refs("Supported Scopes"@, supported_scopes@) + scope_refs(
                        "Supported Targets"@,
                        supported_targets@,
                    )
                },
                None => Seq::empty(),
            },
            DocEntry::Empty(_) => Seq::empty(),
        }
    }

    /// The entry's description, where it has one.
    pub open spec fn spec_body(&self) -> Option<DocString> {
        match self {
            DocEntry::Script(e) => match e.content {
                Some(ScriptDocContent::Effects { description, .. }) => Some(description),
                Some(ScriptDocContent::EventTargets { description, .. }) => Some(description),
                Some(ScriptDocContent::Modifiers { description, .. }) => description,
                Some(ScriptDocContent::Triggers { description, .. }) => Some(description),
                _ => None,
            },
            DocEntry::Empty(_) => None,
        }
    }

    /// The references that the entry makes, in the order in which it records
    /// them.
    pub fn references(&self) -> (r: Vec<Reference>)
        ensures
            out_refs(r@) == self.spec_references(),
    {
        let mut refs: Vec<Reference> = Vec::new();
        assert(out_refs(refs@) =~= Seq::<OutRef>::empty());
        match self {
            DocEntry::Script(e) => match &e.content {
                Some(ScriptDocContent::CustomLocalization { scope, .. }) => {
                    refs.push(Reference { property: "Scope", mask: false, target: *scope });
                    assert(out_refs(refs@) =~= self.spec_references());
                },
                Some(ScriptDocContent::Effects { supported_scopes, supported_targets, .. }) => {
                    push_scope_refs(&mut refs, "Supported Scopes", supported_scopes);
                    push_scope_refs(&mut refs, "Supported Targets", supported_targets);
                    assert(out_refs(refs@) =~= self.spec_references());
                },
                Some(ScriptDocContent::EventTargets { input_scopes, output_scopes, .. }) => {
                    push_scope_refs(&mut refs, "Input Scopes", input_scopes);
                    push_scope_refs(&mut refs, "Output Scopes", output_scopes);
                    assert(out_refs(refs@) =~= self.spec_references());
                },
                Some(ScriptDocContent::Modifiers { mask, .. }) => {
                    refs.push(Reference { property: "Mask", mask: true, target: *mask });
                    assert(out_refs(refs@) =~= self.spec_references());
                },
                Some(ScriptDocContent::OnActions { expected_scope, .. }) => {
                    refs.push(
                        Reference { property: "Expected Scope", mask: false, target: *expected_scope },
                    );
                    assert(out_refs(refs@) =~= self.spec_references());
                },
                Some(ScriptDocContent::Triggers { supported_scopes, supported_targets, .. }) => {
                    push_scope_refs(&mut refs, "Supported Scopes", supported_scopes);
                    push_scope_refs(&mut refs, "Supported Targets", supported_targets);
                    assert(out_refs(refs@) =~= self.spec_references());
                },
                None => {},
            },
            DocEntry::Empty(_) => {},
        }
        refs
    }

    /// Records the entry's references in the registry's index: one edge from
    /// this entry to the scope or mask that each reference names.
    pub fn record_cross_references(&self, dossier: &mut Dossier)
        requires
            old(dossier)@.knows_names_of(*self),
        ensures
            final(dossier)@ == (DossierView {
                references: old(dossier)@.references + edges_of(
                    self.spec_id(),
                    self.spec_references(),
                    old(dossier)@.table,
                ),
                ..old(dossier)@
            }),
            final(dossier).config == old(dossier).config,
            final(dossier).info == old(dossier).info,
    {
        let ghost start = dossier@;
        let ghost edges = edges_of(self.spec_id(), self.spec_references(), start.table);
        let refs = self.references();
        let id = self.id();
        let mut i: usize = 0;
        assert(start.references + edges.take(0) =~= start.references);
        while i < refs.len()
            invariant
                i <= refs@.len(),
                out_refs(refs@) == self.spec_references(),
                start.knows_names_of(*self),
                edges == edges_of(self.spec_id(), self.spec_references(), start.table),
                id == self.spec_id(),
                dossier.config == old(dossier).config,
                dossier.info == old(dossier).info,
                dossier@ == (DossierView {
                    references: start.references + edges.take(i as int),
                    ..start
                }),
            decreases refs@.len() - i,
        {
            let ghost before = dossier@.references;
            proof {
                assert(out_refs(refs@)[i as int] == refs@[i as int]@);
                assert(self.spec_references()[i as int].target < start.table.len());
            }
            if refs[i].mask {
                dossier.add_mask_reference(refs[i].property, id, refs[i].target);
            } else {
                dossier.add_scope_reference(refs[i].property, id, refs[i].target);
            }
            proof {
                assert(dossier@.references =~= start.references + edges.take(i + 1));
            }
            i += 1;
        }
        assert(edges.take(refs@.len() as int) =~= edges);
    }

    /// The entry's id.
    pub fn id(&self) -> (r: u64)
        ensures
            r == self.spec_id(),
    {
        match self {
            DocEntry::Script(e) => e.id,
            DocEntry::Empty(e) => e.id,
        }
    }

    /// The entry's name.
    pub fn name(&self) -> (r: &str)
        ensures
            r@ == self.spec_name(),
    {
        match self {
            DocEntry::Script(e) => e.name.as_str(),
            DocEntry::Empty(e) => e.name.as_str(),
        }
    }

    /// The id of the category that lists the entry, if one does.
    pub fn category_id(&self) -> (r: Option<u64>)
        ensures
            r == self.spec_category_id(),
    {
        match self {
            DocEntry::Script(e) => match e.category {
                ScriptDocCategory::Modifiers => None,
                _ => Some(hash(e.category.tag())),
            },
            DocEntry::Empty(_) => None,
        }
    }

    /// The entry's description, where it has one.
    pub fn body(&self) -> (r: Option<&DocString>)
        ensures
            match r {
                Some(d) => self.spec_body() == Some(*d),
                None => self.spec_body() is None,
            },
    {
        match self {
            DocEntry::Script(e) => match &e.content {
                Some(ScriptDocContent::Effects { description, .. }) => Some(description),
                Some(ScriptDocContent::EventTargets { description, .. }) => Some(description),
                Some(ScriptDocContent::Modifiers { description, .. }) => match description {
                    Some(d) => Some(d),
                    None => None,
                },
                Some(ScriptDocContent::Triggers { description, .. }) => Some(description),
                _ => None,
            },
            DocEntry::Empty(_) => None,
        }
    }
}

/// Where an entry's references are those of two lists of scopes, what holds
/// of every reference holds of every scope of either list.
proof fn lemma_scope_refs(
    entry: DocEntry,
    first_name: Seq<char>,
    first: Seq<usize>,
    second_name: Seq<char>,
    second: Seq<usize>,
    d: DossierView,
    mapper: &SiteMapper,
)
    requires
        entry.spec_references() == scope_refs(first_name, first) + scope_refs(second_name, second),
        d.knows_names_of(entry),
        d.can_link_all(mapper, entry),
    ensures
        forall|i: int|
            0 <= i < first.len() ==> (#[trigger] first[i]) < d.table.len() && d.can_link(
                mapper,
                entry.spec_id(),
                crate::page::scope_entry_id(d.table[first[i] as int]),
            ),
        forall|i: int|
            0 <= i < second.len() ==> (#[trigger] second[i]) < d.table.len() && d.can_link(
                mapper,
                entry.spec_id(),
                crate::page::scope_entry_id(d.table[second[i] as int]),
            ),
{
    let refs = entry.spec_references();
    assert forall|i: int| 0 <= i < first.len() implies (#[trigger] first[i]) < d.table.len()
        && d.can_link(
        mapper,
        entry.spec_id(),
        crate::page::scope_entry_id(d.table[first[i] as int]),
    ) by {
        assert(refs[i] == scope_refs(first_name, first)[i]);
        assert(refs[i].target == first[i]);
    }
    assert forall|i: int| 0 <= i < second.len() implies (#[trigger] second[i]) < d.table.len()
        && d.can_link(
        mapper,
        entry.spec_id(),
        crate::page::scope_entry_id(d.table[second[i] as int]),
    ) by {
        assert(refs[first.len() + i] == scope_refs(second_name, second)[i]);
        assert(refs[first.len() + i].target == second[i]);
    }
}

} // verus!
