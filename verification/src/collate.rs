//! Collating the references to an entry: the links to the entries that refer
//! to it, grouped by the category and the property of the source, in a
//! reproducible order.

use vstd::prelude::*;
use crate::docstring::{DocString, DocStringSegment, DocStringSer, SegmentView};
use crate::dossier::{category_index, Dossier, DossierView, ReferenceView};
use crate::entry::DocEntry;
use crate::mapper::SiteMapper;
use crate::order::{
    by_keys, first_not_before, key_views, keys_less, lemma_first_not_before, lemma_keys_less_total,
    lemma_sorted_by_keys, lemma_sorted_is_permutation, sort_by_keys, sorted_from, sorted_positions,
};
use crate::page::PageContext;
use crate::text::str_eq;
use crate::util::{humanize_camel_case, humanized};

verus! {

broadcast use vstd::std_specs::hash::group_hash_axioms;

/// The links of one property of one group.
#[derive(Debug)]
pub struct CrossReferenceSection {
    pub name: String,
    pub items: Vec<DocStringSer>,
}

/// The links from the entries of one category, by property.
#[derive(Debug)]
pub struct CrossReferenceGroup {
    pub name: String,
    pub properties: Vec<CrossReferenceSection>,
}

/// The references to one entry, collated for display.
#[derive(Debug)]
pub struct CollatedCrossReferences {
    pub groups: Vec<CrossReferenceGroup>,
}

/// One link to a source of a reference, with the names it is filed under.
pub struct RefLink {
    pub group: String,
    pub property: String,
    pub link: DocStringSegment,
}

/// A link to a source over plain values.
pub struct RefLinkView {
    pub group: Seq<char>,
    pub property: Seq<char>,
    pub link: SegmentView,
}

/// A section over plain values.
pub struct SectionView {
    pub name: Seq<char>,
    pub items: Seq<SegmentView>,
}

/// A group over plain values.
pub struct GroupView {
    pub name: Seq<char>,
    pub properties: Seq<SectionView>,
}

impl View for RefLink {
    type V = RefLinkView;

    open spec fn view(&self) -> RefLinkView {
        RefLinkView { group: self.group@, property: self.property@, link: self.link@ }
    }
}

impl View for CrossReferenceSection {
    type V = SectionView;

    open spec fn view(&self) -> SectionView {
        SectionView {
            name: self.name@,
            items: self.items@.map_values(|d: DocStringSer| d.0@[0]),
        }
    }
}

impl View for CrossReferenceGroup {
    type V = GroupView;

    open spec fn view(&self) -> GroupView {
        GroupView {
            name: self.name@,
            properties: self.properties@.map_values(|s: CrossReferenceSection| s@),
        }
    }
}

impl View for CollatedCrossReferences {
    type V = Seq<GroupView>;

    open spec fn view(&self) -> Seq<GroupView> {
        self.groups@.map_values(|g: CrossReferenceGroup| g@)
    }
}

/// The links of a list over plain values.
pub open spec fn link_views(links: Seq<RefLink>) -> Seq<RefLinkView> {
    links.map_values(|l: RefLink| l@)
}

impl RefLinkView {
    /// The keys by which links are ordered: the group's name, the property's
    /// name, then plain text before links, the text shown, and the URL.
    pub open spec fn keys(self) -> Seq<Seq<char>> {
        match self.link {
            SegmentView::Link(contents, url) => seq![
                self.group,
                self.property,
                "1"@,
                contents,
                url,
            ],
            SegmentView::Text(contents) => seq![
                self.group,
                self.property,
                "0"@,
                contents,
                Seq::empty(),
            ],
            _ => seq![self.group, self.property],
        }
    }
}

/// The keys of each link of a list.
pub open spec fn link_keys(links: Seq<RefLinkView>) -> Seq<Seq<Seq<char>>> {
    links.map_values(|l: RefLinkView| l.keys())
}

/// `links` in the order of their keys. Links with equal keys keep their
/// order.
pub open spec fn sorted_links(links: Seq<RefLinkView>) -> Seq<RefLinkView> {
    sorted_positions(links.len() as int, by_keys(link_keys(links))).map_values(
        |i: usize| links[i as int],
    )
}

/// The section that holds one link.
pub open spec fn section_of(t: RefLinkView) -> SectionView {
    SectionView { name: t.property, items: seq![t.link] }
}

/// `groups` with the link `t` filed at the end: in the last section of the
/// last group where the names are those of the link, else in a new section,
/// or a new group.
pub open spec fn with_link(groups: Seq<GroupView>, t: RefLinkView) -> Seq<GroupView> {
    if groups.len() > 0 && groups.last().name == t.group {
        let g = groups.last();
        let properties = if g.properties.len() > 0 && g.properties.last().name == t.property {
            g.properties.drop_last().push(
                SectionView {
                    items: g.properties.last().items.push(t.link),
                    ..g.properties.last()
                },
            )
        } else {
            g.properties.push(section_of(t))
        };
        groups.drop_last().push(GroupView { properties, ..g })
    } else {
        groups.push(GroupView { name: t.group, properties: seq![section_of(t)] })
    }
}

/// The groups that the first `n` of `links` form when they are filed in
/// order.
pub open spec fn grouped(links: Seq<RefLinkView>, n: nat) -> Seq<GroupView>
    decreases n,
{
    if n == 0 || n > links.len() {
        Seq::empty()
    } else {
        with_link(grouped(links, (n - 1) as nat), links[n - 1])
    }
}

impl DossierView {
    /// Whether the entry `from_id` can be shown as a source of a reference to
    /// `item`: it is registered, listed in a category that the registry
    /// holds, and the link to it can be resolved.
    pub open spec fn can_show_source(self, mapper: &SiteMapper, item: u64, from_id: u64) -> bool {
        &&& self.entries.contains_key(from_id)
        &&& self.entries[from_id].spec_category_id() is Some
        &&& category_index(
            self.categories,
            self.entries[from_id].spec_category_id().unwrap(),
        ) is Some
        &&& mapper@.can_link(mapper.relative(), item, from_id)
    }

    /// Whether the references to `item` can be collated: `item` is
    /// registered under its own id, and every source of a reference to it
    /// can be shown.
    pub open spec fn can_collate(self, mapper: &SiteMapper, item: u64) -> bool {
        &&& self.entries.contains_key(item)
        &&& self.entries[item].spec_id() == item
        &&& forall|i: int|
            0 <= i < self.references.len() && (#[trigger] self.references[i]).to_id == item
                ==> self.can_show_source(mapper, item, self.references[i].from_id)
    }

    /// The link to the source of the reference `edge`, filed under the
    /// display name of the source's category and the humanized name of the
    /// property.
    pub open spec fn source_link(self, mapper: &SiteMapper, item: u64, edge: ReferenceView)
        -> RefLinkView {
        let source = self.entries[edge.from_id];
        RefLinkView {
            group: self.categories[category_index(
                self.categories,
                source.spec_category_id().unwrap(),
            ).unwrap()].display_name,
            property: humanized(edge.from_property),
            link: self.link(mapper, item, source.spec_name(), edge.from_id),
        }
    }

    /// The links to the sources of the first `n` references, for those that
    /// point at `item`, in the order of the references.
    pub open spec fn source_links(self, mapper: &SiteMapper, item: u64, n: nat) -> Seq<
        RefLinkView,
    >
        decreases n,
    {
        if n == 0 || n > self.references.len() {
            Seq::empty()
        } else {
            let before = self.source_links(mapper, item, (n - 1) as nat);
            if self.references[n - 1].to_id == item {
                before.push(self.source_link(mapper, item, self.references[n - 1]))
            } else {
                before
            }
        }
    }

    /// The references to `item`, collated: the links to the sources of all
    /// references to it, sorted by group name, property name and link, and
    /// filed in that order.
    pub open spec fn collated(self, mapper: &SiteMapper, item: u64) -> Seq<GroupView> {
        let sorted = sorted_links(self.source_links(mapper, item, self.references.len()));
        grouped(sorted, sorted.len())
    }
}

/// The collated links stand in lexicographic order: first by the name of
/// their group, within a group by the name of their property, and within a
/// property plain names before links, by the text shown, then by the URL. No
/// link stands after one that it comes before, and sorting neither drops
/// nor adds a link.
pub proof fn lemma_sorted_links_ordered(links: Seq<RefLinkView>)
    requires
        links.len() <= usize::MAX,
    ensures
        sorted_links(links).len() == links.len(),
        forall|i: int, j: int|
            0 <= i < j < links.len() ==> !keys_less(
                (#[trigger] sorted_links(links)[j]).keys(),
                (#[trigger] sorted_links(links)[i]).keys(),
            ),
        forall|k: int| 0 <= k < links.len() ==> sorted_links(links).contains(#[trigger] links[k]),
{
    let keys = link_keys(links);
    let order = sorted_positions(links.len() as int, by_keys(keys));
    lemma_sorted_by_keys(keys);
    let sorted = sorted_links(links);
    assert forall|i: int, j: int| 0 <= i < j < links.len() implies !keys_less(
        (#[trigger] sorted[j]).keys(),
        (#[trigger] sorted[i]).keys(),
    ) by {
        assert(sorted[j] == links[order[j] as int]);
        assert(sorted[i] == links[order[i] as int]);
        assert(keys[order[j] as int] == links[order[j] as int].keys());
        assert(keys[order[i] as int] == links[order[i] as int].keys());
    }
    crate::order::lemma_sorted_is_permutation(0, links.len() as int, by_keys(keys));
    assert forall|k: int| 0 <= k < links.len() implies sorted.contains(#[trigger] links[k]) by {
        assert(order.contains(k as usize));
        let at = choose|at: int| 0 <= at < order.len() && order[at] == k as usize;
        assert(sorted[at] == links[k]);
    }
}

/// Whether a link is a link proper or a plain name, as the links to the
/// sources of references are.
pub open spec fn is_plain(t: RefLinkView) -> bool {
    t.link is Link || t.link is Text
}

/// Whether no link of `s` comes before one that stands earlier.
pub open spec fn in_order(s: Seq<RefLinkView>) -> bool {
    forall|i: int, j: int|
        0 <= i < j < s.len() ==> !keys_less((#[trigger] s[j]).keys(), (#[trigger] s[i]).keys())
}

/// Two links of which neither comes before the other are the same link.
pub proof fn lemma_links_total(x: RefLinkView, y: RefLinkView)
    requires
        is_plain(x),
        is_plain(y),
        !keys_less(x.keys(), y.keys()),
        !keys_less(y.keys(), x.keys()),
    ensures
        x == y,
{
    reveal_strlit("0");
    reveal_strlit("1");
    lemma_keys_less_total(x.keys(), y.keys());
    assert(x.keys()[0] == y.keys()[0]);
    assert(x.keys()[1] == y.keys()[1]);
    assert(x.keys()[2] == y.keys()[2]);
    assert(x.keys()[3] == y.keys()[3]);
    assert(x.keys()[4] == y.keys()[4]);
    assert("0"@[0] != "1"@[0]);
}

/// The links of `a` from the position `from` on, sorted, are those links:
/// each as often as it is among them.
proof fn lemma_sorted_links_same(a: Seq<RefLinkView>, from: int)
    requires
        0 <= from <= a.len() <= usize::MAX,
    ensures
        sorted_from(from, a.len() as int, by_keys(link_keys(a))).map_values(
            |i: usize| a[i as int],
        ).to_multiset() == a.subrange(from, a.len() as int).to_multiset(),
    decreases a.len() - from,
{
    let n = a.len() as int;
    let lt = by_keys(link_keys(a));
    let pick = |i: usize| a[i as int];
    if from < n {
        lemma_sorted_links_same(a, from + 1);
        let rest = sorted_from(from + 1, n, lt);
        lemma_first_not_before(rest, from as usize, lt);
        let p = first_not_before(rest, from as usize, lt);
        assert(sorted_from(from, n, lt) == rest.insert(p, from as usize));
        assert(rest.insert(p, from as usize).map_values(pick) =~= rest.map_values(pick).insert(
            p,
            a[from],
        ));
        vstd::seq_lib::to_multiset_insert(rest.map_values(pick), p, a[from]);
        vstd::seq_lib::to_multiset_insert(a.subrange(from + 1, n), 0, a[from]);
        assert(a.subrange(from + 1, n).insert(0, a[from]) =~= a.subrange(from, n));
    } else {
        assert(sorted_from(from, n, lt).map_values(pick) =~= a.subrange(from, n));
    }
}

/// Two lists of links that are in order and hold the same links, each as
/// often as the other, are the same list.
pub proof fn lemma_in_order_unique(s: Seq<RefLinkView>, t: Seq<RefLinkView>)
    requires
        in_order(s),
        in_order(t),
        s.to_multiset() == t.to_multiset(),
        forall|i: int| 0 <= i < s.len() ==> is_plain(#[trigger] s[i]),
        forall|i: int| 0 <= i < t.len() ==> is_plain(#[trigger] t[i]),
    ensures
        s == t,
    decreases s.len(),
{
    vstd::seq_lib::to_multiset_len(s);
    vstd::seq_lib::to_multiset_len(t);
    if s.len() == 0 {
        assert(s =~= t);
    } else {
        vstd::seq_lib::to_multiset_contains(t, s[0]);
        vstd::seq_lib::to_multiset_contains(s, s[0]);
        vstd::seq_lib::to_multiset_contains(s, t[0]);
        vstd::seq_lib::to_multiset_contains(t, t[0]);
        assert(s.contains(s[0]));
        assert(t.contains(t[0]));
        assert(t.contains(s[0]));
        assert(s.contains(t[0]));
        let k = choose|k: int| 0 <= k < t.len() && t[k] == s[0];
        let j = choose|j: int| 0 <= j < s.len() && s[j] == t[0];
        if k > 0 {
            assert(!keys_less(t[k].keys(), t[0].keys()));
        }
        if j > 0 {
            assert(!keys_less(s[j].keys(), s[0].keys()));
        }
        if k > 0 && j > 0 {
            lemma_links_total(s[0], t[0]);
        }
        assert(s[0] == t[0]);
        vstd::seq_lib::to_multiset_remove(s, 0);
        vstd::seq_lib::to_multiset_remove(t, 0);
        let s1 = s.remove(0);
        let t1 = t.remove(0);
        assert forall|a: int, b: int| 0 <= a < b < s1.len() implies !keys_less(
            (#[trigger] s1[b]).keys(),
            (#[trigger] s1[a]).keys(),
        ) by {
            assert(s1[a] == s[a + 1] && s1[b] == s[b + 1]);
        }
        assert forall|a: int, b: int| 0 <= a < b < t1.len() implies !keys_less(
            (#[trigger] t1[b]).keys(),
            (#[trigger] t1[a]).keys(),
        ) by {
            assert(t1[a] == t[a + 1] && t1[b] == t[b + 1]);
        }
        assert forall|i: int| 0 <= i < s1.len() implies is_plain(#[trigger] s1[i]) by {
            assert(s1[i] == s[i + 1]);
        }
        assert forall|i: int| 0 <= i < t1.len() implies is_plain(#[trigger] t1[i]) by {
            assert(t1[i] == t[i + 1]);
        }
        lemma_in_order_unique(s1, t1);
        assert(s =~= seq![s[0]] + s1);
        assert(t =~= seq![t[0]] + t1);
    }
}

/// Collation does not depend on the order in which the references were
/// recorded: two lists that hold the same links, each as often as the
/// other, are sorted into the same list, and so collated into the same
/// groups.
pub proof fn lemma_collation_ignores_order(a: Seq<RefLinkView>, b: Seq<RefLinkView>)
    requires
        a.len() <= usize::MAX,
        a.to_multiset() == b.to_multiset(),
        forall|i: int| 0 <= i < a.len() ==> is_plain(#[trigger] a[i]),
    ensures
        sorted_links(a) == sorted_links(b),
        grouped(sorted_links(a), sorted_links(a).len()) == grouped(
            sorted_links(b),
            sorted_links(b).len(),
        ),
{
    vstd::seq_lib::to_multiset_len(a);
    vstd::seq_lib::to_multiset_len(b);
    assert forall|i: int| 0 <= i < b.len() implies is_plain(#[trigger] b[i]) by {
        vstd::seq_lib::to_multiset_contains(b, b[i]);
        vstd::seq_lib::to_multiset_contains(a, b[i]);
        assert(b.contains(b[i]));
        assert(a.contains(b[i]));
        let k = choose|k: int| 0 <= k < a.len() && a[k] == b[i];
        assert(is_plain(a[k]));
    }
    let sa = sorted_links(a);
    let sb = sorted_links(b);
    lemma_sorted_links_ordered(a);
    lemma_sorted_links_ordered(b);
    lemma_sorted_links_same(a, 0);
    lemma_sorted_links_same(b, 0);
    assert(a.subrange(0, a.len() as int) =~= a);
    assert(b.subrange(0, b.len() as int) =~= b);
    lemma_sorted_is_permutation(0, a.len() as int, by_keys(link_keys(a)));
    lemma_sorted_is_permutation(0, b.len() as int, by_keys(link_keys(b)));
    assert forall|i: int| 0 <= i < sa.len() implies is_plain(#[trigger] sa[i]) by {
        let at = sorted_positions(a.len() as int, by_keys(link_keys(a)))[i];
        assert(sa[i] == a[at as int]);
    }
    assert forall|i: int| 0 <= i < sb.len() implies is_plain(#[trigger] sb[i]) by {
        let at = sorted_positions(b.len() as int, by_keys(link_keys(b)))[i];
        assert(sb[i] == b[at as int]);
    }
    lemma_in_order_unique(sa, sb);
}

/// Whether the names of the groups, and in every group the names of the
/// properties, stand in strictly rising order.
pub open spec fn names_rise(groups: Seq<GroupView>) -> bool {
    &&& forall|i: int|
        0 <= i < groups.len() - 1 ==> crate::text::text_less(
            (#[trigger] groups[i]).name,
            groups[i + 1].name,
        )
    &&& forall|i: int, j: int|
        0 <= i < groups.len() && 0 <= j < groups[i].properties.len() - 1
            ==> crate::text::text_less(
            (#[trigger] groups[i].properties[j]).name,
            groups[i].properties[j + 1].name,
        )
}

/// A link that does not come before another has a group name that does not
/// come before the other's, and with the same group name a property name
/// that does not come before the other's.
proof fn lemma_keys_order_names(x: RefLinkView, y: RefLinkView)
    requires
        !keys_less(y.keys(), x.keys()),
    ensures
        !crate::text::text_less(y.group, x.group),
        y.group == x.group ==> !crate::text::text_less(y.property, x.property),
{
    let a = y.keys();
    let b = x.keys();
    assert(a.len() >= 2 && b.len() >= 2);
    assert(a[0] == y.group && b[0] == x.group);
    assert(a[1] == y.property && b[1] == x.property);
    if y.group == x.group {
        crate::text::lemma_text_less_is_strict_weak(x.group, x.group, x.group);
        assert(!crate::text::text_less(a[0], b[0]));
        assert(!crate::text::text_less(b[0], a[0]));
        assert(a.skip(1)[0] == y.property && b.skip(1)[0] == x.property);
        assert(keys_less(a, b) == keys_less(a.skip(1), b.skip(1)));
    }
}

/// Links that are in order are filed into groups whose names rise strictly,
/// each with properties whose names rise strictly: the groups and the
/// properties of collated references stand in lexicographic order, and no
/// name occurs twice.
pub proof fn lemma_grouped_names_rise(s: Seq<RefLinkView>, n: nat)
    requires
        in_order(s),
        n <= s.len(),
    ensures
        names_rise(grouped(s, n)),
        n > 0 ==> grouped(s, n).len() > 0 && grouped(s, n).last().name == s[n - 1].group
            && grouped(s, n).last().properties.len() > 0 && grouped(
            s,
            n,
        ).last().properties.last().name == s[n - 1].property,
    decreases n,
{
    if n > 0 {
        lemma_grouped_names_rise(s, (n - 1) as nat);
        let before = grouped(s, (n - 1) as nat);
        let t = s[n - 1];
        let after = with_link(before, t);
        assert(after == grouped(s, n));
        if n > 1 {
            let prev = s[n - 2];
            assert(!keys_less(s[n - 1].keys(), s[n - 2].keys()));
            lemma_keys_order_names(prev, t);
            if prev.group != t.group {
                crate::text::lemma_text_less_is_strict_weak(prev.group, t.group, t.group);
                if !crate::text::text_less(prev.group, t.group) {
                    crate::text::lemma_text_less_total(prev.group, t.group);
                }
            } else if prev.property != t.property {
                if !crate::text::text_less(prev.property, t.property) {
                    crate::text::lemma_text_less_total(prev.property, t.property);
                }
            }
        }
        if before.len() > 0 && before.last().name == t.group {
            let g = before.last();
            let last = before.len() - 1;
            assert forall|i: int| 0 <= i < after.len() - 1 implies crate::text::text_less(
                (#[trigger] after[i]).name,
                after[i + 1].name,
            ) by {
                assert(after[i].name == before[i].name);
                assert(after[i + 1].name == before[i + 1].name);
            }
            assert forall|i: int, j: int|
                0 <= i < after.len() && 0 <= j < after[i].properties.len()
                    - 1 implies crate::text::text_less(
                (#[trigger] after[i].properties[j]).name,
                after[i].properties[j + 1].name,
            ) by {
                if i < last {
                    assert(after[i] == before[i]);
                } else {
                    assert(after[i].properties[j].name == g.properties[j].name);
                    if j + 1 < g.properties.len() {
                        assert(after[i].properties[j + 1].name == g.properties[j + 1].name);
                        assert(crate::text::text_less(
                            (#[trigger] before[last].properties[j]).name,
                            before[last].properties[j + 1].name,
                        ));
                    }
                }
            }
        } else {
            assert forall|i: int| 0 <= i < after.len() - 1 implies crate::text::text_less(
                (#[trigger] after[i]).name,
                after[i + 1].name,
            ) by {
                if i + 1 < before.len() {
                    assert(after[i] == before[i] && after[i + 1] == before[i + 1]);
                } else {
                    assert(after[i] == before[i]);
                }
            }
            assert forall|i: int, j: int|
                0 <= i < after.len() && 0 <= j < after[i].properties.len()
                    - 1 implies crate::text::text_less(
                (#[trigger] after[i].properties[j]).name,
                after[i].properties[j + 1].name,
            ) by {
                if i < before.len() {
                    assert(after[i] == before[i]);
                }
            }
        }
    }
}

/// The links to the sources of those of `refs` that point at `item`, in the
/// order of `refs`.
pub open spec fn links_of(d: DossierView, mapper: &SiteMapper, item: u64, refs: Seq<ReferenceView>)
    -> Seq<RefLinkView>
    decreases refs.len(),
{
    if refs.len() == 0 {
        Seq::empty()
    } else if refs.last().to_id == item {
        links_of(d, mapper, item, refs.drop_last()).push(d.source_link(mapper, item, refs.last()))
    } else {
        links_of(d, mapper, item, refs.drop_last())
    }
}

/// The links to the sources of the first `n` references are the links of
/// those references.
proof fn lemma_source_links_are_links_of(d: DossierView, mapper: &SiteMapper, item: u64, n: nat)
    requires
        n <= d.references.len(),
    ensures
        d.source_links(mapper, item, n) == links_of(d, mapper, item, d.references.take(n as int)),
    decreases n,
{
    if n > 0 {
        lemma_source_links_are_links_of(d, mapper, item, (n - 1) as nat);
        assert(d.references.take(n as int).drop_last() =~= d.references.take(n - 1));
    }
}

/// The links of two lists of references, one after the other, are the links
/// of the one followed by the links of the other.
proof fn lemma_links_of_add(
    d: DossierView,
    mapper: &SiteMapper,
    item: u64,
    u: Seq<ReferenceView>,
    v: Seq<ReferenceView>,
)
    ensures
        links_of(d, mapper, item, u + v) == links_of(d, mapper, item, u) + links_of(
            d,
            mapper,
            item,
            v,
        ),
    decreases v.len(),
{
    if v.len() == 0 {
        assert(u + v =~= u);
        assert(links_of(d, mapper, item, u) + Seq::<RefLinkView>::empty() =~= links_of(
            d,
            mapper,
            item,
            u,
        ));
    } else {
        assert((u + v).drop_last() =~= u + v.drop_last());
        lemma_links_of_add(d, mapper, item, u, v.drop_last());
        let head = links_of(d, mapper, item, u);
        let tail = links_of(d, mapper, item, v.drop_last());
        if v.last().to_id == item {
            assert((head + tail).push(d.source_link(mapper, item, v.last())) =~= head + tail.push(
                d.source_link(mapper, item, v.last()),
            ));
        }
    }
}

/// The links of the one reference `x`.
pub open spec fn link_of_one(d: DossierView, mapper: &SiteMapper, item: u64, x: ReferenceView)
    -> Seq<RefLinkView> {
    if x.to_id == item {
        seq![d.source_link(mapper, item, x)]
    } else {
        Seq::empty()
    }
}

/// The links of a list of references are those of the list without one
/// reference, and those of that reference.
proof fn lemma_links_of_remove(
    d: DossierView,
    mapper: &SiteMapper,
    item: u64,
    t: Seq<ReferenceView>,
    k: int,
)
    requires
        0 <= k < t.len(),
    ensures
        links_of(d, mapper, item, t).to_multiset() == links_of(
            d,
            mapper,
            item,
            t.remove(k),
        ).to_multiset().add(link_of_one(d, mapper, item, t[k]).to_multiset()),
{
    let a = t.take(k);
    let x = seq![t[k]];
    let b = t.skip(k + 1);
    assert(t =~= (a + x) + b);
    assert(t.remove(k) =~= a + b);
    lemma_links_of_add(d, mapper, item, a + x, b);
    lemma_links_of_add(d, mapper, item, a, x);
    lemma_links_of_add(d, mapper, item, a, b);
    assert(x.drop_last().len() == 0);
    assert(links_of(d, mapper, item, x.drop_last()) =~= Seq::<RefLinkView>::empty());
    assert(x.last() == t[k]);
    assert(links_of(d, mapper, item, x) =~= link_of_one(d, mapper, item, t[k]));
    let la = links_of(d, mapper, item, a);
    let lx = links_of(d, mapper, item, x);
    let lb = links_of(d, mapper, item, b);
    vstd::seq_lib::lemma_multiset_commutative(la + lx, lb);
    vstd::seq_lib::lemma_multiset_commutative(la, lx);
    vstd::seq_lib::lemma_multiset_commutative(la, lb);
    assert(((la + lx) + lb).to_multiset() =~= (la + lb).to_multiset().add(lx.to_multiset()));
}

/// Two lists that hold the same references, each as often as the other,
/// yield the same links, each as often as the other.
proof fn lemma_links_of_permutation(
    d: DossierView,
    mapper: &SiteMapper,
    item: u64,
    s: Seq<ReferenceView>,
    t: Seq<ReferenceView>,
)
    requires
        s.to_multiset() == t.to_multiset(),
    ensures
        links_of(d, mapper, item, s).to_multiset() == links_of(d, mapper, item, t).to_multiset(),
    decreases s.len(),
{
    vstd::seq_lib::to_multiset_len(s);
    vstd::seq_lib::to_multiset_len(t);
    if s.len() == 0 {
        assert(t =~= s);
    } else {
        let x = s.last();
        vstd::seq_lib::to_multiset_contains(s, x);
        vstd::seq_lib::to_multiset_contains(t, x);
        assert(s.contains(x));
        let k = choose|k: int| 0 <= k < t.len() && t[k] == x;
        vstd::seq_lib::to_multiset_remove(s, s.len() - 1);
        vstd::seq_lib::to_multiset_remove(t, k);
        assert(s.remove(s.len() - 1) =~= s.drop_last());
        lemma_links_of_permutation(d, mapper, item, s.drop_last(), t.remove(k));
        lemma_links_of_remove(d, mapper, item, t, k);
        lemma_links_of_remove(d, mapper, item, s, s.len() - 1);
    }
}

/// Every link to a source is a link proper or a plain name, and there are no
/// more links than references.
proof fn lemma_links_of_plain(d: DossierView, mapper: &SiteMapper, item: u64, s: Seq<ReferenceView>)
    ensures
        links_of(d, mapper, item, s).len() <= s.len(),
        forall|i: int|
            0 <= i < links_of(d, mapper, item, s).len() ==> is_plain(
                #[trigger] links_of(d, mapper, item, s)[i],
            ),
    decreases s.len(),
{
    if s.len() > 0 {
        lemma_links_of_plain(d, mapper, item, s.drop_last());
    }
}

/// The links do not depend on the references that the registry holds, but on
/// those that they are asked for.
proof fn lemma_links_of_same(
    d: DossierView,
    other: DossierView,
    mapper: &SiteMapper,
    item: u64,
    s: Seq<ReferenceView>,
)
    requires
        other == (DossierView { references: other.references, ..d }),
    ensures
        links_of(d, mapper, item, s) == links_of(other, mapper, item, s),
    decreases s.len(),
{
    if s.len() > 0 {
        lemma_links_of_same(d, other, mapper, item, s.drop_last());
    }
}

/// The collated references to an entry are sorted: the names of the groups
/// rise strictly, and so do the names of the properties of every group.
pub proof fn lemma_collated_is_sorted(d: DossierView, mapper: &SiteMapper, item: u64)
    requires
        d.references.len() <= usize::MAX,
    ensures
        names_rise(d.collated(mapper, item)),
{
    let links = d.source_links(mapper, item, d.references.len());
    lemma_source_links_are_links_of(d, mapper, item, d.references.len());
    assert(d.references.take(d.references.len() as int) =~= d.references);
    lemma_links_of_plain(d, mapper, item, d.references);
    lemma_sorted_links_ordered(links);
    let sorted = sorted_links(links);
    lemma_grouped_names_rise(sorted, sorted.len());
}

/// The collated references to an entry do not depend on the order in which
/// the references were recorded: two registries that differ only in that
/// order collate the references to `item` into the same groups, with the
/// same properties and the same links, in the same order.
pub proof fn lemma_collated_ignores_recording_order(
    d: DossierView,
    other: DossierView,
    mapper: &SiteMapper,
    item: u64,
)
    requires
        other == (DossierView { references: other.references, ..d }),
        d.references.to_multiset() == other.references.to_multiset(),
        d.references.len() <= usize::MAX,
    ensures
        d.collated(mapper, item) == other.collated(mapper, item),
{
    let a = d.source_links(mapper, item, d.references.len());
    let b = other.source_links(mapper, item, other.references.len());
    lemma_source_links_are_links_of(d, mapper, item, d.references.len());
    lemma_source_links_are_links_of(other, mapper, item, other.references.len());
    assert(d.references.take(d.references.len() as int) =~= d.references);
    assert(other.references.take(other.references.len() as int) =~= other.references);
    lemma_links_of_same(d, other, mapper, item, other.references);
    lemma_links_of_permutation(d, mapper, item, d.references, other.references);
    lemma_links_of_plain(d, mapper, item, d.references);
    lemma_collation_ignores_order(a, b);
}

impl RefLink {
    /// A copy of the link.
    pub fn duplicate(&self) -> (r: RefLink)
        ensures
            r@ == self@,
    {
        RefLink {
            group: self.group.clone(),
            property: self.property.clone(),
            link: self.link.duplicate(),
        }
    }

    /// The keys by which the link is ordered.
    pub fn keys(&self) -> (r: Vec<String>)
        ensures
            r@.map_values(|s: String| s@) == self@.keys(),
    {
        let mut r: Vec<String> = Vec::new();
        r.push(self.group.clone());
        r.push(self.property.clone());
        match &self.link {
            DocStringSegment::Link { contents, url } => {
                r.push("1".to_owned());
                r.push(contents.clone());
                r.push(url.clone());
            },
            DocStringSegment::Text { contents } => {
                r.push("0".to_owned());
                r.push(contents.clone());
                r.push(String::new());
            },
            _ => {},
        }
        assert(r@.map_values(|s: String| s@) =~= self@.keys());
        r
    }
}

/// Whether every item of `groups` is rich text of one segment, to be
/// rendered for the page `page_id`.
pub open spec fn single_links(groups: Seq<CrossReferenceGroup>, page_id: u64) -> bool {
    forall|g: int, s: int, k: int|
        0 <= g < groups.len() && 0 <= s < groups[g].properties@.len() && 0 <= k
            < groups[g].properties@[s].items@.len() ==> (
        #[trigger] groups[g].properties@[s].items@[k]).0@.len() == 1
            && groups[g].properties@[s].items@[k].1 == page_id
}

/// Files `link` at the end of `groups`.
fn file_link(groups: &mut Vec<CrossReferenceGroup>, link: RefLink, page_id: u64)
    requires
        single_links(old(groups)@, page_id),
    ensures
        final(groups)@.map_values(|g: CrossReferenceGroup| g@) == with_link(
            old(groups)@.map_values(|g: CrossReferenceGroup| g@),
            link@,
        ),
        single_links(final(groups)@, page_id),
{
    let ghost before = groups@.map_values(|g: CrossReferenceGroup| g@);
    let ghost t = link@;
    let RefLink { group: group_name, property, link: segment } = link;
    let item = DocStringSer(DocString::new_from_segment(segment), page_id);
    let same_group = groups.len() > 0 && str_eq(
        groups[groups.len() - 1].name.as_str(),
        group_name.as_str(),
    );
    if same_group {
        let mut group = groups.pop().unwrap();
        let ghost g = group@;
        assert(g == before.last());
        assert(groups@.map_values(|g: CrossReferenceGroup| g@) =~= before.drop_last());
        let same_section = group.properties.len() > 0 && str_eq(
            group.properties[group.properties.len() - 1].name.as_str(),
            property.as_str(),
        );
        if same_section {
            let mut section = group.properties.pop().unwrap();
            let ghost s = section@;
            assert(s == g.properties.last());
            assert(group.properties@.map_values(|s: CrossReferenceSection| s@)
                =~= g.properties.drop_last());
            section.items.push(item);
            assert(section@.items =~= s.items.push(t.link));
            group.properties.push(section);
            assert(group@.properties =~= g.properties.drop_last().push(
                SectionView { items: s.items.push(t.link), ..s },
            ));
        } else {
            let mut items: Vec<DocStringSer> = Vec::new();
            items.push(item);
            let section = CrossReferenceSection { name: property, items };
            assert(section@.items =~= seq![t.link]);
            group.properties.push(section);
            assert(group@.properties =~= g.properties.push(section_of(t)));
        }
        groups.push(group);
        assert(groups@.map_values(|g: CrossReferenceGroup| g@) =~= with_link(before, t));
    } else {
        let mut items: Vec<DocStringSer> = Vec::new();
        items.push(item);
        let section = CrossReferenceSection { name: property, items };
        assert(section@.items =~= seq![t.link]);
        let mut properties: Vec<CrossReferenceSection> = Vec::new();
        properties.push(section);
        let group = CrossReferenceGroup { name: group_name, properties };
        assert(group@.properties =~= seq![section_of(t)]);
        groups.push(group);
        assert(groups@.map_values(|g: CrossReferenceGroup| g@) =~= with_link(before, t));
    }
}

impl Dossier {
    /// Adds to `links` the link to the entry `other_id`, which refers to
    /// `entry` by its property `prop`.
    pub fn add_ref_link(
        &self,
        context: &PageContext,
        links: &mut Vec<RefLink>,
        entry: &DocEntry,
        other_id: u64,
        prop: &str,
    )
        requires
            self@.can_show_source(context.mapper, entry.spec_id(), other_id),
        ensures
            link_views(final(links)@) == link_views(old(links)@).push(
                self@.source_link(
                    context.mapper,
                    entry.spec_id(),
                    ReferenceView {
                        from_id: other_id,
                        from_property: prop@,
                        to_id: entry.spec_id(),
                    },
                ),
            ),
    {
        let ghost before = link_views(links@);
        let other = match self.entries.get(&other_id) {
            Some(other) => other,
            None => {
                return ;
            },
        };
        let category_id = match other.category_id() {
            Some(id) => id,
            None => {
                return ;
            },
        };
        let at = match crate::dossier::find_category(&self.categories, category_id) {
            Some(at) => at,
            None => {
                return ;
            },
        };
        let group = self.categories[at].display_name.clone();
        let property = humanize_camel_case(prop);
        let link = self.link_for_entry(context, entry, other.name(), &other_id);
        links.push(RefLink { group, property, link });
        assert(crate::dossier::category_views(self.categories@)[at as int]
            == self.categories@[at as int]@);
        assert(link_views(links@) =~= before.push(links@[links@.len() - 1]@));
    }

    /// The references to the entry `item`, grouped for display on the page
    /// `page_id`: by the category of the source, then by the property that
    /// refers; groups, properties and links each in lexicographic order.
    pub fn collate_references(&self, context: &PageContext, page_id: u64, item: u64) -> (r:
        CollatedCrossReferences)
        requires
            self@.can_collate(context.mapper, item),
        ensures
            r@ == self@.collated(context.mapper, item),
            single_links(r.groups@, page_id),
    {
        let entry = match self.entries.get(&item) {
            Some(entry) => entry,
            None => {
                return CollatedCrossReferences { groups: Vec::new() };
            },
        };
        let ghost d = self@;
        let mut links: Vec<RefLink> = Vec::new();
        let mut i: usize = 0;
        assert(link_views(links@) =~= d.source_links(context.mapper, item, 0));
        while i < self.cross_references.len()
            invariant
                d == self@,
                d.can_collate(context.mapper, item),
                entry.spec_id() == item,
                i <= self.cross_references@.len(),
                link_views(links@) == d.source_links(context.mapper, item, i as nat),
            decreases self.cross_references@.len() - i,
        {
            let edge = &self.cross_references[i];
            assert(d.references[i as int] == edge@);
            if edge.to_id == item {
                self.add_ref_link(
                    context,
                    &mut links,
                    entry,
                    edge.from_id,
                    edge.from_property.as_str(),
                );
            }
            i += 1;
        }
        let ghost flat = link_views(links@);
        let mut keys: Vec<Vec<String>> = Vec::new();
        let mut k: usize = 0;
        while k < links.len()
            invariant
                flat == link_views(links@),
                k <= links@.len(),
                keys@.len() == k,
                forall|j: int|
                    0 <= j < k ==> (#[trigger] keys@[j])@.map_values(|s: String| s@)
                        == flat[j].keys(),
            decreases links@.len() - k,
        {
            keys.push(links[k].keys());
            k += 1;
        }
        assert(key_views(keys@) =~= link_keys(flat));
        let order = sort_by_keys(&keys);
        let ghost sorted = sorted_links(flat);
        assert(sorted.len() == order@.len());
        let mut groups: Vec<CrossReferenceGroup> = Vec::new();
        let mut n: usize = 0;
        assert(groups@.map_values(|g: CrossReferenceGroup| g@) =~= grouped(sorted, 0));
        while n < order.len()
            invariant
                flat == link_views(links@),
                sorted == sorted_links(flat),
                sorted.len() == order@.len(),
                order@ == sorted_positions(flat.len() as int, by_keys(link_keys(flat))),
                forall|i: int| 0 <= i < order@.len() ==> (#[trigger] order@[i]) < links@.len(),
                n <= order@.len(),
                groups@.map_values(|g: CrossReferenceGroup| g@) == grouped(sorted, n as nat),
                single_links(groups@, page_id),
            decreases order@.len() - n,
        {
            assert(order@[n as int] < links@.len());
            let link = links[order[n]].duplicate();
            assert(link@ == sorted[n as int]);
            file_link(&mut groups, link, page_id);
            n += 1;
        }
        let r = CollatedCrossReferences { groups };
        r
    }
}

} // verus!
