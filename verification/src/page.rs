//! Pages: the renderable units of a site, their identity, their place in a
//! paginated sequence and the entries they own.

use vstd::prelude::*;
use crate::entry::DocEntry;
use crate::mapper::SiteMapper;
use crate::text::{decimal, decimal_string, join2, join3};
use crate::theme::Template;
use crate::util::{hash, spec_hash};

verus! {

/// Where a page stands in its paginated sequence.
#[derive(Clone, Copy, Debug, PartialEq, Eq, Structural)]
pub struct PaginationInfo {
    pub current_page: usize,
    pub total_pages: usize,
}

impl PaginationInfo {
    /// Page numbers start at 1 and do not pass the total.
    pub open spec fn wf(&self) -> bool {
        1 <= self.current_page <= self.total_pages
    }

    /// The pagination state for page `info.0` of `info.1`.
    pub fn new(info: (usize, usize)) -> (r: PaginationInfo)
        ensures
            r.current_page == info.0,
            r.total_pages == info.1,
    {
        let (current_page, total_pages) = info;
        PaginationInfo { current_page, total_pages }
    }
}

/// What rendering a page may look up: the site mapper, for links.
pub struct PageContext<'a> {
    pub mapper: &'a SiteMapper,
}

impl<'a> PageContext<'a> {
    /// A context that resolves links through `mapper`.
    pub fn new(mapper: &'a SiteMapper) -> (r: PageContext<'a>)
        ensures
            r.mapper == mapper,
    {
        PageContext { mapper }
    }

    /// The URL by which the entry `from` links to the entry `entry`.
    pub fn url_for_entry(&self, from: &DocEntry, entry: &DocEntry) -> (r: String)
        requires
            self.mapper@.can_link(self.mapper.relative(), from.spec_id(), entry.spec_id()),
        ensures
            r@ == self.mapper@.entry_url(
                self.mapper.config.url_scheme,
                from.spec_id(),
                entry.spec_id(),
            ),
    {
        self.mapper.url_for_entry(from.id(), entry.id())
    }
}

/// What a renderer needs to know of a page besides its payload.
pub struct PageInfo {
    pub title: String,
    pub short_title: String,
    pub template: Template,
    pub path: String,
    pub pagination: Option<PaginationInfo>,
}

/// One page of a category's listing.
pub struct CategoryListPage {
    pub category_id: u64,
    pub category_name: String,
    pub category_title: String,
    pub entries: Vec<u64>,
    pub anchors: Vec<(u64, String)>,
    pub page: PaginationInfo,
}

/// A page that lists a link to every item of a synthesized kind.
pub struct IndexPage {
    pub id: u64,
    pub title: String,
    pub path: String,
    pub entries: Vec<u64>,
    pub parent_id: Option<u64>,
}

/// The page of one scope.
pub struct ScopePage {
    pub id: u64,
    pub entry_id: u64,
    pub name: String,
}

/// One page of the modifiers that carry one mask.
pub struct MaskPage {
    pub id: u64,
    pub entry_id: u64,
    pub name: String,
    pub modifiers: Vec<u64>,
    pub page: PaginationInfo,
}

/// A renderable page, of one of the four kinds.
pub enum Page {
    CategoryList(CategoryListPage),
    Index(IndexPage),
    Scope(ScopePage),
    Mask(MaskPage),
}

/// A page over plain values.
pub enum PageView {
    CategoryList {
        category_id: u64,
        category_name: Seq<char>,
        category_title: Seq<char>,
        entries: Seq<u64>,
        anchors: Seq<(u64, Seq<char>)>,
        page: PaginationInfo,
    },
    Index { id: u64, title: Seq<char>, path: Seq<char>, entries: Seq<u64>, parent_id: Option<u64> },
    Scope { id: u64, entry_id: u64, name: Seq<char> },
    Mask { id: u64, entry_id: u64, name: Seq<char>, modifiers: Seq<u64>, page: PaginationInfo },
}

impl View for Page {
    type V = PageView;

    open spec fn view(&self) -> PageView {
        match self {
            Page::CategoryList(p) => PageView::CategoryList {
                category_id: p.category_id,
                category_name: p.category_name@,
                category_title: p.category_title@,
                entries: p.entries@,
                anchors: anchor_texts(p.anchors@),
                page: p.page,
            },
            Page::Index(p) => PageView::Index {
                id: p.id,
                title: p.title@,
                path: p.path@,
                entries: p.entries@,
                parent_id: p.parent_id,
            },
            Page::Scope(p) => PageView::Scope { id: p.id, entry_id: p.entry_id, name: p.name@ },
            Page::Mask(p) => PageView::Mask {
                id: p.id,
                entry_id: p.entry_id,
                name: p.name@,
                modifiers: p.modifiers@,
                page: p.page,
            },
        }
    }
}

/// The pages of a list over plain values.
pub open spec fn page_views(pages: Seq<Page>) -> Seq<PageView> {
    pages.map_values(|p: Page| p@)
}

/// The id of the entry that stands for the scope called `name`.
pub open spec fn scope_entry_id(name: Seq<char>) -> u64 {
    spec_hash("scope_"@ + name)
}

/// The id of the entry that stands for the mask called `name`.
pub open spec fn mask_entry_id(name: Seq<char>) -> u64 {
    spec_hash("mask_"@ + name)
}

/// The anchors of a list of pairs, with each string taken as text.
pub open spec fn anchor_texts(v: Seq<(u64, String)>) -> Seq<(u64, Seq<char>)> {
    v.map_values(|a: (u64, String)| (a.0, a.1@))
}

impl ScopePage {
    /// The id of the entry that stands for the scope called `name`.
    pub fn entry_id_for_name(name: &str) -> (id: u64)
        ensures
            id == scope_entry_id(name@),
    {
        hash(join2("scope_", name).as_str())
    }

    /// The id of the category that the scope entries belong to.
    pub fn category_id() -> (id: u64)
        ensures
            id == spec_hash("SCOPES"@),
    {
        hash("SCOPES")
    }

    /// The id of the page that lists all scopes.
    pub fn index_id() -> (id: u64)
        ensures
            id == spec_hash("SCOPES_INDEX"@),
    {
        hash("SCOPES_INDEX")
    }
}

impl MaskPage {
    /// The id of the entry that stands for the mask called `name`.
    pub fn entry_id_for_name(name: &str) -> (id: u64)
        ensures
            id == mask_entry_id(name@),
    {
        hash(join2("mask_", name).as_str())
    }

    /// The id of the category that the mask entries belong to.
    pub fn category_id() -> (id: u64)
        ensures
            id == spec_hash("MASKS"@),
    {
        hash("MASKS")
    }

    /// The id of the page that lists all masks.
    pub fn index_id() -> (id: u64)
        ensures
            id == spec_hash("MODIFIERS_INDEX"@),
    {
        hash("MODIFIERS_INDEX")
    }
}

impl CategoryListPage {
    /// Page `page_info.0` of `page_info.1` of a category's listing. `entries`
    /// are the entries shown on this page; `anchors` name every entry of the
    /// whole category, whichever page it is shown on.
    pub fn new(
        category_id: u64,
        category_name: &str,
        category_title: &str,
        entries: &[u64],
        anchors: Vec<(u64, String)>,
        page_info: (usize, usize),
    ) -> (r: CategoryListPage)
        ensures
            r.category_id == category_id,
            r.category_name@ == category_name@,
            r.category_title@ == category_title@,
            r.entries@ == entries@,
            r.anchors == anchors,
            r.page == (PaginationInfo { current_page: page_info.0, total_pages: page_info.1 }),
    {
        CategoryListPage {
            category_id,
            category_name: category_name.to_owned(),
            category_title: category_title.to_owned(),
            entries: vstd::slice::slice_to_vec(entries),
            anchors,
            page: PaginationInfo::new(page_info),
        }
    }
}

impl Page {
    /// The page's id. The pages of one paginated sequence differ in it: the
    /// page number is folded into the id by exclusive or.
    pub open spec fn spec_id(&self) -> u64 {
        match self {
            Page::CategoryList(p) => p.category_id ^ spec_hash(decimal(p.page.current_page as nat)),
            Page::Index(p) => p.id,
            Page::Scope(p) => p.id,
            Page::Mask(p) => p.id ^ (p.page.current_page as u64),
        }
    }

    /// The id that the pages of one paginated sequence share. A page that is
    /// not paginated has its own id as group id.
    pub open spec fn spec_group_id(&self) -> u64 {
        match self {
            Page::CategoryList(p) => spec_hash(p.category_name@),
            Page::Index(p) => p.id,
            Page::Scope(p) => p.id,
            Page::Mask(p) => spec_hash("modifiers_"@ + p.name@),
        }
    }

    /// The path of page `page` of this page's sequence, without extension:
    /// the first page lies at the plain name, every other page at the name
    /// with its number.
    pub open spec fn spec_page_url(&self, page: usize) -> Seq<char> {
        match self {
            Page::CategoryList(p) => if page == 1 {
                p.category_name@
            } else {
                p.category_name@ + "_p"@ + decimal(page as nat)
            },
            Page::Index(p) => p.path@,
            Page::Scope(p) => "scopes/"@ + p.name@,
            Page::Mask(p) => if page == 1 {
                "modifiers/"@ + p.name@
            } else {
                "modifiers/"@ + p.name@ + "_p"@ + decimal(page as nat)
            },
        }
    }

    /// The page's own path, without extension: that of its place in its
    /// sequence. The only page of a sequence lies at the plain name.
    pub open spec fn spec_path(&self) -> Seq<char> {
        match self {
            Page::CategoryList(p) => if p.page.total_pages == 1 {
                p.category_name@
            } else {
                self.spec_page_url(p.page.current_page)
            },
            Page::Index(p) => p.path@,
            Page::Scope(p) => "scopes/"@ + p.name@,
            Page::Mask(p) => if p.page.total_pages == 1 {
                "modifiers/"@ + p.name@
            } else {
                self.spec_page_url(p.page.current_page)
            },
        }
    }

    /// The page's full title.
    pub open spec fn spec_title(&self) -> Seq<char> {
        match self {
            Page::CategoryList(p) => p.category_title@,
            Page::Index(p) => p.title@,
            Page::Scope(p) => "Scope: "@ + p.name@,
            Page::Mask(p) => "Modifiers for Mask: "@ + p.name@,
        }
    }

    /// The page's title as breadcrumbs and the site map show it.
    pub open spec fn spec_short_title(&self) -> Seq<char> {
        match self {
            Page::CategoryList(p) => p.category_title@,
            Page::Index(p) => p.title@,
            Page::Scope(p) => p.name@,
            Page::Mask(p) => p.name@,
        }
    }

    /// The template that renders the page.
    pub open spec fn spec_template(&self) -> Template {
        match self {
            Page::CategoryList(_) => Template::CategoryList,
            Page::Index(_) => Template::ListIndex,
            Page::Scope(_) => Template::Scope,
            Page::Mask(_) => Template::Mask,
        }
    }

    /// The page's place in its sequence, for the kinds that are paginated.
    pub open spec fn spec_pagination(&self) -> Option<PaginationInfo> {
        match self {
            Page::CategoryList(p) => Some(p.page),
            Page::Index(_) => None,
            Page::Scope(_) => None,
            Page::Mask(p) => Some(p.page),
        }
    }

    /// The entries that links resolve to this page. A mask's own entry
    /// belongs to the first page of its sequence only.
    pub open spec fn spec_entries(&self) -> Seq<u64> {
        match self {
            Page::CategoryList(p) => p.entries@,
            Page::Index(_) => Seq::empty(),
            Page::Scope(p) => seq![p.entry_id],
            Page::Mask(p) => if p.page.current_page == 1 {
                p.modifiers@.push(p.entry_id)
            } else {
                p.modifiers@
            },
        }
    }

    /// The fragments by which entries are addressed inside a page.
    pub open spec fn spec_anchors(&self) -> Seq<(u64, Seq<char>)> {
        match self {
            Page::CategoryList(p) => anchor_texts(p.anchors@),
            _ => Seq::empty(),
        }
    }

    /// The page above this one in the breadcrumb chain.
    pub open spec fn spec_parent_id(&self) -> Option<u64> {
        match self {
            Page::CategoryList(_) => None,
            Page::Index(p) => p.parent_id,
            Page::Scope(_) => Some(spec_hash("SCOPES_INDEX"@)),
            Page::Mask(_) => Some(spec_hash("MODIFIERS_INDEX"@)),
        }
    }

    /// The page's id.
    pub fn id(&self) -> (r: u64)
        ensures
            r == self.spec_id(),
    {
        match self {
            Page::CategoryList(p) => p.category_id ^ hash(
                decimal_string(p.page.current_page).as_str(),
            ),
            Page::Index(p) => p.id,
            Page::Scope(p) => p.id,
            Page::Mask(p) => p.id ^ (p.page.current_page as u64),
        }
    }

    /// The id shared by the pages that this page is paginated with. A page
    /// that is not paginated answers for itself.
    pub fn group_id(&self) -> (r: u64)
        ensures
            r == self.spec_group_id(),
    {
        match self {
            Page::CategoryList(p) => hash(p.category_name.as_str()),
            Page::Index(p) => p.id,
            Page::Scope(p) => p.id,
            Page::Mask(p) => hash(join2("modifiers_", p.name.as_str()).as_str()),
        }
    }

    /// The path of page `page` of this page's sequence, without extension:
    /// it depends on the page's identity and on `page` alone.
    pub fn page_url(&self, page: usize) -> (r: String)
        ensures
            r@ == self.spec_page_url(page),
    {
        match self {
            Page::CategoryList(p) => if page == 1 {
                p.category_name.clone()
            } else {
                join3(p.category_name.as_str(), "_p", decimal_string(page).as_str())
            },
            Page::Index(p) => p.path.clone(),
            Page::Scope(p) => join2("scopes/", p.name.as_str()),
            Page::Mask(p) => if page == 1 {
                join2("modifiers/", p.name.as_str())
            } else {
                let mut s = join3("modifiers/", p.name.as_str(), "_p");
                s.append(decimal_string(page).as_str());
                s
            },
        }
    }

    /// Title, template, path and pagination state of the page.
    pub fn info(&self) -> (r: PageInfo)
        ensures
            r.title@ == self.spec_title(),
            r.short_title@ == self.spec_short_title(),
            r.template == self.spec_template(),
            r.path@ == self.spec_path(),
            r.pagination == self.spec_pagination(),
    {
        match self {
            Page::CategoryList(p) => PageInfo {
                title: p.category_title.clone(),
                short_title: p.category_title.clone(),
                template: Template::CategoryList,
                path: if p.page.total_pages == 1 {
                    p.category_name.clone()
                } else {
                    self.page_url(p.page.current_page)
                },
                pagination: Some(p.page),
            },
            Page::Index(p) => PageInfo {
                title: p.title.clone(),
                short_title: p.title.clone(),
                template: Template::ListIndex,
                path: p.path.clone(),
                pagination: None,
            },
            Page::Scope(p) => PageInfo {
                short_title: p.name.clone(),
                title: join2("Scope: ", p.name.as_str()),
                path: join2("scopes/", p.name.as_str()),
                template: Template::Scope,
                pagination: None,
            },
            Page::Mask(p) => PageInfo {
                short_title: p.name.clone(),
                title: join2("Modifiers for Mask: ", p.name.as_str()),
                path: if p.page.total_pages == 1 {
                    join2("modifiers/", p.name.as_str())
                } else {
                    self.page_url(p.page.current_page)
                },
                template: Template::Mask,
                pagination: Some(p.page),
            },
        }
    }

    /// The ids of the entries that this page owns.
    pub fn entries(&self) -> (r: Vec<u64>)
        ensures
            r@ == self.spec_entries(),
    {
        match self {
            Page::CategoryList(p) => p.entries.clone(),
            Page::Index(_) => Vec::new(),
            Page::Scope(p) => {
                let mut v = Vec::new();
                v.push(p.entry_id);
                assert(v@ =~= seq![p.entry_id]);
                v
            },
            Page::Mask(p) => {
                let mut modifiers = p.modifiers.clone();
                if p.page.current_page == 1 {
                    modifiers.push(p.entry_id);
                }
                modifiers
            },
        }
    }

    /// The anchors on this page, each with the entry that it addresses.
    pub fn anchors(&self) -> (r: Vec<(u64, String)>)
        ensures
            anchor_texts(r@) == self.spec_anchors(),
    {
        match self {
            Page::CategoryList(p) => {
                let mut v: Vec<(u64, String)> = Vec::new();
                let mut i: usize = 0;
                while i < p.anchors.len()
                    invariant
                        i <= p.anchors@.len(),
                        v@.len() == i,
                        forall|j: int|
                            0 <= j < i ==> v@[j].0 == p.anchors@[j].0 && v@[j].1@
                                == p.anchors@[j].1@,
                    decreases p.anchors@.len() - i,
                {
                    v.push((p.anchors[i].0, p.anchors[i].1.clone()));
                    i += 1;
                }
                assert(anchor_texts(v@) =~= anchor_texts(p.anchors@));
                v
            },
            _ => {
                let v: Vec<(u64, String)> = Vec::new();
                assert(anchor_texts(v@) =~= Seq::empty());
                v
            },
        }
    }

    /// The id of the page above this one, or `None` at the profile's root.
    pub fn parent_id(&self) -> (r: Option<u64>)
        ensures
            r == self.spec_parent_id(),
    {
        match self {
            Page::CategoryList(_) => None,
            Page::Index(p) => p.parent_id,
            Page::Scope(_) => Some(ScopePage::index_id()),
            Page::Mask(_) => Some(MaskPage::index_id()),
        }
    }
}

} // verus!
