use pdxdoc::breadcrumbs::{Breadcrumb, Breadcrumbs};
use pdxdoc::builder::{GenericListPageBuilder, ListKind};
use pdxdoc::collate::CollatedCrossReferences;
use pdxdoc::config::{Config, PaginationMode, Profile, ProfileGame, UrlScheme};
use pdxdoc::data::PageData;
use pdxdoc::docstring::{DocString, DocStringSegment};
use pdxdoc::dossier::{DocCategory, DocInfo, Dossier, StringTable};
use pdxdoc::entry::{DocEntry, EmptyDocEntry, ScriptDocCategory, ScriptDocContent, ScriptDocEntry};
use pdxdoc::error::Error;
use pdxdoc::games::{provider_for_game, BranchRevParser, GameVersion};
use pdxdoc::generator::SiteProfile;
use pdxdoc::mapper::SiteMapper;
use pdxdoc::page::{
    CategoryListPage, IndexPage, MaskPage, Page, PageContext, PaginationInfo, ScopePage,
};
use pdxdoc::paths::{try_url_from, url_from};
use pdxdoc::sitemap::SiteMap;
use pdxdoc::theme::Template;
use pdxdoc::util::hash;

fn config(limit: usize, scheme: UrlScheme) -> Config {
    Config {
        profiles: vec![profile()],
        url_scheme: scheme,
        output_dir: "out".to_string(),
        use_subfolder_for_single_profile: false,
        pagination: PaginationMode::Absolute { limit },
    }
}

fn profile() -> Profile {
    Profile {
        name: "vic3".to_string(),
        title: "Victoria 3".to_string(),
        game: ProfileGame::Victoria3,
        game_data_dir: "game".to_string(),
        user_data_dir: "user".to_string(),
    }
}

fn info() -> DocInfo {
    DocInfo::new(GameVersion { version_number: "1.7.1".to_string(), detailed: "d".to_string() })
}

fn dossier(limit: usize, names: &[&str]) -> Dossier {
    let table = StringTable::new(names.iter().map(|s| s.to_string()).collect());
    let categories = provider_for_game(&ProfileGame::Victoria3).get_categories();
    Dossier::new(config(limit, UrlScheme::Relative), categories, table, info())
}

fn entry(category: ScriptDocCategory, prefix: &str, name: &str, content: ScriptDocContent) -> DocEntry {
    DocEntry::Script(ScriptDocEntry {
        id: hash(&format!("{}_{}", prefix, name)),
        category,
        name: name.to_string(),
        content: Some(content),
    })
}

fn modifier(name: &str, mask: usize) -> DocEntry {
    entry(
        ScriptDocCategory::Modifiers,
        "modifiers",
        name,
        ScriptDocContent::Modifiers {
            display_name: Some(DocString::from_text(&name.to_uppercase())),
            description: None,
            mask,
        },
    )
}

fn effect(name: &str, scopes: Vec<usize>, targets: Vec<usize>) -> DocEntry {
    entry(
        ScriptDocCategory::Effects,
        "effects",
        name,
        ScriptDocContent::Effects {
            description: DocString::from_text("does things"),
            supported_scopes: scopes,
            supported_targets: targets,
        },
    )
}

fn trigger(name: &str, scopes: Vec<usize>) -> DocEntry {
    entry(
        ScriptDocCategory::Triggers,
        "triggers",
        name,
        ScriptDocContent::Triggers {
            description: DocString::from_text("checks things"),
            supported_scopes: scopes,
            supported_targets: vec![],
        },
    )
}

fn id_of(prefix: &str, name: &str) -> u64 {
    hash(&format!("{}_{}", prefix, name))
}

#[test]
fn find_references_to_lists_every_source_in_order() {
    let mut d = dossier(50, &["country", "state"]);
    d.add_reference("a", 1, 9);
    d.add_reference("b", 2, 8);
    d.add_reference("c", 1, 9);
    d.add_reference("d", 3, 9);
    assert_eq!(d.find_references_to(9), vec![1, 1, 3]);
    assert_eq!(d.find_references_to(8), vec![2]);
    assert_eq!(d.find_references_to(7), Vec::<u64>::new());
}

#[test]
fn references_resolve_names_by_kind() {
    let mut d = dossier(50, &["country", "tax"]);
    d.add_scope_reference("Scope", 5, 0);
    d.add_mask_reference("Mask", 6, 1);
    assert_eq!(d.find_references_to(hash("scope_country")), vec![5]);
    assert_eq!(d.find_references_to(hash("mask_tax")), vec![6]);
    assert_eq!(ScopePage::entry_id_for_name("country"), hash("scope_country"));
    assert_eq!(MaskPage::entry_id_for_name("tax"), hash("mask_tax"));
    assert_ne!(ScopePage::entry_id_for_name("tax"), MaskPage::entry_id_for_name("tax"));
}

#[test]
fn add_entries_registers_lists_and_records() {
    let mut d = dossier(50, &["country", "state"]);
    let r = d.add_entries(vec![
        effect("add_gold", vec![0], vec![1]),
        trigger("has_gold", vec![0, 1]),
        modifier("tax_bonus", 1),
    ]);
    assert!(r.is_ok());
    assert_eq!(d.entries.len(), 3);
    let effects = d.categories.iter().find(|c| c.name == "effects").unwrap();
    assert_eq!(effects.entries, vec![id_of("effects", "add_gold")]);
    let modifiers = d.categories.iter().find(|c| c.name == "modifiers").unwrap();
    assert!(modifiers.entries.is_empty());
    assert_eq!(d.cross_references.len(), 5);
    assert_eq!(d.cross_references[0].from_property, "Supported Scopes");
    assert_eq!(d.cross_references[1].from_property, "Supported Targets");
    assert_eq!(d.cross_references[1].to_id, hash("scope_state"));
    assert_eq!(d.cross_references[4].from_property, "Mask");
    assert_eq!(d.cross_references[4].to_id, hash("mask_state"));
    assert_eq!(
        d.find_references_to(hash("scope_country")),
        vec![id_of("effects", "add_gold"), id_of("triggers", "has_gold")]
    );
}

#[test]
fn add_entries_fails_on_a_missing_category() {
    let table = StringTable::new(vec!["country".to_string()]);
    let categories = vec![DocCategory::new("Effects", "effects", "Effects")];
    let mut d = Dossier::new(config(50, UrlScheme::Relative), categories, table, info());
    let r = d.add_entries(vec![
        effect("first", vec![0], vec![]),
        trigger("second", vec![0]),
        effect("third", vec![0], vec![]),
    ]);
    assert!(matches!(r, Err(Error::MissingCategory)));
    assert_eq!(d.entries.len(), 1);
    assert!(d.entries.contains_key(&id_of("effects", "first")));
    assert_eq!(d.cross_references.len(), 1);
}

#[test]
fn later_category_with_the_same_id_replaces_the_earlier() {
    let categories = vec![
        DocCategory::new("Effects", "effects", "Effects"),
        DocCategory::new("Triggers", "triggers", "Triggers"),
        DocCategory::new("Effects", "effects2", "Other Effects"),
    ];
    let d = Dossier::new(
        config(50, UrlScheme::Relative),
        categories,
        StringTable::new(vec![]),
        info(),
    );
    assert_eq!(d.categories.len(), 2);
    assert_eq!(d.categories[0].name, "effects2");
    assert_eq!(d.categories[1].name, "triggers");
}

#[test]
fn entry_accessors() {
    let e = effect("add_gold", vec![0], vec![1]);
    assert_eq!(e.id(), id_of("effects", "add_gold"));
    assert_eq!(e.name(), "add_gold");
    assert_eq!(e.category_id(), Some(hash("Effects")));
    assert!(e.body().is_some());
    assert_eq!(e.references().len(), 2);
    let m = modifier("tax_bonus", 0);
    assert_eq!(m.category_id(), None);
    assert!(m.body().is_none());
    let empty = DocEntry::Empty(EmptyDocEntry::new(7, 8, "country".to_string()));
    assert_eq!(empty.id(), 7);
    assert_eq!(empty.name(), "country");
    assert_eq!(empty.category_id(), None);
    assert!(empty.body().is_none());
    assert!(empty.references().is_empty());
}

fn mask_world() -> (Dossier, Vec<Page>) {
    let mut d = dossier(4, &["tax_mask"]);
    let names = ["m3", "m1", "m5", "m2", "m4"];
    d.add_entries(names.iter().map(|n| modifier(n, 0)).collect()).unwrap();
    d.add_builder(GenericListPageBuilder::new(ListKind::Masks, vec![0]));
    let c = config(4, UrlScheme::Relative);
    let pages = Dossier::create_pages(&d, &c);
    (d, pages)
}

#[test]
fn mask_with_five_modifiers_makes_two_pages() {
    let (_d, pages) = mask_world();
    let masks: Vec<&Page> = pages.iter().filter(|p| matches!(p, Page::Mask(_))).collect();
    assert_eq!(masks.len(), 2);
    let mask_id = hash("mask_tax_mask");
    let m = |n: &str| id_of("modifiers", n);
    assert_eq!(masks[0].entries(), vec![m("m1"), m("m2"), m("m3"), m("m4"), mask_id]);
    assert_eq!(masks[1].entries(), vec![m("m5")]);
    assert_eq!(masks[0].info().pagination, Some(PaginationInfo { current_page: 1, total_pages: 2 }));
    assert_eq!(masks[1].info().pagination, Some(PaginationInfo { current_page: 2, total_pages: 2 }));
    assert_eq!(masks[0].info().path, "modifiers/tax_mask");
    assert_eq!(masks[1].info().path, "modifiers/tax_mask_p2");
    assert_eq!(masks[0].group_id(), masks[1].group_id());
    assert_ne!(masks[0].id(), masks[1].id());
    assert_eq!(masks[0].parent_id(), Some(hash("MODIFIERS_INDEX")));
    assert_eq!(masks[0].info().title, "Modifiers for Mask: tax_mask");
    assert_eq!(masks[0].info().template, Template::Mask);
}

#[test]
fn mask_below_the_floor_is_not_paginated() {
    let mut d = dossier(2, &["tax_mask"]);
    d.add_entries(vec![modifier("b", 0), modifier("a", 0), modifier("c", 0)]).unwrap();
    let pages = MaskPage::new(&d, 77, hash("mask_tax_mask"), "tax_mask".to_string());
    assert_eq!(pages.len(), 1);
    let m = |n: &str| id_of("modifiers", n);
    assert_eq!(pages[0].entries(), vec![m("a"), m("b"), m("c"), hash("mask_tax_mask")]);
    assert_eq!(pages[0].info().path, "modifiers/tax_mask");
    assert_eq!(pages[0].id(), 77 ^ 1);
}

#[test]
fn builder_synthesizes_entries_pages_and_one_index() {
    let mut d = dossier(50, &["state", "country"]);
    d.add_builder(GenericListPageBuilder::new(ListKind::Scopes, vec![0, 1]));
    assert_eq!(d.entries.len(), 2);
    let country = d.entries.get(&hash("scope_country")).unwrap();
    assert_eq!(country.name(), "country");
    assert!(matches!(country, DocEntry::Empty(e) if e.category_id == hash("SCOPES")));
    let c = config(50, UrlScheme::Relative);
    let pages = d.builders[0].build_pages(&d, &c);
    assert_eq!(pages.len(), 3);
    assert_eq!(pages[0].info().path, "scopes/country");
    assert_eq!(pages[1].info().path, "scopes/state");
    assert_eq!(pages[0].entries(), vec![hash("scope_country")]);
    assert_eq!(pages[0].info().title, "Scope: country");
    assert_eq!(pages[0].info().short_title, "country");
    assert_eq!(pages[0].info().pagination, None);
    assert_eq!(
        pages[0].id(),
        hash(&format!("{}_{}", hash("SCOPES"), hash("scope_country")))
    );
    assert_eq!(pages[0].parent_id(), Some(hash("SCOPES_INDEX")));
    assert_eq!(pages[0].group_id(), pages[0].id());
    assert_ne!(pages[0].group_id(), pages[1].group_id());
    assert_eq!(pages[0].page_url(3), "scopes/country");
    assert!(pages[0].anchors().is_empty());
    match &pages[2] {
        Page::Index(index) => {
            assert_eq!(index.entries, vec![hash("scope_country"), hash("scope_state")]);
            assert_eq!(index.path, "scopes/index.html");
            assert_eq!(index.title, "Scopes");
        }
        _ => panic!("the last page is the index"),
    }
    assert_eq!(pages[2].id(), hash("SCOPES_INDEX"));
    assert_eq!(pages[2].group_id(), pages[2].id());
    assert_eq!(pages[2].parent_id(), None);
    assert!(pages[2].entries().is_empty());
    assert_eq!(pages[2].info().template, Template::ListIndex);
}

fn effects_world(scheme: UrlScheme) -> (SiteProfile, SiteMapper) {
    let mut d = dossier(2, &["country"]);
    d.add_entries(vec![
        effect("c_effect", vec![0], vec![]),
        effect("a_effect", vec![0], vec![]),
        effect("b_effect", vec![], vec![]),
    ])
    .unwrap();
    d.add_builder(GenericListPageBuilder::new(ListKind::Scopes, vec![0]));
    let c = config(2, scheme);
    let site = SiteProfile::new(&c, profile(), d);
    let mut mapper = SiteMapper::new(c);
    mapper.record_profile(&site);
    (site, mapper)
}

#[test]
fn category_listing_is_sorted_and_paginated() {
    let (site, _) = effects_world(UrlScheme::Relative);
    let effects: Vec<&Page> = site
        .pages
        .iter()
        .filter(|p| matches!(p, Page::CategoryList(c) if c.category_name == "effects"))
        .collect();
    assert_eq!(effects.len(), 2);
    let e = |n: &str| id_of("effects", n);
    assert_eq!(effects[0].entries(), vec![e("a_effect"), e("b_effect")]);
    assert_eq!(effects[1].entries(), vec![e("c_effect")]);
    assert_eq!(effects[0].info().path, "effects");
    assert_eq!(effects[1].info().path, "effects_p2");
    assert_eq!(effects[0].page_url(1), "effects");
    assert_eq!(effects[0].group_id(), hash("effects"));
    assert_eq!(effects[0].id(), hash("Effects") ^ hash("1"));
    assert_eq!(effects[1].id(), hash("Effects") ^ hash("2"));
    assert_eq!(effects[0].parent_id(), None);
    let anchors = effects[1].anchors();
    assert_eq!(
        anchors,
        vec![
            (e("c_effect"), "c_effect".to_string()),
            (e("a_effect"), "a_effect".to_string()),
            (e("b_effect"), "b_effect".to_string()),
        ]
    );
    let empty: Vec<&Page> = site
        .pages
        .iter()
        .filter(|p| matches!(p, Page::CategoryList(c) if c.category_name == "triggers"))
        .collect();
    assert_eq!(empty.len(), 1);
    assert_eq!(empty[0].info().path, "triggers");
    assert!(empty[0].entries().is_empty());
}

#[test]
fn entry_on_the_second_page_resolves_to_the_second_page() {
    let (_, mapper) = effects_world(UrlScheme::Relative);
    let e = |n: &str| id_of("effects", n);
    assert_eq!(mapper.url_for_entry(e("a_effect"), e("c_effect")), "effects_p2.html#c_effect");
    assert_eq!(mapper.url_for_entry(e("c_effect"), e("a_effect")), "effects.html#a_effect");
    assert_eq!(
        mapper.url_for_entry(hash("scope_country"), e("c_effect")),
        "../effects_p2.html#c_effect"
    );
    assert_eq!(
        mapper.url_for_entry(e("c_effect"), hash("scope_country")),
        "scopes/country.html"
    );
    assert_eq!(
        mapper.try_url_for_entry(e("c_effect"), hash("scope_country")),
        Some("scopes/country.html".to_string())
    );
    assert_eq!(mapper.try_url_for_entry(e("c_effect"), 12345), None);
}

#[test]
fn absolute_scheme_prefixes_the_base_url() {
    let scheme = UrlScheme::Absolute { base_url: "https://docs.example/".to_string() };
    let (_, mapper) = effects_world(scheme);
    let e = |n: &str| id_of("effects", n);
    assert_eq!(
        mapper.url_for_entry(12345, e("c_effect")),
        "https://docs.example/effects_p2.html#c_effect"
    );
    assert_eq!(
        mapper.url_for_entry(e("a_effect"), hash("scope_country")),
        "https://docs.example/scopes/country.html"
    );
}

#[test]
fn record_profile_fills_every_table() {
    let (site, mapper) = effects_world(UrlScheme::Relative);
    let page2 = site.pages.iter().find(|p| p.info().path == "effects_p2").unwrap();
    let page1 = site.pages.iter().find(|p| p.info().path == "effects").unwrap();
    let recorded = mapper.page_paths.get(&page2.id()).unwrap();
    assert_eq!(recorded.path, "effects_p2.html");
    assert_eq!(recorded.disk, "out/effects_p2.html");
    assert_eq!(mapper.page_groups.get(&page2.id()), Some(&hash("effects")));
    assert_eq!(
        mapper.groups.get(&hash("effects")),
        Some(&vec![(1, page1.id()), (2, page2.id())])
    );
    assert_eq!(mapper.entry_pages.get(&id_of("effects", "c_effect")), Some(&page2.id()));
    assert_eq!(mapper.entry_anchors.get(&id_of("effects", "a_effect")), Some(&"a_effect".to_string()));
    assert_eq!(mapper.page_profiles.get(&page2.id()), Some(&hash("vic3")));
    assert_eq!(mapper.profiles.get(&hash("vic3")).unwrap().title, "Victoria 3");
    let mapping = mapper.page_path_mapping();
    assert_eq!(mapping.len(), site.pages.len());
    assert_eq!(mapping.get(&page1.id()), Some(&"effects.html".to_string()));
    let scope = site.pages.iter().find(|p| matches!(p, Page::Scope(_))).unwrap();
    assert!(mapper.page_groups.get(&scope.id()).is_none());
}

#[test]
fn several_profiles_get_folders() {
    let mut c = config(50, UrlScheme::Relative);
    c.profiles.push(profile());
    let mut mapper = SiteMapper::new(c);
    let page = Page::Scope(ScopePage { id: 1, entry_id: 2, name: "country".to_string() });
    mapper.record_page(&page, "vic3");
    let recorded = mapper.page_paths.get(&1).unwrap();
    assert_eq!(recorded.path, "vic3/scopes/country.html");
    assert_eq!(recorded.disk, "out/vic3/scopes/country.html");
    let mut single = config(50, UrlScheme::Relative);
    single.use_subfolder_for_single_profile = true;
    let mut mapper = SiteMapper::new(single);
    mapper.record_page(&page, "vic3");
    assert_eq!(mapper.page_paths.get(&1).unwrap().path, "vic3/scopes/country.html");
}

#[test]
fn relative_urls_between_directories() {
    assert_eq!(url_from("a/b/page.html", "a/c/other.html"), "../c/other.html");
    assert_eq!(url_from("page.html", "a/other.html"), "a/other.html");
    assert_eq!(url_from("a/page.html", "other.html"), "../other.html");
    assert_eq!(url_from("a/page.html", "a/other.html"), "other.html");
    assert_eq!(url_from("effects.html", "/assets/style.css"), "/assets/style.css");
    assert_eq!(try_url_from("/abs/page.html", "rel/other.html"), None);
    assert_eq!(try_url_from("../x/page.html", "a/other.html"), None);
}

#[test]
fn relative_urls_lead_back() {
    let pairs = [
        ("a/b/one.html", "a/c/two.html"),
        ("one.html", "x/y/two.html"),
        ("x/y/one.html", "two.html"),
        ("p/one.html", "p/two.html"),
    ];
    for (a, b) in pairs {
        let there = url_from(a, b);
        let back = url_from(b, a);
        let dir_a = a.rsplit_once('/').map(|x| x.0).unwrap_or("");
        let dir_b = b.rsplit_once('/').map(|x| x.0).unwrap_or("");
        let file_a = a.rsplit_once('/').map(|x| x.1).unwrap_or(a);
        let dir_there = there.rsplit_once('/').map(|x| x.0).unwrap_or("");
        let dir_back = back.rsplit_once('/').map(|x| x.0).unwrap_or("");
        let mut walked: Vec<&str> = dir_a.split('/').filter(|s| !s.is_empty()).collect();
        for step in dir_there.split('/').chain(dir_back.split('/')).filter(|s| !s.is_empty()) {
            if step == ".." {
                walked.pop();
            } else {
                walked.push(step);
            }
        }
        walked.push(file_a);
        assert_eq!(walked.join("/"), a);
        assert!(back.ends_with(file_a));
        assert!(!dir_b.is_empty() || !there.contains('/') || there.starts_with(".."));
    }
}

#[test]
fn asset_urls_and_paths() {
    let (site, mapper) = effects_world(UrlScheme::Relative);
    let scope = site.pages.iter().find(|p| matches!(p, Page::Scope(_))).unwrap();
    assert_eq!(mapper.asset_url(scope.id(), "style.css"), "/assets/style.css");
    assert_eq!(mapper.try_asset_url(scope.id(), "style.css"), Some("/assets/style.css".to_string()));
    assert_eq!(mapper.try_asset_url(424242, "style.css"), None);
    assert_eq!(mapper.asset_path("style.css"), "out/assets/style.css");
    let mapping = mapper.page_path_mapping();
    assert_eq!(
        SiteMapper::asset_url_with_mapping(&mapping, scope.id(), "a.png"),
        "/assets/a.png"
    );
    assert_eq!(
        SiteMapper::url_with_mapping(&mapping, scope.id(), "effects_p2.html"),
        "../effects_p2.html"
    );
    assert_eq!(SiteMapper::try_url_with_mapping(&mapping, 424242, "x.html"), None);
    assert_eq!(
        SiteMapper::try_asset_url_with_mapping(&mapping, scope.id(), "a.png"),
        Some("/assets/a.png".to_string())
    );
    let index = site.pages.iter().find(|p| matches!(p, Page::Index(_))).unwrap();
    assert_eq!(
        mapper.page_to_entry_url(&index.id(), &hash("scope_country")),
        "country.html"
    );
    assert_eq!(mapper.try_page_to_entry_url(&index.id(), &31337), None);
}

fn node<'a>(map: &'a SiteMap, key: &str) -> &'a SiteMap {
    map.children.iter().find(|c| c.key == key).unwrap()
}

#[test]
fn site_map_round_trip() {
    let (site, mapper) = effects_world(UrlScheme::Relative);
    let map = SiteMap::from_pages(&site);
    assert_eq!(map.title, "Victoria 3");
    assert_eq!(map.absolute_url, "/index.html");
    assert_eq!(map.page_ids.len(), site.pages.len());
    let scope = site.pages.iter().find(|p| matches!(p, Page::Scope(_))).unwrap();
    let scopes = node(&map, "scopes");
    let country = node(scopes, "country");
    assert_eq!(country.absolute_url, mapper.page_paths.get(&scope.id()).unwrap().path);
    assert_eq!(country.absolute_url, "scopes/country.html");
    assert_eq!(country.title, "country");
    assert!(country.page.is_none());
    assert_eq!(country.page_ids, vec![scope.id(), scope.id()]);
    assert_eq!(scopes.title, "Scopes");
    assert_eq!(scopes.absolute_url, "scopes/index.html");
    assert_eq!(scopes.children.len(), 1);
    let page1 = site.pages.iter().find(|p| p.info().path == "effects").unwrap();
    let first = mapper.page_paths.get(&page1.id()).unwrap().path.clone();
    for key in ["effects", "effects_p2"] {
        let n = node(&map, key);
        assert_eq!(n.absolute_url, first);
        assert_eq!(n.title, "Effects");
        assert_eq!(n.page.unwrap().total_pages, 2);
    }
    let triggers = node(&map, "triggers");
    assert_eq!(triggers.absolute_url, "triggers.html");
    assert_eq!(triggers.page, Some(PaginationInfo { current_page: 1, total_pages: 1 }));
}

#[test]
fn breadcrumbs_walk_up_to_the_root() {
    let (site, _) = effects_world(UrlScheme::Relative);
    let scope = site.pages.iter().find(|p| matches!(p, Page::Scope(_))).unwrap();
    let crumbs = Breadcrumbs::from_page(scope, &site);
    assert_eq!(crumbs.len(), 3);
    assert!(matches!(&crumbs.crumbs[0], Breadcrumb::Single { title, absolute_url }
        if title == "Victoria 3" && absolute_url == "index"));
    assert!(matches!(&crumbs.crumbs[1], Breadcrumb::Single { title, absolute_url }
        if title == "Scopes" && absolute_url == "scopes/index.html"));
    assert!(matches!(&crumbs.crumbs[2], Breadcrumb::Single { title, absolute_url }
        if title == "country" && absolute_url == "scopes/country.html"));
    let page2 = site.pages.iter().find(|p| p.info().path == "effects_p2").unwrap();
    let crumbs = Breadcrumbs::from_page(page2, &site);
    assert_eq!(crumbs.len(), 2);
    assert!(matches!(&crumbs.crumbs[1], Breadcrumb::Paged { title, root_url, page }
        if title == "Effects" && root_url == "effects.html"
            && *page == PaginationInfo { current_page: 2, total_pages: 2 }));
    let listed = crumbs.into_iter();
    assert_eq!(listed[0].0, 0);
    assert_eq!(listed[1].0, 1);
    assert_eq!(Breadcrumbs::ensure_html_on_url("a/b"), "a/b.html");
    assert_eq!(Breadcrumbs::ensure_html_on_url("a/index.html"), "a/index.html");
    assert_eq!(Breadcrumbs::new(vec![]).len(), 0);
}

#[test]
fn breadcrumbs_need_the_parent_and_no_circle() {
    let mut site = effects_world(UrlScheme::Relative).0;
    let orphan = Page::Scope(ScopePage { id: 1, entry_id: 2, name: "x".to_string() });
    site.pages.retain(|p| !matches!(p, Page::Index(_)));
    assert!(Breadcrumbs::try_from_page(&orphan, &site).is_none());
    let looped = Page::Index(IndexPage {
        id: 5,
        title: "loop".to_string(),
        path: "loop".to_string(),
        entries: vec![],
        parent_id: Some(5),
    });
    let child = Page::Index(IndexPage {
        id: 6,
        title: "child".to_string(),
        path: "child".to_string(),
        entries: vec![],
        parent_id: Some(5),
    });
    site.pages.push(looped);
    assert!(Breadcrumbs::try_from_page(&child, &site).is_none());
}

fn link_texts(c: &CollatedCrossReferences) -> Vec<(String, String, Vec<String>)> {
    let mut out = Vec::new();
    for g in &c.groups {
        for s in &g.properties {
            let items = s
                .items
                .iter()
                .map(|i| match &i.0.segments[0] {
                    DocStringSegment::Link { contents, url } => format!("{}|{}", contents, url),
                    DocStringSegment::Text { contents } => contents.clone(),
                    _ => panic!("a reference is a link or plain text"),
                })
                .collect();
            out.push((g.name.clone(), s.name.clone(), items));
        }
    }
    out
}

fn collate_world(order: &[usize]) -> (SiteProfile, SiteMapper) {
    let mut d = dossier(50, &["country"]);
    let all = [
        trigger("zeta", vec![0]),
        effect("beta", vec![0], vec![0]),
        trigger("alpha", vec![0]),
        effect("alpha", vec![0], vec![]),
    ];
    let mut all: Vec<Option<DocEntry>> = all.into_iter().map(Some).collect();
    let entries = order.iter().map(|i| all[*i].take().unwrap()).collect();
    d.add_entries(entries).unwrap();
    d.add_builder(GenericListPageBuilder::new(ListKind::Scopes, vec![0]));
    let c = config(50, UrlScheme::Relative);
    let site = SiteProfile::new(&c, profile(), d);
    let mut mapper = SiteMapper::new(c);
    mapper.record_profile(&site);
    (site, mapper)
}

#[test]
fn collated_references_are_sorted_and_do_not_depend_on_insertion_order() {
    let expected = vec![
        (
            "Effects".to_string(),
            "Supported Scopes".to_string(),
            vec!["alpha|../effects.html#alpha".to_string(), "beta|../effects.html#beta".to_string()],
        ),
        (
            "Effects".to_string(),
            "Supported Targets".to_string(),
            vec!["beta|../effects.html#beta".to_string()],
        ),
        (
            "Triggers".to_string(),
            "Supported Scopes".to_string(),
            vec![
                "alpha|../triggers.html#alpha".to_string(),
                "zeta|../triggers.html#zeta".to_string(),
            ],
        ),
    ];
    for order in [[0, 1, 2, 3], [3, 2, 1, 0], [1, 3, 0, 2]] {
        let (site, mapper) = collate_world(&order);
        let context = PageContext::new(&mapper);
        let scope = site.pages.iter().find(|p| matches!(p, Page::Scope(_))).unwrap();
        let collated =
            site.dossier.collate_references(&context, scope.id(), hash("scope_country"));
        assert_eq!(collated.groups.len(), 2);
        assert_eq!(link_texts(&collated), expected);
        assert!(collated.groups.iter().all(|g| g
            .properties
            .iter()
            .all(|s| s.items.iter().all(|i| i.1 == scope.id()))));
    }
}

#[test]
fn dangling_reference_degrades_to_plain_text() {
    let (site, mapper) = collate_world(&[0, 1, 2, 3]);
    let context = PageContext::new(&mapper);
    let from = site.dossier.entries.get(&id_of("effects", "beta")).unwrap();
    let missing = site.dossier.link_for_entry(&context, from, "ghost", &999);
    assert!(matches!(missing, DocStringSegment::Text { contents } if contents == "ghost"));
    let found = site.dossier.link_for_scope(&context, from, &0);
    assert!(matches!(found, DocStringSegment::Link { contents, url }
        if contents == "country" && url == "scopes/country.html"));
    assert_eq!(context.url_for_entry(from, from), "effects.html#beta");
}

#[test]
fn page_data_resolves_links() {
    let (site, mapper) = collate_world(&[0, 1, 2, 3]);
    let context = PageContext::new(&mapper);
    let effects = site
        .pages
        .iter()
        .find(|p| matches!(p, Page::CategoryList(c) if c.category_name == "effects"))
        .unwrap();
    match effects.data(&context, &site.dossier) {
        PageData::CategoryList { entries, pagination, body } => {
            assert_eq!(pagination, PaginationInfo { current_page: 1, total_pages: 1 });
            assert!(body.0.segments.is_empty());
            assert_eq!(entries.len(), 2);
            assert_eq!(entries[0].name, "alpha");
            assert_eq!(entries[0].anchor, "alpha");
            assert_eq!(entries[1].name, "beta");
            assert!(entries[1].body.is_some());
            assert_eq!(entries[1].properties.len(), 2);
            assert_eq!(entries[1].properties[0].name, "Supported Scopes");
            assert_eq!(
                entries[1].properties[0].value.to_html().unwrap(),
                "<p><a href=\"scopes/country.html\">country</a>"
            );
            assert_eq!(entries[1].properties[1].name, "Supported Targets");
            assert!(entries[1].cross_refs.groups.is_empty());
        }
        _ => panic!("a listing has listing data"),
    }
    let index = site.pages.iter().find(|p| matches!(p, Page::Index(_))).unwrap();
    match index.data(&context, &site.dossier) {
        PageData::Index { items } => {
            assert_eq!(items.len(), 1);
            assert_eq!(items[0].to_html().unwrap(), "<p><a href=\"country.html\">country</a>");
        }
        _ => panic!("an index has index data"),
    }
    let scope = site.pages.iter().find(|p| matches!(p, Page::Scope(_))).unwrap();
    match scope.data(&context, &site.dossier) {
        PageData::Scope { cross_refs } => assert_eq!(cross_refs.groups.len(), 2),
        _ => panic!("a scope has scope data"),
    }
}

#[test]
fn mask_page_data_lists_its_modifiers() {
    let (d, pages) = mask_world();
    let c = config(4, UrlScheme::Relative);
    let mapper = SiteMapper::new(c);
    let context = PageContext::new(&mapper);
    let page2 = pages.iter().find(|p| p.info().path == "modifiers/tax_mask_p2").unwrap();
    match page2.data(&context, &d) {
        PageData::Mask { modifiers, pagination } => {
            assert_eq!(pagination, PaginationInfo { current_page: 2, total_pages: 2 });
            assert_eq!(modifiers.len(), 1);
            assert_eq!(modifiers[0].name, "m5");
            assert_eq!(modifiers[0].display_name.as_ref().unwrap().to_html().unwrap(), "<p>M5");
            assert!(modifiers[0].description.is_none());
        }
        _ => panic!("a mask page has mask data"),
    }
}

#[test]
fn properties_of_each_kind_of_entry() {
    let (site, mapper) = collate_world(&[0, 1, 2, 3]);
    let context = PageContext::new(&mapper);
    let d = &site.dossier;
    let render = |e: &DocEntry| -> Vec<(String, String)> {
        e.properties(&context, d)
            .into_iter()
            .map(|(n, v)| (n, pdxdoc::docstring::DocStringSer(v, 0).to_html().unwrap()))
            .collect()
    };
    let loc = DocEntry::Script(ScriptDocEntry {
        id: id_of("effects", "beta"),
        category: ScriptDocCategory::CustomLocalization,
        name: "GetName".to_string(),
        content: Some(ScriptDocContent::CustomLocalization {
            scope: 0,
            random_valid: true,
            entries: vec!["one".to_string(), "two".to_string()],
        }),
    });
    assert_eq!(
        render(&loc),
        vec![
            ("Scope".to_string(), "<p><a href=\"scopes/country.html\">country</a>".to_string()),
            ("Random Valid?".to_string(), "<p>yes".to_string()),
            ("Entries".to_string(), "<p>one\ntwo".to_string()),
        ]
    );
    let targets = DocEntry::Script(ScriptDocEntry {
        id: id_of("effects", "beta"),
        category: ScriptDocCategory::EventTargets,
        name: "owner".to_string(),
        content: Some(ScriptDocContent::EventTargets {
            description: DocString::empty(),
            requires_data: false,
            wild_card: true,
            global_link: false,
            input_scopes: vec![0, 0],
            output_scopes: vec![],
        }),
    });
    let link = "<a href=\"scopes/country.html\">country</a>";
    assert_eq!(
        render(&targets),
        vec![
            ("Requires Data".to_string(), "<p>no".to_string()),
            ("Wild Card".to_string(), "<p>yes".to_string()),
            ("Global Link".to_string(), "<p>no".to_string()),
            ("Input Scopes".to_string(), format!("<p>{}, {}", link, link)),
            ("Output Scopes".to_string(), String::new()),
        ]
    );
    let action = DocEntry::Script(ScriptDocEntry {
        id: id_of("effects", "beta"),
        category: ScriptDocCategory::OnActions,
        name: "on_tick".to_string(),
        content: Some(ScriptDocContent::OnActions { from_code: true, expected_scope: 0 }),
    });
    assert_eq!(
        render(&action),
        vec![
            ("Expected Scope".to_string(), format!("<p>{}", link)),
            ("From Code".to_string(), "<p>yes".to_string()),
        ]
    );
    let modifier = DocEntry::Script(ScriptDocEntry {
        id: id_of("effects", "beta"),
        category: ScriptDocCategory::Modifiers,
        name: "tax".to_string(),
        content: Some(ScriptDocContent::Modifiers {
            display_name: Some(DocString::from_text("Tax")),
            description: None,
            mask: 0,
        }),
    });
    assert_eq!(
        render(&modifier),
        vec![
            ("Display Name".to_string(), "<p>Tax".to_string()),
            ("Mask".to_string(), "<p>country".to_string()),
        ]
    );
    let bare = DocEntry::Script(ScriptDocEntry {
        id: 1,
        category: ScriptDocCategory::Effects,
        name: "bare".to_string(),
        content: None,
    });
    assert!(render(&bare).is_empty());
    assert!(bare.references().is_empty());
}

#[test]
fn templates_have_names() {
    for t in [Template::CategoryList, Template::ListIndex, Template::Scope, Template::Mask] {
        assert_eq!(Template::from_name(t.name()), Some(t));
    }
    assert_eq!(Template::Mask.name(), "mask");
    assert_eq!(Template::CategoryList.name(), "category_list");
    assert_eq!(Template::from_name("layout"), None);
}

#[test]
fn version_is_read_from_branch_and_revisions() {
    let rev = "0123456789abcdef0123456789abcdef";
    let v = BranchRevParser::parse("caligula", "release/1.7.1\n", rev, "titus/main", rev).unwrap();
    assert_eq!(v.version_number, "1.7.1\n");
    assert_eq!(
        v.detailed,
        "game version release/1.7.1\n commit 012345678\nclausewitz version titus/main commit 012345678"
    );
    let short = BranchRevParser::parse("caligula", "release/1.7.1", "abc", "m", rev);
    assert!(matches!(short, Err(Error::Provider(m)) if m == "invalid revision in caligula_rev.txt"));
    let short = BranchRevParser::parse("caligula", "release/1.7.1", "abc", "m", "abc");
    assert!(matches!(short, Err(Error::Provider(m)) if m == "invalid revision in clausewitz_rev.txt"));
    let none = BranchRevParser::parse("caligula", "main", rev, "m", rev);
    assert!(matches!(none, Err(Error::Provider(m))
        if m == "can't get version number from caligula_branch.txt"));
}

#[test]
fn category_page_constructor_keeps_its_arguments() {
    let page = CategoryListPage::new(9, "effects", "Effects", &[1, 2], vec![(1, "a".to_string())], (1, 1));
    assert_eq!(page.entries, vec![1, 2]);
    let page = Page::CategoryList(page);
    assert_eq!(page.info().path, "effects");
    assert_eq!(page.info().title, "Effects");
    assert_eq!(page.info().template, Template::CategoryList);
    assert_eq!(page.anchors(), vec![(1, "a".to_string())]);
    assert_eq!(PaginationInfo::new((2, 3)), PaginationInfo { current_page: 2, total_pages: 3 });
}

#[test]
fn readiness_is_tested_before_rendering() {
    let (site, mapper) = collate_world(&[0, 1, 2, 3]);
    let context = PageContext::new(&mapper);
    let d = &site.dossier;
    for page in &site.pages {
        assert!(d.can_render(&context, page));
        assert!(page.try_data(&context, d).is_some());
    }
    let beta = d.entries.get(&id_of("effects", "beta")).unwrap();
    assert!(d.names_known(beta));
    assert!(d.links_resolve(&context, beta));
    assert!(d.can_collate(&context, hash("scope_country")));
    assert!(d.can_show_entry(&context, id_of("effects", "beta")));
    assert!(!d.can_show_entry(&context, 4711));
    assert!(!d.can_collate(&context, 4711));
    assert!(!d.is_modifier(id_of("effects", "beta")));
    let far = effect("far", vec![7], vec![]);
    assert!(!d.names_known(&far));
    let blank = SiteMapper::new(config(50, UrlScheme::Relative));
    let nowhere = PageContext::new(&blank);
    assert!(!d.links_resolve(&nowhere, beta));
    let scope = site.pages.iter().find(|p| matches!(p, Page::Scope(_))).unwrap();
    assert!(!d.can_render(&nowhere, scope));
    assert!(scope.try_data(&nowhere, d).is_none());
    let stray = Page::Mask(MaskPage {
        id: 1,
        entry_id: 2,
        name: "m".to_string(),
        modifiers: vec![id_of("effects", "beta")],
        page: PaginationInfo::new((1, 1)),
    });
    assert!(!d.can_render(&context, &stray));
    let unlisted = Page::Index(IndexPage {
        id: 5,
        title: "i".to_string(),
        path: "i".to_string(),
        entries: vec![hash("scope_country")],
        parent_id: None,
    });
    assert!(!d.can_render(&context, &unlisted));
}

#[test]
fn pages_are_made_only_of_what_is_registered() {
    let (d, _) = mask_world();
    assert!(d.can_create_pages());
    assert!(Dossier::try_create_pages(&d, &config(4, UrlScheme::Relative)).is_some());
    assert!(Dossier::try_create_pages(&d, &config(0, UrlScheme::Relative)).is_none());
    let mut broken = dossier(4, &["tax_mask"]);
    broken.add_reference("Mask", 99, hash("mask_tax_mask"));
    broken.add_builder(GenericListPageBuilder::new(ListKind::Masks, vec![0]));
    assert!(!broken.can_build(&broken.builders[0]));
    assert!(!broken.can_create_pages());
    assert!(Dossier::try_create_pages(&broken, &config(4, UrlScheme::Relative)).is_none());
    let mut listed = dossier(4, &[]);
    listed.categories[0].entries.push(12345);
    assert!(!listed.can_create_pages());
    assert!(PaginationMode::Off.can_split());
    assert!(!PaginationMode::Absolute { limit: 0 }.can_split());
}

#[test]
fn crumbs_are_shown_with_urls_from_the_page() {
    let (site, mapper) = effects_world(UrlScheme::Relative);
    let mapping = mapper.page_path_mapping();
    let scope = site.pages.iter().find(|p| matches!(p, Page::Scope(_))).unwrap();
    let crumbs = Breadcrumbs::from_page(scope, &site);
    let shown = crumbs.params(&mapping, scope.id()).unwrap();
    assert_eq!(shown.len(), 3);
    assert!(shown[0].is_first && !shown[0].is_last && !shown[0].is_paged);
    assert_eq!(shown[0].title, "Victoria 3");
    assert_eq!(shown[0].url, "../index");
    assert_eq!(shown[1].url, "index.html");
    assert!(!shown[2].is_first && shown[2].is_last);
    assert_eq!(shown[2].url, "country.html");
    assert_eq!(shown[2].page, None);
    let page2 = site.pages.iter().find(|p| p.info().path == "effects_p2").unwrap();
    let shown = Breadcrumbs::from_page(page2, &site).params(&mapping, page2.id()).unwrap();
    assert!(shown[1].is_paged && shown[1].is_last);
    assert_eq!(shown[1].url, "effects.html");
    assert_eq!(shown[1].page, Some(PaginationInfo { current_page: 2, total_pages: 2 }));
    assert!(crumbs.params(&mapping, 987654).is_none());
    assert_eq!(Breadcrumbs::new(vec![]).params(&mapping, scope.id()).unwrap().len(), 0);
}

#[test]
fn groups_are_ordered_by_page_number_whatever_the_order_of_recording() {
    let page = |n: usize| {
        Page::CategoryList(CategoryListPage::new(9, "effects", "Effects", &[], vec![], (n, 3)))
    };
    for order in [[1, 2, 3], [3, 2, 1], [2, 3, 1], [2, 1, 3]] {
        let mut mapper = SiteMapper::new(config(50, UrlScheme::Relative));
        for n in order {
            mapper.record_page(&page(n), "vic3");
        }
        let group = mapper.groups.get(&hash("effects")).unwrap();
        assert_eq!(group, &vec![(1, page(1).id()), (2, page(2).id()), (3, page(3).id())]);
        for n in 1..=3 {
            assert_eq!(mapper.page_groups.get(&page(n).id()), Some(&hash("effects")));
        }
    }
    assert_eq!(page(1).info().path, "effects");
    assert_eq!(page(2).info().path, "effects_p2");
    assert_eq!(page(2).page_url(1), "effects");
    assert_eq!(page(1).page_url(3), "effects_p3");
}

#[test]
fn pages_without_pagination_join_no_group() {
    let mut mapper = SiteMapper::new(config(50, UrlScheme::Relative));
    let scope = Page::Scope(ScopePage { id: 1, entry_id: 2, name: "country".to_string() });
    let other = Page::Scope(ScopePage { id: 3, entry_id: 4, name: "state".to_string() });
    mapper.record_page(&scope, "vic3");
    mapper.record_page(&other, "vic3");
    assert!(mapper.groups.is_empty());
    assert!(mapper.page_groups.is_empty());
    assert_eq!(scope.group_id(), 1);
    assert_eq!(other.group_id(), 3);
}

#[test]
fn a_recorded_profile_keeps_its_metadata() {
    let (_, mapper) = effects_world(UrlScheme::Relative);
    let kept = mapper.profiles.get(&hash("vic3")).unwrap();
    assert_eq!(kept.name, "vic3");
    assert_eq!(kept.title, "Victoria 3");
    assert_eq!(kept.game, ProfileGame::Victoria3);
    assert_eq!(kept.game_data_dir, "game");
    assert_eq!(kept.user_data_dir, "user");
}

#[test]
fn revisions_are_measured_in_bytes() {
    let plain = "0123456789abcdef0123456789abcdef";
    let accented = "0123456789abcdef0123456789abcd\u{e9}";
    let v = BranchRevParser::parse("caligula", "release/1.7.1", accented, "m", plain).unwrap();
    assert_eq!(v.version_number, "1.7.1");
    assert_eq!(
        v.detailed,
        "game version release/1.7.1 commit 012345678\nclausewitz version m commit 012345678"
    );
    let split = "01234567\u{e9}9abcdef0123456789abcdef0";
    let r = BranchRevParser::parse("caligula", "release/1.7.1", split, "m", plain);
    assert!(matches!(r, Err(Error::Provider(m)) if m == "invalid revision in caligula_rev.txt"));
    let r = BranchRevParser::parse("caligula", "release/1.7.1", plain, "m", split);
    assert!(matches!(r, Err(Error::Provider(m)) if m == "invalid revision in clausewitz_rev.txt"));
    let r = BranchRevParser::parse("caligula", "main", split, "m", plain);
    assert!(matches!(r, Err(Error::Provider(m))
        if m == "can't get version number from caligula_branch.txt"));
}
