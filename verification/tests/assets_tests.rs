use pdxdoc::assets::{head_before_underscore, GameAssets, IconFinder};
use pdxdoc::paths::{directory_of, ensure_html};

#[test]
fn game_images_become_png_files() {
    assert_eq!(GameAssets::new_filename_for_asset("gfx/icons/grain.dds"), Some("gfx/icons/grain.png".to_string()));
    assert_eq!(GameAssets::new_filename_for_asset("gfx/icons/grain.png"), Some("gfx/icons/grain.png".to_string()));
    assert_eq!(GameAssets::new_filename_for_asset("style.css"), Some("style.css".to_string()));
    assert_eq!(GameAssets::new_filename_for_asset("gfx/icons/grain"), None);
    assert_eq!(GameAssets::new_filename_for_asset("archive.tar.dds"), Some("archive.tar.png".to_string()));
}

#[test]
fn icon_paths_show_name_and_kind() {
    assert_eq!(
        IconFinder::extract_from_path("game/gfx/interface/icons/goods_icons/grain.dds"),
        Some(("grain".to_string(), "goods".to_string()))
    );
    assert_eq!(
        IconFinder::extract_from_path("icons/topbar/authority_icon.dds"),
        Some(("authority_icon".to_string(), "topbar".to_string()))
    );
    assert_eq!(IconFinder::extract_from_path("grain.dds"), None);
    assert_eq!(IconFinder::extract_from_path(""), None);
    assert_eq!(head_before_underscore("goods_icons"), "goods");
    assert_eq!(head_before_underscore("_x"), "");
    assert_eq!(head_before_underscore("plain"), "plain");
}

#[test]
fn icons_are_found_by_name_and_alias() {
    let paths = vec![
        "icons/goods_icons/grain.dds".to_string(),
        "icons/topbar/authority_icon.dds".to_string(),
        "icons/building_icons/locomotives.dds".to_string(),
        "icons/other_icons/grain.dds".to_string(),
    ];
    let finder = IconFinder::new(&paths).unwrap();
    assert_eq!(finder.icons.len(), 4);
    assert_eq!(finder.icons[0].name, "grain");
    assert_eq!(finder.icons[0].mask, "goods");
    assert_eq!(finder.find("grain", None), Some("icons/other_icons/grain.dds"));
    assert_eq!(finder.find("aut", None), Some("icons/topbar/authority_icon.dds"));
    assert_eq!(finder.find("engines", None), Some("icons/building_icons/locomotives.dds"));
    assert_eq!(finder.find("coal", None), None);
    assert_eq!(finder.find("coal", Some("goods")), None);
    assert_eq!(finder.find("goods", Some("grain")), Some("icons/other_icons/grain.dds"));
    assert_eq!(finder.find("grain", Some("goods")), Some("icons/other_icons/grain.dds"));
    assert!(IconFinder::new(&vec!["grain.dds".to_string()]).is_none());
}

#[test]
fn directories_and_extensions() {
    assert_eq!(directory_of("a/b/c.html"), "a/b");
    assert_eq!(directory_of("c.html"), "");
    assert_eq!(directory_of(""), "");
    assert_eq!(ensure_html("scopes/country"), "scopes/country.html");
    assert_eq!(ensure_html("scopes/index.html"), "scopes/index.html");
    assert_eq!(ensure_html("name.with.dots"), "name.with.html");
}

#[test]
fn an_extension_with_a_separator_names_no_asset() {
    assert_eq!(GameAssets::new_filename_for_asset("gfx/icon.b\\c"), None);
    assert_eq!(GameAssets::new_filename_for_asset("gfx/icon.bc"), Some("gfx/icon.bc".to_string()));
}
