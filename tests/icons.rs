use edock::icons::{find_icon_under, icon_dirs, match_in_dir, resolve_in_listings, WalkEntry};

fn entry(name: &str, path: &str) -> WalkEntry {
    WalkEntry { file_name: name.to_string(), path: path.to_string() }
}

#[test]
fn svg_wins_over_png_in_one_directory() {
    let dir = vec![
        entry("icons", "/r/icons"),
        entry("foo.png", "/r/icons/foo.png"),
        entry("foo.svg", "/r/icons/apps/foo.svg"),
    ];
    let listings = vec![dir];
    let first = resolve_in_listings(&listings, "foo");
    let second = resolve_in_listings(&listings, "foo");
    assert_eq!(first, Some("/r/icons/apps/foo.svg".to_string()));
    assert_eq!(first, second);
}

#[test]
fn xpm_wins_over_png() {
    let dir = vec![entry("foo.png", "/a/foo.png"), entry("foo.xpm", "/a/foo.xpm")];
    assert_eq!(match_in_dir(&dir, "foo"), Some("/a/foo.xpm".to_string()));
}

#[test]
fn first_entry_in_walk_order_wins() {
    let dir = vec![entry("foo.png", "/a/x/foo.png"), entry("foo.png", "/a/y/foo.png")];
    assert_eq!(match_in_dir(&dir, "foo"), Some("/a/x/foo.png".to_string()));
}

#[test]
fn name_must_match_whole_file_name() {
    let dir = vec![entry("foobar.svg", "/a/foobar.svg"), entry("foo.svgz", "/a/foo.svgz")];
    assert_eq!(match_in_dir(&dir, "foo"), None);
}

#[test]
fn sized_theme_directory_comes_first() {
    let dirs = icon_dirs("/r", Some("/home/u"), Some("hicolor"), Some(48));
    assert_eq!(
        dirs,
        vec![
            "/r/hicolor/48x48".to_string(),
            "/r/hicolor".to_string(),
            "/r".to_string(),
            "/home/u/.icons".to_string(),
        ]
    );
    let listings = vec![
        vec![entry("a.png", "/r/hicolor/48x48/apps/a.png")],
        vec![],
        vec![entry("a.png", "/r/a.png")],
        vec![],
    ];
    assert_eq!(resolve_in_listings(&listings, "a"), Some("/r/hicolor/48x48/apps/a.png".to_string()));
}

#[test]
fn later_directory_used_when_earlier_ones_miss() {
    let listings = vec![
        vec![entry("b.png", "/r/t/b.png")],
        vec![entry("a.xpm", "/r/a.xpm"), entry("a.svg", "/r/a.svg")],
        vec![entry("a.svg", "/home/u/.icons/a.svg")],
    ];
    assert_eq!(resolve_in_listings(&listings, "a"), Some("/r/a.svg".to_string()));
}

#[test]
fn candidate_dirs_without_theme_or_home() {
    assert_eq!(icon_dirs("/usr/share/icons", None, None, Some(32)), vec!["/usr/share/icons".to_string()]);
    assert_eq!(
        icon_dirs("/usr/share/icons", None, Some("Adwaita"), None),
        vec!["/usr/share/icons/Adwaita".to_string(), "/usr/share/icons".to_string()]
    );
}

#[test]
fn negative_size_is_written_with_sign() {
    let dirs = icon_dirs("/r", None, Some("t"), Some(-5));
    assert_eq!(dirs[0], "/r/t/-5x-5".to_string());
}

#[test]
fn missing_icon_is_none() {
    let listings = vec![vec![entry("other.png", "/r/other.png")], vec![]];
    assert_eq!(resolve_in_listings(&listings, "nonexistent"), None);
}

#[test]
fn missing_root_gives_none() {
    let found = find_icon_under("/nonexistent-icon-root-for-tests", None, "nonexistent", None, None);
    assert_eq!(found, None);
}
