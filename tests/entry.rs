use edock::entry::parse_entry;

#[test]
fn last_exec_line_wins_and_drops_arguments() {
    let text = "[Desktop Entry]\nExec=/usr/bin/first --a\nName=X\nExec=/usr/bin/second %U --b\n";
    let f = parse_entry(text);
    assert_eq!(f.command, Some("/usr/bin/second".to_string()));
}

#[test]
fn missing_icon_line_gives_none() {
    let text = "Name=Term\nExec=xterm -e sh\n";
    let f = parse_entry(text);
    assert_eq!(f.icon_name, None);
    assert_eq!(f.command, Some("xterm".to_string()));
}

#[test]
fn last_icon_line_wins() {
    let f = parse_entry("Icon=one\nIcon=two\nExec=x");
    assert_eq!(f.icon_name, Some("two".to_string()));
    assert_eq!(f.command, Some("x".to_string()));
}

#[test]
fn carriage_returns_are_dropped() {
    let f = parse_entry("Icon=firefox\r\nExec=firefox\r\n");
    assert_eq!(f.icon_name, Some("firefox".to_string()));
    assert_eq!(f.command, Some("firefox".to_string()));
}

#[test]
fn keys_must_start_the_line() {
    let f = parse_entry(" Icon=a\nTryExec=b\nexec=c\n");
    assert_eq!(f.icon_name, None);
    assert_eq!(f.command, None);
}

#[test]
fn empty_values_are_kept() {
    let f = parse_entry("Icon=\nExec=  \t");
    assert_eq!(f.icon_name, Some(String::new()));
    assert_eq!(f.command, Some(String::new()));
}

#[test]
fn empty_text_has_no_fields() {
    let f = parse_entry("");
    assert_eq!(f.icon_name, None);
    assert_eq!(f.command, None);
}

#[test]
fn non_ascii_values_survive() {
    let f = parse_entry("Icon=café\nExec=/opt/réseau/bin arg");
    assert_eq!(f.icon_name, Some("café".to_string()));
    assert_eq!(f.command, Some("/opt/réseau/bin".to_string()));
}

#[test]
fn exec_token_ends_at_any_whitespace() {
    assert_eq!(parse_entry("Exec=b\tc").command, Some("b".to_string()));
    assert_eq!(parse_entry("Exec=  foo --bar").command, Some("foo".to_string()));
    assert_eq!(parse_entry("Exec=\u{3000}wide\u{a0}x").command, Some("wide".to_string()));
}
