use edock::protocol::{
    atom_list_write, class_hint_query, decode_class_hint, set_atom_list_property, text_property, AtomCache,
    ChangeMode, PropertyTable, CLASS_HINT_BYTES, CLASS_HINT_LENGTH, XA_ATOM, XA_STRING,
};

fn names(v: &[&str]) -> Vec<String> {
    v.iter().map(|s| s.to_string()).collect()
}

fn cache() -> AtomCache {
    let mut c = AtomCache::new();
    c.record("_NET_WM_WINDOW_TYPE".to_string(), 300);
    c.record("_NET_WM_WINDOW_TYPE_DOCK".to_string(), 301);
    c.record("_NET_WM_WINDOW_TYPE_NORMAL".to_string(), 302);
    c.record("WM_CLASS".to_string(), 67);
    c
}

#[test]
fn second_atom_list_replaces_first() {
    let c = cache();
    let mut t = PropertyTable::new();
    assert!(set_atom_list_property(&mut t, &c, 7, "_NET_WM_WINDOW_TYPE", &names(&["_NET_WM_WINDOW_TYPE_NORMAL", "_NET_WM_WINDOW_TYPE_DOCK"])));
    assert!(set_atom_list_property(&mut t, &c, 7, "_NET_WM_WINDOW_TYPE", &names(&["_NET_WM_WINDOW_TYPE_DOCK"])));
    let got = t.get(7, 300).unwrap();
    assert_eq!(got.type_atom, XA_ATOM);
    assert_eq!(got.format, 32);
    assert_eq!(got.values, vec![301]);
}

#[test]
fn unknown_name_changes_nothing() {
    let c = cache();
    let mut t = PropertyTable::new();
    assert!(!set_atom_list_property(&mut t, &c, 7, "_NET_WM_WINDOW_TYPE", &names(&["_NET_WM_STATE_ABOVE"])));
    assert!(t.get(7, 300).is_none());
}

#[test]
fn properties_of_other_windows_are_kept() {
    let c = cache();
    let mut t = PropertyTable::new();
    assert!(set_atom_list_property(&mut t, &c, 1, "_NET_WM_WINDOW_TYPE", &names(&["_NET_WM_WINDOW_TYPE_DOCK"])));
    assert!(set_atom_list_property(&mut t, &c, 2, "_NET_WM_WINDOW_TYPE", &names(&["_NET_WM_WINDOW_TYPE_NORMAL"])));
    assert_eq!(t.get(1, 300).unwrap().values, vec![301]);
    assert_eq!(t.get(2, 300).unwrap().values, vec![302]);
}

#[test]
fn atom_list_write_keeps_order() {
    let c = cache();
    let w = atom_list_write(&c, 9, "_NET_WM_WINDOW_TYPE", &names(&["_NET_WM_WINDOW_TYPE_NORMAL", "_NET_WM_WINDOW_TYPE_DOCK"])).unwrap();
    assert_eq!(w.window, 9);
    assert_eq!(w.property, 300);
    assert_eq!(w.values, vec![302, 301]);
    assert!(w.mode == ChangeMode::Replace);
    assert!(atom_list_write(&c, 9, "_MISSING", &names(&[])).is_none());
}

#[test]
fn cache_lookup_and_rerecord() {
    let mut c = AtomCache::new();
    assert_eq!(c.lookup("A"), None);
    c.record("A".to_string(), 5);
    c.record("B".to_string(), 6);
    c.record("A".to_string(), 7);
    assert_eq!(c.lookup("A"), Some(7));
    assert_eq!(c.lookup("B"), Some(6));
    assert_eq!(c.atoms_of(&names(&["B", "A"])), Some(vec![6, 7]));
    assert_eq!(c.atoms_of(&names(&["B", "C"])), None);
}

#[test]
fn class_hint_query_reads_string_of_bounded_length() {
    let q = class_hint_query(&cache(), 42).unwrap();
    assert_eq!(q.window, 42);
    assert_eq!(q.property, 67);
    assert_eq!(q.offset, 0);
    assert_eq!(q.length, CLASS_HINT_LENGTH);
    assert_eq!(q.length * 4, 1024);
    assert_eq!(CLASS_HINT_BYTES, 1024);
    assert!(!q.delete);
    assert_eq!(q.req_type, XA_STRING);
    assert!(class_hint_query(&AtomCache::new(), 42).is_none());
}

#[test]
fn class_hint_is_first_segment() {
    assert_eq!(decode_class_hint(&b"xterm\0XTerm\0".to_vec()), Some("xterm".to_string()));
}

#[test]
fn class_hint_without_nul_is_whole_buffer() {
    assert_eq!(decode_class_hint(&b"navigator".to_vec()), Some("navigator".to_string()));
}

#[test]
fn class_hint_empty_or_invalid_is_none() {
    assert_eq!(decode_class_hint(&Vec::new()), None);
    assert_eq!(decode_class_hint(&b"\0Firefox\0".to_vec()), None);
    assert_eq!(decode_class_hint(&vec![0xff, 0xfe, 0]), None);
}

#[test]
fn class_hint_decodes_multibyte_text() {
    assert_eq!(decode_class_hint(&"été\0Été\0".as_bytes().to_vec()), Some("été".to_string()));
}

#[test]
fn text_property_refuses_nul() {
    let p = text_property("_OB_APP_TYPE", "dock").unwrap();
    assert_eq!(p.name, "_OB_APP_TYPE");
    assert_eq!(p.value, "dock");
    assert!(text_property("_OB_APP_TYPE", "do\0ck").is_none());
    assert!(text_property("_OB\0", "dock").is_none());
    assert!(text_property("_OB_APP_TYPE", "").is_some());
}

#[test]
fn class_hint_reads_at_most_1024_bytes() {
    let long = vec![b'a'; 2000];
    let hint = decode_class_hint(&long).unwrap();
    assert_eq!(hint.len(), 1024);
    let mut late_nul = vec![b'b'; 1030];
    late_nul.push(0);
    assert_eq!(decode_class_hint(&late_nul).unwrap().len(), 1024);
}

#[test]
fn missing_lists_uncached_names() {
    let c = cache();
    let m = c.missing(&names(&["WM_CLASS", "_NET_WM_STATE", "_NET_WM_WINDOW_TYPE_DOCK", "UTF8_STRING"]));
    assert_eq!(m, names(&["_NET_WM_STATE", "UTF8_STRING"]));
    assert!(c.missing(&names(&["WM_CLASS"])).is_empty());
}
