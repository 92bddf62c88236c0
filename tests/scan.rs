use edock::scan::scan_windows;
use edock::text::{signed_digits, unsigned_digits};

#[test]
fn scan_keeps_windows_without_hint() {
    let children = vec![10, 11, 12, 13];
    let data = vec![Some(b"xterm\0XTerm\0".to_vec()), None, Some(Vec::new()), Some(b"\xff\0".to_vec())];
    let out = scan_windows(&children, &data);
    assert_eq!(out.len(), 4);
    assert_eq!(out.iter().map(|e| e.window).collect::<Vec<_>>(), children);
    assert_eq!(out[0].class_hint, Some("xterm".to_string()));
    assert_eq!(out.iter().filter(|e| e.class_hint.is_none()).count(), 3);
}

#[test]
fn scan_of_no_children_is_empty() {
    assert!(scan_windows(&Vec::new(), &Vec::new()).is_empty());
}

#[test]
fn decimal_digits() {
    let s = |v: Vec<char>| v.into_iter().collect::<String>();
    assert_eq!(s(unsigned_digits(0)), "0");
    assert_eq!(s(unsigned_digits(48)), "48");
    assert_eq!(s(unsigned_digits(u64::MAX)), "18446744073709551615");
    assert_eq!(s(signed_digits(-7)), "-7");
    assert_eq!(s(signed_digits(i64::MIN)), "-9223372036854775808");
}
