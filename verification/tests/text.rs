use localhost_linker::text::{contains_text, push_decimal, push_hex};

#[test]
fn decimal_and_hex_digits() {
    let mut out = Vec::new();
    push_decimal(&mut out, 0);
    out.push(' ');
    push_decimal(&mut out, 65535);
    out.push(' ');
    push_hex(&mut out, 0xdb8);
    assert_eq!(out.into_iter().collect::<String>(), "0 65535 db8");
}

#[test]
fn substring_search() {
    let s: Vec<char> = "vethernet".chars().collect();
    let n: Vec<char> = "ether".chars().collect();
    let m: Vec<char> = "tux".chars().collect();
    assert!(contains_text(&s, &n));
    assert!(!contains_text(&s, &m));
    assert!(contains_text(&s, &[]));
}
