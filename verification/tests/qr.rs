use localhost_linker::qr::svg_for;

#[test]
fn renders_svg() {
    let out = svg_for("http://192.168.1.5:3000");
    assert!(out.contains("<svg"), "got: {}", &out[..out.len().min(80)]);
}

#[test]
fn svg_starts_with_xml_declaration() {
    let out = svg_for("http://10.0.0.2:8080");
    assert!(out.starts_with("<?xml version=\"1.0\" standalone=\"yes\"?><svg"));
    assert!(out.ends_with("\"/></svg>"));
}

#[test]
fn too_long_for_a_qr_code_gives_empty_text() {
    let long = "x".repeat(5000);
    assert_eq!(svg_for(&long), "");
}

#[test]
fn seventy_two_bytes_always_fit() {
    let url = "\u{7f}".repeat(72);
    assert!(svg_for(&url).contains("<svg"));
}
