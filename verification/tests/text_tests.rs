use nano_banana_core::encoding::extract_mime_type_from_base64;
use nano_banana_core::mime::detect_mime_type_from_path;
use nano_banana_core::mime::extract_filename_without_extension;
use nano_banana_core::strutil::parse_u16;
use nano_banana_core::strutil::u64_to_dec;

#[test]
fn mime_table_covers_every_listed_extension() {
    assert_eq!(detect_mime_type_from_path("a.jpg"), "image/jpeg");
    assert_eq!(detect_mime_type_from_path("a.jpeg"), "image/jpeg");
    assert_eq!(detect_mime_type_from_path("a.png"), "image/png");
    assert_eq!(detect_mime_type_from_path("a.gif"), "image/gif");
    assert_eq!(detect_mime_type_from_path("a.webp"), "image/webp");
    assert_eq!(detect_mime_type_from_path("a.bmp"), "image/bmp");
    assert_eq!(detect_mime_type_from_path("a.tiff"), "image/tiff");
    assert_eq!(detect_mime_type_from_path("a.tif"), "image/tiff");
    assert_eq!(detect_mime_type_from_path("a.svg"), "image/svg+xml");
}

#[test]
fn mime_lookup_ignores_ascii_case() {
    assert_eq!(detect_mime_type_from_path("PHOTO.JPG"), "image/jpeg");
    assert_eq!(detect_mime_type_from_path("x.PnG"), "image/png");
}

#[test]
fn unknown_or_missing_extensions_map_to_wildcard() {
    assert_eq!(detect_mime_type_from_path("a.exe"), "image/*");
    assert_eq!(detect_mime_type_from_path("noext"), "image/*");
    assert_eq!(detect_mime_type_from_path(".hidden"), "image/*");
    assert_eq!(detect_mime_type_from_path(""), "image/*");
}

#[test]
fn extension_comes_from_the_final_component() {
    assert_eq!(detect_mime_type_from_path("/srv/img/deep/shot.webp"), "image/webp");
    assert_eq!(detect_mime_type_from_path("dir.png/file"), "image/*");
}

#[test]
fn stem_extraction_matches_the_fixed_rules() {
    assert_eq!(extract_filename_without_extension("/a/b/photo.jpg"), "photo");
    assert_eq!(extract_filename_without_extension("photo.jpg"), "photo");
    assert_eq!(extract_filename_without_extension("archive.tar.gz"), "archive.tar");
    assert_eq!(extract_filename_without_extension(".bashrc"), ".bashrc");
    assert_eq!(extract_filename_without_extension("noext"), "noext");
    assert_eq!(extract_filename_without_extension("dir/"), "dir");
}

#[test]
fn pathological_paths_fall_back_to_the_placeholder() {
    assert_eq!(extract_filename_without_extension(""), "image");
    assert_eq!(extract_filename_without_extension("/"), "image");
    assert_eq!(extract_filename_without_extension(".."), "image");
    assert_eq!(extract_filename_without_extension("."), "image");
}

#[test]
fn declared_mime_type_is_parsed_out_of_inline_references() {
    let m = extract_mime_type_from_base64("data:image/png;base64,aGVsbG8=").unwrap();
    assert_eq!(m, "image/png");
    let m2 = extract_mime_type_from_base64("data:image/svg+xml;base64,x").unwrap();
    assert_eq!(m2, "image/svg+xml");
}

#[test]
fn inline_references_without_proper_shape_are_rejected() {
    assert!(extract_mime_type_from_base64("data:image/png").is_none());
    assert!(extract_mime_type_from_base64("data:text/plain;base64,eA==").is_none());
    assert!(extract_mime_type_from_base64("plain words").is_none());
    assert!(extract_mime_type_from_base64("data:image/png;base64,a;base64,b").is_none());
}

#[test]
fn decimal_rendering_matches_expected_digits() {
    assert_eq!(u64_to_dec(0), "0");
    assert_eq!(u64_to_dec(7), "7");
    assert_eq!(u64_to_dec(42), "42");
    assert_eq!(u64_to_dec(120), "120");
    assert_eq!(u64_to_dec(18446744073709551615), "18446744073709551615");
}

#[test]
fn port_parsing_accepts_what_the_standard_parser_accepts() {
    assert_eq!(parse_u16("6621"), Some(6621));
    assert_eq!(parse_u16("+123"), Some(123));
    assert_eq!(parse_u16("0"), Some(0));
    assert_eq!(parse_u16("65535"), Some(65535));
    assert_eq!(parse_u16("65536"), None);
    assert_eq!(parse_u16("abc"), None);
    assert_eq!(parse_u16(""), None);
    assert_eq!(parse_u16("-1"), None);
    assert_eq!(parse_u16("12a"), None);
}
