use nano_banana_core::persister::PersistError;
use nano_banana_core::persister::PersistOutcome;
use nano_banana_core::persister::ResponseImage;
use nano_banana_core::persister::generate_incremental_filename;
use nano_banana_core::persister::save_base64_image;
use nano_banana_core::persister::save_response_images;

fn inline_entry(payload: &str) -> ResponseImage {
    ResponseImage { url: Some(String::from(payload)) }
}

fn names(v: &[&str]) -> Vec<String> {
    v.iter().map(|s| String::from(*s)).collect()
}

fn planned_filename(o: &PersistOutcome) -> &str {
    o.write.as_ref().expect("expected a planned write").filename.as_str()
}

#[test]
fn first_candidate_is_plain_stem_dot_ext() {
    let existing: Vec<String> = Vec::new();
    let n = generate_incremental_filename("photo", "png", &existing);
    assert_eq!(n, "photo.png");
}

#[test]
fn collision_moves_to_suffix_two() {
    let existing = names(&["photo.png"]);
    let n = generate_incremental_filename("photo", "png", &existing);
    assert_eq!(n, "photo_2.png");
}

#[test]
fn gaps_are_filled_at_the_first_free_suffix() {
    let existing = names(&["photo.png", "photo_2.png", "photo_4.png"]);
    let n = generate_incremental_filename("photo", "png", &existing);
    assert_eq!(n, "photo_3.png");
}

#[test]
fn no_directory_means_no_writes() {
    // Scenario: persisting with no configured directory returns one
    // pass-through outcome per entry and plans nothing.
    let images = vec![inline_entry("data:image/png;base64,aGVsbG8=")];
    let out = save_response_images(&images, None, None, false);
    assert_eq!(out.len(), 1);
    assert!(out[0].write.is_none());
    assert_eq!(out[0].url, "data:image/png;base64,aGVsbG8=");
}

#[test]
fn two_inline_pngs_get_indexed_default_names() {
    // Scenario: two inline PNG entries, no base name, generation mode.
    let images = vec![
        inline_entry("data:image/png;base64,aGVsbG8="),
        inline_entry("data:image/png;base64,d29ybGQ="),
    ];
    let existing: Vec<String> = Vec::new();
    let out = save_response_images(&images, Some(&existing), None, false);
    assert_eq!(out.len(), 2);
    assert_eq!(planned_filename(&out[0]), "generated_image_1.png");
    assert_eq!(planned_filename(&out[1]), "generated_image_2.png");
    assert_eq!(out[0].write.as_ref().unwrap().bytes, b"hello".to_vec());
    assert_eq!(out[1].write.as_ref().unwrap().bytes, b"world".to_vec());
}

#[test]
fn edit_mode_default_names_use_edited_prefix() {
    let images = vec![inline_entry("data:image/png;base64,aGVsbG8=")];
    let existing: Vec<String> = Vec::new();
    let out = save_response_images(&images, Some(&existing), None, true);
    assert_eq!(planned_filename(&out[0]), "edited_image_1.png");
}

#[test]
fn colliding_stems_get_increasing_suffixes_in_order() {
    // All entries want the same stem; the plan never reuses a name and
    // the suffixes grow in request order.
    let images = vec![
        inline_entry("data:image/png;base64,aGVsbG8="),
        inline_entry("data:image/png;base64,aGVsbG8="),
        inline_entry("data:image/png;base64,aGVsbG8="),
    ];
    let existing: Vec<String> = Vec::new();
    let base = String::from("photo");
    let out = save_response_images(&images, Some(&existing), Some(&base), false);
    assert_eq!(planned_filename(&out[0]), "photo.png");
    assert_eq!(planned_filename(&out[1]), "photo_2.png");
    assert_eq!(planned_filename(&out[2]), "photo_3.png");
}

#[test]
fn edit_mode_appends_edited_to_the_base_name() {
    let images = vec![inline_entry("data:image/png;base64,aGVsbG8=")];
    let existing: Vec<String> = Vec::new();
    let base = String::from("photo");
    let out = save_response_images(&images, Some(&existing), Some(&base), true);
    assert_eq!(planned_filename(&out[0]), "photo_edited.png");
}

#[test]
fn second_run_continues_suffixes_without_overwriting() {
    // Idempotence: running the same request again, with the first run's
    // files now in the directory, continues the numbering.
    let images = vec![
        inline_entry("data:image/png;base64,aGVsbG8="),
        inline_entry("data:image/png;base64,aGVsbG8="),
    ];
    let empty: Vec<String> = Vec::new();
    let base = String::from("photo");
    let first = save_response_images(&images, Some(&empty), Some(&base), false);
    let mut on_disk: Vec<String> = Vec::new();
    for o in &first {
        on_disk.push(String::from(planned_filename(o)));
    }
    let second = save_response_images(&images, Some(&on_disk), Some(&base), false);
    assert_eq!(planned_filename(&second[0]), "photo_3.png");
    assert_eq!(planned_filename(&second[1]), "photo_4.png");
    for s in &second {
        for f in &first {
            assert_ne!(planned_filename(s), planned_filename(f));
        }
    }
}

#[test]
fn extension_follows_the_declared_subtype() {
    let images = vec![inline_entry("data:image/webp;base64,aGVsbG8=")];
    let existing: Vec<String> = Vec::new();
    let base = String::from("pic");
    let out = save_response_images(&images, Some(&existing), Some(&base), false);
    assert_eq!(planned_filename(&out[0]), "pic.webp");
}

#[test]
fn non_inline_entries_pass_through_unsaved() {
    let images = vec![
        ResponseImage { url: Some(String::from("https://example.com/a.png")) },
        ResponseImage { url: None },
        inline_entry("data:image/png;base64,aGVsbG8="),
    ];
    let existing: Vec<String> = Vec::new();
    let out = save_response_images(&images, Some(&existing), None, false);
    assert!(out[0].write.is_none());
    assert_eq!(out[0].url, "https://example.com/a.png");
    assert!(out[1].write.is_none());
    assert_eq!(out[1].url, "");
    assert_eq!(planned_filename(&out[2]), "generated_image_3.png");
}

#[test]
fn undecodable_entry_never_fails_the_batch() {
    let images = vec![
        inline_entry("data:image/png;base64,!!!"),
        inline_entry("data:image/png;base64,aGVsbG8="),
    ];
    let existing: Vec<String> = Vec::new();
    let out = save_response_images(&images, Some(&existing), None, false);
    assert!(out[0].write.is_none());
    assert_eq!(planned_filename(&out[1]), "generated_image_2.png");
}

#[test]
fn save_base64_image_keeps_a_name_with_extension() {
    let w = save_base64_image("data:image/png;base64,aGVsbG8=", Some(&String::from("out.png")), "20240101_120000")
        .expect("expected a planned write");
    assert_eq!(w.filename, "out.png");
    assert_eq!(w.bytes, b"hello".to_vec());
}

#[test]
fn save_base64_image_appends_subtype_to_bare_name() {
    let w = save_base64_image("data:image/png;base64,aGVsbG8=", Some(&String::from("out")), "ts")
        .expect("expected a planned write");
    assert_eq!(w.filename, "out.png");
}

#[test]
fn save_base64_image_defaults_to_timestamp_name() {
    let w = save_base64_image("data:image/jpeg;base64,aGVsbG8=", None, "20240101_120000")
        .expect("expected a planned write");
    assert_eq!(w.filename, "image_20240101_120000.jpeg");
}

#[test]
fn save_base64_image_rejects_malformed_data() {
    let r = save_base64_image("not a data url", None, "ts");
    assert_eq!(r.unwrap_err(), PersistError::MalformedData);
}

#[test]
fn save_base64_image_rejects_undecodable_payload() {
    let r = save_base64_image("data:image/png;base64,@@@", None, "ts");
    assert_eq!(r.unwrap_err(), PersistError::DecodeFailed);
}
