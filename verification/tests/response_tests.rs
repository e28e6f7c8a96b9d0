use nano_banana_core::persister::ResponseImage;
use nano_banana_core::resolver::LoadedFile;
use nano_banana_core::response::ApiErrorBody;
use nano_banana_core::response::ChatChoice;
use nano_banana_core::response::ChatResponse;
use nano_banana_core::response::RemoteCallFailure;
use nano_banana_core::response::RequestSegment;
use nano_banana_core::response::ResponseMessage;
use nano_banana_core::response::UsageCounters;
use nano_banana_core::response::build_edit_segments;
use nano_banana_core::response::build_generate_segments;
use nano_banana_core::response::candidate_paths;
use nano_banana_core::response::edit_base_filename;
use nano_banana_core::response::image_segment_for;
use nano_banana_core::response::interpret_response;

fn good_response() -> ChatResponse {
    ChatResponse {
        error: None,
        choices: Some(
            vec![
                ChatChoice {
                    message: Some(
                        ResponseMessage {
                            content: Some(String::from("done")),
                            images: vec![
                                ResponseImage {
                                    url: Some(String::from("data:image/png;base64,aGVsbG8=")),
                                },
                            ],
                        },
                    ),
                },
            ],
        ),
        usage: Some(UsageCounters { prompt_tokens: 3, completion_tokens: 5, total_tokens: 8 }),
    }
}

#[test]
fn successful_response_yields_reply_data() {
    let d = interpret_response(200, Some(good_response())).expect("expected a reply");
    assert_eq!(d.content.as_deref(), Some("done"));
    assert_eq!(d.images.len(), 1);
    assert_eq!(d.images[0].url.as_deref(), Some("data:image/png;base64,aGVsbG8="));
    let u = d.usage.unwrap();
    assert_eq!(u.prompt_tokens, 3);
    assert_eq!(u.completion_tokens, 5);
    assert_eq!(u.total_tokens, 8);
}

#[test]
fn non_success_status_aborts_the_call() {
    let r = interpret_response(502, Some(good_response()));
    assert!(matches!(r, Err(RemoteCallFailure::NonSuccessStatus { status: 502 })));
}

#[test]
fn undecodable_body_aborts_the_call() {
    let r = interpret_response(200, None);
    assert!(matches!(r, Err(RemoteCallFailure::ParseFailed)));
}

#[test]
fn error_field_aborts_with_its_message() {
    let resp = ChatResponse {
        error: Some(ApiErrorBody { message: Some(String::from("quota exceeded")) }),
        choices: None,
        usage: None,
    };
    match interpret_response(200, Some(resp)) {
        Err(RemoteCallFailure::ApiError { message }) => {
            assert_eq!(message.as_deref(), Some("quota exceeded"));
        },
        _ => panic!("expected the error field to abort the call"),
    }
}

#[test]
fn missing_choices_aborts_the_call() {
    let resp = ChatResponse { error: None, choices: None, usage: None };
    let r = interpret_response(200, Some(resp));
    assert!(matches!(r, Err(RemoteCallFailure::MissingChoices)));
}

#[test]
fn empty_choices_aborts_the_call() {
    let resp = ChatResponse { error: None, choices: Some(Vec::new()), usage: None };
    let r = interpret_response(200, Some(resp));
    assert!(matches!(r, Err(RemoteCallFailure::EmptyChoices)));
}

#[test]
fn choice_without_message_aborts_the_call() {
    let resp = ChatResponse {
        error: None,
        choices: Some(vec![ChatChoice { message: None }]),
        usage: None,
    };
    let r = interpret_response(200, Some(resp));
    assert!(matches!(r, Err(RemoteCallFailure::InvalidMessage)));
}

#[test]
fn generation_request_is_the_prompt_alone() {
    let segs = build_generate_segments(&String::from("a cat"));
    assert_eq!(segs.len(), 1);
    assert!(matches!(&segs[0], RequestSegment::Text(t) if t == "a cat"));
}

#[test]
fn resolved_image_becomes_its_payload_segment() {
    let file = LoadedFile { path: String::from("cat.png"), bytes: b"hello".to_vec() };
    let seg = image_segment_for(&String::from("cat.png"), Some(&file));
    assert!(
        matches!(&seg, RequestSegment::ImageUrl(u) if u == "data:image/png;base64,aGVsbG8="),
    );
}

#[test]
fn unresolvable_image_falls_back_to_the_raw_reference() {
    let seg = image_segment_for(&String::from("missing.png"), None);
    assert!(matches!(&seg, RequestSegment::ImageUrl(u) if u == "missing.png"));
}

#[test]
fn edit_request_interleaves_instruction_and_images() {
    let images = vec![String::from("https://example.com/a.jpg"), String::from("missing.png")];
    let files: Vec<Option<LoadedFile>> = vec![None, None];
    let segs = build_edit_segments(&String::from("make it blue"), &images, &files);
    assert_eq!(segs.len(), 3);
    assert!(matches!(&segs[0], RequestSegment::Text(t) if t == "make it blue"));
    assert!(matches!(&segs[1], RequestSegment::ImageUrl(u) if u == "https://example.com/a.jpg"));
    assert!(matches!(&segs[2], RequestSegment::ImageUrl(u) if u == "missing.png"));
}

#[test]
fn edit_base_filename_comes_from_a_leading_local_path() {
    let images = vec![String::from("/pics/photo.jpg"), String::from("other.png")];
    assert_eq!(edit_base_filename(&images).as_deref(), Some("photo"));
}

#[test]
fn edit_base_filename_ignores_urls_and_inline_payloads() {
    assert_eq!(edit_base_filename(&vec![String::from("https://e.com/p.jpg")]), None);
    assert_eq!(edit_base_filename(&vec![String::from("data:image/png;base64,x")]), None);
    assert_eq!(edit_base_filename(&Vec::new()), None);
}

#[test]
fn candidate_paths_walk_the_three_tiers_in_order() {
    let tiers = candidate_paths(
        &String::from("photo.jpg"),
        &String::from("/cwd"),
        &String::from("/tmp/out"),
    );
    assert_eq!(tiers.len(), 3);
    assert_eq!(tiers[0], "photo.jpg");
    assert_eq!(tiers[1], "/cwd/photo.jpg");
    assert_eq!(tiers[2], "/tmp/out/photo.jpg");
}

#[test]
fn candidate_paths_respect_absolute_references() {
    let tiers = candidate_paths(
        &String::from("/abs/photo.jpg"),
        &String::from("/cwd"),
        &String::from("/tmp/out"),
    );
    assert_eq!(tiers[1], "/abs/photo.jpg");
    assert_eq!(tiers[2], "/abs/photo.jpg");
}
