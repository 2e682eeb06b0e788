use patchwork::http::{ai_response_outcome, http_status_text, request_shape, shape_for, AiOutcome, HttpManager, HttpResponse};
use patchwork::jsonpath::{extract_json_path, json_path_steps, json_path_text, JsonNode, PathStep};
use patchwork::text::{char_string, concat_text, labelled, push_decimal, str_eq, text_eq};

#[test]
fn decimal_labels() {
    assert_eq!(labelled("Node ", 42), "Node 42");
    assert_eq!(labelled("x", 0), "x0");
    assert_eq!(labelled("", 18446744073709551615), "18446744073709551615");
    let mut s = String::from("id=");
    push_decimal(&mut s, 1200);
    assert_eq!(s, "id=1200");
}

#[test]
fn text_helpers() {
    assert_eq!(char_string('q'), "q");
    assert_eq!(concat_text("ab", "cd"), "abcd");
    assert!(str_eq("same", "same"));
    assert!(!str_eq("same", "other"));
    assert!(text_eq(&"x".to_string(), "x"));
    assert!(!text_eq(&"x".to_string(), "y"));
}

#[test]
fn poll_returns_an_arrived_response_once() {
    let mut http = HttpManager::new();
    assert!(!http.is_pending(3));
    assert!(http.poll(3).is_none());
    let (tx, rx) = std::sync::mpsc::channel();
    http.register(3, rx);
    assert!(http.is_pending(3));
    assert!(http.poll(3).is_none());
    assert!(http.is_pending(3));
    tx.send(HttpResponse { status: 200, body: "ok".to_string() }).unwrap();
    let r = http.poll(3).expect("response");
    assert_eq!(r.status, 200);
    assert_eq!(r.body, "ok");
    assert!(!http.is_pending(3));
    assert!(http.poll(3).is_none());
}

#[test]
fn vanished_worker_ends_the_request() {
    let mut http = HttpManager::new();
    let (tx, rx) = std::sync::mpsc::channel::<HttpResponse>();
    http.register(8, rx);
    drop(tx);
    assert!(http.poll(8).is_none());
    assert!(!http.is_pending(8));
}

#[test]
fn json_path_pieces() {
    assert_eq!(
        json_path_steps("choices.0.message.content"),
        vec![
            PathStep::Key("choices".to_string()),
            PathStep::Index(0),
            PathStep::Key("message".to_string()),
            PathStep::Key("content".to_string()),
        ]
    );
    assert_eq!(json_path_steps(""), vec![PathStep::Key(String::new())]);
    assert_eq!(
        json_path_steps("a..+7"),
        vec![PathStep::Key("a".to_string()), PathStep::Key(String::new()), PathStep::Index(7)]
    );
    assert_eq!(json_path_steps("007"), vec![PathStep::Index(7)]);
    assert_eq!(json_path_steps("-1"), vec![PathStep::Key("-1".to_string())]);
    assert_eq!(json_path_steps("+"), vec![PathStep::Key("+".to_string())]);
    assert_eq!(json_path_steps("1+"), vec![PathStep::Key("1+".to_string())]);
    assert_eq!(
        json_path_steps("99999999999999999999999"),
        vec![PathStep::Key("99999999999999999999999".to_string())]
    );
    assert_eq!(json_path_steps("x.é"), vec![PathStep::Key("x".to_string()), PathStep::Key("é".to_string())]);
}

#[test]
fn request_method_and_body() {
    let get = request_shape("get", "ignored");
    assert!(get.use_get);
    assert!(!get.send_body);
    let mixed = request_shape("gEt", "");
    assert!(mixed.use_get);
    let post = request_shape("POST", "payload");
    assert!(!post.use_get);
    assert!(post.send_body);
    let empty_post = request_shape("put", "");
    assert!(!empty_post.use_get);
    assert!(!empty_post.send_body);
}

#[test]
fn shape_from_upper_case_method() {
    assert!(shape_for("GET", "x").use_get);
    assert!(!shape_for("GET", "x").send_body);
    assert!(!shape_for("get", "").use_get);
    assert!(shape_for("POST", "x").send_body);
    assert!(!shape_for("POST", "").send_body);
}

#[test]
fn json_extraction() {
    let doc = r#"{"choices":[{"message":{"content":"hi there","n":3,"obj":{"a":[1,2]}}}],"none":null}"#;
    assert_eq!(extract_json_path(doc, "choices.0.message.content"), "hi there");
    assert_eq!(extract_json_path(doc, "choices.0.message.n"), "3");
    assert_eq!(extract_json_path(doc, "choices.0.message.obj"), r#"{"a":[1,2]}"#);
    assert_eq!(extract_json_path(doc, "none"), "");
    assert_eq!(extract_json_path(doc, "choices.5.message"), "");
    assert_eq!(extract_json_path(doc, "choices.x"), "");
    assert_eq!(extract_json_path("not json", "a"), "(parse error)");
    assert_eq!(extract_json_path("[10,20]", "1"), "20");
}

#[test]
fn answered_requests() {
    assert_eq!(http_status_text(200), "200");
    assert_eq!(http_status_text(0), "0");
    match ai_response_outcome("", 200, r#"{"content":[{"type":"text"}]}"#.to_string()) {
        AiOutcome::Success { provider } => assert_eq!(provider, "anthropic"),
        _ => panic!("expected success"),
    }
    match ai_response_outcome("", 201, r#"{"choices":[]}"#.to_string()) {
        AiOutcome::Success { provider } => assert_eq!(provider, "openai"),
        _ => panic!("expected success"),
    }
    match ai_response_outcome("google", 299, String::new()) {
        AiOutcome::Success { provider } => assert_eq!(provider, "google"),
        _ => panic!("expected success"),
    }
    match ai_response_outcome("openai", 429, "slow down".to_string()) {
        AiOutcome::Failure { response, status } => {
            assert_eq!(response, "slow down");
            assert_eq!(status, "error: 429");
        },
        _ => panic!("expected failure"),
    }
    match ai_response_outcome("openai", 300, String::new()) {
        AiOutcome::Failure { status, .. } => assert_eq!(status, "error: 300"),
        _ => panic!("expected failure"),
    }
}

#[test]
fn json_extraction_from_a_document() {
    let j = r#"{"choices":[{"message":{"content":"hi"}}],"n":42}"#;
    assert_eq!(extract_json_path(j, "choices.0.message.content"), "hi");
    assert_eq!(extract_json_path(j, "n"), "42");
    assert_eq!(extract_json_path(j, "choices.5"), "");
    assert_eq!(extract_json_path("{oops", "n"), "(parse error)");
    assert_eq!(extract_json_path("[true]", "0"), "true");
    assert_eq!(extract_json_path("true", ""), "");
}

#[test]
fn json_walk_over_a_model() {
    let inner = JsonNode::Object(
        vec![("k".to_string(), JsonNode::Text("v".to_string())), ("k".to_string(), JsonNode::Scalar("2".to_string()))],
        r#"{"k":"v"}"#.to_string(),
    );
    let doc = JsonNode::Array(vec![JsonNode::Null, inner], r#"[null,{"k":"v"}]"#.to_string());
    assert_eq!(json_path_text(&doc, "1.k"), "v");
    assert_eq!(json_path_text(&doc, "1"), r#"{"k":"v"}"#);
    assert_eq!(json_path_text(&doc, "0"), "");
    assert_eq!(json_path_text(&doc, "2"), "");
    assert_eq!(json_path_text(&doc, "k"), "");
    assert_eq!(json_path_text(&doc, "+1.k"), "v");
}
