use pranklin::content_type::{contains_text, convert_connect_to_grpc, convert_content_type, convert_grpc_to_connect};

#[test]
fn test_connect_request_becomes_grpc() {
    assert_eq!(convert_connect_to_grpc("application/proto"), Some("application/grpc".to_string()));
    assert_eq!(convert_connect_to_grpc("application/proto; charset=utf-8"), Some("application/grpc".to_string()));
    assert_eq!(convert_connect_to_grpc("application/json"), None);
}

#[test]
fn test_grpc_response_becomes_connect() {
    assert_eq!(convert_grpc_to_connect("application/grpc+proto"), Some("application/proto".to_string()));
    assert_eq!(convert_grpc_to_connect("text/plain"), None);
}

#[test]
fn test_contains_text_edges() {
    assert!(contains_text("abc", ""));
    assert!(contains_text("abc", "abc"));
    assert!(contains_text("xxabc", "abc"));
    assert!(!contains_text("ab", "abc"));
    assert!(!contains_text("abd", "abc"));
    assert_eq!(convert_content_type("a/b", "z", "q"), None);
}
