use nss_netns::json::text_member;

#[test]
fn text_member_reads_a_string_member() {
    let doc: serde_json::Value = serde_json::from_str("{\"name\": \"blue\", \"id\": 3}").unwrap();
    assert_eq!(text_member(&doc, "name"), Some("blue".to_string()));
    assert_eq!(text_member(&doc, "id"), None);
    assert_eq!(text_member(&doc, "missing"), None);
}
