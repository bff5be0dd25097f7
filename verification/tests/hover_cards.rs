use sqlalchemy_lsp::hover::cascade_card;

#[test]
fn req_hov_06_cascade_card_known_tokens() {
    let md = cascade_card("all, delete-orphan");
    assert!(md.contains("all"), "{md}");
    assert!(md.contains("delete-orphan"), "{md}");
    assert!(!md.contains("unknown"), "{md}");
}

#[test]
fn req_hov_06_cascade_card_unknown_token() {
    let md = cascade_card("delete-orphen");
    assert!(md.contains("unknown cascade token"), "{md}");
}
