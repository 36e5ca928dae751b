use konnektoren_api::api::ApiDoc;

#[test]
fn api_doc_contains_all_endpoints() {
    let api_doc = ApiDoc::openapi();
    let paths = api_doc.paths;
    assert!(paths.contains_key("/api/v1/profiles/{profile_id}"));
    assert!(paths.contains_key("/api/v1/profiles"));
    assert!(paths.contains_key("/api/v1/challenges/{challenge_id}/presence"));
    assert!(paths.contains_key("/api/v1/challenges/{challenge_id}/presence/record"));

    // Coupon endpoint tests
    assert!(paths.contains_key("/api/v1/coupons"));
    assert!(paths.contains_key("/api/v1/coupons/{code}"));
    assert!(paths.contains_key("/api/v1/coupons/{code}/validate/{challenge_id}"));
    assert!(paths.contains_key("/api/v1/coupons/{code}/redeem/{challenge_id}"));
}

#[test]
fn api_doc_lacks_unknown_paths() {
    let paths = ApiDoc::openapi().paths;
    assert!(!paths.contains_key("/api/v1/chat/send/{channel}"));
    assert!(!paths.contains_key("/api/v1/coupon"));
    assert_eq!(paths.endpoints().len(), 18);
}
