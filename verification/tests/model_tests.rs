use pansou::model::{ApiResponse, SearchRequest};

#[test]
fn test_api_response_success() {
    let resp = ApiResponse::success("hello");
    assert_eq!(resp.code, 0);
    assert_eq!(resp.message, "success");
    assert_eq!(resp.data, Some("hello"));
}

#[test]
fn test_search_request_default() {
    let req = SearchRequest::default();
    assert!(req.keyword.is_empty());
    assert!(req.channels.is_empty());
    assert!(!req.force_refresh);
    assert_eq!(req.source_type, "");
    assert_eq!(req.result_type, "");
}
