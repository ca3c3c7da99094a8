use osu_scores::api::{
    authorization, best_scores_link, handle_error, pages_for, parse_bytes, ranking_link, RankingType, STATUS_BAD_REQUEST,
    STATUS_OK, STATUS_SERVICE_UNAVAILABLE, STATUS_TOO_MANY_REQUESTS,
};
use osu_scores::error::{ApiErrorResponse, OsuApiError};
use osu_scores::ranking::RankingPager;

fn json_error(bytes: &[u8]) -> serde_json::Error {
    serde_json::from_slice::<serde_json::Value>(bytes).unwrap_err()
}

fn no_error_body() -> Result<ApiErrorResponse, serde_json::Error> {
    Err(json_error(b"{"))
}

#[test]
fn ok_keeps_body() {
    let body = b"{\"a\":1}".to_vec();
    assert_eq!(handle_error(STATUS_OK, body.clone(), no_error_body()).unwrap(), body);
}

#[test]
fn fixed_statuses_map_to_their_errors() {
    assert!(matches!(
        handle_error(STATUS_BAD_REQUEST, Vec::new(), no_error_body()),
        Err(OsuApiError::BadRequest)
    ));
    assert!(matches!(
        handle_error(STATUS_SERVICE_UNAVAILABLE, Vec::new(), no_error_body()),
        Err(OsuApiError::ServiceUnavailable)
    ));
}

#[test]
fn too_many_requests_ignores_body() {
    assert!(matches!(
        handle_error(STATUS_TOO_MANY_REQUESTS, Vec::new(), no_error_body()),
        Err(OsuApiError::RateLimited)
    ));
    assert!(matches!(
        handle_error(STATUS_TOO_MANY_REQUESTS, b"{garbage".to_vec(), no_error_body()),
        Err(OsuApiError::RateLimited)
    ));
    let body = Ok(ApiErrorResponse { error: "slow down".to_string() });
    assert!(matches!(
        handle_error(STATUS_TOO_MANY_REQUESTS, b"{\"error\":\"slow down\"}".to_vec(), body),
        Err(OsuApiError::RateLimited)
    ));
}

#[test]
fn other_status_uses_error_body() {
    let body = Ok(ApiErrorResponse { error: "not found".to_string() });
    match handle_error(404, b"{\"error\":\"not found\"}".to_vec(), body) {
        Err(OsuApiError::ApiError { inner }) => assert_eq!(inner.error, "not found"),
        other => panic!("unexpected {:?}", other),
    }
}

#[test]
fn other_status_with_bad_error_body_keeps_bytes() {
    let raw = b"<html>oops</html>".to_vec();
    match handle_error(401, raw.clone(), Err(json_error(&raw))) {
        Err(OsuApiError::ParsingError { body, .. }) => assert_eq!(body, raw),
        other => panic!("unexpected {:?}", other),
    }
}

#[test]
fn undecodable_success_body_keeps_bytes() {
    let raw = b"\x00\x01not json\xff".to_vec();
    let decoded = serde_json::from_slice::<serde_json::Value>(&raw);
    match parse_bytes(raw.clone(), decoded) {
        Err(OsuApiError::ParsingError { body, .. }) => assert_eq!(body, raw),
        other => panic!("unexpected {:?}", other),
    }
}

#[test]
fn decodable_success_body_is_returned() {
    let raw = b"[1,2]".to_vec();
    let decoded = serde_json::from_slice::<Vec<i32>>(&raw);
    assert_eq!(parse_bytes(raw, decoded).unwrap(), vec![1, 2]);
}

#[test]
fn authorization_header() {
    assert_eq!(authorization(&Some("abc".to_string())).unwrap(), "Bearer abc");
    assert!(matches!(authorization(&None), Err(OsuApiError::NoToken)));
}

#[test]
fn error_messages() {
    assert_eq!(OsuApiError::RateLimited.message(), "got 429");
    assert_eq!(OsuApiError::NoToken.message(), "no token provided!");
    assert_eq!(OsuApiError::BadRequest.message(), "bad request!");
}

#[test]
fn page_queries() {
    let by = RankingType::Country { code: "by".to_string() };
    let q = by.page_query(3);
    assert_eq!(q.country.as_deref(), Some("by"));
    assert_eq!(q.page, 3);
    let q = RankingType::Global.page_query(1);
    assert_eq!(q.country, None);
    assert_eq!(q.page, 1);
}

#[test]
fn page_count_is_ceiling() {
    assert_eq!(pages_for(0), 0);
    assert_eq!(pages_for(1), 1);
    assert_eq!(pages_for(50), 1);
    assert_eq!(pages_for(51), 2);
    assert_eq!(pages_for(200), 4);
}

#[test]
fn pager_requests_pages_in_order() {
    let mut pager: RankingPager<i32> = RankingPager::new(3);
    let mut asked = Vec::new();
    while let Some(page) = pager.next_request() {
        asked.push(page);
        pager.on_page(vec![page * 10, page * 10 + 1]);
    }
    assert_eq!(asked, vec![1, 2, 3]);
    assert_eq!(pager.finish(), vec![10, 11, 20, 21, 30, 31]);
}

#[test]
fn pager_with_no_pages() {
    let pager: RankingPager<u32> = RankingPager::new(0);
    assert_eq!(pager.next_request(), None);
    assert!(pager.finish().is_empty());
}

#[test]
fn test_limit() {
    let mut pager: RankingPager<u32> = RankingPager::new(2);
    while let Some(page) = pager.next_request() {
        pager.on_page((0..50).map(|i| page as u32 * 100 + i).collect());
    }
    let lb = pager.finish();
    assert_eq!(lb.len(), 100);
}

#[test]
fn best_scores_address() {
    assert_eq!(
        best_scores_link(124493),
        "https://osu.ppy.sh/api/v2/users/124493/scores/best?mode=osu&limit=100"
    );
    assert_eq!(best_scores_link(0), "https://osu.ppy.sh/api/v2/users/0/scores/best?mode=osu&limit=100");
    assert_eq!(
        best_scores_link(-42),
        "https://osu.ppy.sh/api/v2/users/-42/scores/best?mode=osu&limit=100"
    );
    assert_eq!(
        best_scores_link(i64::MIN),
        "https://osu.ppy.sh/api/v2/users/-9223372036854775808/scores/best?mode=osu&limit=100"
    );
}

#[test]
fn ranking_addresses() {
    let by = RankingType::Country { code: "by".to_string() };
    assert_eq!(
        ranking_link(&by.page_query(2)),
        "https://osu.ppy.sh/api/v2/rankings/osu/performance?country=by&cursor[page]=2"
    );
    assert_eq!(
        ranking_link(&RankingType::Global.page_query(10)),
        "https://osu.ppy.sh/api/v2/rankings/osu/performance?cursor[page]=10"
    );
}
