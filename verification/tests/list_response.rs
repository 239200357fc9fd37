use scimforge::list_response::{ListResponse, Pagination};

#[test]
fn list_response_reports_the_correct_items_per_page_for_the_returned_page() {
    let resp = ListResponse::new(vec!["a", "b", "c"], 50, 1);
    assert_eq!(resp.items_per_page, 3);
    assert_eq!(resp.total_results, 50);
}

#[test]
fn pagination_clamps_start_index_below_one_up_to_one() {
    assert_eq!(Pagination::from_request(Some(0), None).start_index, 1);
    assert_eq!(Pagination::from_request(Some(-100), None).start_index, 1);
    assert_eq!(Pagination::from_request(Some(1), None).start_index, 1);
    assert_eq!(Pagination::from_request(Some(42), None).start_index, 42);
}

#[test]
fn pagination_defaults_start_index_to_one_when_omitted() {
    assert_eq!(Pagination::from_request(None, None).start_index, 1);
}

#[test]
fn pagination_clamps_negative_count_to_zero() {
    assert_eq!(Pagination::from_request(None, Some(-5)).count, Some(0));
}

#[test]
fn pagination_leaves_count_unset_when_omitted_rather_than_defaulting_to_zero() {
    assert_eq!(Pagination::from_request(None, None).count, None);
}

#[test]
fn pagination_from_request_applies_no_upper_bound_to_count_by_default() {
    assert_eq!(
        Pagination::from_request(None, Some(i64::MAX)).count,
        Some(i64::MAX as u64)
    );
}

#[test]
fn pagination_clamped_caps_an_oversized_count_at_the_given_ceiling() {
    let pagination = Pagination::from_request(None, Some(i64::MAX)).clamped(500);
    assert_eq!(pagination.count, Some(500));
}

#[test]
fn pagination_clamped_leaves_a_count_already_under_the_ceiling_unchanged() {
    let pagination = Pagination::from_request(None, Some(10)).clamped(500);
    assert_eq!(pagination.count, Some(10));
}

#[test]
fn pagination_clamped_leaves_an_unset_count_unset() {
    let pagination = Pagination::from_request(None, None).clamped(500);
    assert_eq!(pagination.count, None);
}

#[test]
fn pagination_clamped_leaves_start_index_untouched() {
    let pagination = Pagination::from_request(Some(42), Some(i64::MAX)).clamped(1);
    assert_eq!(pagination.start_index, 42);
}
