use sap_calendar_sync::sap_url::build_sap_url;

#[test]
fn url_without_query_gets_window() {
    assert_eq!(
        build_sap_url("https://h/feed", 2024, 3).unwrap(),
        "https://h/feed?start=1706745600&end=1724889599"
    );
}

#[test]
fn january_starts_in_previous_december() {
    assert_eq!(
        build_sap_url("https://h/feed", 2024, 1).unwrap(),
        "https://h/feed?start=1701388800&end=1719619199"
    );
}

#[test]
fn window_end_wraps_into_next_year() {
    assert_eq!(
        build_sap_url("https://h/feed", 2024, 10).unwrap(),
        "https://h/feed?start=1725148800&end=1743206399"
    );
}

#[test]
fn old_window_parameters_are_replaced() {
    assert_eq!(
        build_sap_url("https://h/feed?userid=7&start=1&end=2&x=", 2024, 3).unwrap(),
        "https://h/feed?userid=7&x=&start=1706745600&end=1724889599"
    );
}

#[test]
fn query_of_only_window_parameters_is_dropped() {
    assert_eq!(
        build_sap_url("https://h/feed?start=1&end=2", 2024, 3).unwrap(),
        "https://h/feed?start=1706745600&end=1724889599"
    );
    assert_eq!(
        build_sap_url("https://h/feed?", 2024, 3).unwrap(),
        "https://h/feed?&start=1706745600&end=1724889599"
    );
}

#[test]
fn year_out_of_range_gives_none() {
    assert!(build_sap_url("https://h/feed", 400000, 3).is_none());
}

#[test]
fn window_of_edge_years_is_built() {
    assert!(build_sap_url("https://h/feed", 262141, 12).is_some());
    assert!(build_sap_url("https://h/feed", -262142, 1).is_some());
}
