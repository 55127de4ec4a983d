use cvm::releases::{
    has_short_numbers, is_success, latest_release, release_tag, release_tags, releases, FeedError,
    ACCEPT_HEADER, AGENT_HEADER, DIGIT_LIMIT, FEED_LIMIT, HTTP_OK, LATEST_URL, RELEASES_URL,
};

fn feed_strings(items: &[&str]) -> Vec<String> {
    items.iter().map(|item| item.to_string()).collect()
}

#[test]
fn the_tag_is_the_name_without_its_first_character() {
    assert_eq!(release_tag("v3.20.3"), "3.20.3");
    assert_eq!(release_tag("3.20.3"), ".20.3");
    assert_eq!(release_tag("v"), "");
    assert_eq!(release_tag(""), "");
    assert_eq!(release_tag("\u{00E9}3"), "3");
}

#[test]
fn entries_without_a_name_are_left_out() {
    let names = vec![
        Some("v3.20.3".to_string()),
        None,
        Some("v3.20.2".to_string()),
        None,
        None,
        Some("v3.19.8".to_string()),
    ];
    assert_eq!(release_tags(&names), feed_strings(&["3.20.3", "3.20.2", "3.19.8"]));
    assert_eq!(release_tags(&vec![]), feed_strings(&[]));
    assert_eq!(release_tags(&vec![None]), feed_strings(&[]));
}

#[test]
fn releases_reads_the_tag_names_of_the_feed() {
    let body = r#"[
        {"id": 1, "tag_name": "v3.20.3", "name": "v3.20.3"},
        {"id": 2, "tag_name": "v3.20.2", "draft": false},
        {"id": 3, "tag_name": "v3.19.8"}
    ]"#;
    assert_eq!(releases(200, body), Ok(feed_strings(&["3.20.3", "3.20.2", "3.19.8"])));
}

#[test]
fn releases_skips_members_without_a_tag_name() {
    let body = r#"[
        {"tag_name": "v3.20.3"},
        {"name": "v3.20.2"},
        {"tag_name": 5},
        {"tag_name": null},
        "v3.20.1",
        ["tag_name", "v3.20.0"],
        {"tag_name": "v3.19.8"}
    ]"#;
    assert_eq!(releases(200, body), Ok(feed_strings(&["3.20.3", "3.19.8"])));
}

#[test]
fn releases_of_an_empty_feed_are_none() {
    assert_eq!(releases(200, "[]"), Ok(feed_strings(&[])));
}

#[test]
fn releases_of_a_document_that_is_no_array_are_none() {
    assert_eq!(releases(200, r#"{"tag_name": "v3.20.3"}"#), Ok(feed_strings(&[])));
    assert_eq!(releases(200, r#"{"a": 1, "b": 2}"#), Ok(feed_strings(&[])));
    assert_eq!(releases(200, "12"), Ok(feed_strings(&[])));
    assert_eq!(releases(200, r#""v3.20.3""#), Ok(feed_strings(&[])));
}

#[test]
fn releases_keeps_long_and_short_names() {
    let long = "v3.20.3-a-very-long-suffix-that-does-not-fit-a-short-string";
    let body = format!(r#"[{{"tag_name": "{}"}}, {{"tag_name": "v1"}}]"#, long);
    assert_eq!(releases(200, &body), Ok(vec![long[1..].to_string(), "1".to_string()]));
}

#[test]
fn releases_refuses_another_status() {
    assert_eq!(releases(403, r#"[{"tag_name": "v3.20.3"}]"#), Err(FeedError::Status(403)));
    assert_eq!(releases(404, "not json"), Err(FeedError::Status(404)));
    assert_eq!(releases(0, "[]"), Err(FeedError::Status(0)));
}

#[test]
fn releases_refuses_what_is_no_json() {
    assert!(matches!(releases(200, ""), Err(FeedError::Json(_))));
    assert!(matches!(releases(200, "[{\"tag_name\": "), Err(FeedError::Json(_))));
    assert!(matches!(releases(200, "<html>"), Err(FeedError::Json(_))));
}

#[test]
fn latest_release_reads_the_tag_name() {
    let body = r#"{"id": 7, "tag_name": "v3.20.3", "name": "v3.20.3"}"#;
    assert_eq!(latest_release(200, body), Ok("3.20.3".to_string()));
}

#[test]
fn latest_release_without_a_tag_name_names_none() {
    assert_eq!(latest_release(200, r#"{"message": "Not Found"}"#), Err(FeedError::NoTag));
    assert_eq!(latest_release(200, r#"{"tag_name": 3}"#), Err(FeedError::NoTag));
    assert_eq!(latest_release(200, r#"[{"tag_name": "v3.20.3"}]"#), Err(FeedError::NoTag));
    assert_eq!(latest_release(200, "null"), Err(FeedError::NoTag));
}

#[test]
fn latest_release_refuses_another_status_and_what_is_no_json() {
    assert_eq!(latest_release(500, r#"{"tag_name": "v3.20.3"}"#), Err(FeedError::Status(500)));
    assert!(matches!(latest_release(200, "{"), Err(FeedError::Json(_))));
}

#[test]
fn the_latest_release_is_the_first_of_the_list() {
    let list = r#"[{"tag_name": "v3.20.3"}, {"tag_name": "v3.20.2"}]"#;
    let latest = r#"{"tag_name": "v3.20.3"}"#;
    let tags = releases(200, list).unwrap();
    assert_eq!(latest_release(200, latest).unwrap(), tags[0]);
}

#[test]
fn releases_keeps_a_hundred_at_most() {
    let mut body = String::from("[");
    for i in 0..150 {
        if i > 0 {
            body.push(',');
        }
        body.push_str(&format!(r#"{{"tag_name": "v3.{}.0"}}"#, 200 - i));
    }
    body.push(']');
    let tags = releases(200, &body).unwrap();
    assert_eq!(FEED_LIMIT, 100);
    assert_eq!(tags.len(), 100);
    assert_eq!(tags[0], "3.200.0");
    assert_eq!(tags[99], "3.101.0");
}

#[test]
fn the_feed_is_asked_at_its_addresses() {
    assert_eq!(RELEASES_URL, "https://api.github.com/repos/Kitware/CMake/releases?per_page=100");
    assert_eq!(LATEST_URL, "https://api.github.com/repos/Kitware/CMake/releases/latest");
    assert_eq!(ACCEPT_HEADER, "Accept: application/vnd.github.v3+json");
    assert_eq!(AGENT_HEADER, "User-Agent: request");
}

#[test]
fn only_the_status_200_is_a_success() {
    assert_eq!(HTTP_OK, 200);
    assert!(is_success(200));
    for status in [0, 100, 199, 201, 204, 301, 304, 403, 404, 500, u32::MAX] {
        assert!(!is_success(status));
    }
}

#[test]
fn a_run_of_digits_below_the_limit_is_short() {
    assert_eq!(DIGIT_LIMIT, 32768);
    assert!(has_short_numbers(""));
    assert!(has_short_numbers("[]"));
    assert!(has_short_numbers("12345.67890e12"));
    assert!(has_short_numbers(&"7".repeat(DIGIT_LIMIT - 1)));
    assert!(has_short_numbers(&format!("0.{}", "0".repeat(DIGIT_LIMIT - 1))));
    let two_runs = format!("{0},{0}", "1".repeat(DIGIT_LIMIT - 1));
    assert!(has_short_numbers(&two_runs));
    let broken = format!("{0}{1}{0}", "1".repeat(DIGIT_LIMIT / 2), "\u{00E9}");
    assert!(has_short_numbers(&broken));
}

#[test]
fn a_run_of_digits_at_the_limit_is_long() {
    assert!(!has_short_numbers(&"7".repeat(DIGIT_LIMIT)));
    assert!(!has_short_numbers(&"7".repeat(DIGIT_LIMIT + 1)));
    assert!(!has_short_numbers(&format!("0.{}", "0".repeat(DIGIT_LIMIT))));
    assert!(!has_short_numbers(&format!("[{{\"a\": \"{}\"}}]", "9".repeat(40000))));
    assert!(!has_short_numbers(&format!("x{}", "0123456789".repeat(4000))));
}

#[test]
fn a_fraction_of_as_many_digits_as_are_let_through_is_read() {
    let body = format!("0.{}", "0".repeat(DIGIT_LIMIT - 1));
    assert_eq!(releases(200, &body), Ok(vec![]));
    assert_eq!(latest_release(200, &body), Err(FeedError::NoTag));
    let body = format!(r#"[{{"tag_name": "v3.20.3", "size": 0.{}1}}]"#, "0".repeat(DIGIT_LIMIT - 2));
    assert_eq!(releases(200, &body), Ok(vec!["3.20.3".to_string()]));
}

#[test]
fn a_number_that_is_too_long_is_not_read() {
    let body = format!("0.{}", "0".repeat(DIGIT_LIMIT + 1));
    assert_eq!(releases(200, &body), Err(FeedError::LongNumber));
    assert_eq!(latest_release(200, &body), Err(FeedError::LongNumber));
    let body = format!(r#"[{{"tag_name": "v3.20.3", "size": 0.{}}}]"#, "0".repeat(40000));
    assert_eq!(releases(200, &body), Err(FeedError::LongNumber));
    let body = format!(r#"{{"tag_name": "v3.20.3", "size": {}}}"#, "1".repeat(DIGIT_LIMIT));
    assert_eq!(latest_release(200, &body), Err(FeedError::LongNumber));
    assert_eq!(latest_release(404, &body), Err(FeedError::Status(404)));
}
