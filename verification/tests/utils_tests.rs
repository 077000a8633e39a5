use impermachat::public::sanitize_room_name;
use impermachat::rooms::cap_message;
use impermachat::utils::{create_fragments_event, format_time, get_connection_cookie, name_to_color};

#[test]
fn format_time_zero() {
    assert_eq!(format_time(0), "00:00:00 remaining...");
}

#[test]
fn format_time_one_minute() {
    assert_eq!(format_time(60), "00:01:00 remaining...");
}

#[test]
fn format_time_mixed() {
    assert_eq!(format_time(3661), "01:01:01 remaining...");
    assert_eq!(format_time(59), "00:00:59 remaining...");
    assert_eq!(format_time(7322), "02:02:02 remaining...");
}

#[test]
fn format_time_three_digit_hours() {
    assert_eq!(format_time(363599), "100:59:59 remaining...");
}

#[test]
fn color_of_known_names() {
    assert_eq!(name_to_color("alice"), "#5fe8c8");
    assert_eq!(name_to_color("bob"), "#525765");
    assert_eq!(name_to_color(""), "#373737");
    assert_eq!(name_to_color("a"), "#3e4237");
}

#[test]
fn color_of_is_deterministic() {
    let first = name_to_color("alice");
    let second = name_to_color("alice");
    assert_eq!(first, second);
}

#[test]
fn color_of_non_ascii_name() {
    let first = name_to_color("ümläut");
    let second = name_to_color("ümläut");
    assert_eq!(first, second);
    assert_eq!(first.len(), 7);
    assert!(first.starts_with('#'));
}

#[test]
fn fragments_event_single_line() {
    assert_eq!(create_fragments_event(String::from("<div>x</div>")), "fragments <div>x</div>\n");
}

#[test]
fn fragments_event_multi_line() {
    let rendered = String::from("<div>\n  <p>hi</p>\n</div>");
    assert_eq!(
        create_fragments_event(rendered),
        "fragments <div>\nfragments   <p>hi</p>\nfragments </div>\n"
    );
}

#[test]
fn fragments_event_trailing_newline() {
    assert_eq!(create_fragments_event(String::from("a\nb\n")), "fragments a\nfragments b\n");
}

#[test]
fn fragments_event_crlf() {
    assert_eq!(create_fragments_event(String::from("a\r\nb")), "fragments a\nfragments b\n");
}

#[test]
fn fragments_event_empty() {
    assert_eq!(create_fragments_event(String::new()), "");
}

#[test]
fn cookie_found_alone() {
    assert_eq!(get_connection_cookie("impermachat_id=abc"), Some(String::from("abc")));
}

#[test]
fn cookie_found_among_others() {
    assert_eq!(
        get_connection_cookie("theme=dark; impermachat_id=u-1-2; lang=en"),
        Some(String::from("u-1-2"))
    );
}

#[test]
fn cookie_absent() {
    assert_eq!(get_connection_cookie("theme=dark; lang=en"), None);
    assert_eq!(get_connection_cookie(""), None);
}

#[test]
fn cookie_name_must_match_exactly() {
    assert_eq!(get_connection_cookie("ximpermachat_id=abc"), None);
}

#[test]
fn sanitize_keeps_allowed_and_lowercases() {
    assert_eq!(sanitize_room_name("Test Room!"), "testroom");
    assert_eq!(sanitize_room_name("my-room_2"), "my-room_2");
    assert_eq!(sanitize_room_name("ABC"), "abc");
    assert_eq!(sanitize_room_name("héllo"), "hllo");
}

#[test]
fn sanitize_twice_is_identity() {
    let once = sanitize_room_name("Test Room! #5");
    let twice = sanitize_room_name(&once);
    assert_eq!(once, twice);
}

#[test]
fn cap_keeps_message_at_limit() {
    let msg = "a".repeat(4000);
    assert_eq!(cap_message(&msg), msg);
}

#[test]
fn cap_replaces_message_over_limit() {
    let msg = "a".repeat(4001);
    assert_eq!(
        cap_message(&msg),
        "This message was too long! Keep it under 4,000 characters"
    );
}
