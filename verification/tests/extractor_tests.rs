use engine_supervisor::extractor::parse_port_from_line;
use engine_supervisor::extractor::parse_shutdown_token_from_line;

#[test]
fn port_found_in_typical_log_line() {
    assert_eq!(
        parse_port_from_line("engine listening on http://127.0.0.1:38471 for requests"),
        Some(38471)
    );
}

#[test]
fn port_found_when_line_ends_at_digits() {
    assert_eq!(parse_port_from_line("http://127.0.0.1:38471"), Some(38471));
}

#[test]
fn port_absent_without_marker() {
    assert_eq!(parse_port_from_line("starting up"), None);
    assert_eq!(parse_port_from_line(""), None);
    assert_eq!(parse_port_from_line("listening on 127.0.0.1:38471"), None);
}

#[test]
fn port_absent_when_no_digits_follow() {
    assert_eq!(parse_port_from_line("see http://127.0.0.1: soon"), None);
    assert_eq!(parse_port_from_line("see http://127.0.0.1:"), None);
}

#[test]
fn port_absent_when_value_overflows() {
    assert_eq!(parse_port_from_line("http://127.0.0.1:65536"), None);
    assert_eq!(parse_port_from_line("http://127.0.0.1:99999999999999999999"), None);
}

#[test]
fn port_at_sixteen_bit_boundary() {
    assert_eq!(parse_port_from_line("http://127.0.0.1:65535"), Some(65535));
    assert_eq!(parse_port_from_line("http://127.0.0.1:0"), Some(0));
}

#[test]
fn port_uses_first_marker_occurrence() {
    // The first occurrence has an empty digit run, so no port is produced,
    // even though a later occurrence carries one.
    assert_eq!(parse_port_from_line("http://127.0.0.1:x http://127.0.0.1:38471"), None);
    assert_eq!(
        parse_port_from_line("http://127.0.0.1:1000 then http://127.0.0.1:2000"),
        Some(1000)
    );
}

#[test]
fn port_run_is_maximal() {
    // The whole digit run counts, not only the first five digits.
    assert_eq!(parse_port_from_line("http://127.0.0.1:384710"), None);
}

#[test]
fn token_found_with_no_trailing_whitespace() {
    assert_eq!(
        parse_shutdown_token_from_line("shutdown_token=abc123"),
        Some("abc123".to_string())
    );
}

#[test]
fn token_trimmed_of_surrounding_whitespace() {
    assert_eq!(
        parse_shutdown_token_from_line("shutdown_token=  abc123 \r\n"),
        Some("abc123".to_string())
    );
    assert_eq!(
        parse_shutdown_token_from_line("shutdown_token=deadbeef\n"),
        Some("deadbeef".to_string())
    );
}

#[test]
fn token_empty_but_present_for_empty_remainder() {
    assert_eq!(parse_shutdown_token_from_line("shutdown_token="), Some(String::new()));
    assert_eq!(parse_shutdown_token_from_line("shutdown_token=   \n"), Some(String::new()));
}

#[test]
fn token_absent_without_marker() {
    assert_eq!(parse_shutdown_token_from_line("engine ready"), None);
    assert_eq!(parse_shutdown_token_from_line(""), None);
}

#[test]
fn token_keeps_inner_whitespace() {
    assert_eq!(
        parse_shutdown_token_from_line("shutdown_token= a b \n"),
        Some("a b".to_string())
    );
}

#[test]
fn port_and_token_on_one_line() {
    let line = "http://127.0.0.1:8080 shutdown_token=s3cr3t";
    assert_eq!(parse_port_from_line(line), Some(8080));
    assert_eq!(parse_shutdown_token_from_line(line), Some("s3cr3t".to_string()));
}
