use dockerproxy::logging::{head_for_log, log, log_always, timestamp};

#[test]
fn times_have_three_decimals() {
    assert_eq!(timestamp(0, 0), "0.000");
    assert_eq!(timestamp(1700000000, 7), "1700000000.007");
    assert_eq!(timestamp(1700000000, 42), "1700000000.042");
    assert_eq!(timestamp(1, 999), "1.999");
    for millis in 0..1000u32 {
        assert_eq!(timestamp(12, millis), format!("12.{millis:03}"));
    }
}

#[test]
fn lines_have_a_time_and_a_scope() {
    assert_eq!(log_always(5, 60, "cache", "hit x"), "5.060 [cache] hit x");
}

#[test]
fn lines_below_the_level_are_left_out() {
    assert_eq!(log(1, 1, 5, 6, "main", "m"), Some("5.006 [main] m".to_string()));
    assert_eq!(log(2, 1, 5, 6, "main", "m"), Some("5.006 [main] m".to_string()));
    assert_eq!(log(0, 1, 5, 6, "main", "m"), None);
    assert_eq!(log(0, 0, 5, 6, "main", "m"), Some("5.006 [main] m".to_string()));
}

#[test]
fn a_head_is_logged_on_one_line() {
    assert_eq!(head_for_log("GET / HTTP/1.1\r\nHost: x\r\n\r\n"), "GET / HTTP/1.1 | Host: x |  | ");
    for head in ["", "\n", "\r", "\r\r\n\n", "a\rb\nc\r\n", "\n\r\n\r", "é\r\n|"] {
        let line = head_for_log(head);
        assert_eq!(line, head.replace("\r\n", " | ").replace('\n', " | "));
        assert!(!line.contains('\n'));
    }
}
