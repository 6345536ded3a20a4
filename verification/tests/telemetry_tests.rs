use adaptive_transport::telemetry::telemetry_line;

#[test]
fn telemetry_line_is_one_json_object() {
    assert_eq!(
        telemetry_line(42, "ack", "seq=7 path=0"),
        "{\"ts_us\":42,\"event\":\"ack\",\"details\":\"seq=7 path=0\"}"
    );
}

#[test]
fn telemetry_line_escapes_quotes_and_breaks() {
    assert_eq!(
        telemetry_line(0, "scheduled_send", "payload=say \"hi\"\nnext"),
        "{\"ts_us\":0,\"event\":\"scheduled_send\",\"details\":\"payload=say \\\"hi\\\"\\nnext\"}"
    );
}

#[test]
fn telemetry_details_are_json_strings() {
    assert_eq!(
        telemetry_line(7, "e", "a\u{1}b it's\t\\"),
        "{\"ts_us\":7,\"event\":\"e\",\"details\":\"a\\u0001b it's\\t\\\\\"}"
    );
    assert_eq!(
        telemetry_line(1, "x", "\u{1f}\u{7f}é"),
        "{\"ts_us\":1,\"event\":\"x\",\"details\":\"\\u001f\u{7f}é\"}"
    );
}
