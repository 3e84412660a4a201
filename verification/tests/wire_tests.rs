use master_events::wire::encode_envelope;
use master_events::wire::frame_envelope;

#[test]
fn envelope_at_epoch_renders_exactly() {
    let got = encode_envelope(0, "{}").unwrap();
    assert_eq!(
        got,
        "{\"time\":\"1970-01-01T00:00:00.000000000Z\",\"event\":{}}"
    );
}

#[test]
fn envelope_timestamp_is_rendered_not_echoed() {
    let got = encode_envelope(1234567890, "{\"kind\":\"x\"}").unwrap();
    assert_eq!(
        got,
        "{\"time\":\"2009-02-13T23:31:30.000000000Z\",\"event\":{\"kind\":\"x\"}}"
    );
}

#[test]
fn unrepresentable_timestamp_is_refused() {
    assert!(encode_envelope(i64::MAX, "{}").is_none());
    assert!(encode_envelope(i64::MIN, "{}").is_none());
}

#[test]
fn framing_concatenates_exactly() {
    assert_eq!(
        frame_envelope("T", "null"),
        "{\"time\":\"T\",\"event\":null}"
    );
    assert_eq!(frame_envelope("", ""), "{\"time\":\"\",\"event\":}");
}
