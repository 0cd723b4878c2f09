use stream_codec::codec::decode_event;
use stream_codec::codec::decode_request;
use stream_codec::codec::decode_user;
use stream_codec::codec::encode_event;
use stream_codec::codec::encode_request;
use stream_codec::codec::encode_user;
use stream_codec::codec::status_from_token;
use stream_codec::codec::status_token;
use stream_codec::codec::DecodeError;
use stream_codec::codec::Event;
use stream_codec::codec::HttpStatus;
use stream_codec::codec::User;
use stream_codec::text::chars_to_string;
use stream_codec::text::string_to_chars;
use stream_codec::transform::decode_date;
use stream_codec::transform::encode_date;

fn request_doc() -> String {
    let mut s = String::new();
    s.push_str("{\n");
    s.push_str("  \"type\": \"success\",\n");
    s.push_str("  \"stream\": {\n");
    s.push_str("    \"user_id\": \"8d234120-0bda-49b2-b7e0-fbd3912f6cbf\",\n");
    s.push_str("    \"is_private\": false,\n");
    s.push_str("    \"settings\": 45345,\n");
    s.push_str("    \"shard_url\": \"https://n3.example.com/sapi\",\n");
    s.push_str("    \"public_tariff\": {\"id\": 1, \"price\": 100, \"duration\": \"1h\", \"description\": \"test public tariff\"},\n");
    s.push_str("    \"private_tariff\": {\"client_price\": 250, \"duration\": \"1m\", \"description\": \"test private tariff\"}\n");
    s.push_str("  },\n");
    s.push_str("  \"gifts\": [\n");
    s.push_str("    {\"id\": 1, \"price\": 2, \"description\": \"Gift 1\"},\n");
    s.push_str("    {\"id\": 2, \"price\": 3, \"description\": \"Gift 2\"}\n");
    s.push_str("  ],\n");
    s.push_str("  \"debug\": {\"duration\": \"234ms\", \"at\": \"2019-06-28T08:35:46+00:00\"}\n");
    s.push_str("}\n");
    s
}

#[test]
fn test_1() {
    let file_str = request_doc();
    let request = decode_request(&file_str).unwrap();
    assert_eq!(request.stream.user_id, "8d234120-0bda-49b2-b7e0-fbd3912f6cbf");
    assert_eq!(request.debug.duration, "234ms");
    assert_eq!(request.stream.shard_url, "https://n3.example.com/sapi");
    assert_eq!(request.gifts.len(), 2);
    assert_eq!(request.gifts[0].id, 1);
    assert_eq!(request.gifts[1].id, 2);
}

#[test]
fn decode_encode_decode_is_decode() {
    let first = decode_request(&request_doc()).unwrap();
    let text = encode_request(&first);
    let second = decode_request(&text).unwrap();
    assert_eq!(first, second);
}

#[test]
fn encoded_request_is_valid_json() {
    let request = decode_request(&request_doc()).unwrap();
    let text = encode_request(&request);
    let value: serde_json::Value = serde_json::from_str(&text).unwrap();
    assert_eq!(value["type"].as_str(), Some("success"));
    assert_eq!(
        value["stream"]["user_id"].as_str(),
        Some("8d234120-0bda-49b2-b7e0-fbd3912f6cbf")
    );
    assert_eq!(value["stream"]["settings"].as_i64(), Some(45345));
    assert_eq!(value["gifts"].as_array().map(|a| a.len()), Some(2));
}

#[test]
fn canonical_uuid_agrees_with_uuid_crate() {
    let sample = "8d234120-0bda-49b2-b7e0-fbd3912f6cbf";
    assert!(uuid::Uuid::parse_str(sample).is_ok());
    let request = decode_request(&request_doc()).unwrap();
    assert_eq!(request.stream.user_id, sample);
}

#[test]
fn status_tokens_decode_to_variants() {
    let s = string_to_chars("success");
    assert_eq!(status_from_token(&s).unwrap(), HttpStatus::Success);
    let b = string_to_chars("bad_request");
    assert_eq!(status_from_token(&b).unwrap(), HttpStatus::BadRequest);
    let u = string_to_chars("unprocessable_entity");
    assert_eq!(status_from_token(&u).unwrap(), HttpStatus::UnprocessableEntity);
    let other = string_to_chars("accepted");
    match status_from_token(&other) {
        Err(DecodeError::UnknownVariant(tok)) => assert_eq!(tok, "accepted"),
        r => panic!("expected an unknown variant, got {:?}", r),
    }
    assert_eq!(chars_to_string(&status_token(&HttpStatus::Success)), "success");
    assert_eq!(chars_to_string(&status_token(&HttpStatus::BadRequest)), "bad_request");
    assert_eq!(
        chars_to_string(&status_token(&HttpStatus::UnprocessableEntity)),
        "unprocessable_entity"
    );
}

#[test]
fn unknown_status_in_document_fails() {
    let doc = request_doc().replace("\"success\"", "\"weird\"");
    match decode_request(&doc) {
        Err(DecodeError::UnknownVariant(tok)) => assert_eq!(tok, "weird"),
        r => panic!("expected an unknown variant, got {:?}", r),
    }
}

#[test]
fn bad_uuid_fails_with_invalid_uuid() {
    let doc = request_doc().replace("8d234120-0bda-49b2-b7e0-fbd3912f6cbf", "not-a-uuid");
    assert_eq!(decode_request(&doc).unwrap_err(), DecodeError::InvalidUuid);
}

#[test]
fn uuid_without_hyphens_fails() {
    let doc = request_doc().replace(
        "8d234120-0bda-49b2-b7e0-fbd3912f6cbf",
        "8d2341200bda49b2b7e0fbd3912f6cbf",
    );
    assert_eq!(decode_request(&doc).unwrap_err(), DecodeError::InvalidUuid);
}

#[test]
fn url_without_scheme_fails_with_invalid_url() {
    let doc = request_doc().replace("https://n3.example.com/sapi", "n3.example.com/sapi");
    assert_eq!(decode_request(&doc).unwrap_err(), DecodeError::InvalidUrl);
}

#[test]
fn missing_settings_fails_with_missing_field() {
    let doc = request_doc().replace("    \"settings\": 45345,\n", "");
    match decode_request(&doc) {
        Err(DecodeError::MissingField(name)) => assert_eq!(name, "settings"),
        r => panic!("expected a missing field, got {:?}", r),
    }
}

#[test]
fn bad_duration_fails_with_invalid_duration() {
    let doc = request_doc().replace("\"1h\"", "\"1x\"");
    assert_eq!(decode_request(&doc).unwrap_err(), DecodeError::InvalidDuration);
}

#[test]
fn timestamp_without_offset_fails_with_invalid_timestamp() {
    let doc = request_doc().replace("2019-06-28T08:35:46+00:00", "2019-06-28T08:35:46");
    assert_eq!(decode_request(&doc).unwrap_err(), DecodeError::InvalidTimestamp);
}

#[test]
fn timestamp_agrees_with_chrono() {
    assert!(chrono::DateTime::parse_from_rfc3339("2019-06-28T08:35:46Z").is_ok());
    let doc = request_doc().replace("2019-06-28T08:35:46+00:00", "2019-06-28T08:35:46Z");
    assert!(decode_request(&doc).is_ok());
}

#[test]
fn broken_document_fails_with_malformed() {
    assert_eq!(decode_request("{\"type\": ").unwrap_err(), DecodeError::MalformedDocument);
    assert_eq!(decode_request("[1, 2]").unwrap_err(), DecodeError::MalformedDocument);
    let doc = request_doc().replace("45345", "\"45345\"");
    assert_eq!(decode_request(&doc).unwrap_err(), DecodeError::MalformedDocument);
}

#[test]
fn gifts_keep_source_order() {
    let doc = request_doc()
        .replace("{\"id\": 1, \"price\": 2", "{\"id\": 9, \"price\": 2")
        .replace("{\"id\": 2, \"price\": 3", "{\"id\": 3, \"price\": 3");
    let request = decode_request(&doc).unwrap();
    assert_eq!(request.gifts.len(), 2);
    assert_eq!(request.gifts[0].id, 9);
    assert_eq!(request.gifts[1].id, 3);
}

#[test]
fn unknown_fields_are_ignored() {
    let doc = request_doc().replace(
        "  \"type\": \"success\",\n",
        "  \"type\": \"success\",\n  \"extra\": [1, {\"a\": null}, true],\n",
    );
    assert!(decode_request(&doc).is_ok());
}

#[test]
fn durations_decode_to_nanosecond_counts() {
    let request = decode_request(&request_doc()).unwrap();
    assert_eq!(request.stream.public_tariff.duration, 3_600_000_000_000);
    assert_eq!(request.stream.private_tariff.duration, 60_000_000_000);
}

#[test]
fn compound_duration_decodes_and_reencodes_coarsest() {
    let doc = request_doc().replace("\"1h\"", "\"1h30m\"");
    let request = decode_request(&doc).unwrap();
    assert_eq!(request.stream.public_tariff.duration, 5_400_000_000_000);
    let text = encode_request(&request);
    assert!(text.contains("\"duration\":\"90m\""));
}

#[test]
fn millisecond_duration_round_trips() {
    let doc = request_doc().replace("\"1h\"", "\"234ms\"");
    let request = decode_request(&doc).unwrap();
    assert_eq!(request.stream.public_tariff.duration, 234_000_000);
    let text = encode_request(&request);
    assert!(text.contains("\"duration\":\"234ms\""));
}

#[test]
fn negative_settings_decode() {
    let doc = request_doc().replace("45345", "-7");
    let request = decode_request(&doc).unwrap();
    assert_eq!(request.stream.settings, -7);
}

#[test]
fn encode_date_prefixes_marker() {
    assert_eq!(encode_date("2024-14-11"), "This is date: 2024-14-11");
}

#[test]
fn decode_date_replaces_token_everywhere() {
    assert_eq!(
        decode_date("This is date: 2024-14-11"),
        "This is event date: 2024-14-11"
    );
    assert_eq!(decode_date("update dated date"), "upevent date event dated event date");
    assert_eq!(decode_date("no token here"), "no token here");
}

#[test]
fn event_round_trip_is_not_identity() {
    let event = Event { name: String::from("Circus"), date: String::from("2024-14-11") };
    let text = encode_event(&event);
    let value: serde_json::Value = serde_json::from_str(&text).unwrap();
    assert_eq!(value["date"].as_str(), Some("This is date: 2024-14-11"));
    let back = decode_event(&text).unwrap();
    assert_eq!(back.name, "Circus");
    assert_eq!(back.date, "This is event date: 2024-14-11");
}

#[test]
fn event_decode_reads_name_and_date() {
    let back = decode_event("{\"name\":\"Circus\",\"date\":\"2024-14-11\"}").unwrap();
    assert_eq!(back.name, "Circus");
    assert_eq!(back.date, "2024-14-11");
}

#[test]
fn user_round_trips() {
    let user = User {
        name: String::from("Ada"),
        email: String::from("ada@example.com"),
        b_day: String::from("1815-12-10"),
    };
    let text = encode_user(&user);
    let back = decode_user(&text).unwrap();
    assert_eq!(user, back);
}

#[test]
fn empty_gifts_decode_and_round_trip() {
    let doc = request_doc()
        .replace("  \"gifts\": [\n", "  \"gifts\": [")
        .replace("    {\"id\": 1, \"price\": 2, \"description\": \"Gift 1\"},\n", "")
        .replace("    {\"id\": 2, \"price\": 3, \"description\": \"Gift 2\"}\n", "")
        .replace("  ],\n", "],\n");
    let request = decode_request(&doc).unwrap();
    assert_eq!(request.gifts.len(), 0);
    let text = encode_request(&request);
    let again = decode_request(&text).unwrap();
    assert_eq!(request, again);
}

#[test]
fn url_agrees_with_url_crate() {
    assert!(url::Url::parse("https://n3.example.com/sapi").is_ok());
    assert!(url::Url::parse("n3.example.com/sapi").is_err());
}
