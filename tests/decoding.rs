use semantic_search::decimal::parse_decimal;
use semantic_search::snippet::{
    decode, decode_all, DecodeError, Field, FieldValue, PayloadEntry, RawCandidate,
};

fn text(key: &str, value: &str) -> PayloadEntry {
    PayloadEntry { key: key.to_string(), value: FieldValue::Text(value.to_string()) }
}

fn full_payload() -> Vec<PayloadEntry> {
    vec![
        text("lang", "rust"),
        text("repo_name", "github.com/example/app"),
        text("repo_ref", "main"),
        text("relative_path", "src/json.rs"),
        text("snippet", "fn parse_json() {}"),
        text("start_line", "10"),
        text("end_line", "12"),
        text("start_byte", "200"),
        text("end_byte", "260"),
    ]
}

fn candidate(payload: Vec<PayloadEntry>) -> RawCandidate {
    RawCandidate {
        score_bits: 0.5f32.to_bits(),
        vector: Some(vec![1.0f32.to_bits(), 0.0f32.to_bits()]),
        payload,
    }
}

fn without(key: &str) -> Vec<PayloadEntry> {
    full_payload().into_iter().filter(|e| e.key != key).collect()
}

fn with_value(key: &str, value: FieldValue) -> Vec<PayloadEntry> {
    full_payload()
        .into_iter()
        .map(|e| if e.key == key { PayloadEntry { key: e.key, value: match &value {
            FieldValue::Text(s) => FieldValue::Text(s.clone()),
            FieldValue::Other => FieldValue::Other,
        } } } else { e })
        .collect()
}

#[test]
fn parse_decimal_reads_plain_numbers() {
    assert_eq!(parse_decimal("0"), Some(0));
    assert_eq!(parse_decimal("42"), Some(42));
    assert_eq!(parse_decimal("007"), Some(7));
    assert_eq!(parse_decimal("+15"), Some(15));
}

#[test]
fn parse_decimal_rejects_malformed_text() {
    assert_eq!(parse_decimal(""), None);
    assert_eq!(parse_decimal("+"), None);
    assert_eq!(parse_decimal("-1"), None);
    assert_eq!(parse_decimal("12a"), None);
    assert_eq!(parse_decimal(" 12"), None);
    assert_eq!(parse_decimal("++1"), None);
    assert_eq!(parse_decimal("١٢"), None);
}

#[test]
fn parse_decimal_agrees_with_std_at_the_edge() {
    let max = usize::MAX.to_string();
    assert_eq!(parse_decimal(&max), Some(usize::MAX));
    let over = format!("{}0", max);
    assert_eq!(parse_decimal(&over), None);
    for s in ["0", "+0", "99", "-0", "", "+", "1_000", &max, &over] {
        assert_eq!(parse_decimal(s), s.parse::<usize>().ok(), "input {:?}", s);
    }
}

#[test]
fn decode_full_candidate() {
    let s = decode(candidate(full_payload())).ok().expect("decodes");
    assert_eq!(s.lang, "rust");
    assert_eq!(s.repo_name, "github.com/example/app");
    assert_eq!(s.repo_ref, "main");
    assert_eq!(s.relative_path, "src/json.rs");
    assert_eq!(s.text, "fn parse_json() {}");
    assert_eq!((s.start_line, s.end_line, s.start_byte, s.end_byte), (10, 12, 200, 260));
    assert_eq!(f32::from_bits(s.score_bits), 0.5);
    assert_eq!(s.embedding, vec![1.0f32.to_bits(), 0.0f32.to_bits()]);
}

#[test]
fn decode_ignores_extra_keys_and_order() {
    let mut payload = full_payload();
    payload.reverse();
    payload.push(text("content_hash", "abc"));
    let s = decode(candidate(payload)).ok().expect("decodes");
    assert_eq!(s.text, "fn parse_json() {}");
    assert_eq!(s.end_byte, 260);
}

#[test]
fn decode_missing_each_field_fails() {
    let fields = [
        ("lang", Field::Lang),
        ("repo_name", Field::RepoName),
        ("repo_ref", Field::RepoRef),
        ("relative_path", Field::RelativePath),
        ("snippet", Field::Text),
        ("start_line", Field::StartLine),
        ("end_line", Field::EndLine),
        ("start_byte", Field::StartByte),
        ("end_byte", Field::EndByte),
    ];
    for (key, field) in fields {
        assert_eq!(field.key(), key);
        let r = decode(candidate(without(key)));
        assert_eq!(r.err(), Some(DecodeError::MissingField(field)), "key {}", key);
    }
}

#[test]
fn decode_non_text_field_fails() {
    let r = decode(candidate(with_value("repo_ref", FieldValue::Other)));
    assert_eq!(r.err(), Some(DecodeError::NotText(Field::RepoRef)));
    let r = decode(candidate(with_value("end_byte", FieldValue::Other)));
    assert_eq!(r.err(), Some(DecodeError::NotText(Field::EndByte)));
}

#[test]
fn decode_non_numeric_field_fails() {
    let r = decode(candidate(with_value("start_line", FieldValue::Text("ten".to_string()))));
    assert_eq!(r.err(), Some(DecodeError::NotNumeric(Field::StartLine)));
    let r = decode(candidate(with_value("start_byte", FieldValue::Text("-3".to_string()))));
    assert_eq!(r.err(), Some(DecodeError::NotNumeric(Field::StartByte)));
}

#[test]
fn decode_missing_vector_fails_first() {
    let mut c = candidate(without("lang"));
    c.vector = None;
    assert_eq!(decode(c).err(), Some(DecodeError::MissingVector));
}

#[test]
fn decode_reports_first_failing_field() {
    let mut payload = without("end_line");
    payload.retain(|e| e.key != "repo_name");
    assert_eq!(
        decode(candidate(payload)).err(),
        Some(DecodeError::MissingField(Field::RepoName))
    );
}

#[test]
fn decode_all_keeps_order() {
    let mut second = full_payload();
    second[4] = text("snippet", "fn other() {}");
    let v = decode_all(vec![candidate(full_payload()), candidate(second)]).ok().expect("decodes");
    assert_eq!(v.len(), 2);
    assert_eq!(v[0].text, "fn parse_json() {}");
    assert_eq!(v[1].text, "fn other() {}");
}

#[test]
fn decode_all_one_bad_candidate_fails_batch() {
    let batch = vec![
        candidate(full_payload()),
        candidate(without("relative_path")),
        candidate(with_value("start_line", FieldValue::Text("x".to_string()))),
    ];
    assert_eq!(decode_all(batch).err(), Some(DecodeError::MissingField(Field::RelativePath)));
    let batch = vec![candidate(full_payload()), candidate(with_value("end_line", FieldValue::Text("1.5".to_string())))];
    assert_eq!(decode_all(batch).err(), Some(DecodeError::NotNumeric(Field::EndLine)));
}

#[test]
fn decode_all_empty_is_empty() {
    assert_eq!(decode_all(vec![]).ok().map(|v| v.len()), Some(0));
}
