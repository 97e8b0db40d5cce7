use semantic_search::pipeline::{
    Action, ErrorKind, Event, Pipeline, SearchError, Stage, DEFAULT_OVERFETCH,
};
use semantic_search::snippet::{DecodeError, Field, FieldValue, PayloadEntry, RawCandidate};

fn text(key: &str, value: &str) -> PayloadEntry {
    PayloadEntry { key: key.to_string(), value: FieldValue::Text(value.to_string()) }
}

fn raw(i: usize, repo_ref: &str) -> RawCandidate {
    RawCandidate {
        score_bits: (1.0f32 - i as f32 / 100.0).to_bits(),
        vector: Some(vec![(i as f32).to_bits(), 1.0f32.to_bits()]),
        payload: vec![
            text("lang", "rust"),
            text("repo_name", "github.com/example/app"),
            text("repo_ref", repo_ref),
            text("relative_path", "src/json.rs"),
            text("snippet", &format!("fn parse_json_{}() {{}}", i)),
            text("start_line", &(i * 10).to_string()),
            text("end_line", &(i * 10 + 5).to_string()),
            text("start_byte", &(i * 100).to_string()),
            text("end_byte", &(i * 100 + 50).to_string()),
        ],
    }
}

fn fail_of(a: Action) -> Option<SearchError> {
    match a {
        Action::Fail(e) => Some(e),
        _ => None,
    }
}

fn to_decoding(limit: u64) -> Pipeline {
    let mut p = Pipeline::new(limit, DEFAULT_OVERFETCH);
    assert!(matches!(p.step(Event::Configured(true)), Action::Parse));
    match p.step(Event::Parsed(Some("parse json".to_string()))) {
        Action::Embed(t) => assert_eq!(t, "parse json"),
        _ => panic!("expected an embedding request"),
    }
    p
}

#[test]
fn request_parse_json_limit_five() {
    let mut p = to_decoding(5);
    match p.step(Event::Embedded(true)) {
        Action::Search(n) => assert_eq!(n, 20),
        _ => panic!("expected a search"),
    }
    let cands: Vec<RawCandidate> = (0..20).map(|i| raw(i, "main")).collect();
    assert!(matches!(p.step(Event::Fetched(Some(cands))), Action::Measure));
    assert_eq!(p.stage, Stage::Deduplicating);
    assert_eq!(p.snippets.len(), 20);
    assert_eq!(p.snippets[3].start_line, 30);
    // candidate i has similarity i/20, and candidates 19 and 18 are near-duplicates
    let sims: Vec<u32> = (0..20).map(|i| (i as f32 / 20.0).to_bits()).collect();
    let mut close = vec![vec![false; 20]; 20];
    close[19][18] = true;
    close[18][19] = true;
    match p.step(Event::Measured { similarity_bits: sims, close }) {
        Action::Respond(out) => {
            assert_eq!(out.len(), 5);
            let starts: Vec<usize> = out.iter().map(|s| s.start_line).collect();
            assert_eq!(starts, vec![190, 170, 160, 150, 140]);
        }
        _ => panic!("expected an answer"),
    }
    assert_eq!(p.stage, Stage::Done);
}

#[test]
fn request_empty_target_is_user_error_before_search() {
    let mut p = Pipeline::new(5, DEFAULT_OVERFETCH);
    assert!(matches!(p.step(Event::Configured(true)), Action::Parse));
    let e = fail_of(p.step(Event::Parsed(Some(String::new())))).expect("fails");
    assert_eq!(e, SearchError::EmptySearch);
    assert_eq!(e.kind(), ErrorKind::User);
    assert_eq!(p.stage, Stage::Failed);
    let e = fail_of(p.step(Event::Embedded(true))).expect("stays failed");
    assert_eq!(e, SearchError::UnexpectedEvent);
}

#[test]
fn request_without_target_is_user_error() {
    let mut p = Pipeline::new(5, DEFAULT_OVERFETCH);
    p.step(Event::Configured(true));
    assert_eq!(fail_of(p.step(Event::Parsed(None))), Some(SearchError::EmptySearch));
}

#[test]
fn request_unparsable_query_is_user_error() {
    let mut p = Pipeline::new(5, DEFAULT_OVERFETCH);
    p.step(Event::Configured(true));
    let e = fail_of(p.step(Event::ParseFailed)).expect("fails");
    assert_eq!(e, SearchError::InvalidQuery);
    assert_eq!(e.kind(), ErrorKind::User);
}

#[test]
fn request_index_not_configured_fails_at_once() {
    let mut p = Pipeline::new(5, DEFAULT_OVERFETCH);
    let e = fail_of(p.step(Event::Configured(false))).expect("fails");
    assert_eq!(e, SearchError::NotConfigured);
    assert_eq!(e.kind(), ErrorKind::Configuration);
    assert_eq!(p.stage, Stage::Failed);
}

#[test]
fn request_embedding_failure_is_internal() {
    let mut p = to_decoding(5);
    let e = fail_of(p.step(Event::Embedded(false))).expect("fails");
    assert_eq!(e, SearchError::EmbeddingFailed);
    assert_eq!(e.kind(), ErrorKind::Internal);
}

#[test]
fn request_index_failure_is_internal() {
    let mut p = to_decoding(5);
    p.step(Event::Embedded(true));
    let e = fail_of(p.step(Event::Fetched(None))).expect("fails");
    assert_eq!(e, SearchError::IndexFailed);
    assert_eq!(e.kind(), ErrorKind::Internal);
}

#[test]
fn request_malformed_candidate_is_internal() {
    let mut p = to_decoding(2);
    p.step(Event::Embedded(true));
    let mut bad = raw(1, "main");
    bad.payload[5] = PayloadEntry { key: "start_line".to_string(), value: FieldValue::Text("ten".to_string()) };
    let e = fail_of(p.step(Event::Fetched(Some(vec![raw(0, "main"), bad])))).expect("fails");
    assert_eq!(e, SearchError::Decode(DecodeError::NotNumeric(Field::StartLine)));
    assert_eq!(e.kind(), ErrorKind::Internal);
}

#[test]
fn request_mismatched_similarities_fail() {
    let mut p = to_decoding(2);
    p.step(Event::Embedded(true));
    p.step(Event::Fetched(Some(vec![raw(0, "main"), raw(1, "main")])));
    let e = fail_of(p.step(Event::Measured {
        similarity_bits: vec![0, 0],
        close: vec![vec![false, false], vec![false]],
    }))
    .expect("fails");
    assert_eq!(e, SearchError::SimilarityMismatch);
}

#[test]
fn request_near_identical_revisions_keep_higher_scored() {
    let mut p = to_decoding(5);
    p.step(Event::Embedded(true));
    let mut v2 = raw(0, "v2");
    v2.payload[4] = text("snippet", "fn parse_json_0() {}");
    p.step(Event::Fetched(Some(vec![raw(0, "v1"), v2, raw(7, "main")])));
    let sims: Vec<u32> = [0.90f32, 0.91, 0.2].iter().map(|s| s.to_bits()).collect();
    let close = vec![vec![false, true, false], vec![true, false, false], vec![false, false, false]];
    match p.step(Event::Measured { similarity_bits: sims, close }) {
        Action::Respond(out) => {
            assert_eq!(out.len(), 2);
            assert_eq!(out[0].repo_ref, "v2");
            assert_eq!(out[1].repo_ref, "main");
        }
        _ => panic!("expected an answer"),
    }
}

#[test]
fn request_fetch_count_saturates() {
    let mut p = Pipeline::new(u64::MAX / 2, DEFAULT_OVERFETCH);
    p.step(Event::Configured(true));
    p.step(Event::Parsed(Some("q".to_string())));
    match p.step(Event::Embedded(true)) {
        Action::Search(n) => assert_eq!(n, u64::MAX),
        _ => panic!("expected a search"),
    }
}

#[test]
fn request_event_out_of_order_fails() {
    let mut p = Pipeline::new(5, DEFAULT_OVERFETCH);
    assert_eq!(fail_of(p.step(Event::Embedded(true))), Some(SearchError::UnexpectedEvent));
}
