//! Tests of the pure helpers: remote-state mapping, substring search,
//! not-found detection, polymorphic count decoding, and source extraction.

use storesync::decode::{decode_count, parse_i64_or_zero, CountValue};
use storesync::gemini::{
    extract_sources, Candidate, Content, GenerateContentResponse, GroundingChunk,
    GroundingMetadata, RetrievedContext,
};
use storesync::model::DocStatus;
use storesync::polling::map_gemini_state_to_status;
use storesync::sync::is_not_found_reply;
use storesync::text::{str_contains, str_contains_ci, str_eq};

#[test]
fn state_mapping_handles_the_known_names() {
    assert_eq!(map_gemini_state_to_status(Some("STATE_ACTIVE")), DocStatus::Completed);
    assert_eq!(map_gemini_state_to_status(Some("ACTIVE")), DocStatus::Completed);
    assert_eq!(map_gemini_state_to_status(Some("STATE_PENDING")), DocStatus::Processing);
    assert_eq!(map_gemini_state_to_status(Some("PENDING")), DocStatus::Processing);
    assert_eq!(map_gemini_state_to_status(Some("STATE_FAILED")), DocStatus::Failed);
    assert_eq!(map_gemini_state_to_status(Some("FAILED")), DocStatus::Failed);
}

#[test]
fn state_mapping_is_case_insensitive_and_substring_tolerant() {
    assert_eq!(map_gemini_state_to_status(Some("state_Active_v2")), DocStatus::Completed);
    assert_eq!(map_gemini_state_to_status(Some("now-pending-here")), DocStatus::Processing);
    assert_eq!(map_gemini_state_to_status(Some("FAILURE")), DocStatus::Failed);
    assert_eq!(map_gemini_state_to_status(Some("soFt-fAiLed")), DocStatus::Failed);
}

#[test]
fn state_mapping_defaults_to_completed() {
    assert_eq!(map_gemini_state_to_status(None), DocStatus::Completed);
    assert_eq!(map_gemini_state_to_status(Some("")), DocStatus::Completed);
    assert_eq!(map_gemini_state_to_status(Some("SOMETHING_NEW")), DocStatus::Completed);
}

#[test]
fn active_wins_over_pending_and_failed() {
    // precedence follows the fixed order of the rules
    assert_eq!(map_gemini_state_to_status(Some("active-pending")), DocStatus::Completed);
    assert_eq!(map_gemini_state_to_status(Some("pending-failure")), DocStatus::Processing);
}

#[test]
fn substring_search_finds_and_misses() {
    assert!(str_contains("API error (404): gone", "404"));
    assert!(str_contains("abcabc", "cab"));
    assert!(!str_contains("abc", "abcd"));
    assert!(str_contains("abc", ""));
    assert!(!str_contains("", "a"));
    assert!(str_contains_ci("ABCdef", "cD"));
    assert!(!str_contains_ci("ABCdef", "dc"));
    assert!(str_eq("same", "same"));
    assert!(!str_eq("same", "sam"));
}

#[test]
fn not_found_replies_are_recognised() {
    assert!(is_not_found_reply("API error (404): missing"));
    assert!(is_not_found_reply("status NOT_FOUND from server"));
    assert!(!is_not_found_reply("API error (500): boom"));
    // the check is deliberately case-sensitive, as the wire constants are
    assert!(!is_not_found_reply("not_found"));
}

#[test]
fn count_strings_parse_exactly() {
    assert_eq!(parse_i64_or_zero("0"), 0);
    assert_eq!(parse_i64_or_zero("123"), 123);
    assert_eq!(parse_i64_or_zero("0045"), 45);
    assert_eq!(parse_i64_or_zero("+7"), 7);
    assert_eq!(parse_i64_or_zero("-19"), -19);
    assert_eq!(parse_i64_or_zero("9223372036854775807"), i64::MAX);
    assert_eq!(parse_i64_or_zero("-9223372036854775808"), i64::MIN);
}

#[test]
fn bad_count_strings_decode_to_zero() {
    assert_eq!(parse_i64_or_zero(""), 0);
    assert_eq!(parse_i64_or_zero("-"), 0);
    assert_eq!(parse_i64_or_zero("+"), 0);
    assert_eq!(parse_i64_or_zero("12a"), 0);
    assert_eq!(parse_i64_or_zero("a12"), 0);
    assert_eq!(parse_i64_or_zero(" 5"), 0);
    // one past the ends of the signed range
    assert_eq!(parse_i64_or_zero("9223372036854775808"), 0);
    assert_eq!(parse_i64_or_zero("-9223372036854775809"), 0);
    assert_eq!(parse_i64_or_zero("999999999999999999999999"), 0);
}

#[test]
fn count_values_decode_canonically() {
    assert_eq!(decode_count(&CountValue::Number(41)), 41);
    assert_eq!(decode_count(&CountValue::Text("41".to_string())), 41);
    assert_eq!(decode_count(&CountValue::Text("many".to_string())), 0);
    assert_eq!(decode_count(&CountValue::Absent), 0);
}

fn chunk(title: Option<&str>, uri: Option<&str>) -> GroundingChunk {
    GroundingChunk {
        retrieved_context: Some(RetrievedContext {
            uri: uri.map(|s| s.to_string()),
            title: title.map(|s| s.to_string()),
            text: None,
        }),
    }
}

#[test]
fn sources_deduplicate_and_fall_back_to_uri() {
    let response = GenerateContentResponse {
        candidates: vec![Candidate {
            content: Content { role: "model".to_string(), parts: vec![] },
            finish_reason: None,
            grounding_metadata: Some(GroundingMetadata {
                grounding_chunks: vec![
                    chunk(Some("a.txt"), None),
                    chunk(Some("b.txt"), Some("file://b")),
                    chunk(Some("a.txt"), None),
                    chunk(None, Some("file://c")),
                    GroundingChunk { retrieved_context: None },
                ],
                grounding_supports: vec![],
            }),
        }],
        usage_metadata: None,
    };
    let sources = extract_sources(&response);
    assert_eq!(sources, vec!["a.txt".to_string(), "b.txt".to_string(), "file://c".to_string()]);
}

#[test]
fn no_candidates_means_no_sources() {
    let response = GenerateContentResponse { candidates: vec![], usage_metadata: None };
    assert_eq!(extract_sources(&response).len(), 0);
}

#[test]
fn app_state_toggles_auto_hide_suppression() {
    let mut state = storesync::state::AppState::new();
    assert!(!state.prevent_auto_hide);
    state.set_prevent_auto_hide(true);
    assert!(state.prevent_auto_hide);
}
