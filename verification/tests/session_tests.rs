use exact_client::errors::ClientError;
use exact_client::session::{SessionState, StaticConfig, divisions_path, REFRESH_MARGIN_SECS};
use exact_client::token::{TokenRecord, encode_token_record, decode_token_record};
use exact_client::text::{u64_to_string, i64_to_string};

fn config() -> StaticConfig {
    StaticConfig {
        api: String::from("https://start.exactonline.nl/api"),
        client_id: String::from("client-id"),
        client_secret: String::from("client-secret"),
        redirect_uri: String::from("http://localhost/callback"),
    }
}

fn record(division: Option<i32>) -> TokenRecord {
    TokenRecord {
        access_token: String::from("acc-token-123"),
        refresh_token: String::from("ref-token-456"),
        refresh_at: 1700000570,
        current_division: division,
    }
}

#[test]
fn decimal_rendering_exact() {
    assert_eq!(u64_to_string(0).as_str(), "0");
    assert_eq!(u64_to_string(42).as_str(), "42");
    assert_eq!(u64_to_string(1700000570).as_str(), "1700000570");
    assert_eq!(i64_to_string(-15).as_str(), "-15");
    assert_eq!(i64_to_string(i64::MIN).as_str(), "-9223372036854775808");
}

#[test]
fn token_record_round_trips() {
    let rec = record(Some(123456));
    let text = encode_token_record(&rec);
    let back = decode_token_record(text.as_str()).expect("canonical text must decode");
    assert_eq!(back, rec);
}

#[test]
fn token_record_round_trips_without_division() {
    let rec = record(None);
    let text = encode_token_record(&rec);
    let back = decode_token_record(text.as_str()).expect("canonical text must decode");
    assert_eq!(back, rec);
}

#[test]
fn token_record_round_trips_with_escapes() {
    let mut rec = record(Some(7));
    rec.access_token = String::from("a\"b\\c");
    rec.refresh_token = String::from("\\\\\"\"");
    let text = encode_token_record(&rec);
    let back = decode_token_record(text.as_str()).expect("canonical text must decode");
    assert_eq!(back, rec);
}

#[test]
fn token_record_encoding_is_json_shaped() {
    let rec = record(Some(9));
    let text = encode_token_record(&rec);
    assert_eq!(
        text.as_str(),
        "{\"access_token\":\"acc-token-123\",\"refresh_token\":\"ref-token-456\",\"refresh_at\":1700000570,\"current_division\":9}"
    );
    let parsed: serde_json::Value = serde_json::from_str(text.as_str()).unwrap();
    assert_eq!(parsed["access_token"], serde_json::Value::String(String::from("acc-token-123")));
    assert_eq!(parsed["refresh_at"], serde_json::Value::from(1700000570i64));
}

#[test]
fn token_record_round_trips_at_the_edges() {
    let mut rec = record(None);
    rec.refresh_at = 0;
    rec.access_token = String::new();
    rec.refresh_token = String::new();
    let back = decode_token_record(encode_token_record(&rec).as_str()).unwrap();
    assert_eq!(back, rec);
    rec.refresh_at = i64::MAX;
    rec.current_division = Some(i32::MAX);
    let back = decode_token_record(encode_token_record(&rec).as_str()).unwrap();
    assert_eq!(back, rec);
}

#[test]
fn garbage_does_not_decode() {
    assert!(decode_token_record("").is_none());
    assert!(decode_token_record("{}").is_none());
    assert!(decode_token_record("{\"access_token\":\"a\"").is_none());
}

#[test]
fn new_session_loads_persisted_record() {
    let s = SessionState::new(config(), Some(record(Some(3))));
    assert!(s.is_authenticated());
    assert_eq!(s.refresh_at, 1700000570);
    assert_eq!(s.current_division, Some(3));
}

#[test]
fn new_session_without_record_is_unauthenticated() {
    let s = SessionState::new(config(), None);
    assert!(!s.is_authenticated());
    assert_eq!(s.refresh_at, 0);
}

#[test]
fn auth_url_is_exact() {
    let s = SessionState::new(config(), None);
    assert_eq!(
        s.get_auth_url().as_str(),
        "https://start.exactonline.nl/api/oauth2/auth?client_id=client-id&redirect_uri=http://localhost/callback&response_type=code"
    );
}

#[test]
fn refresh_not_due_is_a_no_op() {
    let s = SessionState::new(config(), Some(record(Some(1))));
    // The deadline is in the future: no request to perform, tokens untouched.
    let plan = s.refresh_request(1700000569).unwrap();
    assert!(plan.is_none());
    assert!(!s.needs_refresh(1700000569));
    assert_eq!(s.access_token.as_deref(), Some("acc-token-123"));
    assert_eq!(s.refresh_token.as_deref(), Some("ref-token-456"));
}

#[test]
fn refresh_due_builds_the_exchange() {
    let s = SessionState::new(config(), Some(record(Some(1))));
    let plan = s.refresh_request(1700000570).unwrap();
    let req = plan.expect("refresh must be requested at the deadline");
    assert_eq!(req.url.as_str(), "https://start.exactonline.nl/api/oauth2/token");
    let params: Vec<(String, String)> = req.params;
    assert_eq!(params.len(), 4);
    assert_eq!(params[0], (String::from("grant_type"), String::from("refresh_token")));
    assert_eq!(params[1], (String::from("refresh_token"), String::from("ref-token-456")));
    assert_eq!(params[2], (String::from("client_id"), String::from("client-id")));
    assert_eq!(params[3], (String::from("client_secret"), String::from("client-secret")));
}

#[test]
fn refresh_due_without_token_asks_for_reauthentication() {
    let mut s = SessionState::new(config(), Some(record(None)));
    s.refresh_token = None;
    let e = s.refresh_request(1700000571).unwrap_err();
    assert_eq!(e, ClientError::Auth(String::from("No refresh token")));
}

#[test]
fn auth_code_request_carries_the_code() {
    let s = SessionState::new(config(), None);
    let req = s.auth_code_request("the-code");
    assert_eq!(req.url.as_str(), "https://start.exactonline.nl/api/oauth2/token");
    assert_eq!(req.params.len(), 5);
    assert_eq!(req.params[0], (String::from("grant_type"), String::from("authorization_code")));
    assert_eq!(req.params[4], (String::from("code"), String::from("the-code")));
}

#[test]
fn grant_sets_deadline_to_now_plus_margin() {
    let mut s = SessionState::new(config(), None);
    s.apply_token_grant(Some(String::from("a2")), Some(String::from("r2")), 1000);
    assert_eq!(s.refresh_at, 1000 + REFRESH_MARGIN_SECS);
    assert_eq!(s.refresh_at, 1570);
    assert_eq!(s.access_token.as_deref(), Some("a2"));
    assert_eq!(s.refresh_token.as_deref(), Some("r2"));
}

#[test]
fn logout_clears_everything() {
    let mut s = SessionState::new(config(), Some(record(Some(5))));
    assert!(s.is_authenticated());
    s.logout();
    assert!(!s.is_authenticated());
    assert!(s.access_token.is_none());
    assert!(s.refresh_token.is_none());
    assert_eq!(s.refresh_at, 0);
    assert!(s.current_division.is_none());
    // Idempotent: a second logout changes nothing and does not fail.
    s.logout();
    assert!(!s.is_authenticated());
}

#[test]
fn token_record_errors_name_the_missing_token() {
    let mut s = SessionState::new(config(), None);
    assert_eq!(s.token_record().unwrap_err(), ClientError::Auth(String::from("No access token")));
    s.access_token = Some(String::from("a"));
    assert_eq!(s.token_record().unwrap_err(), ClientError::Auth(String::from("No refresh token")));
    s.refresh_token = Some(String::from("r"));
    let rec = s.token_record().unwrap();
    assert_eq!(rec.access_token.as_str(), "a");
    assert_eq!(rec.refresh_token.as_str(), "r");
}

#[test]
fn api_request_attaches_bearer_token() {
    let mut s = SessionState::new(config(), Some(record(None)));
    let req = s.api_request("/v1/current/Me").unwrap();
    assert_eq!(req.url.as_str(), "https://start.exactonline.nl/api/v1/current/Me");
    assert_eq!(req.bearer.as_str(), "Bearer acc-token-123");
    s.logout();
    let e = s.api_request("/v1/current/Me").unwrap_err();
    assert_eq!(e, ClientError::Auth(String::from("Not authenticated")));
}

#[test]
fn error_categories_name_the_taxonomy() {
    assert_eq!(ClientError::Cancelled.category(), "cancelled");
    assert_eq!(ClientError::Auth(String::from("x")).category(), "auth");
    assert_eq!(ClientError::Transport(String::from("x")).category(), "transport");
    assert_eq!(ClientError::Api { status: 500, body: String::new() }.category(), "api");
    assert_eq!(ClientError::Decode(String::from("x")).category(), "decode");
    assert_eq!(ClientError::Config(String::from("x")).category(), "config");
    assert_eq!(ClientError::ApiBody { message: String::new() }.category(), "api");
}

#[test]
fn missing_division_names_the_remedy() {
    let mut s = SessionState::new(config(), Some(record(Some(8))));
    assert_eq!(s.require_division().unwrap(), 8);
    s.logout();
    assert_eq!(
        s.require_division().unwrap_err(),
        ClientError::Auth(String::from("No current division found. Please authenticate first."))
    );
}

#[test]
fn divisions_path_is_exact() {
    assert_eq!(
        divisions_path(802).as_str(),
        "/v1/802/system/Divisions?$select=Code,Customer,CustomerCode,CustomerName,Description"
    );
}
