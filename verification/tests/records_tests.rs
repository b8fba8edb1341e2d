use exact_client::errors::ClientError;
use exact_client::api::{interpret_api_response, interpret_token_response, decode_envelope,
    extract_count, extract_current_division, resolve_current_division, choose_division};
use exact_client::divisions::{Division, StrProbe, sort_divisions, decode_division,
    decode_division_records, division_from_fields};
use exact_client::transact::{FieldValue, scan_date_millis, normalize_value, transaction_from_value,
    transactions_of_page, row_fields, filter_clause, transactions_path, transactions_count_path,
    is_blank};

fn json(text: &str) -> serde_json::Value {
    serde_json::from_str(text).unwrap()
}

fn division(name: &str, descr: &str) -> Division {
    Division {
        code: 1,
        customer_name: String::from(name),
        description: String::from(descr),
        customer: None,
        customer_code: None,
    }
}

#[test]
fn divisions_sort_by_name_then_description() {
    let v = vec![
        division("Beta", "x"),
        division("Alpha", "z"),
        division("Alpha", "a"),
        division("Beta", "a"),
    ];
    let sorted = sort_divisions(v);
    let keys: Vec<String> = sorted
        .iter()
        .map(|d| format!("{}{}", d.customer_name, d.description))
        .collect();
    assert_eq!(keys, vec!["Alphaa", "Alphaz", "Betaa", "Betax"]);
}

#[test]
fn division_decoding_reads_all_fields() {
    let v = json(
        "{\"Code\": 802, \"CustomerName\": \"Acme\", \"Description\": \"Main\", \
         \"Customer\": \"c-1\", \"CustomerCode\": null}",
    );
    let d = decode_division(&v).unwrap();
    assert_eq!(d.code, 802);
    assert_eq!(d.customer_name.as_str(), "Acme");
    assert_eq!(d.description.as_str(), "Main");
    assert_eq!(d.customer.as_deref(), Some("c-1"));
    assert!(d.customer_code.is_none());
}

#[test]
fn division_missing_field_is_a_decode_failure() {
    let v = json("{\"CustomerName\": \"Acme\", \"Description\": \"Main\"}");
    let e = decode_division(&v).unwrap_err();
    assert_eq!(e, ClientError::Decode(String::from("Failed to parse divisions")));
    let vals = vec![v];
    assert!(decode_division_records(&vals).is_err());
}

#[test]
fn date_scanner_finds_the_embedded_pattern() {
    let cs: Vec<char> = "/Date(1609459200000)/".chars().collect();
    assert_eq!(scan_date_millis(&cs), Some(1609459200000));
    let cs: Vec<char> = "before /Date(42)/ after".chars().collect();
    assert_eq!(scan_date_millis(&cs), Some(42));
    let cs: Vec<char> = "/Date()/".chars().collect();
    assert_eq!(scan_date_millis(&cs), None);
    let cs: Vec<char> = "no dates here".chars().collect();
    assert_eq!(scan_date_millis(&cs), None);
    // A value beyond i64 range is left alone.
    let cs: Vec<char> = "/Date(99999999999999999999999)/".chars().collect();
    assert_eq!(scan_date_millis(&cs), None);
}

#[test]
fn date_fields_are_rewritten_to_rfc3339() {
    let v = FieldValue::Text(String::from("/Date(1609459200000)/"));
    let r = normalize_value(v);
    assert_eq!(r, FieldValue::Text(String::from("2021-01-01T00:00:00+00:00")));
    // Non-matching strings and other scalars pass through unchanged.
    let keep = FieldValue::Text(String::from("2021-01-01"));
    assert_eq!(normalize_value(keep.clone()), keep);
    let b = FieldValue::Boolean(true);
    assert_eq!(normalize_value(b.clone()), b);
}

#[test]
fn nested_fields_are_dropped_and_dates_normalized() {
    let row = json(
        "{\"DueDate\": \"/Date(1609459200000)/\", \"Nested\": {\"x\": 1}, \
         \"Amount\": 12.5, \"Note\": \"hi\", \"Flag\": true, \"Missing\": null}",
    );
    let t = transaction_from_value(&row).unwrap();
    let get = |key: &str| {
        t.data.iter().find(|(k, _)| k == key).map(|(_, v)| v.clone())
    };
    assert_eq!(get("DueDate"), Some(FieldValue::Text(String::from("2021-01-01T00:00:00+00:00"))));
    assert_eq!(get("Nested"), None);
    assert_eq!(get("Amount"), Some(FieldValue::Number(String::from("12.5"))));
    assert_eq!(get("Note"), Some(FieldValue::Text(String::from("hi"))));
    assert_eq!(get("Flag"), Some(FieldValue::Boolean(true)));
    assert_eq!(get("Missing"), Some(FieldValue::Null));
}

#[test]
fn non_object_rows_are_skipped() {
    let vals = vec![json("3"), json("{\"A\": 1}"), json("[1,2]")];
    let ts = transactions_of_page(&vals);
    assert_eq!(ts.len(), 1);
    assert_eq!(ts[0].data.len(), 1);
}

#[test]
fn blank_filters_build_no_clause() {
    assert_eq!(filter_clause(&None).as_str(), "");
    assert_eq!(filter_clause(&Some(String::from("   \t\n"))).as_str(), "");
    assert!(is_blank(""));
    assert!(!is_blank(" x "));
}

#[test]
fn filters_are_percent_encoded() {
    let clause = filter_clause(&Some(String::from("Amount gt 100")));
    assert_eq!(clause.as_str(), "&$filter=Amount%20gt%20100");
}

#[test]
fn transaction_paths_embed_division_and_clause() {
    let p = transactions_path(802, "&$filter=x");
    assert!(p.as_str().starts_with("/v1/802/bulk/Financial/TransactionLines?$select=AccountCode,"));
    assert!(p.as_str().ends_with(",YourRef&$filter=x"));
    assert_eq!(
        transactions_count_path(802, "&$filter=x").as_str(),
        "/v1/802/bulk/Financial/TransactionLines/$count&$filter=x"
    );
    assert_eq!(
        transactions_count_path(7, "").as_str(),
        "/v1/7/bulk/Financial/TransactionLines/$count"
    );
}

#[test]
fn non_2xx_statuses_are_api_errors() {
    let e = interpret_api_response(404, String::from("not here")).unwrap_err();
    assert_eq!(e, ClientError::Api { status: 404, body: String::from("not here") });
}

#[test]
fn error_bodies_behind_http_200_are_failures() {
    let e = interpret_api_response(200, String::from("{\"error\": \"broken\"}")).unwrap_err();
    assert_eq!(e, ClientError::ApiBody { message: String::from("API error: \"broken\"") });
}

#[test]
fn malformed_bodies_are_decode_errors() {
    let e = interpret_api_response(200, String::from("not json")).unwrap_err();
    assert!(matches!(e, ClientError::Decode(_)));
}

#[test]
fn good_responses_decode() {
    let v = interpret_api_response(200, String::from("{\"d\": 1}")).unwrap();
    assert_eq!(v, json("{\"d\": 1}"));
}

#[test]
fn token_exchange_errors_are_auth_failures() {
    let e = interpret_token_response("{\"error\": \"invalid_grant\"}").unwrap_err();
    assert_eq!(e, ClientError::Auth(String::from("Token error: \"invalid_grant\"")));
    let e = interpret_token_response("garbage").unwrap_err();
    assert!(matches!(e, ClientError::Decode(_)));
}

#[test]
fn token_exchange_grants_carry_both_tokens() {
    let g = interpret_token_response("{\"access_token\": \"a\", \"refresh_token\": \"r\"}")
        .unwrap();
    assert_eq!(g.access_token.as_deref(), Some("a"));
    assert_eq!(g.refresh_token.as_deref(), Some("r"));
    let g = interpret_token_response("{}").unwrap();
    assert!(g.access_token.is_none());
    assert!(g.refresh_token.is_none());
}

#[test]
fn envelopes_yield_rows_and_cursor() {
    let v = json("{\"d\": {\"results\": [1, 2], \"__next\": \"https://api/next\"}}");
    let (rows, next) = decode_envelope(&v).unwrap();
    assert_eq!(rows.len(), 2);
    assert_eq!(next.as_deref(), Some("https://api/next"));
    let v = json("{\"d\": {\"results\": []}}");
    let (rows, next) = decode_envelope(&v).unwrap();
    assert!(rows.is_empty());
    assert!(next.is_none());
    let v = json("{\"nope\": 1}");
    assert!(decode_envelope(&v).is_err());
}

#[test]
fn count_probe_reads_plain_integers() {
    assert_eq!(extract_count(&json("42")), Some(42));
    assert_eq!(extract_count(&json("\"42\"")), None);
}

#[test]
fn division_choice_prefers_the_first_shape_and_checks_range() {
    assert_eq!(choose_division(Some(1), Some(2), Some(3)), Some(1));
    assert_eq!(choose_division(None, Some(2), Some(3)), Some(2));
    assert_eq!(choose_division(None, None, Some(3)), Some(3));
    assert_eq!(choose_division(None, None, None), None);
    assert_eq!(choose_division(Some(i64::MAX), Some(2), None), None);
}

#[test]
fn division_fields_decide_exactly() {
    let ok = division_from_fields(
        Some(7),
        Some(String::from("Acme")),
        Some(String::from("Main")),
        StrProbe::IsNull,
        StrProbe::Present(String::from("c-9")),
    )
    .unwrap();
    assert_eq!(ok.code, 7);
    assert!(ok.customer.is_none());
    assert_eq!(ok.customer_code.as_deref(), Some("c-9"));
    let bad = division_from_fields(
        Some(7),
        Some(String::from("Acme")),
        Some(String::from("Main")),
        StrProbe::NotText,
        StrProbe::Absent,
    );
    assert_eq!(bad.unwrap_err(), ClientError::Decode(String::from("Failed to parse divisions")));
    let out_of_range =
        division_from_fields(Some(i64::MAX), Some(String::new()), Some(String::new()),
            StrProbe::Absent, StrProbe::Absent);
    assert!(out_of_range.is_err());
}

#[test]
fn probed_rows_keep_exactly_the_scalars() {
    let probed = vec![
        (String::from("a"), Some(FieldValue::Boolean(true))),
        (String::from("b"), None),
        (String::from("c"), Some(FieldValue::Null)),
    ];
    let kept = row_fields(probed);
    assert_eq!(
        kept,
        vec![
            (String::from("a"), FieldValue::Boolean(true)),
            (String::from("c"), FieldValue::Null),
        ]
    );
}

#[test]
fn current_division_is_found_in_all_shapes() {
    let wrapped = json("{\"d\": {\"results\": [{\"CurrentDivision\": 11}]}}");
    assert_eq!(extract_current_division(&wrapped), Some(11));
    let bare = json("{\"CurrentDivision\": 22}");
    assert_eq!(extract_current_division(&bare), Some(22));
    let nested = json("{\"d\": {\"CurrentDivision\": 33}}");
    assert_eq!(extract_current_division(&nested), Some(33));
    let none = json("{\"d\": {}}");
    assert_eq!(extract_current_division(&none), None);
    assert_eq!(resolve_current_division(&wrapped).unwrap(), 11);
    assert_eq!(
        resolve_current_division(&none).unwrap_err(),
        ClientError::Decode(String::from("Could not find CurrentDivision in response"))
    );
}
