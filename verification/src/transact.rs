//! Transactions: open records of scalar fields. At ingestion, every string
//! field matching the provider's embedded-epoch-millisecond date pattern
//! (`/Date(1609459200000)/`) is rewritten to its RFC 3339 form, and fields
//! holding nested structures are discarded.

use vstd::prelude::*;
use vstd::string::*;
use crate::jsonv::json_object_entries;
use crate::outside::{format_utc_seconds, rfc3339_of, rfc3339_definable, url_encoded, url_encode,
    ws_char, char_is_whitespace};
use crate::text::{is_dec_digit, digits_val, all_dec_digits, parse_digits, chars_of, dec_signed,
    i64_to_string, digits_end, lemma_digits_end};

verus! {

/// A scalar field value of a transaction row. Numbers keep the exact
/// decimal text the server sent.
#[derive(Debug, Clone, PartialEq, Eq)]
pub enum FieldValue {
    Text(String),
    Number(String),
    Boolean(bool),
    Null,
}

/// One transaction row: field name to scalar value, in the server's field
/// order. Nested structures are dropped at ingestion, never modeled.
#[derive(Debug, Clone, PartialEq, Eq)]
pub struct Transaction {
    pub data: Vec<(String, FieldValue)>,
}

/// The date pattern's opening `/Date(` at position `i`.
pub open spec fn date_prefix_at(s: Seq<char>, i: int) -> bool {
    &&& 0 <= i
    &&& i + 6 <= s.len()
    &&& s[i] == '/'
    &&& s[i + 1] == 'D'
    &&& s[i + 2] == 'a'
    &&& s[i + 3] == 't'
    &&& s[i + 4] == 'e'
    &&& s[i + 5] == '('
}

/// The full pattern `/Date(` digits `)/` at position `i`, with at least one
/// digit.
pub open spec fn date_match_at(s: Seq<char>, i: int) -> bool {
    &&& date_prefix_at(s, i)
    &&& digits_end(s, i + 6) > i + 6
    &&& digits_end(s, i + 6) + 2 <= s.len()
    &&& s[digits_end(s, i + 6)] == ')'
    &&& s[digits_end(s, i + 6) + 1] == '/'
}

/// Position of the leftmost match at or after `i`, if any.
pub open spec fn find_date(s: Seq<char>, i: int) -> Option<int>
    decreases s.len() - i when 0 <= i <= s.len()
{
    if i >= s.len() {
        None
    } else if date_match_at(s, i) {
        Some(i)
    } else {
        find_date(s, i + 1)
    }
}

/// The milliseconds denoted by the digit run of the match at `i`.
pub open spec fn date_match_value(s: Seq<char>, i: int) -> nat {
    digits_val(s.subrange(i + 6, digits_end(s, i + 6)))
}

/// Checks the pattern at one position, yielding the end of its digit run.
fn match_end_at(v: &Vec<char>, i: usize) -> (r: Option<usize>)
    requires
        i < v@.len(),
    ensures
        r matches Some(e) ==> date_match_at(v@, i as int) && e == digits_end(v@, i as int + 6),
        r is None ==> !date_match_at(v@, i as int),
{
    let n = v.len();
    if n - i < 8 {
        // Too short for `/Date(` plus one digit plus `)/`.
        proof {
            if date_match_at(v@, i as int) {
                lemma_digits_end(v@, i as int + 6);
            }
        }
        return None;
    }
    if !(v[i] == '/' && v[i + 1] == 'D' && v[i + 2] == 'a' && v[i + 3] == 't' && v[i + 4] == 'e'
        && v[i + 5] == '(') {
        return None;
    }
    let mut j: usize = i + 6;
    while j < n && v[j] >= '0' && v[j] <= '9'
        invariant
            n == v@.len(),
            i + 6 <= j <= n,
            digits_end(v@, i as int + 6) == digits_end(v@, j as int),
        decreases n - j,
    {
        j = j + 1;
    }
    proof {
        assert(digits_end(v@, j as int) == j);
        assert(digits_end(v@, i as int + 6) == j);
    }
    let e = j;
    if e == i + 6 {
        return None;
    }
    if n - e < 2 {
        return None;
    }
    if v[e] == ')' && v[e + 1] == '/' {
        Some(e)
    } else {
        None
    }
}

/// Scans a string for the leftmost date-pattern match and reads its
/// millisecond value; `None` when no match exists or the value exceeds
/// `i64::MAX` (such a field is left untouched).
pub fn scan_date_millis(v: &Vec<char>) -> (r: Option<i64>)
    ensures
        find_date(v@, 0) is None ==> r is None,
        (match find_date(v@, 0) {
            Some(i) => {
                if date_match_value(v@, i) <= i64::MAX as nat {
                    r == Some((date_match_value(v@, i) as i64))
                } else {
                    r is None
                }
            },
            None => r is None,
        }),
{
    let n = v.len();
    let mut i: usize = 0;
    while i < n
        invariant
            n == v@.len(),
            i <= n,
            find_date(v@, 0) == find_date(v@, i as int),
        decreases n - i,
    {
        match match_end_at(v, i) {
            Some(e) => {
                proof {
                    assert(find_date(v@, i as int) == Some(i as int));
                    lemma_digits_end(v@, i as int + 6);
                    assert(all_dec_digits(v@.subrange(i as int + 6, e as int)));
                }
                match parse_digits(v, i + 6, e) {
                    Some(val) => {
                        return Some(val as i64);
                    },
                    None => {
                        // The digit run denotes a value beyond `i64::MAX`.
                        return None;
                    },
                }
            },
            None => {
                proof {
                    assert(find_date(v@, i as int) == find_date(v@, i as int + 1));
                }
                i = i + 1;
            },
        }
    }
    proof {
        assert(find_date(v@, i as int) is None);
    }
    None
}

/// How an ingested field value relates to the raw one: a string whose
/// leftmost date match denotes `ms` milliseconds is rewritten to the
/// RFC 3339 form of `ms / 1000` seconds, and kept only when that timestamp
/// lies outside the formatter's range; everything else is kept as is.
pub open spec fn normalized_rel(v: FieldValue, r: FieldValue) -> bool {
    match v {
        FieldValue::Text(s) => (match find_date(s@, 0) {
            None => r == v,
            Some(i) => {
                let ms = date_match_value(s@, i);
                if ms <= i64::MAX as nat {
                    if rfc3339_definable((ms / 1000) as int) {
                        r matches FieldValue::Text(t) && t@ == rfc3339_of((ms / 1000) as int)
                    } else {
                        r == v
                    }
                } else {
                    r == v
                }
            },
        }),
        _ => r == v,
    }
}

/// Applies a formatted timestamp to a field when the formatter produced
/// one; keeps the field otherwise.
pub fn rewrite_with(value: FieldValue, formatted: Option<String>) -> (r: FieldValue)
    ensures
        (formatted matches Some(t) ==> r == FieldValue::Text(t)),
        formatted is None ==> r == value,
{
    match formatted {
        Some(t) => FieldValue::Text(t),
        None => value,
    }
}

/// Normalizes one field value as ingestion requires.
pub fn normalize_value(value: FieldValue) -> (r: FieldValue)
    ensures
        normalized_rel(value, r),
{
    let is_text = matches!(&value, FieldValue::Text(_));
    if !is_text {
        return value;
    }
    let ms_opt = match &value {
        FieldValue::Text(s) => {
            let cs = chars_of(s.as_str());
            scan_date_millis(&cs)
        },
        _ => None,
    };
    match ms_opt {
        Some(ms) => {
            let secs = ms / 1000;
            let formatted = format_utc_seconds(secs);
            rewrite_with(value, formatted)
        },
        None => value,
    }
}

/// Normalizes every field of a row, keeping names and field order.
pub fn normalize_fields(fields: Vec<(String, FieldValue)>) -> (t: Transaction)
    ensures
        t.data@.len() == fields@.len(),
        forall|i: int| 0 <= i < fields@.len() ==> (#[trigger] t.data@[i]).0 == fields@[i].0
            && normalized_rel(fields@[i].1, t.data@[i].1),
{
    let mut fields = fields;
    let mut out: Vec<(String, FieldValue)> = Vec::new();
    let ghost all = fields@;
    while fields.len() > 0
        invariant
            out@.len() + fields@.len() == all.len(),
            fields@ =~= all.skip(out@.len() as int),
            forall|k: int| 0 <= k < out@.len() ==> (#[trigger] out@[k]).0 == all[k].0
                && normalized_rel(all[k].1, out@[k].1),
        decreases fields@.len(),
    {
        let ghost done = out@.len() as int;
        let pair = fields.remove(0);
        proof {
            assert(pair == all[done]);
            assert(fields@ =~= all.skip(done + 1));
        }
        let (k, v) = pair;
        let nv = normalize_value(v);
        out.push((k, nv));
    }
    Transaction { data: out }
}

/// Relies on serde_json::Value's variants: a scalar is copied out (a number
/// as its decimal text); a nested object or array yields `None`.
#[verifier::external_body]
fn field_scalar(v: &serde_json::Value) -> (r: Option<FieldValue>)
{
    match v {
        serde_json::Value::Null => Some(FieldValue::Null),
        serde_json::Value::Bool(b) => Some(FieldValue::Boolean(*b)),
        serde_json::Value::Number(n) => Some(FieldValue::Number(n.to_string())),
        serde_json::Value::String(s) => Some(FieldValue::Text(s.clone())),
        serde_json::Value::Object(_) => None,
        serde_json::Value::Array(_) => None,
    }
}

/// What remains of a probed row: the fields whose probe yielded a scalar,
/// in order; a field probed as nested is absent.
pub open spec fn kept_fields(s: Seq<(String, Option<FieldValue>)>) -> Seq<(String, FieldValue)>
    decreases s.len(),
{
    if s.len() == 0 {
        Seq::empty()
    } else {
        let rest = kept_fields(s.drop_first());
        match s.first().1 {
            Some(v) => seq![(s.first().0, v)] + rest,
            None => rest,
        }
    }
}

/// Keeps exactly the fields whose probe yielded a scalar, in order,
/// dropping the rest: the verified half of nested-structure removal.
pub fn row_fields(entries: Vec<(String, Option<FieldValue>)>) -> (r: Vec<(String, FieldValue)>)
    ensures
        r@ == kept_fields(entries@),
{
    let ghost all = entries@;
    let mut entries = entries;
    let mut out: Vec<(String, FieldValue)> = Vec::new();
    proof {
        assert(all.skip(0) =~= all);
    }
    while entries.len() > 0
        invariant
            entries@ =~= all.skip(all.len() - entries@.len()),
            entries@.len() <= all.len(),
            kept_fields(all) =~= out@ + kept_fields(entries@),
        decreases entries@.len(),
    {
        let ghost before = entries@;
        let pair = entries.remove(0);
        proof {
            assert(pair == before.first());
            assert(entries@ =~= before.drop_first());
            assert(all.len() - entries@.len() == all.len() - before.len() + 1);
            assert(entries@ =~= all.skip(all.len() - entries@.len()));
        }
        match pair.1 {
            Some(v) => {
                out.push((pair.0, v));
                proof {
                    assert(kept_fields(before) =~= seq![(before.first().0, before.first().1->0)]
                        + kept_fields(before.drop_first()));
                    assert(kept_fields(all) =~= out@ + kept_fields(entries@));
                }
            },
            None => {
                proof {
                    assert(kept_fields(before) =~= kept_fields(before.drop_first()));
                }
            },
        }
    }
    proof {
        assert(kept_fields(entries@) =~= Seq::<(String, FieldValue)>::empty());
        assert(out@ =~= kept_fields(all));
    }
    out
}

/// Ingests one server row: `None` for a non-object row (such rows are
/// skipped), otherwise the row's scalar fields — exactly those the probe
/// kept, via `row_fields` — normalized by `normalize_fields`; nested
/// structures are discarded.
pub fn transaction_from_value(v: &serde_json::Value) -> (r: Option<Transaction>)
{
    let entries = match json_object_entries(v) {
        Some(e) => e,
        None => {
            return None;
        },
    };
    let mut probed: Vec<(String, Option<FieldValue>)> = Vec::new();
    let mut i: usize = 0;
    while i < entries.len()
        decreases entries@.len() - i,
    {
        let (k, val) = &entries[i];
        probed.push((k.clone(), field_scalar(val)));
        i = i + 1;
    }
    Some(normalize_fields(row_fields(probed)))
}

/// Ingests every row of one page, skipping non-object rows: at most one
/// transaction per row.
pub fn transactions_of_page(vals: &Vec<serde_json::Value>) -> (r: Vec<Transaction>)
    ensures
        r@.len() <= vals@.len(),
{
    let mut out: Vec<Transaction> = Vec::new();
    let mut i: usize = 0;
    while i < vals.len()
        invariant
            i <= vals@.len(),
            out@.len() <= i,
        decreases vals@.len() - i,
    {
        match transaction_from_value(&vals[i]) {
            Some(t) => out.push(t),
            None => {},
        }
        i = i + 1;
    }
    out
}

/// Every character of `s` is whitespace (vacuously true of the empty
/// string).
pub open spec fn spec_blank(s: Seq<char>) -> bool {
    forall|i: int| 0 <= i < s.len() ==> ws_char(#[trigger] s[i])
}

/// Exec check for `spec_blank`.
pub fn is_blank(s: &str) -> (r: bool)
    ensures
        r == spec_blank(s@),
{
    let n = s.unicode_len();
    let mut i: usize = 0;
    while i < n
        invariant
            n == s@.len(),
            i <= n,
            forall|k: int| 0 <= k < i ==> ws_char(#[trigger] s@[k]),
        decreases n - i,
    {
        if !char_is_whitespace(s.get_char(i)) {
            return false;
        }
        i = i + 1;
    }
    true
}

/// The query-string clause for an optional filter expression: empty when
/// the filter is absent or blank, otherwise `&$filter=` followed by the
/// percent-encoded expression.
pub fn filter_clause(filter: &Option<String>) -> (r: String)
    ensures
        (match filter {
            None => r@ == Seq::<char>::empty(),
            Some(f) => {
                if spec_blank(f@) {
                    r@ == Seq::<char>::empty()
                } else {
                    r@ == "&$filter="@ + url_encoded(f@)
                }
            },
        }),
{
    match filter {
        None => {
            let r = String::new();
            r
        },
        Some(f) => {
            if is_blank(f.as_str()) {
                let r = String::new();
                r
            } else {
                let mut r = String::from_str("&$filter=");
                let enc = url_encode(f.as_str());
                r.append(enc.as_str());
                r
            }
        },
    }
}

/// The columns every transaction query selects.
pub open spec fn transaction_columns() -> Seq<char> {
    "AccountCode,AccountName,AmountDC,AmountFC,AmountVATBaseFC,AmountVATFC,AssetCode,AssetDescription,CostCenter,CostCenterDescription,CostUnit,CostUnitDescription,CreatorFullName,Currency,CustomField,Description,Division,Document,DocumentNumber,DocumentSubject,DueDate,EntryNumber,ExchangeRate,ExternalLinkDescription,ExternalLinkReference,ExtraDutyAmountFC,ExtraDutyPercentage,FinancialPeriod,FinancialYear,GLAccountCode,GLAccountDescription,InvoiceNumber,Item,ItemCode,ItemDescription,JournalCode,JournalDescription,LineType,Modified,ModifierFullName,Notes,OrderNumber,PaymentDiscountAmount,PaymentReference,Project,ProjectCode,ProjectDescription,Quantity,SerialNumber,ShopOrder,Status,Subscription,SubscriptionDescription,TrackingNumber,TrackingNumberDescription,Type,VATCode,VATCodeDescription,VATPercentage,VATType,YourRef"@
}

/// Path of the transaction listing for `division` with an already-built
/// filter clause.
pub fn transactions_path(division: i32, clause: &str) -> (r: String)
    ensures
        r@ == "/v1/"@ + dec_signed(division as int)
            + "/bulk/Financial/TransactionLines?$select="@ + transaction_columns() + clause@,
{
    let mut p = String::from_str("/v1/");
    let d = i64_to_string(division as i64);
    p.append(d.as_str());
    p.append("/bulk/Financial/TransactionLines?$select=");
    p.append(
        "AccountCode,AccountName,AmountDC,AmountFC,AmountVATBaseFC,AmountVATFC,AssetCode,AssetDescription,CostCenter,CostCenterDescription,CostUnit,CostUnitDescription,CreatorFullName,Currency,CustomField,Description,Division,Document,DocumentNumber,DocumentSubject,DueDate,EntryNumber,ExchangeRate,ExternalLinkDescription,ExternalLinkReference,ExtraDutyAmountFC,ExtraDutyPercentage,FinancialPeriod,FinancialYear,GLAccountCode,GLAccountDescription,InvoiceNumber,Item,ItemCode,ItemDescription,JournalCode,JournalDescription,LineType,Modified,ModifierFullName,Notes,OrderNumber,PaymentDiscountAmount,PaymentReference,Project,ProjectCode,ProjectDescription,Quantity,SerialNumber,ShopOrder,Status,Subscription,SubscriptionDescription,TrackingNumber,TrackingNumberDescription,Type,VATCode,VATCodeDescription,VATPercentage,VATType,YourRef",
    );
    p.append(clause);
    p
}

/// Path of the count probe for the same listing: best-effort, issued before
/// the main loop.
pub fn transactions_count_path(division: i32, clause: &str) -> (r: String)
    ensures
        r@ == "/v1/"@ + dec_signed(division as int) + "/bulk/Financial/TransactionLines/$count"@
            + clause@,
{
    let mut p = String::from_str("/v1/");
    let d = i64_to_string(division as i64);
    p.append(d.as_str());
    p.append("/bulk/Financial/TransactionLines/$count");
    p.append(clause);
    p
}

} // verus!
