//! Divisions: decoding the fixed-shape division records the server returns
//! and the final ordering of the accumulated listing.

use vstd::prelude::*;
use vstd::string::*;
use vstd::multiset::Multiset;
use crate::errors::ClientError;
use crate::jsonv::{json_get, json_as_i64, json_as_string, json_is_null};
use crate::text::{lex_le, str_lex_le, lemma_lex_le_refl, lemma_lex_le_total, lemma_lex_le_trans};

verus! {

/// A provider division: a read-only projection of server data.
#[derive(Debug, Clone, PartialEq, Eq)]
pub struct Division {
    pub code: i32,
    pub customer_name: String,
    pub description: String,
    pub customer: Option<String>,
    pub customer_code: Option<String>,
}

/// The sort key: the concatenation of customer name and description.
pub open spec fn div_key(d: Division) -> Seq<char> {
    d.customer_name@ + d.description@
}

/// Ascending by `div_key`, lexicographically.
pub open spec fn sorted_divisions(s: Seq<Division>) -> bool {
    forall|i: int, j: int| 0 <= i < j < s.len() ==> lex_le(
        div_key(#[trigger] s[i]),
        div_key(#[trigger] s[j]),
    )
}

/// Exec comparison by `div_key`.
pub fn division_le(a: &Division, b: &Division) -> (r: bool)
    ensures
        r == lex_le(div_key(*a), div_key(*b)),
{
    let mut ka = a.customer_name.clone();
    ka.append(a.description.as_str());
    let mut kb = b.customer_name.clone();
    kb.append(b.description.as_str());
    str_lex_le(ka.as_str(), kb.as_str())
}

/// Sorts the accumulated listing ascending by the concatenation of customer
/// name and description: the result is ordered and holds exactly the given
/// records.
pub fn sort_divisions(v: Vec<Division>) -> (r: Vec<Division>)
    ensures
        sorted_divisions(r@),
        r@.to_multiset() == v@.to_multiset(),
{
    broadcast use vstd::seq_lib::group_to_multiset_ensures;
    broadcast use vstd::multiset::group_multiset_axioms;

    let mut rest = v;
    let mut out: Vec<Division> = Vec::new();
    while rest.len() > 0
        invariant
            out@.to_multiset().add(rest@.to_multiset()) =~= v@.to_multiset(),
            sorted_divisions(out@),
            forall|i: int, j: int| 0 <= i < out@.len() && 0 <= j < rest@.len() ==> lex_le(
                div_key(#[trigger] out@[i]),
                div_key(#[trigger] rest@[j]),
            ),
        decreases rest@.len(),
    {
        let mut min_i: usize = 0;
        let mut k: usize = 1;
        proof {
            lemma_lex_le_refl(div_key(rest@[0]));
        }
        while k < rest.len()
            invariant
                rest@.len() > 0,
                min_i < rest@.len(),
                k <= rest@.len(),
                forall|j: int| 0 <= j < k ==> lex_le(
                    div_key(rest@[min_i as int]),
                    div_key(#[trigger] rest@[j]),
                ),
            decreases rest@.len() - k,
        {
            if !division_le(&rest[min_i], &rest[k]) {
                proof {
                    lemma_lex_le_total(div_key(rest@[min_i as int]), div_key(rest@[k as int]));
                    assert forall|j: int| 0 <= j < k + 1 implies lex_le(
                        div_key(rest@[k as int]),
                        div_key(#[trigger] rest@[j]),
                    ) by {
                        if j < k {
                            lemma_lex_le_trans(
                                div_key(rest@[k as int]),
                                div_key(rest@[min_i as int]),
                                div_key(rest@[j]),
                            );
                        } else {
                            lemma_lex_le_refl(div_key(rest@[k as int]));
                        }
                    }
                }
                min_i = k;
            } else {
                proof {
                    lemma_lex_le_refl(div_key(rest@[min_i as int]));
                }
            }
            k = k + 1;
        }
        let ghost old_rest = rest@;
        let ghost old_out = out@;
        let m = rest.remove(min_i);
        out.push(m);
        proof {
            old_rest.to_multiset_ensures();
            old_out.to_multiset_ensures();
            assert(old_rest.contains(m));
            assert(m == old_rest[min_i as int]);
            assert(rest@ =~= old_rest.remove(min_i as int));
            assert(old_rest.remove(min_i as int).to_multiset() =~= old_rest.to_multiset().remove(
                old_rest[min_i as int],
            ));
            assert(rest@.to_multiset() == old_rest.remove(min_i as int).to_multiset());
            assert(out@ =~= old_out.push(m));
            assert(old_out.push(m).to_multiset() =~= old_out.to_multiset().insert(m));
            assert(out@.to_multiset() == old_out.push(m).to_multiset());
            assert(out@.to_multiset().add(rest@.to_multiset()) =~= v@.to_multiset());
            assert forall|i: int, j: int| 0 <= i < j < out@.len() implies lex_le(
                div_key(out@[i]),
                div_key(out@[j]),
            ) by {
                if j == out@.len() - 1 {
                    assert(out@[j] == old_rest[min_i as int]);
                }
            }
            assert forall|i: int, j: int|
                0 <= i < out@.len() && 0 <= j < rest@.len() implies lex_le(
                div_key(out@[i]),
                div_key(rest@[j]),
            ) by {
                if j < min_i {
                    assert(rest@[j] == old_rest[j]);
                } else {
                    assert(rest@[j] == old_rest[j + 1]);
                }
                if i == out@.len() - 1 {
                    assert(out@[i] == old_rest[min_i as int]);
                }
            }
        }
    }
    proof {
        assert(rest@.to_multiset() =~= Multiset::<Division>::empty());
        assert(out@.to_multiset() =~= v@.to_multiset());
    }
    out
}

/// What probing an object for an optional string member yielded.
#[derive(Debug, Clone, PartialEq, Eq)]
pub enum StrProbe {
    Absent,
    IsNull,
    Present(String),
    NotText,
}

/// The division-record decision on what the five probes yielded: `Code`
/// must be an integer in i32 range, `CustomerName` and `Description` must
/// be strings, and the customer fields must be absent, null or strings —
/// exactly then a `Division` is built from them; any violation is the
/// `Decode` failure of the listing's strict page decoder.
pub fn division_from_fields(
    code: Option<i64>,
    customer_name: Option<String>,
    description: Option<String>,
    customer: StrProbe,
    customer_code: StrProbe,
) -> (r: Result<Division, ClientError>)
    ensures
        r is Ok <==> ((match code {
            Some(c) => i32::MIN as i64 <= c <= i32::MAX as i64,
            None => false,
        }) && customer_name is Some && description is Some && !(customer is NotText)
            && !(customer_code is NotText)),
        (r matches Ok(d) ==> ({
            &&& (match code {
                Some(c) => d.code == c as i32,
                None => false,
            })
            &&& Some(d.customer_name) == customer_name
            &&& Some(d.description) == description
            &&& d.customer == (match customer {
                StrProbe::Present(s) => Some(s),
                _ => None,
            })
            &&& d.customer_code == (match customer_code {
                StrProbe::Present(s) => Some(s),
                _ => None,
            })
        })),
        (r matches Err(e) ==> e matches ClientError::Decode(m)
            && m@ == "Failed to parse divisions"@),
{
    let code64 = match code {
        Some(c) => c,
        None => {
            return Err(ClientError::Decode(String::from_str("Failed to parse divisions")));
        },
    };
    if code64 > i32::MAX as i64 || code64 < i32::MIN as i64 {
        return Err(ClientError::Decode(String::from_str("Failed to parse divisions")));
    }
    let customer_name = match customer_name {
        Some(s) => s,
        None => {
            return Err(ClientError::Decode(String::from_str("Failed to parse divisions")));
        },
    };
    let description = match description {
        Some(s) => s,
        None => {
            return Err(ClientError::Decode(String::from_str("Failed to parse divisions")));
        },
    };
    let customer = match customer {
        StrProbe::Absent => None,
        StrProbe::IsNull => None,
        StrProbe::Present(s) => Some(s),
        StrProbe::NotText => {
            return Err(ClientError::Decode(String::from_str("Failed to parse divisions")));
        },
    };
    let customer_code = match customer_code {
        StrProbe::Absent => None,
        StrProbe::IsNull => None,
        StrProbe::Present(s) => Some(s),
        StrProbe::NotText => {
            return Err(ClientError::Decode(String::from_str("Failed to parse divisions")));
        },
    };
    Ok(Division { code: code64 as i32, customer_name, description, customer, customer_code })
}

/// Decodes one division record: five uncontracted probes of the object,
/// decided by `division_from_fields`.
pub fn decode_division(v: &serde_json::Value) -> (r: Result<Division, ClientError>)
    ensures
        r matches Err(e) ==> e matches ClientError::Decode(m)
            && m@ == "Failed to parse divisions"@,
{
    let code = match json_get(v, "Code") {
        Some(c) => json_as_i64(c),
        None => None,
    };
    let customer_name = match json_get(v, "CustomerName") {
        Some(c) => json_as_string(c),
        None => None,
    };
    let description = match json_get(v, "Description") {
        Some(c) => json_as_string(c),
        None => None,
    };
    let customer = probe_opt_string(v, "Customer");
    let customer_code = probe_opt_string(v, "CustomerCode");
    division_from_fields(code, customer_name, description, customer, customer_code)
}

/// Probes an object for an optional string member, one probe outcome per
/// accessor outcome.
fn probe_opt_string(v: &serde_json::Value, key: &str) -> (r: StrProbe)
{
    match json_get(v, key) {
        None => StrProbe::Absent,
        Some(f) => {
            if json_is_null(f) {
                StrProbe::IsNull
            } else {
                match json_as_string(f) {
                    Some(s) => StrProbe::Present(s),
                    None => StrProbe::NotText,
                }
            }
        },
    }
}

/// Decodes every record of one divisions page; the first shape violation
/// fails the page.
pub fn decode_division_records(vals: &Vec<serde_json::Value>) -> (r: Result<
    Vec<Division>,
    ClientError,
>)
    ensures
        r matches Ok(ds) ==> ds@.len() == vals@.len(),
        r matches Err(e) ==> e matches ClientError::Decode(m)
            && m@ == "Failed to parse divisions"@,
{
    let mut out: Vec<Division> = Vec::new();
    let mut i: usize = 0;
    while i < vals.len()
        invariant
            i <= vals@.len(),
            out@.len() == i,
        decreases vals@.len() - i,
    {
        match decode_division(&vals[i]) {
            Ok(d) => out.push(d),
            Err(e) => {
                return Err(e);
            },
        }
        i = i + 1;
    }
    Ok(out)
}

} // verus!
