//! The persisted token record: the one piece of durable state the client
//! keeps, written to a single JSON file on every successful issuance or
//! refresh and deleted on logout.

use vstd::prelude::*;
use vstd::string::*;
use crate::text::{dec_seq, dec_signed, digits_end, digits_val, all_dec_digits, is_dec_digit,
    lemma_dec_seq_val, lemma_digits_end, parse_digits, chars_of, string_from_chars, push_char,
    i64_to_string};

verus! {

/// The OAuth2 token pair with its renewal deadline and the selected
/// division, exactly the shape persisted to disk.
#[derive(Debug, Clone, PartialEq, Eq)]
pub struct TokenRecord {
    pub access_token: String,
    pub refresh_token: String,
    /// Epoch seconds after which the pair must be refreshed before use.
    pub refresh_at: i64,
    pub current_division: Option<i32>,
}

impl TokenRecord {
    /// Well-formedness of a record as this client ever produces one: the
    /// renewal deadline and the division are non-negative (they come from
    /// epoch clocks and provider division codes), and the token strings
    /// carry no control characters (bearer tokens are printable by
    /// construction).
    pub open spec fn wf(self) -> bool {
        &&& self.refresh_at >= 0
        &&& (self.current_division matches Some(d) ==> d >= 0)
        &&& no_control_chars(self.access_token@)
        &&& no_control_chars(self.refresh_token@)
    }
}

/// No character below U+0020 occurs in `s`.
pub open spec fn no_control_chars(s: Seq<char>) -> bool {
    forall|i: int| 0 <= i < s.len() ==> #[trigger] s[i] >= '\u{20}'
}

/// JSON string escaping of one character: quote and backslash get a
/// backslash, everything else stands for itself.
pub open spec fn esc_char(c: char) -> Seq<char> {
    if c == '"' {
        seq!['\\', '"']
    } else if c == '\\' {
        seq!['\\', '\\']
    } else {
        seq![c]
    }
}

/// JSON string escaping of a whole string.
pub open spec fn esc(s: Seq<char>) -> Seq<char>
    decreases s.len(),
{
    if s.len() == 0 {
        Seq::<char>::empty()
    } else {
        esc_char(s[0]) + esc(s.skip(1))
    }
}

pub proof fn lemma_esc_concat(a: Seq<char>, b: Seq<char>)
    ensures
        esc(a + b) == esc(a) + esc(b),
    decreases a.len(),
{
    if a.len() == 0 {
        assert(a + b =~= b);
        assert(esc(a) + esc(b) =~= esc(b));
    } else {
        lemma_esc_concat(a.skip(1), b);
        assert((a + b).len() > 0);
        assert((a + b)[0] == a[0]);
        assert((a + b).skip(1) =~= a.skip(1) + b);
        assert(esc(a + b) == esc_char(a[0]) + (esc(a.skip(1)) + esc(b)));
        assert(esc_char(a[0]) + (esc(a.skip(1)) + esc(b)) =~= (esc_char(a[0]) + esc(a.skip(1)))
            + esc(b));
    }
}

/// The persisted form of the division field.
pub open spec fn enc_division(d: Option<i32>) -> Seq<char> {
    match d {
        Some(c) => dec_signed(c as int),
        None => "null"@,
    }
}

/// The canonical JSON text this client persists for a record.
pub open spec fn spec_encode(rec: TokenRecord) -> Seq<char> {
    "{\"access_token\":\""@ + esc(rec.access_token@) + "\""@ + ",\"refresh_token\":\""@ + esc(
        rec.refresh_token@,
    ) + "\""@ + ",\"refresh_at\":"@ + dec_signed(rec.refresh_at as int)
        + ",\"current_division\":"@ + enc_division(rec.current_division) + "}"@
}

/// Escapes a string for embedding in the persisted JSON.
fn escape_text(t: &str) -> (r: String)
    ensures
        r@ == esc(t@),
{
    let cs = chars_of(t);
    let mut r = String::new();
    let mut i: usize = 0;
    while i < cs.len()
        invariant
            cs@ == t@,
            i <= cs@.len(),
            r@ == esc(t@.subrange(0, i as int)),
        decreases cs@.len() - i,
    {
        let c = cs[i];
        if c == '"' {
            push_char(&mut r, '\\');
            push_char(&mut r, '"');
        } else if c == '\\' {
            push_char(&mut r, '\\');
            push_char(&mut r, '\\');
        } else {
            push_char(&mut r, c);
        }
        proof {
            let pre = t@.subrange(0, i as int);
            let one = seq![t@[i as int]];
            lemma_esc_concat(pre, one);
            assert(one.skip(1) =~= Seq::<char>::empty());
            assert(esc(one.skip(1)) == esc(Seq::<char>::empty()));
            assert(esc(Seq::<char>::empty()) =~= Seq::<char>::empty());
            assert(one.len() == 1);
            assert(esc(one) == esc_char(one[0]) + esc(one.skip(1)));
            assert(esc(one) =~= esc_char(t@[i as int]));
            assert(t@.subrange(0, i + 1) =~= pre + one);
            assert(r@ =~= esc(t@.subrange(0, i + 1)));
        }
        i = i + 1;
    }
    proof {
        assert(t@.subrange(0, t@.len() as int) =~= t@);
    }
    r
}

/// Renders a record as the canonical JSON text.
pub fn encode_token_record(rec: &TokenRecord) -> (s: String)
    ensures
        s@ == spec_encode(*rec),
{
    let mut s = String::from_str("{\"access_token\":\"");
    let ea = escape_text(rec.access_token.as_str());
    s.append(ea.as_str());
    s.append("\"");
    s.append(",\"refresh_token\":\"");
    let eb = escape_text(rec.refresh_token.as_str());
    s.append(eb.as_str());
    s.append("\"");
    s.append(",\"refresh_at\":");
    let t = i64_to_string(rec.refresh_at);
    s.append(t.as_str());
    s.append(",\"current_division\":");
    match &rec.current_division {
        Some(d) => {
            let ds = i64_to_string(*d as i64);
            s.append(ds.as_str());
        },
        None => {
            s.append("null");
        },
    }
    s.append("}");
    proof {
        assert(s@ =~= spec_encode(*rec));
    }
    s
}

/// Consumes `lit` off the front of `s`.
pub open spec fn expect_lit(s: Seq<char>, lit: Seq<char>) -> Option<Seq<char>> {
    if s.len() >= lit.len() && s.subrange(0, lit.len() as int) == lit {
        Some(s.skip(lit.len() as int))
    } else {
        None
    }
}

pub proof fn lemma_expect_lit(lit: Seq<char>, rest: Seq<char>)
    ensures
        expect_lit(lit + rest, lit) == Some(rest),
{
    let s = lit + rest;
    assert(s.subrange(0, lit.len() as int) =~= lit);
    assert(s.skip(lit.len() as int) =~= rest);
}

/// Reads a JSON string body up to and including its closing quote,
/// understanding exactly the escapes the encoder writes.
pub open spec fn parse_str(s: Seq<char>) -> Option<(Seq<char>, Seq<char>)>
    decreases s.len(),
{
    if s.len() == 0 {
        None
    } else if s[0] == '"' {
        Some((Seq::<char>::empty(), s.skip(1)))
    } else if s[0] == '\\' {
        if s.len() >= 2 && (s[1] == '"' || s[1] == '\\') {
            match parse_str(s.skip(2)) {
                Some(p) => Some((seq![s[1]] + p.0, p.1)),
                None => None,
            }
        } else {
            None
        }
    } else {
        match parse_str(s.skip(1)) {
            Some(p) => Some((seq![s[0]] + p.0, p.1)),
            None => None,
        }
    }
}

/// Reading an escaped string back yields the original.
pub proof fn lemma_parse_str_esc(content: Seq<char>, rest: Seq<char>)
    ensures
        parse_str(esc(content) + seq!['"'] + rest) == Some((content, rest)),
    decreases content.len(),
{
    let s = esc(content) + seq!['"'] + rest;
    if content.len() == 0 {
        assert(esc(content) =~= Seq::<char>::empty());
        assert(s =~= seq!['"'] + rest);
        assert(s[0] == '"');
        assert(s.skip(1) =~= rest);
        assert(content =~= Seq::<char>::empty());
    } else {
        let c = content[0];
        let tail = content.skip(1);
        lemma_parse_str_esc(tail, rest);
        assert(esc(content) == esc_char(c) + esc(tail));
        let inner = esc(tail) + seq!['"'] + rest;
        if c == '"' {
            assert(s =~= seq!['\\', '"'] + inner);
            assert(s[0] == '\\' && s[1] == '"');
            assert(s.skip(2) =~= inner);
            assert(seq![s[1]] + tail =~= content);
        } else if c == '\\' {
            assert(s =~= seq!['\\', '\\'] + inner);
            assert(s[0] == '\\' && s[1] == '\\');
            assert(s.skip(2) =~= inner);
            assert(seq![s[1]] + tail =~= content);
        } else {
            assert(s =~= seq![c] + inner);
            assert(s[0] == c);
            assert(s.skip(1) =~= inner);
            assert(seq![s[0]] + tail =~= content);
        }
    }
}

/// Reads a nonempty run of digits as a number with the unread remainder.
pub open spec fn parse_num(s: Seq<char>) -> Option<(nat, Seq<char>)> {
    let e = digits_end(s, 0);
    if e > 0 {
        Some((digits_val(s.subrange(0, e)), s.skip(e)))
    } else {
        None
    }
}

/// The digit run of `digs + rest` is exactly `digs` when `rest` opens with
/// a non-digit.
pub proof fn lemma_digits_end_concat(digs: Seq<char>, rest: Seq<char>, j: int)
    requires
        all_dec_digits(digs),
        rest.len() == 0 || !is_dec_digit(rest[0]),
        0 <= j <= digs.len(),
    ensures
        digits_end(digs + rest, j) == digs.len(),
    decreases digs.len() - j,
{
    let s = digs + rest;
    if j < digs.len() {
        assert(s[j] == digs[j]);
        lemma_digits_end_concat(digs, rest, j + 1);
    } else {
        if rest.len() == 0 {
            assert(j == s.len());
        } else {
            assert(s[j] == rest[0]);
        }
    }
}

/// Reading a rendered number back yields the number.
pub proof fn lemma_parse_num_dec(n: nat, rest: Seq<char>)
    requires
        rest.len() == 0 || !is_dec_digit(rest[0]),
    ensures
        parse_num(dec_seq(n) + rest) == Some((n, rest)),
{
    lemma_dec_seq_val(n);
    lemma_digits_end_concat(dec_seq(n), rest, 0);
    let s = dec_seq(n) + rest;
    let e = digits_end(s, 0);
    assert(e == dec_seq(n).len());
    assert(s.subrange(0, e) =~= dec_seq(n));
    assert(s.skip(e) =~= rest);
}

/// The parsed shape of a persisted record: both token texts, the renewal
/// deadline, and the optional division.
pub open spec fn spec_decode(s: Seq<char>) -> Option<(Seq<char>, Seq<char>, int, Option<int>)> {
    match expect_lit(s, "{\"access_token\":\""@) {
        None => None,
        Some(s1) => match parse_str(s1) {
            None => None,
            Some((a, s2)) => match expect_lit(s2, ",\"refresh_token\":\""@) {
                None => None,
                Some(s3) => match parse_str(s3) {
                    None => None,
                    Some((b, s4)) => match expect_lit(s4, ",\"refresh_at\":"@) {
                        None => None,
                        Some(s5) => match parse_num(s5) {
                            None => None,
                            Some((t, s6)) => {
                                if t > i64::MAX as nat {
                                    None
                                } else {
                                    match expect_lit(s6, ",\"current_division\":"@) {
                                        None => None,
                                        Some(s7) => spec_decode_division(a, b, t as int, s7),
                                    }
                                }
                            },
                        },
                    },
                },
            },
        },
    }
}

/// The tail of the record: the division (a number or `null`) and the
/// closing brace, with nothing after it.
pub open spec fn spec_decode_division(a: Seq<char>, b: Seq<char>, t: int, s: Seq<char>) -> Option<
    (Seq<char>, Seq<char>, int, Option<int>),
> {
    match expect_lit(s, "null"@) {
        Some(s7) => {
            if s7 =~= "}"@ {
                Some((a, b, t, None))
            } else {
                None
            }
        },
        None => match parse_num(s) {
            None => None,
            Some((d, s7)) => {
                if d > i32::MAX as nat {
                    None
                } else if s7 =~= "}"@ {
                    Some((a, b, t, Some(d as int)))
                } else {
                    None
                }
            },
        },
    }
}

/// Consumes `lit` at position `i`, yielding the position after it.
fn expect_lit_at(cs: &Vec<char>, i: usize, lit: &str) -> (r: Option<usize>)
    requires
        i <= cs@.len(),
    ensures
        (match expect_lit(cs@.skip(i as int), lit@) {
            Some(rest) => r matches Some(j) && i <= j <= cs@.len() && cs@.skip(j as int) == rest,
            None => r is None,
        }),
{
    let lc = chars_of(lit);
    let m = lc.len();
    let total = cs.len();
    if total - i < m {
        return None;
    }
    let ghost sub = cs@.skip(i as int);
    let mut k: usize = 0;
    while k < m
        invariant
            lc@ == lit@,
            m == lit@.len(),
            total == cs@.len(),
            i + m <= total,
            k <= m,
            sub == cs@.skip(i as int),
            sub.subrange(0, k as int) =~= lit@.subrange(0, k as int),
        decreases m - k,
    {
        proof {
            assert(sub[k as int] == cs@[i + k]);
        }
        if cs[i + k] != lc[k] {
            proof {
                assert(sub.subrange(0, m as int)[k as int] == sub[k as int]);
                assert(sub.subrange(0, m as int) != lit@);
            }
            return None;
        }
        k = k + 1;
        proof {
            assert(sub.subrange(0, k as int) =~= lit@.subrange(0, k as int));
        }
    }
    proof {
        assert(sub.subrange(0, m as int) =~= lit@.subrange(0, m as int));
        assert(lit@.subrange(0, m as int) =~= lit@);
        assert(sub.skip(m as int) =~= cs@.skip(i + m));
    }
    Some(i + m)
}

/// Reads a string body at position `i`, as `parse_str` describes.
fn parse_str_at(cs: &Vec<char>, i: usize) -> (r: Option<(Vec<char>, usize)>)
    requires
        i <= cs@.len(),
    ensures
        (match parse_str(cs@.skip(i as int)) {
            None => r is None,
            Some(p) => r matches Some(pr) && pr.0@ == p.0 && pr.1 <= cs@.len() && cs@.skip(
                pr.1 as int,
            ) == p.1,
        }),
    decreases cs@.len() - i,
{
    let ghost sub = cs@.skip(i as int);
    if i >= cs.len() {
        return None;
    }
    let c = cs[i];
    proof {
        assert(sub[0] == cs@[i as int]);
    }
    if c == '"' {
        proof {
            assert(sub.skip(1) =~= cs@.skip(i + 1));
        }
        let content: Vec<char> = Vec::new();
        proof {
            assert(content@ =~= Seq::<char>::empty());
        }
        return Some((content, i + 1));
    }
    if c == '\\' {
        if i + 1 < cs.len() {
            let c2 = cs[i + 1];
            proof {
                assert(sub[1] == cs@[i + 1]);
                assert(sub.len() >= 2);
            }
            if c2 == '"' || c2 == '\\' {
                proof {
                    assert(sub.skip(2) =~= cs@.skip(i + 2));
                }
                match parse_str_at(cs, i + 2) {
                    Some(pr) => {
                        let mut content = pr.0;
                        let j = pr.1;
                        content.insert(0, c2);
                        proof {
                            let p = parse_str(cs@.skip(i + 2)).unwrap();
                            assert(content@ =~= seq![sub[1]] + p.0);
                        }
                        return Some((content, j));
                    },
                    None => {
                        return None;
                    },
                }
            } else {
                return None;
            }
        } else {
            proof {
                assert(sub.len() == 1);
            }
            return None;
        }
    }
    proof {
        assert(sub.skip(1) =~= cs@.skip(i + 1));
    }
    match parse_str_at(cs, i + 1) {
        Some(pr) => {
            let mut content = pr.0;
            let j = pr.1;
            content.insert(0, c);
            proof {
                let p = parse_str(cs@.skip(i + 1)).unwrap();
                assert(content@ =~= seq![sub[0]] + p.0);
            }
            Some((content, j))
        },
        None => None,
    }
}

/// Reads a digit run at position `i`, as `parse_num` describes, refusing
/// values above `i64::MAX`.
fn parse_num_at(cs: &Vec<char>, i: usize) -> (r: Option<(u64, usize)>)
    requires
        i <= cs@.len(),
    ensures
        (match parse_num(cs@.skip(i as int)) {
            None => r is None,
            Some(p) => {
                if p.0 <= i64::MAX as nat {
                    r matches Some(pr) && pr.0 as nat == p.0 && i <= pr.1 <= cs@.len()
                        && cs@.skip(pr.1 as int) == p.1
                } else {
                    r is None
                }
            },
        }),
{
    let ghost sub = cs@.skip(i as int);
    let n = cs.len();
    let mut k: usize = i;
    while k < n && cs[k] >= '0' && cs[k] <= '9'
        invariant
            i <= k <= n,
            n == cs@.len(),
            sub == cs@.skip(i as int),
            digits_end(sub, 0) == digits_end(sub, k - i),
        decreases n - k,
    {
        proof {
            assert(sub[k - i] == cs@[k as int]);
        }
        k = k + 1;
    }
    proof {
        if k < n {
            assert(sub[k - i] == cs@[k as int]);
        }
        assert(digits_end(sub, k - i) == k - i);
    }
    if k == i {
        return None;
    }
    proof {
        lemma_digits_end(sub, 0);
        assert(sub.subrange(0, k - i) =~= cs@.subrange(i as int, k as int));
        assert(all_dec_digits(cs@.subrange(i as int, k as int)));
    }
    match parse_digits(cs, i, k) {
        Some(val) => {
            proof {
                assert(sub.skip(k - i) =~= cs@.skip(k as int));
            }
            Some((val, k))
        },
        None => None,
    }
}

/// Parses the canonical persisted text back into a record; `None` on any
/// deviation from the canonical shape (the caller treats an unreadable
/// record as "not authenticated").
pub fn decode_token_record(text: &str) -> (r: Option<TokenRecord>)
    ensures
        (match spec_decode(text@) {
            Some(q) => r matches Some(rec) && rec.access_token@ == q.0 && rec.refresh_token@
                == q.1 && rec.refresh_at == q.2 && (match (rec.current_division, q.3) {
                (Some(x), Some(y)) => x == y,
                (None, None) => true,
                _ => false,
            }),
            None => r is None,
        }),
{
    let cs = chars_of(text);
    proof {
        assert(cs@.skip(0) =~= text@);
    }
    let i1 = match expect_lit_at(&cs, 0, "{\"access_token\":\"") {
        Some(j) => j,
        None => {
            return None;
        },
    };
    let (a_chars, i2) = match parse_str_at(&cs, i1) {
        Some(p) => p,
        None => {
            return None;
        },
    };
    let i3 = match expect_lit_at(&cs, i2, ",\"refresh_token\":\"") {
        Some(j) => j,
        None => {
            return None;
        },
    };
    let (b_chars, i4) = match parse_str_at(&cs, i3) {
        Some(p) => p,
        None => {
            return None;
        },
    };
    let i5 = match expect_lit_at(&cs, i4, ",\"refresh_at\":") {
        Some(j) => j,
        None => {
            return None;
        },
    };
    let (t_val, i6) = match parse_num_at(&cs, i5) {
        Some(p) => p,
        None => {
            return None;
        },
    };
    let i7 = match expect_lit_at(&cs, i6, ",\"current_division\":") {
        Some(j) => j,
        None => {
            return None;
        },
    };
    let (division, i8) = match expect_lit_at(&cs, i7, "null") {
        Some(j) => (None, j),
        None => {
            match parse_num_at(&cs, i7) {
                Some((d_val, j)) => {
                    if d_val > i32::MAX as u64 {
                        return None;
                    }
                    (Some(d_val as i32), j)
                },
                None => {
                    return None;
                },
            }
        },
    };
    let tail_is_brace = match expect_lit_at(&cs, i8, "}") {
        Some(j) => j == cs.len(),
        None => false,
    };
    if !tail_is_brace {
        proof {
            reveal_strlit("}");
            let s8 = cs@.skip(i8 as int);
            if s8 =~= "}"@ {
                lemma_expect_lit("}"@, Seq::<char>::empty());
                assert("}"@ + Seq::<char>::empty() =~= "}"@);
                assert(expect_lit(s8, "}"@) == Some(Seq::<char>::empty()));
            }
        }
        return None;
    }
    proof {
        reveal_strlit("}");
        let s8 = cs@.skip(i8 as int);
        assert(cs@.skip(cs@.len() as int) =~= Seq::<char>::empty());
        assert(s8.subrange(0, 1) =~= "}"@);
        assert(s8.len() == 1);
        assert(s8 =~= "}"@);
    }
    let access_token = string_from_chars(&a_chars);
    let refresh_token = string_from_chars(&b_chars);
    Some(TokenRecord {
        access_token,
        refresh_token,
        refresh_at: t_val as i64,
        current_division: division,
    })
}

/// Round trip: the canonical text of any well-formed record parses back to
/// exactly that record's fields.
pub proof fn lemma_token_record_round_trip(rec: TokenRecord)
    requires
        rec.wf(),
    ensures
        spec_decode(spec_encode(rec)) == Some(
            (
                rec.access_token@,
                rec.refresh_token@,
                rec.refresh_at as int,
                match rec.current_division {
                    Some(d) => Some(d as int),
                    None => None::<int>,
                },
            ),
        ),
{
    reveal_strlit("\"");
    reveal_strlit(",\"refresh_token\":\"");
    reveal_strlit(",\"current_division\":");
    reveal_strlit("null");
    reveal_strlit("}");
    let a = rec.access_token@;
    let b = rec.refresh_token@;
    let t = rec.refresh_at as int;
    let l1 = "{\"access_token\":\""@;
    let l2 = ",\"refresh_token\":\""@;
    let l3 = ",\"refresh_at\":"@;
    let l4 = ",\"current_division\":"@;
    let l5 = "}"@;
    let divtext = enc_division(rec.current_division);
    let s = spec_encode(rec);
    assert("\""@ =~= seq!['"']);
    let r1 = esc(a) + seq!['"'] + (l2 + (esc(b) + seq!['"'] + (l3 + (dec_seq(t as nat) + (l4
        + (divtext + l5))))));
    assert(s =~= l1 + r1);
    lemma_expect_lit(l1, r1);
    let r2 = l2 + (esc(b) + seq!['"'] + (l3 + (dec_seq(t as nat) + (l4 + (divtext + l5)))));
    lemma_parse_str_esc(a, r2);
    assert(esc(a) + seq!['"'] + r2 =~= r1);
    let r3 = esc(b) + seq!['"'] + (l3 + (dec_seq(t as nat) + (l4 + (divtext + l5))));
    lemma_expect_lit(l2, r3);
    let r4 = l3 + (dec_seq(t as nat) + (l4 + (divtext + l5)));
    lemma_parse_str_esc(b, r4);
    assert(esc(b) + seq!['"'] + r4 =~= r3);
    let r5 = dec_seq(t as nat) + (l4 + (divtext + l5));
    lemma_expect_lit(l3, r5);
    reveal_strlit(",\"refresh_at\":");
    let r6 = l4 + (divtext + l5);
    assert(r6[0] == ',');
    assert(!is_dec_digit(','));
    lemma_parse_num_dec(t as nat, r6);
    assert(dec_seq(t as nat) + r6 =~= r5);
    let r7 = divtext + l5;
    lemma_expect_lit(l4, r7);
    assert(expect_lit(s, l1) == Some(r1));
    assert(parse_str(r1) == Some((a, r2)));
    assert(expect_lit(r2, l2) == Some(r3));
    assert(parse_str(r3) == Some((b, r4)));
    assert(expect_lit(r4, l3) == Some(r5));
    assert(dec_signed(t) == dec_seq(t as nat));
    assert(parse_num(r5) == Some((t as nat, r6)));
    assert(expect_lit(r6, l4) == Some(r7));
    assert(spec_decode(s) == spec_decode_division(a, b, t, r7));
    match rec.current_division {
        None => {
            assert(divtext =~= "null"@);
            lemma_expect_lit("null"@, l5);
            assert("null"@ + l5 =~= r7);
            assert(spec_decode_division(a, b, t, r7) == Some((a, b, t, None::<int>)));
        },
        Some(d) => {
            assert(divtext =~= dec_seq(d as nat));
            lemma_dec_seq_val(d as nat);
            assert(l5[0] == '}');
            assert(!is_dec_digit('}'));
            lemma_parse_num_dec(d as nat, l5);
            assert(dec_seq(d as nat) + l5 =~= r7);
            // A digit run is no `null`: the first characters differ.
            assert(r7[0] == dec_seq(d as nat)[0]);
            assert(is_dec_digit(r7[0]));
            assert("null"@[0] == 'n');
            assert(expect_lit(r7, "null"@) is None) by {
                if expect_lit(r7, "null"@) is Some {
                    assert(r7.subrange(0, 4)[0] == r7[0]);
                }
            }
            assert(spec_decode_division(a, b, t, r7) == Some((a, b, t, Some(d as int))));
        },
    }
}

} // verus!
