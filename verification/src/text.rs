//! Small verified text toolkit: decimal rendering and parsing of unsigned
//! numbers, character-level access to strings, and lexicographic order on
//! character sequences.

use vstd::prelude::*;
use vstd::string::*;

verus! {

/// Relies on `String::push` of std: appends exactly the given character.
#[verifier::external_body]
pub fn push_char(s: &mut String, c: char)
    ensures
        final(s)@ == old(s)@ + seq![c],
{
    s.push(c);
}

/// The characters of `s`, as a vector.
pub fn chars_of(s: &str) -> (v: Vec<char>)
    ensures
        v@ == s@,
{
    let n = s.unicode_len();
    let mut v: Vec<char> = Vec::new();
    let mut i: usize = 0;
    while i < n
        invariant
            n == s@.len(),
            i <= n,
            v@ == s@.subrange(0, i as int),
        decreases n - i,
    {
        let c = s.get_char(i);
        v.push(c);
        i = i + 1;
        proof {
            assert(v@ =~= s@.subrange(0, i as int));
        }
    }
    proof {
        assert(v@ =~= s@);
    }
    v
}

/// A `String` holding exactly the characters of `v`.
pub fn string_from_chars(v: &Vec<char>) -> (s: String)
    ensures
        s@ == v@,
{
    let mut s = String::new();
    let mut i: usize = 0;
    while i < v.len()
        invariant
            i <= v@.len(),
            s@ == v@.subrange(0, i as int),
        decreases v@.len() - i,
    {
        push_char(&mut s, v[i]);
        i = i + 1;
        proof {
            assert(s@ =~= v@.subrange(0, i as int));
        }
    }
    proof {
        assert(s@ =~= v@);
    }
    s
}

pub open spec fn is_dec_digit(c: char) -> bool {
    '0' <= c && c <= '9'
}

pub open spec fn digit_char(d: nat) -> char {
    if d == 0 { '0' }
    else if d == 1 { '1' }
    else if d == 2 { '2' }
    else if d == 3 { '3' }
    else if d == 4 { '4' }
    else if d == 5 { '5' }
    else if d == 6 { '6' }
    else if d == 7 { '7' }
    else if d == 8 { '8' }
    else { '9' }
}

pub open spec fn digit_val(c: char) -> nat {
    if c == '0' { 0 }
    else if c == '1' { 1 }
    else if c == '2' { 2 }
    else if c == '3' { 3 }
    else if c == '4' { 4 }
    else if c == '5' { 5 }
    else if c == '6' { 6 }
    else if c == '7' { 7 }
    else { 8 + (if c == '8' { 0int } else { 1int }) as nat }
}

/// Decimal rendering of `n`, most significant digit first, no leading zeros
/// (except the single digit of zero itself).
pub open spec fn dec_seq(n: nat) -> Seq<char>
    decreases n,
{
    if n < 10 {
        seq![digit_char(n)]
    } else {
        dec_seq(n / 10).push(digit_char(n % 10))
    }
}

/// Value of a sequence of decimal digits, most significant first.
pub open spec fn digits_val(s: Seq<char>) -> nat
    decreases s.len(),
{
    if s.len() == 0 {
        0
    } else {
        digits_val(s.drop_last()) * 10 + digit_val(s.last())
    }
}

pub open spec fn all_dec_digits(s: Seq<char>) -> bool {
    forall|i: int| 0 <= i < s.len() ==> is_dec_digit(#[trigger] s[i])
}

pub proof fn lemma_digit_roundtrip(d: nat)
    requires
        d < 10,
    ensures
        digit_val(digit_char(d)) == d,
        is_dec_digit(digit_char(d)),
{
}

/// Rendering a number and reading the digits back yields the number, the
/// rendering is nonempty, all its characters are digits, and it never starts
/// with a superfluous zero.
pub proof fn lemma_dec_seq_val(n: nat)
    ensures
        digits_val(dec_seq(n)) == n,
        dec_seq(n).len() >= 1,
        all_dec_digits(dec_seq(n)),
        n >= 10 ==> dec_seq(n)[0] != '0',
        n < 10 ==> dec_seq(n) =~= seq![digit_char(n)],
    decreases n,
{
    if n < 10 {
        lemma_digit_roundtrip(n);
        let s = dec_seq(n);
        assert(s =~= seq![digit_char(n)]);
        assert(s.len() == 1);
        assert(s.last() == digit_char(n));
        assert(s.drop_last() =~= Seq::<char>::empty());
        assert(digits_val(s.drop_last()) == 0);
        assert(digits_val(s) == digit_val(digit_char(n)));
    } else {
        lemma_dec_seq_val(n / 10);
        lemma_digit_roundtrip(n % 10);
        let s = dec_seq(n);
        assert(s =~= dec_seq(n / 10).push(digit_char(n % 10)));
        assert(s.drop_last() =~= dec_seq(n / 10));
        assert(digits_val(s.drop_last()) == digits_val(dec_seq(n / 10)));
        assert(s.last() == digit_char(n % 10));
        assert(s.len() > 0);
        assert(digits_val(s) == digits_val(s.drop_last()) * 10 + digit_val(s.last()));
        assert(digits_val(s) == (n / 10) * 10 + n % 10);
        assert((n / 10) * 10 + n % 10 == n) by (nonlinear_arith);
        assert(s[0] == dec_seq(n / 10)[0]);
        if n / 10 >= 10 {
        } else {
            assert(n / 10 >= 1) by (nonlinear_arith)
                requires n >= 10;
            assert(dec_seq(n / 10)[0] == digit_char(n / 10));
        }
    }
}

/// Along a digit string, the value of each prefix is at most the value of the
/// whole.
pub proof fn lemma_digits_val_prefix_le(s: Seq<char>, i: int)
    requires
        0 <= i <= s.len(),
    ensures
        digits_val(s.subrange(0, i)) <= digits_val(s),
    decreases s.len() - i,
{
    if i == s.len() {
        assert(s.subrange(0, i) =~= s);
    } else {
        lemma_digits_val_prefix_le(s, i + 1);
        let p = s.subrange(0, i + 1);
        assert(p.drop_last() =~= s.subrange(0, i));
        assert(digits_val(p) == digits_val(s.subrange(0, i)) * 10 + digit_val(p.last()));
        assert(digits_val(s.subrange(0, i)) <= digits_val(s.subrange(0, i)) * 10) by (nonlinear_arith);
    }
}

/// Exec counterpart of `digit_char`.
pub fn digit_char_of(d: u64) -> (c: char)
    requires
        d < 10,
    ensures
        c == digit_char(d as nat),
{
    if d == 0 { '0' }
    else if d == 1 { '1' }
    else if d == 2 { '2' }
    else if d == 3 { '3' }
    else if d == 4 { '4' }
    else if d == 5 { '5' }
    else if d == 6 { '6' }
    else if d == 7 { '7' }
    else if d == 8 { '8' }
    else { '9' }
}

/// Exec counterpart of `digit_val`; `None` on a non-digit.
pub fn digit_val_of(c: char) -> (r: Option<u64>)
    ensures
        is_dec_digit(c) ==> r == Some(digit_val(c) as u64),
        !is_dec_digit(c) ==> r is None,
{
    if c == '0' { Some(0) }
    else if c == '1' { Some(1) }
    else if c == '2' { Some(2) }
    else if c == '3' { Some(3) }
    else if c == '4' { Some(4) }
    else if c == '5' { Some(5) }
    else if c == '6' { Some(6) }
    else if c == '7' { Some(7) }
    else if c == '8' { Some(8) }
    else if c == '9' { Some(9) }
    else { None }
}

/// Decimal rendering of `n` as a `String`.
pub fn u64_to_string(n: u64) -> (s: String)
    ensures
        s@ == dec_seq(n as nat),
{
    let mut digits: Vec<char> = Vec::new();
    let mut m: u64 = n;
    loop
        invariant
            digits@.len() == 0 ==> m == n,
            digits@.len() > 0 && m > 0 ==> dec_seq(n as nat) == dec_seq(m as nat).add(
                digits@.reverse(),
            ),
            digits@.len() > 0 && m == 0 ==> dec_seq(n as nat) == digits@.reverse(),
        ensures
            m == 0 && digits@.len() > 0,
        decreases m, (if digits@.len() == 0 { 1int } else { 0int }),
    {
        if m == 0 && digits.len() > 0 {
            break;
        }
        let d = m % 10;
        let ghost old_digits = digits@;
        let ghost old_m = m;
        digits.push(digit_char_of(d));
        m = m / 10;
        proof {
            assert(digits@ =~= old_digits.push(digit_char(d as nat)));
            assert(digits@.reverse() =~= seq![digit_char(d as nat)].add(old_digits.reverse()));
            if old_m < 10 {
                assert(dec_seq(old_m as nat) =~= seq![digit_char(d as nat)]);
                if old_digits.len() == 0 {
                    assert(dec_seq(n as nat) =~= digits@.reverse());
                } else {
                    assert(dec_seq(n as nat) =~= dec_seq(old_m as nat).add(old_digits.reverse()));
                    assert(dec_seq(n as nat) =~= digits@.reverse());
                }
            } else {
                assert(dec_seq(old_m as nat) =~= dec_seq(old_m as nat / 10).push(digit_char(old_m as nat % 10)));
                assert(dec_seq(old_m as nat) =~= dec_seq(m as nat).add(seq![digit_char(d as nat)]));
                if old_digits.len() == 0 {
                    assert(dec_seq(n as nat) =~= dec_seq(m as nat).add(digits@.reverse()));
                } else {
                    assert(dec_seq(n as nat) =~= dec_seq(old_m as nat).add(old_digits.reverse()));
                    assert(dec_seq(m as nat).add(seq![digit_char(d as nat)]).add(old_digits.reverse())
                        =~= dec_seq(m as nat).add(digits@.reverse()));
                    assert(dec_seq(n as nat) =~= dec_seq(m as nat).add(digits@.reverse()));
                }
                assert(m > 0) by (nonlinear_arith)
                    requires m == old_m / 10, old_m >= 10;
            }
        }
    }
    let ghost out = dec_seq(n as nat);
    proof {
        assert(out == digits@.reverse());
    }
    let mut s = String::new();
    let mut i: usize = digits.len();
    while i > 0
        invariant
            i <= digits@.len(),
            out == digits@.reverse(),
            s@ =~= out.subrange(0, digits@.len() - i),
        decreases i,
    {
        i = i - 1;
        push_char(&mut s, digits[i]);
        proof {
            assert(out[digits@.len() - i - 1] == digits@[i as int]);
            assert(s@ =~= out.subrange(0, digits@.len() - i));
        }
    }
    proof {
        assert(s@ =~= out);
    }
    s
}

/// Reads a run of decimal digits as a `u64` value, refusing values above
/// `i64::MAX`; `None` on overflow or on any non-digit character.
pub fn parse_digits(v: &Vec<char>, from: usize, to: usize) -> (r: Option<u64>)
    requires
        from <= to <= v@.len(),
    ensures
        ({
            let s = v@.subrange(from as int, to as int);
            &&& (r is Some ==> all_dec_digits(s) && r->0 as nat == digits_val(s)
                    && r->0 <= i64::MAX as u64)
            &&& (all_dec_digits(s) && digits_val(s) <= i64::MAX as nat ==>
                    r == Some((digits_val(s) as u64)))
        }),
{
    let ghost s = v@.subrange(from as int, to as int);
    let mut acc: u64 = 0;
    let mut i: usize = from;
    while i < to
        invariant
            from <= i <= to <= v@.len(),
            s == v@.subrange(from as int, to as int),
            all_dec_digits(s.subrange(0, i - from)),
            acc as nat == digits_val(s.subrange(0, i - from)),
            acc <= i64::MAX as u64,
        decreases to - i,
    {
        let c = v[i];
        proof {
            assert(s[i - from] == v@[i as int]);
        }
        match digit_val_of(c) {
            None => {
                proof {
                    assert(!is_dec_digit(s[i - from]));
                }
                return None;
            },
            Some(d) => {
                if acc > (i64::MAX as u64 - d) / 10 {
                    // The run denotes a value beyond `i64::MAX`: the full
                    // value extends this prefix, so it overflows too.
                    proof {
                        let p = s.subrange(0, i - from + 1);
                        assert(p.drop_last() =~= s.subrange(0, i - from));
                        assert(p.last() == s[i - from]);
                        assert(digits_val(p) == acc * 10 + d);
                        assert(acc * 10 + d > i64::MAX as u64) by (nonlinear_arith)
                            requires acc > (i64::MAX as u64 - d) / 10, d < 10;
                        lemma_digits_val_prefix_le(s, i - from + 1);
                    }
                    return None;
                }
                proof {
                    assert(acc * 10 + d <= i64::MAX as u64) by (nonlinear_arith)
                        requires acc <= (i64::MAX as u64 - d) / 10, d < 10;
                    let p = s.subrange(0, i - from + 1);
                    assert(p.drop_last() =~= s.subrange(0, i - from));
                    assert(p.last() == s[i - from]);
                }
                acc = acc * 10 + d;
                i = i + 1;
            },
        }
    }
    proof {
        assert(s.subrange(0, to - from) =~= s);
    }
    Some(acc)
}

/// End of the maximal run of decimal digits starting at `j`.
pub open spec fn digits_end(s: Seq<char>, j: int) -> int
    decreases s.len() - j when 0 <= j <= s.len()
{
    if j < s.len() && is_dec_digit(s[j]) {
        digits_end(s, j + 1)
    } else {
        j
    }
}

pub proof fn lemma_digits_end(s: Seq<char>, j: int)
    requires
        0 <= j <= s.len(),
    ensures
        j <= digits_end(s, j) <= s.len(),
        forall|k: int| j <= k < digits_end(s, j) ==> is_dec_digit(#[trigger] s[k]),
        digits_end(s, j) == s.len() || !is_dec_digit(s[digits_end(s, j)]),
    decreases s.len() - j,
{
    if j < s.len() && is_dec_digit(s[j]) {
        lemma_digits_end(s, j + 1);
    }
}

/// Decimal rendering of a signed number: a minus sign for negatives, then
/// the digits of the magnitude.
pub open spec fn dec_signed(n: int) -> Seq<char> {
    if n >= 0 {
        dec_seq(n as nat)
    } else {
        seq!['-'] + dec_seq((-n) as nat)
    }
}

/// Decimal rendering of a signed number as a `String`.
pub fn i64_to_string(n: i64) -> (s: String)
    ensures
        s@ == dec_signed(n as int),
{
    if n >= 0 {
        let s = u64_to_string(n as u64);
        s
    } else {
        let mag: u64 = ((-(n + 1)) as u64) + 1;
        proof {
            assert(mag as int == -(n as int));
        }
        let digits = u64_to_string(mag);
        let mut s = String::new();
        push_char(&mut s, '-');
        s.append(digits.as_str());
        proof {
            assert(s@ =~= dec_signed(n as int));
        }
        s
    }
}

/// Strict lexicographic-or-equal order on character sequences, by scalar
/// value, as std orders strings.
pub open spec fn lex_le(a: Seq<char>, b: Seq<char>) -> bool
    decreases a.len(),
{
    if a.len() == 0 {
        true
    } else if b.len() == 0 {
        false
    } else if a[0] != b[0] {
        a[0] < b[0]
    } else {
        lex_le(a.skip(1), b.skip(1))
    }
}

/// `lex_le` is total: any two sequences compare one way or the other.
pub proof fn lemma_lex_le_total(a: Seq<char>, b: Seq<char>)
    ensures
        lex_le(a, b) || lex_le(b, a),
    decreases a.len(),
{
    if a.len() != 0 && b.len() != 0 && a[0] == b[0] {
        lemma_lex_le_total(a.skip(1), b.skip(1));
    }
}

/// `lex_le` is reflexive.
pub proof fn lemma_lex_le_refl(a: Seq<char>)
    ensures
        lex_le(a, a),
    decreases a.len(),
{
    if a.len() > 0 {
        lemma_lex_le_refl(a.skip(1));
    }
}

/// `lex_le` is transitive.
pub proof fn lemma_lex_le_trans(a: Seq<char>, b: Seq<char>, c: Seq<char>)
    requires
        lex_le(a, b),
        lex_le(b, c),
    ensures
        lex_le(a, c),
    decreases a.len(),
{
    if a.len() == 0 {
    } else if b.len() == 0 {
    } else if c.len() == 0 {
    } else {
        if a[0] == b[0] && b[0] == c[0] {
            lemma_lex_le_trans(a.skip(1), b.skip(1), c.skip(1));
        }
    }
}

/// Exec comparison realizing `lex_le` on two strings.
pub fn str_lex_le(a: &str, b: &str) -> (r: bool)
    ensures
        r == lex_le(a@, b@),
{
    let na = a.unicode_len();
    let nb = b.unicode_len();
    let mut i: usize = 0;
    proof {
        assert(a@.skip(0) =~= a@);
        assert(b@.skip(0) =~= b@);
        assert(a@.subrange(0, 0) =~= b@.subrange(0, 0));
    }
    loop
        invariant
            na == a@.len(),
            nb == b@.len(),
            i <= na,
            i <= nb,
            a@.subrange(0, i as int) =~= b@.subrange(0, i as int),
            lex_le(a@, b@) == lex_le(a@.skip(i as int), b@.skip(i as int)),
        decreases na - i,
    {
        if i >= na {
            proof {
                assert(a@.skip(i as int).len() == 0);
            }
            return true;
        }
        if i >= nb {
            proof {
                assert(b@.skip(i as int).len() == 0);
                assert(a@.skip(i as int).len() > 0);
            }
            return false;
        }
        let ca = a.get_char(i);
        let cb = b.get_char(i);
        if ca != cb {
            proof {
                assert(a@.skip(i as int)[0] == a@[i as int]);
                assert(b@.skip(i as int)[0] == b@[i as int]);
            }
            return ca < cb;
        }
        proof {
            assert(a@.skip(i as int)[0] == a@[i as int]);
            assert(b@.skip(i as int)[0] == b@[i as int]);
            assert(a@.skip(i as int).skip(1) =~= a@.skip(i + 1));
            assert(b@.skip(i as int).skip(1) =~= b@.skip(i + 1));
            assert(a@.subrange(0, i + 1) =~= b@.subrange(0, i + 1));
        }
        i = i + 1;
    }
}

} // verus!
