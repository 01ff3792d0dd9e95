//! Character and string utilities shared by the parser, the registry and the
//! search filter: whitespace classification, string equality, lexicographic
//! order, decimal parsing and printing of 16-bit port numbers, and substring
//! search.

use vstd::prelude::*;
use vstd::string::*;

verus! {

broadcast use vstd::utf8::char_u32_cast, vstd::utf8::char_is_scalar;

/// ASCII whitespace, as the tokenizer understands it.
pub open spec fn is_ws(c: char) -> bool {
    c == ' ' || c == '\t' || c == '\n' || c == '\r' || c == '\u{c}'
}

/// Runtime check for `is_ws`.
pub fn is_ws_char(c: char) -> (r: bool)
    ensures
        r == is_ws(c),
{
    c == ' ' || c == '\t' || c == '\n' || c == '\r' || c == '\u{c}'
}

/// Character-wise equality of two string slices.
pub fn str_eq(a: &str, b: &str) -> (r: bool)
    ensures
        r == (a@ == b@),
{
    let na = a.unicode_len();
    let nb = b.unicode_len();
    if na != nb {
        return false;
    }
    let mut i: usize = 0;
    while i < na
        invariant
            na == a@.len(),
            na == b@.len(),
            i <= na,
            forall|j: int| 0 <= j < i ==> a@[j] == b@[j],
        decreases na - i,
    {
        if a.get_char(i) != b.get_char(i) {
            return false;
        }
        i += 1;
    }
    proof {
        assert(a@ =~= b@);
    }
    true
}

/// Lexicographic order on character sequences, by code point; the order in
/// which the host registry lists its aliases.
pub open spec fn lex_leq(a: Seq<char>, b: Seq<char>) -> bool
    decreases a.len(),
{
    if a.len() == 0 {
        true
    } else if b.len() == 0 {
        false
    } else if a[0] != b[0] {
        (a[0] as u32) < (b[0] as u32)
    } else {
        lex_leq(a.skip(1), b.skip(1))
    }
}

/// `lex_leq` is total: any two sequences are comparable.
pub proof fn lemma_lex_total(a: Seq<char>, b: Seq<char>)
    ensures
        lex_leq(a, b) || lex_leq(b, a),
    decreases a.len(),
{
    if a.len() != 0 && b.len() != 0 {
        if a[0] == b[0] {
            lemma_lex_total(a.skip(1), b.skip(1));
        } else {
            let au = a[0] as u32;
            let bu = b[0] as u32;
            if au == bu {
                vstd::utf8::char_u32_cast(a[0], au);
                vstd::utf8::char_u32_cast(b[0], bu);
            }
        }
    }
}

/// `lex_leq` is transitive.
pub proof fn lemma_lex_trans(a: Seq<char>, b: Seq<char>, c: Seq<char>)
    requires
        lex_leq(a, b),
        lex_leq(b, c),
    ensures
        lex_leq(a, c),
    decreases a.len(),
{
    if a.len() != 0 && b.len() != 0 && c.len() != 0 {
        if a[0] == b[0] && b[0] == c[0] {
            lemma_lex_trans(a.skip(1), b.skip(1), c.skip(1));
        }
    }
}

/// Runtime lexicographic comparison of two string slices.
pub fn str_leq(a: &str, b: &str) -> (r: bool)
    ensures
        r == lex_leq(a@, b@),
{
    let na = a.unicode_len();
    let nb = b.unicode_len();
    proof {
        assert(a@.skip(0) =~= a@);
        assert(b@.skip(0) =~= b@);
    }
    let mut i: usize = 0;
    loop
        invariant
            na == a@.len(),
            nb == b@.len(),
            i <= na,
            i <= nb,
            lex_leq(a@, b@) == lex_leq(a@.skip(i as int), b@.skip(i as int)),
        decreases na - i,
    {
        if i >= na {
            return true;
        }
        if i >= nb {
            return false;
        }
        let ca = a.get_char(i);
        let cb = b.get_char(i);
        if ca != cb {
            return (ca as u32) < (cb as u32);
        }
        proof {
            assert(a@.skip(i as int).skip(1) =~= a@.skip(i + 1));
            assert(b@.skip(i as int).skip(1) =~= b@.skip(i + 1));
        }
        i += 1;
    }
}

/// A decimal digit.
pub open spec fn is_digit(c: char) -> bool {
    ('0' as u32) <= (c as u32) && (c as u32) <= ('9' as u32)
}

/// Numeric value of a decimal digit.
pub open spec fn digit_val(c: char) -> nat
    recommends
        is_digit(c),
{
    ((c as u32) - ('0' as u32)) as nat
}

/// Every character of `s` is a decimal digit.
pub open spec fn all_digits(s: Seq<char>) -> bool {
    forall|i: int| 0 <= i < s.len() ==> is_digit(s[i])
}

/// Value of a digit string read in base ten.
pub open spec fn digits_val(s: Seq<char>) -> nat
    decreases s.len(),
{
    if s.len() == 0 {
        0
    } else {
        digits_val(s.drop_last()) * 10 + digit_val(s.last())
    }
}

/// The value of a digit string is at least the value of any of its prefixes.
pub proof fn lemma_digits_val_prefix_le(s: Seq<char>, k: int)
    requires
        0 <= k <= s.len(),
    ensures
        digits_val(s.take(k)) <= digits_val(s),
    decreases s.len() - k,
{
    if k < s.len() {
        assert(s.take(k + 1).drop_last() =~= s.take(k));
        assert(s.take(k + 1).last() == s[k]);
        assert(digits_val(s.take(k)) <= digits_val(s.take(k)) * 10 + digit_val(s[k]));
        lemma_digits_val_prefix_le(s, k + 1);
    } else {
        assert(s.take(k) =~= s);
    }
}

/// A non-empty all-digit string whose value fits in sixteen bits, or `None`.
pub open spec fn spec_parse_digits(d: Seq<char>) -> Option<u16> {
    if d.len() > 0 && all_digits(d) && digits_val(d) <= 65535 {
        Some(digits_val(d) as u16)
    } else {
        None
    }
}

/// What `str::parse::<u16>` accepts: an optional leading `+`, then one or
/// more decimal digits, whose value fits in sixteen bits.
pub open spec fn spec_parse_u16(s: Seq<char>) -> Option<u16> {
    if s.len() > 0 && s[0] == '+' {
        spec_parse_digits(s.skip(1))
    } else {
        spec_parse_digits(s)
    }
}

/// Parse a 16-bit unsigned integer from a string slice; out-of-range and
/// non-numeric values give `None`.
pub fn parse_u16(s: &str) -> (r: Option<u16>)
    ensures
        r == spec_parse_u16(s@),
{
    let n = s.unicode_len();
    let start: usize = if n > 0 && s.get_char(0) == '+' {
        1
    } else {
        0
    };
    let ghost d = if s@.len() > 0 && s@[0] == '+' {
        s@.skip(1)
    } else {
        s@
    };
    proof {
        assert(d =~= s@.subrange(start as int, n as int));
        assert(spec_parse_u16(s@) == spec_parse_digits(d));
    }
    if start >= n {
        return None;
    }
    let mut acc: u32 = 0;
    let mut i: usize = start;
    while i < n
        invariant
            start <= i <= n,
            n == s@.len(),
            start < n,
            d =~= s@.subrange(start as int, n as int),
            spec_parse_u16(s@) == spec_parse_digits(d),
            forall|j: int| start <= j < i ==> is_digit(s@[j]),
            acc == digits_val(s@.subrange(start as int, i as int)),
            acc <= 65535,
        decreases n - i,
    {
        let c = s.get_char(i);
        let cv = c as u32;
        if cv < '0' as u32 || cv > '9' as u32 {
            proof {
                assert(0 <= i - start < d.len());
                assert(d[i - start] == s@[i as int]);
                assert(!is_digit(d[i - start]));
                assert(!all_digits(d));
            }
            return None;
        }
        let dv: u32 = cv - '0' as u32;
        let next: u32 = acc * 10 + dv;
        proof {
            assert(s@.subrange(start as int, i + 1).drop_last() =~= s@.subrange(
                start as int,
                i as int,
            ));
            assert(s@.subrange(start as int, i + 1).last() == s@[i as int]);
        }
        if next > 65535 {
            proof {
                if all_digits(d) {
                    lemma_digits_val_prefix_le(d, i + 1 - start);
                    assert(d.take(i + 1 - start) =~= s@.subrange(start as int, i + 1));
                    assert(digits_val(d) > 65535);
                }
            }
            return None;
        }
        acc = next;
        i += 1;
    }
    proof {
        assert(d =~= s@.subrange(start as int, n as int));
        assert(forall|j: int| 0 <= j < d.len() ==> is_digit(#[trigger] d[j]));
    }
    Some(acc as u16)
}

/// Character of a decimal digit value.
pub open spec fn digit_char(d: nat) -> char {
    if d == 0 {
        '0'
    } else if d == 1 {
        '1'
    } else if d == 2 {
        '2'
    } else if d == 3 {
        '3'
    } else if d == 4 {
        '4'
    } else if d == 5 {
        '5'
    } else if d == 6 {
        '6'
    } else if d == 7 {
        '7'
    } else if d == 8 {
        '8'
    } else {
        '9'
    }
}

/// Decimal digits of `n`, most significant first, with no leading zeros.
pub open spec fn dec_digits(n: nat) -> Seq<char>
    decreases n,
{
    if n < 10 {
        seq![digit_char(n)]
    } else {
        dec_digits(n / 10).push(digit_char(n % 10))
    }
}

fn digit_str(d: u16) -> (r: &'static str)
    requires
        d < 10,
    ensures
        r@ == seq![digit_char(d as nat)],
{
    proof {
        reveal_strlit("0");
        reveal_strlit("1");
        reveal_strlit("2");
        reveal_strlit("3");
        reveal_strlit("4");
        reveal_strlit("5");
        reveal_strlit("6");
        reveal_strlit("7");
        reveal_strlit("8");
        reveal_strlit("9");
    }
    let r = match d {
        0 => "0",
        1 => "1",
        2 => "2",
        3 => "3",
        4 => "4",
        5 => "5",
        6 => "6",
        7 => "7",
        8 => "8",
        _ => "9",
    };
    proof {
        assert(r@ =~= seq![digit_char(d as nat)]);
    }
    r
}

/// Decimal rendering of a 16-bit unsigned integer.
pub fn u16_to_string(n: u16) -> (r: String)
    ensures
        r@ == dec_digits(n as nat),
    decreases n,
{
    if n < 10 {
        String::from_str(digit_str(n))
    } else {
        let mut s = u16_to_string(n / 10);
        s.append(digit_str(n % 10));
        proof {
            assert(s@ =~= dec_digits(n as nat));
        }
        s
    }
}

/// `needle` occurs contiguously somewhere in `hay`.
pub open spec fn is_substring_of(hay: Seq<char>, needle: Seq<char>) -> bool {
    exists|k: int|
        0 <= k && k + needle.len() <= hay.len() && #[trigger] hay.subrange(k, k + needle.len())
            == needle
}

fn match_at(hay: &str, needle: &str, k: usize) -> (r: bool)
    requires
        k + needle@.len() <= hay@.len(),
    ensures
        r == (hay@.subrange(k as int, k + needle@.len()) == needle@),
{
    let hn = hay.unicode_len();
    let nn = needle.unicode_len();
    let mut i: usize = 0;
    while i < nn
        invariant
            hn == hay@.len(),
            nn == needle@.len(),
            k + nn <= hay@.len(),
            i <= nn,
            forall|j: int| 0 <= j < i ==> hay@[k + j] == needle@[j],
        decreases nn - i,
    {
        if hay.get_char(k + i) != needle.get_char(i) {
            proof {
                assert(hay@.subrange(k as int, k + needle@.len())[i as int] == hay@[k + i]);
            }
            return false;
        }
        i += 1;
    }
    proof {
        assert(hay@.subrange(k as int, k + needle@.len()) =~= needle@);
    }
    true
}

/// Substring search; an empty `needle` is found in every `hay`.
pub fn contains_str(hay: &str, needle: &str) -> (r: bool)
    ensures
        r == is_substring_of(hay@, needle@),
{
    let hn = hay.unicode_len();
    let nn = needle.unicode_len();
    if nn > hn {
        return false;
    }
    let mut k: usize = 0;
    loop
        invariant
            hn == hay@.len(),
            nn == needle@.len(),
            nn <= hn,
            k <= hn - nn,
            forall|j: int|
                0 <= j < k ==> #[trigger] hay@.subrange(j, j + needle@.len()) != needle@,
        decreases hn - nn - k,
    {
        if match_at(hay, needle, k) {
            return true;
        }
        if k == hn - nn {
            proof {
                assert forall|j: int|
                    0 <= j && j + needle@.len() <= hay@.len() implies #[trigger] hay@.subrange(
                    j,
                    j + needle@.len(),
                ) != needle@ by {
                    if j < k {
                    } else {
                        assert(j == k as int);
                    }
                }
            }
            return false;
        }
        k += 1;
    }
}

} // verus!
