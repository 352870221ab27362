use crate::chain::{is_delimiter, next_delimiter, word_any, word_solana, word_unknown, Chain};
use crate::text::{
    all_digits, ascii_lower, decimal, eq_ignore_ascii_case, is_digit, lemma_decimal_digits,
    lemma_parse_decimal, parse_u16_spec, unsigned_part,
};
use vstd::prelude::*;

verus! {

/// Decoding a numeric code and encoding the chain gives the code back, for
/// every 16-bit value.
pub proof fn lemma_numeric_round_trip(n: u16)
    ensures
        Chain::spec_from_u16(n).spec_to_u16() == n,
{
}

/// Encoding a canonical chain and decoding the code gives the chain back.
pub proof fn lemma_encode_decode(c: Chain)
    requires
        c.wf(),
    ensures
        Chain::spec_from_u16(c.spec_to_u16()) == c,
{
}

/// Decoding is canonical: 0 is `Any`, 1 is `Solana`, and no decoded chain is
/// `Unknown(0)` or `Unknown(1)`.
pub proof fn lemma_decode_canonical(n: u16)
    ensures
        Chain::spec_from_u16(n).wf(),
        Chain::spec_from_u16(n) == Chain::Any <==> n == 0,
        Chain::spec_from_u16(n) == Chain::Solana <==> n == 1,
{
}

/// Where no character of `s[from..j]` is a delimiter and `s[j]` is one (or
/// `j` is the end), the next delimiter from `from` is at `j`.
proof fn lemma_next_delimiter_at(s: Seq<char>, from: int, j: int)
    requires
        0 <= from <= j <= s.len(),
        forall|k: int| from <= k < j ==> !is_delimiter(#[trigger] s[k]),
        j == s.len() || is_delimiter(s[j]),
    ensures
        next_delimiter(s, from) == j,
    decreases j - from,
{
    if from < j {
        lemma_next_delimiter_at(s, from + 1, j);
    }
}

/// Parsing the canonical text of a canonical chain gives the chain back.
pub proof fn lemma_text_round_trip(c: Chain)
    requires
        c.wf(),
    ensures
        Chain::spec_parse(c.spec_text()) == Some(c),
{
    let s = c.spec_text();
    match c {
        Chain::Any => {
            assert(eq_ignore_ascii_case(s, word_any()));
        },
        Chain::Solana => {
            assert(eq_ignore_ascii_case(s, word_solana()));
        },
        Chain::Unknown(n) => {
            let d = decimal(n as nat);
            let e: int = 8 + d.len() as int;
            lemma_decimal_digits(n as nat);
            lemma_parse_decimal(n);
            assert(s[7] == '(');
            lemma_next_delimiter_at(s, 0, 7);
            assert(s.subrange(0, 7) =~= seq!['U', 'n', 'k', 'n', 'o', 'w', 'n']);
            assert(eq_ignore_ascii_case(s.subrange(0, 7), word_unknown()));
            assert forall|k: int| 8 <= k < e implies !is_delimiter(#[trigger] s[k]) by {
                assert(s[k] == d[k - 8]);
                assert(is_digit(d[k - 8]));
            }
            assert(s[e] == ')');
            lemma_next_delimiter_at(s, 8, e);
            assert(s.subrange(8, e) =~= d);
        },
    }
}

/// Decoding any 16-bit code, writing the chain as text and parsing that text
/// gives the decoded chain.
pub proof fn lemma_decode_text_round_trip(n: u16)
    ensures
        Chain::spec_parse(Chain::spec_from_u16(n).spec_text()) == Some(Chain::spec_from_u16(n)),
{
    lemma_text_round_trip(Chain::spec_from_u16(n));
}

/// Two characters that agree up to ASCII case, and are not letters, are equal.
proof fn lemma_same_non_letter(a: char, b: char)
    requires
        ascii_lower(a) == ascii_lower(b),
        !(97 <= ascii_lower(a) <= 122),
    ensures
        a == b,
{
    vstd::utf8::char_u32_cast(a, a as u32);
    vstd::utf8::char_u32_cast(b, b as u32);
}

/// The next delimiter lies between `from` and the end of the text.
proof fn lemma_next_delimiter_bounds(s: Seq<char>, from: int)
    requires
        0 <= from <= s.len(),
    ensures
        from <= next_delimiter(s, from) <= s.len(),
    decreases s.len() - from,
{
    if from < s.len() && !is_delimiter(s[from]) {
        lemma_next_delimiter_bounds(s, from + 1);
    }
}

/// Texts that agree up to ASCII case agree on where their delimiters are.
proof fn lemma_next_delimiter_ignores_case(s: Seq<char>, t: Seq<char>, from: int)
    requires
        eq_ignore_ascii_case(s, t),
        0 <= from,
    ensures
        next_delimiter(s, from) == next_delimiter(t, from),
    decreases s.len() - from,
{
    if from < s.len() {
        assert(ascii_lower(s[from]) == ascii_lower(t[from]));
        if is_delimiter(s[from]) || is_delimiter(t[from]) {
            lemma_same_non_letter(s[from], t[from]);
        }
        lemma_next_delimiter_ignores_case(s, t, from + 1);
    }
}

/// A run of digits agrees up to ASCII case only with itself.
proof fn lemma_digits_ignore_case(s: Seq<char>, t: Seq<char>)
    requires
        eq_ignore_ascii_case(s, t),
        all_digits(s),
    ensures
        s == t,
{
    assert forall|i: int| 0 <= i < s.len() implies s[i] == t[i] by {
        assert(is_digit(s[i]));
        assert(ascii_lower(s[i]) == ascii_lower(t[i]));
        lemma_same_non_letter(s[i], t[i]);
    }
    assert(s =~= t);
}

/// Texts that agree up to ASCII case spell the same 16-bit number, or none.
proof fn lemma_parse_u16_ignores_case(s: Seq<char>, t: Seq<char>)
    requires
        eq_ignore_ascii_case(s, t),
    ensures
        parse_u16_spec(s) == parse_u16_spec(t),
{
    if s.len() > 0 && (s[0] == '+' || t[0] == '+') {
        assert(ascii_lower(s[0]) == ascii_lower(t[0]));
        lemma_same_non_letter(s[0], t[0]);
    }
    let u = unsigned_part(s);
    let v = unsigned_part(t);
    assert(eq_ignore_ascii_case(u, v)) by {
        if s.len() > 0 && s[0] == '+' {
            assert forall|i: int| 0 <= i < u.len() implies ascii_lower(#[trigger] u[i])
                == ascii_lower(v[i]) by {
                assert(u[i] == s[i + 1] && v[i] == t[i + 1]);
            }
        }
    }
    if all_digits(u) {
        lemma_digits_ignore_case(u, v);
    } else if all_digits(v) {
        lemma_digits_ignore_case(v, u);
    }
}

/// Texts that agree up to ASCII case agree with the same words up to ASCII
/// case.
proof fn lemma_eq_ignore_case_same_word(s: Seq<char>, t: Seq<char>, w: Seq<char>)
    requires
        eq_ignore_ascii_case(s, t),
    ensures
        eq_ignore_ascii_case(s, w) == eq_ignore_ascii_case(t, w),
{
    if eq_ignore_ascii_case(s, w) {
        assert forall|i: int| 0 <= i < t.len() implies ascii_lower(#[trigger] t[i]) == ascii_lower(
            w[i],
        ) by {
            assert(ascii_lower(s[i]) == ascii_lower(t[i]));
        }
    }
    if eq_ignore_ascii_case(t, w) {
        assert forall|i: int| 0 <= i < s.len() implies ascii_lower(#[trigger] s[i]) == ascii_lower(
            w[i],
        ) by {
            assert(ascii_lower(t[i]) == ascii_lower(w[i]));
        }
    }
}

/// Parsing ignores ASCII case: texts that agree up to the case of ASCII
/// letters parse to the same chain, or both fail.
pub proof fn lemma_parse_ignores_case(s: Seq<char>, t: Seq<char>)
    requires
        eq_ignore_ascii_case(s, t),
    ensures
        Chain::spec_parse(s) == Chain::spec_parse(t),
{
    lemma_eq_ignore_case_same_word(s, t, word_any());
    lemma_eq_ignore_case_same_word(s, t, word_solana());
    lemma_next_delimiter_bounds(s, 0);
    lemma_next_delimiter_ignores_case(s, t, 0);
    let i = next_delimiter(s, 0);
    if i < s.len() {
        lemma_next_delimiter_ignores_case(s, t, i + 1);
        let j = next_delimiter(s, i + 1);
        lemma_next_delimiter_bounds(s, i + 1);
        let a = s.subrange(i + 1, j);
        let b = t.subrange(i + 1, j);
        assert forall|k: int| 0 <= k < a.len() implies ascii_lower(#[trigger] a[k]) == ascii_lower(
            b[k],
        ) by {
            assert(a[k] == s[i + 1 + k] && b[k] == t[i + 1 + k]);
        }
        lemma_parse_u16_ignores_case(a, b);
    }
    let p = s.subrange(0, i);
    let q = t.subrange(0, i);
    assert forall|k: int| 0 <= k < p.len() implies ascii_lower(#[trigger] p[k]) == ascii_lower(
        q[k],
    ) by {
        assert(p[k] == s[k] && q[k] == t[k]);
    }
    lemma_eq_ignore_case_same_word(p, q, word_unknown());
}

} // verus!
