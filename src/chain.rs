use crate::text::{
    chars_of, decimal, eq_ignore_ascii_case, parse_u16_range, parse_u16_spec, push_decimal,
    range_eq_ignore_ascii_case,
};
use vstd::prelude::*;

verus! {

/// The identifier of a chain.
///
/// Every 16-bit value names exactly one chain: `Any` is 0, `Solana` is 1, and
/// any other value `n` is `Unknown(n)`. A value built by decoding never holds
/// `Unknown(0)` or `Unknown(1)` (see [`Chain::wf`]).
#[derive(Debug, Clone, Copy, PartialEq, Eq, Structural, PartialOrd, Ord, Hash)]
pub enum Chain {
    /// In the wire format, 0 says that a message is for any destination chain.
    Any,
    /// The Solana chain, code 1.
    Solana,
    /// A chain with no named variant yet, by its numeric code.
    Unknown(u16),
}

impl Chain {
    /// The chain that the numeric code `n` names.
    pub open spec fn spec_from_u16(n: u16) -> Chain {
        if n == 0 {
            Chain::Any
        } else if n == 1 {
            Chain::Solana
        } else {
            Chain::Unknown(n)
        }
    }

    /// The numeric code of a chain.
    pub open spec fn spec_to_u16(self) -> u16 {
        match self {
            Chain::Any => 0,
            Chain::Solana => 1,
            Chain::Unknown(n) => n,
        }
    }

    /// A chain in canonical form: `Unknown` never holds a code that has a
    /// named variant.
    pub open spec fn wf(self) -> bool {
        match self {
            Chain::Unknown(n) => n != 0 && n != 1,
            _ => true,
        }
    }
}

impl From<u16> for Chain {
    fn from(other: u16) -> (r: Chain)
        ensures
            r == Chain::spec_from_u16(other),
            r.wf(),
    {
        match other {
            0 => Chain::Any,
            1 => Chain::Solana,
            c => Chain::Unknown(c),
        }
    }
}

impl vstd::std_specs::convert::FromSpecImpl<u16> for Chain {
    open spec fn obeys_from_spec() -> bool {
        true
    }

    open spec fn from_spec(v: u16) -> Chain {
        Chain::spec_from_u16(v)
    }
}

impl From<Chain> for u16 {
    fn from(other: Chain) -> (r: u16)
        ensures
            r == other.spec_to_u16(),
    {
        match other {
            Chain::Any => 0,
            Chain::Solana => 1,
            Chain::Unknown(c) => c,
        }
    }
}

impl vstd::std_specs::convert::FromSpecImpl<Chain> for u16 {
    open spec fn obeys_from_spec() -> bool {
        true
    }

    open spec fn from_spec(v: Chain) -> u16 {
        v.spec_to_u16()
    }
}

impl Default for Chain {
    fn default() -> (r: Chain)
        ensures
            r == Chain::Any,
    {
        Chain::Any
    }
}

/// Whether `c` separates the parts of the text `Unknown(<code>)`.
pub open spec fn is_delimiter(c: char) -> bool {
    c == '(' || c == ')'
}

/// The position of the first delimiter in `s` at or after `from`, or the
/// length of `s` where there is none.
pub open spec fn next_delimiter(s: Seq<char>, from: int) -> int
    decreases s.len() - from,
{
    if from >= s.len() {
        s.len() as int
    } else if is_delimiter(s[from]) {
        from
    } else {
        next_delimiter(s, from + 1)
    }
}

/// The keyword of `Any`, in lower case.
pub open spec fn word_any() -> Seq<char> {
    seq!['a', 'n', 'y']
}

/// The keyword of `Solana`, in lower case.
pub open spec fn word_solana() -> Seq<char> {
    seq!['s', 'o', 'l', 'a', 'n', 'a']
}

/// The keyword that opens the text of an unnamed chain, in lower case.
pub open spec fn word_unknown() -> Seq<char> {
    seq!['u', 'n', 'k', 'n', 'o', 'w', 'n']
}

impl Chain {
    /// The canonical text of a chain: `Any`, `Solana` or `Unknown(<code>)`
    /// with the code in decimal.
    pub open spec fn spec_text(self) -> Seq<char> {
        match self {
            Chain::Any => seq!['A', 'n', 'y'],
            Chain::Solana => seq!['S', 'o', 'l', 'a', 'n', 'a'],
            Chain::Unknown(n) => seq!['U', 'n', 'k', 'n', 'o', 'w', 'n', '('] + decimal(n as nat)
                + seq![')'],
        }
    }

    /// The chain that the text `s` names, if any.
    ///
    /// `any` and `solana` match without regard to ASCII case. Otherwise the
    /// text is split at `(` and `)`: the first part must be `unknown` in any
    /// ASCII case, and the second a 16-bit number, which is then decoded as a
    /// numeric code is.
    pub open spec fn spec_parse(s: Seq<char>) -> Option<Chain> {
        if eq_ignore_ascii_case(s, word_any()) {
            Some(Chain::Any)
        } else if eq_ignore_ascii_case(s, word_solana()) {
            Some(Chain::Solana)
        } else {
            let i = next_delimiter(s, 0);
            if eq_ignore_ascii_case(s.subrange(0, i), word_unknown()) && i < s.len() {
                match parse_u16_spec(s.subrange(i + 1, next_delimiter(s, i + 1))) {
                    Some(n) => Some(Chain::spec_from_u16(n)),
                    None => None,
                }
            } else {
                None
            }
        }
    }

    /// The canonical text of this chain.
    pub fn to_string(&self) -> (r: String)
        ensures
            r@ == self.spec_text(),
    {
        match self {
            Chain::Any => {
                proof {
                    reveal_strlit("Any");
                }
                String::from_str("Any")
            },
            Chain::Solana => {
                proof {
                    reveal_strlit("Solana");
                }
                String::from_str("Solana")
            },
            Chain::Unknown(n) => {
                proof {
                    reveal_strlit("Unknown(");
                    reveal_strlit(")");
                }
                let mut r = String::from_str("Unknown(");
                push_decimal(&mut r, *n);
                r.append(")");
                r
            },
        }
    }

    /// Parses a chain from its text; the error holds the text.
    pub fn parse(s: &str) -> (r: Result<Chain, InvalidChainError>)
        ensures
            r is Ok <==> Chain::spec_parse(s@) is Some,
            r is Ok ==> Chain::spec_parse(s@) == Some(r->Ok_0) && r->Ok_0.wf(),
            r is Err ==> r->Err_0.0@ == s@,
    {
        let chars = chars_of(s);
        let n = chars.len();
        let any: Vec<char> = vec!['a', 'n', 'y'];
        let solana: Vec<char> = vec!['s', 'o', 'l', 'a', 'n', 'a'];
        let unknown: Vec<char> = vec!['u', 'n', 'k', 'n', 'o', 'w', 'n'];
        assert(chars@.subrange(0, n as int) =~= s@);
        if range_eq_ignore_ascii_case(&chars, 0, n, &any) {
            return Ok(Chain::Any);
        }
        if range_eq_ignore_ascii_case(&chars, 0, n, &solana) {
            return Ok(Chain::Solana);
        }
        let i = find_delimiter(&chars, 0);
        if !range_eq_ignore_ascii_case(&chars, 0, i, &unknown) || i == n {
            return Err(InvalidChainError(String::from_str(s)));
        }
        let j = find_delimiter(&chars, i + 1);
        match parse_u16_range(&chars, i + 1, j) {
            Some(code) => Ok(Chain::from(code)),
            None => Err(InvalidChainError(String::from_str(s))),
        }
    }
}

/// The position of the first delimiter in `chars` at or after `from`, or the
/// length of `chars` where there is none.
fn find_delimiter(chars: &Vec<char>, from: usize) -> (r: usize)
    requires
        from <= chars@.len(),
    ensures
        r == next_delimiter(chars@, from as int),
        from <= r <= chars@.len(),
{
    let mut i = from;
    while i < chars.len()
        invariant
            from <= i <= chars@.len(),
            next_delimiter(chars@, i as int) == next_delimiter(chars@, from as int),
        decreases chars@.len() - i,
    {
        let c = chars[i];
        if c == '(' || c == ')' {
            return i;
        }
        i += 1;
    }
    i
}

impl std::str::FromStr for Chain {
    type Err = InvalidChainError;

    /// Parses a chain from its text, as [`Chain::parse`] does.
    fn from_str(s: &str) -> (r: Result<Chain, InvalidChainError>)
        ensures
            r is Ok <==> Chain::spec_parse(s@) is Some,
            r is Ok ==> Chain::spec_parse(s@) == Some(r->Ok_0) && r->Ok_0.wf(),
            r is Err ==> r->Err_0.0@ == s@,
    {
        Chain::parse(s)
    }
}

/// The error of parsing a chain from text; it holds the rejected input.
#[derive(Debug)]
pub struct InvalidChainError(pub String);

} // verus!
