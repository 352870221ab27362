use std::str::FromStr;
use wormhole_chain::{Chain, InvalidChainError};

#[test]
fn isomorphic_from() {
    for i in 0u16..=u16::MAX {
        assert_eq!(i, u16::from(Chain::from(i)));
    }
}

#[test]
fn isomorphic_display() {
    for i in 0u16..=u16::MAX {
        let c = Chain::from(i);
        assert_eq!(c, c.to_string().parse().unwrap());
    }
}

#[test]
fn decode_is_canonical() {
    assert_eq!(Chain::from(0), Chain::Any);
    assert_eq!(Chain::from(1), Chain::Solana);
    assert_eq!(Chain::from(2), Chain::Unknown(2));
    assert_eq!(Chain::from(u16::MAX), Chain::Unknown(65535));
    for i in 0u16..=u16::MAX {
        assert_ne!(Chain::from(i), Chain::Unknown(0));
        assert_ne!(Chain::from(i), Chain::Unknown(1));
    }
}

#[test]
fn encode_known_chains() {
    assert_eq!(u16::from(Chain::Any), 0);
    assert_eq!(u16::from(Chain::Solana), 1);
    assert_eq!(u16::from(Chain::Unknown(65535)), 65535);
}

#[test]
fn text_of_each_variant() {
    assert_eq!(Chain::Any.to_string(), "Any");
    assert_eq!(Chain::Solana.to_string(), "Solana");
    assert_eq!(Chain::Unknown(42).to_string(), "Unknown(42)");
    assert_eq!(Chain::Unknown(7).to_string(), "Unknown(7)");
    assert_eq!(Chain::Unknown(10).to_string(), "Unknown(10)");
    assert_eq!(Chain::Unknown(65535).to_string(), "Unknown(65535)");
}

#[test]
fn parse_ignores_case() {
    for s in ["any", "ANY", "Any", "aNy"] {
        assert_eq!(Chain::parse(s).unwrap(), Chain::Any);
    }
    for s in ["solana", "SOLANA", "Solana", "sOlAnA"] {
        assert_eq!(Chain::parse(s).unwrap(), Chain::Solana);
    }
    assert_eq!(Chain::parse("UNKNOWN(7)").unwrap(), Chain::Unknown(7));
    assert_eq!(Chain::parse("unknown(7)").unwrap(), Chain::Unknown(7));
    assert_eq!(Chain::parse("UnKnOwN(7)").unwrap(), Chain::Unknown(7));
}

#[test]
fn default_is_any() {
    assert_eq!(Chain::default(), Chain::Any);
}

#[test]
fn parse_rejects_bad_text() {
    for s in ["", "Solna", "Unknown", "Unknown()", "Unknown(-1)", "Unknown(65536)", "Unknown(+)", "Chain(3)", " any"] {
        let e: InvalidChainError = Chain::parse(s).unwrap_err();
        assert_eq!(e.0, s);
    }
}

#[test]
fn unknown_code_end_to_end() {
    let c = Chain::from(42);
    assert_eq!(c, Chain::Unknown(42));
    assert_eq!(c.to_string(), "Unknown(42)");
    assert_eq!(Chain::parse("Unknown(42)").unwrap(), Chain::Unknown(42));
    assert_eq!(u16::from(Chain::Unknown(42)), 42);
}

#[test]
fn parse_normalises_reserved_codes() {
    assert_eq!(Chain::parse("Unknown(0)").unwrap(), Chain::Any);
    assert_eq!(Chain::parse("Unknown(1)").unwrap(), Chain::Solana);
}

#[test]
fn parse_number_forms() {
    assert_eq!(Chain::parse("Unknown(+42)").unwrap(), Chain::Unknown(42));
    assert_eq!(Chain::parse("Unknown(0042)").unwrap(), Chain::Unknown(42));
    assert_eq!(Chain::parse("Unknown(65535)").unwrap(), Chain::Unknown(65535));
    assert_eq!(Chain::parse("Unknown(42").unwrap(), Chain::Unknown(42));
    assert_eq!(Chain::parse("Unknown(42)x").unwrap(), Chain::Unknown(42));
}

#[test]
fn from_str_matches_parse() {
    assert_eq!(Chain::from_str("solana").unwrap(), Chain::Solana);
    assert!(Chain::from_str("Unknown(x)").is_err());
    let c: Chain = "Unknown(9)".parse().unwrap();
    assert_eq!(c, Chain::Unknown(9));
}
