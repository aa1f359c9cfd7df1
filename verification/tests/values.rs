//! Tests of the value types: precedence resolution, the total order on
//! values, integer parsing, and rendering.

use std::cmp::Ordering;

use variant_args::{
    parse_i32, ArgumentError, ArgumentErrorKind, SocketAddress, Token, Variant, VariantFlag,
};

fn tok(s: &str) -> Token {
    Token {
        text: s.to_string(),
        float_bits: s.parse::<f32>().ok().map(f32::to_bits),
        socket: None,
    }
}

#[test]
fn precedence_bool_before_int_before_text() {
    let flag = VariantFlag::bool().or_int().or_string();
    assert_eq!(flag.parse(&tok("true")).unwrap().as_bool(), Some(true));
    assert_eq!(flag.parse(&tok("42")).unwrap().as_int(), Some(42));
    assert_eq!(flag.parse(&tok("other")).unwrap().as_string(), Some("other"));
}

#[test]
fn precedence_int_before_float() {
    let flag = VariantFlag::float().or_int();
    assert_eq!(flag.parse(&tok("42")).unwrap().as_int(), Some(42));
    assert_eq!(
        flag.parse(&tok("4.5")).unwrap().as_float_bits(),
        Some(4.5f32.to_bits())
    );
    assert_eq!(
        flag.parse(&tok("1e3")).unwrap().as_float_bits(),
        Some(1e3f32.to_bits())
    );
}

#[test]
fn precedence_path_before_string() {
    let flag = VariantFlag::path().or_string();
    let v = flag.parse(&tok("/etc/hosts")).unwrap();
    assert_eq!(v.as_path().map(|p| p.as_str()), Some("/etc/hosts"));
    assert_eq!(v.as_string(), None);
}

#[test]
fn socket_before_path() {
    let flag = VariantFlag::socket().or_path();
    let addr = SocketAddress::V4 {
        o0: 10,
        o1: 0,
        o2: 0,
        o3: 7,
        port: 99,
    };
    let with_socket = Token {
        text: "10.0.0.7:99".to_string(),
        float_bits: None,
        socket: Some(addr),
    };
    assert_eq!(flag.parse(&with_socket).unwrap().as_socket(), Some(addr));
    // without a resolved address the same text falls through to path
    let v = flag.parse(&tok("10.0.0.7:99")).unwrap();
    assert_eq!(v.as_path().map(|p| p.as_str()), Some("10.0.0.7:99"));
}

#[test]
fn unit_constraint_matches_nothing() {
    let flag = VariantFlag::new_unit();
    assert!(flag.parse(&tok("true")).is_none());
    assert!(flag.parse(&tok("anything")).is_none());
    assert!(flag.is_unit());
    assert!(!VariantFlag::bool().is_unit());
}

#[test]
fn int_only_rejects_non_numeric() {
    let flag = VariantFlag::new_int();
    assert!(flag.parse(&tok("abc")).is_none());
    assert!(flag.parse(&tok("4.5")).is_none());
    assert_eq!(flag.parse(&tok("-17")).unwrap().as_int(), Some(-17));
}

#[test]
fn bool_literals_are_exact() {
    let flag = VariantFlag::bool();
    assert_eq!(flag.parse(&tok("false")).unwrap().as_bool(), Some(false));
    assert!(flag.parse(&tok("True")).is_none());
    assert!(flag.parse(&tok("1")).is_none());
}

#[test]
fn parse_i32_grammar() {
    assert_eq!(parse_i32("0"), Some(0));
    assert_eq!(parse_i32("007"), Some(7));
    assert_eq!(parse_i32("+17"), Some(17));
    assert_eq!(parse_i32("-17"), Some(-17));
    assert_eq!(parse_i32("2147483647"), Some(i32::MAX));
    assert_eq!(parse_i32("-2147483648"), Some(i32::MIN));
    assert_eq!(parse_i32("2147483648"), None);
    assert_eq!(parse_i32("-2147483649"), None);
    assert_eq!(parse_i32("99999999999999999999"), None);
    assert_eq!(parse_i32(""), None);
    assert_eq!(parse_i32("-"), None);
    assert_eq!(parse_i32("+"), None);
    assert_eq!(parse_i32("1a"), None);
    assert_eq!(parse_i32(" 1"), None);
    assert_eq!(parse_i32("1 "), None);
}

#[test]
fn total_order_ranks_representations() {
    let sock = Variant::Socket(SocketAddress::V4 {
        o0: 1,
        o1: 2,
        o2: 3,
        o3: 4,
        port: 5,
    });
    let chain = [
        Variant::Bool(false),
        Variant::Bool(true),
        Variant::Int(-5),
        Variant::Int(5),
        Variant::Float(1.0f32.to_bits()),
        sock,
        Variant::Path("/a".to_string()),
        Variant::Text("b".to_string()),
    ];
    for i in 0..chain.len() {
        for j in 0..chain.len() {
            let expected = i.cmp(&j);
            assert_eq!(chain[i].total_cmp(&chain[j]), expected);
        }
    }
}

#[test]
fn total_order_within_floats_is_the_ieee_total_order() {
    let values = [
        f32::NEG_INFINITY,
        -1.5f32,
        -0.0f32,
        0.0f32,
        1.5f32,
        f32::INFINITY,
        f32::NAN,
    ];
    for i in 0..values.len() {
        for j in 0..values.len() {
            let a = Variant::Float(values[i].to_bits());
            let b = Variant::Float(values[j].to_bits());
            assert_eq!(a.total_cmp(&b), values[i].total_cmp(&values[j]));
        }
    }
}

#[test]
fn total_order_within_sockets() {
    let v4a = Variant::Socket(SocketAddress::V4 {
        o0: 1,
        o1: 0,
        o2: 0,
        o3: 0,
        port: 80,
    });
    let v4b = Variant::Socket(SocketAddress::V4 {
        o0: 1,
        o1: 0,
        o2: 0,
        o3: 0,
        port: 81,
    });
    let v6 = Variant::Socket(SocketAddress::V6 {
        g0: 0,
        g1: 0,
        g2: 0,
        g3: 0,
        g4: 0,
        g5: 0,
        g6: 0,
        g7: 1,
        port: 1,
    });
    assert_eq!(v4a.total_cmp(&v4b), Ordering::Less);
    assert_eq!(v4b.total_cmp(&v4a), Ordering::Greater);
    assert_eq!(v4a.total_cmp(&v4a), Ordering::Equal);
    assert_eq!(v4b.total_cmp(&v6), Ordering::Less);
}

#[test]
fn total_order_within_text_is_lexicographic() {
    let a = Variant::Text("apple".to_string());
    let b = Variant::Text("apricot".to_string());
    let c = Variant::Text("app".to_string());
    assert_eq!(a.total_cmp(&b), Ordering::Less);
    assert_eq!(c.total_cmp(&a), Ordering::Less);
    assert_eq!(a.total_cmp(&a), Ordering::Equal);
}

#[test]
fn accessors_are_exclusive() {
    let v = Variant::Int(3);
    assert_eq!(v.as_int(), Some(3));
    assert_eq!(v.as_bool(), None);
    assert_eq!(v.as_float_bits(), None);
    assert_eq!(v.as_socket(), None);
    assert!(v.as_path().is_none());
    assert!(v.as_string().is_none());
    assert_eq!(Variant::Text("t".to_string()).into_string(), Some("t".to_string()));
    assert_eq!(Variant::Path("p".to_string()).into_path(), Some("p".to_string()));
    assert_eq!(Variant::Int(3).into_string(), None);
    assert_eq!(Variant::Int(3).into_path(), None);
}

#[test]
fn describe_renders_the_allowed_set() {
    assert_eq!(VariantFlag::new_unit().describe(), "flag");
    assert_eq!(VariantFlag::bool().describe(), "bool");
    assert_eq!(VariantFlag::bool().or_int().describe(), "bool|int");
    assert_eq!(
        VariantFlag::bool().or_int().or_socket().or_path().or_string().describe(),
        "bool|int|socket|path|string"
    );
    assert_eq!(VariantFlag::float().or_bool().describe(), "bool|float");
}

#[test]
fn messages_guide_the_user() {
    let e = ArgumentError::new(ArgumentErrorKind::UnknownFlag {
        name: "missing".to_string(),
    });
    assert_eq!(e.message(), "--missing does not match any known flag name");
    let e = ArgumentError::new(ArgumentErrorKind::MissingFlagValue {
        name: "num".to_string(),
    });
    assert_eq!(e.message(), "Unexpected end of arguments, num needs a value");
    let e = ArgumentError::new(ArgumentErrorKind::InvalidFlagValue {
        name: "num".to_string(),
        value: "abc".to_string(),
    });
    assert_eq!(e.message(), "Argument abc is not a valid type for --num");
    let e = ArgumentError::new(ArgumentErrorKind::InvalidPositionalValue {
        index: 12,
        allowed: VariantFlag::new_int().or_string(),
    });
    assert_eq!(
        e.message(),
        "Positional argument 12 cannot be parsed as type int|string"
    );
    let e = ArgumentError::new(ArgumentErrorKind::UnknownAbbreviation {
        abbreviation: 'z',
        token: "-z".to_string(),
    });
    assert_eq!(e.message(), "-z does not match any known flag abbreviation");
    let e = ArgumentError::new(ArgumentErrorKind::EmptyArgumentList);
    assert_eq!(e.message(), "Argument count is 0");
    let e = ArgumentError::new(ArgumentErrorKind::TooManyPositionals);
    assert_eq!(e.message(), "There are too many positional arguments");
    let e = ArgumentError::new(ArgumentErrorKind::TooFewPositionals);
    assert_eq!(e.message(), "Not enough positional arguments were supplied");
}
