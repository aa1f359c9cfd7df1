//! End-to-end tests of the parsing pass: classification, arity, flag
//! matching, and the error taxonomy.

use variant_args::{Args, ArgumentErrorKind, FlagDefinition, SocketAddress, Token, VariantFlag};

fn tok(s: &str) -> Token {
    Token {
        text: s.to_string(),
        float_bits: s.parse::<f32>().ok().map(f32::to_bits),
        socket: None,
    }
}

fn toks(texts: &[&str]) -> Vec<Token> {
    texts.iter().map(|t| tok(t)).collect()
}

#[test]
fn unit_flag_and_int_positional() {
    let positional = vec![VariantFlag::new_int()];
    let flags = vec![FlagDefinition {
        name: "verbose".to_string(),
        abbreviation: Some('v'),
        allowed_type: VariantFlag::new_unit(),
    }];
    let args = Args::from_tokens(&toks(&["prog", "-v", "42"]), &positional, &flags).unwrap();
    assert_eq!(args.binary(), "prog");
    assert_eq!(args.get_positional(0).unwrap().as_int(), Some(42));
    assert_eq!(args.get_named("verbose").unwrap().as_bool(), Some(true));
}

#[test]
fn socket_flag_resolves() {
    let positional = vec![];
    let flags = vec![FlagDefinition {
        name: "addr".to_string(),
        abbreviation: None,
        allowed_type: VariantFlag::socket().or_string(),
    }];
    let addr = SocketAddress::V4 {
        o0: 127,
        o1: 0,
        o2: 0,
        o3: 1,
        port: 8080,
    };
    let mut tokens = toks(&["prog", "--addr"]);
    tokens.push(Token {
        text: "127.0.0.1:8080".to_string(),
        float_bits: None,
        socket: Some(addr),
    });
    let args = Args::from_tokens(&tokens, &positional, &flags).unwrap();
    assert_eq!(args.get_named("addr").unwrap().as_socket(), Some(addr));
}

#[test]
fn too_few_positionals() {
    let positional = vec![VariantFlag::string()];
    let err = Args::from_tokens(&toks(&["prog"]), &positional, &vec![]).unwrap_err();
    assert!(matches!(err.kind(), ArgumentErrorKind::TooFewPositionals));
}

#[test]
fn invalid_positional_value() {
    let positional = vec![VariantFlag::new_int()];
    let err = Args::from_tokens(&toks(&["prog", "abc"]), &positional, &vec![]).unwrap_err();
    assert!(matches!(
        err.kind(),
        ArgumentErrorKind::InvalidPositionalValue { index: 0, .. }
    ));
}

#[test]
fn unknown_flag() {
    let err = Args::from_tokens(&toks(&["prog", "--missing"]), &vec![], &vec![]).unwrap_err();
    match err.kind() {
        ArgumentErrorKind::UnknownFlag { name } => assert_eq!(name.as_str(), "missing"),
        _ => panic!("unexpected kind"),
    }
}

#[test]
fn unknown_abbreviation() {
    let err = Args::from_tokens(&toks(&["prog", "-z"]), &vec![], &vec![]).unwrap_err();
    match err.kind() {
        ArgumentErrorKind::UnknownAbbreviation {
            abbreviation,
            token,
        } => {
            assert_eq!(*abbreviation, 'z');
            assert_eq!(token.as_str(), "-z");
        }
        _ => panic!("unexpected kind"),
    }
}

#[test]
fn empty_argument_list() {
    let err = Args::from_tokens(&vec![], &vec![], &vec![]).unwrap_err();
    assert!(matches!(err.kind(), ArgumentErrorKind::EmptyArgumentList));
}

#[test]
fn missing_flag_value() {
    let flags = vec![FlagDefinition {
        name: "num".to_string(),
        abbreviation: None,
        allowed_type: VariantFlag::new_int(),
    }];
    let err = Args::from_tokens(&toks(&["prog", "--num"]), &vec![], &flags).unwrap_err();
    match err.kind() {
        ArgumentErrorKind::MissingFlagValue { name } => assert_eq!(name.as_str(), "num"),
        _ => panic!("unexpected kind"),
    }
}

#[test]
fn invalid_flag_value() {
    let flags = vec![FlagDefinition {
        name: "num".to_string(),
        abbreviation: None,
        allowed_type: VariantFlag::new_int(),
    }];
    let err = Args::from_tokens(&toks(&["prog", "--num", "abc"]), &vec![], &flags).unwrap_err();
    match err.kind() {
        ArgumentErrorKind::InvalidFlagValue { name, value } => {
            assert_eq!(name.as_str(), "num");
            assert_eq!(value.as_str(), "abc");
        }
        _ => panic!("unexpected kind"),
    }
}

#[test]
fn too_many_positionals() {
    let positional = vec![VariantFlag::string()];
    let err = Args::from_tokens(&toks(&["prog", "a", "b"]), &positional, &vec![]).unwrap_err();
    assert!(matches!(err.kind(), ArgumentErrorKind::TooManyPositionals));
}

#[test]
fn flags_interleave_freely_with_positionals() {
    // permuting the flag among the positional tokens leaves every
    // positional binding unchanged
    let positional = vec![VariantFlag::new_int(), VariantFlag::string()];
    let flags = vec![FlagDefinition {
        name: "verbose".to_string(),
        abbreviation: Some('v'),
        allowed_type: VariantFlag::new_unit(),
    }];
    for stream in [
        ["prog", "-v", "7", "x"],
        ["prog", "7", "-v", "x"],
        ["prog", "7", "x", "-v"],
    ] {
        let args = Args::from_tokens(&toks(&stream), &positional, &flags).unwrap();
        assert_eq!(args.get_positional(0).unwrap().as_int(), Some(7));
        assert_eq!(args.get_positional(1).unwrap().as_string(), Some("x"));
        assert_eq!(args.get_named("verbose").unwrap().as_bool(), Some(true));
    }
}

#[test]
fn last_write_wins_for_repeated_flag() {
    let flags = vec![FlagDefinition {
        name: "num".to_string(),
        abbreviation: Some('n'),
        allowed_type: VariantFlag::new_int(),
    }];
    let args = Args::from_tokens(
        &toks(&["prog", "--num", "1", "-n", "2"]),
        &vec![],
        &flags,
    )
    .unwrap();
    assert_eq!(args.get_named("num").unwrap().as_int(), Some(2));
}

#[test]
fn repeated_parse_is_deterministic() {
    let positional = vec![VariantFlag::new_int().or_string()];
    let flags = vec![FlagDefinition {
        name: "path".to_string(),
        abbreviation: Some('p'),
        allowed_type: VariantFlag::path(),
    }];
    let a = Args::from_tokens(&toks(&["prog", "5", "-p", "/tmp/x"]), &positional, &flags).unwrap();
    let b = Args::from_tokens(&toks(&["prog", "5", "-p", "/tmp/x"]), &positional, &flags).unwrap();
    assert_eq!(a.binary(), b.binary());
    assert_eq!(
        a.get_positional(0).unwrap().as_int(),
        b.get_positional(0).unwrap().as_int()
    );
    assert_eq!(
        a.get_named("path").unwrap().as_path(),
        b.get_named("path").unwrap().as_path()
    );
}

#[test]
fn successful_parse_has_declared_arity() {
    let positional = vec![
        VariantFlag::new_int(),
        VariantFlag::string(),
        VariantFlag::bool(),
    ];
    let args =
        Args::from_tokens(&toks(&["prog", "1", "two", "true"]), &positional, &vec![]).unwrap();
    for i in 0..3 {
        assert!(args.get_positional(i).is_some());
    }
    assert!(args.get_positional(3).is_none());
}

#[test]
fn absent_flag_is_not_an_error() {
    let flags = vec![FlagDefinition {
        name: "verbose".to_string(),
        abbreviation: None,
        allowed_type: VariantFlag::new_unit(),
    }];
    let args = Args::from_tokens(&toks(&["prog"]), &vec![], &flags).unwrap();
    assert!(args.get_named("verbose").is_none());
}

#[test]
fn single_dash_and_long_dash_tokens_are_positional() {
    // "-" is one character and "-abc" is four: neither is flag-shaped
    let positional = vec![VariantFlag::string(), VariantFlag::string()];
    let args = Args::from_tokens(&toks(&["prog", "-", "-abc"]), &positional, &vec![]).unwrap();
    assert_eq!(args.get_positional(0).unwrap().as_string(), Some("-"));
    assert_eq!(args.get_positional(1).unwrap().as_string(), Some("-abc"));
}

#[test]
fn flag_value_may_look_like_a_flag_is_not_consumed_as_one() {
    // the token after a non-unit flag is its value, classified no further
    let flags = vec![FlagDefinition {
        name: "name".to_string(),
        abbreviation: None,
        allowed_type: VariantFlag::string(),
    }];
    let args = Args::from_tokens(&toks(&["prog", "--name", "--value"]), &vec![], &flags).unwrap();
    assert_eq!(args.get_named("name").unwrap().as_string(), Some("--value"));
}

#[test]
fn duplicate_flag_names_first_definition_wins() {
    // the declared list is not validated for uniqueness: classification
    // takes the first definition whose name matches
    let positional = vec![VariantFlag::new_int()];
    let flags = vec![
        FlagDefinition {
            name: "x".to_string(),
            abbreviation: None,
            allowed_type: VariantFlag::new_unit(),
        },
        FlagDefinition {
            name: "x".to_string(),
            abbreviation: None,
            allowed_type: VariantFlag::new_int(),
        },
    ];
    let args = Args::from_tokens(&toks(&["prog", "--x", "5"]), &positional, &flags).unwrap();
    assert_eq!(args.get_named("x").unwrap().as_bool(), Some(true));
    assert_eq!(args.get_positional(0).unwrap().as_int(), Some(5));
}
