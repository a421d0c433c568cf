use turbofish::{
    fragment_encode, generate, generate_reverse, parse, percent_decode_bytes, redirect_target,
    render, render_bytes, resolve_segment, vocab_token, ConstantSource, Lcg, RandomSource,
    TurbofishExpression, TypeToken,
};

fn token(name: &str) -> TypeToken {
    match TypeToken::new(name) {
        Some(t) => t,
        None => panic!("expected a valid token"),
    }
}

fn leaf(name: &str) -> TurbofishExpression {
    TurbofishExpression { root: token(name), args: Vec::new() }
}

fn node(name: &str, args: Vec<TurbofishExpression>) -> TurbofishExpression {
    TurbofishExpression { root: token(name), args }
}

fn depth(e: &TurbofishExpression) -> usize {
    e.args.iter().map(|a| depth(a) + 1).max().unwrap_or(0)
}

#[test]
fn token_accepts_names_and_rejects_others() {
    assert!(TypeToken::new("abc_123").is_some());
    assert!(TypeToken::new("A").is_some());
    assert!(TypeToken::new("").is_none());
    assert!(TypeToken::new("a b").is_none());
    assert!(TypeToken::new("a<b").is_none());
    assert!(TypeToken::new("a:b").is_none());
}

#[test]
fn leaf_renders_as_bare_token() {
    assert_eq!(render(&leaf("i32")), "i32");
}

#[test]
fn two_level_expression_renders_with_turbofish() {
    let e = node("Vec", vec![leaf("i32")]);
    assert_eq!(render(&e), "Vec::<i32>");
}

#[test]
fn multi_argument_expression_renders_with_separators() {
    let e = node("Result", vec![node("Vec", vec![leaf("u64")]), leaf("String")]);
    assert_eq!(render(&e), "Result::<Vec::<u64>, String>");
}

#[test]
fn render_is_deterministic() {
    let e = node("Option", vec![node("Box", vec![leaf("bool")]), leaf("A")]);
    assert_eq!(render(&e), render(&e));
    assert_eq!(render_bytes(&e), render_bytes(&e));
}

#[test]
fn constant_source_generator_yields_single_token() {
    let mut rng = ConstantSource { value: 0 };
    let e = generate(&mut rng, 3);
    assert_eq!(render(&e), "A");
}

#[test]
fn generator_respects_depth_bound() {
    for seed in 0..40u64 {
        let mut rng = Lcg::new(seed);
        let e = generate(&mut rng, 3);
        assert!(depth(&e) <= 3);
        let text = render(&e);
        assert!(!text.is_empty());
    }
}

#[test]
fn generator_at_depth_zero_yields_leaf() {
    for seed in 0..20u64 {
        let mut rng = Lcg::new(seed);
        let e = generate(&mut rng, 0);
        assert!(e.args.is_empty());
        assert!(!render(&e).contains("::<"));
    }
}

#[test]
fn reverse_generator_respects_depth_bound_and_chains() {
    for seed in 0..20u64 {
        let mut rng = Lcg::new(seed);
        let e = generate_reverse(&mut rng, 3);
        assert!(depth(&e) <= 3);
        assert!(e.args.len() <= 1);
    }
    let mut rng = ConstantSource { value: 1 };
    let e = generate_reverse(&mut rng, 2);
    assert_eq!(render(&e), "i32::<i32::<i32>>");
}

#[test]
fn vocabulary_holds_expected_names() {
    assert_eq!(vocab_token(0).name, b"A".to_vec());
    assert_eq!(vocab_token(1).name, b"i32".to_vec());
    assert_eq!(vocab_token(5).name, b"Vec".to_vec());
    assert_eq!(vocab_token(7).name, b"Box".to_vec());
}

#[test]
fn parse_round_trips_rendered_text() {
    let cases = vec![
        leaf("A"),
        node("Vec", vec![leaf("i32")]),
        node("Result", vec![node("Vec", vec![leaf("u64")]), leaf("String")]),
        node("Option", vec![node("Box", vec![node("Vec", vec![leaf("bool")])])]),
    ];
    for e in cases {
        let text = render(&e);
        match parse(&text) {
            Ok(back) => assert_eq!(render(&back), text),
            Err(_) => panic!("rendered text must parse"),
        }
    }
}

#[test]
fn generated_expressions_round_trip() {
    for seed in 0..40u64 {
        let mut rng = Lcg::new(seed);
        let e = generate(&mut rng, 3);
        let text = render(&e);
        match parse(&text) {
            Ok(back) => assert_eq!(render(&back), text),
            Err(_) => panic!("rendered text must parse"),
        }
    }
}

#[test]
fn parse_accepts_exact_grammar_strings() {
    assert!(parse("A").is_ok());
    assert!(parse("Vec::<i32>").is_ok());
    assert!(parse("Result::<Vec::<u64>, String>").is_ok());
    assert_eq!(render(&parse("Box::<Option::<A>>").unwrap_or_else(|_| leaf("A"))), "Box::<Option::<A>>");
}

#[test]
fn parse_rejects_malformed_input() {
    assert!(parse("").is_err());
    assert!(parse("not<<a<valid>>token").is_err());
    assert!(parse("A::<").is_err());
    assert!(parse("A::<>").is_err());
    assert!(parse("A::<i32").is_err());
    assert!(parse("A::<i32>>").is_err());
    assert!(parse("A::<i32,u64>").is_err());
    assert!(parse("a b").is_err());
    assert!(parse("::<i32>").is_err());
    assert!(parse("Vec::<i32> ").is_err());
    assert!(parse("Vec::<i32>,").is_err());
    assert!(parse("%3C").is_err());
}

#[test]
fn fragment_encoding_escapes_reserved_bytes() {
    assert_eq!(fragment_encode(b"foo <bar>"), "foo%20%3Cbar%3E");
    assert_eq!(fragment_encode(b"plain_token"), "plain_token");
    assert_eq!(fragment_encode(b"a\"b`c"), "a%22b%60c");
    assert_eq!(fragment_encode(&[0x7fu8, 0x80, 0x01]), "%7F%80%01");
}

#[test]
fn percent_decoding_decodes_escapes_and_keeps_the_rest() {
    assert_eq!(percent_decode_bytes(b"foo%20bar%3f"), b"foo bar?".to_vec());
    assert_eq!(percent_decode_bytes(b"foo%3Cbar"), b"foo<bar".to_vec());
    assert_eq!(percent_decode_bytes(b"100%zz"), b"100%zz".to_vec());
    assert_eq!(percent_decode_bytes(b"%4"), b"%4".to_vec());
    assert_eq!(percent_decode_bytes(b""), b"".to_vec());
}

#[test]
fn redirect_target_encodes_rendered_text() {
    let e = node("Vec", vec![leaf("i32")]);
    assert_eq!(redirect_target(&e), "/Vec::%3Ci32%3E");
}

#[test]
fn redirect_target_resolves_to_same_text() {
    for seed in 0..20u64 {
        let mut rng = Lcg::new(seed);
        let e = generate(&mut rng, 3);
        let text = render(&e);
        let target = redirect_target(&e);
        let seg = match target.strip_prefix('/') {
            Some(s) => s,
            None => panic!("target must start with a slash"),
        };
        match resolve_segment(seg) {
            Some((back, shown)) => {
                assert_eq!(shown, text);
                assert_eq!(render(&back), text);
            },
            None => panic!("redirect target must resolve"),
        }
    }
}

#[test]
fn resolve_segment_rejects_malformed_paths() {
    assert!(resolve_segment("not%3C%3Ca%3Cvalid%3E%3Etoken").is_none());
    assert!(resolve_segment("not<<a<valid>>token").is_none());
    assert!(resolve_segment("").is_none());
    assert!(resolve_segment("A::%3C").is_none());
}

#[test]
fn resolve_segment_accepts_encoded_expression() {
    match resolve_segment("Result::%3CVec::%3Cu64%3E,%20String%3E") {
        Some((_, shown)) => assert_eq!(shown, "Result::<Vec::<u64>, String>"),
        None => panic!("encoded expression must resolve"),
    }
}

#[test]
fn random_sources_stay_below_bound() {
    let mut rng = Lcg::new(12345);
    for _ in 0..100 {
        assert!(rng.pick(7) < 7);
    }
    let mut c = ConstantSource { value: 99 };
    assert_eq!(c.pick(4), 3);
    let mut c0 = ConstantSource { value: 2 };
    assert_eq!(c0.pick(4), 2);
}
