use stix_patterns_parser::ast::{
    BooleanOp, Comparison, ComparisonExpr, ComparisonOp, ComparisonOperator, ComparisonRhs,
    CompositeComparison, CompositePattern, ListIndex, ObjectPath, ObservationOp, PathComponent,
    PatternExpr, QualifiedPattern, StixValue, Timestamp, UnaryOp,
};
use stix_patterns_parser::error::{Expected, GrammarError, ParseError};
use stix_patterns_parser::parser::parse_pattern;

fn path(object_type: &str, steps: &[&str]) -> ObjectPath {
    ObjectPath::new(
        object_type.to_string(),
        steps.iter().map(|s| PathComponent::new(s.to_string(), None)).collect(),
    )
}

fn leaf(object_type: &str, property: &str, op: ComparisonOp, value: StixValue) -> ComparisonExpr {
    ComparisonExpr::Single(Comparison::new(
        path(object_type, &[property]),
        op,
        Some(ComparisonRhs::Value(value)),
        false,
    ))
}

fn observed(object_type: &str, property: &str, op: ComparisonOp, value: StixValue) -> PatternExpr {
    PatternExpr::Comparison(leaf(object_type, property, op, value))
}

fn text(s: &str) -> StixValue {
    StixValue::String(s.to_string())
}

fn grammar_error(position: usize, expected: Expected) -> ParseError {
    ParseError::Grammar(GrammarError { position, expected })
}

#[test]
fn test_simple_comparison() {
    assert!(parse_pattern("[file:name = 'foo.dll']").is_ok());
}

#[test]
fn test_exists() {
    assert!(parse_pattern("[EXISTS file:name]").is_ok());
}

#[test]
fn test_composite_comparison() {
    assert!(parse_pattern("[file:name = 'foo' AND file:size > 100]").is_ok());
}

#[test]
fn test_observation_with_qualifier() {
    assert!(parse_pattern("[file:name = 'foo'] REPEATS 5 TIMES").is_ok());
}

#[test]
fn test_followedby() {
    assert!(parse_pattern("[file:name = 'a'] FOLLOWEDBY [file:name = 'b']").is_ok());
}

#[test]
fn simple_comparison_is_a_single_leaf() {
    let parsed = parse_pattern("[file:name = 'foo.dll']").unwrap();
    assert_eq!(parsed, observed("file", "name", ComparisonOp::Eq, text("foo.dll")));
    match parsed {
        PatternExpr::Comparison(ComparisonExpr::Single(c)) => {
            assert_eq!(c.object_path().object_type(), "file");
            assert_eq!(c.object_path().property_path().len(), 1);
            assert_eq!(c.object_path().property_path()[0].property(), "name");
            assert_eq!(c.object_path().property_path()[0].index(), None);
            assert_eq!(c.op(), ComparisonOperator::Comparison(ComparisonOp::Eq));
            assert_eq!(c.constant(), Some(&ComparisonRhs::Value(text("foo.dll"))));
            assert!(!c.negated());
        }
        other => panic!("not a single comparison: {:?}", other),
    }
}

#[test]
fn exists_has_no_constant() {
    let parsed = parse_pattern("[EXISTS file:name]").unwrap();
    let expected = PatternExpr::Comparison(ComparisonExpr::Single(Comparison::new(
        path("file", &["name"]),
        UnaryOp::Exists,
        None,
        false,
    )));
    assert_eq!(parsed, expected);
    match parsed {
        PatternExpr::Comparison(ComparisonExpr::Single(c)) => {
            assert_eq!(c.op(), ComparisonOperator::Unary(UnaryOp::Exists));
            assert_eq!(c.constant(), None);
        }
        other => panic!("not a single comparison: {:?}", other),
    }
}

#[test]
fn two_comparisons_in_one_observation_are_joined() {
    let parsed = parse_pattern("[file:name = 'foo' AND file:size > 100]").unwrap();
    let expected = PatternExpr::Comparison(ComparisonExpr::Composite(CompositeComparison::new(
        leaf("file", "name", ComparisonOp::Eq, text("foo")),
        BooleanOp::And,
        leaf("file", "size", ComparisonOp::Gt, StixValue::Int(100)),
    )));
    assert_eq!(parsed, expected);
}

#[test]
fn repeats_gives_a_qualified_pattern() {
    let parsed = parse_pattern("[file:name = 'foo'] REPEATS 5 TIMES").unwrap();
    let expected = PatternExpr::Qualified(QualifiedPattern::new(
        observed("file", "name", ComparisonOp::Eq, text("foo")),
        Some(5),
        None,
        None,
        None,
    ));
    assert_eq!(parsed, expected);
    match parsed {
        PatternExpr::Qualified(q) => {
            assert_eq!(q.repeat(), Some(5));
            assert_eq!(q.within(), None);
            assert_eq!(q.start(), None);
            assert_eq!(q.stop(), None);
        }
        other => panic!("not qualified: {:?}", other),
    }
}

#[test]
fn followedby_joins_two_observations() {
    let parsed = parse_pattern("[a:b = 1] FOLLOWEDBY [a:b = 2]").unwrap();
    let expected = PatternExpr::Composite(CompositePattern::new(
        observed("a", "b", ComparisonOp::Eq, StixValue::Int(1)),
        ObservationOp::FollowedBy,
        observed("a", "b", ComparisonOp::Eq, StixValue::Int(2)),
    ));
    assert_eq!(parsed, expected);
}

#[test]
fn missing_value_is_a_grammar_error_after_the_operator() {
    assert_eq!(
        parse_pattern("[file:name = ]"),
        Err(grammar_error(13, Expected::Value))
    );
    assert_eq!(
        parse_pattern("[file:name =]"),
        Err(grammar_error(12, Expected::Value))
    );
}

#[test]
fn observations_fold_to_the_left() {
    let parsed = parse_pattern("[a:x=1] AND [b:x=2] OR [c:x=3]").unwrap();
    let a = observed("a", "x", ComparisonOp::Eq, StixValue::Int(1));
    let b = observed("b", "x", ComparisonOp::Eq, StixValue::Int(2));
    let c = observed("c", "x", ComparisonOp::Eq, StixValue::Int(3));
    let expected = PatternExpr::Composite(CompositePattern::new(
        PatternExpr::Composite(CompositePattern::new(a.clone(), ObservationOp::And, b.clone())),
        ObservationOp::Or,
        c.clone(),
    ));
    assert_eq!(parsed, expected);
    let right_leaning = PatternExpr::Composite(CompositePattern::new(
        a,
        ObservationOp::And,
        PatternExpr::Composite(CompositePattern::new(b, ObservationOp::Or, c)),
    ));
    assert_ne!(parsed, right_leaning);
}

#[test]
fn a_path_needs_a_property() {
    assert_eq!(
        parse_pattern("[a=1] AND [b=2] OR [c=3]"),
        Err(grammar_error(2, Expected::Colon))
    );
}

#[test]
fn timestamps_with_and_without_offset_agree() {
    let with_z = parse_pattern("[a:b = t'2021-01-01T00:00:00Z']").unwrap();
    let without = parse_pattern("[a:b = t'2021-01-01T00:00:00']").unwrap();
    assert_eq!(with_z, without);
    assert_eq!(
        with_z,
        observed(
            "a",
            "b",
            ComparisonOp::Eq,
            StixValue::Timestamp(Timestamp { micros: 1_609_459_200_000_000 })
        )
    );
}

#[test]
fn index_of_a_step() {
    let parsed = parse_pattern("[file:hashes[0] = 'x' AND file:hashes[*] = 'y' AND file:name = 'z']")
        .unwrap();
    let step = |index| ObjectPath::new("file".to_string(), vec![PathComponent::new("hashes".to_string(), index)]);
    let first = ComparisonExpr::Single(Comparison::new(
        step(Some(ListIndex::Index(0))),
        ComparisonOp::Eq,
        Some(ComparisonRhs::Value(text("x"))),
        false,
    ));
    let second = ComparisonExpr::Single(Comparison::new(
        step(Some(ListIndex::Star)),
        ComparisonOp::Eq,
        Some(ComparisonRhs::Value(text("y"))),
        false,
    ));
    let third = leaf("file", "name", ComparisonOp::Eq, text("z"));
    let expected = PatternExpr::Comparison(ComparisonExpr::Composite(CompositeComparison::new(
        ComparisonExpr::Composite(CompositeComparison::new(first, BooleanOp::And, second)),
        BooleanOp::And,
        third,
    )));
    assert_eq!(parsed, expected);
}

#[test]
fn a_quote_in_a_string_is_escaped() {
    assert_eq!(
        parse_pattern("[a:b = 'a\\'b']"),
        Ok(observed("a", "b", ComparisonOp::Eq, text("a'b")))
    );
    assert_eq!(
        parse_pattern("[a:b = 'C:\\\\dir\\\\file']"),
        Ok(observed("a", "b", ComparisonOp::Eq, text("C:\\dir\\file")))
    );
    assert_eq!(
        parse_pattern("[a:b = '']"),
        Ok(observed("a", "b", ComparisonOp::Eq, text("")))
    );
}

#[test]
fn constants_of_every_kind() {
    let cases = [
        ("'x y'", text("x y")),
        ("42", StixValue::Int(42)),
        ("-42", StixValue::Int(-42)),
        ("+42", StixValue::Int(42)),
        ("4.25", StixValue::Float("4.25".to_string())),
        ("-0.5", StixValue::Float("-0.5".to_string())),
        ("true", StixValue::Bool(true)),
        ("false", StixValue::Bool(false)),
        (
            "t'2021-01-01T00:00:00Z'",
            StixValue::Timestamp(Timestamp { micros: 1_609_459_200_000_000 }),
        ),
        ("h'ffc0'", StixValue::Hex("ffc0".to_string())),
        ("b'aGVsbG8='", StixValue::Binary("aGVsbG8=".to_string())),
    ];
    for (written, value) in cases {
        let pattern = format!("[a:b = {}]", written);
        assert_eq!(
            parse_pattern(&pattern),
            Ok(observed("a", "b", ComparisonOp::Eq, value)),
            "{}",
            pattern
        );
    }
}

#[test]
fn not_negates() {
    let parsed = parse_pattern("[a:b NOT LIKE 'x%']").unwrap();
    let expected = PatternExpr::Comparison(ComparisonExpr::Single(Comparison::new(
        path("a", &["b"]),
        ComparisonOp::Like,
        Some(ComparisonRhs::Value(text("x%"))),
        true,
    )));
    assert_eq!(parsed, expected);
    match parsed {
        PatternExpr::Comparison(ComparisonExpr::Single(c)) => assert!(c.negated()),
        other => panic!("not a single comparison: {:?}", other),
    }
}

#[test]
fn a_list_is_the_constant_of_one_comparison() {
    let parsed = parse_pattern("[a:b IN ('x', 2, true)]").unwrap();
    let expected = PatternExpr::Comparison(ComparisonExpr::Single(Comparison::new(
        path("a", &["b"]),
        ComparisonOp::In,
        Some(ComparisonRhs::List(vec![text("x"), StixValue::Int(2), StixValue::Bool(true)])),
        false,
    )));
    assert_eq!(parsed, expected);
}

#[test]
fn exists_needs_a_path() {
    assert_eq!(parse_pattern("[EXISTS 5]"), Err(grammar_error(8, Expected::Path)));
    assert_eq!(parse_pattern("[EXISTS]"), Err(grammar_error(7, Expected::Path)));
}

#[test]
fn literals_that_cannot_be_read() {
    assert_eq!(
        parse_pattern("[a:b = 9223372036854775808]"),
        Err(ParseError::InvalidInt("9223372036854775808".to_string()))
    );
    assert_eq!(
        parse_pattern("[a:b[4294967296] = 1]"),
        Err(ParseError::InvalidInt("4294967296".to_string()))
    );
    assert_eq!(
        parse_pattern("[a:b = 1] REPEATS 4294967296 TIMES"),
        Err(ParseError::InvalidInt("4294967296".to_string()))
    );
    assert_eq!(
        parse_pattern("[a:b = t'tomorrow']"),
        Err(ParseError::InvalidTimestamp("tomorrow".to_string()))
    );
    assert_eq!(
        parse_pattern("[a:b = 1] START t'2021-01-01T00:00:00Z' STOP t'later'"),
        Err(ParseError::InvalidTimestamp("later".to_string()))
    );
}

#[test]
fn the_first_failure_is_the_result() {
    assert_eq!(
        parse_pattern("[a:b = t'x' AND a:c = 99999999999999999999]"),
        Err(ParseError::InvalidTimestamp("x".to_string()))
    );
    assert_eq!(
        parse_pattern("[a:b = t'x'] AND [a:c = "),
        Err(grammar_error(24, Expected::Value))
    );
}

#[test]
fn names_keep_their_case() {
    let parsed = parse_pattern("[Network-Traffic:Dst_Ref.Value = 'x']").unwrap();
    match parsed {
        PatternExpr::Comparison(ComparisonExpr::Single(c)) => {
            assert_eq!(c.object_path().object_type(), "Network-Traffic");
            assert_eq!(c.object_path().property_path()[0].property(), "Dst_Ref");
            assert_eq!(c.object_path().property_path()[1].property(), "Value");
        }
        other => panic!("not a single comparison: {:?}", other),
    }
}

#[test]
fn operators_have_names() {
    assert_eq!(ComparisonOp::Eq.repr(), "ComparisonOp.EQ");
    assert_eq!(ComparisonOp::IsSuperset.repr(), "ComparisonOp.ISSUPERSET");
    assert_eq!(UnaryOp::Exists.repr(), "UnaryOp.EXISTS");
    assert_eq!(BooleanOp::And.repr(), "BooleanOp.AND");
    assert_eq!(BooleanOp::Or.repr(), "BooleanOp.OR");
    assert_eq!(ObservationOp::FollowedBy.repr(), "ObservationOp.FOLLOWEDBY");
    assert_eq!(ComparisonOperator::Unary(UnaryOp::Exists).value(), "EXISTS");
    assert_eq!(ComparisonOperator::Comparison(ComparisonOp::Neq).value(), "!=");
    assert_eq!(Expected::Value.description(), "a value");
}

#[test]
fn conversions_wrap() {
    assert_eq!(ComparisonRhs::from(text("x")), ComparisonRhs::Value(text("x")));
    assert_eq!(
        ComparisonRhs::from(vec![StixValue::Int(1)]),
        ComparisonRhs::List(vec![StixValue::Int(1)])
    );
    assert_eq!(
        ComparisonOperator::from(ComparisonOp::Gt),
        ComparisonOperator::Comparison(ComparisonOp::Gt)
    );
    assert_eq!(
        ComparisonOperator::from(UnaryOp::Exists),
        ComparisonOperator::Unary(UnaryOp::Exists)
    );
    let c = leaf("a", "b", ComparisonOp::Eq, StixValue::Int(1));
    let p = PatternExpr::from(c.clone());
    assert_eq!(p, PatternExpr::Comparison(c.clone()));
    let joined = CompositeComparison::new(c.clone(), BooleanOp::Or, c.clone());
    assert_eq!(joined.op(), BooleanOp::Or);
    assert_eq!(joined.left(), &c);
    assert_eq!(joined.right(), &c);
    assert_eq!(ComparisonExpr::from(joined.clone()), ComparisonExpr::Composite(joined));
    let both = CompositePattern::new(p.clone(), ObservationOp::And, p.clone());
    assert_eq!(PatternExpr::from(both.clone()), PatternExpr::Composite(both));
    let q = QualifiedPattern::new(p.clone(), Some(1), None, None, None);
    assert_eq!(PatternExpr::from(q.clone()), PatternExpr::Qualified(q.clone()));
    assert_eq!(q.clone(), q);
}

#[test]
fn other_spellings_of_paths_and_constants() {
    let quoted = ObjectPath::new(
        "a".to_string(),
        vec![PathComponent::new("my-prop".to_string(), Some(ListIndex::Index(7)))],
    );
    assert_eq!(
        parse_pattern("[a:'my-prop'[ 007 ] = +5]"),
        Ok(PatternExpr::Comparison(ComparisonExpr::Single(Comparison::new(
            quoted,
            ComparisonOp::Eq,
            Some(ComparisonRhs::Value(StixValue::Int(5))),
            false,
        ))))
    );
    assert_eq!(
        parse_pattern("[a:b = 007]"),
        Ok(observed("a", "b", ComparisonOp::Eq, StixValue::Int(7)))
    );
    assert_eq!(
        parse_pattern("[a:b = 'x\\dy']"),
        Ok(observed("a", "b", ComparisonOp::Eq, text("x\\dy")))
    );
    assert_eq!(
        parse_pattern(r"[a:b = 'x\\dy']"),
        Ok(observed("a", "b", ComparisonOp::Eq, text(r"x\dy")))
    );
    assert_eq!(
        parse_pattern("[ a : b . c =   true]"),
        Ok(PatternExpr::Comparison(ComparisonExpr::Single(Comparison::new(
            path("a", &["b", "c"]),
            ComparisonOp::Eq,
            Some(ComparisonRhs::Value(StixValue::Bool(true))),
            false,
        ))))
    );
}
