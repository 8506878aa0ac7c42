use stix_patterns_parser::ast::{
    BooleanOp, Comparison, ComparisonExpr, ComparisonOp, ComparisonRhs, CompositeComparison,
    CompositePattern, ListIndex, ObjectPath, ObservationOp, PathComponent, PatternExpr,
    QualifiedPattern, StixValue, Timestamp, UnaryOp,
};
use stix_patterns_parser::error::{Expected, GrammarError, ParseError};
use stix_patterns_parser::grammar::MAX_NESTING_DEPTH;
use stix_patterns_parser::parser::{
    merge_exprs, parse_comparison, parse_expression, parse_index, parse_list, parse_object_path,
    parse_obs_op, parse_observation, parse_pair, parse_qualifier, parse_step, parse_value,
    try_parse_comp_op, Qualifiers,
};
use stix_patterns_parser::recognizer::recognize;
use stix_patterns_parser::tree::{Pair, Rule, MAX_TREE_HEIGHT};

fn token(rule: Rule, text: &str) -> Pair {
    Pair::token(rule, text.to_string())
}

fn node(rule: Rule, inner: Vec<Pair>) -> Pair {
    Pair::node(rule, inner)
}

fn value(rule: Rule, text: &str) -> Pair {
    node(Rule::Value, vec![token(rule, text)])
}

fn step(property: &str) -> Pair {
    node(Rule::Step, vec![token(Rule::Property, property)])
}

fn path(object: &str, property: &str) -> Pair {
    node(Rule::Path, vec![token(Rule::Object, object), step(property)])
}

fn comparison(object: &str, property: &str, op: Rule, sign: &str, v: Pair) -> Pair {
    node(Rule::Comparison, vec![path(object, property), token(op, sign), v])
}

fn leaf(object: &str, property: &str, op: ComparisonOp, v: StixValue) -> ComparisonExpr {
    ComparisonExpr::Single(Comparison::new(
        ObjectPath::new(
            object.to_string(),
            vec![PathComponent::new(property.to_string(), None)],
        ),
        op,
        Some(ComparisonRhs::Value(v)),
        false,
    ))
}

fn grammar_error(position: usize, expected: Expected) -> ParseError {
    ParseError::Grammar(GrammarError { position, expected })
}

#[test]
fn the_concrete_tree_of_a_simple_comparison() {
    let expected = node(
        Rule::Pattern,
        vec![node(
            Rule::Expression,
            vec![node(
                Rule::Observation,
                vec![comparison("file", "name", Rule::Equal, "=", value(Rule::String, "foo.dll"))],
            )],
        )],
    );
    assert_eq!(recognize("[file:name = 'foo.dll']"), Ok(expected));
}

#[test]
fn blanks_between_tokens_do_not_count() {
    let dense = recognize("[file:name='foo']REPEATS 5 TIMES").unwrap();
    let loose = recognize(" \t[ file : name\n=\r'foo' ]  REPEATS  5  TIMES  ").unwrap();
    assert_eq!(dense, loose);
}

#[test]
fn blanks_inside_a_string_count() {
    let tree = recognize("[a:b = ' x  y ']").unwrap();
    let expected = node(
        Rule::Pattern,
        vec![node(
            Rule::Expression,
            vec![node(
                Rule::Observation,
                vec![comparison("a", "b", Rule::Equal, "=", value(Rule::String, " x  y "))],
            )],
        )],
    );
    assert_eq!(tree, expected);
}

#[test]
fn the_concrete_tree_of_qualifiers() {
    let tree =
        recognize("[a:b = 1] REPEATS 5 TIMES WITHIN 1.5 SECONDS START t'x' STOP t'y'").unwrap();
    let expected = node(
        Rule::Pattern,
        vec![node(
            Rule::Expression,
            vec![node(
                Rule::Observation,
                vec![
                    comparison("a", "b", Rule::Equal, "=", value(Rule::Int, "1")),
                    node(
                        Rule::Qualifier,
                        vec![node(Rule::Repeat, vec![token(Rule::PosInt, "5")])],
                    ),
                    node(
                        Rule::Qualifier,
                        vec![node(Rule::Within, vec![token(Rule::PosFloat, "1.5")])],
                    ),
                    node(
                        Rule::Qualifier,
                        vec![node(
                            Rule::Interval,
                            vec![token(Rule::Time, "x"), token(Rule::Time, "y")],
                        )],
                    ),
                ],
            )],
        )],
    );
    assert_eq!(tree, expected);
}

#[test]
fn the_concrete_tree_of_a_group_and_a_list() {
    let tree = recognize("([a:b NOT IN (1, 2)])").unwrap();
    let list = node(Rule::List, vec![value(Rule::Int, "1"), value(Rule::Int, "2")]);
    let expected = node(
        Rule::Pattern,
        vec![node(
            Rule::Expression,
            vec![node(
                Rule::ObservationGroup,
                vec![node(
                    Rule::Expression,
                    vec![node(
                        Rule::Observation,
                        vec![node(
                            Rule::Comparison,
                            vec![
                                path("a", "b"),
                                token(Rule::Not, "NOT"),
                                token(Rule::In, "IN"),
                                list,
                            ],
                        )],
                    )],
                )],
            )],
        )],
    );
    assert_eq!(tree, expected);
}

#[test]
fn where_the_grammar_is_left() {
    let cases = [
        ("", 0, Expected::Observation),
        ("   ", 3, Expected::Observation),
        ("file:name = 1", 0, Expected::Observation),
        ("[", 1, Expected::Comparison),
        ("[]", 1, Expected::Comparison),
        ("[file]", 5, Expected::Colon),
        ("[file:]", 6, Expected::Property),
        ("[file:name[x] = 1]", 11, Expected::Index),
        ("[file:name[1 = 1]", 13, Expected::CloseIndex),
        ("[file:name]", 10, Expected::Operator),
        ("[file:name == 1]", 12, Expected::Value),
        ("[file:name = ]", 13, Expected::Value),
        ("[file:name = 'abc]", 18, Expected::ClosingQuote),
        ("[file:name IN (1 2)]", 17, Expected::ListEnd),
        ("[file:name = 1", 14, Expected::CloseBracket),
        ("[file:name = 1 XOR file:size = 2]", 15, Expected::CloseBracket),
        ("([file:name = 1]", 16, Expected::CloseParen),
        ("[a:b = 1] REPEATS x TIMES", 18, Expected::Count),
        ("[a:b = 1] REPEATS 5", 19, Expected::Times),
        ("[a:b = 1] WITHIN SECONDS", 17, Expected::Number),
        ("[a:b = 1] WITHIN 5 MINUTES", 19, Expected::Seconds),
        ("[a:b = 1] START 'x' STOP t'y'", 16, Expected::Timestamp),
        ("[a:b = 1] START t'x' t'y'", 21, Expected::Stop),
        ("[a:b = 1] [a:b = 2]", 10, Expected::EndOfInput),
        ("[a:b = 1] AND", 13, Expected::Observation),
        ("[a:b = 1] extra", 10, Expected::EndOfInput),
    ];
    for (text, position, expected) in cases {
        assert_eq!(recognize(text), Err(grammar_error(position, expected)), "{}", text);
    }
}

#[test]
fn keywords_are_whole_words() {
    assert_eq!(
        recognize("[a:b = 1] ANDY [a:b = 2]"),
        Err(grammar_error(10, Expected::EndOfInput))
    );
    assert_eq!(recognize("[a:b = truely]"), Err(grammar_error(7, Expected::Value)));
    let tree = recognize("[EXISTS-x:b = 1]").unwrap();
    let expected = node(
        Rule::Pattern,
        vec![node(
            Rule::Expression,
            vec![node(
                Rule::Observation,
                vec![comparison("EXISTS-x", "b", Rule::Equal, "=", value(Rule::Int, "1"))],
            )],
        )],
    );
    assert_eq!(tree, expected);
}

#[test]
fn groups_may_nest_up_to_the_limit() {
    let deep = |n: usize| format!("{}[a:b = 1]{}", "(".repeat(n), ")".repeat(n));
    assert!(recognize(&deep(MAX_NESTING_DEPTH)).is_ok());
    assert_eq!(
        recognize(&deep(MAX_NESTING_DEPTH + 1)),
        Err(ParseError::NestingTooDeep(MAX_NESTING_DEPTH))
    );
    let inside = |n: usize| format!("[{}a:b = 1{}]", "(".repeat(n), ")".repeat(n));
    assert!(recognize(&inside(MAX_NESTING_DEPTH)).is_ok());
    assert_eq!(
        recognize(&inside(MAX_NESTING_DEPTH + 1)),
        Err(ParseError::NestingTooDeep(MAX_NESTING_DEPTH + 1))
    );
}

#[test]
fn values_of_every_kind() {
    assert_eq!(
        parse_value(&value(Rule::String, "a\\'b")),
        Ok(StixValue::String("a'b".to_string()))
    );
    assert_eq!(parse_value(&value(Rule::Bool, "true")), Ok(StixValue::Bool(true)));
    assert_eq!(parse_value(&value(Rule::Bool, "false")), Ok(StixValue::Bool(false)));
    assert_eq!(parse_value(&value(Rule::Bool, "TRUE")), Ok(StixValue::Bool(false)));
    assert_eq!(parse_value(&value(Rule::Int, "-12")), Ok(StixValue::Int(-12)));
    assert_eq!(
        parse_value(&value(Rule::Float, "-1.50")),
        Ok(StixValue::Float("-1.50".to_string()))
    );
    assert_eq!(
        parse_value(&value(Rule::Time, "2021-01-01T00:00:00Z")),
        Ok(StixValue::Timestamp(Timestamp { micros: 1_609_459_200_000_000 }))
    );
    assert_eq!(
        parse_value(&value(Rule::Hex, "ff 0G")),
        Ok(StixValue::Hex("ff 0G".to_string()))
    );
    assert_eq!(
        parse_value(&value(Rule::Bin, "aGVsbG8=")),
        Ok(StixValue::Binary("aGVsbG8=".to_string()))
    );
}

#[test]
fn values_that_cannot_be_built() {
    assert_eq!(
        parse_value(&node(Rule::Value, vec![])),
        Err(ParseError::MissingElement("value content"))
    );
    assert_eq!(
        parse_value(&value(Rule::Property, "x")),
        Err(ParseError::UnexpectedRule(Rule::Property))
    );
    assert_eq!(
        parse_value(&value(Rule::Int, "99999999999999999999")),
        Err(ParseError::InvalidInt("99999999999999999999".to_string()))
    );
    assert_eq!(
        parse_value(&value(Rule::Float, "1e5")),
        Err(ParseError::InvalidFloat("1e5".to_string()))
    );
    assert_eq!(
        parse_value(&value(Rule::Time, "soon")),
        Err(ParseError::InvalidTimestamp("soon".to_string()))
    );
}

#[test]
fn a_list_keeps_its_values_in_order() {
    let list = node(
        Rule::List,
        vec![value(Rule::Int, "3"), token(Rule::And, "AND"), value(Rule::Int, "1")],
    );
    assert_eq!(parse_list(&list), Ok(vec![StixValue::Int(3), StixValue::Int(1)]));
    assert_eq!(parse_list(&node(Rule::List, vec![])), Ok(vec![]));
    let bad = node(Rule::List, vec![value(Rule::Int, "3"), value(Rule::Int, "x")]);
    assert_eq!(parse_list(&bad), Err(ParseError::InvalidInt("x".to_string())));
}

#[test]
fn indexes() {
    assert_eq!(parse_index("0"), Ok(ListIndex::Index(0)));
    assert_eq!(parse_index("17"), Ok(ListIndex::Index(17)));
    assert_eq!(parse_index("*"), Ok(ListIndex::Star));
    assert_eq!(parse_index("**"), Err(ParseError::InvalidInt("**".to_string())));
    assert_eq!(
        parse_index("4294967296"),
        Err(ParseError::InvalidInt("4294967296".to_string()))
    );
}

#[test]
fn steps() {
    let plain = parse_step(&step("name")).unwrap();
    assert_eq!(plain, PathComponent::new("name".to_string(), None));
    assert_eq!(plain.index(), None);
    let indexed = node(
        Rule::Step,
        vec![token(Rule::Property, "hashes"), token(Rule::Index, "0")],
    );
    assert_eq!(
        parse_step(&indexed),
        Ok(PathComponent::new("hashes".to_string(), Some(ListIndex::Index(0))))
    );
    let starred = node(
        Rule::Step,
        vec![token(Rule::Property, "hashes"), token(Rule::Index, "*")],
    );
    assert_eq!(
        parse_step(&starred),
        Ok(PathComponent::new("hashes".to_string(), Some(ListIndex::Star)))
    );
    let quoted = node(Rule::Step, vec![token(Rule::Property, "'SHA-256'")]);
    assert_eq!(parse_step(&quoted), Ok(PathComponent::new("SHA-256".to_string(), None)));
    assert_eq!(
        parse_step(&node(Rule::Step, vec![])),
        Ok(PathComponent::new(String::new(), None))
    );
}

#[test]
fn a_path_keeps_its_steps_in_order() {
    let tree = node(
        Rule::Path,
        vec![token(Rule::Object, "file"), step("hashes"), step("'SHA-256'"), step("x")],
    );
    let built = parse_object_path(&tree).unwrap();
    assert_eq!(built.object_type(), "file");
    let names: Vec<&str> = built.property_path().iter().map(|s| s.property()).collect();
    assert_eq!(names, vec!["hashes", "SHA-256", "x"]);
}

#[test]
fn paths_in_a_pattern() {
    let parsed =
        stix_patterns_parser::parser::parse_pattern("[file:hashes.'SHA-256'[1].x = 'y']").unwrap();
    let expected = PatternExpr::Comparison(ComparisonExpr::Single(Comparison::new(
        ObjectPath::new(
            "file".to_string(),
            vec![
                PathComponent::new("hashes".to_string(), None),
                PathComponent::new("SHA-256".to_string(), Some(ListIndex::Index(1))),
                PathComponent::new("x".to_string(), None),
            ],
        ),
        ComparisonOp::Eq,
        Some(ComparisonRhs::Value(StixValue::String("y".to_string()))),
        false,
    )));
    assert_eq!(parsed, expected);
}

#[test]
fn operators_by_rule() {
    let all = [
        (Rule::Equal, ComparisonOp::Eq, "="),
        (Rule::NotEqual, ComparisonOp::Neq, "!="),
        (Rule::Gt, ComparisonOp::Gt, ">"),
        (Rule::Lt, ComparisonOp::Lt, "<"),
        (Rule::Ge, ComparisonOp::Ge, ">="),
        (Rule::Le, ComparisonOp::Le, "<="),
        (Rule::In, ComparisonOp::In, "IN"),
        (Rule::Like, ComparisonOp::Like, "LIKE"),
        (Rule::Match, ComparisonOp::Matches, "MATCHES"),
        (Rule::IsSubset, ComparisonOp::IsSubset, "ISSUBSET"),
        (Rule::IsSuperset, ComparisonOp::IsSuperset, "ISSUPERSET"),
    ];
    for (rule, op, sign) in all {
        assert_eq!(try_parse_comp_op(rule), Some(op));
        assert_eq!(op.value(), sign);
        let text = format!("[a:b {} 1]", sign);
        assert_eq!(
            stix_patterns_parser::parser::parse_pattern(&text),
            Ok(PatternExpr::Comparison(leaf("a", "b", op, StixValue::Int(1)))),
            "{}",
            text
        );
    }
    assert_eq!(try_parse_comp_op(Rule::And), None);
    assert_eq!(try_parse_comp_op(Rule::Exists), None);
    assert_eq!(UnaryOp::Exists.value(), "EXISTS");
}

#[test]
fn operators_between_observations() {
    assert_eq!(parse_obs_op(&token(Rule::And, "AND")), Ok(ObservationOp::And));
    assert_eq!(parse_obs_op(&token(Rule::Or, "OR")), Ok(ObservationOp::Or));
    assert_eq!(
        parse_obs_op(&token(Rule::FollowedBy, "FOLLOWEDBY")),
        Ok(ObservationOp::FollowedBy)
    );
    assert_eq!(
        parse_obs_op(&token(Rule::Not, "NOT")),
        Err(ParseError::UnexpectedRule(Rule::Not))
    );
    assert_eq!(ObservationOp::FollowedBy.value(), "FOLLOWEDBY");
    assert_eq!(BooleanOp::Or.value(), "OR");
    assert_eq!(BooleanOp::default(), BooleanOp::And);
}

#[test]
fn merging() {
    let a = leaf("a", "b", ComparisonOp::Eq, StixValue::Int(1));
    let b = leaf("a", "b", ComparisonOp::Eq, StixValue::Int(2));
    assert_eq!(merge_exprs(None, a.clone(), Some(BooleanOp::Or)), a);
    assert_eq!(
        merge_exprs(Some(a.clone()), b.clone(), Some(BooleanOp::Or)),
        ComparisonExpr::Composite(CompositeComparison::new(a.clone(), BooleanOp::Or, b.clone()))
    );
    assert_eq!(
        merge_exprs(Some(a.clone()), b.clone(), None),
        ComparisonExpr::Composite(CompositeComparison::new(a, BooleanOp::And, b))
    );
}

#[test]
fn comparisons_fold_to_the_left() {
    let parsed =
        stix_patterns_parser::parser::parse_pattern("[a:x = 1 AND b:x = 2 OR c:x = 3]").unwrap();
    let a = leaf("a", "x", ComparisonOp::Eq, StixValue::Int(1));
    let b = leaf("b", "x", ComparisonOp::Eq, StixValue::Int(2));
    let c = leaf("c", "x", ComparisonOp::Eq, StixValue::Int(3));
    let expected = PatternExpr::Comparison(ComparisonExpr::Composite(CompositeComparison::new(
        ComparisonExpr::Composite(CompositeComparison::new(a.clone(), BooleanOp::And, b.clone())),
        BooleanOp::Or,
        c.clone(),
    )));
    assert_eq!(parsed, expected);
    let grouped =
        stix_patterns_parser::parser::parse_pattern("[a:x = 1 AND (b:x = 2 OR c:x = 3)]").unwrap();
    let expected = PatternExpr::Comparison(ComparisonExpr::Composite(CompositeComparison::new(
        a,
        BooleanOp::And,
        ComparisonExpr::Composite(CompositeComparison::new(b, BooleanOp::Or, c)),
    )));
    assert_eq!(grouped, expected);
}

#[test]
fn parentheses_turn_the_fold() {
    let a = || PatternExpr::Comparison(leaf("a", "x", ComparisonOp::Eq, StixValue::Int(1)));
    let b = || PatternExpr::Comparison(leaf("b", "x", ComparisonOp::Eq, StixValue::Int(2)));
    let c = || PatternExpr::Comparison(leaf("c", "x", ComparisonOp::Eq, StixValue::Int(3)));
    let parsed =
        stix_patterns_parser::parser::parse_pattern("[a:x = 1] FOLLOWEDBY ([b:x = 2] OR [c:x = 3])")
            .unwrap();
    let expected = PatternExpr::Composite(CompositePattern::new(
        a(),
        ObservationOp::FollowedBy,
        PatternExpr::Composite(CompositePattern::new(b(), ObservationOp::Or, c())),
    ));
    assert_eq!(parsed, expected);
    match parsed {
        PatternExpr::Composite(top) => {
            assert_eq!(top.op(), ObservationOp::FollowedBy);
            assert_eq!(top.left(), &a());
            match top.right() {
                PatternExpr::Composite(right) => {
                    assert_eq!(right.op(), ObservationOp::Or);
                    assert_eq!(right.left(), &b());
                    assert_eq!(right.right(), &c());
                }
                other => panic!("not composite: {:?}", other),
            }
        }
        other => panic!("not composite: {:?}", other),
    }
}

#[test]
fn comparisons_that_cannot_be_built() {
    assert_eq!(
        parse_comparison(&node(Rule::Comparison, vec![])),
        Err(ParseError::MissingElement("comparison content"))
    );
    assert_eq!(
        parse_comparison(&node(Rule::Comparison, vec![token(Rule::And, "AND")])),
        Err(ParseError::MissingElement("comparison content"))
    );
    assert_eq!(
        parse_comparison(&node(Rule::Comparison, vec![token(Rule::Exists, "EXISTS")])),
        Err(ParseError::MissingElement("path"))
    );
    assert_eq!(
        parse_comparison(&node(
            Rule::Comparison,
            vec![path("a", "b"), value(Rule::Int, "1")]
        )),
        Err(ParseError::MissingElement("operator"))
    );
    assert_eq!(
        parse_comparison(&node(
            Rule::Comparison,
            vec![path("a", "b"), token(Rule::Equal, "=")]
        )),
        Err(ParseError::MissingElement("value"))
    );
}

#[test]
fn patterns_that_cannot_be_built() {
    assert_eq!(
        parse_pair(&value(Rule::Int, "1")),
        Err(ParseError::UnexpectedRule(Rule::Value))
    );
    assert_eq!(
        parse_pair(&node(Rule::Pattern, vec![])),
        Err(ParseError::MissingElement("expression"))
    );
    assert_eq!(
        parse_expression(&node(Rule::Expression, vec![])),
        Err(ParseError::MissingElement("expression"))
    );
    assert_eq!(
        parse_pair(&node(Rule::Observation, vec![])),
        Err(ParseError::MissingElement("comparison"))
    );
    assert_eq!(
        parse_pair(&node(Rule::ObservationGroup, vec![])),
        Err(ParseError::MissingElement("expression"))
    );
    let seen = || {
        node(
            Rule::Observation,
            vec![comparison("a", "b", Rule::Equal, "=", value(Rule::Int, "1"))],
        )
    };
    assert_eq!(
        parse_pair(&node(Rule::Expression, vec![seen(), token(Rule::And, "AND")])),
        Err(ParseError::MissingElement("right operand"))
    );
    assert_eq!(
        parse_pair(&node(Rule::Expression, vec![seen(), seen()])),
        Err(ParseError::UnexpectedRule(Rule::Observation))
    );
}

#[test]
fn qualifiers_are_read_one_after_another() {
    let mut q = Qualifiers::default();
    assert!(q.is_empty());
    let repeat = node(
        Rule::Qualifier,
        vec![node(Rule::Repeat, vec![token(Rule::PosInt, "5")])],
    );
    assert_eq!(parse_qualifier(&repeat, &mut q), Ok(()));
    assert_eq!(q.repeat, Some(5));
    assert!(!q.is_empty());
    let within = node(
        Rule::Qualifier,
        vec![node(Rule::Within, vec![token(Rule::PosFloat, "1.5")])],
    );
    assert_eq!(parse_qualifier(&within, &mut q), Ok(()));
    assert_eq!(q.within, Some("1.5".to_string()));
    let interval = node(
        Rule::Qualifier,
        vec![node(
            Rule::Interval,
            vec![
                token(Rule::Time, "2021-01-02T00:00:00Z"),
                token(Rule::Time, "2021-01-01T00:00:00Z"),
            ],
        )],
    );
    assert_eq!(parse_qualifier(&interval, &mut q), Ok(()));
    assert_eq!(q.start, Some(Timestamp { micros: 1_609_545_600_000_000 }));
    assert_eq!(q.stop, Some(Timestamp { micros: 1_609_459_200_000_000 }));
    assert_eq!(q.repeat, Some(5));
    let again = node(
        Rule::Qualifier,
        vec![node(Rule::Repeat, vec![token(Rule::PosInt, "7")])],
    );
    assert_eq!(parse_qualifier(&again, &mut q), Ok(()));
    assert_eq!(q.repeat, Some(7));
}

#[test]
fn a_qualifier_that_cannot_be_read_changes_nothing() {
    let mut q = Qualifiers { repeat: Some(2), within: None, start: None, stop: None };
    let before = q.clone();
    let bad = node(
        Rule::Qualifier,
        vec![node(Rule::Repeat, vec![token(Rule::PosInt, "1"), token(Rule::PosInt, "x")])],
    );
    assert_eq!(parse_qualifier(&bad, &mut q), Err(ParseError::InvalidInt("x".to_string())));
    assert_eq!(q, before);
    let half = node(
        Rule::Qualifier,
        vec![node(
            Rule::Interval,
            vec![token(Rule::Time, "2021-01-02T00:00:00Z"), token(Rule::Time, "never")],
        )],
    );
    assert_eq!(
        parse_qualifier(&half, &mut q),
        Err(ParseError::InvalidTimestamp("never".to_string()))
    );
    assert_eq!(q, before);
    assert_eq!(
        parse_qualifier(&node(Rule::Qualifier, vec![]), &mut q),
        Err(ParseError::MissingElement("qualifier content"))
    );
    let window = node(
        Rule::Qualifier,
        vec![node(Rule::Within, vec![token(Rule::PosInt, "soon")])],
    );
    assert_eq!(
        parse_qualifier(&window, &mut q),
        Err(ParseError::InvalidFloat("soon".to_string()))
    );
    assert_eq!(q, before);
}

#[test]
fn qualifiers_wrap_only_where_there_are_some() {
    let pattern = || PatternExpr::Comparison(leaf("a", "b", ComparisonOp::Eq, StixValue::Int(1)));
    assert_eq!(Qualifiers::default().apply_to(pattern()), pattern());
    let q = Qualifiers { repeat: None, within: Some("2".to_string()), start: None, stop: None };
    assert_eq!(
        q.apply_to(pattern()),
        PatternExpr::Qualified(QualifiedPattern::new(
            pattern(),
            None,
            Some("2".to_string()),
            None,
            None
        ))
    );
}

#[test]
fn an_observation_without_qualifiers_is_not_wrapped() {
    let seen = node(
        Rule::Observation,
        vec![comparison("a", "b", Rule::Equal, "=", value(Rule::Int, "1"))],
    );
    assert_eq!(
        parse_observation(&seen),
        Ok(PatternExpr::Comparison(leaf("a", "b", ComparisonOp::Eq, StixValue::Int(1))))
    );
    for text in ["[a:b = 1]", "([a:b = 1])", "[a:b = 1 AND a:c = 2]"] {
        let parsed = stix_patterns_parser::parser::parse_pattern(text).unwrap();
        assert!(!matches!(parsed, PatternExpr::Qualified(_)), "{}", text);
    }
}

#[test]
fn an_observation_with_a_qualifier_is_wrapped() {
    for text in [
        "[a:b = 1] REPEATS 2 TIMES",
        "[a:b = 1] WITHIN 5 SECONDS",
        "[a:b = 1] WITHIN 2.5 SECONDS",
        "[a:b = 1] START t'2021-01-01T00:00:00Z' STOP t'2021-01-02T00:00:00Z'",
        "([a:b = 1] AND [a:b = 2]) REPEATS 0 TIMES",
    ] {
        let parsed = stix_patterns_parser::parser::parse_pattern(text).unwrap();
        assert!(matches!(parsed, PatternExpr::Qualified(_)), "{}", text);
    }
}

#[test]
fn all_qualifiers_of_an_observation_go_into_one_node() {
    let parsed = stix_patterns_parser::parser::parse_pattern(
        "[a:b = 1] START t'2021-01-02T00:00:00Z' STOP t'2021-01-01T00:00:00Z' WITHIN 2.5 SECONDS REPEATS 3 TIMES",
    )
    .unwrap();
    let expected = PatternExpr::Qualified(QualifiedPattern::new(
        PatternExpr::Comparison(leaf("a", "b", ComparisonOp::Eq, StixValue::Int(1))),
        Some(3),
        Some("2.5".to_string()),
        Some(Timestamp { micros: 1_609_545_600_000_000 }),
        Some(Timestamp { micros: 1_609_459_200_000_000 }),
    ));
    assert_eq!(parsed, expected);
    match parsed {
        PatternExpr::Qualified(q) => {
            assert_eq!(q.within().map(|w| w.parse::<f64>().unwrap()), Some(2.5));
            assert_eq!(
                q.pattern(),
                &PatternExpr::Comparison(leaf("a", "b", ComparisonOp::Eq, StixValue::Int(1)))
            );
        }
        other => panic!("not qualified: {:?}", other),
    }
}

#[test]
fn the_last_qualifier_of_a_kind_wins() {
    let parsed = stix_patterns_parser::parser::parse_pattern(
        "[a:b = 1] REPEATS 3 TIMES REPEATS 4 TIMES",
    )
    .unwrap();
    let expected = PatternExpr::Qualified(QualifiedPattern::new(
        PatternExpr::Comparison(leaf("a", "b", ComparisonOp::Eq, StixValue::Int(1))),
        Some(4),
        None,
        None,
        None,
    ));
    assert_eq!(parsed, expected);
}

#[test]
fn a_second_interval_replaces_the_first() {
    let parsed = stix_patterns_parser::parser::parse_pattern(
        "[a:b = 1] START t'2021-01-01T00:00:00Z' STOP t'2021-01-02T00:00:00Z' START t'2021-01-03T00:00:00Z' STOP t'2021-01-04T00:00:00Z'",
    )
    .unwrap();
    let expected = PatternExpr::Qualified(QualifiedPattern::new(
        PatternExpr::Comparison(leaf("a", "b", ComparisonOp::Eq, StixValue::Int(1))),
        None,
        None,
        Some(Timestamp { micros: 1_609_632_000_000_000 }),
        Some(Timestamp { micros: 1_609_718_400_000_000 }),
    ));
    assert_eq!(parsed, expected);

    let mut q = Qualifiers {
        repeat: Some(2),
        within: None,
        start: Some(Timestamp { micros: 1 }),
        stop: Some(Timestamp { micros: 2 }),
    };
    let clause = node(
        Rule::Qualifier,
        vec![node(
            Rule::Interval,
            vec![
                token(Rule::Time, "2021-01-03T00:00:00Z"),
                token(Rule::Time, "2021-01-04T00:00:00Z"),
            ],
        )],
    );
    assert_eq!(parse_qualifier(&clause, &mut q), Ok(()));
    assert_eq!(q.start, Some(Timestamp { micros: 1_609_632_000_000_000 }));
    assert_eq!(q.stop, Some(Timestamp { micros: 1_609_718_400_000_000 }));
    assert_eq!(q.repeat, Some(2));
}

#[test]
fn the_last_window_wins() {
    let parsed = stix_patterns_parser::parser::parse_pattern(
        "[a:b = 1] WITHIN 5 SECONDS WITHIN 2.5 SECONDS",
    )
    .unwrap();
    let expected = PatternExpr::Qualified(QualifiedPattern::new(
        PatternExpr::Comparison(leaf("a", "b", ComparisonOp::Eq, StixValue::Int(1))),
        None,
        Some("2.5".to_string()),
        None,
        None,
    ));
    assert_eq!(parsed, expected);
}

fn nested(levels: usize) -> Pair {
    let mut tree = comparison("a", "b", Rule::Equal, "=", value(Rule::Int, "1"));
    for _ in 0..levels {
        tree = node(Rule::Comparison, vec![tree]);
    }
    tree
}

#[test]
fn the_height_of_a_tree() {
    assert!(token(Rule::Int, "1").within(1));
    assert!(!token(Rule::Int, "1").within(0));
    assert!(value(Rule::Int, "1").within(2));
    assert!(!value(Rule::Int, "1").within(1));
    let leaf = comparison("a", "b", Rule::Equal, "=", value(Rule::Int, "1"));
    assert!(leaf.within(4));
    assert!(!leaf.within(3));
    assert!(nested(10).within(14));
    assert!(!nested(10).within(13));
}

#[test]
fn a_tree_that_is_too_high_is_not_built() {
    let leaf = || ComparisonExpr::Single(Comparison::new(
        ObjectPath::new("a".to_string(), vec![PathComponent::new("b".to_string(), None)]),
        ComparisonOp::Eq,
        Some(ComparisonRhs::Value(StixValue::Int(1))),
        false,
    ));
    assert_eq!(parse_comparison(&nested(MAX_TREE_HEIGHT - 4)), Ok(leaf()));
    assert_eq!(parse_comparison(&nested(MAX_TREE_HEIGHT - 3)), Err(ParseError::TreeTooDeep));
    assert_eq!(parse_comparison(&nested(5000)), Err(ParseError::TreeTooDeep));
    let seen = |levels| node(Rule::Observation, vec![nested(levels)]);
    assert_eq!(
        parse_observation(&seen(MAX_TREE_HEIGHT - 5)),
        Ok(PatternExpr::Comparison(leaf()))
    );
    assert_eq!(parse_observation(&seen(MAX_TREE_HEIGHT - 4)), Err(ParseError::TreeTooDeep));
    assert_eq!(parse_pair(&seen(MAX_TREE_HEIGHT)), Err(ParseError::TreeTooDeep));
    let whole = |levels| node(Rule::Expression, vec![seen(levels)]);
    assert_eq!(parse_expression(&whole(MAX_TREE_HEIGHT)), Err(ParseError::TreeTooDeep));
    let mut group = whole(0);
    for _ in 0..200 {
        group = node(Rule::Expression, vec![node(Rule::ObservationGroup, vec![group])]);
    }
    assert_eq!(parse_pair(&group), Err(ParseError::TreeTooDeep));
}

#[test]
fn the_deepest_pattern_of_the_grammar_is_built() {
    let deep = |n: usize| format!("{}[{}a:b = 1{}]{}", "(".repeat(n), "(".repeat(0), "", ")".repeat(n));
    let parsed = stix_patterns_parser::parser::parse_pattern(&deep(MAX_NESTING_DEPTH));
    assert_eq!(
        parsed,
        Ok(PatternExpr::Comparison(ComparisonExpr::Single(Comparison::new(
            ObjectPath::new("a".to_string(), vec![PathComponent::new("b".to_string(), None)]),
            ComparisonOp::Eq,
            Some(ComparisonRhs::Value(StixValue::Int(1))),
            false,
        ))))
    );
    assert!(recognize(&deep(MAX_NESTING_DEPTH)).unwrap().within(MAX_TREE_HEIGHT));
}
