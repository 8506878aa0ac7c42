//! The grammar and the builders agree: the trees that the grammar gives have
//! the shape that the builders read, so that no pattern is rejected for a
//! node that is missing or out of place. On the way, every production is
//! shown to take input where it succeeds, and to fail only as the grammar
//! fails.

use vstd::prelude::*;
use crate::ast::{BooleanOp, ComparisonExprView, PatternView};
use crate::error::{Expected, ParseErrorView};
use crate::grammar::{
    comp_expr,
    comp_tail,
    comp_term,
    comparison,
    constant,
    existence,
    expression,
    expression_tail,
    lemma_blanks,
    lemma_qualifier_moves,
    lemma_step_moves,
    lemma_value_moves,
    list_tail,
    moved,
    observation,
    path,
    pattern,
    qualified,
    qualifier,
    rhs,
    step,
    steps_tail,
    timestamp,
    value,
    within,
    boolean_op,
    observation_op,
    operator,
};
use crate::meaning::{
    comparison_of,
    expression_of,
    group_from,
    grouped_from,
    joined_from,
    merged,
    obs_op_of,
    observed_from,
    operands_from,
    parsed,
    path_from,
    path_of,
    pattern_of,
    qualifier_of,
    step_from,
    step_of,
    value_of,
    values_from,
    Grouped,
    Observed,
    Operands,
    QualifiersView,
    interval_from,
    repeat_from,
    within_from,
    index_of,
};
use crate::scan::{at, keyword_at, lemma_run_end, run_end, skip_blanks, CharClass};
use crate::shape::{
    comparison_shaped,
    existence_shaped,
    expression_shaped,
    leaf_shaped,
    list_shaped,
    observation_shaped,
    observation_split,
    operand_shaped,
    operands_shaped,
    path_shaped,
    pattern_shaped,
    qualifier_shaped,
    qualifiers_shaped,
    step_shaped,
    steps_shaped,
    terms_shaped,
    value_shaped,
    values_shaped,
};
use crate::tree::{Rule, Tree};

verus! {

/// Whether what a production gives is a node, or a failure of the grammar:
/// something else than what was expected, or a group too deep.
pub open spec fn recognized<T>(r: Result<T, ParseErrorView>) -> bool {
    r matches Err(e) ==> e is Grammar || e is NestingTooDeep
}

/// The text of a number is a decimal number.
pub proof fn lemma_number_text(s: Seq<char>, a: int, signed: bool)
    requires
        0 <= a <= s.len(),
    ensures
        crate::grammar::number_end(s, a, signed) matches Some((_, end)) ==> a < end <= s.len()
            && crate::literal::is_decimal_number(s.subrange(a, end)),
{
    let from = if signed && (at(s, a, '+') || at(s, a, '-')) {
        a + 1
    } else {
        a
    };
    lemma_run_end(s, from, CharClass::Digit);
    let point = run_end(s, from, CharClass::Digit);
    match crate::grammar::number_end(s, a, signed) {
        Some((_, end)) => {
            if point + 1 <= s.len() {
                lemma_run_end(s, point + 1, CharClass::Digit);
            }
            let text = s.subrange(a, end);
            assert(text[0] == s[a]);
            assert(s[from] == text[from - a]);
            crate::scan::lemma_run_inside(s, a, end, from, CharClass::Digit);
            if end > point {
                assert(text[point - a] == s[point]);
                crate::scan::lemma_run_inside(s, a, end, point + 1, CharClass::Digit);
            }
        },
        None => {},
    }
}

/// A value is `Value[constant]`, and the text of a number with a point is a
/// decimal number.
pub proof fn lemma_value_shaped(s: Seq<char>, i: int)
    ensures
        recognized(value(s, i)),
        value(s, i) matches Ok((t, _)) ==> value_shaped(t),
{
    let a = skip_blanks(s, i);
    lemma_blanks(s, i);
    if 0 <= a <= s.len() {
        lemma_number_text(s, a, true);
    }
}

/// A list is `List[Value+]`, and ends further on.
pub proof fn lemma_list_tail_shaped(s: Seq<char>, i: int, items: Seq<Tree>)
    requires
        0 <= i,
        items.len() >= 1,
        values_shaped(items),
    ensures
        recognized(list_tail(s, i, items)),
        list_tail(s, i, items) matches Ok((t, end)) ==> list_shaped(t) && moved(s, i, end),
    decreases s.len() - i,
{
    let a = skip_blanks(s, i);
    lemma_blanks(s, i);
    if at(s, a, ')') {
    } else if at(s, a, ',') {
        lemma_value_moves(s, a + 1);
        lemma_value_shaped(s, a + 1);
        match value(s, a + 1) {
            Ok((v, end)) => {
                lemma_list_tail_shaped(s, end, items.push(v));
            },
            Err(_) => {},
        }
    }
}

/// The constant of a comparison is a value or a list, and ends further on.
pub proof fn lemma_rhs_shaped(s: Seq<char>, i: int)
    requires
        0 <= i,
    ensures
        recognized(rhs(s, i)),
        rhs(s, i) matches Ok((t, end)) ==> (value_shaped(t) || list_shaped(t)) && moved(s, i, end),
{
    let a = skip_blanks(s, i);
    lemma_blanks(s, i);
    if at(s, a, '(') {
        lemma_value_moves(s, a + 1);
        lemma_value_shaped(s, a + 1);
        match value(s, a + 1) {
            Ok((v, end)) => {
                lemma_list_tail_shaped(s, end, seq![v]);
            },
            Err(_) => {},
        }
    } else {
        lemma_value_moves(s, a);
        lemma_value_shaped(s, a);
    }
}

/// A step is `Step[Property]` or `Step[Property, Index]`.
pub proof fn lemma_step_shaped(s: Seq<char>, i: int)
    ensures
        recognized(step(s, i)),
        step(s, i) matches Ok((t, _)) ==> step_shaped(t),
{
}

/// A path is `Path[Object, Step+]`, and ends further on.
pub proof fn lemma_steps_tail_shaped(s: Seq<char>, i: int, items: Seq<Tree>)
    requires
        0 <= i <= s.len(),
        items.len() >= 2,
        steps_shaped(items),
    ensures
        recognized(steps_tail(s, i, items)),
        steps_tail(s, i, items) matches Ok((t, end)) ==> path_shaped(t) && i <= end <= s.len(),
    decreases s.len() - i,
{
    let a = skip_blanks(s, i);
    lemma_blanks(s, i);
    if at(s, a, '.') {
        lemma_step_moves(s, a + 1);
        lemma_step_shaped(s, a + 1);
        match step(s, a + 1) {
            Ok((t, end)) => {
                lemma_steps_tail_shaped(s, end, items.push(t));
            },
            Err(_) => {},
        }
    }
}

/// A path is `Path[Object, Step+]`, and ends further on.
pub proof fn lemma_path_shaped(s: Seq<char>, i: int, what: Expected)
    requires
        0 <= i,
    ensures
        recognized(path(s, i, what)),
        path(s, i, what) matches Ok((t, end)) ==> path_shaped(t) && moved(s, i, end),
{
    let a = skip_blanks(s, i);
    lemma_blanks(s, i);
    if 0 <= a < s.len() {
        lemma_run_end(s, a, CharClass::Word);
        let end = run_end(s, a, CharClass::Word);
        let colon = skip_blanks(s, end);
        lemma_blanks(s, end);
        if at(s, colon, ':') {
            lemma_step_moves(s, colon + 1);
            lemma_step_shaped(s, colon + 1);
            match step(s, colon + 1) {
                Ok((t, after)) => {
                    lemma_steps_tail_shaped(
                        s,
                        after,
                        seq![crate::grammar::token(s, Rule::Object, a, end)].push(t),
                    );
                },
                Err(_) => {},
            }
        }
    }
}

/// A path with its operator and constant is a leaf, and ends further on.
pub proof fn lemma_comparison_shaped(s: Seq<char>, i: int)
    requires
        0 <= i,
    ensures
        recognized(comparison(s, i)),
        comparison(s, i) matches Ok((t, end)) ==> leaf_shaped(t) && moved(s, i, end),
{
    lemma_path_shaped(s, i, Expected::Comparison);
    match path(s, i, Expected::Comparison) {
        Ok((p, j)) => {
            let a = skip_blanks(s, j);
            lemma_blanks(s, j);
            let negated = keyword_at(s, a, "NOT"@);
            let b = if negated {
                skip_blanks(s, a + "NOT"@.len())
            } else {
                a
            };
            if negated {
                lemma_blanks(s, a + "NOT"@.len());
            }
            match operator(s, b) {
                Some(op) => {
                    lemma_rhs_shaped(s, b + op.spelling().len());
                    match rhs(s, b + op.spelling().len()) {
                        Ok((r, after)) => {
                            let t = comparison(s, i)->Ok_0.0;
                            assert(t.inner.len() == if negated {
                                4int
                            } else {
                                3int
                            });
                        },
                        Err(_) => {},
                    }
                },
                None => {},
            }
        },
        Err(_) => {},
    }
}

/// A test for existence is `Comparison[Exists, Path]`, and ends further on.
pub proof fn lemma_existence_shaped(s: Seq<char>, a: int)
    requires
        0 <= a,
    ensures
        recognized(existence(s, a)),
        existence(s, a) matches Ok((t, end)) ==> existence_shaped(t) && moved(s, a, end),
{
    lemma_path_shaped(s, a + "EXISTS"@.len(), Expected::Path);
}

/// A term of a comparison expression is a comparison, and ends further on.
pub proof fn lemma_comp_term_shaped(s: Seq<char>, i: int, depth: nat)
    requires
        0 <= i,
    ensures
        recognized(comp_term(s, i, depth)),
        comp_term(s, i, depth) matches Ok((t, end)) ==> comparison_shaped(t) && moved(s, i, end),
    decreases depth, s.len() - i, 0int,
{
    let a = skip_blanks(s, i);
    lemma_blanks(s, i);
    if at(s, a, '(') {
        if depth > 0 {
            lemma_comp_expr_shaped(s, a + 1, (depth - 1) as nat);
            match comp_expr(s, a + 1, (depth - 1) as nat) {
                Ok((items, end)) => {
                    lemma_blanks(s, end);
                },
                Err(_) => {},
            }
        }
    } else if keyword_at(s, a, "EXISTS"@) {
        lemma_existence_shaped(s, a);
    } else {
        lemma_comparison_shaped(s, a);
    }
}

/// The terms of a comparison expression are comparisons with `And` or `Or`
/// between each two of them.
pub proof fn lemma_comp_tail_shaped(s: Seq<char>, i: int, items: Seq<Tree>, depth: nat)
    requires
        0 <= i <= s.len(),
        terms_shaped(items),
    ensures
        recognized(comp_tail(s, i, items, depth)),
        comp_tail(s, i, items, depth) matches Ok((out, end)) ==> terms_shaped(out) && i <= end
            <= s.len(),
    decreases depth, s.len() - i, 1int,
{
    let a = skip_blanks(s, i);
    lemma_blanks(s, i);
    match boolean_op(s, a) {
        Some(op) => {
            let end = a + op.spelling().len();
            lemma_comp_term_shaped(s, end, depth);
            match comp_term(s, end, depth) {
                Ok((t, after)) => {
                    let next = items.push(
                        crate::grammar::token(s, crate::grammar::boolean_rule(op), a, end),
                    ).push(t);
                    assert(terms_shaped(next)) by {
                        assert forall|k: int| 0 <= k < next.len() implies if k % 2 == 0 {
                            comparison_shaped(#[trigger] next[k])
                        } else {
                            next[k].rule == Rule::And || next[k].rule == Rule::Or
                        } by {
                            if k < items.len() {
                                assert(next[k] == items[k]);
                            }
                        }
                    }
                    lemma_comp_tail_shaped(s, after, next, depth);
                },
                Err(_) => {},
            }
        },
        None => {},
    }
}

/// A comparison expression is comparisons with `And` or `Or` between each
/// two of them, and ends further on.
pub proof fn lemma_comp_expr_shaped(s: Seq<char>, i: int, depth: nat)
    requires
        0 <= i,
    ensures
        recognized(comp_expr(s, i, depth)),
        comp_expr(s, i, depth) matches Ok((out, end)) ==> terms_shaped(out) && moved(s, i, end),
    decreases depth, s.len() - i, 2int,
{
    lemma_comp_term_shaped(s, i, depth);
    match comp_term(s, i, depth) {
        Ok((t, end)) => {
            lemma_comp_tail_shaped(s, end, seq![t], depth);
        },
        Err(_) => {},
    }
}

/// A qualifier has one of the three shapes of a qualifier.
pub proof fn lemma_qualifier_shaped(s: Seq<char>, a: int)
    ensures
        qualifier(s, a) matches Some(r) ==> recognized(r),
        qualifier(s, a) matches Some(Ok((q, _))) ==> qualifier_shaped(q),
{
    if keyword_at(s, a, "REPEATS"@) {
    } else if keyword_at(s, a, "WITHIN"@) {
        let b = skip_blanks(s, a + "WITHIN"@.len());
        lemma_blanks(s, a + "WITHIN"@.len());
        if 0 <= b <= s.len() {
            lemma_number_text(s, b, false);
        }
    } else if keyword_at(s, a, "START"@) {
        let i = a + "START"@.len();
        match timestamp(s, i) {
            Ok((start, end)) => {
                let c = skip_blanks(s, end);
                if keyword_at(s, c, "STOP"@) {
                    match timestamp(s, c + "STOP"@.len()) {
                        Ok((stop, after)) => {
                            let q = qualifier(s, a)->0->Ok_0.0;
                            assert(q.inner[0].inner.len() == 2);
                        },
                        Err(_) => {},
                    }
                }
            },
            Err(_) => {},
        }
    }
}

/// The node that ends with qualifiers keeps the children that it was given
/// and has only qualifiers after them.
pub proof fn lemma_qualified_shaped(s: Seq<char>, i: int, rule: Rule, items: Seq<Tree>)
    requires
        0 <= i <= s.len(),
    ensures
        recognized(qualified(s, i, rule, items)),
        qualified(s, i, rule, items) matches Ok((t, end)) ==> t.rule == rule && i <= end <= s.len()
            && t.inner.len() >= items.len() && t.inner.take(items.len() as int) == items
            && qualifiers_shaped(t.inner, items.len() as int),
    decreases s.len() - i,
{
    let a = skip_blanks(s, i);
    lemma_blanks(s, i);
    lemma_qualifier_moves(s, a);
    lemma_qualifier_shaped(s, a);
    match qualifier(s, a) {
        Some(Ok((q, end))) => {
            lemma_qualified_shaped(s, end, rule, items.push(q));
            match qualified(s, end, rule, items.push(q)) {
                Ok((t, after)) => {
                    let n = items.len() as int;
                    assert(t.inner.take(n) =~= t.inner.take(n + 1).take(n));
                    assert(items.push(q).take(n) =~= items);
                    assert(t.inner[n] == t.inner.take(n + 1)[n]);
                },
                Err(_) => {},
            }
        },
        Some(Err(_)) => {},
        None => {
            assert(items.take(items.len() as int) =~= items);
        },
    }
}

/// An observation or a group is an operand, and ends further on.
pub proof fn lemma_observation_shaped(s: Seq<char>, i: int, depth: nat)
    requires
        0 <= i,
    ensures
        recognized(observation(s, i, depth)),
        observation(s, i, depth) matches Ok((t, end)) ==> operand_shaped(t) && moved(s, i, end),
    decreases depth, s.len() - i, 0int,
{
    let a = skip_blanks(s, i);
    lemma_blanks(s, i);
    if at(s, a, '[') {
        lemma_comp_expr_shaped(s, a + 1, depth);
        match comp_expr(s, a + 1, depth) {
            Ok((items, end)) => {
                let b = skip_blanks(s, end);
                lemma_blanks(s, end);
                if at(s, b, ']') {
                    lemma_qualified_shaped(s, b + 1, Rule::Observation, items);
                    match qualified(s, b + 1, Rule::Observation, items) {
                        Ok((t, after)) => {
                            assert(observation_split(t, items.len() as int));
                        },
                        Err(_) => {},
                    }
                }
            },
            Err(_) => {},
        }
    } else if at(s, a, '(') {
        if depth > 0 {
            lemma_expression_shaped(s, a + 1, (depth - 1) as nat);
            match expression(s, a + 1, (depth - 1) as nat) {
                Ok((e, end)) => {
                    let b = skip_blanks(s, end);
                    lemma_blanks(s, end);
                    if at(s, b, ')') {
                        lemma_qualified_shaped(s, b + 1, Rule::ObservationGroup, seq![e]);
                        match qualified(s, b + 1, Rule::ObservationGroup, seq![e]) {
                            Ok((t, after)) => {
                                assert(t.inner[0] == t.inner.take(1)[0]);
                            },
                            Err(_) => {},
                        }
                    }
                },
                Err(_) => {},
            }
        }
    }
}

/// The operands of an expression are observations and groups with `And`,
/// `Or` or `FollowedBy` between each two of them.
pub proof fn lemma_expression_tail_shaped(s: Seq<char>, i: int, items: Seq<Tree>, depth: nat)
    requires
        0 <= i <= s.len(),
        operands_shaped(items),
    ensures
        recognized(expression_tail(s, i, items, depth)),
        expression_tail(s, i, items, depth) matches Ok((t, end)) ==> expression_shaped(t) && i
            <= end <= s.len(),
    decreases depth, s.len() - i, 1int,
{
    let a = skip_blanks(s, i);
    lemma_blanks(s, i);
    match observation_op(s, a) {
        Some(op) => {
            let end = a + op.spelling().len();
            lemma_observation_shaped(s, end, depth);
            match observation(s, end, depth) {
                Ok((o, after)) => {
                    let next = items.push(
                        crate::grammar::token(s, crate::grammar::observation_rule(op), a, end),
                    ).push(o);
                    assert(operands_shaped(next)) by {
                        assert forall|k: int| 0 <= k < next.len() implies if k % 2 == 0 {
                            operand_shaped(#[trigger] next[k])
                        } else {
                            next[k].rule == Rule::And || next[k].rule == Rule::Or || next[k].rule
                                == Rule::FollowedBy
                        } by {
                            if k < items.len() {
                                assert(next[k] == items[k]);
                            }
                        }
                    }
                    lemma_expression_tail_shaped(s, after, next, depth);
                },
                Err(_) => {},
            }
        },
        None => {},
    }
}

/// An expression is `Expression[operands]`, and ends further on.
pub proof fn lemma_expression_shaped(s: Seq<char>, i: int, depth: nat)
    requires
        0 <= i,
    ensures
        recognized(expression(s, i, depth)),
        expression(s, i, depth) matches Ok((t, end)) ==> expression_shaped(t) && moved(s, i, end),
    decreases depth, s.len() - i, 2int,
{
    lemma_observation_shaped(s, i, depth);
    match observation(s, i, depth) {
        Ok((o, end)) => {
            lemma_expression_tail_shaped(s, end, seq![o], depth);
        },
        Err(_) => {},
    }
}

/// The concrete tree of a pattern has the shape of a pattern.
pub proof fn law_recognized_shape(s: Seq<char>)
    ensures
        recognized(pattern(s)),
        pattern(s) matches Ok(t) ==> pattern_shaped(t),
{
    lemma_expression_shaped(s, 0, crate::grammar::MAX_NESTING_DEPTH as nat);
}

/// Whether a meaning is a value, or a failure that a text can have: not one
/// of the shape of the tree, nor one of the text of a decimal number.
pub open spec fn fits<T>(r: Result<T, ParseErrorView>) -> bool {
    r matches Err(e) ==> e.of_text()
}

/// A value of the grammar has a constant, whatever its text.
pub proof fn lemma_value_fits(t: Tree)
    requires
        value_shaped(t),
    ensures
        fits(value_of(t)),
{
}

proof fn lemma_values_fit(items: Seq<Tree>, i: int, values: Seq<crate::ast::ValueView>)
    requires
        values_shaped(items),
    ensures
        fits(values_from(items, i, values)),
    decreases items.len() - i,
{
    if 0 <= i < items.len() {
        lemma_value_fits(items[i]);
        match value_of(items[i]) {
            Ok(v) => lemma_values_fit(items, i + 1, values.push(v)),
            Err(_) => {},
        }
    }
}

proof fn lemma_step_fits(items: Seq<Tree>, i: int, step: crate::ast::PathComponentView)
    ensures
        fits(step_from(items, i, step)),
    decreases items.len() - i,
{
    if 0 <= i < items.len() {
        match items[i].rule {
            Rule::Property => lemma_step_fits(
                items,
                i + 1,
                crate::ast::PathComponentView {
                    property: crate::literal::stripped(items[i].text),
                    index: step.index,
                },
            ),
            Rule::Index => match index_of(items[i].text) {
                Ok(index) => lemma_step_fits(
                    items,
                    i + 1,
                    crate::ast::PathComponentView { property: step.property, index: Some(index) },
                ),
                Err(_) => {},
            },
            _ => lemma_step_fits(items, i + 1, step),
        }
    }
}

proof fn lemma_path_fits(items: Seq<Tree>, i: int, path: crate::ast::ObjectPathView)
    ensures
        fits(path_from(items, i, path)),
    decreases items.len() - i,
{
    if 0 <= i < items.len() {
        match items[i].rule {
            Rule::Object => lemma_path_fits(
                items,
                i + 1,
                crate::ast::ObjectPathView {
                    object_type: items[i].text,
                    property_path: path.property_path,
                },
            ),
            Rule::Step => {
                lemma_step_fits(
                    items[i].inner,
                    0,
                    crate::ast::PathComponentView { property: Seq::empty(), index: None },
                );
                match step_of(items[i]) {
                    Ok(step) => lemma_path_fits(
                        items,
                        i + 1,
                        crate::ast::ObjectPathView {
                            object_type: path.object_type,
                            property_path: path.property_path.push(step),
                        },
                    ),
                    Err(_) => {},
                }
            },
            _ => lemma_path_fits(items, i + 1, path),
        }
    }
}

/// A path is never rejected for its shape.
pub proof fn lemma_path_of_fits(t: Tree)
    ensures
        fits(path_of(t)),
{
    lemma_path_fits(
        t.inner,
        0,
        crate::ast::ObjectPathView { object_type: Seq::empty(), property_path: Seq::empty() },
    );
}

/// The last child of a leaf gives its constant, or fails for its text.
proof fn lemma_rhs_fits(items: Seq<Tree>, i: int, found: Operands)
    requires
        i == items.len() - 1,
        i >= 0,
        value_shaped(items[i]) || list_shaped(items[i]),
    ensures
        match operands_from(items, i, found) {
            Ok(after) => after.rhs is Some && after.op == found.op && after.negated
                == found.negated,
            Err(e) => e.of_text(),
        },
{
    reveal_with_fuel(operands_from, 2);
    if value_shaped(items[i]) {
        lemma_value_fits(items[i]);
    } else {
        lemma_values_fit(items[i].inner, 0, Seq::empty());
    }
}

/// A path with its operator and constant has a meaning, or fails for the
/// text of a token.
pub proof fn lemma_leaf_fits(t: Tree)
    requires
        leaf_shaped(t),
    ensures
        fits(comparison_of(t)),
        comparison_of(t) matches Ok(c) ==> c is Single,
{
    lemma_path_of_fits(t.inner[0]);
    let n = t.inner.len() as int;
    let start = Operands { negated: false, op: None, rhs: None };
    reveal_with_fuel(operands_from, 3);
    if n == 3 {
        let op = crate::meaning::comp_op_of(t.inner[1].rule);
        lemma_rhs_fits(t.inner, 2, Operands { negated: false, op, rhs: None });
    } else {
        let op = crate::meaning::comp_op_of(t.inner[2].rule);
        lemma_rhs_fits(t.inner, 3, Operands { negated: true, op, rhs: None });
    }
}

/// A comparison of the grammar has a meaning, or fails for the text of a
/// token.
pub proof fn lemma_comparison_fits(t: Tree)
    requires
        comparison_shaped(t),
    ensures
        fits(comparison_of(t)),
    decreases t, 0int,
{
    if existence_shaped(t) {
        lemma_path_of_fits(t.inner[1]);
    } else if leaf_shaped(t) {
        lemma_leaf_fits(t);
    } else {
        assert(comparison_shaped(t.inner[0]));
        lemma_group_fits(t.inner, 0, None, None);
    }
}

proof fn lemma_group_fits(
    items: Seq<Tree>,
    i: int,
    expr: Option<ComparisonExprView>,
    pending: Option<BooleanOp>,
)
    requires
        terms_shaped(items),
        0 <= i <= items.len(),
        i > 0 ==> expr is Some,
    ensures
        match group_from(items, i, expr, pending) {
            Ok(built) => built is Some,
            Err(e) => e.of_text(),
        },
    decreases items, items.len() - i,
{
    if i < items.len() {
        if i % 2 == 0 {
            assert(comparison_shaped(items[i]));
            lemma_comparison_fits(items[i]);
            match comparison_of(items[i]) {
                Ok(c) => lemma_group_fits(items, i + 1, Some(merged(expr, c, pending)), None),
                Err(_) => {},
            }
        } else {
            assert(items[i].rule == Rule::And || items[i].rule == Rule::Or);
            if items[i].rule == Rule::And {
                lemma_group_fits(items, i + 1, expr, Some(BooleanOp::And));
            } else {
                lemma_group_fits(items, i + 1, expr, Some(BooleanOp::Or));
            }
        }
    }
}

proof fn lemma_repeat_fits(items: Seq<Tree>, i: int, repeat: Option<u32>)
    ensures
        match repeat_from(items, i, repeat) {
            Ok(after) => repeat is Some ==> after is Some,
            Err(e) => e.of_text(),
        },
    decreases items.len() - i,
{
    if 0 <= i < items.len() {
        if items[i].rule == Rule::PosInt {
            match crate::literal::integer_u32(items[i].text) {
                Some(n) => lemma_repeat_fits(items, i + 1, Some(n)),
                None => {},
            }
        } else {
            lemma_repeat_fits(items, i + 1, repeat);
        }
    }
}

proof fn lemma_within_fits(items: Seq<Tree>, i: int, within: Option<Seq<char>>)
    requires
        forall|k: int|
            0 <= k < items.len() ==> crate::literal::is_decimal_number((#[trigger] items[k]).text),
    ensures
        match within_from(items, i, within) {
            Ok(after) => within is Some ==> after is Some,
            Err(e) => e.of_text(),
        },
    decreases items.len() - i,
{
    if 0 <= i < items.len() {
        if items[i].rule == Rule::PosFloat || items[i].rule == Rule::PosInt {
            if crate::literal::is_decimal_number(items[i].text) {
                lemma_within_fits(items, i + 1, Some(items[i].text));
            }
        } else {
            lemma_within_fits(items, i + 1, within);
        }
    }
}

proof fn lemma_interval_fits(
    items: Seq<Tree>,
    i: int,
    start: Option<crate::ast::Timestamp>,
    stop: Option<crate::ast::Timestamp>,
    first: bool,
)
    ensures
        match interval_from(items, i, start, stop, first) {
            Ok(after) => (start is Some ==> after.0 is Some) && (stop is Some ==> after.1 is Some),
            Err(e) => e.of_text(),
        },
    decreases items.len() - i,
{
    if 0 <= i < items.len() {
        if items[i].rule == Rule::Time {
            match crate::literal::timestamp_of(items[i].text) {
                Some(micros) => if first {
                    lemma_interval_fits(
                        items,
                        i + 1,
                        Some(crate::ast::Timestamp { micros }),
                        stop,
                        false,
                    );
                } else {
                    lemma_interval_fits(
                        items,
                        i + 1,
                        start,
                        Some(crate::ast::Timestamp { micros }),
                        false,
                    );
                },
                None => {},
            }
        } else {
            lemma_interval_fits(items, i + 1, start, stop, first);
        }
    }
}

/// A qualifier of the grammar adds to the qualifiers before it, and leaves
/// at least one qualifier; or it fails for the text of a token.
pub proof fn lemma_qualifier_fits(t: Tree, q: QualifiersView)
    requires
        qualifier_shaped(t),
    ensures
        match qualifier_of(t, q) {
            Ok(after) => !after.is_empty(),
            Err(e) => e.of_text(),
        },
{
    let kind = t.inner[0];
    lemma_repeat_fits(kind.inner, 0, q.repeat);
    lemma_interval_fits(kind.inner, 0, q.start, q.stop, true);
    reveal_with_fuel(repeat_from, 3);
    reveal_with_fuel(within_from, 3);
    reveal_with_fuel(interval_from, 3);
    match kind.rule {
        Rule::Repeat => {
            match crate::literal::integer_u32(kind.inner[0].text) {
                Some(n) => lemma_repeat_fits(kind.inner, 1, Some(n)),
                None => {},
            }
        },
        Rule::Within => {
            lemma_within_fits(kind.inner, 0, q.within);
            lemma_within_fits(kind.inner, 1, Some(kind.inner[0].text));
        },
        Rule::Interval => {
            match crate::literal::timestamp_of(kind.inner[0].text) {
                Some(micros) => {
                    lemma_interval_fits(
                        kind.inner,
                        1,
                        Some(crate::ast::Timestamp { micros }),
                        q.stop,
                        false,
                    );
                },
                None => {},
            }
        },
        _ => {},
    }
}

/// What is read of an observation of the grammar: the terms give an
/// expression, and qualifiers are there if and only if a qualifier was
/// read.
proof fn lemma_observed_fits(items: Seq<Tree>, i: int, seen: Observed, k: int)
    requires
        0 < k <= items.len(),
        terms_shaped(items.take(k)),
        qualifiers_shaped(items, k),
        0 <= i <= items.len(),
        i > 0 ==> seen.expr is Some,
        i <= k ==> seen.qualifiers.is_empty(),
        i > k ==> !seen.qualifiers.is_empty(),
    ensures
        match observed_from(items, i, seen) {
            Ok(after) => after.expr is Some && (after.qualifiers.is_empty() <==> k == items.len()),
            Err(e) => e.of_text(),
        },
    decreases items.len() - i,
{
    if i < items.len() {
        if i < k {
            let terms = items.take(k);
            assert(terms[i] == items[i]);
            if i % 2 == 0 {
                assert(comparison_shaped(terms[i]));
                lemma_comparison_fits(items[i]);
                match comparison_of(items[i]) {
                    Ok(c) => lemma_observed_fits(
                        items,
                        i + 1,
                        Observed {
                            expr: Some(merged(seen.expr, c, seen.pending)),
                            pending: None,
                            qualifiers: seen.qualifiers,
                        },
                        k,
                    ),
                    Err(_) => {},
                }
            } else {
                assert(terms[i].rule == Rule::And || terms[i].rule == Rule::Or);
                let op = if items[i].rule == Rule::And {
                    BooleanOp::And
                } else {
                    BooleanOp::Or
                };
                lemma_observed_fits(
                    items,
                    i + 1,
                    Observed { expr: seen.expr, pending: Some(op), qualifiers: seen.qualifiers },
                    k,
                );
            }
        } else {
            assert(qualifier_shaped(items[i]));
            lemma_qualifier_fits(items[i], seen.qualifiers);
            match qualifier_of(items[i], seen.qualifiers) {
                Ok(q) => lemma_observed_fits(
                    items,
                    i + 1,
                    Observed { expr: seen.expr, pending: seen.pending, qualifiers: q },
                    k,
                ),
                Err(_) => {},
            }
        }
    }
}

/// An observation without qualifiers stands for its comparisons alone, with
/// no qualified pattern around them; an observation with a qualifier stands
/// for a qualified pattern around its comparisons. Either may fail for the
/// text of a token and not otherwise.
pub proof fn law_observation_qualified(t: Tree, k: int)
    requires
        observation_split(t, k),
    ensures
        match pattern_of(t) {
            Ok(p) => if k == t.inner.len() {
                p is Comparison
            } else {
                p matches PatternView::Qualified(q) && *q.pattern is Comparison
            },
            Err(e) => e.of_text(),
        },
{
    lemma_observed_fits(
        t.inner,
        0,
        Observed { expr: None, pending: None, qualifiers: QualifiersView::none() },
        k,
    );
}

proof fn lemma_grouped_fits(items: Seq<Tree>, i: int, seen: Grouped)
    requires
        items.len() >= 1,
        expression_shaped(items[0]),
        qualifiers_shaped(items, 1),
        0 <= i <= items.len(),
        i > 0 ==> seen.pattern is Some,
        i <= 1 ==> seen.qualifiers.is_empty(),
        i > 1 ==> !seen.qualifiers.is_empty(),
    ensures
        match grouped_from(items, i, seen) {
            Ok(after) => after.pattern is Some && (after.qualifiers.is_empty() <==> items.len()
                == 1) && (if i == 0 {
                expression_of(items[0]) == Ok::<PatternView, ParseErrorView>(after.pattern->0)
            } else {
                after.pattern == seen.pattern
            }),
            Err(e) => e.of_text(),
        },
    decreases items, items.len() - i,
{
    if i < items.len() {
        if i == 0 {
            lemma_expression_fits(items[0]);
            match expression_of(items[0]) {
                Ok(pattern) => lemma_grouped_fits(
                    items,
                    1,
                    Grouped { pattern: Some(pattern), qualifiers: seen.qualifiers },
                ),
                Err(_) => {},
            }
        } else {
            assert(qualifier_shaped(items[i]));
            lemma_qualifier_fits(items[i], seen.qualifiers);
            match qualifier_of(items[i], seen.qualifiers) {
                Ok(q) => lemma_grouped_fits(
                    items,
                    i + 1,
                    Grouped { pattern: seen.pattern, qualifiers: q },
                ),
                Err(_) => {},
            }
        }
    }
}

/// A group without qualifiers stands for the pattern between its
/// parentheses, with no qualified pattern around it; a group with a qualifier
/// stands for a qualified pattern around that pattern. Either may fail as a
/// text can fail and not otherwise.
pub proof fn law_group_qualified(t: Tree)
    requires
        t.rule == Rule::ObservationGroup,
        t.inner.len() >= 1,
        expression_shaped(t.inner[0]),
        qualifiers_shaped(t.inner, 1),
    ensures
        match pattern_of(t) {
            Ok(p) => if t.inner.len() == 1 {
                expression_of(t.inner[0]) == Ok::<PatternView, ParseErrorView>(p)
            } else {
                p matches PatternView::Qualified(q) && expression_of(t.inner[0]) == Ok::<
                    PatternView,
                    ParseErrorView,
                >(*q.pattern)
            },
            Err(e) => e.of_text(),
        },
    decreases t, 0int,
{
    lemma_grouped_fits(
        t.inner,
        0,
        Grouped { pattern: None, qualifiers: QualifiersView::none() },
    );
}

/// An operand of the grammar has a meaning, or fails for the text of a
/// token.
pub proof fn lemma_operand_fits(t: Tree)
    requires
        operand_shaped(t),
    ensures
        fits(pattern_of(t)),
    decreases t, 1int,
{
    if observation_shaped(t) {
        let k = choose|k: int| observation_split(t, k);
        law_observation_qualified(t, k);
    } else {
        lemma_grouped_fits(
            t.inner,
            0,
            Grouped { pattern: None, qualifiers: QualifiersView::none() },
        );
    }
}

/// An expression of the grammar has a meaning, or fails for the text of a
/// token.
pub proof fn lemma_expression_fits(t: Tree)
    requires
        expression_shaped(t),
    ensures
        fits(expression_of(t)),
    decreases t, 0int,
{
    assert(operand_shaped(t.inner[0]));
    lemma_operand_fits(t.inner[0]);
    match pattern_of(t.inner[0]) {
        Ok(first) => lemma_joined_fits(t.inner, 1, first),
        Err(_) => {},
    }
}

proof fn lemma_joined_fits(items: Seq<Tree>, i: int, left: PatternView)
    requires
        operands_shaped(items),
        1 <= i <= items.len(),
        i % 2 == 1,
    ensures
        fits(joined_from(items, i, left)),
    decreases items, items.len() - i,
{
    if i < items.len() {
        assert(items[i].rule == Rule::And || items[i].rule == Rule::Or || items[i].rule
            == Rule::FollowedBy);
        match obs_op_of(items[i].rule) {
            Ok(op) => {
                assert(operand_shaped(items[i + 1]));
                lemma_operand_fits(items[i + 1]);
                match pattern_of(items[i + 1]) {
                    Ok(right) => lemma_joined_fits(items, i + 2, left.join(op, right)),
                    Err(_) => {},
                }
            },
            Err(_) => {},
        }
    }
}

/// A tree with the shape of a pattern has a meaning, or fails for the text
/// of a token: for an integer that does not fit or a timestamp that cannot
/// be read.
pub proof fn law_shaped_fits(t: Tree)
    requires
        pattern_shaped(t),
    ensures
        fits(pattern_of(t)),
{
    lemma_expression_fits(t.inner[0]);
}

/// A text is rejected only as a text can be: where it departs from the
/// grammar or nests too deep, or for an integer that does not fit or a
/// timestamp in none of the accepted forms. It is never rejected for a node
/// that is missing or out of place in its concrete tree, since the grammar
/// gives the builders the trees that they read; nor for the text of a decimal
/// number, since the grammar reads as one only what is one.
pub proof fn law_failures_of_text(text: Seq<char>)
    ensures
        parsed(text) matches Err(e) ==> e.of_text(),
{
    law_recognized_shape(text);
    match pattern(text) {
        Ok(t) => law_shaped_fits(t),
        Err(_) => {},
    }
}

} // verus!
