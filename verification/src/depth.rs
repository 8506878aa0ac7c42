//! The trees of the grammar are not high: a pattern whose groups nest no
//! deeper than the grammar allows has a tree that the builders accept.

use vstd::prelude::*;
use crate::conformance::{
    lemma_comp_expr_shaped, lemma_comp_term_shaped, lemma_expression_shaped,
    lemma_observation_shaped,
};
use crate::error::Expected;
use crate::grammar::{
    boolean_op, comp_expr, comp_tail, comp_term, comparison, existence, expression,
    expression_tail, lemma_blanks, lemma_qualifier_moves, lemma_step_moves, lemma_value_moves,
    list_tail, observation, observation_op, operator, path, pattern, qualified, qualifier, rhs,
    step, steps_tail, timestamp, value, MAX_NESTING_DEPTH,
};
use crate::scan::{at, keyword_at, skip_blanks};
use crate::tree::{all_within, lemma_within_higher, Rule, Tree, MAX_TREE_HEIGHT};

verus! {

/// Nodes that are at most so high are at most higher.
pub proof fn lemma_all_higher(items: Seq<Tree>, height: nat, higher: nat)
    requires
        all_within(items, height),
        height <= higher,
    ensures
        all_within(items, higher),
{
    assert forall|i: int| 0 <= i < items.len() implies (#[trigger] items[i]).within(higher) by {
        lemma_within_higher(items[i], height, higher);
    }
}

/// A value is two high.
pub proof fn lemma_value_height(s: Seq<char>, i: int)
    ensures
        value(s, i) matches Ok((t, _)) ==> t.within(2),
{
    reveal_with_fuel(Tree::within, 3);
}

/// A list is three high.
pub proof fn lemma_list_tail_height(s: Seq<char>, i: int, items: Seq<Tree>)
    requires
        0 <= i,
        all_within(items, 2),
    ensures
        list_tail(s, i, items) matches Ok((t, _)) ==> t.within(3),
    decreases s.len() - i,
{
    let a = skip_blanks(s, i);
    lemma_blanks(s, i);
    if at(s, a, ')') {
    } else if at(s, a, ',') {
        lemma_value_moves(s, a + 1);
        lemma_value_height(s, a + 1);
        match value(s, a + 1) {
            Ok((v, end)) => {
                lemma_list_tail_height(s, end, items.push(v));
            },
            Err(_) => {},
        }
    }
}

/// The constant of a comparison is at most three high.
pub proof fn lemma_rhs_height(s: Seq<char>, i: int)
    requires
        0 <= i,
    ensures
        rhs(s, i) matches Ok((t, _)) ==> t.within(3),
{
    let a = skip_blanks(s, i);
    lemma_blanks(s, i);
    if at(s, a, '(') {
        lemma_value_moves(s, a + 1);
        lemma_value_height(s, a + 1);
        match value(s, a + 1) {
            Ok((v, end)) => {
                lemma_list_tail_height(s, end, seq![v]);
            },
            Err(_) => {},
        }
    } else {
        lemma_value_height(s, a);
        match value(s, a) {
            Ok((v, _)) => {
                lemma_within_higher(v, 2, 3);
            },
            Err(_) => {},
        }
    }
}

/// A step is two high.
pub proof fn lemma_step_height(s: Seq<char>, i: int)
    ensures
        step(s, i) matches Ok((t, _)) ==> t.within(2),
{
    reveal_with_fuel(Tree::within, 3);
}

/// A path is three high.
pub proof fn lemma_steps_tail_height(s: Seq<char>, i: int, items: Seq<Tree>)
    requires
        0 <= i,
        all_within(items, 2),
    ensures
        steps_tail(s, i, items) matches Ok((t, _)) ==> t.within(3),
    decreases s.len() - i,
{
    let a = skip_blanks(s, i);
    lemma_blanks(s, i);
    if at(s, a, '.') {
        lemma_step_moves(s, a + 1);
        lemma_step_height(s, a + 1);
        match step(s, a + 1) {
            Ok((t, end)) => {
                lemma_steps_tail_height(s, end, items.push(t));
            },
            Err(_) => {},
        }
    }
}

/// A path is three high.
pub proof fn lemma_path_height(s: Seq<char>, i: int, what: Expected)
    requires
        0 <= i,
    ensures
        path(s, i, what) matches Ok((t, _)) ==> t.within(3),
{
    let a = skip_blanks(s, i);
    lemma_blanks(s, i);
    let end = crate::scan::run_end(s, a, crate::scan::CharClass::Word);
    let colon = skip_blanks(s, end);
    if 0 <= a < s.len() {
        crate::scan::lemma_run_end(s, a, crate::scan::CharClass::Word);
        lemma_blanks(s, end);
        if at(s, colon, ':') {
            lemma_step_moves(s, colon + 1);
            lemma_step_height(s, colon + 1);
            match step(s, colon + 1) {
                Ok((t, after)) => {
                    let object = crate::grammar::token(s, Rule::Object, a, end);
                    assert(object.within(2)) by {
                        reveal_with_fuel(Tree::within, 2);
                    }
                    lemma_steps_tail_height(s, after, seq![object].push(t));
                },
                Err(_) => {},
            }
        }
    }
}

/// A path with its operator and constant is four high.
pub proof fn lemma_comparison_height(s: Seq<char>, i: int)
    requires
        0 <= i,
    ensures
        comparison(s, i) matches Ok((t, _)) ==> t.within(4),
{
    lemma_path_height(s, i, Expected::Comparison);
    crate::conformance::lemma_path_shaped(s, i, Expected::Comparison);
    match path(s, i, Expected::Comparison) {
        Ok((p, j)) => {
            let a = skip_blanks(s, j);
            lemma_blanks(s, j);
            let negated = keyword_at(s, a, "NOT"@);
            let b = if negated {
                skip_blanks(s, a + "NOT"@.len())
            } else {
                a
            };
            if negated {
                lemma_blanks(s, a + "NOT"@.len());
            }
            match operator(s, b) {
                Some(op) => {
                    lemma_rhs_height(s, b + op.spelling().len());
                    match rhs(s, b + op.spelling().len()) {
                        Ok((r, after)) => {
                            let t = comparison(s, i)->Ok_0.0;
                            assert forall|k: int| 0 <= k < t.inner.len() implies (
                            #[trigger] t.inner[k]).within(3) by {
                                reveal_with_fuel(Tree::within, 2);
                            }
                        },
                        Err(_) => {},
                    }
                },
                None => {},
            }
        },
        Err(_) => {},
    }
}

/// A test for existence is four high.
pub proof fn lemma_existence_height(s: Seq<char>, a: int)
    requires
        0 <= a,
    ensures
        existence(s, a) matches Ok((t, _)) ==> t.within(4),
{
    lemma_path_height(s, a + "EXISTS"@.len(), Expected::Path);
    match existence(s, a) {
        Ok((t, _)) => {
            assert forall|k: int| 0 <= k < t.inner.len() implies (#[trigger] t.inner[k]).within(
                3,
            ) by {
                reveal_with_fuel(Tree::within, 2);
            }
        },
        Err(_) => {},
    }
}

/// A comparison is at most four higher than the groups inside it nest.
pub proof fn lemma_comp_term_height(s: Seq<char>, i: int, depth: nat)
    requires
        0 <= i,
    ensures
        comp_term(s, i, depth) matches Ok((t, _)) ==> t.within(4 + depth),
    decreases depth, s.len() - i, 0int,
{
    let a = skip_blanks(s, i);
    lemma_blanks(s, i);
    if at(s, a, '(') {
        if depth > 0 {
            lemma_comp_expr_height(s, a + 1, (depth - 1) as nat);
        }
    } else if keyword_at(s, a, "EXISTS"@) {
        lemma_existence_height(s, a);
        match existence(s, a) {
            Ok((t, _)) => lemma_within_higher(t, 4, 4 + depth),
            Err(_) => {},
        }
    } else {
        lemma_comparison_height(s, a);
        match comparison(s, a) {
            Ok((t, _)) => lemma_within_higher(t, 4, 4 + depth),
            Err(_) => {},
        }
    }
}

proof fn lemma_comp_tail_height(s: Seq<char>, i: int, items: Seq<Tree>, depth: nat)
    requires
        0 <= i <= s.len(),
        all_within(items, 4 + depth),
    ensures
        comp_tail(s, i, items, depth) matches Ok((out, _)) ==> all_within(out, 4 + depth),
    decreases depth, s.len() - i, 1int,
{
    let a = skip_blanks(s, i);
    lemma_blanks(s, i);
    match boolean_op(s, a) {
        Some(op) => {
            let end = a + op.spelling().len();
            lemma_comp_term_height(s, end, depth);
            lemma_comp_term_shaped(s, end, depth);
            match comp_term(s, end, depth) {
                Ok((t, after)) => {
                    let between = crate::grammar::token(
                        s,
                        crate::grammar::boolean_rule(op),
                        a,
                        end,
                    );
                    assert(between.within(4 + depth)) by {
                        reveal_with_fuel(Tree::within, 2);
                    }
                    lemma_comp_tail_height(s, after, items.push(between).push(t), depth);
                },
                Err(_) => {},
            }
        },
        None => {},
    }
}

proof fn lemma_comp_expr_height(s: Seq<char>, i: int, depth: nat)
    requires
        0 <= i,
    ensures
        comp_expr(s, i, depth) matches Ok((out, _)) ==> all_within(out, 4 + depth),
    decreases depth, s.len() - i, 2int,
{
    lemma_comp_term_height(s, i, depth);
    lemma_comp_term_shaped(s, i, depth);
    match comp_term(s, i, depth) {
        Ok((t, end)) => {
            lemma_comp_tail_height(s, end, seq![t], depth);
        },
        Err(_) => {},
    }
}

/// A timestamp is one high.
proof fn lemma_timestamp_height(s: Seq<char>, i: int)
    ensures
        timestamp(s, i) matches Ok((t, _)) ==> t.within(1),
{
    reveal_with_fuel(Tree::within, 2);
}

/// A qualifier is three high.
pub proof fn lemma_qualifier_height(s: Seq<char>, a: int)
    ensures
        qualifier(s, a) matches Some(Ok((q, _))) ==> q.within(3),
{
    reveal_with_fuel(Tree::within, 4);
    if keyword_at(s, a, "REPEATS"@) {
    } else if keyword_at(s, a, "WITHIN"@) {
    } else if keyword_at(s, a, "START"@) {
        let i = a + "START"@.len();
        lemma_timestamp_height(s, i);
        match timestamp(s, i) {
            Ok((start, end)) => {
                let c = skip_blanks(s, end);
                if keyword_at(s, c, "STOP"@) {
                    lemma_timestamp_height(s, c + "STOP"@.len());
                    match timestamp(s, c + "STOP"@.len()) {
                        Ok((stop, after)) => {
                            let both = seq![start].push(stop);
                            assert(all_within(both, 1));
                        },
                        Err(_) => {},
                    }
                }
            },
            Err(_) => {},
        }
    }
}

proof fn lemma_qualified_height(
    s: Seq<char>,
    i: int,
    rule: Rule,
    items: Seq<Tree>,
    height: nat,
)
    requires
        0 <= i <= s.len(),
        all_within(items, height),
        height >= 3,
    ensures
        qualified(s, i, rule, items) matches Ok((t, _)) ==> t.within(height + 1),
    decreases s.len() - i,
{
    let a = skip_blanks(s, i);
    lemma_blanks(s, i);
    lemma_qualifier_moves(s, a);
    lemma_qualifier_height(s, a);
    match qualifier(s, a) {
        Some(Ok((q, end))) => {
            lemma_within_higher(q, 3, height);
            lemma_qualified_height(s, end, rule, items.push(q), height);
        },
        Some(Err(_)) => {},
        None => {},
    }
}

/// An observation or a group is at most five higher than twice the depth to
/// which the groups inside it nest.
pub proof fn lemma_observation_height(s: Seq<char>, i: int, depth: nat)
    requires
        0 <= i,
    ensures
        observation(s, i, depth) matches Ok((t, _)) ==> t.within(5 + 2 * depth),
    decreases depth, s.len() - i, 0int,
{
    let a = skip_blanks(s, i);
    lemma_blanks(s, i);
    if at(s, a, '[') {
        lemma_comp_expr_height(s, a + 1, depth);
        lemma_comp_expr_shaped(s, a + 1, depth);
        match comp_expr(s, a + 1, depth) {
            Ok((items, end)) => {
                let b = skip_blanks(s, end);
                lemma_blanks(s, end);
                if at(s, b, ']') {
                    lemma_all_higher(items, 4 + depth, 4 + 2 * depth);
                    lemma_qualified_height(s, b + 1, Rule::Observation, items, 4 + 2 * depth);
                }
            },
            Err(_) => {},
        }
    } else if at(s, a, '(') {
        if depth > 0 {
            lemma_expression_height(s, a + 1, (depth - 1) as nat);
            lemma_expression_shaped(s, a + 1, (depth - 1) as nat);
            match expression(s, a + 1, (depth - 1) as nat) {
                Ok((e, end)) => {
                    let b = skip_blanks(s, end);
                    lemma_blanks(s, end);
                    if at(s, b, ')') {
                        assert(all_within(seq![e], 4 + 2 * depth));
                        lemma_qualified_height(
                            s,
                            b + 1,
                            Rule::ObservationGroup,
                            seq![e],
                            4 + 2 * depth,
                        );
                    }
                },
                Err(_) => {},
            }
        }
    }
}

proof fn lemma_expression_tail_height(s: Seq<char>, i: int, items: Seq<Tree>, depth: nat)
    requires
        0 <= i <= s.len(),
        all_within(items, 5 + 2 * depth),
    ensures
        expression_tail(s, i, items, depth) matches Ok((t, _)) ==> t.within(6 + 2 * depth),
    decreases depth, s.len() - i, 1int,
{
    let a = skip_blanks(s, i);
    lemma_blanks(s, i);
    match observation_op(s, a) {
        Some(op) => {
            let end = a + op.spelling().len();
            lemma_observation_height(s, end, depth);
            lemma_observation_shaped(s, end, depth);
            match observation(s, end, depth) {
                Ok((o, after)) => {
                    let between = crate::grammar::token(
                        s,
                        crate::grammar::observation_rule(op),
                        a,
                        end,
                    );
                    assert(between.within(5 + 2 * depth)) by {
                        reveal_with_fuel(Tree::within, 2);
                    }
                    lemma_expression_tail_height(s, after, items.push(between).push(o), depth);
                },
                Err(_) => {},
            }
        },
        None => {},
    }
}

proof fn lemma_expression_height(s: Seq<char>, i: int, depth: nat)
    requires
        0 <= i,
    ensures
        expression(s, i, depth) matches Ok((t, _)) ==> t.within(6 + 2 * depth),
    decreases depth, s.len() - i, 2int,
{
    lemma_observation_height(s, i, depth);
    lemma_observation_shaped(s, i, depth);
    match observation(s, i, depth) {
        Ok((o, end)) => {
            lemma_expression_tail_height(s, end, seq![o], depth);
        },
        Err(_) => {},
    }
}

/// The concrete tree of a pattern is no higher than the builders accept.
pub proof fn law_recognized_height(s: Seq<char>)
    ensures
        pattern(s) matches Ok(t) ==> t.within(MAX_TREE_HEIGHT as nat),
{
    lemma_expression_height(s, 0, MAX_NESTING_DEPTH as nat);
}

} // verus!
