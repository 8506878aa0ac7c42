//! What holds of every pattern that the parser builds, and of the way it
//! folds and unescapes: stated over the meaning of trees and proved.

use vstd::prelude::*;
use crate::ast::{
    BooleanOp,
    ComparisonExprView,
    ComparisonOp,
    ComparisonOperator,
    ComparisonView,
    ObjectPathView,
    ObservationOp,
    PatternView,
    RhsView,
};
use crate::error::ParseErrorView;
use crate::literal::{escape_of, unescaped};
use crate::meaning::{
    comp_op_of,
    existence_of,
    value_of,
    comparison_of,
    expression_of,
    group_from,
    grouped_from,
    joined_from,
    leaf_of,
    merged,
    obs_op_of,
    observation_of,
    observed_from,
    operands_from,
    parsed,
    path_of,
    pattern_of,
    qualifier_of,
    Grouped,
    Observed,
    Operands,
    QualifiersView,
};
use crate::tree::{Rule, Tree};

verus! {

/// Every comparison expression that a tree stands for is well formed:
/// `EXISTS` has no constant, and every other operator has one.
pub proof fn law_comparison_well_formed(t: Tree)
    ensures
        comparison_of(t) matches Ok(c) ==> c.well_formed(),
    decreases t, 0int,
{
    if t.inner.len() > 0 && t.inner[0].rule == Rule::Comparison {
        lemma_group_well_formed(t.inner, 0, None, None);
    }
}

proof fn lemma_group_well_formed(
    items: Seq<Tree>,
    i: int,
    expr: Option<ComparisonExprView>,
    pending: Option<BooleanOp>,
)
    requires
        expr matches Some(e) ==> e.well_formed(),
    ensures
        group_from(items, i, expr, pending) matches Ok(Some(e)) ==> e.well_formed(),
    decreases items, items.len() - i,
{
    if 0 <= i < items.len() {
        match items[i].rule {
            Rule::Comparison => {
                law_comparison_well_formed(items[i]);
                match comparison_of(items[i]) {
                    Ok(c) => lemma_group_well_formed(
                        items,
                        i + 1,
                        Some(merged(expr, c, pending)),
                        None,
                    ),
                    Err(_) => {},
                }
            },
            Rule::And => lemma_group_well_formed(items, i + 1, expr, Some(BooleanOp::And)),
            Rule::Or => lemma_group_well_formed(items, i + 1, expr, Some(BooleanOp::Or)),
            _ => lemma_group_well_formed(items, i + 1, expr, pending),
        }
    }
}

proof fn lemma_observed_well_formed(items: Seq<Tree>, i: int, seen: Observed)
    requires
        seen.expr matches Some(e) ==> e.well_formed(),
    ensures
        observed_from(items, i, seen) matches Ok(Observed { expr: Some(e), .. })
            ==> e.well_formed(),
    decreases items.len() - i,
{
    if 0 <= i < items.len() {
        match items[i].rule {
            Rule::Comparison => {
                law_comparison_well_formed(items[i]);
                match comparison_of(items[i]) {
                    Ok(c) => lemma_observed_well_formed(
                        items,
                        i + 1,
                        Observed {
                            expr: Some(merged(seen.expr, c, seen.pending)),
                            pending: None,
                            qualifiers: seen.qualifiers,
                        },
                    ),
                    Err(_) => {},
                }
            },
            Rule::And => lemma_observed_well_formed(
                items,
                i + 1,
                Observed {
                    expr: seen.expr,
                    pending: Some(BooleanOp::And),
                    qualifiers: seen.qualifiers,
                },
            ),
            Rule::Or => lemma_observed_well_formed(
                items,
                i + 1,
                Observed {
                    expr: seen.expr,
                    pending: Some(BooleanOp::Or),
                    qualifiers: seen.qualifiers,
                },
            ),
            Rule::Qualifier => match qualifier_of(items[i], seen.qualifiers) {
                Ok(q) => lemma_observed_well_formed(
                    items,
                    i + 1,
                    Observed { expr: seen.expr, pending: seen.pending, qualifiers: q },
                ),
                Err(_) => {},
            },
            _ => lemma_observed_well_formed(items, i + 1, seen),
        }
    }
}

/// Every pattern that a tree stands for is well formed: each comparison in
/// it has a constant if and only if its operator takes one, and each
/// qualified pattern in it has at least one qualifier.
pub proof fn law_pattern_well_formed(t: Tree)
    ensures
        pattern_of(t) matches Ok(p) ==> p.well_formed(),
    decreases t, 1int,
{
    reveal_with_fuel(PatternView::well_formed, 2);
    match t.rule {
        Rule::Pattern => {
            let k = crate::meaning::first_of(t.inner, 0, Rule::Expression);
            if 0 <= k < t.inner.len() {
                lemma_expression_well_formed(t.inner[k]);
            }
        },
        Rule::Expression => lemma_expression_well_formed(t),
        Rule::Observation => {
            lemma_observed_well_formed(
                t.inner,
                0,
                Observed { expr: None, pending: None, qualifiers: QualifiersView::none() },
            );
        },
        Rule::ObservationGroup => {
            lemma_grouped_well_formed(
                t.inner,
                0,
                Grouped { pattern: None, qualifiers: QualifiersView::none() },
            );
        },
        _ => {},
    }
}

proof fn lemma_expression_well_formed(t: Tree)
    ensures
        expression_of(t) matches Ok(p) ==> p.well_formed(),
    decreases t, 0int,
{
    if t.inner.len() > 0 {
        law_pattern_well_formed(t.inner[0]);
        match pattern_of(t.inner[0]) {
            Ok(first) => lemma_joined_well_formed(t.inner, 1, first),
            Err(_) => {},
        }
    }
}

proof fn lemma_joined_well_formed(items: Seq<Tree>, i: int, left: PatternView)
    requires
        left.well_formed(),
    ensures
        joined_from(items, i, left) matches Ok(p) ==> p.well_formed(),
    decreases items, items.len() - i,
{
    if 0 <= i < items.len() {
        match obs_op_of(items[i].rule) {
            Ok(op) => if i + 1 < items.len() {
                law_pattern_well_formed(items[i + 1]);
                match pattern_of(items[i + 1]) {
                    Ok(right) => lemma_joined_well_formed(items, i + 2, left.join(op, right)),
                    Err(_) => {},
                }
            },
            Err(_) => {},
        }
    }
}

proof fn lemma_grouped_well_formed(items: Seq<Tree>, i: int, seen: Grouped)
    requires
        seen.pattern matches Some(p) ==> p.well_formed(),
    ensures
        grouped_from(items, i, seen) matches Ok(Grouped { pattern: Some(p), .. })
            ==> p.well_formed(),
    decreases items, items.len() - i,
{
    if 0 <= i < items.len() {
        match items[i].rule {
            Rule::Expression => {
                lemma_expression_well_formed(items[i]);
                match expression_of(items[i]) {
                    Ok(pattern) => lemma_grouped_well_formed(
                        items,
                        i + 1,
                        Grouped { pattern: Some(pattern), qualifiers: seen.qualifiers },
                    ),
                    Err(_) => {},
                }
            },
            Rule::Qualifier => match qualifier_of(items[i], seen.qualifiers) {
                Ok(q) => lemma_grouped_well_formed(
                    items,
                    i + 1,
                    Grouped { pattern: seen.pattern, qualifiers: q },
                ),
                Err(_) => {},
            },
            _ => lemma_grouped_well_formed(items, i + 1, seen),
        }
    }
}

/// Every pattern that a text stands for is well formed.
pub proof fn law_parsed_well_formed(text: Seq<char>)
    ensures
        parsed(text) matches Ok(p) ==> p.well_formed(),
{
    match crate::grammar::pattern(text) {
        Ok(t) => law_pattern_well_formed(t),
        Err(_) => {},
    }
}

proof fn lemma_joined_push(
    items: Seq<Tree>,
    i: int,
    start: PatternView,
    o: Tree,
    x: Tree,
    left: PatternView,
    op: ObservationOp,
    right: PatternView,
)
    requires
        0 <= i <= items.len(),
        joined_from(items, i, start) == Ok::<PatternView, ParseErrorView>(left),
        obs_op_of(o.rule) == Ok::<ObservationOp, ParseErrorView>(op),
        pattern_of(x) == Ok::<PatternView, ParseErrorView>(right),
    ensures
        joined_from(items.push(o).push(x), i, start) == Ok::<PatternView, ParseErrorView>(
            left.join(op, right),
        ),
    decreases items.len() - i,
{
    let longer = items.push(o).push(x);
    reveal_with_fuel(joined_from, 2);
    if i < items.len() {
        assert(longer[i] == items[i]);
        match obs_op_of(items[i].rule) {
            Ok(between) => {
                assert(longer[i + 1] == items[i + 1]);
                match pattern_of(items[i + 1]) {
                    Ok(operand) => lemma_joined_push(
                        items,
                        i + 2,
                        start.join(between, operand),
                        o,
                        x,
                        left,
                        op,
                        right,
                    ),
                    Err(_) => {},
                }
            },
            Err(_) => {},
        }
    } else {
        assert(longer[i] == o);
        assert(longer[i + 1] == x);
    }
}

/// Observations are folded to the left. Where the children `items` of an
/// expression stand for the pattern `left`, the same children with one more
/// operator and one more operand after them stand for `left` joined with
/// that operand: what was built before becomes the left side, whatever the
/// operators are.
pub proof fn law_expression_folds_left(
    items: Seq<Tree>,
    o: Tree,
    x: Tree,
    left: PatternView,
    op: ObservationOp,
    right: PatternView,
)
    requires
        expression_of(Tree::node(Rule::Expression, items)) == Ok::<PatternView, ParseErrorView>(
            left,
        ),
        obs_op_of(o.rule) == Ok::<ObservationOp, ParseErrorView>(op),
        pattern_of(x) == Ok::<PatternView, ParseErrorView>(right),
    ensures
        expression_of(Tree::node(Rule::Expression, items.push(o).push(x))) == Ok::<
            PatternView,
            ParseErrorView,
        >(left.join(op, right)),
{
    let longer = items.push(o).push(x);
    assert(longer[0] == items[0]);
    match pattern_of(items[0]) {
        Ok(first) => lemma_joined_push(items, 1, first, o, x, left, op, right),
        Err(_) => {},
    }
}

proof fn lemma_group_push(
    items: Seq<Tree>,
    i: int,
    expr: Option<ComparisonExprView>,
    pending: Option<BooleanOp>,
    o: Tree,
    x: Tree,
    left: ComparisonExprView,
    op: BooleanOp,
    right: ComparisonExprView,
)
    requires
        0 <= i <= items.len(),
        group_from(items, i, expr, pending) == Ok::<Option<ComparisonExprView>, ParseErrorView>(
            Some(left),
        ),
        o.rule == crate::grammar::boolean_rule(op),
        x.rule == Rule::Comparison,
        comparison_of(x) == Ok::<ComparisonExprView, ParseErrorView>(right),
    ensures
        group_from(items.push(o).push(x), i, expr, pending) == Ok::<
            Option<ComparisonExprView>,
            ParseErrorView,
        >(Some(left.join(op, right))),
    decreases items.len() - i,
{
    let longer = items.push(o).push(x);
    if i < items.len() {
        assert(longer[i] == items[i]);
        match items[i].rule {
            Rule::Comparison => match comparison_of(items[i]) {
                Ok(c) => lemma_group_push(
                    items,
                    i + 1,
                    Some(merged(expr, c, pending)),
                    None,
                    o,
                    x,
                    left,
                    op,
                    right,
                ),
                Err(_) => {},
            },
            Rule::And => lemma_group_push(
                items,
                i + 1,
                expr,
                Some(BooleanOp::And),
                o,
                x,
                left,
                op,
                right,
            ),
            Rule::Or => lemma_group_push(
                items,
                i + 1,
                expr,
                Some(BooleanOp::Or),
                o,
                x,
                left,
                op,
                right,
            ),
            _ => lemma_group_push(items, i + 1, expr, pending, o, x, left, op, right),
        }
    } else {
        reveal_with_fuel(group_from, 3);
        assert(longer[i] == o);
        assert(longer[i + 1] == x);
    }
}

/// Comparisons are folded to the left. Where the children `items` of a
/// group of comparisons stand for the expression `left`, the same children
/// with `AND` or `OR` and one more comparison after them stand for `left`
/// joined with that comparison.
pub proof fn law_comparisons_fold_left(
    items: Seq<Tree>,
    o: Tree,
    x: Tree,
    left: ComparisonExprView,
    op: BooleanOp,
    right: ComparisonExprView,
)
    requires
        items.len() > 0,
        items[0].rule == Rule::Comparison,
        comparison_of(Tree::node(Rule::Comparison, items)) == Ok::<
            ComparisonExprView,
            ParseErrorView,
        >(left),
        o.rule == crate::grammar::boolean_rule(op),
        x.rule == Rule::Comparison,
        comparison_of(x) == Ok::<ComparisonExprView, ParseErrorView>(right),
    ensures
        comparison_of(Tree::node(Rule::Comparison, items.push(o).push(x))) == Ok::<
            ComparisonExprView,
            ParseErrorView,
        >(left.join(op, right)),
{
    let longer = items.push(o).push(x);
    assert(longer[0] == items[0]);
    lemma_group_push(items, 0, None, None, o, x, left, op, right);
}

/// A text without a backslash is its own unescaped text.
pub proof fn law_unescape_plain(s: Seq<char>)
    requires
        forall|i: int| 0 <= i < s.len() ==> s[i] != '\\',
    ensures
        unescaped(s) == s,
    decreases s.len(),
{
    if s.len() > 0 {
        law_unescape_plain(s.skip(1));
        assert(seq![s[0]] + s.skip(1) =~= s);
    }
}

/// The text that stands for a character inside a string literal: a
/// backslash before a backslash or a quote, and the letters `n`, `r`, `t`
/// after a backslash for a line feed, a carriage return, a tab.
pub open spec fn escaped_char(c: char) -> Seq<char> {
    if c == '\n' {
        seq!['\\'].push('n')
    } else if c == '\r' {
        seq!['\\'].push('r')
    } else if c == '\t' {
        seq!['\\'].push('t')
    } else if c == '\\' || c == '\'' {
        seq!['\\'].push(c)
    } else {
        seq![c]
    }
}

/// The text that stands for a text inside a string literal.
pub open spec fn escaped(s: Seq<char>) -> Seq<char>
    decreases s.len(),
{
    if s.len() == 0 {
        s
    } else {
        escaped_char(s[0]) + escaped(s.skip(1))
    }
}

/// Unescaping undoes escaping: every text comes back from the text that
/// stands for it inside a string literal.
pub proof fn law_unescape_escaped(s: Seq<char>)
    ensures
        unescaped(escaped(s)) == s,
    decreases s.len(),
{
    if s.len() > 0 {
        let c = s[0];
        let rest = escaped(s.skip(1));
        let whole = escaped_char(c) + rest;
        law_unescape_escaped(s.skip(1));
        if escaped_char(c).len() == 1 {
            assert(whole[0] == c);
            assert(whole.skip(1) =~= rest);
            assert(seq![c] + s.skip(1) =~= s);
        } else {
            assert(whole[0] == '\\');
            assert(whole[1] == escaped_char(c)[1]);
            assert(whole.skip(2) =~= rest);
            assert(escape_of(whole[1]) =~= seq![c]);
            assert(seq![c] + s.skip(1) =~= s);
        }
    }
}

/// A single comparison. The tree of `[path op value]`, with `NOT` before
/// the operator or without it, stands for one comparison, which has the
/// path, the operator and the constant that the three nodes stand for, and
/// is negated if and only if `NOT` is there. Where the path or the constant
/// cannot be read, the failure of the first of them that cannot is the
/// result.
pub proof fn law_single_comparison(path: Tree, negated: bool, o: Tree, v: Tree, op: ComparisonOp)
    requires
        path.rule == Rule::Path,
        v.rule == Rule::Value,
        comp_op_of(o.rule) == Some(op),
    ensures
        pattern_of(single(leaf(path, negated, o, v))) == single_comparison(
            path_of(path),
            negated,
            op,
            value_of(v),
        ),
{
    let t = leaf(path, negated, o, v);
    reveal_with_fuel(operands_from, 4);
    lemma_single(t);
    match path_of(path) {
        Ok(p) => match value_of(v) {
            Ok(c) => {
                assert(comparison_of(t) == leaf_of(
                    p,
                    Operands { negated, op: Some(op), rhs: Some(RhsView::Value(c)) },
                ));
            },
            Err(e) => {
                assert(comparison_of(t) == Err::<ComparisonExprView, ParseErrorView>(e));
            },
        },
        Err(e) => {
            assert(comparison_of(t) == Err::<ComparisonExprView, ParseErrorView>(e));
        },
    }
}

/// The pattern that is one comparison of a path with a constant, where both
/// can be read; else the failure of the path, or else that of the constant.
pub open spec fn single_comparison(
    path: Result<ObjectPathView, ParseErrorView>,
    negated: bool,
    op: ComparisonOp,
    constant: Result<crate::ast::ValueView, ParseErrorView>,
) -> Result<PatternView, ParseErrorView> {
    match path {
        Ok(p) => match constant {
            Ok(c) => Ok(
                PatternView::Comparison(
                    ComparisonExprView::Single(
                        ComparisonView {
                            object_path: p,
                            op: ComparisonOperator::Comparison(op),
                            constant: Some(RhsView::Value(c)),
                            negated,
                        },
                    ),
                ),
            ),
            Err(e) => Err(e),
        },
        Err(e) => Err(e),
    }
}

/// A single test for existence. The tree of `[EXISTS path]` stands for one
/// comparison, which has the path that the node stands for, the operator
/// `EXISTS` and no constant.
pub proof fn law_single_existence(keyword: Tree, path: Tree, p: ObjectPathView)
    requires
        keyword.rule == Rule::Exists,
        path_of(path) == Ok::<ObjectPathView, ParseErrorView>(p),
    ensures
        pattern_of(single(Tree::node(Rule::Comparison, seq![keyword].push(path)))) == Ok::<
            PatternView,
            ParseErrorView,
        >(PatternView::Comparison(existence_of(p))),
{
    let t = Tree::node(Rule::Comparison, seq![keyword].push(path));
    assert(comparison_of(t) == Ok::<ComparisonExprView, ParseErrorView>(existence_of(p)));
    lemma_single(t);
}

/// The pattern of one observation of one comparison is that comparison,
/// and fails as that comparison does.
pub proof fn lemma_single(t: Tree)
    requires
        t.rule == Rule::Comparison,
    ensures
        pattern_of(single(t)) == match comparison_of(t) {
            Ok(c) => Ok::<PatternView, ParseErrorView>(PatternView::Comparison(c)),
            Err(e) => Err::<PatternView, ParseErrorView>(e),
        },
{
    let seen = Tree::node(Rule::Observation, seq![t]);
    let whole = Tree::node(Rule::Expression, seq![seen]);
    reveal_with_fuel(observed_from, 2);
    assert(pattern_of(seen) == observation_of(seen));
    assert(crate::meaning::first_of(seq![whole], 0, Rule::Expression) == 0);
    assert(pattern_of(single(t)) == expression_of(whole));
    match comparison_of(t) {
        Ok(c) => {
            assert(observation_of(seen) == Ok::<PatternView, ParseErrorView>(
                PatternView::Comparison(c),
            ));
            assert(expression_of(whole) == joined_from(
                whole.inner,
                1,
                PatternView::Comparison(c),
            ));
        },
        Err(e) => {
            assert(observation_of(seen) == Err::<PatternView, ParseErrorView>(e));
        },
    }
}

/// The comparison node of a path, an operator and a constant, with `NOT`
/// before the operator or without it.
pub open spec fn leaf(path: Tree, negated: bool, o: Tree, v: Tree) -> Tree {
    Tree::node(
        Rule::Comparison,
        if negated {
            seq![path].push(Tree::token(Rule::Not, "NOT"@)).push(o).push(v)
        } else {
            seq![path].push(o).push(v)
        },
    )
}

/// The tree of the pattern that is one observation of one comparison.
pub open spec fn single(comparison: Tree) -> Tree {
    Tree::node(
        Rule::Pattern,
        seq![
            Tree::node(Rule::Expression, seq![Tree::node(Rule::Observation, seq![comparison])]),
        ],
    )
}

/// An interval clause replaces the interval. The node of `START a STOP b`,
/// where both are timestamps in an accepted form, sets the start to the
/// first and the stop to the second, whatever interval stood before, and
/// leaves the other qualifiers alone.
pub proof fn law_interval_replaces(
    first: Tree,
    second: Tree,
    q: QualifiersView,
    start: crate::ast::Timestamp,
    stop: crate::ast::Timestamp,
)
    requires
        first.rule == Rule::Time,
        second.rule == Rule::Time,
        crate::literal::timestamp_of(first.text) == Some(start.micros),
        crate::literal::timestamp_of(second.text) == Some(stop.micros),
    ensures
        qualifier_of(
            Tree::node(
                Rule::Qualifier,
                seq![Tree::node(Rule::Interval, seq![first].push(second))],
            ),
            q,
        ) == Ok::<QualifiersView, ParseErrorView>(
            QualifiersView {
                repeat: q.repeat,
                within: q.within,
                start: Some(start),
                stop: Some(stop),
            },
        ),
{
    reveal_with_fuel(crate::meaning::interval_from, 3);
}

} // verus!
