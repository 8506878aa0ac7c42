//! The shape of the concrete trees of the grammar: which children, of which
//! rules and in which order, a node of each rule has.

use vstd::prelude::*;
use crate::literal::is_decimal_number;
use crate::tree::{Rule, Tree};

verus! {

/// Whether the rule is that of the token of a constant.
pub open spec fn is_constant_rule(rule: Rule) -> bool {
    rule == Rule::String || rule == Rule::Bool || rule == Rule::Float || rule == Rule::Int || rule
        == Rule::Time || rule == Rule::Hex || rule == Rule::Bin
}

/// Whether the rule is that of a comparison operator.
pub open spec fn is_operator_rule(rule: Rule) -> bool {
    rule == Rule::Equal || rule == Rule::NotEqual || rule == Rule::Gt || rule == Rule::Lt || rule
        == Rule::Ge || rule == Rule::Le || rule == Rule::In || rule == Rule::Like || rule
        == Rule::Match || rule == Rule::IsSubset || rule == Rule::IsSuperset
}

/// `Value[constant]`, where the text of a number with a point is a decimal
/// number.
pub open spec fn value_shaped(t: Tree) -> bool {
    t.rule == Rule::Value && t.inner.len() == 1 && is_constant_rule(t.inner[0].rule) && (
    t.inner[0].rule == Rule::Float ==> is_decimal_number(t.inner[0].text))
}

/// Every node of the sequence is a value.
pub open spec fn values_shaped(items: Seq<Tree>) -> bool {
    forall|i: int| 0 <= i < items.len() ==> value_shaped(#[trigger] items[i])
}

/// `List[Value+]`
pub open spec fn list_shaped(t: Tree) -> bool {
    t.rule == Rule::List && t.inner.len() >= 1 && values_shaped(t.inner)
}

/// `Step[Property]` or `Step[Property, Index]`
pub open spec fn step_shaped(t: Tree) -> bool {
    t.rule == Rule::Step && 1 <= t.inner.len() <= 2 && t.inner[0].rule == Rule::Property && (
    t.inner.len() == 2 ==> t.inner[1].rule == Rule::Index)
}

/// The first node is an object type, and every other a step.
pub open spec fn steps_shaped(items: Seq<Tree>) -> bool {
    items.len() >= 1 && items[0].rule == Rule::Object && forall|i: int|
        1 <= i < items.len() ==> step_shaped(#[trigger] items[i])
}

/// `Path[Object, Step+]`
pub open spec fn path_shaped(t: Tree) -> bool {
    t.rule == Rule::Path && t.inner.len() >= 2 && steps_shaped(t.inner)
}

/// `Comparison[Exists, Path]`
pub open spec fn existence_shaped(t: Tree) -> bool {
    t.rule == Rule::Comparison && t.inner.len() == 2 && t.inner[0].rule == Rule::Exists
        && path_shaped(t.inner[1])
}

/// `Comparison[Path, operator, Value | List]` or
/// `Comparison[Path, Not, operator, Value | List]`
pub open spec fn leaf_shaped(t: Tree) -> bool {
    let n = t.inner.len();
    t.rule == Rule::Comparison && 3 <= n <= 4 && path_shaped(t.inner[0]) && (n == 4
        ==> t.inner[1].rule == Rule::Not) && is_operator_rule(t.inner[n - 2].rule) && (
    value_shaped(t.inner[n - 1]) || list_shaped(t.inner[n - 1]))
}

/// A comparison: a test for existence, a path with its operator and
/// constant, or a group `Comparison[terms]`.
pub open spec fn comparison_shaped(t: Tree) -> bool
    decreases t,
{
    existence_shaped(t) || leaf_shaped(t) || (t.rule == Rule::Comparison && terms_shaped(t.inner))
}

/// Comparisons with `And` or `Or` between each two of them.
pub open spec fn terms_shaped(items: Seq<Tree>) -> bool
    decreases items,
{
    items.len() % 2 == 1 && forall|i: int|
        0 <= i < items.len() ==> if i % 2 == 0 {
            comparison_shaped(#[trigger] items[i])
        } else {
            items[i].rule == Rule::And || items[i].rule == Rule::Or
        }
}

/// `Qualifier[Repeat[PosInt]]`, `Qualifier[Within[PosInt | PosFloat]]` or
/// `Qualifier[Interval[Time, Time]]`, where the text of a window is a
/// decimal number.
pub open spec fn qualifier_shaped(t: Tree) -> bool {
    t.rule == Rule::Qualifier && t.inner.len() == 1 && {
        let kind = t.inner[0];
        match kind.rule {
            Rule::Repeat => kind.inner.len() == 1 && kind.inner[0].rule == Rule::PosInt,
            Rule::Within => kind.inner.len() == 1 && (kind.inner[0].rule == Rule::PosInt
                || kind.inner[0].rule == Rule::PosFloat) && is_decimal_number(
                kind.inner[0].text,
            ),
            Rule::Interval => kind.inner.len() == 2 && kind.inner[0].rule == Rule::Time
                && kind.inner[1].rule == Rule::Time,
            _ => false,
        }
    }
}

/// Every node from position `k` on is a qualifier.
pub open spec fn qualifiers_shaped(items: Seq<Tree>, k: int) -> bool {
    forall|i: int| k <= i < items.len() ==> qualifier_shaped(#[trigger] items[i])
}

/// `Observation[terms, Qualifier*]`: the first `k` children are the terms.
pub open spec fn observation_split(t: Tree, k: int) -> bool {
    t.rule == Rule::Observation && 0 < k <= t.inner.len() && terms_shaped(t.inner.take(k))
        && qualifiers_shaped(t.inner, k)
}

/// `Observation[terms, Qualifier*]`
pub open spec fn observation_shaped(t: Tree) -> bool {
    exists|k: int| observation_split(t, k)
}

/// An operand of an expression: an observation, or a group
/// `ObservationGroup[Expression, Qualifier*]`.
pub open spec fn operand_shaped(t: Tree) -> bool
    decreases t, 1int,
{
    observation_shaped(t) || (t.rule == Rule::ObservationGroup && t.inner.len() >= 1
        && expression_shaped(t.inner[0]) && qualifiers_shaped(t.inner, 1))
}

/// `Expression[operands]`: operands with `And`, `Or` or `FollowedBy` between
/// each two of them.
pub open spec fn expression_shaped(t: Tree) -> bool
    decreases t, 0int,
{
    t.rule == Rule::Expression && operands_shaped(t.inner)
}

/// Operands with `And`, `Or` or `FollowedBy` between each two of them.
pub open spec fn operands_shaped(items: Seq<Tree>) -> bool
    decreases items, 2int,
{
    items.len() % 2 == 1 && forall|i: int|
        0 <= i < items.len() ==> if i % 2 == 0 {
            operand_shaped(#[trigger] items[i])
        } else {
            items[i].rule == Rule::And || items[i].rule == Rule::Or || items[i].rule
                == Rule::FollowedBy
        }
}

/// `Pattern[Expression]`
pub open spec fn pattern_shaped(t: Tree) -> bool {
    t.rule == Rule::Pattern && t.inner.len() == 1 && expression_shaped(t.inner[0])
}

} // verus!
