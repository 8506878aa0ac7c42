//! What a concrete tree means: the pattern that it stands for, or the
//! failure to give it a meaning. These functions are the specification of
//! the parser; they give a meaning to every tree, whether the recognizer
//! could have built it or not.
//!
//! Children are read from left to right and the first failure is the result.
//! A run of operands and operators is folded to the left: each operand joins
//! what was built before it, so `a AND b OR c` is `(a AND b) OR c`.

use vstd::prelude::*;
use crate::ast::{
    BooleanOp, ComparisonExprView, ComparisonOp, ComparisonOperator, ComparisonView, ListIndex,
    ObjectPathView, ObservationOp, PathComponentView, PatternView, QualifiedPatternView, RhsView,
    Timestamp, UnaryOp, ValueView,
};
use crate::error::ParseErrorView;
use crate::grammar;
use crate::literal::{
    integer_i64, integer_u32, is_decimal_number, stripped, timestamp_of, unescaped,
};
use crate::tree::{Rule, Tree};

verus! {

/// The failure to find a child that a production needs.
pub open spec fn missing<T>(what: Seq<char>) -> Result<T, ParseErrorView> {
    Err(ParseErrorView::MissingElement(what))
}

/// The constant that a `Value` node stands for: that of its first child.
pub open spec fn value_of(t: Tree) -> Result<ValueView, ParseErrorView> {
    if t.inner.len() == 0 {
        missing("value content"@)
    } else {
        let text = t.inner[0].text;
        match t.inner[0].rule {
            Rule::String => Ok(ValueView::String(unescaped(text))),
            Rule::Bool => Ok(ValueView::Bool(text == "true"@)),
            Rule::Float => if is_decimal_number(text) {
                Ok(ValueView::Float(text))
            } else {
                Err(ParseErrorView::InvalidFloat(text))
            },
            Rule::Int => match integer_i64(text) {
                Some(v) => Ok(ValueView::Int(v)),
                None => Err(ParseErrorView::InvalidInt(text)),
            },
            Rule::Time => match timestamp_of(text) {
                Some(micros) => Ok(ValueView::Timestamp(Timestamp { micros })),
                None => Err(ParseErrorView::InvalidTimestamp(text)),
            },
            Rule::Hex => Ok(ValueView::Hex(text)),
            Rule::Bin => Ok(ValueView::Binary(text)),
            rule => Err(ParseErrorView::UnexpectedRule(rule)),
        }
    }
}

/// The constants of the `Value` nodes among the children from `i` on, after
/// those that were found before.
pub open spec fn values_from(items: Seq<Tree>, i: int, values: Seq<ValueView>) -> Result<
    Seq<ValueView>,
    ParseErrorView,
>
    decreases items.len() - i,
{
    if !(0 <= i < items.len()) {
        Ok(values)
    } else if items[i].rule == Rule::Value {
        match value_of(items[i]) {
            Ok(v) => values_from(items, i + 1, values.push(v)),
            Err(e) => Err(e),
        }
    } else {
        values_from(items, i + 1, values)
    }
}

/// The constants that a `List` node stands for: those of its `Value`
/// children, in order.
pub open spec fn list_of(t: Tree) -> Result<Seq<ValueView>, ParseErrorView> {
    values_from(t.inner, 0, Seq::empty())
}

/// The index that the text of an `Index` token stands for.
pub open spec fn index_of(text: Seq<char>) -> Result<ListIndex, ParseErrorView> {
    if text == "*"@ {
        Ok(ListIndex::Star)
    } else {
        match integer_u32(text) {
            Some(n) => Ok(ListIndex::Index(n)),
            None => Err(ParseErrorView::InvalidInt(text)),
        }
    }
}

/// The step as the children from `i` on leave it: a `Property` child sets the
/// name, without its quotes if it has them, and an `Index` child sets the
/// index.
pub open spec fn step_from(items: Seq<Tree>, i: int, step: PathComponentView) -> Result<
    PathComponentView,
    ParseErrorView,
>
    decreases items.len() - i,
{
    if !(0 <= i < items.len()) {
        Ok(step)
    } else {
        match items[i].rule {
            Rule::Property => step_from(
                items,
                i + 1,
                PathComponentView { property: stripped(items[i].text), index: step.index },
            ),
            Rule::Index => match index_of(items[i].text) {
                Ok(index) => step_from(
                    items,
                    i + 1,
                    PathComponentView { property: step.property, index: Some(index) },
                ),
                Err(e) => Err(e),
            },
            _ => step_from(items, i + 1, step),
        }
    }
}

/// The step that a `Step` node stands for.
pub open spec fn step_of(t: Tree) -> Result<PathComponentView, ParseErrorView> {
    step_from(t.inner, 0, PathComponentView { property: Seq::empty(), index: None })
}

/// The path as the children from `i` on leave it: an `Object` child sets the
/// type of the object, and a `Step` child adds a step.
pub open spec fn path_from(items: Seq<Tree>, i: int, path: ObjectPathView) -> Result<
    ObjectPathView,
    ParseErrorView,
>
    decreases items.len() - i,
{
    if !(0 <= i < items.len()) {
        Ok(path)
    } else {
        match items[i].rule {
            Rule::Object => path_from(
                items,
                i + 1,
                ObjectPathView { object_type: items[i].text, property_path: path.property_path },
            ),
            Rule::Step => match step_of(items[i]) {
                Ok(step) => path_from(
                    items,
                    i + 1,
                    ObjectPathView {
                        object_type: path.object_type,
                        property_path: path.property_path.push(step),
                    },
                ),
                Err(e) => Err(e),
            },
            _ => path_from(items, i + 1, path),
        }
    }
}

/// The path that a `Path` node stands for.
pub open spec fn path_of(t: Tree) -> Result<ObjectPathView, ParseErrorView> {
    path_from(t.inner, 0, ObjectPathView { object_type: Seq::empty(), property_path: Seq::empty() })
}

/// The comparison operator that a rule stands for, if it stands for one.
pub open spec fn comp_op_of(rule: Rule) -> Option<ComparisonOp> {
    match rule {
        Rule::Equal => Some(ComparisonOp::Eq),
        Rule::NotEqual => Some(ComparisonOp::Neq),
        Rule::Gt => Some(ComparisonOp::Gt),
        Rule::Lt => Some(ComparisonOp::Lt),
        Rule::Ge => Some(ComparisonOp::Ge),
        Rule::Le => Some(ComparisonOp::Le),
        Rule::In => Some(ComparisonOp::In),
        Rule::Like => Some(ComparisonOp::Like),
        Rule::Match => Some(ComparisonOp::Matches),
        Rule::IsSubset => Some(ComparisonOp::IsSubset),
        Rule::IsSuperset => Some(ComparisonOp::IsSuperset),
        _ => None,
    }
}

/// The operator between two observations that a rule stands for.
pub open spec fn obs_op_of(rule: Rule) -> Result<ObservationOp, ParseErrorView> {
    match rule {
        Rule::And => Ok(ObservationOp::And),
        Rule::Or => Ok(ObservationOp::Or),
        Rule::FollowedBy => Ok(ObservationOp::FollowedBy),
        rule => Err(ParseErrorView::UnexpectedRule(rule)),
    }
}

/// What was built so far, joined with the next operand: the operand alone
/// where nothing was built, else the two joined by the operator that stood
/// between them, or by `AND` where none did.
pub open spec fn merged(
    left: Option<ComparisonExprView>,
    right: ComparisonExprView,
    op: Option<BooleanOp>,
) -> ComparisonExprView {
    match left {
        None => right,
        Some(l) => l.join(
            match op {
                Some(op) => op,
                None => BooleanOp::And,
            },
            right,
        ),
    }
}

/// What has been read of a comparison after its path.
pub ghost struct Operands {
    pub negated: bool,
    pub op: Option<ComparisonOp>,
    pub rhs: Option<RhsView>,
}

/// The operands as the children from `i` on leave them: `NOT` negates, a
/// value or a list sets the constant, and the rule of an operator sets the
/// operator.
pub open spec fn operands_from(items: Seq<Tree>, i: int, found: Operands) -> Result<
    Operands,
    ParseErrorView,
>
    decreases items.len() - i,
{
    if !(0 <= i < items.len()) {
        Ok(found)
    } else {
        match items[i].rule {
            Rule::Not => operands_from(
                items,
                i + 1,
                Operands { negated: true, op: found.op, rhs: found.rhs },
            ),
            Rule::Value => match value_of(items[i]) {
                Ok(v) => operands_from(
                    items,
                    i + 1,
                    Operands {
                        negated: found.negated,
                        op: found.op,
                        rhs: Some(RhsView::Value(v)),
                    },
                ),
                Err(e) => Err(e),
            },
            Rule::List => match list_of(items[i]) {
                Ok(l) => operands_from(
                    items,
                    i + 1,
                    Operands { negated: found.negated, op: found.op, rhs: Some(RhsView::List(l)) },
                ),
                Err(e) => Err(e),
            },
            rule => operands_from(
                items,
                i + 1,
                match comp_op_of(rule) {
                    Some(op) => Operands { negated: found.negated, op: Some(op), rhs: found.rhs },
                    None => found,
                },
            ),
        }
    }
}

/// The comparison of a path with the operands that were read after it. It
/// needs an operator and a constant.
pub open spec fn leaf_of(path: ObjectPathView, found: Operands) -> Result<
    ComparisonExprView,
    ParseErrorView,
> {
    match found.op {
        None => missing("operator"@),
        Some(op) => match found.rhs {
            None => missing("value"@),
            Some(rhs) => Ok(
                ComparisonExprView::Single(
                    ComparisonView {
                        object_path: path,
                        op: ComparisonOperator::Comparison(op),
                        constant: Some(rhs),
                        negated: found.negated,
                    },
                ),
            ),
        },
    }
}

/// The test of a path for existence.
pub open spec fn existence_of(path: ObjectPathView) -> ComparisonExprView {
    ComparisonExprView::Single(
        ComparisonView {
            object_path: path,
            op: ComparisonOperator::Unary(UnaryOp::Exists),
            constant: None,
            negated: false,
        },
    )
}

/// The comparison expression that a `Comparison` node stands for. Its first
/// child tells which of three it is: a group of comparisons, a test for
/// existence, or a path with an operator and a constant.
pub open spec fn comparison_of(t: Tree) -> Result<ComparisonExprView, ParseErrorView>
    decreases t, 0int,
{
    if t.inner.len() == 0 {
        missing("comparison content"@)
    } else {
        match t.inner[0].rule {
            Rule::Comparison => match group_from(t.inner, 0, None, None) {
                Ok(Some(expr)) => Ok(expr),
                Ok(None) => missing("comparison"@),
                Err(e) => Err(e),
            },
            Rule::Exists => if t.inner.len() < 2 {
                missing("path"@)
            } else {
                match path_of(t.inner[1]) {
                    Ok(path) => Ok(existence_of(path)),
                    Err(e) => Err(e),
                }
            },
            Rule::Path => match path_of(t.inner[0]) {
                Ok(path) => match operands_from(
                    t.inner,
                    1,
                    Operands { negated: false, op: None, rhs: None },
                ) {
                    Ok(found) => leaf_of(path, found),
                    Err(e) => Err(e),
                },
                Err(e) => Err(e),
            },
            _ => missing("comparison content"@),
        }
    }
}

/// The expression as the children of a group from `i` on leave it: a
/// comparison joins what was built, and `AND` or `OR` is kept for the next
/// comparison.
pub open spec fn group_from(
    items: Seq<Tree>,
    i: int,
    expr: Option<ComparisonExprView>,
    pending: Option<BooleanOp>,
) -> Result<Option<ComparisonExprView>, ParseErrorView>
    decreases items, items.len() - i,
{
    if !(0 <= i < items.len()) {
        Ok(expr)
    } else {
        match items[i].rule {
            Rule::Comparison => match comparison_of(items[i]) {
                Ok(c) => group_from(items, i + 1, Some(merged(expr, c, pending)), None),
                Err(e) => Err(e),
            },
            Rule::And => group_from(items, i + 1, expr, Some(BooleanOp::And)),
            Rule::Or => group_from(items, i + 1, expr, Some(BooleanOp::Or)),
            _ => group_from(items, i + 1, expr, pending),
        }
    }
}

/// The qualifiers that have been read after an observation.
pub ghost struct QualifiersView {
    pub repeat: Option<u32>,
    pub within: Option<Seq<char>>,
    pub start: Option<Timestamp>,
    pub stop: Option<Timestamp>,
}

impl QualifiersView {
    /// No qualifier.
    pub open spec fn none() -> QualifiersView {
        QualifiersView { repeat: None, within: None, start: None, stop: None }
    }

    /// Whether no qualifier has been read.
    pub open spec fn is_empty(self) -> bool {
        self.repeat is None && self.within is None && self.start is None && self.stop is None
    }

    /// The pattern with the qualifiers: the pattern itself where there is
    /// none, else a qualified pattern around it.
    pub open spec fn apply_to(self, pattern: PatternView) -> PatternView {
        if self.is_empty() {
            pattern
        } else {
            PatternView::Qualified(
                QualifiedPatternView {
                    pattern: Box::new(pattern),
                    repeat: self.repeat,
                    within: self.within,
                    start: self.start,
                    stop: self.stop,
                },
            )
        }
    }
}

/// The count as the children of a `Repeat` node from `i` on leave it.
pub open spec fn repeat_from(items: Seq<Tree>, i: int, repeat: Option<u32>) -> Result<
    Option<u32>,
    ParseErrorView,
>
    decreases items.len() - i,
{
    if !(0 <= i < items.len()) {
        Ok(repeat)
    } else if items[i].rule == Rule::PosInt {
        match integer_u32(items[i].text) {
            Some(n) => repeat_from(items, i + 1, Some(n)),
            None => Err(ParseErrorView::InvalidInt(items[i].text)),
        }
    } else {
        repeat_from(items, i + 1, repeat)
    }
}

/// The window as the children of a `Within` node from `i` on leave it.
pub open spec fn within_from(items: Seq<Tree>, i: int, within: Option<Seq<char>>) -> Result<
    Option<Seq<char>>,
    ParseErrorView,
>
    decreases items.len() - i,
{
    if !(0 <= i < items.len()) {
        Ok(within)
    } else if items[i].rule == Rule::PosFloat || items[i].rule == Rule::PosInt {
        if is_decimal_number(items[i].text) {
            within_from(items, i + 1, Some(items[i].text))
        } else {
            Err(ParseErrorView::InvalidFloat(items[i].text))
        }
    } else {
        within_from(items, i + 1, within)
    }
}

/// The two ends of the interval as the children of an `Interval` node from
/// `i` on leave them: the first timestamp of the node is the start and each
/// later one the stop, whatever stood there before. `first` says that no
/// timestamp of the node was read yet.
pub open spec fn interval_from(
    items: Seq<Tree>,
    i: int,
    start: Option<Timestamp>,
    stop: Option<Timestamp>,
    first: bool,
) -> Result<(Option<Timestamp>, Option<Timestamp>), ParseErrorView>
    decreases items.len() - i,
{
    if !(0 <= i < items.len()) {
        Ok((start, stop))
    } else if items[i].rule == Rule::Time {
        match timestamp_of(items[i].text) {
            Some(micros) => if first {
                interval_from(items, i + 1, Some(Timestamp { micros }), stop, false)
            } else {
                interval_from(items, i + 1, start, Some(Timestamp { micros }), false)
            },
            None => Err(ParseErrorView::InvalidTimestamp(items[i].text)),
        }
    } else {
        interval_from(items, i + 1, start, stop, first)
    }
}

/// The qualifiers after one more `Qualifier` node: its first child says
/// which of them it sets. What the node sets replaces what stood there: of
/// two nodes for one qualifier the later one counts.
pub open spec fn qualifier_of(t: Tree, q: QualifiersView) -> Result<QualifiersView, ParseErrorView> {
    if t.inner.len() == 0 {
        missing("qualifier content"@)
    } else {
        let kind = t.inner[0];
        match kind.rule {
            Rule::Repeat => match repeat_from(kind.inner, 0, q.repeat) {
                Ok(repeat) => Ok(
                    QualifiersView { repeat, within: q.within, start: q.start, stop: q.stop },
                ),
                Err(e) => Err(e),
            },
            Rule::Within => match within_from(kind.inner, 0, q.within) {
                Ok(within) => Ok(
                    QualifiersView { repeat: q.repeat, within, start: q.start, stop: q.stop },
                ),
                Err(e) => Err(e),
            },
            Rule::Interval => match interval_from(kind.inner, 0, q.start, q.stop, true) {
                Ok((start, stop)) => Ok(
                    QualifiersView { repeat: q.repeat, within: q.within, start, stop },
                ),
                Err(e) => Err(e),
            },
            _ => Ok(q),
        }
    }
}

/// What has been read of an observation.
pub ghost struct Observed {
    pub expr: Option<ComparisonExprView>,
    pub pending: Option<BooleanOp>,
    pub qualifiers: QualifiersView,
}

/// The observation as the children from `i` on leave it: comparisons and
/// operators as in a group, and each qualifier added to those before it.
pub open spec fn observed_from(items: Seq<Tree>, i: int, seen: Observed) -> Result<
    Observed,
    ParseErrorView,
>
    decreases items.len() - i,
{
    if !(0 <= i < items.len()) {
        Ok(seen)
    } else {
        match items[i].rule {
            Rule::Comparison => match comparison_of(items[i]) {
                Ok(c) => observed_from(
                    items,
                    i + 1,
                    Observed {
                        expr: Some(merged(seen.expr, c, seen.pending)),
                        pending: None,
                        qualifiers: seen.qualifiers,
                    },
                ),
                Err(e) => Err(e),
            },
            Rule::And => observed_from(
                items,
                i + 1,
                Observed {
                    expr: seen.expr,
                    pending: Some(BooleanOp::And),
                    qualifiers: seen.qualifiers,
                },
            ),
            Rule::Or => observed_from(
                items,
                i + 1,
                Observed {
                    expr: seen.expr,
                    pending: Some(BooleanOp::Or),
                    qualifiers: seen.qualifiers,
                },
            ),
            Rule::Qualifier => match qualifier_of(items[i], seen.qualifiers) {
                Ok(q) => observed_from(
                    items,
                    i + 1,
                    Observed { expr: seen.expr, pending: seen.pending, qualifiers: q },
                ),
                Err(e) => Err(e),
            },
            _ => observed_from(items, i + 1, seen),
        }
    }
}

/// The pattern that an `Observation` node stands for: its comparisons
/// folded to the left, with its qualifiers.
pub open spec fn observation_of(t: Tree) -> Result<PatternView, ParseErrorView> {
    match observed_from(
        t.inner,
        0,
        Observed { expr: None, pending: None, qualifiers: QualifiersView::none() },
    ) {
        Ok(seen) => match seen.expr {
            Some(expr) => Ok(seen.qualifiers.apply_to(PatternView::Comparison(expr))),
            None => missing("comparison"@),
        },
        Err(e) => Err(e),
    }
}

/// What has been read of a group of observations.
pub ghost struct Grouped {
    pub pattern: Option<PatternView>,
    pub qualifiers: QualifiersView,
}

/// The position of the first child from `i` on that has the rule, or the
/// number of children where none has.
pub open spec fn first_of(items: Seq<Tree>, i: int, rule: Rule) -> int
    decreases items.len() - i,
{
    if 0 <= i < items.len() && items[i].rule != rule {
        first_of(items, i + 1, rule)
    } else {
        i
    }
}

/// The pattern that a node stands for, by its rule: a pattern, an
/// expression, an observation or a group of observations.
pub open spec fn pattern_of(t: Tree) -> Result<PatternView, ParseErrorView>
    decreases t, 1int,
{
    match t.rule {
        Rule::Pattern => pattern_rule_of(t),
        Rule::Expression => expression_of(t),
        Rule::Observation => observation_of(t),
        Rule::ObservationGroup => group_of(t),
        rule => Err(ParseErrorView::UnexpectedRule(rule)),
    }
}

/// The pattern that the children of a `Pattern` node stand for: that of the
/// first expression among them.
pub open spec fn pattern_rule_of(t: Tree) -> Result<PatternView, ParseErrorView>
    decreases t, 0int,
{
    let k = first_of(t.inner, 0, Rule::Expression);
    if 0 <= k < t.inner.len() {
        expression_of(t.inner[k])
    } else {
        missing("expression"@)
    }
}

/// The pattern that the children of an `ObservationGroup` node stand for:
/// that of the expression among them, with the qualifiers.
pub open spec fn group_of(t: Tree) -> Result<PatternView, ParseErrorView>
    decreases t, 0int,
{
    match grouped_from(
        t.inner,
        0,
        Grouped { pattern: None, qualifiers: QualifiersView::none() },
    ) {
        Ok(seen) => match seen.pattern {
            Some(pattern) => Ok(seen.qualifiers.apply_to(pattern)),
            None => missing("expression"@),
        },
        Err(e) => Err(e),
    }
}

/// The pattern that the children of an `Expression` node stand for: the
/// first is an operand, and after it operators and operands take turns.
pub open spec fn expression_of(t: Tree) -> Result<PatternView, ParseErrorView>
    decreases t, 0int,
{
    if t.inner.len() == 0 {
        missing("expression"@)
    } else {
        match pattern_of(t.inner[0]) {
            Ok(first) => joined_from(t.inner, 1, first),
            Err(e) => Err(e),
        }
    }
}

/// The pattern as the children of an expression from `i` on leave it: each
/// operator and the operand after it join what was built to their left.
pub open spec fn joined_from(items: Seq<Tree>, i: int, left: PatternView) -> Result<
    PatternView,
    ParseErrorView,
>
    decreases items, items.len() - i,
{
    if !(0 <= i < items.len()) {
        Ok(left)
    } else {
        match obs_op_of(items[i].rule) {
            Ok(op) => if i + 1 < items.len() {
                match pattern_of(items[i + 1]) {
                    Ok(right) => joined_from(items, i + 2, left.join(op, right)),
                    Err(e) => Err(e),
                }
            } else {
                missing("right operand"@)
            },
            Err(e) => Err(e),
        }
    }
}

/// The group as its children from `i` on leave it: an expression is the
/// pattern of the group, and each qualifier is added to those before it.
pub open spec fn grouped_from(items: Seq<Tree>, i: int, seen: Grouped) -> Result<
    Grouped,
    ParseErrorView,
>
    decreases items, items.len() - i,
{
    if !(0 <= i < items.len()) {
        Ok(seen)
    } else {
        match items[i].rule {
            Rule::Expression => match expression_of(items[i]) {
                Ok(pattern) => grouped_from(
                    items,
                    i + 1,
                    Grouped { pattern: Some(pattern), qualifiers: seen.qualifiers },
                ),
                Err(e) => Err(e),
            },
            Rule::Qualifier => match qualifier_of(items[i], seen.qualifiers) {
                Ok(q) => grouped_from(
                    items,
                    i + 1,
                    Grouped { pattern: seen.pattern, qualifiers: q },
                ),
                Err(e) => Err(e),
            },
            _ => grouped_from(items, i + 1, seen),
        }
    }
}

/// The pattern that a text stands for: the meaning of the concrete tree that
/// the grammar gives it.
pub open spec fn parsed(text: Seq<char>) -> Result<PatternView, ParseErrorView> {
    match grammar::pattern(text) {
        Ok(t) => pattern_of(t),
        Err(e) => Err(e),
    }
}

} // verus!
