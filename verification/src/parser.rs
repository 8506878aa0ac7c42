//! The parser: from the text of a pattern to its abstract syntax tree.
//!
//! [`parse_pattern`] recognizes the text and builds the tree that the
//! recognizer gives into a pattern. The builders are public too: each takes
//! a node of a concrete tree, of whatever shape, and gives exactly what
//! [`crate::meaning`] says that the node stands for.

use vstd::prelude::*;
use crate::ast::{
    step_views,
    value_views,
    within_view,
    BooleanOp,
    Comparison,
    ComparisonExpr,
    ComparisonExprView,
    ComparisonOp,
    ComparisonRhs,
    CompositeComparison,
    CompositePattern,
    ListIndex,
    ObjectPath,
    ObjectPathView,
    ObservationOp,
    PathComponent,
    PathComponentView,
    PatternExpr,
    PatternView,
    QualifiedPattern,
    StixValue,
    Timestamp,
    UnaryOp,
};
pub use crate::error::ParseError;
use crate::error::ParseErrorView;
use crate::literal::{
    parse_decimal,
    parse_i64,
    parse_timestamp,
    parse_u32,
    strip_quotes,
    unescape_string,
};
use crate::meaning::{
    comp_op_of,
    comparison_of,
    expression_of,
    first_of,
    group_from,
    group_of,
    grouped_from,
    pattern_rule_of,
    index_of,
    interval_from,
    joined_from,
    list_of,
    merged,
    obs_op_of,
    observation_of,
    observed_from,
    operands_from,
    parsed,
    path_from,
    path_of,
    pattern_of,
    qualifier_of,
    repeat_from,
    step_from,
    step_of,
    value_of,
    values_from,
    within_from,
    Grouped,
    Observed,
    Operands,
    QualifiersView,
};
use crate::conformance::law_failures_of_text;
use crate::laws::{law_comparison_well_formed, law_pattern_well_formed};
use crate::depth::law_recognized_height;
use crate::recognizer::recognize;
use crate::text::same_text;
use crate::tree::{lemma_within_higher, Pair, Rule, Tree, MAX_TREE_HEIGHT};

verus! {

/// What the parser returns.
pub type Result<T> = std::result::Result<T, ParseError>;

/// Whether what a builder returned is what the node stands for.
pub open spec fn yields<T: View>(
    r: std::result::Result<T, ParseError>,
    meaning: std::result::Result<T::V, ParseErrorView>,
) -> bool {
    match r {
        Ok(built) => meaning == Ok::<T::V, ParseErrorView>(built@),
        Err(e) => meaning == Err::<T::V, ParseErrorView>(e@),
    }
}

/// The value of an expression that may not have been built yet.
pub open spec fn expr_view(expr: Option<ComparisonExpr>) -> Option<ComparisonExprView> {
    match expr {
        Some(e) => Some(e@),
        None => None,
    }
}

/// The value of a pattern that may not have been built yet.
pub open spec fn pattern_view(pattern: Option<PatternExpr>) -> Option<PatternView> {
    match pattern {
        Some(p) => Some(p@),
        None => None,
    }
}

/// Whether what a builder returned for a tree is what the tree stands for,
/// or, for a tree that is too high, the failure that says so.
pub open spec fn guarded<T: View>(
    r: std::result::Result<T, ParseError>,
    t: Tree,
    meaning: std::result::Result<T::V, ParseErrorView>,
) -> bool {
    if t.within(MAX_TREE_HEIGHT as nat) {
        yields(r, meaning)
    } else {
        r matches Err(e) && e@ == ParseErrorView::TreeTooDeep
    }
}

/// A child of a tree that is not too high is not too high.
proof fn lemma_child_within(t: Tree, i: int)
    requires
        t.within(MAX_TREE_HEIGHT as nat),
        0 <= i < t.inner.len(),
    ensures
        t.inner[i].within(MAX_TREE_HEIGHT as nat),
{
    lemma_within_higher(t.inner[i], (MAX_TREE_HEIGHT - 1) as nat, MAX_TREE_HEIGHT as nat);
}

/// Builds the constant of a `Value` node.
pub fn parse_value(pair: &Pair) -> (r: Result<StixValue>)
    ensures
        yields(r, value_of(pair@)),
{
    if pair.inner.len() == 0 {
        return Err(ParseError::MissingElement("value content"));
    }
    let token = &pair.inner[0];
    let text = token.as_str();
    match token.as_rule() {
        Rule::String => Ok(StixValue::String(unescape_string(text))),
        Rule::Bool => Ok(StixValue::Bool(same_text(text, "true"))),
        Rule::Float => match parse_decimal(text) {
            Ok(number) => Ok(StixValue::Float(number)),
            Err(e) => Err(e),
        },
        Rule::Int => match parse_i64(text) {
            Ok(number) => Ok(StixValue::Int(number)),
            Err(e) => Err(e),
        },
        Rule::Time => match parse_timestamp(text) {
            Ok(moment) => Ok(StixValue::Timestamp(moment)),
            Err(e) => Err(e),
        },
        Rule::Hex => Ok(StixValue::Hex(text.to_owned())),
        Rule::Bin => Ok(StixValue::Binary(text.to_owned())),
        rule => Err(ParseError::UnexpectedRule(rule)),
    }
}

/// Builds the constants of a `List` node: those of its `Value` children, in
/// order.
pub fn parse_list(pair: &Pair) -> (r: Result<Vec<StixValue>>)
    ensures
        match r {
            Ok(values) => list_of(pair@) == Ok::<Seq<crate::ast::ValueView>, ParseErrorView>(
                value_views(values@),
            ),
            Err(e) => list_of(pair@) == Err::<Seq<crate::ast::ValueView>, ParseErrorView>(e@),
        },
{
    let mut values: Vec<StixValue> = Vec::new();
    let mut i: usize = 0;
    assert(value_views(values@) =~= Seq::empty());
    while i < pair.inner.len()
        invariant
            i <= pair.inner.len(),
            values_from(pair@.inner, i as int, value_views(values@)) == list_of(pair@),
        decreases pair.inner.len() - i,
    {
        let child = &pair.inner[i];
        if let Rule::Value = child.as_rule() {
            match parse_value(child) {
                Ok(v) => {
                    assert(value_views(values@.push(v)) =~= value_views(values@).push(v@));
                    values.push(v);
                },
                Err(e) => {
                    return Err(e);
                },
            }
        }
        i += 1;
    }
    Ok(values)
}

/// Builds the index of an `Index` token: `*` is every element, and digits
/// are a position.
pub fn parse_index(text: &str) -> (r: Result<ListIndex>)
    ensures
        match r {
            Ok(index) => index_of(text@) == Ok::<ListIndex, ParseErrorView>(index),
            Err(e) => index_of(text@) == Err::<ListIndex, ParseErrorView>(e@),
        },
{
    if same_text(text, "*") {
        Ok(ListIndex::Star)
    } else {
        match parse_u32(text) {
            Ok(n) => Ok(ListIndex::Index(n)),
            Err(e) => Err(e),
        }
    }
}

/// Builds the step of a `Step` node: the name of its property, without the
/// quotes if it has them, and its index if it has one.
pub fn parse_step(pair: &Pair) -> (r: Result<PathComponent>)
    ensures
        yields(r, step_of(pair@)),
{
    let mut property = String::new();
    let mut index: Option<ListIndex> = None;
    let mut i: usize = 0;
    while i < pair.inner.len()
        invariant
            i <= pair.inner.len(),
            step_from(pair@.inner, i as int, PathComponentView { property: property@, index })
                == step_of(pair@),
        decreases pair.inner.len() - i,
    {
        let child = &pair.inner[i];
        match child.as_rule() {
            Rule::Property => {
                property = strip_quotes(child.as_str());
            },
            Rule::Index => match parse_index(child.as_str()) {
                Ok(found) => {
                    index = Some(found);
                },
                Err(e) => {
                    return Err(e);
                },
            },
            _ => {},
        }
        i += 1;
    }
    Ok(PathComponent::new(property, index))
}

/// Builds the path of a `Path` node: the type of the object and the steps,
/// in the order in which they stand.
pub fn parse_object_path(pair: &Pair) -> (r: Result<ObjectPath>)
    ensures
        yields(r, path_of(pair@)),
{
    let mut object_type = String::new();
    let mut property_path: Vec<PathComponent> = Vec::new();
    let mut i: usize = 0;
    assert(step_views(property_path@) =~= Seq::empty());
    while i < pair.inner.len()
        invariant
            i <= pair.inner.len(),
            path_from(
                pair@.inner,
                i as int,
                ObjectPathView {
                    object_type: object_type@,
                    property_path: step_views(property_path@),
                },
            ) == path_of(pair@),
        decreases pair.inner.len() - i,
    {
        let child = &pair.inner[i];
        match child.as_rule() {
            Rule::Object => {
                object_type = child.as_str().to_owned();
            },
            Rule::Step => match parse_step(child) {
                Ok(step) => {
                    assert(step_views(property_path@.push(step)) =~= step_views(
                        property_path@,
                    ).push(step@));
                    property_path.push(step);
                },
                Err(e) => {
                    return Err(e);
                },
            },
            _ => {},
        }
        i += 1;
    }
    Ok(ObjectPath::new(object_type, property_path))
}

/// The comparison operator that a rule stands for, if it stands for one.
pub fn try_parse_comp_op(rule: Rule) -> (op: Option<ComparisonOp>)
    ensures
        op == comp_op_of(rule),
{
    match rule {
        Rule::Equal => Some(ComparisonOp::Eq),
        Rule::NotEqual => Some(ComparisonOp::Neq),
        Rule::Gt => Some(ComparisonOp::Gt),
        Rule::Lt => Some(ComparisonOp::Lt),
        Rule::Ge => Some(ComparisonOp::Ge),
        Rule::Le => Some(ComparisonOp::Le),
        Rule::In => Some(ComparisonOp::In),
        Rule::Like => Some(ComparisonOp::Like),
        Rule::Match => Some(ComparisonOp::Matches),
        Rule::IsSubset => Some(ComparisonOp::IsSubset),
        Rule::IsSuperset => Some(ComparisonOp::IsSuperset),
        _ => None,
    }
}

/// The operator between two observations that a node stands for.
pub fn parse_obs_op(pair: &Pair) -> (r: Result<ObservationOp>)
    ensures
        match r {
            Ok(op) => obs_op_of(pair@.rule) == Ok::<ObservationOp, ParseErrorView>(op),
            Err(e) => obs_op_of(pair@.rule) == Err::<ObservationOp, ParseErrorView>(e@),
        },
{
    match pair.as_rule() {
        Rule::And => Ok(ObservationOp::And),
        Rule::Or => Ok(ObservationOp::Or),
        Rule::FollowedBy => Ok(ObservationOp::FollowedBy),
        rule => Err(ParseError::UnexpectedRule(rule)),
    }
}

/// Joins what was built so far with the next operand: the operand alone
/// where nothing was built, else the two joined by the operator that stood
/// between them, or by `AND` where none did.
pub fn merge_exprs(left: Option<ComparisonExpr>, right: ComparisonExpr, op: Option<BooleanOp>) -> (r:
    ComparisonExpr)
    ensures
        r@ == merged(expr_view(left), right@, op),
{
    match left {
        None => right,
        Some(l) => {
            let op = match op {
                Some(op) => op,
                None => BooleanOp::default(),
            };
            ComparisonExpr::Composite(CompositeComparison::new(l, op, right))
        },
    }
}

/// The comparison expression of a `Comparison` node that is not too high.
#[verifier::loop_isolation(false)]
fn build_comparison(pair: &Pair) -> (r: Result<ComparisonExpr>)
    requires
        pair@.within(MAX_TREE_HEIGHT as nat),
    ensures
        yields(r, comparison_of(pair@)),
        r matches Ok(expr) ==> expr@.well_formed(),
    decreases pair,
{
    proof {
        law_comparison_well_formed(pair@);
    }
    if pair.inner.len() == 0 {
        return Err(ParseError::MissingElement("comparison content"));
    }
    match pair.inner[0].as_rule() {
        Rule::Comparison => {
            let mut expr: Option<ComparisonExpr> = None;
            let mut pending: Option<BooleanOp> = None;
            let mut i: usize = 0;
            while i < pair.inner.len()
                invariant
                    i <= pair.inner.len(),
                    pair.inner.len() > 0,
                    pair@.inner[0].rule == Rule::Comparison,
                    group_from(pair@.inner, i as int, expr_view(expr), pending) == group_from(
                        pair@.inner,
                        0,
                        None,
                        None,
                    ),
                decreases pair.inner.len() - i,
            {
                let child = &pair.inner[i];
                proof {
                    lemma_child_within(pair@, i as int);
                }
        proof {
            lemma_child_within(pair@, i as int);
        }
                match child.as_rule() {
                    Rule::Comparison => match build_comparison(child) {
                        Ok(c) => {
                            expr = Some(merge_exprs(expr, c, pending));
                            pending = None;
                        },
                        Err(e) => {
                            return Err(e);
                        },
                    },
                    Rule::And => {
                        pending = Some(BooleanOp::And);
                    },
                    Rule::Or => {
                        pending = Some(BooleanOp::Or);
                    },
                    _ => {},
                }
                i += 1;
            }
            match expr {
                Some(expr) => Ok(expr),
                None => Err(ParseError::MissingElement("comparison")),
            }
        },
        Rule::Exists => {
            if pair.inner.len() < 2 {
                return Err(ParseError::MissingElement("path"));
            }
            match parse_object_path(&pair.inner[1]) {
                Ok(path) => Ok(
                    ComparisonExpr::Single(Comparison::new(path, UnaryOp::Exists, None, false)),
                ),
                Err(e) => Err(e),
            }
        },
        Rule::Path => {
            let path = match parse_object_path(&pair.inner[0]) {
                Ok(path) => path,
                Err(e) => {
                    return Err(e);
                },
            };
            let mut negated = false;
            let mut op: Option<ComparisonOp> = None;
            let mut rhs: Option<ComparisonRhs> = None;
            let mut i: usize = 1;
            while i < pair.inner.len()
                invariant
                    1 <= i <= pair.inner.len(),
                    operands_from(
                        pair@.inner,
                        i as int,
                        Operands { negated, op, rhs: crate::ast::rhs_view(rhs) },
                    ) == operands_from(
                        pair@.inner,
                        1,
                        Operands { negated: false, op: None, rhs: None },
                    ),
                decreases pair.inner.len() - i,
            {
                let child = &pair.inner[i];
                proof {
                    lemma_child_within(pair@, i as int);
                }
        proof {
            lemma_child_within(pair@, i as int);
        }
                match child.as_rule() {
                    Rule::Not => {
                        negated = true;
                    },
                    Rule::Value => match parse_value(child) {
                        Ok(v) => {
                            rhs = Some(ComparisonRhs::Value(v));
                        },
                        Err(e) => {
                            return Err(e);
                        },
                    },
                    Rule::List => match parse_list(child) {
                        Ok(l) => {
                            rhs = Some(ComparisonRhs::List(l));
                        },
                        Err(e) => {
                            return Err(e);
                        },
                    },
                    rule => match try_parse_comp_op(rule) {
                        Some(found) => {
                            op = Some(found);
                        },
                        None => {},
                    },
                }
                i += 1;
            }
            let op = match op {
                Some(op) => op,
                None => {
                    return Err(ParseError::MissingElement("operator"));
                },
            };
            if rhs.is_none() {
                return Err(ParseError::MissingElement("value"));
            }
            Ok(ComparisonExpr::Single(Comparison::new(path, op, rhs, negated)))
        },
        _ => Err(ParseError::MissingElement("comparison content")),
    }
}

/// The qualifiers that have been read after an observation. Each is there
/// or not, whatever the others are.
#[derive(Debug, PartialEq, Eq)]
pub struct Qualifiers {
    pub repeat: Option<u32>,
    pub within: Option<String>,
    pub start: Option<Timestamp>,
    pub stop: Option<Timestamp>,
}

impl View for Qualifiers {
    type V = QualifiersView;

    open spec fn view(&self) -> QualifiersView {
        QualifiersView {
            repeat: self.repeat,
            within: within_view(self.within),
            start: self.start,
            stop: self.stop,
        }
    }
}

impl Clone for Qualifiers {
    fn clone(&self) -> (copy: Self)
        ensures
            copy@ == self@,
    {
        let within = match &self.within {
            Some(text) => Some(text.clone()),
            None => None,
        };
        Qualifiers { repeat: self.repeat, within, start: self.start, stop: self.stop }
    }
}

impl Default for Qualifiers {
    /// No qualifier.
    fn default() -> (q: Self)
        ensures
            q@ == QualifiersView::none(),
    {
        Qualifiers { repeat: None, within: None, start: None, stop: None }
    }
}

impl Qualifiers {
    /// Whether no qualifier has been read.
    pub fn is_empty(&self) -> (empty: bool)
        ensures
            empty == self@.is_empty(),
    {
        self.repeat.is_none() && self.within.is_none() && self.start.is_none()
            && self.stop.is_none()
    }

    /// The pattern with the qualifiers: the pattern itself where there is
    /// none, else a qualified pattern around it.
    pub fn apply_to(self, pattern: PatternExpr) -> (r: PatternExpr)
        ensures
            r@ == self@.apply_to(pattern@),
            r@ is Qualified <==> !self@.is_empty() || pattern@ is Qualified,
    {
        if self.is_empty() {
            pattern
        } else {
            PatternExpr::Qualified(
                QualifiedPattern::new(pattern, self.repeat, self.within, self.start, self.stop),
            )
        }
    }
}

/// Adds what a `Qualifier` node says to the qualifiers read before it: a
/// count, a window, or the two ends of an interval, of which the first
/// timestamp of the node is the start and the second the stop. What the node
/// sets replaces what stood there, so the last of several clauses for one
/// qualifier counts. Where the node cannot be read the qualifiers are left as
/// they were.
#[verifier::loop_isolation(false)]
pub fn parse_qualifier(pair: &Pair, q: &mut Qualifiers) -> (r: Result<()>)
    ensures
        match r {
            Ok(_) => qualifier_of(pair@, old(q)@) == Ok::<QualifiersView, ParseErrorView>(
                final(q)@,
            ),
            Err(e) => qualifier_of(pair@, old(q)@) == Err::<QualifiersView, ParseErrorView>(e@)
                && *final(q) == *old(q),
        },
{
    if pair.inner.len() == 0 {
        return Err(ParseError::MissingElement("qualifier content"));
    }
    let kind = &pair.inner[0];
    match kind.as_rule() {
        Rule::Repeat => {
            let mut repeat = q.repeat;
            let mut i: usize = 0;
            while i < kind.inner.len()
                invariant
                    i <= kind.inner.len(),
                    repeat_from(kind@.inner, i as int, repeat) == repeat_from(
                        kind@.inner,
                        0,
                        q.repeat,
                    ),
                decreases kind.inner.len() - i,
            {
                let child = &kind.inner[i];
                if let Rule::PosInt = child.as_rule() {
                    match parse_u32(child.as_str()) {
                        Ok(n) => {
                            repeat = Some(n);
                        },
                        Err(e) => {
                            return Err(e);
                        },
                    }
                }
                i += 1;
            }
            q.repeat = repeat;
        },
        Rule::Within => {
            let mut within: Option<String> = None;
            let mut i: usize = 0;
            while i < kind.inner.len()
                invariant
                    i <= kind.inner.len(),
                    within_from(
                        kind@.inner,
                        i as int,
                        if within is Some {
                            within_view(within)
                        } else {
                            within_view(q.within)
                        },
                    ) == within_from(kind@.inner, 0, within_view(q.within)),
                decreases kind.inner.len() - i,
            {
                let child = &kind.inner[i];
                match child.as_rule() {
                    Rule::PosFloat | Rule::PosInt => match parse_decimal(child.as_str()) {
                        Ok(number) => {
                            within = Some(number);
                        },
                        Err(e) => {
                            return Err(e);
                        },
                    },
                    _ => {},
                }
                i += 1;
            }
            if within.is_some() {
                q.within = within;
            }
        },
        Rule::Interval => {
            let mut start = q.start;
            let mut stop = q.stop;
            let mut first = true;
            let mut i: usize = 0;
            while i < kind.inner.len()
                invariant
                    i <= kind.inner.len(),
                    interval_from(kind@.inner, i as int, start, stop, first) == interval_from(
                        kind@.inner,
                        0,
                        q.start,
                        q.stop,
                        true,
                    ),
                decreases kind.inner.len() - i,
            {
                let child = &kind.inner[i];
                if let Rule::Time = child.as_rule() {
                    match parse_timestamp(child.as_str()) {
                        Ok(moment) => {
                            if first {
                                start = Some(moment);
                                first = false;
                            } else {
                                stop = Some(moment);
                            }
                        },
                        Err(e) => {
                            return Err(e);
                        },
                    }
                }
                i += 1;
            }
            q.start = start;
            q.stop = stop;
        },
        _ => {},
    }
    Ok(())
}

/// The pattern of an `Observation` node that is not too high.
#[verifier::loop_isolation(false)]
fn build_observation(pair: &Pair) -> (r: Result<PatternExpr>)
    requires
        pair@.within(MAX_TREE_HEIGHT as nat),
    ensures
        yields(r, observation_of(pair@)),
{
    let mut expr: Option<ComparisonExpr> = None;
    let mut pending: Option<BooleanOp> = None;
    let mut qualifiers = Qualifiers::default();
    let mut i: usize = 0;
    while i < pair.inner.len()
        invariant
            i <= pair.inner.len(),
            observed_from(
                pair@.inner,
                i as int,
                Observed { expr: expr_view(expr), pending, qualifiers: qualifiers@ },
            ) == observed_from(
                pair@.inner,
                0,
                Observed { expr: None, pending: None, qualifiers: QualifiersView::none() },
            ),
        decreases pair.inner.len() - i,
    {
        let child = &pair.inner[i];
        proof {
            lemma_child_within(pair@, i as int);
        }
        match child.as_rule() {
            Rule::Comparison => match build_comparison(child) {
                Ok(c) => {
                    expr = Some(merge_exprs(expr, c, pending));
                    pending = None;
                },
                Err(e) => {
                    return Err(e);
                },
            },
            Rule::And => {
                pending = Some(BooleanOp::And);
            },
            Rule::Or => {
                pending = Some(BooleanOp::Or);
            },
            Rule::Qualifier => match parse_qualifier(child, &mut qualifiers) {
                Ok(_) => {},
                Err(e) => {
                    return Err(e);
                },
            },
            _ => {},
        }
        i += 1;
    }
    match expr {
        Some(expr) => Ok(qualifiers.apply_to(PatternExpr::Comparison(expr))),
        None => Err(ParseError::MissingElement("comparison")),
    }
}

/// The pattern of an `ObservationGroup` node that is not too high.
#[verifier::loop_isolation(false)]
fn build_observation_group(pair: &Pair) -> (r: Result<PatternExpr>)
    requires
        pair@.within(MAX_TREE_HEIGHT as nat),
    ensures
        yields(r, group_of(pair@)),
    decreases pair, 0int,
{
    let mut inner_pattern: Option<PatternExpr> = None;
    let mut qualifiers = Qualifiers::default();
    let mut i: usize = 0;
    while i < pair.inner.len()
        invariant
            i <= pair.inner.len(),
            grouped_from(
                pair@.inner,
                i as int,
                Grouped { pattern: pattern_view(inner_pattern), qualifiers: qualifiers@ },
            ) == grouped_from(
                pair@.inner,
                0,
                Grouped { pattern: None, qualifiers: QualifiersView::none() },
            ),
        decreases pair.inner.len() - i,
    {
        let child = &pair.inner[i];
        proof {
            lemma_child_within(pair@, i as int);
        }
        match child.as_rule() {
            Rule::Expression => match build_expression(child) {
                Ok(pattern) => {
                    inner_pattern = Some(pattern);
                },
                Err(e) => {
                    return Err(e);
                },
            },
            Rule::Qualifier => match parse_qualifier(child, &mut qualifiers) {
                Ok(_) => {},
                Err(e) => {
                    return Err(e);
                },
            },
            _ => {},
        }
        i += 1;
    }
    match inner_pattern {
        Some(pattern) => Ok(qualifiers.apply_to(pattern)),
        None => Err(ParseError::MissingElement("expression")),
    }
}

/// The pattern of an `Expression` node that is not too high.
#[verifier::loop_isolation(false)]
fn build_expression(pair: &Pair) -> (r: Result<PatternExpr>)
    requires
        pair@.within(MAX_TREE_HEIGHT as nat),
    ensures
        yields(r, expression_of(pair@)),
    decreases pair, 0int,
{
    if pair.inner.len() == 0 {
        return Err(ParseError::MissingElement("expression"));
    }
    proof {
        lemma_child_within(pair@, 0);
    }
    let mut left = match build_pair(&pair.inner[0]) {
        Ok(first) => first,
        Err(e) => {
            return Err(e);
        },
    };
    let mut i: usize = 1;
    while i < pair.inner.len()
        invariant
            1 <= i <= pair.inner.len(),
            joined_from(pair@.inner, i as int, left@) == expression_of(pair@),
        decreases pair.inner.len() - i,
    {
        let op = match parse_obs_op(&pair.inner[i]) {
            Ok(op) => op,
            Err(e) => {
                return Err(e);
            },
        };
        if i + 1 >= pair.inner.len() {
            return Err(ParseError::MissingElement("right operand"));
        }
        proof {
            lemma_child_within(pair@, i + 1);
        }
        let right = match build_pair(&pair.inner[i + 1]) {
            Ok(right) => right,
            Err(e) => {
                return Err(e);
            },
        };
        left = PatternExpr::Composite(CompositePattern::new(left, op, right));
        i += 2;
    }
    Ok(left)
}

/// The pattern of a `Pattern` node that is not too high.
#[verifier::loop_isolation(false)]
fn build_pattern_rule(pair: &Pair) -> (r: Result<PatternExpr>)
    requires
        pair@.within(MAX_TREE_HEIGHT as nat),
    ensures
        yields(r, pattern_rule_of(pair@)),
    decreases pair, 0int,
{
    let mut i: usize = 0;
    while i < pair.inner.len()
        invariant
            i <= pair.inner.len(),
            first_of(pair@.inner, i as int, Rule::Expression) == first_of(
                pair@.inner,
                0,
                Rule::Expression,
            ),
        decreases pair.inner.len() - i,
    {
        if let Rule::Expression = pair.inner[i].as_rule() {
            proof {
                lemma_child_within(pair@, i as int);
            }
            return build_expression(&pair.inner[i]);
        }
        i += 1;
    }
    Err(ParseError::MissingElement("expression"))
}

/// The pattern of a node that is not too high, by its rule.
#[verifier::loop_isolation(false)]
fn build_pair(pair: &Pair) -> (r: Result<PatternExpr>)
    requires
        pair@.within(MAX_TREE_HEIGHT as nat),
    ensures
        yields(r, pattern_of(pair@)),
        r matches Ok(pattern) ==> pattern@.well_formed(),
    decreases pair, 1int,
{
    proof {
        law_pattern_well_formed(pair@);
    }
    match pair.as_rule() {
        Rule::Pattern => build_pattern_rule(pair),
        Rule::Expression => build_expression(pair),
        Rule::Observation => build_observation(pair),
        Rule::ObservationGroup => build_observation_group(pair),
        rule => Err(ParseError::UnexpectedRule(rule)),
    }
}

/// Builds the comparison expression of a `Comparison` node. Its first child
/// tells which of three it is: a group of comparisons, which are folded to
/// the left; a test for existence; or a path with an operator and a
/// constant, negated where `NOT` stands between them.
/// A tree higher than [`MAX_TREE_HEIGHT`] is not built: the failure is
/// [`ParseError::TreeTooDeep`], found without going deeper into the tree than
/// that, so a tree of any height is answered in bounded stack space.
pub fn parse_comparison(pair: &Pair) -> (r: Result<ComparisonExpr>)
    ensures
        guarded(r, pair@, comparison_of(pair@)),
        r matches Ok(expr) ==> expr@.well_formed(),
{
    if pair.within(MAX_TREE_HEIGHT) {
        build_comparison(pair)
    } else {
        Err(ParseError::TreeTooDeep)
    }
}

/// Builds the pattern of an `Observation` node: its comparisons folded to
/// the left, inside a qualified pattern where qualifiers follow them.
/// A tree higher than [`MAX_TREE_HEIGHT`] is not built: the failure is
/// [`ParseError::TreeTooDeep`], found without going deeper into the tree than
/// that, so a tree of any height is answered in bounded stack space.
pub fn parse_observation(pair: &Pair) -> (r: Result<PatternExpr>)
    ensures
        guarded(r, pair@, observation_of(pair@)),
{
    if pair.within(MAX_TREE_HEIGHT) {
        build_observation(pair)
    } else {
        Err(ParseError::TreeTooDeep)
    }
}

/// Builds the pattern of an `ObservationGroup` node: that of the expression
/// between its parentheses, inside a qualified pattern where qualifiers
/// follow it.
/// A tree higher than [`MAX_TREE_HEIGHT`] is not built: the failure is
/// [`ParseError::TreeTooDeep`], found without going deeper into the tree than
/// that, so a tree of any height is answered in bounded stack space.
pub fn parse_observation_group(pair: &Pair) -> (r: Result<PatternExpr>)
    ensures
        guarded(r, pair@, group_of(pair@)),
{
    if pair.within(MAX_TREE_HEIGHT) {
        build_observation_group(pair)
    } else {
        Err(ParseError::TreeTooDeep)
    }
}

/// Builds the pattern of an `Expression` node: the first child is an
/// operand, operators and operands take turns after it, and each operand
/// joins what was built to its left.
/// A tree higher than [`MAX_TREE_HEIGHT`] is not built: the failure is
/// [`ParseError::TreeTooDeep`], found without going deeper into the tree than
/// that, so a tree of any height is answered in bounded stack space.
pub fn parse_expression(pair: &Pair) -> (r: Result<PatternExpr>)
    ensures
        guarded(r, pair@, expression_of(pair@)),
{
    if pair.within(MAX_TREE_HEIGHT) {
        build_expression(pair)
    } else {
        Err(ParseError::TreeTooDeep)
    }
}

/// Builds the pattern of a `Pattern` node: that of the first expression
/// among its children.
/// A tree higher than [`MAX_TREE_HEIGHT`] is not built: the failure is
/// [`ParseError::TreeTooDeep`], found without going deeper into the tree than
/// that, so a tree of any height is answered in bounded stack space.
pub fn parse_pattern_rule(pair: &Pair) -> (r: Result<PatternExpr>)
    ensures
        guarded(r, pair@, pattern_rule_of(pair@)),
{
    if pair.within(MAX_TREE_HEIGHT) {
        build_pattern_rule(pair)
    } else {
        Err(ParseError::TreeTooDeep)
    }
}

/// Builds the pattern of a node by its rule: a pattern, an expression, an
/// observation or a group of observations. A node of another rule has no
/// pattern.
/// A tree higher than [`MAX_TREE_HEIGHT`] is not built: the failure is
/// [`ParseError::TreeTooDeep`], found without going deeper into the tree than
/// that, so a tree of any height is answered in bounded stack space.
pub fn parse_pair(pair: &Pair) -> (r: Result<PatternExpr>)
    ensures
        guarded(r, pair@, pattern_of(pair@)),
        r matches Ok(pattern) ==> pattern@.well_formed(),
{
    if pair.within(MAX_TREE_HEIGHT) {
        build_pair(pair)
    } else {
        Err(ParseError::TreeTooDeep)
    }
}

/// Parses a pattern: recognizes the text against the grammar and builds the
/// pattern of the concrete tree. The result is the pattern that the text
/// stands for, or the first failure. A pattern that is returned is well
/// formed. A failure is one that a text can have: the builders never miss a
/// node in a tree of the recognizer.
pub fn parse_pattern(input: &str) -> (r: Result<PatternExpr>)
    ensures
        yields(r, parsed(input@)),
        r matches Ok(pattern) ==> pattern@.well_formed(),
        r matches Err(e) ==> e@.of_text(),
{
    proof {
        law_failures_of_text(input@);
        law_recognized_height(input@);
    }
    match recognize(input) {
        Ok(pair) => build_pair(&pair),
        Err(e) => Err(e),
    }
}

} // verus!
