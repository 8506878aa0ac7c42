//! The abstract syntax tree of a STIX pattern.
//!
//! Every node is built once and read afterwards: the types offer constructors
//! and read-only accessors. Each type has a view, a mathematical value made of
//! sequences and plain data, and the contracts of the whole crate are stated
//! over these views.

use vstd::prelude::*;
use vstd::std_specs::convert::FromSpecImpl;

verus! {

/// An operator that compares the value at a path with a constant.
#[derive(Debug, Clone, Copy, PartialEq, Eq, Hash, Structural)]
pub enum ComparisonOp {
    Eq,
    Neq,
    Gt,
    Lt,
    Ge,
    Le,
    In,
    Like,
    Matches,
    IsSubset,
    IsSuperset,
}

impl ComparisonOp {
    /// The operator as it is written in a pattern.
    pub open spec fn spelling(self) -> Seq<char> {
        match self {
            ComparisonOp::Eq => "="@,
            ComparisonOp::Neq => "!="@,
            ComparisonOp::Gt => ">"@,
            ComparisonOp::Lt => "<"@,
            ComparisonOp::Ge => ">="@,
            ComparisonOp::Le => "<="@,
            ComparisonOp::In => "IN"@,
            ComparisonOp::Like => "LIKE"@,
            ComparisonOp::Matches => "MATCHES"@,
            ComparisonOp::IsSubset => "ISSUBSET"@,
            ComparisonOp::IsSuperset => "ISSUPERSET"@,
        }
    }

    /// The operator as it is written in a pattern.
    pub fn value(&self) -> (s: &'static str)
        ensures
            s@ == self.spelling(),
    {
        match self {
            ComparisonOp::Eq => "=",
            ComparisonOp::Neq => "!=",
            ComparisonOp::Gt => ">",
            ComparisonOp::Lt => "<",
            ComparisonOp::Ge => ">=",
            ComparisonOp::Le => "<=",
            ComparisonOp::In => "IN",
            ComparisonOp::Like => "LIKE",
            ComparisonOp::Matches => "MATCHES",
            ComparisonOp::IsSubset => "ISSUBSET",
            ComparisonOp::IsSuperset => "ISSUPERSET",
        }
    }

    /// The name of the operator, as a host language shows it.
    pub open spec fn name(self) -> Seq<char> {
        match self {
            ComparisonOp::Eq => "ComparisonOp.EQ"@,
            ComparisonOp::Neq => "ComparisonOp.NEQ"@,
            ComparisonOp::Gt => "ComparisonOp.GT"@,
            ComparisonOp::Lt => "ComparisonOp.LT"@,
            ComparisonOp::Ge => "ComparisonOp.GE"@,
            ComparisonOp::Le => "ComparisonOp.LE"@,
            ComparisonOp::In => "ComparisonOp.IN"@,
            ComparisonOp::Like => "ComparisonOp.LIKE"@,
            ComparisonOp::Matches => "ComparisonOp.MATCHES"@,
            ComparisonOp::IsSubset => "ComparisonOp.ISSUBSET"@,
            ComparisonOp::IsSuperset => "ComparisonOp.ISSUPERSET"@,
        }
    }

    /// The name of the operator, as a host language shows it.
    pub fn repr(&self) -> (s: &'static str)
        ensures
            s@ == self.name(),
    {
        match self {
            ComparisonOp::Eq => "ComparisonOp.EQ",
            ComparisonOp::Neq => "ComparisonOp.NEQ",
            ComparisonOp::Gt => "ComparisonOp.GT",
            ComparisonOp::Lt => "ComparisonOp.LT",
            ComparisonOp::Ge => "ComparisonOp.GE",
            ComparisonOp::Le => "ComparisonOp.LE",
            ComparisonOp::In => "ComparisonOp.IN",
            ComparisonOp::Like => "ComparisonOp.LIKE",
            ComparisonOp::Matches => "ComparisonOp.MATCHES",
            ComparisonOp::IsSubset => "ComparisonOp.ISSUBSET",
            ComparisonOp::IsSuperset => "ComparisonOp.ISSUPERSET",
        }
    }
}

/// The operator that takes a path and no constant.
#[derive(Debug, Clone, Copy, PartialEq, Eq, Hash, Structural)]
pub enum UnaryOp {
    Exists,
}

impl UnaryOp {
    /// The operator as it is written in a pattern.
    pub open spec fn spelling(self) -> Seq<char> {
        "EXISTS"@
    }

    /// The operator as it is written in a pattern.
    pub fn value(&self) -> (s: &'static str)
        ensures
            s@ == self.spelling(),
    {
        "EXISTS"
    }

    /// The name of the operator, as a host language shows it.
    pub open spec fn name(self) -> Seq<char> {
        "UnaryOp.EXISTS"@
    }

    /// The name of the operator, as a host language shows it.
    pub fn repr(&self) -> (s: &'static str)
        ensures
            s@ == self.name(),
    {
        "UnaryOp.EXISTS"
    }
}

/// Joins two comparisons inside one observation.
#[derive(Debug, Clone, Copy, PartialEq, Eq, Hash, Structural)]
pub enum BooleanOp {
    And,
    Or,
}

impl BooleanOp {
    /// The operator as it is written in a pattern.
    pub open spec fn spelling(self) -> Seq<char> {
        match self {
            BooleanOp::And => "AND"@,
            BooleanOp::Or => "OR"@,
        }
    }

    /// The operator as it is written in a pattern.
    pub fn value(&self) -> (s: &'static str)
        ensures
            s@ == self.spelling(),
    {
        match self {
            BooleanOp::And => "AND",
            BooleanOp::Or => "OR",
        }
    }

    /// The name of the operator, as a host language shows it.
    pub open spec fn name(self) -> Seq<char> {
        match self {
            BooleanOp::And => "BooleanOp.AND"@,
            BooleanOp::Or => "BooleanOp.OR"@,
        }
    }

    /// The name of the operator, as a host language shows it.
    pub fn repr(&self) -> (s: &'static str)
        ensures
            s@ == self.name(),
    {
        match self {
            BooleanOp::And => "BooleanOp.AND",
            BooleanOp::Or => "BooleanOp.OR",
        }
    }
}

impl Default for BooleanOp {
    /// Two comparisons with nothing said between them are joined by `AND`.
    fn default() -> (op: Self)
        ensures
            op == BooleanOp::And,
    {
        BooleanOp::And
    }
}

/// Joins two observations.
#[derive(Debug, Clone, Copy, PartialEq, Eq, Hash, Structural)]
pub enum ObservationOp {
    And,
    Or,
    FollowedBy,
}

impl ObservationOp {
    /// The operator as it is written in a pattern.
    pub open spec fn spelling(self) -> Seq<char> {
        match self {
            ObservationOp::And => "AND"@,
            ObservationOp::Or => "OR"@,
            ObservationOp::FollowedBy => "FOLLOWEDBY"@,
        }
    }

    /// The operator as it is written in a pattern.
    pub fn value(&self) -> (s: &'static str)
        ensures
            s@ == self.spelling(),
    {
        match self {
            ObservationOp::And => "AND",
            ObservationOp::Or => "OR",
            ObservationOp::FollowedBy => "FOLLOWEDBY",
        }
    }

    /// The name of the operator, as a host language shows it.
    pub open spec fn name(self) -> Seq<char> {
        match self {
            ObservationOp::And => "ObservationOp.AND"@,
            ObservationOp::Or => "ObservationOp.OR"@,
            ObservationOp::FollowedBy => "ObservationOp.FOLLOWEDBY"@,
        }
    }

    /// The name of the operator, as a host language shows it.
    pub fn repr(&self) -> (s: &'static str)
        ensures
            s@ == self.name(),
    {
        match self {
            ObservationOp::And => "ObservationOp.AND",
            ObservationOp::Or => "ObservationOp.OR",
            ObservationOp::FollowedBy => "ObservationOp.FOLLOWEDBY",
        }
    }
}

/// The index of a step into a list: one position, or every element.
#[derive(Debug, Clone, Copy, PartialEq, Eq, Hash, Structural)]
pub enum ListIndex {
    Index(u32),
    Star,
}

/// One step of an object path: a property, and an index where the property
/// is a list.
#[derive(Debug, PartialEq, Eq, Hash)]
pub struct PathComponent {
    pub property: String,
    index: Option<ListIndex>,
}

/// The mathematical value of a [`PathComponent`].
pub ghost struct PathComponentView {
    pub property: Seq<char>,
    pub index: Option<ListIndex>,
}

impl View for PathComponent {
    type V = PathComponentView;

    closed spec fn view(&self) -> PathComponentView {
        PathComponentView { property: self.property@, index: self.index }
    }
}

impl Clone for PathComponent {
    fn clone(&self) -> (copy: Self)
        ensures
            copy@ == self@,
    {
        PathComponent { property: self.property.clone(), index: self.index }
    }
}

impl PathComponent {
    /// A step of the property, with the index if there is one.
    #[must_use]
    pub fn new(property: String, index: Option<ListIndex>) -> (step: Self)
        ensures
            step@ == (PathComponentView { property: property@, index }),
    {
        Self { property, index }
    }

    /// The name of the property.
    pub fn property(&self) -> (name: &str)
        ensures
            name@ == self@.property,
    {
        self.property.as_str()
    }

    /// The index, if the step has one.
    pub fn index(&self) -> (index: Option<ListIndex>)
        ensures
            index == self@.index,
    {
        self.index
    }
}

/// A reference into an object: the type of the object, then the steps that
/// lead to the property, in the order in which they are walked.
#[derive(Debug, PartialEq, Eq, Hash)]
pub struct ObjectPath {
    pub object_type: String,
    pub property_path: Vec<PathComponent>,
}

/// The mathematical value of an [`ObjectPath`].
pub ghost struct ObjectPathView {
    pub object_type: Seq<char>,
    pub property_path: Seq<PathComponentView>,
}

/// The values of the steps of a path, one for one.
pub open spec fn step_views(steps: Seq<PathComponent>) -> Seq<PathComponentView> {
    Seq::new(steps.len(), |i: int| steps[i]@)
}

impl View for ObjectPath {
    type V = ObjectPathView;

    open spec fn view(&self) -> ObjectPathView {
        ObjectPathView {
            object_type: self.object_type@,
            property_path: step_views(self.property_path@),
        }
    }
}

impl Clone for ObjectPath {
    fn clone(&self) -> (copy: Self)
        ensures
            copy@ == self@,
    {
        let mut steps: Vec<PathComponent> = Vec::new();
        let mut i: usize = 0;
        while i < self.property_path.len()
            invariant
                i <= self.property_path.len(),
                steps@.len() == i,
                forall|k: int| 0 <= k < i ==> (#[trigger] steps@[k])@ == self.property_path@[k]@,
            decreases self.property_path.len() - i,
        {
            let step = self.property_path[i].clone();
            steps.push(step);
            i += 1;
        }
        assert(step_views(steps@) =~= step_views(self.property_path@));
        ObjectPath { object_type: self.object_type.clone(), property_path: steps }
    }
}

impl ObjectPath {
    /// The path from an object of the type along the steps.
    #[must_use]
    pub fn new(object_type: String, property_path: Vec<PathComponent>) -> (path: Self)
        ensures
            path@ == (ObjectPathView {
                object_type: object_type@,
                property_path: step_views(property_path@),
            }),
    {
        Self { object_type, property_path }
    }

    /// The type of the object.
    pub fn object_type(&self) -> (name: &str)
        ensures
            name@ == self@.object_type,
    {
        self.object_type.as_str()
    }

    /// The steps, in the order in which they are walked.
    pub fn property_path(&self) -> (steps: &Vec<PathComponent>)
        ensures
            step_views(steps@) == self@.property_path,
    {
        &self.property_path
    }
}

/// A moment in time: microseconds since 1970-01-01T00:00:00 UTC, leap seconds
/// not counted.
#[derive(Debug, Clone, Copy, PartialEq, Eq, Hash, Structural)]
pub struct Timestamp {
    pub micros: i64,
}

/// A constant of a pattern.
///
/// A number with a decimal point is held as the literal was written, sign and
/// digits: the library holds no binary floating point, and the literal says
/// exactly which number is meant. Hexadecimal and binary constants are held as
/// the text between their quotes.
#[derive(Debug, PartialEq, Eq, Hash)]
pub enum StixValue {
    String(String),
    Int(i64),
    Float(String),
    Bool(bool),
    Timestamp(Timestamp),
    Hex(String),
    Binary(String),
}

/// The mathematical value of a [`StixValue`].
pub ghost enum ValueView {
    String(Seq<char>),
    Int(i64),
    Float(Seq<char>),
    Bool(bool),
    Timestamp(Timestamp),
    Hex(Seq<char>),
    Binary(Seq<char>),
}

impl View for StixValue {
    type V = ValueView;

    open spec fn view(&self) -> ValueView {
        match self {
            StixValue::String(s) => ValueView::String(s@),
            StixValue::Int(i) => ValueView::Int(*i),
            StixValue::Float(s) => ValueView::Float(s@),
            StixValue::Bool(b) => ValueView::Bool(*b),
            StixValue::Timestamp(t) => ValueView::Timestamp(*t),
            StixValue::Hex(s) => ValueView::Hex(s@),
            StixValue::Binary(s) => ValueView::Binary(s@),
        }
    }
}

impl Clone for StixValue {
    fn clone(&self) -> (copy: Self)
        ensures
            copy@ == self@,
    {
        match self {
            StixValue::String(s) => StixValue::String(s.clone()),
            StixValue::Int(i) => StixValue::Int(*i),
            StixValue::Float(s) => StixValue::Float(s.clone()),
            StixValue::Bool(b) => StixValue::Bool(*b),
            StixValue::Timestamp(t) => StixValue::Timestamp(*t),
            StixValue::Hex(s) => StixValue::Hex(s.clone()),
            StixValue::Binary(s) => StixValue::Binary(s.clone()),
        }
    }
}

/// The values of a list of constants, one for one.
pub open spec fn value_views(values: Seq<StixValue>) -> Seq<ValueView> {
    Seq::new(values.len(), |i: int| values[i]@)
}

/// The right-hand side of a comparison: one constant, or a list of them.
#[derive(Debug, PartialEq, Eq, Hash)]
pub enum ComparisonRhs {
    Value(StixValue),
    List(Vec<StixValue>),
}

/// The mathematical value of a [`ComparisonRhs`].
pub ghost enum RhsView {
    Value(ValueView),
    List(Seq<ValueView>),
}

impl View for ComparisonRhs {
    type V = RhsView;

    open spec fn view(&self) -> RhsView {
        match self {
            ComparisonRhs::Value(v) => RhsView::Value(v@),
            ComparisonRhs::List(l) => RhsView::List(value_views(l@)),
        }
    }
}

impl Clone for ComparisonRhs {
    fn clone(&self) -> (copy: Self)
        ensures
            copy@ == self@,
    {
        match self {
            ComparisonRhs::Value(v) => ComparisonRhs::Value(v.clone()),
            ComparisonRhs::List(list) => {
                let mut values: Vec<StixValue> = Vec::new();
                let mut i: usize = 0;
                while i < list.len()
                    invariant
                        i <= list.len(),
                        values@.len() == i,
                        forall|k: int| 0 <= k < i ==> (#[trigger] values@[k])@ == list@[k]@,
                    decreases list.len() - i,
                {
                    let value = list[i].clone();
                    values.push(value);
                    i += 1;
                }
                assert(value_views(values@) =~= value_views(list@));
                ComparisonRhs::List(values)
            },
        }
    }
}

impl From<StixValue> for ComparisonRhs {
    fn from(value: StixValue) -> (rhs: Self) {
        ComparisonRhs::Value(value)
    }
}

impl FromSpecImpl<StixValue> for ComparisonRhs {
    open spec fn obeys_from_spec() -> bool {
        true
    }

    open spec fn from_spec(value: StixValue) -> Self {
        ComparisonRhs::Value(value)
    }
}

impl From<Vec<StixValue>> for ComparisonRhs {
    fn from(values: Vec<StixValue>) -> (rhs: Self) {
        ComparisonRhs::List(values)
    }
}

impl FromSpecImpl<Vec<StixValue>> for ComparisonRhs {
    open spec fn obeys_from_spec() -> bool {
        true
    }

    open spec fn from_spec(values: Vec<StixValue>) -> Self {
        ComparisonRhs::List(values)
    }
}

/// The operator of a comparison, of either family.
#[derive(Debug, Clone, Copy, PartialEq, Eq, Hash, Structural)]
pub enum ComparisonOperator {
    Comparison(ComparisonOp),
    Unary(UnaryOp),
}

impl ComparisonOperator {
    /// The operator as it is written in a pattern.
    pub open spec fn spelling(self) -> Seq<char> {
        match self {
            ComparisonOperator::Comparison(op) => op.spelling(),
            ComparisonOperator::Unary(op) => op.spelling(),
        }
    }

    /// The operator as it is written in a pattern.
    pub fn value(&self) -> (s: &'static str)
        ensures
            s@ == self.spelling(),
    {
        match self {
            ComparisonOperator::Comparison(op) => op.value(),
            ComparisonOperator::Unary(op) => op.value(),
        }
    }
}

impl From<ComparisonOp> for ComparisonOperator {
    fn from(op: ComparisonOp) -> (operator: Self) {
        ComparisonOperator::Comparison(op)
    }
}

impl FromSpecImpl<ComparisonOp> for ComparisonOperator {
    open spec fn obeys_from_spec() -> bool {
        true
    }

    open spec fn from_spec(op: ComparisonOp) -> Self {
        ComparisonOperator::Comparison(op)
    }
}

impl From<UnaryOp> for ComparisonOperator {
    fn from(op: UnaryOp) -> (operator: Self) {
        ComparisonOperator::Unary(op)
    }
}

impl FromSpecImpl<UnaryOp> for ComparisonOperator {
    open spec fn obeys_from_spec() -> bool {
        true
    }

    open spec fn from_spec(op: UnaryOp) -> Self {
        ComparisonOperator::Unary(op)
    }
}

/// A leaf of a pattern: a path, an operator, the constant that the operator
/// takes, and whether the comparison is negated.
#[derive(Debug, PartialEq, Eq)]
pub struct Comparison {
    object_path: ObjectPath,
    op: ComparisonOperator,
    constant: Option<ComparisonRhs>,
    pub negated: bool,
}

/// The mathematical value of a [`Comparison`].
pub ghost struct ComparisonView {
    pub object_path: ObjectPathView,
    pub op: ComparisonOperator,
    pub constant: Option<RhsView>,
    pub negated: bool,
}

impl ComparisonView {
    /// The operator and the constant agree: `EXISTS` has no constant, and
    /// every other operator has one.
    pub open spec fn well_formed(self) -> bool {
        self.op is Unary <==> self.constant is None
    }
}

/// The value of a constant that may be missing.
pub open spec fn rhs_view(rhs: Option<ComparisonRhs>) -> Option<RhsView> {
    match rhs {
        Some(r) => Some(r@),
        None => None,
    }
}

impl View for Comparison {
    type V = ComparisonView;

    closed spec fn view(&self) -> ComparisonView {
        ComparisonView {
            object_path: self.object_path@,
            op: self.op,
            constant: rhs_view(self.constant),
            negated: self.negated,
        }
    }
}

impl Clone for Comparison {
    fn clone(&self) -> (copy: Self)
        ensures
            copy@ == self@,
    {
        let constant = match &self.constant {
            Some(rhs) => Some(rhs.clone()),
            None => None,
        };
        Comparison {
            object_path: self.object_path.clone(),
            op: self.op,
            constant,
            negated: self.negated,
        }
    }
}

impl Comparison {
    /// The comparison of the value at a path with a constant, or the test of
    /// the path for existence. The operator may be given as one of either
    /// family.
    #[must_use]
    pub fn new(
        lhs: ObjectPath,
        op: impl Into<ComparisonOperator>,
        rhs: Option<ComparisonRhs>,
        negated: bool,
    ) -> (comparison: Self)
        ensures
            call_ensures(Into::<ComparisonOperator>::into, (op,), comparison@.op),
            comparison@.object_path == lhs@,
            comparison@.constant == rhs_view(rhs),
            comparison@.negated == negated,
    {
        Self { object_path: lhs, op: op.into(), constant: rhs, negated }
    }

    /// The path on the left of the operator.
    pub fn object_path(&self) -> (path: &ObjectPath)
        ensures
            path@ == self@.object_path,
    {
        &self.object_path
    }

    /// The operator.
    pub fn op(&self) -> (op: ComparisonOperator)
        ensures
            op == self@.op,
    {
        self.op
    }

    /// The constant on the right of the operator, if the operator takes one.
    pub fn constant(&self) -> (rhs: Option<&ComparisonRhs>)
        ensures
            rhs matches Some(r) ==> self@.constant == Some(r@),
            rhs is None ==> self@.constant is None,
    {
        self.constant.as_ref()
    }

    /// Whether `NOT` stood before the operator.
    pub fn negated(&self) -> (negated: bool)
        ensures
            negated == self@.negated,
    {
        self.negated
    }
}

/// Two comparison expressions joined by `AND` or `OR`.
#[derive(Debug, PartialEq, Eq)]
pub struct CompositeComparison {
    left: Box<ComparisonExpr>,
    pub op: BooleanOp,
    right: Box<ComparisonExpr>,
}

/// What stands between the brackets of one observation: a single comparison,
/// or two expressions joined.
#[derive(Debug, PartialEq, Eq)]
pub enum ComparisonExpr {
    Single(Comparison),
    Composite(CompositeComparison),
}

/// The mathematical value of a [`CompositeComparison`].
pub ghost struct CompositeComparisonView {
    pub left: Box<ComparisonExprView>,
    pub op: BooleanOp,
    pub right: Box<ComparisonExprView>,
}

/// The mathematical value of a [`ComparisonExpr`].
pub ghost enum ComparisonExprView {
    Single(ComparisonView),
    Composite(CompositeComparisonView),
}

impl ComparisonExprView {
    /// Every comparison in the expression is well formed.
    pub open spec fn well_formed(self) -> bool
        decreases self,
    {
        match self {
            ComparisonExprView::Single(c) => c.well_formed(),
            ComparisonExprView::Composite(c) => c.left.well_formed() && c.right.well_formed(),
        }
    }

    /// The two expressions joined by the operator.
    pub open spec fn join(self, op: BooleanOp, right: ComparisonExprView) -> ComparisonExprView {
        ComparisonExprView::Composite(
            CompositeComparisonView { left: Box::new(self), op, right: Box::new(right) },
        )
    }
}

impl CompositeComparison {
    /// The value of the node, by recursion over its two sides.
    pub closed spec fn model(&self) -> CompositeComparisonView
        decreases self,
    {
        CompositeComparisonView {
            left: Box::new(self.left.model()),
            op: self.op,
            right: Box::new(self.right.model()),
        }
    }
}

impl ComparisonExpr {
    /// The value of the expression, by recursion over its nodes.
    pub open spec fn model(&self) -> ComparisonExprView
        decreases self,
    {
        match self {
            ComparisonExpr::Single(c) => ComparisonExprView::Single(c@),
            ComparisonExpr::Composite(c) => ComparisonExprView::Composite(c.model()),
        }
    }
}

impl View for CompositeComparison {
    type V = CompositeComparisonView;

    open spec fn view(&self) -> CompositeComparisonView {
        self.model()
    }
}

impl View for ComparisonExpr {
    type V = ComparisonExprView;

    open spec fn view(&self) -> ComparisonExprView {
        self.model()
    }
}

impl CompositeComparison {
    /// The two expressions joined by the operator.
    #[must_use]
    pub fn new(left: ComparisonExpr, op: BooleanOp, right: ComparisonExpr) -> (composite: Self)
        ensures
            composite@ == (CompositeComparisonView {
                left: Box::new(left@),
                op,
                right: Box::new(right@),
            }),
    {
        Self { left: Box::new(left), op, right: Box::new(right) }
    }

    /// The expression on the left of the operator.
    pub fn left(&self) -> (left: &ComparisonExpr)
        ensures
            left@ == *self@.left,
    {
        &*self.left
    }

    /// The operator.
    pub fn op(&self) -> (op: BooleanOp)
        ensures
            op == self@.op,
    {
        self.op
    }

    /// The expression on the right of the operator.
    pub fn right(&self) -> (right: &ComparisonExpr)
        ensures
            right@ == *self@.right,
    {
        &*self.right
    }
}

impl Clone for ComparisonExpr {
    fn clone(&self) -> (copy: Self)
        ensures
            copy@ == self@,
        decreases self,
    {
        match self {
            ComparisonExpr::Single(c) => ComparisonExpr::Single(c.clone()),
            ComparisonExpr::Composite(c) => ComparisonExpr::Composite(
                CompositeComparison {
                    left: Box::new((&*c.left).clone()),
                    op: c.op,
                    right: Box::new((&*c.right).clone()),
                },
            ),
        }
    }
}

impl Clone for CompositeComparison {
    fn clone(&self) -> (copy: Self)
        ensures
            copy@ == self@,
    {
        CompositeComparison {
            left: Box::new((&*self.left).clone()),
            op: self.op,
            right: Box::new((&*self.right).clone()),
        }
    }
}

impl From<Comparison> for ComparisonExpr {
    fn from(c: Comparison) -> (expr: Self) {
        ComparisonExpr::Single(c)
    }
}

impl FromSpecImpl<Comparison> for ComparisonExpr {
    open spec fn obeys_from_spec() -> bool {
        true
    }

    open spec fn from_spec(c: Comparison) -> Self {
        ComparisonExpr::Single(c)
    }
}

impl From<CompositeComparison> for ComparisonExpr {
    fn from(c: CompositeComparison) -> (expr: Self) {
        ComparisonExpr::Composite(c)
    }
}

impl FromSpecImpl<CompositeComparison> for ComparisonExpr {
    open spec fn obeys_from_spec() -> bool {
        true
    }

    open spec fn from_spec(c: CompositeComparison) -> Self {
        ComparisonExpr::Composite(c)
    }
}

/// Two patterns joined by `AND`, `OR` or `FOLLOWEDBY`.
#[derive(Debug, PartialEq, Eq)]
pub struct CompositePattern {
    left: Box<PatternExpr>,
    pub op: ObservationOp,
    right: Box<PatternExpr>,
}

/// A pattern with the qualifiers that follow it: how often it repeats, within
/// how many seconds, and between which two moments. At least one of them is
/// there wherever the parser builds this node. The window is held as its
/// literal was written.
#[derive(Debug, PartialEq, Eq)]
pub struct QualifiedPattern {
    pattern: Box<PatternExpr>,
    pub repeat: Option<u32>,
    pub within: Option<String>,
    start: Option<Timestamp>,
    stop: Option<Timestamp>,
}

/// A pattern: one observation, two patterns joined, or a pattern with
/// qualifiers.
#[derive(Debug, PartialEq, Eq)]
pub enum PatternExpr {
    Comparison(ComparisonExpr),
    Composite(CompositePattern),
    Qualified(QualifiedPattern),
}

/// The mathematical value of a [`CompositePattern`].
pub ghost struct CompositePatternView {
    pub left: Box<PatternView>,
    pub op: ObservationOp,
    pub right: Box<PatternView>,
}

/// The mathematical value of a [`QualifiedPattern`].
pub ghost struct QualifiedPatternView {
    pub pattern: Box<PatternView>,
    pub repeat: Option<u32>,
    pub within: Option<Seq<char>>,
    pub start: Option<Timestamp>,
    pub stop: Option<Timestamp>,
}

/// The mathematical value of a [`PatternExpr`].
pub ghost enum PatternView {
    Comparison(ComparisonExprView),
    Composite(CompositePatternView),
    Qualified(QualifiedPatternView),
}

impl QualifiedPatternView {
    /// At least one qualifier is there.
    pub open spec fn has_qualifier(self) -> bool {
        self.repeat is Some || self.within is Some || self.start is Some || self.stop is Some
    }
}

impl PatternView {
    /// Every comparison in the pattern is well formed, and every qualified
    /// pattern in it has a qualifier.
    pub open spec fn well_formed(self) -> bool
        decreases self,
    {
        match self {
            PatternView::Comparison(c) => c.well_formed(),
            PatternView::Composite(c) => c.left.well_formed() && c.right.well_formed(),
            PatternView::Qualified(q) => q.has_qualifier() && q.pattern.well_formed(),
        }
    }

    /// The two patterns joined by the operator.
    pub open spec fn join(self, op: ObservationOp, right: PatternView) -> PatternView {
        PatternView::Composite(
            CompositePatternView { left: Box::new(self), op, right: Box::new(right) },
        )
    }
}

/// The value of a window that may be missing.
pub open spec fn within_view(within: Option<String>) -> Option<Seq<char>> {
    match within {
        Some(w) => Some(w@),
        None => None,
    }
}

impl CompositePattern {
    /// The value of the node, by recursion over its two sides.
    pub closed spec fn model(&self) -> CompositePatternView
        decreases self,
    {
        CompositePatternView {
            left: Box::new(self.left.model()),
            op: self.op,
            right: Box::new(self.right.model()),
        }
    }
}

impl QualifiedPattern {
    /// The value of the node, by recursion over the pattern in it.
    pub closed spec fn model(&self) -> QualifiedPatternView
        decreases self,
    {
        QualifiedPatternView {
            pattern: Box::new(self.pattern.model()),
            repeat: self.repeat,
            within: within_view(self.within),
            start: self.start,
            stop: self.stop,
        }
    }
}

impl PatternExpr {
    /// The value of the pattern, by recursion over its nodes.
    pub open spec fn model(&self) -> PatternView
        decreases self,
    {
        match self {
            PatternExpr::Comparison(c) => PatternView::Comparison(c@),
            PatternExpr::Composite(c) => PatternView::Composite(c.model()),
            PatternExpr::Qualified(q) => PatternView::Qualified(q.model()),
        }
    }
}

impl View for CompositePattern {
    type V = CompositePatternView;

    open spec fn view(&self) -> CompositePatternView {
        self.model()
    }
}

impl View for QualifiedPattern {
    type V = QualifiedPatternView;

    open spec fn view(&self) -> QualifiedPatternView {
        self.model()
    }
}

impl View for PatternExpr {
    type V = PatternView;

    open spec fn view(&self) -> PatternView {
        self.model()
    }
}

impl CompositePattern {
    /// The two patterns joined by the operator.
    #[must_use]
    pub fn new(left: PatternExpr, op: ObservationOp, right: PatternExpr) -> (composite: Self)
        ensures
            composite@ == (CompositePatternView {
                left: Box::new(left@),
                op,
                right: Box::new(right@),
            }),
    {
        Self { left: Box::new(left), op, right: Box::new(right) }
    }

    /// The pattern on the left of the operator.
    pub fn left(&self) -> (left: &PatternExpr)
        ensures
            left@ == *self@.left,
    {
        &*self.left
    }

    /// The operator.
    pub fn op(&self) -> (op: ObservationOp)
        ensures
            op == self@.op,
    {
        self.op
    }

    /// The pattern on the right of the operator.
    pub fn right(&self) -> (right: &PatternExpr)
        ensures
            right@ == *self@.right,
    {
        &*self.right
    }
}

impl QualifiedPattern {
    /// The pattern with its qualifiers.
    #[must_use]
    pub fn new(
        pattern: PatternExpr,
        repeat: Option<u32>,
        within: Option<String>,
        start: Option<Timestamp>,
        stop: Option<Timestamp>,
    ) -> (qualified: Self)
        ensures
            qualified@ == (QualifiedPatternView {
                pattern: Box::new(pattern@),
                repeat,
                within: within_view(within),
                start,
                stop,
            }),
    {
        Self { pattern: Box::new(pattern), repeat, within, start, stop }
    }

    /// The pattern that the qualifiers apply to.
    pub fn pattern(&self) -> (pattern: &PatternExpr)
        ensures
            pattern@ == *self@.pattern,
    {
        &*self.pattern
    }

    /// How many times the pattern is to match.
    pub fn repeat(&self) -> (repeat: Option<u32>)
        ensures
            repeat == self@.repeat,
    {
        self.repeat
    }

    /// The window, in seconds, as its literal was written.
    pub fn within(&self) -> (within: Option<&String>)
        ensures
            within matches Some(w) ==> self@.within == Some(w@),
            within is None ==> self@.within is None,
    {
        self.within.as_ref()
    }

    /// The moment from which the pattern may match.
    pub fn start(&self) -> (start: Option<Timestamp>)
        ensures
            start == self@.start,
    {
        self.start
    }

    /// The moment until which the pattern may match.
    pub fn stop(&self) -> (stop: Option<Timestamp>)
        ensures
            stop == self@.stop,
    {
        self.stop
    }
}

impl Clone for PatternExpr {
    fn clone(&self) -> (copy: Self)
        ensures
            copy@ == self@,
        decreases self,
    {
        match self {
            PatternExpr::Comparison(c) => PatternExpr::Comparison(c.clone()),
            PatternExpr::Composite(c) => PatternExpr::Composite(
                CompositePattern {
                    left: Box::new((&*c.left).clone()),
                    op: c.op,
                    right: Box::new((&*c.right).clone()),
                },
            ),
            PatternExpr::Qualified(q) => PatternExpr::Qualified(
                QualifiedPattern {
                    pattern: Box::new((&*q.pattern).clone()),
                    repeat: q.repeat,
                    within: q.within.clone(),
                    start: q.start,
                    stop: q.stop,
                },
            ),
        }
    }
}

impl Clone for CompositePattern {
    fn clone(&self) -> (copy: Self)
        ensures
            copy@ == self@,
    {
        CompositePattern {
            left: Box::new((&*self.left).clone()),
            op: self.op,
            right: Box::new((&*self.right).clone()),
        }
    }
}

impl Clone for QualifiedPattern {
    fn clone(&self) -> (copy: Self)
        ensures
            copy@ == self@,
    {
        QualifiedPattern {
            pattern: Box::new((&*self.pattern).clone()),
            repeat: self.repeat,
            within: self.within.clone(),
            start: self.start,
            stop: self.stop,
        }
    }
}

impl From<ComparisonExpr> for PatternExpr {
    fn from(c: ComparisonExpr) -> (pattern: Self) {
        PatternExpr::Comparison(c)
    }
}

impl FromSpecImpl<ComparisonExpr> for PatternExpr {
    open spec fn obeys_from_spec() -> bool {
        true
    }

    open spec fn from_spec(c: ComparisonExpr) -> Self {
        PatternExpr::Comparison(c)
    }
}

impl From<CompositePattern> for PatternExpr {
    fn from(c: CompositePattern) -> (pattern: Self) {
        PatternExpr::Composite(c)
    }
}

impl FromSpecImpl<CompositePattern> for PatternExpr {
    open spec fn obeys_from_spec() -> bool {
        true
    }

    open spec fn from_spec(c: CompositePattern) -> Self {
        PatternExpr::Composite(c)
    }
}

impl From<QualifiedPattern> for PatternExpr {
    fn from(q: QualifiedPattern) -> (pattern: Self) {
        PatternExpr::Qualified(q)
    }
}

impl FromSpecImpl<QualifiedPattern> for PatternExpr {
    open spec fn obeys_from_spec() -> bool {
        true
    }

    open spec fn from_spec(q: QualifiedPattern) -> Self {
        PatternExpr::Qualified(q)
    }
}

} // verus!
