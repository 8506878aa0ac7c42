//! The grammar of the patterning language, production by production.
//!
//! Each production is a function from the input and a position to the node
//! that the production gives and the position after it, or to the failure.
//! Blanks may stand before any token, so each production first skips them.
//! Every choice is settled by what stands at the position: no production is
//! tried twice. A production that holds groups also takes the number of
//! levels of `(` that may still be opened.
//!
//! ```text
//! pattern      := expression
//! expression   := observation ( obsOp observation )*
//! obsOp        := "AND" | "OR" | "FOLLOWEDBY"
//! observation  := "[" compExpr "]" qualifier*
//!               | "(" expression ")" qualifier*
//! compExpr     := compTerm ( boolOp compTerm )*
//! boolOp       := "AND" | "OR"
//! compTerm     := "(" compExpr ")" | "EXISTS" path | path ["NOT"] compOp rhs
//! rhs          := value | "(" value ( "," value )* ")"
//! path         := objectType ":" step ( "." step )*
//! step         := property [ "[" ( digits | "*" ) "]" ]
//! qualifier    := "REPEATS" digits "TIMES"
//!               | "WITHIN" digits [ "." digits ] "SECONDS"
//!               | "START" timestamp "STOP" timestamp
//! value        := string | timestamp | hex | binary | "true" | "false"
//!               | [ "+" | "-" ] digits [ "." digits ]
//! string       := "'" ( "\" any | any but "'" and "\" )* "'"
//! timestamp    := "t'" ( any but "'" )* "'"
//! hex          := "h'" ( any but "'" )* "'"
//! binary       := "b'" ( any but "'" )* "'"
//! objectType   := ( letter | "_" ) ( letter | digit | "_" | "-" )*
//! property     := ( letter | "_" ) ( letter | digit | "_" )*
//!               | "'" ( any but "'" )* "'"
//! ```
//!
//! A keyword is a whole word: it is not read where a letter, a digit, `_` or
//! `-` follows it. A number has a point only where a digit follows the point.
//!
//! A repetition goes on after an item only where the item took input. Every
//! item does, which [`crate::conformance`] proves, so this never ends a
//! repetition; it is there for the productions to be well defined.

use vstd::prelude::*;
use crate::ast::{BooleanOp, ComparisonOp, ObservationOp};
use crate::error::{Expected, GrammarError, ParseErrorView};
use crate::scan::{
    at, class_at, is_name_start, keyword_at, literal_at, quote_end, run_end, skip_blanks,
    string_end, CharClass, lemma_run_end, lemma_quote_end, lemma_string_end,
};
use crate::tree::{Rule, Tree};

verus! {

/// How many levels of `(` a pattern may open, one inside the other.
pub const MAX_NESTING_DEPTH: usize = 128;

/// What a production gives: a node and the position after it, or a failure.
pub type Parsed = Result<(Tree, int), ParseErrorView>;

/// What a run of productions gives: the nodes and the position after them,
/// or a failure.
pub type ParsedItems = Result<(Seq<Tree>, int), ParseErrorView>;

/// The failure to find, at position `i`, what was expected there.
pub open spec fn unexpected(i: int, expected: Expected) -> ParseErrorView {
    ParseErrorView::Grammar(GrammarError { position: i as usize, expected })
}

/// The failure to open, at position `i`, one group more.
pub open spec fn too_deep(i: int) -> ParseErrorView {
    ParseErrorView::NestingTooDeep(i as usize)
}

/// Whether an item that was looked for at `from` ended at `end`, further on
/// and inside the input, as every item does.
pub open spec fn moved(s: Seq<char>, from: int, end: int) -> bool {
    from < end <= s.len()
}

/// Blanks are skipped forwards, and never past the end of the input. A
/// position outside the input is left where it is.
pub proof fn lemma_blanks(s: Seq<char>, i: int)
    ensures
        i <= skip_blanks(s, i),
        0 <= i <= s.len() ==> skip_blanks(s, i) <= s.len(),
        !(0 <= i < s.len()) ==> skip_blanks(s, i) == i,
{
    if 0 <= i <= s.len() {
        lemma_run_end(s, i, CharClass::Blank);
    }
}

/// The token of a rule whose text stands between `from` and `to`.
pub open spec fn token(s: Seq<char>, rule: Rule, from: int, to: int) -> Tree {
    Tree::token(rule, s.subrange(from, to))
}

/// The kind of quoted constant that a letter before the quote announces.
pub open spec fn marked(c: char) -> Option<Rule> {
    if c == 't' {
        Some(Rule::Time)
    } else if c == 'h' {
        Some(Rule::Hex)
    } else if c == 'b' {
        Some(Rule::Bin)
    } else {
        None
    }
}

/// Where a number that begins at `a` ends, and whether it has a point: digits
/// after an optional sign, then, where a point and a digit follow, the point
/// and the digits after it. Nothing where no digit stands after the sign.
pub open spec fn number_end(s: Seq<char>, a: int, signed: bool) -> Option<(Rule, int)> {
    let from = if signed && (at(s, a, '+') || at(s, a, '-')) {
        a + 1
    } else {
        a
    };
    let point = run_end(s, from, CharClass::Digit);
    if point == from {
        None
    } else if at(s, point, '.') && class_at(s, point + 1, CharClass::Digit) {
        Some((Rule::Float, run_end(s, point + 1, CharClass::Digit)))
    } else {
        Some((Rule::Int, point))
    }
}

/// A quoted token whose body begins at `from`, after the opening quote.
pub open spec fn quoted(s: Seq<char>, rule: Rule, from: int) -> Parsed {
    let end = if rule == Rule::String {
        string_end(s, from)
    } else {
        quote_end(s, from)
    };
    if end < s.len() {
        Ok((token(s, rule, from, end), end + 1))
    } else {
        Err(unexpected(end, Expected::ClosingQuote))
    }
}

/// `t'...'`
pub open spec fn timestamp(s: Seq<char>, i: int) -> Parsed {
    let a = skip_blanks(s, i);
    if at(s, a, 't') && at(s, a + 1, '\'') {
        quoted(s, Rule::Time, a + 2)
    } else {
        Err(unexpected(a, Expected::Timestamp))
    }
}

/// The token of a constant: a string, a timestamp, a hexadecimal or a binary
/// constant, `true` or `false`, or a number.
pub open spec fn constant(s: Seq<char>, i: int) -> Parsed {
    let a = skip_blanks(s, i);
    if at(s, a, '\'') {
        quoted(s, Rule::String, a + 1)
    } else if 0 <= a < s.len() && marked(s[a]) is Some && at(s, a + 1, '\'') {
        quoted(s, marked(s[a])->0, a + 2)
    } else if keyword_at(s, a, "true"@) {
        Ok((token(s, Rule::Bool, a, a + "true"@.len()), a + "true"@.len()))
    } else if keyword_at(s, a, "false"@) {
        Ok((token(s, Rule::Bool, a, a + "false"@.len()), a + "false"@.len()))
    } else {
        match number_end(s, a, true) {
            Some((rule, end)) => Ok((token(s, rule, a, end), end)),
            None => Err(unexpected(a, Expected::Value)),
        }
    }
}

/// `value := string | bool | float | int | timestamp | hex | binary`
pub open spec fn value(s: Seq<char>, i: int) -> Parsed {
    match constant(s, i) {
        Ok((t, end)) => Ok((Tree::node(Rule::Value, seq![t]), end)),
        Err(e) => Err(e),
    }
}

/// A constant takes at least one character, and none from outside the
/// input.
pub proof fn lemma_value_moves(s: Seq<char>, i: int)
    requires
        0 <= i,
    ensures
        value(s, i) matches Ok((_, end)) ==> moved(s, i, end),
{
    let a = skip_blanks(s, i);
    lemma_blanks(s, i);
    reveal_strlit("true");
    reveal_strlit("false");
    if 0 <= a < s.len() {
        lemma_string_end(s, a + 1);
        if a + 2 <= s.len() {
            lemma_quote_end(s, a + 2);
        }
        let from = if at(s, a, '+') || at(s, a, '-') {
            a + 1
        } else {
            a
        };
        lemma_run_end(s, from, CharClass::Digit);
        let point = run_end(s, from, CharClass::Digit);
        if point + 1 <= s.len() {
            lemma_run_end(s, point + 1, CharClass::Digit);
        }
    }
}

/// The rest of a list after a value: `( "," value )* ")"`.
pub open spec fn list_tail(s: Seq<char>, i: int, items: Seq<Tree>) -> Parsed
    decreases s.len() - i,
    via list_tail_decreases
{
    let a = skip_blanks(s, i);
    if at(s, a, ')') {
        Ok((Tree::node(Rule::List, items), a + 1))
    } else if at(s, a, ',') {
        match value(s, a + 1) {
            Ok((v, end)) => list_tail(s, end, items.push(v)),
            Err(e) => Err(e),
        }
    } else {
        Err(unexpected(a, Expected::ListEnd))
    }
}

#[via_fn]
proof fn list_tail_decreases(s: Seq<char>, i: int, items: Seq<Tree>) {
    let a = skip_blanks(s, i);
    if at(s, a, ',') {
        lemma_blanks(s, i);
        lemma_value_moves(s, a + 1);
    }
}

/// `rhs := value | "(" value ( "," value )* ")"`
pub open spec fn rhs(s: Seq<char>, i: int) -> Parsed {
    let a = skip_blanks(s, i);
    if at(s, a, '(') {
        match value(s, a + 1) {
            Ok((v, end)) => list_tail(s, end, seq![v]),
            Err(e) => Err(e),
        }
    } else {
        value(s, a)
    }
}

/// The index of a step, if one follows the property, and the step:
/// `[ "[" ( digits | "*" ) "]" ]`.
pub open spec fn indexed(s: Seq<char>, i: int, property: Tree) -> Parsed {
    let a = skip_blanks(s, i);
    if at(s, a, '[') {
        let b = skip_blanks(s, a + 1);
        let end = if at(s, b, '*') {
            b + 1
        } else {
            run_end(s, b, CharClass::Digit)
        };
        let c = skip_blanks(s, end);
        if end == b {
            Err(unexpected(b, Expected::Index))
        } else if at(s, c, ']') {
            Ok((Tree::node(Rule::Step, seq![property].push(token(s, Rule::Index, b, end))), c + 1))
        } else {
            Err(unexpected(c, Expected::CloseIndex))
        }
    } else {
        Ok((Tree::node(Rule::Step, seq![property]), i))
    }
}

/// `step := property [ "[" ( digits | "*" ) "]" ]`, where a property is a
/// name, or any text between quotes.
pub open spec fn step(s: Seq<char>, i: int) -> Parsed {
    let a = skip_blanks(s, i);
    if at(s, a, '\'') {
        let end = quote_end(s, a + 1);
        if end < s.len() {
            indexed(s, end + 1, token(s, Rule::Property, a, end + 1))
        } else {
            Err(unexpected(end, Expected::ClosingQuote))
        }
    } else if 0 <= a < s.len() && is_name_start(s[a]) {
        let end = run_end(s, a, CharClass::Name);
        indexed(s, end, token(s, Rule::Property, a, end))
    } else {
        Err(unexpected(a, Expected::Property))
    }
}

/// A step takes at least one character, and none from outside the input.
pub proof fn lemma_step_moves(s: Seq<char>, i: int)
    requires
        0 <= i,
    ensures
        step(s, i) matches Ok((_, end)) ==> moved(s, i, end),
{
    let a = skip_blanks(s, i);
    lemma_blanks(s, i);
    if 0 <= a < s.len() {
        let after = if at(s, a, '\'') {
            lemma_quote_end(s, a + 1);
            quote_end(s, a + 1) + 1
        } else {
            lemma_run_end(s, a, CharClass::Name);
            run_end(s, a, CharClass::Name)
        };
        if after <= s.len() {
            let b = skip_blanks(s, after);
            lemma_blanks(s, after);
            if at(s, b, '[') {
                let c = skip_blanks(s, b + 1);
                lemma_blanks(s, b + 1);
                if c <= s.len() {
                    lemma_run_end(s, c, CharClass::Digit);
                    let end = if at(s, c, '*') {
                        c + 1
                    } else {
                        run_end(s, c, CharClass::Digit)
                    };
                    lemma_blanks(s, end);
                }
            }
        }
    }
}

/// The rest of a path after a step: `( "." step )*`.
pub open spec fn steps_tail(s: Seq<char>, i: int, items: Seq<Tree>) -> Parsed
    decreases s.len() - i,
    via steps_tail_decreases
{
    let a = skip_blanks(s, i);
    if at(s, a, '.') {
        match step(s, a + 1) {
            Ok((t, end)) => steps_tail(s, end, items.push(t)),
            Err(e) => Err(e),
        }
    } else {
        Ok((Tree::node(Rule::Path, items), i))
    }
}

#[via_fn]
proof fn steps_tail_decreases(s: Seq<char>, i: int, items: Seq<Tree>) {
    let a = skip_blanks(s, i);
    if at(s, a, '.') {
        lemma_blanks(s, i);
        lemma_step_moves(s, a + 1);
    }
}

/// `path := objectType ":" step ( "." step )*`. Where no object type
/// begins the path, `what` was expected there.
pub open spec fn path(s: Seq<char>, i: int, what: Expected) -> Parsed {
    let a = skip_blanks(s, i);
    let end = run_end(s, a, CharClass::Word);
    let colon = skip_blanks(s, end);
    if !(0 <= a < s.len() && is_name_start(s[a])) {
        Err(unexpected(a, what))
    } else if !at(s, colon, ':') {
        Err(unexpected(colon, Expected::Colon))
    } else {
        match step(s, colon + 1) {
            Ok((t, after)) => steps_tail(s, after, seq![token(s, Rule::Object, a, end)].push(t)),
            Err(e) => Err(e),
        }
    }
}

/// The rule of a comparison operator.
pub open spec fn operator_rule(op: ComparisonOp) -> Rule {
    match op {
        ComparisonOp::Eq => Rule::Equal,
        ComparisonOp::Neq => Rule::NotEqual,
        ComparisonOp::Gt => Rule::Gt,
        ComparisonOp::Lt => Rule::Lt,
        ComparisonOp::Ge => Rule::Ge,
        ComparisonOp::Le => Rule::Le,
        ComparisonOp::In => Rule::In,
        ComparisonOp::Like => Rule::Like,
        ComparisonOp::Matches => Rule::Match,
        ComparisonOp::IsSubset => Rule::IsSubset,
        ComparisonOp::IsSuperset => Rule::IsSuperset,
    }
}

/// Whether the operator stands at position `a`: a sign as it is, a word as
/// a keyword.
pub open spec fn operator_at(s: Seq<char>, a: int, op: ComparisonOp) -> bool {
    match op {
        ComparisonOp::In | ComparisonOp::Like | ComparisonOp::Matches | ComparisonOp::IsSubset
        | ComparisonOp::IsSuperset => keyword_at(s, a, op.spelling()),
        _ => literal_at(s, a, op.spelling()),
    }
}

/// The comparison operator at position `a`. The signs of two characters are
/// looked for before those of one.
pub open spec fn operator(s: Seq<char>, a: int) -> Option<ComparisonOp> {
    if operator_at(s, a, ComparisonOp::Neq) {
        Some(ComparisonOp::Neq)
    } else if operator_at(s, a, ComparisonOp::Ge) {
        Some(ComparisonOp::Ge)
    } else if operator_at(s, a, ComparisonOp::Le) {
        Some(ComparisonOp::Le)
    } else if operator_at(s, a, ComparisonOp::Eq) {
        Some(ComparisonOp::Eq)
    } else if operator_at(s, a, ComparisonOp::Gt) {
        Some(ComparisonOp::Gt)
    } else if operator_at(s, a, ComparisonOp::Lt) {
        Some(ComparisonOp::Lt)
    } else if operator_at(s, a, ComparisonOp::In) {
        Some(ComparisonOp::In)
    } else if operator_at(s, a, ComparisonOp::Like) {
        Some(ComparisonOp::Like)
    } else if operator_at(s, a, ComparisonOp::Matches) {
        Some(ComparisonOp::Matches)
    } else if operator_at(s, a, ComparisonOp::IsSubset) {
        Some(ComparisonOp::IsSubset)
    } else if operator_at(s, a, ComparisonOp::IsSuperset) {
        Some(ComparisonOp::IsSuperset)
    } else {
        None
    }
}

/// What follows the path of a comparison: `["NOT"] compOp rhs`.
pub open spec fn compared(s: Seq<char>, i: int, path: Tree) -> Parsed {
    let a = skip_blanks(s, i);
    let negated = keyword_at(s, a, "NOT"@);
    let b = if negated {
        skip_blanks(s, a + "NOT"@.len())
    } else {
        a
    };
    let before = if negated {
        seq![path].push(token(s, Rule::Not, a, a + "NOT"@.len()))
    } else {
        seq![path]
    };
    match operator(s, b) {
        Some(op) => {
            let end = b + op.spelling().len();
            match rhs(s, end) {
                Ok((r, after)) => Ok(
                    (
                        Tree::node(
                            Rule::Comparison,
                            before.push(token(s, operator_rule(op), b, end)).push(r),
                        ),
                        after,
                    ),
                ),
                Err(e) => Err(e),
            }
        },
        None => Err(unexpected(b, Expected::Operator)),
    }
}

/// `path ["NOT"] compOp rhs`
pub open spec fn comparison(s: Seq<char>, i: int) -> Parsed {
    match path(s, i, Expected::Comparison) {
        Ok((p, end)) => compared(s, end, p),
        Err(e) => Err(e),
    }
}

/// `"EXISTS" path`, from the position after the keyword, which began at `a`.
pub open spec fn existence(s: Seq<char>, a: int) -> Parsed {
    let end = a + "EXISTS"@.len();
    match path(s, end, Expected::Path) {
        Ok((p, after)) => Ok(
            (Tree::node(Rule::Comparison, seq![token(s, Rule::Exists, a, end)].push(p)), after),
        ),
        Err(e) => Err(e),
    }
}

/// The operator between two comparisons, if one stands at position `a`.
pub open spec fn boolean_op(s: Seq<char>, a: int) -> Option<BooleanOp> {
    if keyword_at(s, a, BooleanOp::And.spelling()) {
        Some(BooleanOp::And)
    } else if keyword_at(s, a, BooleanOp::Or.spelling()) {
        Some(BooleanOp::Or)
    } else {
        None
    }
}

/// The rule of an operator between two comparisons.
pub open spec fn boolean_rule(op: BooleanOp) -> Rule {
    match op {
        BooleanOp::And => Rule::And,
        BooleanOp::Or => Rule::Or,
    }
}

/// `compTerm := "(" compExpr ")" | "EXISTS" path | path ["NOT"] compOp rhs`
pub open spec fn comp_term(s: Seq<char>, i: int, depth: nat) -> Parsed
    decreases depth, s.len() - i, 0int,
{
    let a = skip_blanks(s, i);
    if at(s, a, '(') {
        if depth == 0 {
            Err(too_deep(a))
        } else {
            match comp_expr(s, a + 1, (depth - 1) as nat) {
                Ok((items, end)) => {
                    let b = skip_blanks(s, end);
                    if at(s, b, ')') {
                        Ok((Tree::node(Rule::Comparison, items), b + 1))
                    } else {
                        Err(unexpected(b, Expected::CloseParen))
                    }
                },
                Err(e) => Err(e),
            }
        }
    } else if keyword_at(s, a, "EXISTS"@) {
        existence(s, a)
    } else {
        comparison(s, a)
    }
}

/// The rest of a comparison expression after a term: `( boolOp compTerm )*`.
pub open spec fn comp_tail(s: Seq<char>, i: int, items: Seq<Tree>, depth: nat) -> ParsedItems
    decreases depth, s.len() - i, 1int,
    via comp_tail_decreases
{
    let a = skip_blanks(s, i);
    match boolean_op(s, a) {
        Some(op) => {
            let end = a + op.spelling().len();
            match comp_term(s, end, depth) {
                Ok((t, after)) => if moved(s, end, after) {
                    comp_tail(
                        s,
                        after,
                        items.push(token(s, boolean_rule(op), a, end)).push(t),
                        depth,
                    )
                } else {
                    Err(unexpected(after, Expected::CloseBracket))
                },
                Err(e) => Err(e),
            }
        },
        None => Ok((items, i)),
    }
}

#[via_fn]
proof fn comp_tail_decreases(s: Seq<char>, i: int, items: Seq<Tree>, depth: nat) {
    lemma_blanks(s, i);
}

/// `compExpr := compTerm ( boolOp compTerm )*`: the terms and the operators
/// between them, in the order in which they stand.
pub open spec fn comp_expr(s: Seq<char>, i: int, depth: nat) -> ParsedItems
    decreases depth, s.len() - i, 2int,
{
    match comp_term(s, i, depth) {
        Ok((t, end)) => if moved(s, i, end) {
            comp_tail(s, end, seq![t], depth)
        } else {
            Err(unexpected(end, Expected::CloseBracket))
        },
        Err(e) => Err(e),
    }
}

/// `"REPEATS" digits "TIMES"`, from the position after the first keyword.
pub open spec fn repeats(s: Seq<char>, i: int) -> Parsed {
    let b = skip_blanks(s, i);
    let end = run_end(s, b, CharClass::Digit);
    let c = skip_blanks(s, end);
    if end == b {
        Err(unexpected(b, Expected::Count))
    } else if keyword_at(s, c, "TIMES"@) {
        Ok(
            (
                Tree::node(
                    Rule::Qualifier,
                    seq![Tree::node(Rule::Repeat, seq![token(s, Rule::PosInt, b, end)])],
                ),
                c + "TIMES"@.len(),
            ),
        )
    } else {
        Err(unexpected(c, Expected::Times))
    }
}

/// `"WITHIN" digits [ "." digits ] "SECONDS"`, from the position after the
/// first keyword.
pub open spec fn within(s: Seq<char>, i: int) -> Parsed {
    let b = skip_blanks(s, i);
    match number_end(s, b, false) {
        Some((rule, end)) => {
            let c = skip_blanks(s, end);
            let number = if rule == Rule::Float {
                Rule::PosFloat
            } else {
                Rule::PosInt
            };
            if keyword_at(s, c, "SECONDS"@) {
                Ok(
                    (
                        Tree::node(
                            Rule::Qualifier,
                            seq![Tree::node(Rule::Within, seq![token(s, number, b, end)])],
                        ),
                        c + "SECONDS"@.len(),
                    ),
                )
            } else {
                Err(unexpected(c, Expected::Seconds))
            }
        },
        None => Err(unexpected(b, Expected::Number)),
    }
}

/// `"START" timestamp "STOP" timestamp`, from the position after the first
/// keyword.
pub open spec fn interval(s: Seq<char>, i: int) -> Parsed {
    match timestamp(s, i) {
        Ok((start, end)) => {
            let c = skip_blanks(s, end);
            if keyword_at(s, c, "STOP"@) {
                match timestamp(s, c + "STOP"@.len()) {
                    Ok((stop, after)) => Ok(
                        (
                            Tree::node(
                                Rule::Qualifier,
                                seq![Tree::node(Rule::Interval, seq![start].push(stop))],
                            ),
                            after,
                        ),
                    ),
                    Err(e) => Err(e),
                }
            } else {
                Err(unexpected(c, Expected::Stop))
            }
        },
        Err(e) => Err(e),
    }
}

/// The qualifier that begins at position `a`, if the keyword of one stands
/// there.
pub open spec fn qualifier(s: Seq<char>, a: int) -> Option<Parsed> {
    if keyword_at(s, a, "REPEATS"@) {
        Some(repeats(s, a + "REPEATS"@.len()))
    } else if keyword_at(s, a, "WITHIN"@) {
        Some(within(s, a + "WITHIN"@.len()))
    } else if keyword_at(s, a, "START"@) {
        Some(interval(s, a + "START"@.len()))
    } else {
        None
    }
}

/// A qualifier takes at least one character, and none from outside the
/// input.
pub proof fn lemma_qualifier_moves(s: Seq<char>, a: int)
    ensures
        qualifier(s, a) matches Some(Ok((_, end))) ==> moved(s, a, end),
{
    reveal_strlit("REPEATS");
    reveal_strlit("TIMES");
    reveal_strlit("WITHIN");
    reveal_strlit("SECONDS");
    reveal_strlit("START");
    reveal_strlit("STOP");
    if keyword_at(s, a, "REPEATS"@) {
        let b = skip_blanks(s, a + 7);
        lemma_blanks(s, a + 7);
        lemma_run_end(s, b, CharClass::Digit);
        lemma_blanks(s, run_end(s, b, CharClass::Digit));
    } else if keyword_at(s, a, "WITHIN"@) {
        let b = skip_blanks(s, a + 6);
        lemma_blanks(s, a + 6);
        lemma_run_end(s, b, CharClass::Digit);
        let point = run_end(s, b, CharClass::Digit);
        if point + 1 <= s.len() {
            lemma_run_end(s, point + 1, CharClass::Digit);
        }
        match number_end(s, b, false) {
            Some((_, end)) => {
                lemma_blanks(s, end);
            },
            None => {},
        }
    } else if keyword_at(s, a, "START"@) {
        lemma_timestamp_moves(s, a + 5);
        match timestamp(s, a + 5) {
            Ok((_, end)) => {
                let c = skip_blanks(s, end);
                lemma_blanks(s, end);
                lemma_timestamp_moves(s, c + 4);
            },
            Err(_) => {},
        }
    }
}

/// A timestamp takes at least one character, and none from outside the
/// input.
pub proof fn lemma_timestamp_moves(s: Seq<char>, i: int)
    requires
        0 <= i,
    ensures
        timestamp(s, i) matches Ok((_, end)) ==> moved(s, i, end),
{
    let a = skip_blanks(s, i);
    lemma_blanks(s, i);
    if a + 2 <= s.len() {
        lemma_quote_end(s, a + 2);
    }
}

/// What follows an observation or a group: `qualifier*`. The qualifiers are
/// the last children of the node.
pub open spec fn qualified(s: Seq<char>, i: int, rule: Rule, items: Seq<Tree>) -> Parsed
    decreases s.len() - i,
    via qualified_decreases
{
    let a = skip_blanks(s, i);
    match qualifier(s, a) {
        Some(Ok((q, end))) => qualified(s, end, rule, items.push(q)),
        Some(Err(e)) => Err(e),
        None => Ok((Tree::node(rule, items), i)),
    }
}

#[via_fn]
proof fn qualified_decreases(s: Seq<char>, i: int, rule: Rule, items: Seq<Tree>) {
    lemma_blanks(s, i);
    lemma_qualifier_moves(s, skip_blanks(s, i));
}

/// The operator between two observations, if one stands at position `a`.
pub open spec fn observation_op(s: Seq<char>, a: int) -> Option<ObservationOp> {
    if keyword_at(s, a, ObservationOp::And.spelling()) {
        Some(ObservationOp::And)
    } else if keyword_at(s, a, ObservationOp::Or.spelling()) {
        Some(ObservationOp::Or)
    } else if keyword_at(s, a, ObservationOp::FollowedBy.spelling()) {
        Some(ObservationOp::FollowedBy)
    } else {
        None
    }
}

/// The rule of an operator between two observations.
pub open spec fn observation_rule(op: ObservationOp) -> Rule {
    match op {
        ObservationOp::And => Rule::And,
        ObservationOp::Or => Rule::Or,
        ObservationOp::FollowedBy => Rule::FollowedBy,
    }
}

/// `observation := "[" compExpr "]" qualifier* | "(" expression ")" qualifier*`
pub open spec fn observation(s: Seq<char>, i: int, depth: nat) -> Parsed
    decreases depth, s.len() - i, 0int,
{
    let a = skip_blanks(s, i);
    if at(s, a, '[') {
        match comp_expr(s, a + 1, depth) {
            Ok((items, end)) => {
                let b = skip_blanks(s, end);
                if at(s, b, ']') {
                    qualified(s, b + 1, Rule::Observation, items)
                } else {
                    Err(unexpected(b, Expected::CloseBracket))
                }
            },
            Err(e) => Err(e),
        }
    } else if at(s, a, '(') {
        if depth == 0 {
            Err(too_deep(a))
        } else {
            match expression(s, a + 1, (depth - 1) as nat) {
                Ok((e, end)) => {
                    let b = skip_blanks(s, end);
                    if at(s, b, ')') {
                        qualified(s, b + 1, Rule::ObservationGroup, seq![e])
                    } else {
                        Err(unexpected(b, Expected::CloseParen))
                    }
                },
                Err(e) => Err(e),
            }
        }
    } else {
        Err(unexpected(a, Expected::Observation))
    }
}

/// The rest of an expression after an observation: `( obsOp observation )*`.
pub open spec fn expression_tail(s: Seq<char>, i: int, items: Seq<Tree>, depth: nat) -> Parsed
    decreases depth, s.len() - i, 1int,
    via expression_tail_decreases
{
    let a = skip_blanks(s, i);
    match observation_op(s, a) {
        Some(op) => {
            let end = a + op.spelling().len();
            match observation(s, end, depth) {
                Ok((o, after)) => if moved(s, end, after) {
                    expression_tail(
                        s,
                        after,
                        items.push(token(s, observation_rule(op), a, end)).push(o),
                        depth,
                    )
                } else {
                    Err(unexpected(after, Expected::EndOfInput))
                },
                Err(e) => Err(e),
            }
        },
        None => Ok((Tree::node(Rule::Expression, items), i)),
    }
}

#[via_fn]
proof fn expression_tail_decreases(s: Seq<char>, i: int, items: Seq<Tree>, depth: nat) {
    lemma_blanks(s, i);
}

/// `expression := observation ( obsOp observation )*`
pub open spec fn expression(s: Seq<char>, i: int, depth: nat) -> Parsed
    decreases depth, s.len() - i, 2int,
{
    match observation(s, i, depth) {
        Ok((o, end)) => if moved(s, i, end) {
            expression_tail(s, end, seq![o], depth)
        } else {
            Err(unexpected(end, Expected::EndOfInput))
        },
        Err(e) => Err(e),
    }
}

/// `pattern := expression`, and after it nothing but blanks.
pub open spec fn pattern(s: Seq<char>) -> Result<Tree, ParseErrorView> {
    match expression(s, 0, MAX_NESTING_DEPTH as nat) {
        Ok((e, end)) => {
            let a = skip_blanks(s, end);
            if a == s.len() {
                Ok(Tree::node(Rule::Pattern, seq![e]))
            } else {
                Err(unexpected(a, Expected::EndOfInput))
            }
        },
        Err(e) => Err(e),
    }
}

} // verus!
