//! The recognizer: reads a pattern against the grammar and gives its
//! concrete tree, one function for each production.

use vstd::prelude::*;
use crate::ast::{BooleanOp, ComparisonOp, ObservationOp};
use crate::error::{Expected, GrammarError, ParseError, ParseErrorView};
use crate::conformance::law_recognized_shape;
use crate::grammar;
use crate::grammar::{Parsed, ParsedItems, MAX_NESTING_DEPTH};
use crate::scan::{
    lemma_run_end, has_char, has_class, scan_blanks, scan_keyword, scan_literal, scan_quoted, scan_run,
    scan_string, CharClass,
};
use crate::shape::pattern_shaped;
use crate::text::{chars_of, string_of};
use crate::tree::{lemma_trees_empty, lemma_trees_push, trees, Pair, Rule, Tree};

verus! {

/// Whether what a recognizer returned is what the production gives.
pub open spec fn agrees(r: Result<(Pair, usize), ParseError>, p: Parsed) -> bool {
    match r {
        Ok((pair, end)) => p == Ok::<(Tree, int), ParseErrorView>((pair@, end as int)),
        Err(e) => p == Err::<(Tree, int), ParseErrorView>(e@),
    }
}

/// Whether what a recognizer of a run returned is what the productions give.
pub open spec fn items_agree(r: Result<(Vec<Pair>, usize), ParseError>, p: ParsedItems) -> bool {
    match r {
        Ok((items, end)) => p == Ok::<(Seq<Tree>, int), ParseErrorView>(
            (trees(items@), end as int),
        ),
        Err(e) => p == Err::<(Seq<Tree>, int), ParseErrorView>(e@),
    }
}

/// Whether a recognizer that succeeded ended further on and inside the input.
pub open spec fn ends_within<T>(r: Result<(T, usize), ParseError>, from: usize, len: usize) -> bool {
    r matches Ok((_, end)) ==> from < end <= len
}

/// The failure to find, at position `i`, what was expected there.
fn reject(i: usize, expected: Expected) -> (e: ParseError)
    ensures
        e@ == grammar::unexpected(i as int, expected),
{
    ParseError::Grammar(GrammarError { position: i, expected })
}

/// The token of a rule whose text stands between `from` and `to`.
fn leaf(src: &Vec<char>, rule: Rule, from: usize, to: usize) -> (pair: Pair)
    requires
        from <= to <= src.len(),
    ensures
        pair@ == grammar::token(src@, rule, from as int, to as int),
{
    Pair::token(rule, string_of(src, from, to))
}

/// No nodes yet.
fn no_items() -> (items: Vec<Pair>)
    ensures
        trees(items@) == Seq::<Tree>::empty(),
{
    proof {
        lemma_trees_empty();
    }
    Vec::new()
}

/// One node more at the end.
fn add_item(items: &mut Vec<Pair>, pair: Pair)
    ensures
        trees(final(items)@) == trees(old(items)@).push(pair@),
{
    proof {
        lemma_trees_push(items@, pair);
    }
    items.push(pair);
}

/// The kind of quoted constant that a letter before the quote announces.
fn mark(c: char) -> (rule: Option<Rule>)
    ensures
        rule == grammar::marked(c),
{
    if c == 't' {
        Some(Rule::Time)
    } else if c == 'h' {
        Some(Rule::Hex)
    } else if c == 'b' {
        Some(Rule::Bin)
    } else {
        None
    }
}

/// The end and the kind of the number that begins at `a`, as
/// [`grammar::number_end`] has it.
fn number(src: &Vec<char>, a: usize, signed: bool) -> (r: Option<(Rule, usize)>)
    requires
        a <= src.len(),
    ensures
        match r {
            Some((rule, end)) => grammar::number_end(src@, a as int, signed) == Some(
                (rule, end as int),
            ) && a < end <= src.len(),
            None => grammar::number_end(src@, a as int, signed) is None,
        },
{
    let from = if signed && (has_char(src, a, '+') || has_char(src, a, '-')) {
        a + 1
    } else {
        a
    };
    let point = scan_run(src, from, CharClass::Digit);
    if point == from {
        None
    } else if has_char(src, point, '.') && has_class(src, point + 1, CharClass::Digit) {
        Some((Rule::Float, scan_run(src, point + 1, CharClass::Digit)))
    } else {
        Some((Rule::Int, point))
    }
}

/// Reads what [`grammar::quoted`] describes.
fn quoted(src: &Vec<char>, rule: Rule, from: usize) -> (r: Result<(Pair, usize), ParseError>)
    requires
        from <= src.len(),
    ensures
        agrees(r, grammar::quoted(src@, rule, from as int)),
        ends_within(r, from, src.len()),
{
    let end = match rule {
        Rule::String => scan_string(src, from),
        _ => scan_quoted(src, from),
    };
    if end < src.len() {
        Ok((leaf(src, rule, from, end), end + 1))
    } else {
        Err(reject(end, Expected::ClosingQuote))
    }
}

/// Reads what [`grammar::timestamp`] describes.
fn timestamp(src: &Vec<char>, i: usize) -> (r: Result<(Pair, usize), ParseError>)
    requires
        i <= src.len(),
    ensures
        agrees(r, grammar::timestamp(src@, i as int)),
        ends_within(r, i, src.len()),
{
    let a = scan_blanks(src, i);
    if has_char(src, a, 't') && has_char(src, a + 1, '\'') {
        quoted(src, Rule::Time, a + 2)
    } else {
        Err(reject(a, Expected::Timestamp))
    }
}

/// Reads what [`grammar::constant`] describes.
fn constant(src: &Vec<char>, i: usize) -> (r: Result<(Pair, usize), ParseError>)
    requires
        i <= src.len(),
    ensures
        agrees(r, grammar::constant(src@, i as int)),
        ends_within(r, i, src.len()),
{
    let a = scan_blanks(src, i);
    if has_char(src, a, '\'') {
        return quoted(src, Rule::String, a + 1);
    }
    if a < src.len() && has_char(src, a + 1, '\'') {
        match mark(src[a]) {
            Some(rule) => {
                return quoted(src, rule, a + 2);
            },
            None => {},
        }
    }
    proof {
        reveal_strlit("true");
        reveal_strlit("false");
    }
    match scan_keyword(src, a, "true") {
        Some(end) => {
            return Ok((leaf(src, Rule::Bool, a, end), end));
        },
        None => {},
    }
    match scan_keyword(src, a, "false") {
        Some(end) => {
            return Ok((leaf(src, Rule::Bool, a, end), end));
        },
        None => {},
    }
    match number(src, a, true) {
        Some((rule, end)) => Ok((leaf(src, rule, a, end), end)),
        None => Err(reject(a, Expected::Value)),
    }
}

/// Reads what [`grammar::value`] describes.
fn value(src: &Vec<char>, i: usize) -> (r: Result<(Pair, usize), ParseError>)
    requires
        i <= src.len(),
    ensures
        agrees(r, grammar::value(src@, i as int)),
        ends_within(r, i, src.len()),
{
    match constant(src, i) {
        Ok((t, end)) => {
            let mut items = no_items();
            add_item(&mut items, t);
            Ok((Pair::node(Rule::Value, items), end))
        },
        Err(e) => Err(e),
    }
}

/// Reads the rest of a list after its first value.
fn list_tail(src: &Vec<char>, i: usize, first: Pair) -> (r: Result<(Pair, usize), ParseError>)
    requires
        i <= src.len(),
    ensures
        agrees(r, grammar::list_tail(src@, i as int, seq![first@])),
        ends_within(r, i, src.len()),
{
    let mut items = no_items();
    add_item(&mut items, first);
    let mut end = i;
    loop
        invariant
            i <= end <= src.len(),
            grammar::list_tail(src@, i as int, seq![first@]) == grammar::list_tail(
                src@,
                end as int,
                trees(items@),
            ),
        decreases src.len() - end,
    {
        let a = scan_blanks(src, end);
        if has_char(src, a, ')') {
            return Ok((Pair::node(Rule::List, items), a + 1));
        }
        if !has_char(src, a, ',') {
            return Err(reject(a, Expected::ListEnd));
        }
        match value(src, a + 1) {
            Ok((v, after)) => {
                add_item(&mut items, v);
                end = after;
            },
            Err(e) => {
                return Err(e);
            },
        }
    }
}

/// Reads what [`grammar::rhs`] describes.
fn rhs(src: &Vec<char>, i: usize) -> (r: Result<(Pair, usize), ParseError>)
    requires
        i <= src.len(),
    ensures
        agrees(r, grammar::rhs(src@, i as int)),
        ends_within(r, i, src.len()),
{
    let a = scan_blanks(src, i);
    if has_char(src, a, '(') {
        match value(src, a + 1) {
            Ok((v, end)) => list_tail(src, end, v),
            Err(e) => Err(e),
        }
    } else {
        value(src, a)
    }
}

/// Reads what [`grammar::indexed`] describes.
fn indexed(src: &Vec<char>, i: usize, property: Pair) -> (r: Result<(Pair, usize), ParseError>)
    requires
        i <= src.len(),
    ensures
        agrees(r, grammar::indexed(src@, i as int, property@)),
        r matches Ok((_, end)) ==> i <= end <= src.len(),
{
    let a = scan_blanks(src, i);
    let mut items = no_items();
    add_item(&mut items, property);
    if has_char(src, a, '[') {
        let b = scan_blanks(src, a + 1);
        let end = if has_char(src, b, '*') {
            b + 1
        } else {
            scan_run(src, b, CharClass::Digit)
        };
        let c = scan_blanks(src, end);
        if end == b {
            Err(reject(b, Expected::Index))
        } else if has_char(src, c, ']') {
            add_item(&mut items, leaf(src, Rule::Index, b, end));
            Ok((Pair::node(Rule::Step, items), c + 1))
        } else {
            Err(reject(c, Expected::CloseIndex))
        }
    } else {
        Ok((Pair::node(Rule::Step, items), i))
    }
}

/// Reads what [`grammar::step`] describes.
fn step(src: &Vec<char>, i: usize) -> (r: Result<(Pair, usize), ParseError>)
    requires
        i <= src.len(),
    ensures
        agrees(r, grammar::step(src@, i as int)),
        ends_within(r, i, src.len()),
{
    let a = scan_blanks(src, i);
    if has_char(src, a, '\'') {
        let end = scan_quoted(src, a + 1);
        if end < src.len() {
            indexed(src, end + 1, leaf(src, Rule::Property, a, end + 1))
        } else {
            Err(reject(end, Expected::ClosingQuote))
        }
    } else if a < src.len() && is_name_start(src[a]) {
        let end = scan_run(src, a, CharClass::Name);
        proof {
            lemma_run_end(src@, a + 1, CharClass::Name);
        }
        indexed(src, end, leaf(src, Rule::Property, a, end))
    } else {
        Err(reject(a, Expected::Property))
    }
}

/// Whether a name or an object type may begin with the character.
fn is_name_start(c: char) -> (b: bool)
    ensures
        b == crate::scan::is_name_start(c),
{
    ('a' <= c && c <= 'z') || ('A' <= c && c <= 'Z') || c == '_'
}

/// Reads what [`grammar::path`] describes.
fn path(src: &Vec<char>, i: usize, what: Expected) -> (r: Result<(Pair, usize), ParseError>)
    requires
        i <= src.len(),
    ensures
        agrees(r, grammar::path(src@, i as int, what)),
        ends_within(r, i, src.len()),
{
    let a = scan_blanks(src, i);
    let end = scan_run(src, a, CharClass::Word);
    let colon = scan_blanks(src, end);
    if !(a < src.len() && is_name_start(src[a])) {
        return Err(reject(a, what));
    }
    if !has_char(src, colon, ':') {
        return Err(reject(colon, Expected::Colon));
    }
    let (first, mut after) = match step(src, colon + 1) {
        Ok(found) => found,
        Err(e) => {
            return Err(e);
        },
    };
    let mut items = no_items();
    add_item(&mut items, leaf(src, Rule::Object, a, end));
    add_item(&mut items, first);
    loop
        invariant
            i < after <= src.len(),
            grammar::steps_tail(src@, after as int, trees(items@)) == grammar::path(
                src@,
                i as int,
                what,
            ),
        decreases src.len() - after,
    {
        let b = scan_blanks(src, after);
        if !has_char(src, b, '.') {
            return Ok((Pair::node(Rule::Path, items), after));
        }
        match step(src, b + 1) {
            Ok((t, next)) => {
                add_item(&mut items, t);
                after = next;
            },
            Err(e) => {
                return Err(e);
            },
        }
    }
}

/// The rule of a comparison operator.
fn operator_rule(op: ComparisonOp) -> (rule: Rule)
    ensures
        rule == grammar::operator_rule(op),
{
    match op {
        ComparisonOp::Eq => Rule::Equal,
        ComparisonOp::Neq => Rule::NotEqual,
        ComparisonOp::Gt => Rule::Gt,
        ComparisonOp::Lt => Rule::Lt,
        ComparisonOp::Ge => Rule::Ge,
        ComparisonOp::Le => Rule::Le,
        ComparisonOp::In => Rule::In,
        ComparisonOp::Like => Rule::Like,
        ComparisonOp::Matches => Rule::Match,
        ComparisonOp::IsSubset => Rule::IsSubset,
        ComparisonOp::IsSuperset => Rule::IsSuperset,
    }
}

/// Where the operator ends, if it stands at position `a`.
fn operator_at(src: &Vec<char>, a: usize, op: ComparisonOp) -> (end: Option<usize>)
    requires
        a <= src.len(),
    ensures
        end is Some == grammar::operator_at(src@, a as int, op),
        end matches Some(j) ==> j == a + op.spelling().len() && j <= src.len(),
{
    match op {
        ComparisonOp::In | ComparisonOp::Like | ComparisonOp::Matches | ComparisonOp::IsSubset
        | ComparisonOp::IsSuperset => scan_keyword(src, a, op.value()),
        _ => scan_literal(src, a, op.value()),
    }
}

/// The comparison operator at position `a` and where it ends. The operators
/// are tried in the order of [`grammar::operator`].
fn operator(src: &Vec<char>, a: usize) -> (r: Option<(ComparisonOp, usize)>)
    requires
        a <= src.len(),
    ensures
        match r {
            Some((op, end)) => grammar::operator(src@, a as int) == Some(op) && end == a
                + op.spelling().len() && end <= src.len(),
            None => grammar::operator(src@, a as int) is None,
        },
{
    let order = [
        ComparisonOp::Neq,
        ComparisonOp::Ge,
        ComparisonOp::Le,
        ComparisonOp::Eq,
        ComparisonOp::Gt,
        ComparisonOp::Lt,
        ComparisonOp::In,
        ComparisonOp::Like,
        ComparisonOp::Matches,
        ComparisonOp::IsSubset,
        ComparisonOp::IsSuperset,
    ];
    let mut k: usize = 0;
    while k < 11
        invariant
            k <= 11,
            a <= src.len(),
            order@ == seq![
                ComparisonOp::Neq,
                ComparisonOp::Ge,
                ComparisonOp::Le,
                ComparisonOp::Eq,
                ComparisonOp::Gt,
                ComparisonOp::Lt,
                ComparisonOp::In,
                ComparisonOp::Like,
                ComparisonOp::Matches,
                ComparisonOp::IsSubset,
                ComparisonOp::IsSuperset,
            ],
            forall|j: int| 0 <= j < k ==> !grammar::operator_at(src@, a as int, #[trigger] order@[j]),
        decreases 11 - k,
    {
        match operator_at(src, a, order[k]) {
            Some(end) => {
                return Some((order[k], end));
            },
            None => {},
        }
        k += 1;
    }
    None
}

/// Reads what [`grammar::compared`] describes.
fn compared(src: &Vec<char>, i: usize, path: Pair) -> (r: Result<(Pair, usize), ParseError>)
    requires
        i <= src.len(),
    ensures
        agrees(r, grammar::compared(src@, i as int, path@)),
        ends_within(r, i, src.len()),
{
    let a = scan_blanks(src, i);
    let mut items = no_items();
    add_item(&mut items, path);
    let b = match scan_keyword(src, a, "NOT") {
        Some(end) => {
            add_item(&mut items, leaf(src, Rule::Not, a, end));
            scan_blanks(src, end)
        },
        None => a,
    };
    match operator(src, b) {
        Some((op, end)) => {
            add_item(&mut items, leaf(src, operator_rule(op), b, end));
            match rhs(src, end) {
                Ok((r, after)) => {
                    add_item(&mut items, r);
                    Ok((Pair::node(Rule::Comparison, items), after))
                },
                Err(e) => Err(e),
            }
        },
        None => Err(reject(b, Expected::Operator)),
    }
}

/// Reads what [`grammar::comparison`] describes.
fn comparison(src: &Vec<char>, i: usize) -> (r: Result<(Pair, usize), ParseError>)
    requires
        i <= src.len(),
    ensures
        agrees(r, grammar::comparison(src@, i as int)),
        ends_within(r, i, src.len()),
{
    match path(src, i, Expected::Comparison) {
        Ok((p, end)) => compared(src, end, p),
        Err(e) => Err(e),
    }
}

/// Reads `"EXISTS" path` after the keyword, which stands from `a` to `end`.
fn existence(src: &Vec<char>, a: usize, end: usize) -> (r: Result<(Pair, usize), ParseError>)
    requires
        a <= end <= src.len(),
        end == a + "EXISTS"@.len(),
    ensures
        agrees(r, grammar::existence(src@, a as int)),
        ends_within(r, end, src.len()),
{
    match path(src, end, Expected::Path) {
        Ok((p, after)) => {
            let mut items = no_items();
            add_item(&mut items, leaf(src, Rule::Exists, a, end));
            add_item(&mut items, p);
            Ok((Pair::node(Rule::Comparison, items), after))
        },
        Err(e) => Err(e),
    }
}

/// The operator between two comparisons at position `a`, and where it ends.
fn boolean_op(src: &Vec<char>, a: usize) -> (r: Option<(BooleanOp, usize)>)
    requires
        a <= src.len(),
    ensures
        match r {
            Some((op, end)) => grammar::boolean_op(src@, a as int) == Some(op) && end == a
                + op.spelling().len() && end <= src.len(),
            None => grammar::boolean_op(src@, a as int) is None,
        },
{
    match scan_keyword(src, a, BooleanOp::And.value()) {
        Some(end) => {
            return Some((BooleanOp::And, end));
        },
        None => {},
    }
    match scan_keyword(src, a, BooleanOp::Or.value()) {
        Some(end) => Some((BooleanOp::Or, end)),
        None => None,
    }
}

/// The rule of an operator between two comparisons.
fn boolean_rule(op: BooleanOp) -> (rule: Rule)
    ensures
        rule == grammar::boolean_rule(op),
{
    match op {
        BooleanOp::And => Rule::And,
        BooleanOp::Or => Rule::Or,
    }
}

/// Reads what [`grammar::comp_term`] describes.
fn comp_term(src: &Vec<char>, i: usize, depth: usize) -> (r: Result<(Pair, usize), ParseError>)
    requires
        i <= src.len(),
    ensures
        agrees(r, grammar::comp_term(src@, i as int, depth as nat)),
        ends_within(r, i, src.len()),
    decreases depth, src.len() - i, 0int,
{
    let a = scan_blanks(src, i);
    if has_char(src, a, '(') {
        if depth == 0 {
            return Err(ParseError::NestingTooDeep(a));
        }
        match comp_expr(src, a + 1, depth - 1) {
            Ok((items, end)) => {
                let b = scan_blanks(src, end);
                if has_char(src, b, ')') {
                    Ok((Pair::node(Rule::Comparison, items), b + 1))
                } else {
                    Err(reject(b, Expected::CloseParen))
                }
            },
            Err(e) => Err(e),
        }
    } else {
        match scan_keyword(src, a, "EXISTS") {
            Some(end) => existence(src, a, end),
            None => comparison(src, a),
        }
    }
}

/// Reads a comparison expression: a term, then operators and terms in turn.
fn comp_expr(src: &Vec<char>, i: usize, depth: usize) -> (r: Result<
    (Vec<Pair>, usize),
    ParseError,
>)
    requires
        i <= src.len(),
    ensures
        items_agree(r, grammar::comp_expr(src@, i as int, depth as nat)),
        ends_within(r, i, src.len()),
    decreases depth, src.len() - i, 2int,
{
    let (first, mut end) = match comp_term(src, i, depth) {
        Ok(found) => found,
        Err(e) => {
            return Err(e);
        },
    };
    let mut items = no_items();
    add_item(&mut items, first);
    loop
        invariant
            i < end <= src.len(),
            grammar::comp_tail(src@, end as int, trees(items@), depth as nat)
                == grammar::comp_expr(src@, i as int, depth as nat),
        decreases src.len() - end,
    {
        let a = scan_blanks(src, end);
        let (op, from) = match boolean_op(src, a) {
            Some(found) => found,
            None => {
                return Ok((items, end));
            },
        };
        match comp_term(src, from, depth) {
            Ok((t, after)) => {
                add_item(&mut items, leaf(src, boolean_rule(op), a, from));
                add_item(&mut items, t);
                end = after;
            },
            Err(e) => {
                return Err(e);
            },
        }
    }
}

/// Reads what [`grammar::repeats`] describes.
fn repeats(src: &Vec<char>, i: usize) -> (r: Result<(Pair, usize), ParseError>)
    requires
        i <= src.len(),
    ensures
        agrees(r, grammar::repeats(src@, i as int)),
        ends_within(r, i, src.len()),
{
    let b = scan_blanks(src, i);
    let end = scan_run(src, b, CharClass::Digit);
    let c = scan_blanks(src, end);
    if end == b {
        return Err(reject(b, Expected::Count));
    }
    match scan_keyword(src, c, "TIMES") {
        Some(after) => {
            let mut count = no_items();
            add_item(&mut count, leaf(src, Rule::PosInt, b, end));
            let mut items = no_items();
            add_item(&mut items, Pair::node(Rule::Repeat, count));
            Ok((Pair::node(Rule::Qualifier, items), after))
        },
        None => Err(reject(c, Expected::Times)),
    }
}

/// Reads what [`grammar::within`] describes.
fn within(src: &Vec<char>, i: usize) -> (r: Result<(Pair, usize), ParseError>)
    requires
        i <= src.len(),
    ensures
        agrees(r, grammar::within(src@, i as int)),
        ends_within(r, i, src.len()),
{
    let b = scan_blanks(src, i);
    match number(src, b, false) {
        Some((rule, end)) => {
            let c = scan_blanks(src, end);
            let kind = match rule {
                Rule::Float => Rule::PosFloat,
                _ => Rule::PosInt,
            };
            match scan_keyword(src, c, "SECONDS") {
                Some(after) => {
                    let mut window = no_items();
                    add_item(&mut window, leaf(src, kind, b, end));
                    let mut items = no_items();
                    add_item(&mut items, Pair::node(Rule::Within, window));
                    Ok((Pair::node(Rule::Qualifier, items), after))
                },
                None => Err(reject(c, Expected::Seconds)),
            }
        },
        None => Err(reject(b, Expected::Number)),
    }
}

/// Reads what [`grammar::interval`] describes.
fn interval(src: &Vec<char>, i: usize) -> (r: Result<(Pair, usize), ParseError>)
    requires
        i <= src.len(),
    ensures
        agrees(r, grammar::interval(src@, i as int)),
        ends_within(r, i, src.len()),
{
    match timestamp(src, i) {
        Ok((start, end)) => {
            let c = scan_blanks(src, end);
            match scan_keyword(src, c, "STOP") {
                Some(from) => match timestamp(src, from) {
                    Ok((stop, after)) => {
                        let mut moments = no_items();
                        add_item(&mut moments, start);
                        add_item(&mut moments, stop);
                        let mut items = no_items();
                        add_item(&mut items, Pair::node(Rule::Interval, moments));
                        Ok((Pair::node(Rule::Qualifier, items), after))
                    },
                    Err(e) => Err(e),
                },
                None => Err(reject(c, Expected::Stop)),
            }
        },
        Err(e) => Err(e),
    }
}

/// The qualifier that begins at position `a`, if the keyword of one stands
/// there.
fn qualifier(src: &Vec<char>, a: usize) -> (r: Option<Result<(Pair, usize), ParseError>>)
    requires
        a <= src.len(),
    ensures
        match r {
            Some(found) => grammar::qualifier(src@, a as int) matches Some(q) && agrees(found, q)
                && ends_within(found, a, src.len()),
            None => grammar::qualifier(src@, a as int) is None,
        },
{
    match scan_keyword(src, a, "REPEATS") {
        Some(end) => {
            return Some(repeats(src, end));
        },
        None => {},
    }
    match scan_keyword(src, a, "WITHIN") {
        Some(end) => {
            return Some(within(src, end));
        },
        None => {},
    }
    match scan_keyword(src, a, "START") {
        Some(end) => Some(interval(src, end)),
        None => None,
    }
}

/// Reads the qualifiers after an observation or a group, and makes the node
/// of the children read before them and the qualifiers.
fn qualified(src: &Vec<char>, i: usize, rule: Rule, before: Vec<Pair>) -> (r: Result<
    (Pair, usize),
    ParseError,
>)
    requires
        i <= src.len(),
    ensures
        agrees(r, grammar::qualified(src@, i as int, rule, trees(before@))),
        r matches Ok((_, end)) ==> i <= end <= src.len(),
{
    let mut items = before;
    let mut end = i;
    loop
        invariant
            i <= end <= src.len(),
            grammar::qualified(src@, end as int, rule, trees(items@)) == grammar::qualified(
                src@,
                i as int,
                rule,
                trees(before@),
            ),
        decreases src.len() - end,
    {
        let a = scan_blanks(src, end);
        match qualifier(src, a) {
            Some(Ok((q, after))) => {
                add_item(&mut items, q);
                end = after;
            },
            Some(Err(e)) => {
                return Err(e);
            },
            None => {
                return Ok((Pair::node(rule, items), end));
            },
        }
    }
}

/// The operator between two observations at position `a`, and where it ends.
fn observation_op(src: &Vec<char>, a: usize) -> (r: Option<(ObservationOp, usize)>)
    requires
        a <= src.len(),
    ensures
        match r {
            Some((op, end)) => grammar::observation_op(src@, a as int) == Some(op) && end == a
                + op.spelling().len() && end <= src.len(),
            None => grammar::observation_op(src@, a as int) is None,
        },
{
    match scan_keyword(src, a, ObservationOp::And.value()) {
        Some(end) => {
            return Some((ObservationOp::And, end));
        },
        None => {},
    }
    match scan_keyword(src, a, ObservationOp::Or.value()) {
        Some(end) => {
            return Some((ObservationOp::Or, end));
        },
        None => {},
    }
    match scan_keyword(src, a, ObservationOp::FollowedBy.value()) {
        Some(end) => Some((ObservationOp::FollowedBy, end)),
        None => None,
    }
}

/// The rule of an operator between two observations.
fn observation_rule(op: ObservationOp) -> (rule: Rule)
    ensures
        rule == grammar::observation_rule(op),
{
    match op {
        ObservationOp::And => Rule::And,
        ObservationOp::Or => Rule::Or,
        ObservationOp::FollowedBy => Rule::FollowedBy,
    }
}

/// Reads what [`grammar::observation`] describes.
fn observation(src: &Vec<char>, i: usize, depth: usize) -> (r: Result<(Pair, usize), ParseError>)
    requires
        i <= src.len(),
    ensures
        agrees(r, grammar::observation(src@, i as int, depth as nat)),
        ends_within(r, i, src.len()),
    decreases depth, src.len() - i, 0int,
{
    let a = scan_blanks(src, i);
    if has_char(src, a, '[') {
        match comp_expr(src, a + 1, depth) {
            Ok((items, end)) => {
                let b = scan_blanks(src, end);
                if has_char(src, b, ']') {
                    qualified(src, b + 1, Rule::Observation, items)
                } else {
                    Err(reject(b, Expected::CloseBracket))
                }
            },
            Err(e) => Err(e),
        }
    } else if has_char(src, a, '(') {
        if depth == 0 {
            return Err(ParseError::NestingTooDeep(a));
        }
        match expression(src, a + 1, depth - 1) {
            Ok((e, end)) => {
                let b = scan_blanks(src, end);
                if has_char(src, b, ')') {
                    let mut items = no_items();
                    add_item(&mut items, e);
                    qualified(src, b + 1, Rule::ObservationGroup, items)
                } else {
                    Err(reject(b, Expected::CloseParen))
                }
            },
            Err(e) => Err(e),
        }
    } else {
        Err(reject(a, Expected::Observation))
    }
}

/// Reads an expression: an observation, then operators and observations in
/// turn.
fn expression(src: &Vec<char>, i: usize, depth: usize) -> (r: Result<(Pair, usize), ParseError>)
    requires
        i <= src.len(),
    ensures
        agrees(r, grammar::expression(src@, i as int, depth as nat)),
        ends_within(r, i, src.len()),
    decreases depth, src.len() - i, 2int,
{
    let (first, mut end) = match observation(src, i, depth) {
        Ok(found) => found,
        Err(e) => {
            return Err(e);
        },
    };
    let mut items = no_items();
    add_item(&mut items, first);
    loop
        invariant
            i < end <= src.len(),
            grammar::expression_tail(src@, end as int, trees(items@), depth as nat)
                == grammar::expression(src@, i as int, depth as nat),
        decreases src.len() - end,
    {
        let a = scan_blanks(src, end);
        let (op, from) = match observation_op(src, a) {
            Some(found) => found,
            None => {
                return Ok((Pair::node(Rule::Expression, items), end));
            },
        };
        match observation(src, from, depth) {
            Ok((o, after)) => {
                add_item(&mut items, leaf(src, observation_rule(op), a, from));
                add_item(&mut items, o);
                end = after;
            },
            Err(e) => {
                return Err(e);
            },
        }
    }
}

/// Reads a pattern against the grammar. The whole input must be a pattern:
/// what follows the last observation and is no blank is a failure. A failure
/// says where the input departs from the grammar and what was looked for
/// there, or where a group was opened too deep.
pub fn recognize(text: &str) -> (r: Result<Pair, ParseError>)
    ensures
        match r {
            Ok(pair) => grammar::pattern(text@) == Ok::<Tree, ParseErrorView>(pair@)
                && pattern_shaped(pair@),
            Err(e) => grammar::pattern(text@) == Err::<Tree, ParseErrorView>(e@) && (e is Grammar
                || e is NestingTooDeep),
        },
{
    proof {
        law_recognized_shape(text@);
    }
    let src = chars_of(text);
    match expression(&src, 0, MAX_NESTING_DEPTH) {
        Ok((e, end)) => {
            let a = scan_blanks(&src, end);
            if a == src.len() {
                let mut items = no_items();
                add_item(&mut items, e);
                Ok(Pair::node(Rule::Pattern, items))
            } else {
                Err(reject(a, Expected::EndOfInput))
            }
        },
        Err(e) => Err(e),
    }
}

} // verus!
