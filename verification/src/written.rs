//! From a comparison to its text and back. A single comparison is read as
//! its parts are read, whatever text of a path and of a value the grammar
//! accepts ([`law_comparison_read`], [`law_existence_read`]); and the text
//! that is written for a path, an operator and a constant is read as exactly
//! what was written ([`law_written_comparison`], [`law_written_existence`]).

use vstd::prelude::*;
use crate::ast::{
    ComparisonExprView,
    ComparisonOp,
    ComparisonOperator,
    ComparisonView,
    ListIndex,
    ObjectPathView,
    PathComponentView,
    PatternView,
    RhsView,
    Timestamp,
    ValueView,
};
use crate::error::{Expected, ParseErrorView};
use crate::grammar;
use crate::laws::{escaped, escaped_char, law_unescape_escaped};
use crate::literal::{decimal, integer_literal, is_digits, stripped, timestamp_of};
use crate::meaning;
use crate::scan::{
    at,
    class_at,
    is_blank,
    is_digit,
    is_name_start,
    keyword_at,
    lemma_run_end,
    literal_at,
    quote_end,
    run_end,
    skip_blanks,
    string_end,
    CharClass,
};
use crate::tree::{Rule, Tree};

verus! {

/// A run of a class that is known character by character ends where the
/// class ends.
pub proof fn lemma_run_exact(s: Seq<char>, i: int, j: int, class: CharClass)
    requires
        0 <= i <= j <= s.len(),
        forall|k: int| i <= k < j ==> class.holds(#[trigger] s[k]),
        !class_at(s, j, class),
    ensures
        run_end(s, i, class) == j,
    decreases j - i,
{
    if i < j {
        assert(class.holds(s[i]));
        lemma_run_exact(s, i + 1, j, class);
    }
}

/// A quoted text that holds no quote ends at the quote after it.
pub proof fn lemma_quote_exact(s: Seq<char>, i: int, j: int)
    requires
        0 <= i <= j < s.len(),
        forall|k: int| i <= k < j ==> #[trigger] s[k] != '\'',
        s[j] == '\'',
    ensures
        quote_end(s, i) == j,
    decreases j - i,
{
    if i < j {
        assert(s[i] != '\'');
        lemma_quote_exact(s, i + 1, j);
    }
}

/// Whether the text `w` stands in `s` at position `i`.
pub open spec fn occurs(s: Seq<char>, i: int, w: Seq<char>) -> bool {
    literal_at(s, i, w)
}

/// Where a text stands, each of its characters stands.
pub proof fn lemma_occurs(s: Seq<char>, i: int, w: Seq<char>)
    requires
        occurs(s, i, w),
    ensures
        forall|k: int| 0 <= k < w.len() ==> #[trigger] s[i + k] == w[k],
{
    assert forall|k: int| 0 <= k < w.len() implies #[trigger] s[i + k] == w[k] by {
        assert(s.subrange(i, i + w.len())[k] == s[i + k]);
    }
}

/// Where two texts stand one after the other, the two together stand.
pub proof fn lemma_occurs_both(s: Seq<char>, i: int, v: Seq<char>, w: Seq<char>)
    requires
        occurs(s, i, v + w),
    ensures
        occurs(s, i, v),
        occurs(s, i + v.len(), w),
{
    lemma_occurs(s, i, v + w);
    assert(s.subrange(i, i + v.len()) =~= v) by {
        assert forall|k: int| 0 <= k < v.len() implies s.subrange(i, i + v.len())[k] == v[k] by {
            assert(s[i + k] == (v + w)[k]);
        }
    }
    assert(s.subrange(i + v.len(), i + v.len() + w.len()) =~= w) by {
        assert forall|k: int| 0 <= k < w.len() implies s.subrange(
            i + v.len(),
            i + v.len() + w.len(),
        )[k] == w[k] by {
            assert(s[i + (v.len() + k)] == (v + w)[v.len() + k]);
        }
    }
}

/// The body of a string literal that is the escaped form of a text ends at
/// the quote after it.
pub proof fn lemma_string_exact(s: Seq<char>, i: int, x: Seq<char>)
    requires
        occurs(s, i, escaped(x)),
        at(s, i + escaped(x).len(), '\''),
    ensures
        string_end(s, i) == i + escaped(x).len(),
    decreases x.len(),
{
    if x.len() > 0 {
        let c = x[0];
        let head = escaped_char(c);
        lemma_occurs_both(s, i, head, escaped(x.skip(1)));
        lemma_occurs(s, i, head);
        assert(s[i + 0] == head[0]);
        if head.len() == 2 {
            assert(s[i + 1] == head[1]);
        }
        lemma_string_exact(s, i + head.len(), x.skip(1));
    }
}

/// The character that stands for a digit.
pub open spec fn digit_char(d: int) -> char {
    if d == 0 {
        '0'
    } else if d == 1 {
        '1'
    } else if d == 2 {
        '2'
    } else if d == 3 {
        '3'
    } else if d == 4 {
        '4'
    } else if d == 5 {
        '5'
    } else if d == 6 {
        '6'
    } else if d == 7 {
        '7'
    } else if d == 8 {
        '8'
    } else {
        '9'
    }
}

/// The digits of a number in base ten, the most significant first.
pub open spec fn digits_of(n: nat) -> Seq<char>
    decreases n,
{
    if n < 10 {
        seq![digit_char(n as int)]
    } else {
        digits_of(n / 10).push(digit_char((n % 10) as int))
    }
}

/// The digits of a number are digits, and stand for the number.
pub proof fn lemma_digits_of(n: nat)
    ensures
        is_digits(digits_of(n)),
        decimal(digits_of(n)) == n,
    decreases n,
{
    if n < 10 {
        let s = seq![digit_char(n as int)];
        assert(s.drop_last() =~= Seq::<char>::empty());
        assert(decimal(s.drop_last()) == 0);
        assert(s.last() == digit_char(n as int));
    } else {
        lemma_digits_of(n / 10);
        let s = digits_of(n);
        assert(s.drop_last() =~= digits_of(n / 10));
        assert(s.last() == digit_char((n % 10) as int));
    }
}

/// A run inside a text that stands in `s` ends in `s` where it ends in the
/// text, if it ends before the end of the text or the class ends there.
pub proof fn lemma_run_within(s: Seq<char>, a: int, w: Seq<char>, k: int, class: CharClass)
    requires
        occurs(s, a, w),
        0 <= k <= w.len(),
        run_end(w, k, class) < w.len() || !class_at(s, a + w.len(), class),
    ensures
        run_end(s, a + k, class) == a + run_end(w, k, class),
{
    lemma_run_end(w, k, class);
    let e = run_end(w, k, class);
    assert forall|j: int| a + k <= j < a + e implies class.holds(#[trigger] s[j]) by {
        assert(s.subrange(a, a + w.len())[j - a] == s[j]);
        assert(class.holds(w[j - a]));
    }
    if e < w.len() {
        assert(s.subrange(a, a + w.len())[e] == s[a + e]);
    }
    lemma_run_exact(s, a + k, a + e, class);
}

/// The text of an integer: its digits, after a minus sign where it is
/// negative.
pub open spec fn written_int(n: int) -> Seq<char> {
    if n < 0 {
        seq!['-'] + digits_of((-n) as nat)
    } else {
        digits_of(n as nat)
    }
}

/// The text of an integer stands for the integer.
pub proof fn lemma_written_int(n: int)
    ensures
        integer_literal(written_int(n)) == Some(n),
        written_int(n).len() > 0,
        n < 0 ==> written_int(n)[0] == '-' && is_digits(written_int(n).skip(1)),
        n >= 0 ==> is_digits(written_int(n)),
{
    if n < 0 {
        lemma_digits_of((-n) as nat);
        assert(written_int(n).skip(1) =~= digits_of((-n) as nat));
    } else {
        lemma_digits_of(n as nat);
        assert(is_digit(written_int(n)[0]));
    }
}

/// Whether the text is a number with a point: digits, with or without a
/// sign before them, then a point and more digits.
pub open spec fn is_float_text(f: Seq<char>) -> bool {
    let from: int = if at(f, 0, '-') || at(f, 0, '+') {
        1
    } else {
        0
    };
    let point = run_end(f, from, CharClass::Digit);
    point > from && at(f, point, '.') && point + 1 < f.len() && run_end(
        f,
        point + 1,
        CharClass::Digit,
    ) == f.len()
}

/// A constant as it is written in a pattern. A timestamp, a hexadecimal and
/// a binary constant are given by the text between their quotes, and a
/// number with a point by its text.
pub ghost enum Literal {
    String(Seq<char>),
    Int(i64),
    Float(Seq<char>),
    Bool(bool),
    Timestamp(Seq<char>),
    Hex(Seq<char>),
    Binary(Seq<char>),
}

/// Whether the text holds no quote.
pub open spec fn quoteless(x: Seq<char>) -> bool {
    forall|i: int| 0 <= i < x.len() ==> #[trigger] x[i] != '\''
}

/// The text between quotes, after the letter that marks its kind if it has
/// one.
pub open spec fn in_quotes(mark: Seq<char>, x: Seq<char>) -> Seq<char> {
    mark + seq!['\''] + x + seq!['\'']
}

impl Literal {
    /// Whether the constant can be written: any string, integer or truth
    /// value can; a number with a point has to be one, and the text of a
    /// timestamp, a hexadecimal or a binary constant holds no quote.
    pub open spec fn valid(self) -> bool {
        match self {
            Literal::String(_) => true,
            Literal::Int(_) => true,
            Literal::Bool(_) => true,
            Literal::Float(f) => is_float_text(f),
            Literal::Timestamp(x) => quoteless(x),
            Literal::Hex(x) => quoteless(x),
            Literal::Binary(x) => quoteless(x),
        }
    }

    /// The text of the constant in a pattern.
    pub open spec fn written(self) -> Seq<char> {
        match self {
            Literal::String(x) => in_quotes(Seq::empty(), escaped(x)),
            Literal::Int(n) => written_int(n as int),
            Literal::Bool(b) => if b {
                "true"@
            } else {
                "false"@
            },
            Literal::Float(f) => f,
            Literal::Timestamp(x) => in_quotes(seq!['t'], x),
            Literal::Hex(x) => in_quotes(seq!['h'], x),
            Literal::Binary(x) => in_quotes(seq!['b'], x),
        }
    }

    /// The token that the recognizer makes of the constant.
    pub open spec fn token(self) -> Tree {
        match self {
            Literal::String(x) => Tree::token(Rule::String, escaped(x)),
            Literal::Int(n) => Tree::token(Rule::Int, written_int(n as int)),
            Literal::Bool(b) => Tree::token(Rule::Bool, self.written()),
            Literal::Float(f) => Tree::token(Rule::Float, f),
            Literal::Timestamp(x) => Tree::token(Rule::Time, x),
            Literal::Hex(x) => Tree::token(Rule::Hex, x),
            Literal::Binary(x) => Tree::token(Rule::Bin, x),
        }
    }

    /// What the constant stands for. A timestamp stands for a moment if it
    /// has one of the accepted forms.
    pub open spec fn value(self) -> Result<ValueView, ParseErrorView> {
        match self {
            Literal::String(x) => Ok(ValueView::String(x)),
            Literal::Int(n) => Ok(ValueView::Int(n)),
            Literal::Bool(b) => Ok(ValueView::Bool(b)),
            Literal::Float(f) => Ok(ValueView::Float(f)),
            Literal::Timestamp(x) => match timestamp_of(x) {
                Some(micros) => Ok(ValueView::Timestamp(Timestamp { micros })),
                None => Err(ParseErrorView::InvalidTimestamp(x)),
            },
            Literal::Hex(x) => Ok(ValueView::Hex(x)),
            Literal::Binary(x) => Ok(ValueView::Binary(x)),
        }
    }
}

/// The token of a written constant stands for the constant.
pub proof fn lemma_literal_value(lit: Literal)
    requires
        lit.valid(),
    ensures
        meaning::value_of(Tree::node(Rule::Value, seq![lit.token()])) == lit.value(),
{
    match lit {
        Literal::String(x) => {
            law_unescape_escaped(x);
        },
        Literal::Int(n) => {
            lemma_written_int(n as int);
        },
        Literal::Bool(b) => {
            reveal_strlit("true");
            reveal_strlit("false");
            if !b {
                assert("false"@.len() != "true"@.len());
            }
        },
        Literal::Float(f) => {},
        Literal::Timestamp(x) => {},
        Literal::Hex(x) => {},
        Literal::Binary(x) => {},
    }
}

/// A quoted constant that stands in the input is read whole.
proof fn lemma_quoted_read(s: Seq<char>, i: int, mark: Seq<char>, x: Seq<char>, rule: Rule)
    requires
        occurs(s, i, in_quotes(mark, x)),
        rule != Rule::String,
        quoteless(x),
    ensures
        grammar::quoted(s, rule, i + mark.len() + 1) == Ok::<(Tree, int), ParseErrorView>(
            (Tree::token(rule, x), i + in_quotes(mark, x).len()),
        ),
        s[i + mark.len()] == '\'',
        occurs(s, i, mark),
{
    let w = in_quotes(mark, x);
    lemma_occurs(s, i, w);
    let from = i + mark.len() + 1;
    let end = from + x.len();
    assert(s[i + mark.len()] == w[mark.len() as int]);
    assert(s[i + (mark.len() + 1 + x.len())] == w[(mark.len() + 1 + x.len()) as int]);
    assert forall|k: int| from <= k < end implies #[trigger] s[k] != '\'' by {
        assert(s[i + (k - i)] == w[k - i]);
        assert(w[k - i] == x[k - from]);
    }
    lemma_quote_exact(s, from, end);
    assert(s.subrange(from, end) =~= x) by {
        assert forall|k: int| 0 <= k < x.len() implies s.subrange(from, end)[k] == x[k] by {
            assert(s[i + (mark.len() + 1 + k)] == w[mark.len() + 1 + k]);
        }
    }
    assert(s.subrange(i, i + mark.len()) =~= mark) by {
        assert forall|k: int| 0 <= k < mark.len() implies s.subrange(i, i + mark.len())[k]
            == mark[k] by {
            assert(s[i + k] == w[k]);
        }
    }
}

/// A string literal that stands in the input is read whole.
proof fn lemma_string_read(s: Seq<char>, i: int, x: Seq<char>)
    requires
        occurs(s, i, in_quotes(Seq::empty(), escaped(x))),
    ensures
        grammar::quoted(s, Rule::String, i + 1) == Ok::<(Tree, int), ParseErrorView>(
            (Tree::token(Rule::String, escaped(x)), i + escaped(x).len() + 2),
        ),
        s[i] == '\'',
{
    let body = escaped(x);
    let w = in_quotes(Seq::empty(), body);
    lemma_occurs(s, i, w);
    assert(s[i + 0] == w[0]);
    assert(s[i + (1 + body.len())] == w[(1 + body.len()) as int]);
    assert(s.subrange(i + 1, i + 1 + body.len()) =~= body) by {
        assert forall|k: int| 0 <= k < body.len() implies s.subrange(
            i + 1,
            i + 1 + body.len(),
        )[k] == body[k] by {
            assert(s[i + (1 + k)] == w[1 + k]);
        }
    }
    lemma_string_exact(s, i + 1, x);
}

/// A constant that stands in the input before `]` is read whole, as the
/// token of the constant.
#[verifier::rlimit(40)]
pub proof fn lemma_constant_read(s: Seq<char>, i: int, lit: Literal)
    requires
        lit.valid(),
        occurs(s, i, lit.written()),
        at(s, i + lit.written().len(), ']'),
    ensures
        grammar::constant(s, i) == Ok::<(Tree, int), ParseErrorView>(
            (lit.token(), i + lit.written().len()),
        ),
{
    let w = lit.written();
    let end = i + w.len();
    reveal_strlit("true");
    reveal_strlit("false");
    match lit {
        Literal::String(x) => {
            lemma_string_read(s, i, x);
        },
        Literal::Timestamp(x) => {
            lemma_quoted_read(s, i, seq!['t'], x, Rule::Time);
            lemma_occurs(s, i, seq!['t']);
            assert(s[i + 0] == 't');
        },
        Literal::Hex(x) => {
            lemma_quoted_read(s, i, seq!['h'], x, Rule::Hex);
            lemma_occurs(s, i, seq!['h']);
            assert(s[i + 0] == 'h');
        },
        Literal::Binary(x) => {
            lemma_quoted_read(s, i, seq!['b'], x, Rule::Bin);
            lemma_occurs(s, i, seq!['b']);
            assert(s[i + 0] == 'b');
        },
        Literal::Bool(b) => {
            lemma_occurs(s, i, w);
            assert(s[i + 0] == w[0]);
            assert(s[i + 1] == w[1]);
        },
        Literal::Int(n) => {
            lemma_written_int(n as int);
            lemma_occurs(s, i, w);
            assert(s[i + 0] == w[0]);
            let from = if n < 0 {
                1int
            } else {
                0int
            };
            assert forall|k: int| i + from <= k < end implies CharClass::Digit.holds(
                #[trigger] s[k],
            ) by {
                assert(s[i + (k - i)] == w[k - i]);
                if n < 0 {
                    assert(w.skip(1)[k - i - 1] == w[k - i]);
                }
            }
            lemma_run_exact(s, i + from, end, CharClass::Digit);
            assert(s.subrange(i, end) == w);
        },
        Literal::Float(f) => {
            lemma_occurs(s, i, f);
            let from: int = if at(f, 0, '-') || at(f, 0, '+') {
                1
            } else {
                0
            };
            let point = run_end(f, from, CharClass::Digit);
            lemma_run_end(f, from, CharClass::Digit);
            assert(s[i + 0] == f[0]);
            assert(s[i + from] == f[from]);
            assert(is_digit(f[from]));
            lemma_run_within(s, i, f, from, CharClass::Digit);
            lemma_run_within(s, i, f, point + 1, CharClass::Digit);
            assert(s[i + point] == f[point]);
            assert(s[i + (point + 1)] == f[point + 1]);
            lemma_run_end(f, point + 1, CharClass::Digit);
            assert(s.subrange(i, end) == f);
        },
    }
    crate::grammar::lemma_blanks(s, i);
    assert(!is_blank(s[i]));
}

/// Whether the text is a plain name: a letter or `_`, then letters, digits
/// and `_`.
pub open spec fn is_name(w: Seq<char>) -> bool {
    w.len() > 0 && is_name_start(w[0]) && forall|k: int|
        0 <= k < w.len() ==> CharClass::Name.holds(#[trigger] w[k])
}

/// Whether the text can be the type of an object: a letter or `_`, then
/// letters, digits, `_` and `-`; and not the keyword `EXISTS`.
pub open spec fn is_object_type(w: Seq<char>) -> bool {
    w.len() > 0 && is_name_start(w[0]) && (forall|k: int|
        0 <= k < w.len() ==> CharClass::Word.holds(#[trigger] w[k])) && w != "EXISTS"@
}

/// The text of an index between its brackets.
pub open spec fn index_text(index: ListIndex) -> Seq<char> {
    match index {
        ListIndex::Star => seq!['*'],
        ListIndex::Index(n) => digits_of(n as nat),
    }
}

/// The text of a step: the name, and the index in brackets if there is one.
pub open spec fn written_step(step: PathComponentView) -> Seq<char> {
    match step.index {
        None => step.property,
        Some(index) => step.property + seq!['['] + index_text(index) + seq![']'],
    }
}

/// The text of the steps after the first: each after a point.
pub open spec fn written_steps(steps: Seq<PathComponentView>) -> Seq<char>
    decreases steps.len(),
{
    if steps.len() == 0 {
        Seq::empty()
    } else {
        seq!['.'] + written_step(steps[0]) + written_steps(steps.skip(1))
    }
}

/// The text of a path: the type of the object, a colon, and the steps with
/// points between them.
pub open spec fn written_path(p: ObjectPathView) -> Seq<char> {
    p.object_type + seq![':'] + written_step(p.property_path[0]) + written_steps(
        p.property_path.skip(1),
    )
}

/// Whether every step has a plain name.
pub open spec fn plain_steps(steps: Seq<PathComponentView>) -> bool {
    forall|k: int| 0 <= k < steps.len() ==> is_name((#[trigger] steps[k]).property)
}

/// Whether the path can be written without quotes: the type of the object
/// is one, there is a step, and every step has a plain name.
pub open spec fn plain_path(p: ObjectPathView) -> bool {
    is_object_type(p.object_type) && p.property_path.len() > 0 && plain_steps(p.property_path)
}

/// The node that the recognizer makes of a step.
pub open spec fn step_tree(step: PathComponentView) -> Tree {
    match step.index {
        None => Tree::node(Rule::Step, seq![Tree::token(Rule::Property, step.property)]),
        Some(index) => Tree::node(
            Rule::Step,
            seq![Tree::token(Rule::Property, step.property)].push(
                Tree::token(Rule::Index, index_text(index)),
            ),
        ),
    }
}

/// The nodes that the recognizer makes of steps.
pub open spec fn step_trees(steps: Seq<PathComponentView>) -> Seq<Tree> {
    Seq::new(steps.len(), |k: int| step_tree(steps[k]))
}

/// The node that the recognizer makes of a path.
pub open spec fn path_tree(p: ObjectPathView) -> Tree {
    Tree::node(
        Rule::Path,
        seq![Tree::token(Rule::Object, p.object_type)] + step_trees(p.property_path),
    )
}

/// What may follow a path: something that does not go on with the last
/// name, and after blanks neither an index nor another step.
pub open spec fn path_ends(s: Seq<char>, j: int) -> bool {
    !class_at(s, j, CharClass::Name) && !at(s, skip_blanks(s, j), '[') && !at(
        s,
        skip_blanks(s, j),
        '.',
    )
}

/// A step that stands in the input is read whole.
#[verifier::rlimit(40)]
pub proof fn lemma_step_read(s: Seq<char>, i: int, step: PathComponentView)
    requires
        occurs(s, i, written_step(step)),
        is_name(step.property),
        step.index is None ==> !class_at(s, i + step.property.len(), CharClass::Name) && !at(
            s,
            skip_blanks(s, i + step.property.len()),
            '[',
        ),
    ensures
        grammar::step(s, i) == Ok::<(Tree, int), ParseErrorView>(
            (step_tree(step), i + written_step(step).len()),
        ),
{
    let name = step.property;
    let w = written_step(step);
    let end = i + name.len();
    lemma_occurs(s, i, w);
    assert(s[i + 0] == w[0]);
    assert(!is_blank(s[i]));
    crate::grammar::lemma_blanks(s, i);
    assert forall|k: int| i <= k < end implies CharClass::Name.holds(#[trigger] s[k]) by {
        assert(s[i + (k - i)] == w[k - i]);
        assert(w[k - i] == name[k - i]);
    }
    assert(s.subrange(i, end) =~= name) by {
        assert forall|k: int| 0 <= k < name.len() implies s.subrange(i, end)[k] == name[k] by {
            assert(s[i + k] == w[k]);
        }
    }
    match step.index {
        None => {
            lemma_run_exact(s, i, end, CharClass::Name);
        },
        Some(index) => {
            let text = index_text(index);
            assert(s[i + name.len()] == w[name.len() as int]);
            assert(s[end] == '[');
            lemma_run_exact(s, i, end, CharClass::Name);
            assert(skip_blanks(s, end) == end);
            let b = end + 1;
            assert(s[i + (name.len() + 1)] == w[(name.len() + 1) as int]);
            let close = b + text.len();
            assert(s[i + (name.len() + 1 + text.len())] == w[(name.len() + 1 + text.len()) as int]);
            assert(s[close] == ']');
            assert(s.subrange(b, close) =~= text) by {
                assert forall|k: int| 0 <= k < text.len() implies s.subrange(b, close)[k]
                    == text[k] by {
                    assert(s[i + (name.len() + 1 + k)] == w[(name.len() + 1 + k) as int]);
                }
            }
            match index {
                ListIndex::Star => {
                    assert(s[b] == '*');
                    assert(skip_blanks(s, b) == b);
                    assert(skip_blanks(s, close) == close);
                },
                ListIndex::Index(n) => {
                    lemma_digits_of(n as nat);
                    assert(s[b] == text[0]);
                    assert(is_digit(text[0]));
                    assert(skip_blanks(s, b) == b);
                    assert forall|k: int| b <= k < close implies CharClass::Digit.holds(
                        #[trigger] s[k],
                    ) by {
                        assert(s.subrange(b, close)[k - b] == s[k]);
                        assert(is_digit(text[k - b]));
                    }
                    lemma_run_exact(s, b, close, CharClass::Digit);
                    assert(skip_blanks(s, close) == close);
                },
            }
        },
    }
}

/// The steps after the first that stand in the input are read whole, and
/// with what was read before them make the node of the path.
pub proof fn lemma_steps_read(
    s: Seq<char>,
    i: int,
    steps: Seq<PathComponentView>,
    before: Seq<Tree>,
)
    requires
        occurs(s, i, written_steps(steps)),
        plain_steps(steps),
        path_ends(s, i + written_steps(steps).len()),
    ensures
        grammar::steps_tail(s, i, before) == Ok::<(Tree, int), ParseErrorView>(
            (Tree::node(Rule::Path, before + step_trees(steps)), i + written_steps(steps).len()),
        ),
    decreases steps.len(),
{
    if steps.len() == 0 {
        assert(before + step_trees(steps) =~= before);
    } else {
        let first = steps[0];
        let rest = steps.skip(1);
        let w = written_steps(steps);
        lemma_occurs_both(s, i, seq!['.'] + written_step(first), written_steps(rest));
        lemma_occurs_both(s, i, seq!['.'], written_step(first));
        lemma_occurs(s, i, seq!['.']);
        assert(s[i + 0] == '.');
        assert(skip_blanks(s, i) == i);
        let after = i + 1 + written_step(first).len();
        assert(is_name(first.property));
        assert(plain_steps(rest)) by {
            assert forall|k: int| 0 <= k < rest.len() implies is_name(
                (#[trigger] rest[k]).property,
            ) by {
                assert(rest[k] == steps[k + 1]);
            }
        }
        lemma_follows_step(s, after, rest);
        lemma_step_read(s, i + 1, first);
        lemma_steps_read(s, after, rest, before.push(step_tree(first)));
        assert(before.push(step_tree(first)) + step_trees(rest) =~= before + step_trees(steps));
    }
}

/// What follows a step that other steps or the end of the path follow: it
/// does not go on with the name, and is no index.
proof fn lemma_follows_step(s: Seq<char>, j: int, rest: Seq<PathComponentView>)
    requires
        occurs(s, j, written_steps(rest)),
        path_ends(s, j + written_steps(rest).len()),
    ensures
        !class_at(s, j, CharClass::Name),
        !at(s, skip_blanks(s, j), '['),
{
    if rest.len() > 0 {
        lemma_occurs_both(s, j, seq!['.'] + written_step(rest[0]), written_steps(rest.skip(1)));
        lemma_occurs_both(s, j, seq!['.'], written_step(rest[0]));
        lemma_occurs(s, j, seq!['.']);
        assert(s[j + 0] == '.');
        assert(skip_blanks(s, j) == j);
    }
}

/// A path that stands in the input is read whole, as the node of the path.
#[verifier::rlimit(40)]
pub proof fn lemma_path_read(s: Seq<char>, i: int, p: ObjectPathView, what: Expected)
    requires
        0 <= i,
        plain_path(p),
        occurs(s, i, written_path(p)),
        path_ends(s, i + written_path(p).len()),
    ensures
        grammar::path(s, i, what) == Ok::<(Tree, int), ParseErrorView>(
            (path_tree(p), i + written_path(p).len()),
        ),
{
    let object = p.object_type;
    let first = p.property_path[0];
    let rest = p.property_path.skip(1);
    let w = written_path(p);
    lemma_occurs_both(s, i, object + seq![':'] + written_step(first), written_steps(rest));
    lemma_occurs_both(s, i, object + seq![':'], written_step(first));
    lemma_occurs_both(s, i, object, seq![':']);
    lemma_occurs(s, i, object);
    lemma_occurs(s, i + object.len(), seq![':']);
    assert(s[i + 0] == object[0]);
    assert(!is_blank(s[i]));
    crate::grammar::lemma_blanks(s, i);
    let colon = i + object.len();
    assert(s[colon + 0] == ':');
    assert forall|k: int| i <= k < colon implies CharClass::Word.holds(#[trigger] s[k]) by {
        assert(s[i + (k - i)] == object[k - i]);
    }
    lemma_run_exact(s, i, colon, CharClass::Word);
    assert(skip_blanks(s, colon) == colon);
    let after = colon + 1 + written_step(first).len();
    assert(is_name(first.property));
    assert(plain_steps(rest)) by {
        assert forall|k: int| 0 <= k < rest.len() implies is_name((#[trigger] rest[k]).property) by {
            assert(rest[k] == p.property_path[k + 1]);
        }
    }
    lemma_follows_step(s, after, rest);
    lemma_step_read(s, colon + 1, first);
    let begun = seq![grammar::token(s, Rule::Object, i, colon)].push(step_tree(first));
    lemma_steps_read(s, after, rest, begun);
    assert(s.subrange(i, colon) == object);
    assert(begun + step_trees(rest) =~= seq![Tree::token(Rule::Object, object)] + step_trees(
        p.property_path,
    ));
}

/// The node of a step stands for the step.
pub proof fn lemma_step_meaning(step: PathComponentView)
    requires
        is_name(step.property),
    ensures
        meaning::step_of(step_tree(step)) == Ok::<PathComponentView, ParseErrorView>(step),
{
    reveal_with_fuel(meaning::step_from, 3);
    reveal_strlit("*");
    assert(stripped(step.property) == step.property);
    match step.index {
        None => {},
        Some(ListIndex::Star) => {
            assert(seq!['*'] =~= "*"@);
        },
        Some(ListIndex::Index(n)) => {
            lemma_digits_of(n as nat);
            let text = digits_of(n as nat);
            assert(is_digit(text[0]));
            assert(text != "*"@) by {
                if text == "*"@ {
                    assert(text[0] == '*');
                }
            }
        },
    }
}

proof fn lemma_path_from(object: Seq<char>, steps: Seq<PathComponentView>, k: int)
    requires
        plain_steps(steps),
        0 <= k <= steps.len(),
    ensures
        meaning::path_from(
            seq![Tree::token(Rule::Object, object)] + step_trees(steps),
            k + 1,
            ObjectPathView { object_type: object, property_path: steps.take(k) },
        ) == Ok::<ObjectPathView, ParseErrorView>(
            ObjectPathView { object_type: object, property_path: steps },
        ),
    decreases steps.len() - k,
{
    let items = seq![Tree::token(Rule::Object, object)] + step_trees(steps);
    if k < steps.len() {
        assert(items[k + 1] == step_tree(steps[k]));
        assert(is_name(steps[k].property));
        lemma_step_meaning(steps[k]);
        assert(steps.take(k).push(steps[k]) =~= steps.take(k + 1));
        lemma_path_from(object, steps, k + 1);
    } else {
        assert(steps.take(k) =~= steps);
    }
}

/// The node of a path stands for the path.
pub proof fn lemma_path_meaning(p: ObjectPathView)
    requires
        plain_steps(p.property_path),
    ensures
        meaning::path_of(path_tree(p)) == Ok::<ObjectPathView, ParseErrorView>(p),
{
    let items = seq![Tree::token(Rule::Object, p.object_type)] + step_trees(p.property_path);
    lemma_path_from(p.object_type, p.property_path, 0);
    assert(items[0] == Tree::token(Rule::Object, p.object_type));
    assert(p.property_path.take(0) =~= Seq::<PathComponentView>::empty());
}

/// An operator that stands in the input before a space is the operator that
/// is read there, and `NOT` is not read there.
#[verifier::rlimit(40)]
pub proof fn lemma_operator_read(s: Seq<char>, b: int, op: ComparisonOp)
    requires
        occurs(s, b, op.spelling()),
        at(s, b + op.spelling().len(), ' '),
    ensures
        grammar::operator(s, b) == Some(op),
        meaning::comp_op_of(grammar::operator_rule(op)) == Some(op),
        !keyword_at(s, b, "NOT"@),
        op.spelling().len() > 0,
        !is_blank(s[b]),
        s[b] != '[',
        s[b] != '.',
{
    reveal_strlit("=");
    reveal_strlit("!=");
    reveal_strlit(">");
    reveal_strlit("<");
    reveal_strlit(">=");
    reveal_strlit("<=");
    reveal_strlit("IN");
    reveal_strlit("LIKE");
    reveal_strlit("MATCHES");
    reveal_strlit("ISSUBSET");
    reveal_strlit("ISSUPERSET");
    reveal_strlit("NOT");
    lemma_occurs(s, b, op.spelling());
    assert(s[b + 0] == op.spelling()[0]);
    if op.spelling().len() > 1 {
        assert(s[b + 1] == op.spelling()[1]);
    }
    if op.spelling().len() > 4 {
        assert(s[b + 4] == op.spelling()[4]);
    }
    lemma_chars_at(s, b, ComparisonOp::Neq.spelling());
    lemma_chars_at(s, b, ComparisonOp::Ge.spelling());
    lemma_chars_at(s, b, ComparisonOp::Le.spelling());
    lemma_chars_at(s, b, ComparisonOp::Eq.spelling());
    lemma_chars_at(s, b, ComparisonOp::Gt.spelling());
    lemma_chars_at(s, b, ComparisonOp::Lt.spelling());
    lemma_chars_at(s, b, ComparisonOp::In.spelling());
    lemma_chars_at(s, b, ComparisonOp::Like.spelling());
    lemma_chars_at(s, b, ComparisonOp::Matches.spelling());
    lemma_chars_at(s, b, ComparisonOp::IsSubset.spelling());
    lemma_chars_at(s, b, ComparisonOp::IsSuperset.spelling());
    lemma_chars_at(s, b, "NOT"@);
}

/// Where a text stands, its first, second and fifth characters stand.
proof fn lemma_chars_at(s: Seq<char>, b: int, w: Seq<char>)
    ensures
        literal_at(s, b, w) && w.len() > 0 ==> s[b] == w[0],
        literal_at(s, b, w) && w.len() > 1 ==> s[b + 1] == w[1],
        literal_at(s, b, w) && w.len() > 4 ==> s[b + 4] == w[4],
{
    if literal_at(s, b, w) {
        lemma_occurs(s, b, w);
        if w.len() > 0 {
            assert(s[b + 0] == w[0]);
        }
        if w.len() > 1 {
            assert(s[b + 1] == w[1]);
        }
        if w.len() > 4 {
            assert(s[b + 4] == w[4]);
        }
    }
}

/// The tree of the pattern that is one observation of one comparison, where
/// the comparison stands alone between `[` and `]`.
#[verifier::rlimit(40)]
pub proof fn lemma_single_read(s: Seq<char>, t: Tree)
    requires
        s.len() >= 2,
        s[0] == '[',
        s[s.len() - 1] == ']',
        grammar::comp_term(s, 1, grammar::MAX_NESTING_DEPTH as nat) == Ok::<
            (Tree, int),
            ParseErrorView,
        >((t, s.len() - 1)),
    ensures
        grammar::pattern(s) == Ok::<Tree, ParseErrorView>(crate::laws::single(t)),
{
    let n = s.len() as int;
    let depth = grammar::MAX_NESTING_DEPTH as nat;
    reveal_strlit("AND");
    reveal_strlit("OR");
    reveal_strlit("FOLLOWEDBY");
    reveal_strlit("REPEATS");
    reveal_strlit("WITHIN");
    reveal_strlit("START");
    assert(skip_blanks(s, 0) == 0);
    assert(skip_blanks(s, n - 1) == n - 1);
    assert(skip_blanks(s, n) == n);
    lemma_chars_at(s, n - 1, "AND"@);
    lemma_chars_at(s, n - 1, "OR"@);
    assert(grammar::boolean_op(s, n - 1) is None);
    assert(grammar::comp_tail(s, n - 1, seq![t], depth) == Ok::<(Seq<Tree>, int), ParseErrorView>(
        (seq![t], n - 1),
    ));
    assert(grammar::comp_expr(s, 1, depth) == Ok::<(Seq<Tree>, int), ParseErrorView>(
        (seq![t], n - 1),
    ));
    assert(grammar::qualifier(s, n) is None);
    let seen = Tree::node(Rule::Observation, seq![t]);
    assert(grammar::qualified(s, n, Rule::Observation, seq![t]) == Ok::<
        (Tree, int),
        ParseErrorView,
    >((seen, n)));
    assert(grammar::observation(s, 0, depth) == Ok::<(Tree, int), ParseErrorView>((seen, n)));
    assert(grammar::observation_op(s, n) is None);
    assert(grammar::expression_tail(s, n, seq![seen], depth) == Ok::<(Tree, int), ParseErrorView>(
        (Tree::node(Rule::Expression, seq![seen]), n),
    ));
    assert(grammar::expression(s, 0, depth) == Ok::<(Tree, int), ParseErrorView>(
        (Tree::node(Rule::Expression, seq![seen]), n),
    ));
}

/// The text of `NOT` and the blank after it, where the comparison is
/// negated.
pub open spec fn written_not(negated: bool) -> Seq<char> {
    if negated {
        "NOT"@ + seq![' ']
    } else {
        Seq::empty()
    }
}

/// What stands between the brackets of a single comparison: the path, the
/// operator and the constant with one blank between each two, and `NOT`
/// before the operator where the comparison is negated.
pub open spec fn written_leaf(p: ObjectPathView, negated: bool, op: ComparisonOp, lit: Literal) -> Seq<
    char,
> {
    written_path(p) + seq![' '] + written_not(negated) + op.spelling() + seq![' ']
        + lit.written()
}

/// The text of the pattern that is one comparison: `[path op constant]`, or
/// `[path NOT op constant]`.
pub open spec fn written_comparison(
    p: ObjectPathView,
    negated: bool,
    op: ComparisonOp,
    lit: Literal,
) -> Seq<char> {
    seq!['['] + written_leaf(p, negated, op, lit) + seq![']']
}

/// The node that the recognizer makes of a single comparison.
pub open spec fn leaf_tree(p: ObjectPathView, negated: bool, op: ComparisonOp, lit: Literal) -> Tree {
    crate::laws::leaf(
        path_tree(p),
        negated,
        Tree::token(grammar::operator_rule(op), op.spelling()),
        Tree::node(Rule::Value, seq![lit.token()]),
    )
}

/// A written constant begins with a quote, a letter, a sign or a digit.
proof fn lemma_literal_begins(s: Seq<char>, i: int, lit: Literal)
    requires
        lit.valid(),
        occurs(s, i, lit.written()),
    ensures
        lit.written().len() > 0,
        !is_blank(s[i]),
        s[i] != '(',
{
    let w = lit.written();
    reveal_strlit("true");
    reveal_strlit("false");
    match lit {
        Literal::Int(n) => {
            lemma_written_int(n as int);
            if n >= 0 {
                assert(is_digit(w[0]));
            }
        },
        Literal::Float(f) => {
            let from: int = if at(f, 0, '-') || at(f, 0, '+') {
                1
            } else {
                0
            };
            lemma_run_end(f, from, CharClass::Digit);
            assert(is_digit(f[from]));
        },
        _ => {},
    }
    lemma_occurs(s, i, w);
    assert(s[i + 0] == w[0]);
}

/// Where the parts of a single comparison stand in its text: the path
/// after `[`, a blank, `NOT` and a blank where the comparison is negated,
/// the operator, a blank, the constant, and `]`.
pub open spec fn laid_out(
    s: Seq<char>,
    p: ObjectPathView,
    negated: bool,
    op: ComparisonOp,
    lit: Literal,
) -> bool {
    let j: int = 1int + written_path(p).len();
    let b: int = j + 1 + written_not(negated).len();
    let e: int = b + op.spelling().len();
    let close: int = e + 1 + lit.written().len();
    &&& s.len() == close + 1
    &&& s[0] == '['
    &&& occurs(s, 1, written_path(p))
    &&& s[j] == ' '
    &&& occurs(s, j + 1, written_not(negated))
    &&& occurs(s, b, op.spelling())
    &&& s[e] == ' '
    &&& occurs(s, e + 1, lit.written())
    &&& s[close] == ']'
}

/// The text of a single comparison holds its parts one after the other.
#[verifier::rlimit(40)]
proof fn lemma_laid_out(p: ObjectPathView, negated: bool, op: ComparisonOp, lit: Literal)
    ensures
        laid_out(written_comparison(p, negated, op, lit), p, negated, op, lit),
{
    let s = written_comparison(p, negated, op, lit);
    let path = written_path(p);
    let not = written_not(negated);
    let sign = op.spelling();
    let text = lit.written();
    let inside = written_leaf(p, negated, op, lit);
    let n = s.len() as int;
    assert(s.subrange(0, n) =~= s);
    lemma_occurs_both(s, 0, seq!['['] + inside, seq![']']);
    lemma_occurs_both(s, 0, seq!['['], inside);
    lemma_occurs_both(s, 1, path + seq![' '] + not + sign + seq![' '], text);
    lemma_occurs_both(s, 1, path + seq![' '] + not + sign, seq![' ']);
    lemma_occurs_both(s, 1, path + seq![' '] + not, sign);
    lemma_occurs_both(s, 1, path + seq![' '], not);
    lemma_occurs_both(s, 1, path, seq![' ']);
    lemma_occurs(s, 0, seq!['[']);
    assert(s[0int + 0] == '[');
    let j: int = 1int + path.len();
    lemma_occurs(s, j, seq![' ']);
    assert(s[j + 0] == ' ');
    let e: int = j + 1 + not.len() + sign.len();
    lemma_occurs(s, e, seq![' ']);
    assert(s[e + 0] == ' ');
    let close: int = e + 1 + text.len();
    lemma_occurs(s, close, seq![']']);
    assert(s[close + 0] == ']');
}

/// What follows the path of a single comparison is read whole: `NOT` where
/// it stands, the operator, and the constant.
#[verifier::rlimit(40)]
proof fn lemma_compared_read(
    s: Seq<char>,
    p: ObjectPathView,
    negated: bool,
    op: ComparisonOp,
    lit: Literal,
)
    requires
        lit.valid(),
        laid_out(s, p, negated, op, lit),
    ensures
        grammar::compared(s, 1int + written_path(p).len(), path_tree(p)) == Ok::<
            (Tree, int),
            ParseErrorView,
        >((leaf_tree(p, negated, op, lit), s.len() - 1)),
        path_ends(s, 1int + written_path(p).len()),
{
    let not = written_not(negated);
    let sign = op.spelling();
    let text = lit.written();
    let j: int = 1int + written_path(p).len();
    let a: int = j + 1;
    let b: int = a + not.len();
    let e: int = b + sign.len();
    let from: int = e + 1;
    let close: int = from + text.len();
    reveal_strlit("NOT");
    lemma_operator_read(s, b, op);
    lemma_literal_begins(s, from, lit);
    if negated {
        lemma_occurs_both(s, a, "NOT"@, seq![' ']);
        lemma_occurs(s, a, "NOT"@);
        lemma_occurs(s, a + 3, seq![' ']);
        assert(s[a + 0] == 'N');
        assert(s[a + 3 + 0] == ' ');
        assert(keyword_at(s, a, "NOT"@));
        lemma_blank_skipped(s, a + 3);
        assert(s.subrange(a, a + 3) == "NOT"@);
    }
    assert(!is_blank(s[a]));
    lemma_blank_skipped(s, j);
    lemma_blank_skipped(s, e);
    lemma_constant_read(s, from, lit);
    assert(s.subrange(b, e) == sign);
    assert(grammar::value(s, from) == Ok::<(Tree, int), ParseErrorView>(
        (Tree::node(Rule::Value, seq![lit.token()]), close),
    ));
    assert(grammar::rhs(s, e) == Ok::<(Tree, int), ParseErrorView>(
        (Tree::node(Rule::Value, seq![lit.token()]), close),
    ));
}

/// One blank before something that is no blank is skipped.
proof fn lemma_blank_skipped(s: Seq<char>, i: int)
    requires
        0 <= i,
        i + 1 < s.len(),
        s[i] == ' ',
        !is_blank(s[i + 1]),
    ensures
        skip_blanks(s, i) == i + 1,
        skip_blanks(s, i + 1) == i + 1,
{
    reveal_with_fuel(run_end, 2);
}

/// An object type before its colon is not read as the keyword `EXISTS`.
proof fn lemma_not_exists(s: Seq<char>, i: int, object: Seq<char>)
    requires
        0 <= i,
        is_object_type(object),
        occurs(s, i, object),
        at(s, i + object.len(), ':'),
    ensures
        !keyword_at(s, i, "EXISTS"@),
        !is_blank(s[i]),
        s[i] != '(',
{
    reveal_strlit("EXISTS");
    lemma_occurs(s, i, object);
    assert(s[i + 0] == object[0]);
    if literal_at(s, i, "EXISTS"@) {
        lemma_occurs(s, i, "EXISTS"@);
        if object.len() > 6 {
            assert(s[i + 6] == object[6]);
            assert(CharClass::Word.holds(object[6]));
        } else if object.len() == 6 {
            assert(s.subrange(i, i + 6) == object);
            assert(false);
        } else {
            assert(s[i + object.len()] == "EXISTS"@[object.len() as int]);
            assert(false);
        }
    }
}

/// The type of the object stands where its path stands, before a colon.
proof fn lemma_object_stands(s: Seq<char>, i: int, p: ObjectPathView)
    requires
        occurs(s, i, written_path(p)),
    ensures
        occurs(s, i, p.object_type),
        at(s, i + p.object_type.len(), ':'),
{
    let object = p.object_type;
    lemma_occurs_both(s, i, object + seq![':'] + written_step(p.property_path[0]), written_steps(
        p.property_path.skip(1),
    ));
    lemma_occurs_both(s, i, object + seq![':'], written_step(p.property_path[0]));
    lemma_occurs_both(s, i, object, seq![':']);
    lemma_occurs(s, i + object.len(), seq![':']);
    assert(s[i + object.len() + 0] == ':');
}

/// A single comparison that stands between `[` and `]` is read whole, as
/// the node of the comparison.
#[verifier::rlimit(40)]
pub proof fn lemma_leaf_read(
    s: Seq<char>,
    p: ObjectPathView,
    negated: bool,
    op: ComparisonOp,
    lit: Literal,
)
    requires
        plain_path(p),
        lit.valid(),
        laid_out(s, p, negated, op, lit),
    ensures
        grammar::comp_term(s, 1, grammar::MAX_NESTING_DEPTH as nat) == Ok::<
            (Tree, int),
            ParseErrorView,
        >((leaf_tree(p, negated, op, lit), s.len() - 1)),
{
    lemma_compared_read(s, p, negated, op, lit);
    lemma_path_read(s, 1, p, Expected::Comparison);
    lemma_object_stands(s, 1, p);
    lemma_not_exists(s, 1, p.object_type);
    assert(skip_blanks(s, 1) == 1);
    assert(grammar::comparison(s, 1) == Ok::<(Tree, int), ParseErrorView>(
        (leaf_tree(p, negated, op, lit), s.len() - 1),
    ));
}

/// A single comparison is read as it is written. The text `[path op
/// constant]`, with `NOT` before the operator or without it, is parsed into
/// one comparison with that path, that operator, that constant and that
/// negation; or, where the constant is a timestamp in none of the accepted
/// forms, it is rejected for the timestamp.
pub proof fn law_written_comparison(
    p: ObjectPathView,
    negated: bool,
    op: ComparisonOp,
    lit: Literal,
)
    requires
        plain_path(p),
        lit.valid(),
    ensures
        meaning::parsed(written_comparison(p, negated, op, lit)) == match lit.value() {
            Ok(c) => Ok::<PatternView, ParseErrorView>(
                PatternView::Comparison(
                    ComparisonExprView::Single(
                        ComparisonView {
                            object_path: p,
                            op: ComparisonOperator::Comparison(op),
                            constant: Some(RhsView::Value(c)),
                            negated,
                        },
                    ),
                ),
            ),
            Err(e) => Err::<PatternView, ParseErrorView>(e),
        },
{
    let s = written_comparison(p, negated, op, lit);
    lemma_laid_out(p, negated, op, lit);
    lemma_leaf_read(s, p, negated, op, lit);
    lemma_single_read(s, leaf_tree(p, negated, op, lit));
    lemma_path_meaning(p);
    lemma_literal_value(lit);
    lemma_operator_rule(op);
    crate::laws::law_single_comparison(
        path_tree(p),
        negated,
        Tree::token(grammar::operator_rule(op), op.spelling()),
        Tree::node(Rule::Value, seq![lit.token()]),
        op,
    );
}

/// The rule of an operator stands for the operator.
proof fn lemma_operator_rule(op: ComparisonOp)
    ensures
        meaning::comp_op_of(grammar::operator_rule(op)) == Some(op),
{
}

/// The text of the pattern that is one test for existence: `[EXISTS path]`.
pub open spec fn written_existence(p: ObjectPathView) -> Seq<char> {
    seq!['['] + "EXISTS"@ + seq![' '] + written_path(p) + seq![']']
}

/// The text of a single comparison, of the text of its path and the text of
/// its constant: `[path op constant]`, or `[path NOT op constant]`.
pub open spec fn comparison_text(
    path: Seq<char>,
    negated: bool,
    op: ComparisonOp,
    constant: Seq<char>,
) -> Seq<char> {
    seq!['['] + (path + seq![' '] + written_not(negated) + op.spelling() + seq![' '] + constant)
        + seq![']']
}

/// Where the parts of a single comparison stand in its text.
pub open spec fn stands(
    s: Seq<char>,
    path: Seq<char>,
    negated: bool,
    op: ComparisonOp,
    constant: Seq<char>,
) -> bool {
    let j: int = 1int + path.len();
    let b: int = j + 1 + written_not(negated).len();
    let e: int = b + op.spelling().len();
    let close: int = e + 1 + constant.len();
    &&& s.len() == close + 1
    &&& s[0] == '['
    &&& s.subrange(1, j) == path
    &&& s[j] == ' '
    &&& occurs(s, j + 1, written_not(negated))
    &&& occurs(s, b, op.spelling())
    &&& s[e] == ' '
    &&& s.subrange(e + 1, close) == constant
    &&& s[close] == ']'
}

/// The text of a single comparison holds its parts one after the other.
#[verifier::rlimit(40)]
proof fn lemma_stands(path: Seq<char>, negated: bool, op: ComparisonOp, constant: Seq<char>)
    ensures
        stands(comparison_text(path, negated, op, constant), path, negated, op, constant),
{
    let s = comparison_text(path, negated, op, constant);
    let not = written_not(negated);
    let sign = op.spelling();
    let inside = path + seq![' '] + not + sign + seq![' '] + constant;
    let n = s.len() as int;
    assert(s.subrange(0, n) =~= s);
    lemma_occurs_both(s, 0, seq!['['] + inside, seq![']']);
    lemma_occurs_both(s, 0, seq!['['], inside);
    lemma_occurs_both(s, 1, path + seq![' '] + not + sign + seq![' '], constant);
    lemma_occurs_both(s, 1, path + seq![' '] + not + sign, seq![' ']);
    lemma_occurs_both(s, 1, path + seq![' '] + not, sign);
    lemma_occurs_both(s, 1, path + seq![' '], not);
    lemma_occurs_both(s, 1, path, seq![' ']);
    lemma_occurs(s, 0, seq!['[']);
    assert(s[0int + 0] == '[');
    let j: int = 1int + path.len();
    lemma_occurs(s, j, seq![' ']);
    assert(s[j + 0] == ' ');
    let e: int = j + 1 + not.len() + sign.len();
    lemma_occurs(s, e, seq![' ']);
    assert(s[e + 0] == ' ');
    let close: int = e + 1 + constant.len();
    lemma_occurs(s, close, seq![']']);
    assert(s[close + 0] == ']');
}

/// What follows the path of a single comparison is read whole, whatever the
/// text of the constant is that the grammar reads as a value.
#[verifier::rlimit(40)]
proof fn lemma_compared_text(
    s: Seq<char>,
    path: Seq<char>,
    negated: bool,
    op: ComparisonOp,
    constant: Seq<char>,
    pt: Tree,
    vt: Tree,
)
    requires
        stands(s, path, negated, op, constant),
        grammar::value(constant, 0) == Ok::<(Tree, int), ParseErrorView>((vt, constant.len() as int)),
    ensures
        grammar::compared(s, 1int + path.len(), pt) == Ok::<(Tree, int), ParseErrorView>(
            (
                crate::laws::leaf(
                    pt,
                    negated,
                    Tree::token(grammar::operator_rule(op), op.spelling()),
                    vt,
                ),
                s.len() - 1,
            ),
        ),
        crate::frame::path_follows(s, 1int + path.len()),
{
    let not = written_not(negated);
    let sign = op.spelling();
    let j: int = 1int + path.len();
    let a: int = j + 1;
    let b: int = a + not.len();
    let e: int = b + sign.len();
    let from: int = e + 1;
    let close: int = from + constant.len();
    reveal_strlit("NOT");
    lemma_operator_read(s, b, op);
    crate::frame::lemma_value_part(s, from, close, 0);
    if negated {
        lemma_occurs_both(s, a, "NOT"@, seq![' ']);
        lemma_occurs(s, a, "NOT"@);
        lemma_occurs(s, a + 3, seq![' ']);
        assert(s[a + 0] == 'N');
        assert(s[a + 3 + 0] == ' ');
        assert(keyword_at(s, a, "NOT"@));
        lemma_blank_skipped(s, a + 3);
        assert(s.subrange(a, a + 3) == "NOT"@);
    }
    assert(!is_blank(s[a]));
    lemma_blank_skipped(s, j);
    let start = skip_blanks(s, from);
    assert(skip_blanks(s, e) == start) by {
        reveal_with_fuel(run_end, 2);
    }
    assert(skip_blanks(s, start) == start) by {
        reveal_with_fuel(run_end, 2);
    }
    assert(s.subrange(b, e) == sign);
    assert(grammar::value(s, start) == grammar::value(s, from));
    assert(grammar::rhs(s, e) == Ok::<(Tree, int), ParseErrorView>((vt, close)));
}

/// The path of a single comparison is read whole, whatever its text is that
/// the grammar reads as a path, and the comparison with it.
#[verifier::rlimit(40)]
proof fn lemma_leaf_text(
    s: Seq<char>,
    path: Seq<char>,
    negated: bool,
    op: ComparisonOp,
    constant: Seq<char>,
    pt: Tree,
    vt: Tree,
)
    requires
        stands(s, path, negated, op, constant),
        grammar::path(path, 0, Expected::Comparison) == Ok::<(Tree, int), ParseErrorView>(
            (pt, path.len() as int),
        ),
        !keyword_at(path, skip_blanks(path, 0), "EXISTS"@),
        grammar::value(constant, 0) == Ok::<(Tree, int), ParseErrorView>((vt, constant.len() as int)),
    ensures
        grammar::comp_term(s, 1, grammar::MAX_NESTING_DEPTH as nat) == Ok::<
            (Tree, int),
            ParseErrorView,
        >(
            (
                crate::laws::leaf(
                    pt,
                    negated,
                    Tree::token(grammar::operator_rule(op), op.spelling()),
                    vt,
                ),
                s.len() - 1,
            ),
        ),
{
    let j: int = 1int + path.len();
    reveal_strlit("EXISTS");
    lemma_compared_text(s, path, negated, op, constant, pt, vt);
    crate::frame::lemma_path_part(s, 1, j, Expected::Comparison);
    let x = skip_blanks(path, 0);
    let start = skip_blanks(s, 1);
    crate::frame::lemma_keyword_part(s, 1, j, x, "EXISTS"@);
    assert(skip_blanks(s, start) == start) by {
        lemma_run_end(s, 1, CharClass::Blank);
        reveal_with_fuel(run_end, 2);
    }
    assert(grammar::path(s, start, Expected::Comparison) == grammar::path(
        s,
        1,
        Expected::Comparison,
    ));
    assert(grammar::comparison(s, start) == Ok::<(Tree, int), ParseErrorView>(
        (
            crate::laws::leaf(
                pt,
                negated,
                Tree::token(grammar::operator_rule(op), op.spelling()),
                vt,
            ),
            s.len() - 1,
        ),
    ));
}

/// A single comparison is read as its parts are read. Take any text that
/// the grammar reads as a path, any of the operators, and any text that the
/// grammar reads as a value. Then `[path op value]`, with `NOT` before the
/// operator or without it, is parsed into one comparison: it has the path
/// that the text of the path stands for, the operator, the constant that the
/// text of the value stands for, and is negated if and only if `NOT` is
/// there. Where the path holds an index that does not fit, or the value is an
/// integer that does not fit or a timestamp in none of the accepted forms,
/// the pattern is rejected for the first of them. The path may not begin
/// with the keyword `EXISTS`, which the grammar reads as the operator.
pub proof fn law_comparison_read(
    path: Seq<char>,
    negated: bool,
    op: ComparisonOp,
    constant: Seq<char>,
    pt: Tree,
    vt: Tree,
)
    requires
        grammar::path(path, 0, Expected::Comparison) == Ok::<(Tree, int), ParseErrorView>(
            (pt, path.len() as int),
        ),
        !keyword_at(path, skip_blanks(path, 0), "EXISTS"@),
        grammar::value(constant, 0) == Ok::<(Tree, int), ParseErrorView>((vt, constant.len() as int)),
    ensures
        meaning::parsed(comparison_text(path, negated, op, constant))
            == crate::laws::single_comparison(
            meaning::path_of(pt),
            negated,
            op,
            meaning::value_of(vt),
        ),
{
    let s = comparison_text(path, negated, op, constant);
    let o = Tree::token(grammar::operator_rule(op), op.spelling());
    lemma_stands(path, negated, op, constant);
    lemma_leaf_text(s, path, negated, op, constant, pt, vt);
    lemma_single_read(s, crate::laws::leaf(pt, negated, o, vt));
    crate::conformance::lemma_path_shaped(path, 0, Expected::Comparison);
    crate::conformance::lemma_value_shaped(constant, 0);
    lemma_operator_rule(op);
    crate::laws::law_single_comparison(pt, negated, o, vt, op);
}

/// The text of a test for existence, of the text of its path:
/// `[EXISTS path]`.
pub open spec fn existence_text(path: Seq<char>) -> Seq<char> {
    seq!['['] + "EXISTS"@ + seq![' '] + path + seq![']']
}

/// Where the parts of a test for existence stand in its text.
pub open spec fn existence_stands(s: Seq<char>, path: Seq<char>) -> bool {
    let close: int = 8int + path.len();
    &&& s.len() == close + 1
    &&& s[0] == '['
    &&& s.subrange(1, 7) == "EXISTS"@
    &&& s[7] == ' '
    &&& s.subrange(8, close) == path
    &&& s[close] == ']'
}

/// The text of a test for existence holds its parts one after the other.
#[verifier::rlimit(40)]
proof fn lemma_existence_stands(path: Seq<char>)
    ensures
        existence_stands(existence_text(path), path),
{
    let s = existence_text(path);
    let n = s.len() as int;
    reveal_strlit("EXISTS");
    assert(s.subrange(0, n) =~= s);
    lemma_occurs_both(s, 0, seq!['['] + "EXISTS"@ + seq![' '] + path, seq![']']);
    lemma_occurs_both(s, 0, seq!['['] + "EXISTS"@ + seq![' '], path);
    lemma_occurs_both(s, 0, seq!['['] + "EXISTS"@, seq![' ']);
    lemma_occurs_both(s, 0, seq!['['], "EXISTS"@);
    lemma_occurs(s, 0, seq!['[']);
    lemma_occurs(s, 7, seq![' ']);
    let close: int = 8int + path.len();
    lemma_occurs(s, close, seq![']']);
    assert(s[0int + 0] == '[');
    assert(s[7int + 0] == ' ');
    assert(s[close + 0] == ']');
}

/// A test for existence that stands between `[` and `]` is read whole.
#[verifier::rlimit(40)]
proof fn lemma_existence_term(s: Seq<char>, path: Seq<char>, pt: Tree)
    requires
        existence_stands(s, path),
        grammar::path(path, 0, Expected::Path) == Ok::<(Tree, int), ParseErrorView>(
            (pt, path.len() as int),
        ),
    ensures
        grammar::comp_term(s, 1, grammar::MAX_NESTING_DEPTH as nat) == Ok::<
            (Tree, int),
            ParseErrorView,
        >(
            (
                Tree::node(
                    Rule::Comparison,
                    seq![Tree::token(Rule::Exists, "EXISTS"@)].push(pt),
                ),
                s.len() - 1,
            ),
        ),
{
    let close: int = 8int + path.len();
    reveal_strlit("EXISTS");
    lemma_occurs(s, 1, "EXISTS"@);
    assert(s[1int + 0] == 'E');
    assert(skip_blanks(s, 1) == 1);
    assert(skip_blanks(s, close) == close);
    assert(crate::frame::path_follows(s, close));
    crate::frame::lemma_path_part(s, 8, close, Expected::Path);
    let start = skip_blanks(s, 8);
    assert(skip_blanks(s, 7) == start) by {
        reveal_with_fuel(run_end, 2);
    }
    assert(skip_blanks(s, start) == start) by {
        lemma_run_end(s, 8, CharClass::Blank);
        reveal_with_fuel(run_end, 2);
    }
    assert(grammar::path(s, 7, Expected::Path) == grammar::path(s, 8, Expected::Path));
    assert(keyword_at(s, 1, "EXISTS"@));
    assert(grammar::existence(s, 1) == Ok::<(Tree, int), ParseErrorView>(
        (
            Tree::node(Rule::Comparison, seq![Tree::token(Rule::Exists, "EXISTS"@)].push(pt)),
            close,
        ),
    ));
}

/// A test for existence is read as its path is read. Take any text that the
/// grammar reads as a path. Then `[EXISTS path]` is parsed into one
/// comparison with the path that the text stands for, the operator `EXISTS`
/// and no constant; or it is rejected for an index of the path that does not
/// fit.
pub proof fn law_existence_read(path: Seq<char>, pt: Tree)
    requires
        grammar::path(path, 0, Expected::Path) == Ok::<(Tree, int), ParseErrorView>(
            (pt, path.len() as int),
        ),
    ensures
        meaning::parsed(existence_text(path)) == match meaning::path_of(pt) {
            Ok(p) => Ok::<PatternView, ParseErrorView>(
                PatternView::Comparison(meaning::existence_of(p)),
            ),
            Err(e) => Err::<PatternView, ParseErrorView>(e),
        },
{
    let s = existence_text(path);
    let t = Tree::node(Rule::Comparison, seq![Tree::token(Rule::Exists, "EXISTS"@)].push(pt));
    lemma_existence_stands(path);
    lemma_existence_term(s, path, pt);
    lemma_single_read(s, t);
    crate::laws::lemma_single(t);
}

/// A test for existence is read as it is written. The text `[EXISTS path]`
/// is parsed into one comparison with that path, the operator `EXISTS` and
/// no constant.
pub proof fn law_written_existence(p: ObjectPathView)
    requires
        plain_path(p),
    ensures
        meaning::parsed(written_existence(p)) == Ok::<PatternView, ParseErrorView>(
            PatternView::Comparison(meaning::existence_of(p)),
        ),
{
    let path = written_path(p);
    assert(path.subrange(0, path.len() as int) =~= path);
    assert(skip_blanks(path, path.len() as int) == path.len());
    lemma_path_read(path, 0, p, Expected::Path);
    lemma_path_meaning(p);
    law_existence_read(path, path_tree(p));
}

} // verus!
