//! What a production reads in a part of the input, it reads in the input:
//! the path and the value productions look at nothing but their own text and
//! the first characters after it.

use vstd::prelude::*;
use crate::error::{Expected, ParseErrorView};
use crate::grammar::{
    constant, indexed, lemma_step_moves, number_end, path, quoted, step, steps_tail,
    token, value,
};
use crate::scan::{
    at, class_at, is_name_start, keyword_at, lemma_run_end, lemma_run_inside, literal_at,
    quote_end, run_end, skip_blanks, string_end, CharClass,
};
use crate::tree::{Rule, Tree};

verus! {

/// A run that reaches a position goes on from there.
pub proof fn lemma_run_joins(s: Seq<char>, k: int, b: int, class: CharClass)
    requires
        0 <= k <= b <= run_end(s, k, class),
        b <= s.len(),
    ensures
        run_end(s, k, class) == run_end(s, b, class),
    decreases b - k,
{
    if k < b {
        lemma_run_end(s, k, class);
        lemma_run_joins(s, k + 1, b, class);
    }
}

/// A run in a part of the input that ends before the end of the part ends
/// there in the input; one that reaches the end of the part goes on in the
/// input from there.
pub proof fn lemma_run_part(s: Seq<char>, a: int, b: int, i: int, class: CharClass)
    requires
        0 <= a <= b <= s.len(),
        0 <= i <= b - a,
    ensures
        run_end(s.subrange(a, b), i, class) < b - a ==> run_end(s, a + i, class) == a + run_end(
            s.subrange(a, b),
            i,
            class,
        ),
        run_end(s.subrange(a, b), i, class) >= b - a ==> run_end(s, a + i, class) == run_end(
            s,
            b,
            class,
        ),
        i <= run_end(s.subrange(a, b), i, class) <= b - a,
{
    lemma_run_inside(s, a, b, a + i, class);
    lemma_run_end(s, a + i, class);
    lemma_run_end(s.subrange(a, b), i, class);
    if run_end(s.subrange(a, b), i, class) >= b - a {
        lemma_run_joins(s, a + i, b, class);
    }
}

/// A quoted text in a part of the input that ends inside the part ends there
/// in the input.
pub proof fn lemma_quote_part(s: Seq<char>, a: int, b: int, i: int)
    requires
        0 <= a <= b <= s.len(),
        0 <= i <= b - a,
        quote_end(s.subrange(a, b), i) < b - a,
    ensures
        quote_end(s, a + i) == a + quote_end(s.subrange(a, b), i),
    decreases b - a - i,
{
    let part = s.subrange(a, b);
    if i < b - a {
        assert(part[i] == s[a + i]);
        if part[i] != '\'' {
            lemma_quote_part(s, a, b, i + 1);
        }
    }
}

/// The body of a string literal in a part of the input that ends inside the
/// part ends there in the input.
pub proof fn lemma_string_part(s: Seq<char>, a: int, b: int, i: int)
    requires
        0 <= a <= b <= s.len(),
        0 <= i <= b - a,
        string_end(s.subrange(a, b), i) < b - a,
    ensures
        string_end(s, a + i) == a + string_end(s.subrange(a, b), i),
    decreases b - a - i,
{
    let part = s.subrange(a, b);
    if i < b - a {
        assert(part[i] == s[a + i]);
        if part[i] != '\'' {
            if part[i] == '\\' && i + 1 < b - a {
                lemma_string_part(s, a, b, i + 2);
            } else {
                crate::scan::lemma_string_end(part, i + 1);
                lemma_string_part(s, a, b, i + 1);
            }
        }
    }
}

/// The text of a token in a part of the input is its text in the input.
pub proof fn lemma_token_part(s: Seq<char>, a: int, b: int, rule: Rule, from: int, to: int)
    requires
        0 <= a <= b <= s.len(),
        0 <= from <= to <= b - a,
    ensures
        token(s, rule, a + from, a + to) == token(s.subrange(a, b), rule, from, to),
{
    assert(s.subrange(a + from, a + to) =~= s.subrange(a, b).subrange(from, to));
}

/// A quoted token that is read in a part of the input is read in the input.
pub proof fn lemma_quoted_part(s: Seq<char>, a: int, b: int, rule: Rule, from: int)
    requires
        0 <= a <= b <= s.len(),
        0 <= from <= b - a,
        quoted(s.subrange(a, b), rule, from) is Ok,
    ensures
        quoted(s, rule, a + from) == match quoted(s.subrange(a, b), rule, from) {
            Ok((t, end)) => Ok::<(Tree, int), ParseErrorView>((t, a + end)),
            Err(e) => Err::<(Tree, int), ParseErrorView>(e),
        },
{
    let part = s.subrange(a, b);
    if rule == Rule::String {
        crate::scan::lemma_string_end(part, from);
        lemma_string_part(s, a, b, from);
        lemma_token_part(s, a, b, rule, from, string_end(part, from));
    } else {
        crate::scan::lemma_quote_end(part, from);
        lemma_quote_part(s, a, b, from);
        lemma_token_part(s, a, b, rule, from, quote_end(part, from));
    }
}

/// A number that fills the rest of a part of the input, before `]`, is read
/// in the input as in the part.
#[verifier::rlimit(40)]
pub proof fn lemma_number_part(s: Seq<char>, a: int, b: int, i: int, signed: bool)
    requires
        0 <= a <= b < s.len(),
        0 <= i <= b - a,
        s[b] == ']',
        number_end(s.subrange(a, b), i, signed) matches Some((_, end)) && end == b - a,
    ensures
        number_end(s.subrange(a, b), i, signed) matches Some((rule, _)) && number_end(
            s,
            a + i,
            signed,
        ) == Some((rule, b)),
{
    let part = s.subrange(a, b);
    let from = if signed && (at(part, i, '+') || at(part, i, '-')) {
        i + 1
    } else {
        i
    };
    if i < b - a {
        assert(part[i] == s[a + i]);
    }
    lemma_run_part(s, a, b, from, CharClass::Digit);
    let point = run_end(part, from, CharClass::Digit);
    assert(run_end(s, b, CharClass::Digit) == b);
    if point < b - a {
        assert(part[point] == s[a + point]);
        assert(part[point + 1] == s[a + point + 1]);
        lemma_run_part(s, a, b, point + 1, CharClass::Digit);
    }
}

/// A constant that fills the rest of a part of the input, before `]`, is
/// read in the input as in the part.
#[verifier::rlimit(40)]
pub proof fn lemma_constant_part(s: Seq<char>, a: int, b: int, i: int)
    requires
        0 <= a <= b < s.len(),
        0 <= i <= b - a,
        s[b] == ']',
        constant(s.subrange(a, b), i) matches Ok((_, end)) && end == b - a,
    ensures
        constant(s, a + i) == Ok::<(Tree, int), ParseErrorView>(
            (constant(s.subrange(a, b), i)->Ok_0.0, b),
        ),
        skip_blanks(s.subrange(a, b), i) < b - a,
        skip_blanks(s, a + i) == a + skip_blanks(s.subrange(a, b), i),
        s[skip_blanks(s, a + i)] != '(',
{
    let part = s.subrange(a, b);
    let x = skip_blanks(part, i);
    reveal_strlit("true");
    reveal_strlit("false");
    lemma_run_part(s, a, b, i, CharClass::Blank);
    assert(x < b - a);
    assert(part[x] == s[a + x]);
    if x + 1 < b - a {
        assert(part[x + 1] == s[a + x + 1]);
    }
    if at(part, x, '\'') {
        lemma_quoted_part(s, a, b, Rule::String, x + 1);
    } else if crate::grammar::marked(part[x]) is Some && at(part, x + 1, '\'') {
        lemma_quoted_part(s, a, b, crate::grammar::marked(part[x])->0, x + 2);
    } else {
        lemma_keyword_part(s, a, b, x, "true"@);
        lemma_keyword_part(s, a, b, x, "false"@);
        if keyword_at(part, x, "true"@) {
            assert(part.subrange(x, x + 4)[0] == part[x]);
            lemma_token_part(s, a, b, Rule::Bool, x, x + 4);
        } else if keyword_at(part, x, "false"@) {
            assert(part.subrange(x, x + 5)[0] == part[x]);
            lemma_token_part(s, a, b, Rule::Bool, x, x + 5);
        } else {
            lemma_number_part(s, a, b, x, true);
            if part[x] == '(' {
                assert(run_end(part, x, CharClass::Digit) == x);
                assert(number_end(part, x, true) is None);
            }
            match number_end(part, x, true) {
                Some((rule, _)) => lemma_token_part(s, a, b, rule, x, b - a),
                None => {},
            }
        }
    }
}

/// A keyword stands at a position of a part of the input if and only if it
/// stands there in the input, where what follows the part is no character
/// of a word.
pub proof fn lemma_keyword_part(s: Seq<char>, a: int, b: int, x: int, keyword: Seq<char>)
    requires
        0 <= a <= b < s.len(),
        0 <= x < b - a,
        !CharClass::Word.holds(s[b]),
        keyword.len() > 0,
        forall|k: int| 0 <= k < keyword.len() ==> #[trigger] keyword[k] != s[b],
    ensures
        keyword_at(s, a + x, keyword) == keyword_at(s.subrange(a, b), x, keyword),
{
    let part = s.subrange(a, b);
    let n = keyword.len() as int;
    if x + n <= b - a {
        assert(s.subrange(a + x, a + x + n) =~= part.subrange(x, x + n));
        if x + n < b - a {
            assert(part[x + n] == s[a + x + n]);
        }
    } else {
        if literal_at(s, a + x, keyword) {
            assert(s.subrange(a + x, a + x + n)[b - a - x] == s[b]);
            assert(keyword[b - a - x] != s[b]);
        }
    }
}

/// A value that fills a part of the input, before `]`, is read in the input
/// as in the part.
pub proof fn lemma_value_part(s: Seq<char>, a: int, b: int, i: int)
    requires
        0 <= a <= b < s.len(),
        0 <= i <= b - a,
        s[b] == ']',
        value(s.subrange(a, b), i) matches Ok((_, end)) && end == b - a,
    ensures
        value(s, a + i) == Ok::<(Tree, int), ParseErrorView>(
            (value(s.subrange(a, b), i)->Ok_0.0, b),
        ),
        skip_blanks(s, a + i) < b,
        s[skip_blanks(s, a + i)] != '(',
        !crate::scan::is_blank(s[skip_blanks(s, a + i)]),
{
    lemma_constant_part(s, a, b, i);
    lemma_run_end(s, a + i, CharClass::Blank);
}

/// What may follow a path: something that does not go on with the last
/// name, and after blanks neither an index nor another step.
pub open spec fn path_follows(s: Seq<char>, b: int) -> bool {
    !class_at(s, b, CharClass::Name) && !at(s, skip_blanks(s, b), '[') && !at(
        s,
        skip_blanks(s, b),
        '.',
    )
}

/// The index of a step that is read in a part of the input is read in the
/// input.
#[verifier::rlimit(40)]
pub proof fn lemma_indexed_part(s: Seq<char>, a: int, b: int, i: int, property: Tree)
    requires
        0 <= a <= b <= s.len(),
        0 <= i <= b - a,
        !at(s, skip_blanks(s, b), '['),
        indexed(s.subrange(a, b), i, property) is Ok,
    ensures
        indexed(s, a + i, property) == match indexed(s.subrange(a, b), i, property) {
            Ok((t, end)) => Ok::<(Tree, int), ParseErrorView>((t, a + end)),
            Err(e) => Err::<(Tree, int), ParseErrorView>(e),
        },
{
    let part = s.subrange(a, b);
    let x = skip_blanks(part, i);
    lemma_run_part(s, a, b, i, CharClass::Blank);
    if x < b - a {
        assert(part[x] == s[a + x]);
        if part[x] == '[' {
            let y = skip_blanks(part, x + 1);
            lemma_run_part(s, a, b, x + 1, CharClass::Blank);
            let end = if at(part, y, '*') {
                y + 1
            } else {
                run_end(part, y, CharClass::Digit)
            };
            lemma_run_part(s, a, b, y, CharClass::Digit);
            assert(y < b - a);
            assert(part[y] == s[a + y]);
            let c = skip_blanks(part, end);
            lemma_run_part(s, a, b, end, CharClass::Blank);
            assert(c < b - a);
            assert(part[c] == s[a + c]);
            lemma_token_part(s, a, b, Rule::Index, y, end);
        }
    }
}

/// A step that is read in a part of the input is read in the input.
#[verifier::rlimit(40)]
pub proof fn lemma_step_part(s: Seq<char>, a: int, b: int, i: int)
    requires
        0 <= a <= b <= s.len(),
        0 <= i <= b - a,
        !class_at(s, b, CharClass::Name),
        !at(s, skip_blanks(s, b), '['),
        step(s.subrange(a, b), i) is Ok,
    ensures
        step(s, a + i) == match step(s.subrange(a, b), i) {
            Ok((t, end)) => Ok::<(Tree, int), ParseErrorView>((t, a + end)),
            Err(e) => Err::<(Tree, int), ParseErrorView>(e),
        },
{
    let part = s.subrange(a, b);
    let x = skip_blanks(part, i);
    lemma_run_part(s, a, b, i, CharClass::Blank);
    assert(x < b - a);
    assert(part[x] == s[a + x]);
    if at(part, x, '\'') {
        let end = quote_end(part, x + 1);
        crate::scan::lemma_quote_end(part, x + 1);
        lemma_quote_part(s, a, b, x + 1);
        lemma_token_part(s, a, b, Rule::Property, x, end + 1);
        lemma_indexed_part(s, a, b, end + 1, token(part, Rule::Property, x, end + 1));
    } else {
        let end = run_end(part, x, CharClass::Name);
        lemma_run_part(s, a, b, x, CharClass::Name);
        assert(run_end(s, b, CharClass::Name) == b);
        lemma_token_part(s, a, b, Rule::Property, x, end);
        lemma_indexed_part(s, a, b, end, token(part, Rule::Property, x, end));
    }
}

/// The steps that fill the rest of a part of the input are read in the
/// input as in the part.
#[verifier::rlimit(40)]
pub proof fn lemma_steps_part(s: Seq<char>, a: int, b: int, i: int, items: Seq<Tree>)
    requires
        0 <= a <= b <= s.len(),
        0 <= i <= b - a,
        path_follows(s, b),
        steps_tail(s.subrange(a, b), i, items) matches Ok((_, end)) && end == b - a,
    ensures
        steps_tail(s, a + i, items) == Ok::<(Tree, int), ParseErrorView>(
            (steps_tail(s.subrange(a, b), i, items)->Ok_0.0, b),
        ),
    decreases b - a - i,
{
    let part = s.subrange(a, b);
    let x = skip_blanks(part, i);
    lemma_run_part(s, a, b, i, CharClass::Blank);
    if at(part, x, '.') {
        assert(part[x] == s[a + x]);
        lemma_step_moves(part, x + 1);
        match step(part, x + 1) {
            Ok((t, end)) => {
                lemma_step_part(s, a, b, x + 1);
                lemma_steps_part(s, a, b, end, items.push(t));
            },
            Err(_) => {},
        }
    } else {
        if x < b - a {
            assert(part[x] == s[a + x]);
        }
    }
}

/// A path that fills a part of the input is read in the input as in the
/// part, where what follows the part cannot go on with the path.
#[verifier::rlimit(40)]
pub proof fn lemma_path_part(s: Seq<char>, a: int, b: int, what: Expected)
    requires
        0 <= a <= b <= s.len(),
        path_follows(s, b),
        path(s.subrange(a, b), 0, what) matches Ok((_, end)) && end == b - a,
    ensures
        path(s, a, what) == Ok::<(Tree, int), ParseErrorView>(
            (path(s.subrange(a, b), 0, what)->Ok_0.0, b),
        ),
        skip_blanks(s, a) == a + skip_blanks(s.subrange(a, b), 0),
        skip_blanks(s.subrange(a, b), 0) < b - a,
        is_name_start(s[skip_blanks(s, a)]),
{
    let part = s.subrange(a, b);
    let x = skip_blanks(part, 0);
    lemma_run_part(s, a, b, 0, CharClass::Blank);
    assert(x < b - a);
    assert(part[x] == s[a + x]);
    let end = run_end(part, x, CharClass::Word);
    lemma_run_part(s, a, b, x, CharClass::Word);
    let colon = skip_blanks(part, end);
    lemma_run_part(s, a, b, end, CharClass::Blank);
    assert(colon < b - a);
    assert(part[colon] == s[a + colon]);
    lemma_step_moves(part, colon + 1);
    match step(part, colon + 1) {
        Ok((t, after)) => {
            lemma_step_part(s, a, b, colon + 1);
            lemma_token_part(s, a, b, Rule::Object, x, end);
            lemma_steps_part(s, a, b, after, seq![token(part, Rule::Object, x, end)].push(t));
        },
        Err(_) => {},
    }
}

} // verus!
