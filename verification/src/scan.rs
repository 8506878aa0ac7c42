//! Characters and runs of characters: the lexical ground of the grammar.

use vstd::prelude::*;

verus! {

/// The classes of characters that the grammar tells apart.
#[derive(Debug, Clone, Copy, PartialEq, Eq, Structural)]
pub enum CharClass {
    /// Space, tab, line feed, carriage return.
    Blank,
    /// `0` to `9`.
    Digit,
    /// What a property name is made of: letters, digits, `_`.
    Name,
    /// What an object type is made of: letters, digits, `_`, `-`.
    Word,
}

/// Space, tab, line feed or carriage return.
pub open spec fn is_blank(c: char) -> bool {
    c == ' ' || c == '\t' || c == '\n' || c == '\r'
}

/// `0` to `9`.
pub open spec fn is_digit(c: char) -> bool {
    '0' <= c <= '9'
}

/// `a` to `z` or `A` to `Z`.
pub open spec fn is_letter(c: char) -> bool {
    'a' <= c <= 'z' || 'A' <= c <= 'Z'
}

/// Whether a name or an object type may begin with the character.
pub open spec fn is_name_start(c: char) -> bool {
    is_letter(c) || c == '_'
}

impl CharClass {
    /// Whether the character belongs to the class.
    pub open spec fn holds(self, c: char) -> bool {
        match self {
            CharClass::Blank => is_blank(c),
            CharClass::Digit => is_digit(c),
            CharClass::Name => is_letter(c) || is_digit(c) || c == '_',
            CharClass::Word => is_letter(c) || is_digit(c) || c == '_' || c == '-',
        }
    }

    /// Whether the character belongs to the class.
    pub fn contains(&self, c: char) -> (b: bool)
        ensures
            b == self.holds(c),
    {
        let letter = ('a' <= c && c <= 'z') || ('A' <= c && c <= 'Z');
        let digit = '0' <= c && c <= '9';
        match self {
            CharClass::Blank => c == ' ' || c == '\t' || c == '\n' || c == '\r',
            CharClass::Digit => digit,
            CharClass::Name => letter || digit || c == '_',
            CharClass::Word => letter || digit || c == '_' || c == '-',
        }
    }
}

/// Whether the character `c` stands at position `i`.
pub open spec fn at(s: Seq<char>, i: int, c: char) -> bool {
    0 <= i < s.len() && s[i] == c
}

/// Whether a character of the class stands at position `i`.
pub open spec fn class_at(s: Seq<char>, i: int, class: CharClass) -> bool {
    0 <= i < s.len() && class.holds(s[i])
}

/// Where the run of characters of one class that begins at `i` ends: the
/// first position from `i` on that holds no character of the class.
pub open spec fn run_end(s: Seq<char>, i: int, class: CharClass) -> int
    decreases s.len() - i,
{
    if class_at(s, i, class) {
        run_end(s, i + 1, class)
    } else {
        i
    }
}

/// The first position from `i` on that holds no blank.
pub open spec fn skip_blanks(s: Seq<char>, i: int) -> int {
    run_end(s, i, CharClass::Blank)
}

/// Where the quoted text that begins at `i` ends: the first position from
/// `i` on that holds a quote, or the end of the input.
pub open spec fn quote_end(s: Seq<char>, i: int) -> int
    decreases s.len() - i,
{
    if 0 <= i < s.len() && s[i] != '\'' {
        quote_end(s, i + 1)
    } else {
        i
    }
}

/// Where the body of the string literal that begins at `i` ends: the first
/// position from `i` on that holds a quote with no backslash before it to
/// escape it, or the end of the input.
pub open spec fn string_end(s: Seq<char>, i: int) -> int
    decreases s.len() - i,
{
    if 0 <= i < s.len() && s[i] != '\'' {
        if s[i] == '\\' && i + 1 < s.len() {
            string_end(s, i + 2)
        } else {
            string_end(s, i + 1)
        }
    } else {
        i
    }
}

/// Whether the characters of `lit` stand at position `i`.
pub open spec fn literal_at(s: Seq<char>, i: int, lit: Seq<char>) -> bool {
    0 <= i && i + lit.len() <= s.len() && s.subrange(i, i + lit.len()) == lit
}

/// Whether the keyword stands at position `i`: its characters, and after
/// them nothing that would make a longer word of it.
pub open spec fn keyword_at(s: Seq<char>, i: int, keyword: Seq<char>) -> bool {
    literal_at(s, i, keyword) && !class_at(s, i + keyword.len(), CharClass::Word)
}

/// A run of a class lies inside the input and holds only that class.
pub proof fn lemma_run_end(s: Seq<char>, i: int, class: CharClass)
    requires
        0 <= i <= s.len(),
    ensures
        i <= run_end(s, i, class) <= s.len(),
        forall|k: int| i <= k < run_end(s, i, class) ==> class.holds(#[trigger] s[k]),
        !class_at(s, run_end(s, i, class), class),
    decreases s.len() - i,
{
    if class_at(s, i, class) {
        lemma_run_end(s, i + 1, class);
    }
}

/// A run inside a part of the input ends where it ends in the input, or at
/// the end of the part if that comes first.
pub proof fn lemma_run_inside(s: Seq<char>, a: int, end: int, k: int, class: CharClass)
    requires
        0 <= a <= k <= end <= s.len(),
    ensures
        run_end(s.subrange(a, end), k - a, class) == (if run_end(s, k, class) < end {
            run_end(s, k, class)
        } else {
            end
        }) - a,
    decreases end - k,
{
    let part = s.subrange(a, end);
    lemma_run_end(s, k, class);
    if k < end {
        assert(part[k - a] == s[k]);
        if class.holds(s[k]) {
            lemma_run_inside(s, a, end, k + 1, class);
        }
    }
}

/// A quoted text ends inside the input, and holds no quote.
pub proof fn lemma_quote_end(s: Seq<char>, i: int)
    requires
        0 <= i <= s.len(),
    ensures
        i <= quote_end(s, i) <= s.len(),
        forall|k: int| i <= k < quote_end(s, i) ==> #[trigger] s[k] != '\'',
        quote_end(s, i) < s.len() ==> s[quote_end(s, i)] == '\'',
    decreases s.len() - i,
{
    if i < s.len() && s[i] != '\'' {
        lemma_quote_end(s, i + 1);
    }
}

/// The body of a string literal ends inside the input.
pub proof fn lemma_string_end(s: Seq<char>, i: int)
    requires
        0 <= i <= s.len(),
    ensures
        i <= string_end(s, i) <= s.len(),
        string_end(s, i) < s.len() ==> s[string_end(s, i)] == '\'',
    decreases s.len() - i,
{
    if i < s.len() && s[i] != '\'' {
        if s[i] == '\\' && i + 1 < s.len() {
            lemma_string_end(s, i + 2);
        } else {
            lemma_string_end(s, i + 1);
        }
    }
}

/// The end of the run of characters of one class that begins at `i`.
pub fn scan_run(src: &Vec<char>, i: usize, class: CharClass) -> (end: usize)
    requires
        i <= src.len(),
    ensures
        end == run_end(src@, i as int, class),
        i <= end <= src.len(),
{
    let mut k: usize = i;
    while k < src.len() && class.contains(src[k])
        invariant
            i <= k <= src.len(),
            run_end(src@, i as int, class) == run_end(src@, k as int, class),
        decreases src.len() - k,
    {
        k += 1;
    }
    k
}

/// The first position from `i` on that holds no blank.
pub fn scan_blanks(src: &Vec<char>, i: usize) -> (end: usize)
    requires
        i <= src.len(),
    ensures
        end == skip_blanks(src@, i as int),
        i <= end <= src.len(),
{
    scan_run(src, i, CharClass::Blank)
}

/// The end of the quoted text that begins at `i`.
pub fn scan_quoted(src: &Vec<char>, i: usize) -> (end: usize)
    requires
        i <= src.len(),
    ensures
        end == quote_end(src@, i as int),
        i <= end <= src.len(),
{
    let mut k: usize = i;
    while k < src.len() && src[k] != '\''
        invariant
            i <= k <= src.len(),
            quote_end(src@, i as int) == quote_end(src@, k as int),
        decreases src.len() - k,
    {
        k += 1;
    }
    k
}

/// The end of the body of the string literal that begins at `i`.
pub fn scan_string(src: &Vec<char>, i: usize) -> (end: usize)
    requires
        i <= src.len(),
    ensures
        end == string_end(src@, i as int),
        i <= end <= src.len(),
{
    let mut k: usize = i;
    while k < src.len() && src[k] != '\''
        invariant
            i <= k <= src.len(),
            string_end(src@, i as int) == string_end(src@, k as int),
        decreases src.len() - k,
    {
        if src[k] == '\\' && k + 1 < src.len() {
            k += 2;
        } else {
            k += 1;
        }
    }
    k
}

/// Whether the character `c` stands at position `i`.
pub fn has_char(src: &Vec<char>, i: usize, c: char) -> (b: bool)
    ensures
        b == at(src@, i as int, c),
{
    i < src.len() && src[i] == c
}

/// Whether a character of the class stands at position `i`.
pub fn has_class(src: &Vec<char>, i: usize, class: CharClass) -> (b: bool)
    ensures
        b == class_at(src@, i as int, class),
{
    i < src.len() && class.contains(src[i])
}

/// Where the characters of `lit` end if they stand at position `i`.
pub fn scan_literal(src: &Vec<char>, i: usize, lit: &str) -> (end: Option<usize>)
    requires
        i <= src.len(),
    ensures
        end is Some == literal_at(src@, i as int, lit@),
        end matches Some(j) ==> j == i + lit@.len(),
{
    let mut k: usize = i;
    for c in it: lit.chars()
        invariant
            it.seq() == lit@,
            i <= k <= src.len(),
            k == i + it.index(),
            src@.subrange(i as int, k as int) == lit@.take(it.index()),
    {
        if k >= src.len() || src[k] != c {
            proof {
                if literal_at(src@, i as int, lit@) {
                    assert(src@.subrange(i as int, i + lit@.len())[k - i] == lit@[k - i]);
                }
            }
            return None;
        }
        proof {
            assert(src@.subrange(i as int, k + 1) =~= lit@.take(it.index() + 1));
        }
        k += 1;
    }
    assert(lit@.take(lit@.len() as int) =~= lit@);
    Some(k)
}

/// Where the keyword ends if it stands at position `i`.
pub fn scan_keyword(src: &Vec<char>, i: usize, keyword: &str) -> (end: Option<usize>)
    requires
        i <= src.len(),
    ensures
        end is Some == keyword_at(src@, i as int, keyword@),
        end matches Some(j) ==> j == i + keyword@.len(),
{
    match scan_literal(src, i, keyword) {
        Some(j) => if has_class(src, j, CharClass::Word) {
            None
        } else {
            Some(j)
        },
        None => None,
    }
}

} // verus!
