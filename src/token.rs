use vstd::prelude::*;
use crate::error::ParseError;
use crate::text::{
    back_whitespace, back_ws, chars_of, is_ws, find_char, find_in, lemma_back_ws_bounds,
    lemma_find_in_bounds, lemma_skip_ws_bounds, skip_whitespace, skip_ws, trimmed,
};

verus! {

/// What one line of text means, as a mathematical value.
pub ghost enum LineKind {
    Blank,
    Comment(Seq<char>),
    KeyValue { key: Seq<char>, value: Seq<char>, ignore_error: bool },
    Invalid,
}

/// Where the line that starts at `i` ends: the next `\n`, or the end of `s`.
pub open spec fn line_break(s: Seq<char>, i: int) -> int {
    find_in(s, '\n', i, s.len() as int)
}

/// End of the line's own text: a `\r` just before its `\n` is dropped.
pub open spec fn line_end(s: Seq<char>, i: int) -> int {
    let e = line_break(s, i);
    if e < s.len() && e > i && s[e - 1] == '\r' {
        e - 1
    } else {
        e
    }
}

/// The lines of `s` from index `i` on, each as its range `[start, end)`.
/// A `\n` ends a line; a final `\n` opens no further line.
pub open spec fn lines_from(s: Seq<char>, i: int) -> Seq<(int, int)>
    decreases s.len() + 1 - i,
    via lines_from_decreases
{
    if i < 0 || i >= s.len() {
        seq![]
    } else {
        seq![(i, line_end(s, i))] + lines_from(s, line_break(s, i) + 1)
    }
}

#[via_fn]
proof fn lines_from_decreases(s: Seq<char>, i: int) {
    if 0 <= i < s.len() {
        lemma_find_in_bounds(s, '\n', i, s.len() as int);
    }
}

pub open spec fn lines(s: Seq<char>) -> Seq<(int, int)> {
    lines_from(s, 0)
}

/// The meaning of the line of `s` in `[lo, hi)`.
pub open spec fn classify(s: Seq<char>, lo: int, hi: int) -> LineKind {
    let a = skip_ws(s, lo, hi);
    let b = back_ws(s, a, hi);
    if a == b {
        LineKind::Blank
    } else if s[a] == '#' || s[a] == ';' {
        LineKind::Comment(s.subrange(a, b))
    } else {
        let soft = s[a] == '-';
        let start = if soft { a + 1 } else { a };
        let p = find_in(s, '=', start, b);
        if p == b {
            LineKind::Invalid
        } else {
            LineKind::KeyValue {
                key: trimmed(s, start, p),
                value: trimmed(s, p + 1, b),
                ignore_error: soft,
            }
        }
    }
}

/// The meaning of each line of `s`, in order.
pub open spec fn line_kinds(s: Seq<char>) -> Seq<LineKind> {
    lines(s).map_values(|r: (int, int)| classify(s, r.0, r.1))
}

/// Every line of `s` is blank, a comment or a key-value line.
pub open spec fn all_lines_valid(s: Seq<char>) -> bool {
    forall|i: int| 0 <= i < line_kinds(s).len() ==> line_kinds(s)[i] != LineKind::Invalid
}

/// Line `k` (0-based) is the first line of `s` that is not valid.
pub open spec fn first_invalid(s: Seq<char>, k: int) -> bool {
    &&& 0 <= k < line_kinds(s).len()
    &&& line_kinds(s)[k] == LineKind::Invalid
    &&& forall|j: int| 0 <= j < k ==> line_kinds(s)[j] != LineKind::Invalid
}

/// The text of line `k` (0-based) of `s`, as it stands.
pub open spec fn line_text(s: Seq<char>, k: int) -> Seq<char> {
    s.subrange(lines(s)[k].0, lines(s)[k].1)
}

/// What the tokenizer reports for `s` when some line is not valid.
pub open spec fn invalid_line_error(s: Seq<char>, e: ParseError) -> bool {
    match e {
        ParseError::InvalidLine { line_number, content } => {
            &&& first_invalid(s, line_number - 1)
            &&& content@ == line_text(s, line_number - 1)
        },
        ParseError::InvalidType { .. } => false,
    }
}

pub proof fn lemma_lines_from_bounds(s: Seq<char>, i: int)
    requires
        0 <= i,
    ensures
        forall|j: int|
            0 <= j < lines_from(s, i).len() ==> {
                &&& i <= (#[trigger] lines_from(s, i)[j]).0
                &&& lines_from(s, i)[j].0 <= lines_from(s, i)[j].1 <= s.len()
            },
    decreases s.len() + 1 - i,
{
    if i < s.len() {
        let e = line_break(s, i);
        lemma_find_in_bounds(s, '\n', i, s.len() as int);
        lemma_lines_from_bounds(s, e + 1);
        let rest = lines_from(s, e + 1);
        assert forall|j: int| 0 < j < lines_from(s, i).len() implies lines_from(s, i)[j] == rest[j
            - 1] by {}
    }
}

/// Each line of `s` is a range `[lo, hi)` within `s`.
pub proof fn lemma_lines_bounds(s: Seq<char>)
    ensures
        forall|j: int|
            0 <= j < lines(s).len() ==> 0 <= (#[trigger] lines(s)[j]).0 <= lines(s)[j].1 <= s.len(),
{
    lemma_lines_from_bounds(s, 0);
}

/// The line in `[lo, hi)` is blank, a comment, or holds a `=` somewhere.
pub open spec fn blank_comment_or_assignment(s: Seq<char>, lo: int, hi: int) -> bool {
    let t = trimmed(s, lo, hi);
    ||| t.len() == 0
    ||| t[0] == '#'
    ||| t[0] == ';'
    ||| exists|k: int| lo <= k < hi && s[k] == '='
}

/// A line that is blank, a comment, or holds a `=` is valid.
pub proof fn lemma_line_with_equals_is_valid(s: Seq<char>, lo: int, hi: int)
    requires
        0 <= lo <= hi <= s.len(),
        blank_comment_or_assignment(s, lo, hi),
    ensures
        classify(s, lo, hi) != LineKind::Invalid,
{
    let a = skip_ws(s, lo, hi);
    lemma_skip_ws_bounds(s, lo, hi);
    let b = back_ws(s, a, hi);
    lemma_back_ws_bounds(s, a, hi);
    if a != b && !(s[a] == '#' || s[a] == ';') {
        assert(trimmed(s, lo, hi)[0] == s[a]);
        let k = choose|k: int| lo <= k < hi && s[k] == '=';
        assert(!is_ws('='));
        assert(a <= k < b);
        let start = if s[a] == '-' { a + 1 } else { a };
        lemma_find_in_bounds(s, '=', start, b);
        assert(find_in(s, '=', start, b) < b);
    }
}

/// Text in which every line that is neither blank nor a comment holds a `=`
/// is accepted by the tokenizer, and so by `Config::parse`.
pub proof fn lemma_text_with_equals_is_valid(s: Seq<char>)
    requires
        forall|i: int|
            0 <= i < lines(s).len() ==> blank_comment_or_assignment(
                s,
                (#[trigger] lines(s)[i]).0,
                lines(s)[i].1,
            ),
    ensures
        all_lines_valid(s),
{
    lemma_lines_bounds(s);
    assert forall|i: int| 0 <= i < line_kinds(s).len() implies line_kinds(s)[i]
        != LineKind::Invalid by {
        lemma_line_with_equals_is_valid(s, lines(s)[i].0, lines(s)[i].1);
    }
}

/// A line whose trimmed text starts with `#` or `;` is a comment, whatever
/// follows, even text that reads like `key = value`.
pub proof fn lemma_marked_line_is_comment(s: Seq<char>, lo: int, hi: int)
    requires
        0 <= lo <= hi <= s.len(),
        trimmed(s, lo, hi).len() > 0,
        trimmed(s, lo, hi)[0] == '#' || trimmed(s, lo, hi)[0] == ';',
    ensures
        classify(s, lo, hi) == LineKind::Comment(trimmed(s, lo, hi)),
{
    lemma_skip_ws_bounds(s, lo, hi);
    lemma_back_ws_bounds(s, skip_ws(s, lo, hi), hi);
}

/// One classified line.
#[derive(Debug)]
pub enum Token {
    Comment(String),
    BlankLine,
    KeyValue { key: String, value: String, ignore_error: bool },
}

impl View for Token {
    type V = LineKind;

    open spec fn view(&self) -> LineKind {
        match self {
            Token::Comment(c) => LineKind::Comment(c@),
            Token::BlankLine => LineKind::Blank,
            Token::KeyValue { key, value, ignore_error } => LineKind::KeyValue {
                key: key@,
                value: value@,
                ignore_error: *ignore_error,
            },
        }
    }
}

/// The tokens of a text, one per line.
#[derive(Debug)]
pub struct Tokens {
    pub tokens: Vec<Token>,
}

/// Classifies the line of `content` in `[lo, hi)`; `None` when it is not valid.
fn classify_line(content: &str, cs: &Vec<char>, lo: usize, hi: usize) -> (r: Option<Token>)
    requires
        cs@ == content@,
        lo <= hi <= cs@.len(),
    ensures
        match r {
            Some(t) => t@ == classify(cs@, lo as int, hi as int),
            None => classify(cs@, lo as int, hi as int) == LineKind::Invalid,
        },
{
    let a = skip_whitespace(cs, lo, hi);
    proof {
        lemma_skip_ws_bounds(cs@, lo as int, hi as int);
    }
    let b = back_whitespace(cs, a, hi);
    proof {
        lemma_back_ws_bounds(cs@, a as int, hi as int);
    }
    if a == b {
        return Some(Token::BlankLine);
    }
    if cs[a] == '#' || cs[a] == ';' {
        return Some(Token::Comment(content.substring_char(a, b).to_owned()));
    }
    let soft = cs[a] == '-';
    let start = if soft { a + 1 } else { a };
    let p = find_char(cs, '=', start, b);
    proof {
        lemma_find_in_bounds(cs@, '=', start as int, b as int);
    }
    if p == b {
        return None;
    }
    let ka = skip_whitespace(cs, start, p);
    proof {
        lemma_skip_ws_bounds(cs@, start as int, p as int);
    }
    let kb = back_whitespace(cs, ka, p);
    proof {
        lemma_back_ws_bounds(cs@, ka as int, p as int);
    }
    let va = skip_whitespace(cs, p + 1, b);
    proof {
        lemma_skip_ws_bounds(cs@, p + 1, b as int);
    }
    let vb = back_whitespace(cs, va, b);
    proof {
        lemma_back_ws_bounds(cs@, va as int, b as int);
    }
    Some(
        Token::KeyValue {
            key: content.substring_char(ka, kb).to_owned(),
            value: content.substring_char(va, vb).to_owned(),
            ignore_error: soft,
        },
    )
}

impl Tokens {
    /// Splits `content` into lines and classifies each; fails on the first line
    /// that is neither blank, nor a comment, nor holds a `=`.
    pub fn parse(content: &str) -> (r: Result<Tokens, ParseError>)
        ensures
            r is Ok <==> all_lines_valid(content@),
            match r {
                Ok(t) => {
                    &&& all_lines_valid(content@)
                    &&& t.tokens@.map_values(|x: Token| x@) == line_kinds(content@)
                },
                Err(e) => invalid_line_error(content@, e),
            },
    {
        let cs = chars_of(content);
        let n = cs.len();
        let mut tokens: Vec<Token> = Vec::new();
        let mut pos: usize = 0;
        let ghost s = cs@;
        let ghost mut done: Seq<(int, int)> = seq![];
        while pos < n
            invariant
                s == cs@,
                s == content@,
                n == s.len(),
                pos <= n,
                done.len() <= pos,
                lines(s) == done + lines_from(s, pos as int),
                tokens@.len() == done.len(),
                forall|k: int|
                    0 <= k < done.len() ==> classify(s, done[k].0, done[k].1)
                        != LineKind::Invalid,
                forall|k: int|
                    0 <= k < done.len() ==> #[trigger] tokens@[k]@ == classify(
                        s,
                        done[k].0,
                        done[k].1,
                    ),
            decreases n - pos,
        {
            let e = find_char(&cs, '\n', pos, n);
            proof {
                lemma_find_in_bounds(s, '\n', pos as int, n as int);
            }
            let hi = if e < n && e > pos && cs[e - 1] == '\r' {
                e - 1
            } else {
                e
            };
            let ghost line = (pos as int, hi as int);
            proof {
                assert(lines_from(s, pos as int) == seq![line] + lines_from(s, e + 1));
                assert(lines(s) == done.push(line) + lines_from(s, e + 1));
            }
            match classify_line(content, &cs, pos, hi) {
                Some(t) => {
                    tokens.push(t);
                },
                None => {
                    proof {
                        let k = done.len() as int;
                        assert(lines(s)[k] == line);
                        assert forall|j: int| 0 <= j < k implies line_kinds(s)[j]
                            != LineKind::Invalid by {
                            assert(lines(s)[j] == done[j]);
                        }
                        assert(first_invalid(s, k));
                    }
                    return Err(
                        ParseError::InvalidLine {
                            line_number: tokens.len() + 1,
                            content: content.substring_char(pos, hi).to_owned(),
                        },
                    );
                },
            }
            proof {
                done = done.push(line);
            }
            pos = if e < n {
                e + 1
            } else {
                n
            };
        }
        proof {
            assert(lines(s) =~= done);
            assert(tokens@.map_values(|x: Token| x@) =~= line_kinds(s));
        }
        Ok(Tokens { tokens })
    }
}

} // verus!
