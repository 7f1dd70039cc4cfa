//! Shell syntax highlighting for the preview: a line is cut into spans of
//! comments, quoted strings, variables, keywords and plain text.
use vstd::prelude::*;
use crate::text::{chars_of, string_of, sub_chars, chars_eq, is_whitespace, whitespace};

verus! {

/// What a span of a shell line is.
#[derive(Debug, PartialEq, Eq, Structural, Clone, Copy)]
pub enum ShellKind {
    Plain,
    Comment,
    Str,
    Variable,
    Keyword,
}

/// Characters that make up shell words and variable names.
pub open spec fn is_word_char(c: char) -> bool {
    ('a' <= c && c <= 'z') || ('A' <= c && c <= 'Z') || ('0' <= c && c <= '9') || c == '_'
}

/// End of the run of word characters that starts at `j`.
pub open spec fn word_end(s: Seq<char>, j: int) -> int
    decreases s.len() - j,
{
    if 0 <= j < s.len() && is_word_char(s[j]) {
        word_end(s, j + 1)
    } else {
        j
    }
}

/// Position of the first `c` at or after `j`, or the length when there is none.
pub open spec fn find_from(s: Seq<char>, j: int, c: char) -> int
    decreases s.len() - j,
{
    if j < 0 || j >= s.len() {
        s.len() as int
    } else if s[j] == c {
        j
    } else {
        find_from(s, j + 1, c)
    }
}

/// Shell reserved words and the builtins that shape a script.
pub open spec fn is_keyword(w: Seq<char>) -> bool {
    ||| w == seq!['i', 'f']
    ||| w == seq!['t', 'h', 'e', 'n']
    ||| w == seq!['e', 'l', 's', 'e']
    ||| w == seq!['e', 'l', 'i', 'f']
    ||| w == seq!['f', 'i']
    ||| w == seq!['f', 'o', 'r']
    ||| w == seq!['w', 'h', 'i', 'l', 'e']
    ||| w == seq!['u', 'n', 't', 'i', 'l']
    ||| w == seq!['d', 'o']
    ||| w == seq!['d', 'o', 'n', 'e']
    ||| w == seq!['c', 'a', 's', 'e']
    ||| w == seq!['e', 's', 'a', 'c']
    ||| w == seq!['i', 'n']
    ||| w == seq!['f', 'u', 'n', 'c', 't', 'i', 'o', 'n']
    ||| w == seq!['s', 'e', 'l', 'e', 'c', 't']
    ||| w == seq!['r', 'e', 't', 'u', 'r', 'n']
    ||| w == seq!['l', 'o', 'c', 'a', 'l']
    ||| w == seq!['e', 'x', 'p', 'o', 'r', 't']
}

/// The span that starts at `i` (inside `s`): where it ends and what it is.
/// A `#` that starts a word opens a comment up to the end of the line; a
/// quote opens a string up to the matching quote (or the end); `$` followed
/// by `{` opens a variable up to `}` (or the end); `$` followed by word
/// characters is a variable; a run of word characters is a keyword or plain
/// text; any other character is plain on its own.
pub open spec fn token_at(s: Seq<char>, i: int) -> (int, ShellKind) {
    let c = s[i];
    let len = s.len() as int;
    if c == '#' && (i == 0 || whitespace(s[i - 1])) {
        (len, ShellKind::Comment)
    } else if c == '\'' || c == '"' {
        let close = find_from(s, i + 1, c);
        (if close < len { close + 1 } else { len }, ShellKind::Str)
    } else if c == '$' && i + 1 < len && s[i + 1] == '{' {
        let close = find_from(s, i + 2, '}');
        (if close < len { close + 1 } else { len }, ShellKind::Variable)
    } else if c == '$' && i + 1 < len && is_word_char(s[i + 1]) {
        (word_end(s, i + 1), ShellKind::Variable)
    } else if is_word_char(c) {
        let j = word_end(s, i);
        (j, if is_keyword(s.subrange(i, j)) { ShellKind::Keyword } else { ShellKind::Plain })
    } else {
        (i + 1, ShellKind::Plain)
    }
}

/// The spans of `s` from position `i` on.
pub open spec fn spans_from(s: Seq<char>, i: int) -> Seq<(Seq<char>, ShellKind)>
    decreases s.len() - i,
{
    if i < 0 || i >= s.len() {
        Seq::empty()
    } else {
        let (j, k) = token_at(s, i);
        if j <= i || j > s.len() {
            Seq::empty()
        } else {
            seq![(s.subrange(i, j), k)] + spans_from(s, j)
        }
    }
}

/// The highlighted spans of the line `s`.
pub open spec fn shell_spans(s: Seq<char>) -> Seq<(Seq<char>, ShellKind)> {
    spans_from(s, 0)
}

/// The texts of the spans, one after the other.
pub open spec fn joined(sp: Seq<(Seq<char>, ShellKind)>) -> Seq<char>
    decreases sp.len(),
{
    if sp.len() == 0 {
        Seq::empty()
    } else {
        sp[0].0 + joined(sp.drop_first())
    }
}

proof fn lemma_word_end_bounds(s: Seq<char>, j: int)
    requires
        0 <= j <= s.len(),
    ensures
        j <= word_end(s, j) <= s.len(),
        forall|k: int| j <= k < word_end(s, j) ==> is_word_char(#[trigger] s[k]),
        word_end(s, j) < s.len() ==> !is_word_char(s[word_end(s, j)]),
    decreases s.len() - j,
{
    if j < s.len() && is_word_char(s[j]) {
        lemma_word_end_bounds(s, j + 1);
    }
}

proof fn lemma_find_from_bounds(s: Seq<char>, j: int, c: char)
    requires
        0 <= j <= s.len(),
    ensures
        j <= find_from(s, j, c) <= s.len(),
        forall|k: int| j <= k < find_from(s, j, c) ==> #[trigger] s[k] != c,
        find_from(s, j, c) < s.len() ==> s[find_from(s, j, c)] == c,
    decreases s.len() - j,
{
    if j < s.len() && s[j] != c {
        lemma_find_from_bounds(s, j + 1, c);
    }
}

proof fn lemma_token_advances(s: Seq<char>, i: int)
    requires
        0 <= i < s.len(),
    ensures
        i < token_at(s, i).0 <= s.len(),
{
    lemma_word_end_bounds(s, i);
    lemma_word_end_bounds(s, i + 1);
    lemma_find_from_bounds(s, i + 1, s[i]);
    if i + 2 <= s.len() {
        lemma_find_from_bounds(s, i + 2, '}');
    }
}

proof fn lemma_spans_join(s: Seq<char>, i: int)
    requires
        0 <= i <= s.len(),
    ensures
        joined(spans_from(s, i)) == s.skip(i),
    decreases s.len() - i,
{
    if i < s.len() {
        lemma_token_advances(s, i);
        let j = token_at(s, i).0;
        lemma_spans_join(s, j);
        let sp = spans_from(s, i);
        assert(sp.drop_first() =~= spans_from(s, j));
        assert(s.skip(i) =~= s.subrange(i, j) + s.skip(j));
    } else {
        assert(s.skip(i) =~= Seq::<char>::empty());
    }
}

/// The spans of a line, put back together, are the line.
pub proof fn lemma_spans_cover_line(s: Seq<char>)
    ensures
        joined(shell_spans(s)) == s,
{
    lemma_spans_join(s, 0);
    assert(s.skip(0) =~= s);
}

fn word_end_exec(s: &Vec<char>, j: usize) -> (r: usize)
    requires
        j <= s.len(),
    ensures
        r == word_end(s@, j as int),
{
    let mut k = j;
    while k < s.len() && is_word_char_exec(s[k])
        invariant
            j <= k <= s.len(),
            word_end(s@, j as int) == word_end(s@, k as int),
        decreases s.len() - k,
    {
        k += 1;
    }
    k
}

fn find_from_exec(s: &Vec<char>, j: usize, c: char) -> (r: usize)
    requires
        j <= s.len(),
    ensures
        r == find_from(s@, j as int, c),
{
    let mut k = j;
    while k < s.len() && s[k] != c
        invariant
            j <= k <= s.len(),
            find_from(s@, j as int, c) == find_from(s@, k as int, c),
        decreases s.len() - k,
    {
        k += 1;
    }
    k
}

fn is_word_char_exec(c: char) -> (r: bool)
    ensures
        r == is_word_char(c),
{
    ('a' <= c && c <= 'z') || ('A' <= c && c <= 'Z') || ('0' <= c && c <= '9') || c == '_'
}

fn is_keyword_exec(w: &Vec<char>) -> (r: bool)
    ensures
        r == is_keyword(w@),
{
    chars_eq(w, &vec!['i', 'f'])
        || chars_eq(w, &vec!['t', 'h', 'e', 'n'])
        || chars_eq(w, &vec!['e', 'l', 's', 'e'])
        || chars_eq(w, &vec!['e', 'l', 'i', 'f'])
        || chars_eq(w, &vec!['f', 'i'])
        || chars_eq(w, &vec!['f', 'o', 'r'])
        || chars_eq(w, &vec!['w', 'h', 'i', 'l', 'e'])
        || chars_eq(w, &vec!['u', 'n', 't', 'i', 'l'])
        || chars_eq(w, &vec!['d', 'o'])
        || chars_eq(w, &vec!['d', 'o', 'n', 'e'])
        || chars_eq(w, &vec!['c', 'a', 's', 'e'])
        || chars_eq(w, &vec!['e', 's', 'a', 'c'])
        || chars_eq(w, &vec!['i', 'n'])
        || chars_eq(w, &vec!['f', 'u', 'n', 'c', 't', 'i', 'o', 'n'])
        || chars_eq(w, &vec!['s', 'e', 'l', 'e', 'c', 't'])
        || chars_eq(w, &vec!['r', 'e', 't', 'u', 'r', 'n'])
        || chars_eq(w, &vec!['l', 'o', 'c', 'a', 'l'])
        || chars_eq(w, &vec!['e', 'x', 'p', 'o', 'r', 't'])
}

/// The span starting at `i` (see `token_at`).
fn token_exec(s: &Vec<char>, i: usize) -> (r: (usize, ShellKind))
    requires
        i < s.len(),
    ensures
        r.0 as int == token_at(s@, i as int).0,
        r.1 == token_at(s@, i as int).1,
{
    let c = s[i];
    let len = s.len();
    proof {
        lemma_token_advances(s@, i as int);
    }
    if c == '#' && (i == 0 || is_whitespace(s[i - 1])) {
        (len, ShellKind::Comment)
    } else if c == '\'' || c == '"' {
        let close = find_from_exec(s, i + 1, c);
        (if close < len { close + 1 } else { len }, ShellKind::Str)
    } else if c == '$' && i + 1 < len && s[i + 1] == '{' {
        let close = find_from_exec(s, i + 2, '}');
        (if close < len { close + 1 } else { len }, ShellKind::Variable)
    } else if c == '$' && i + 1 < len && is_word_char_exec(s[i + 1]) {
        (word_end_exec(s, i + 1), ShellKind::Variable)
    } else if is_word_char_exec(c) {
        let j = word_end_exec(s, i);
        proof {
            lemma_word_end_bounds(s@, i as int);
        }
        let w = sub_chars(s, i, j);
        (j, if is_keyword_exec(&w) { ShellKind::Keyword } else { ShellKind::Plain })
    } else {
        (i + 1, ShellKind::Plain)
    }
}

/// The views of a list of spans.
pub open spec fn span_views(v: Seq<(String, ShellKind)>) -> Seq<(Seq<char>, ShellKind)> {
    v.map_values(|p: (String, ShellKind)| (p.0@, p.1))
}

/// The highlighted spans of the line `s` (see `shell_spans`).
pub fn shell_spans_chars(s: &Vec<char>) -> (r: Vec<(String, ShellKind)>)
    ensures
        span_views(r@) == shell_spans(s@),
{
    let mut out: Vec<(String, ShellKind)> = Vec::new();
    let mut i: usize = 0;
    while i < s.len()
        invariant
            i <= s.len(),
            span_views(out@) + spans_from(s@, i as int) == shell_spans(s@),
        decreases s.len() - i,
    {
        let (j, k) = token_exec(s, i);
        proof {
            lemma_token_advances(s@, i as int);
        }
        let text = string_of(&sub_chars(s, i, j));
        let ghost before = span_views(out@);
        out.push((text, k));
        assert(span_views(out@) =~= before.push((s@.subrange(i as int, j as int), k)));
        assert(spans_from(s@, i as int) == seq![(s@.subrange(i as int, j as int), k)] + spans_from(
            s@,
            j as int,
        ));
        assert(before + spans_from(s@, i as int) =~= before.push((s@.subrange(i as int, j as int), k))
            + spans_from(s@, j as int));
        i = j;
    }
    assert(spans_from(s@, i as int) =~= Seq::<(Seq<char>, ShellKind)>::empty());
    assert(span_views(out@) =~= shell_spans(s@));
    out
}

/// The highlighted spans of the line `line` (see `shell_spans`).
pub fn highlight_shell(line: &str) -> (r: Vec<(String, ShellKind)>)
    ensures
        span_views(r@) == shell_spans(line@),
{
    let s = chars_of(line);
    shell_spans_chars(&s)
}

} // verus!
