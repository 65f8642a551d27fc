//! The tokenizer: from a line of input to its tokens.
//!
//! Fields are separated by white space. A field that begins with `"` or `'`
//! opens a quoted token, which runs on, white space included, to the first
//! matching quote that ends a field, or to the end of the line where no
//! field ends with one. The two quotes do not belong to the token.

use vstd::prelude::*;

use crate::text::{chars_of, join};

verus! {

/// How a token was written.
#[derive(Debug, Clone, Copy, PartialEq, Eq, Structural)]
pub enum Quoting {
    /// Without quotes.
    Bare,
    /// Between `'` and `'`.
    Single,
    /// Between `"` and `"`.
    Double,
}

/// A token of a line: its text, and how it was written.
#[derive(Debug, Clone, PartialEq, Eq)]
pub struct Token {
    pub text: String,
    pub quoting: Quoting,
}

/// What a [`Token`] stands for in contracts.
pub struct Lexeme {
    pub text: Seq<char>,
    pub quoting: Quoting,
}

impl DeepView for Token {
    type V = Lexeme;

    open spec fn deep_view(&self) -> Lexeme {
        Lexeme { text: self.text@, quoting: self.quoting }
    }
}

/// The kind of quoted token that `c` opens; `Bare` where `c` is no quote.
pub open spec fn quoting_of(c: char) -> Quoting {
    if c == '"' {
        Quoting::Double
    } else if c == '\'' {
        Quoting::Single
    } else {
        Quoting::Bare
    }
}

/// Whether `c` separates fields: a white space character, which is a space,
/// a tab, a line feed, a vertical tab, a form feed, a carriage return, or one
/// of the characters beyond ASCII that Unicode counts as white space.
pub open spec fn is_blank(c: char) -> bool {
    ||| c == ' '
    ||| '\u{9}' <= c <= '\u{d}'
    ||| c == '\u{85}'
    ||| c == '\u{a0}'
    ||| c == '\u{1680}'
    ||| '\u{2000}' <= c <= '\u{200a}'
    ||| c == '\u{2028}'
    ||| c == '\u{2029}'
    ||| c == '\u{202f}'
    ||| c == '\u{205f}'
    ||| c == '\u{3000}'
}

/// No character of `s` separates fields.
pub open spec fn no_blank(s: Seq<char>) -> bool {
    forall|i: int| 0 <= i < s.len() ==> !is_blank(#[trigger] s[i])
}

/// The length of the field with which `s` begins: the index of the first
/// white space character, or the length of `s` where it holds none.
pub open spec fn field_len(s: Seq<char>) -> int
    decreases s.len(),
{
    if s.len() == 0 || is_blank(s[0]) {
        0
    } else {
        1 + field_len(s.drop_first())
    }
}

/// `s[i]` is `quote` and ends a field: white space or the end of `s` follows
/// it.
pub open spec fn closes_at(s: Seq<char>, quote: char, i: int) -> bool {
    0 <= i < s.len() && s[i] == quote && (i + 1 == s.len() || is_blank(s[i + 1]))
}

/// The length of a quoted token, where `s` is the line after the opening
/// quote: the index of the first `quote` that ends a field, or the length of
/// `s` where the quote is never closed.
pub open spec fn quoted_len(s: Seq<char>, quote: char) -> int
    decreases s.len(),
{
    if s.len() == 0 || closes_at(s, quote, 0) {
        0
    } else {
        1 + quoted_len(s.drop_first(), quote)
    }
}

/// The tokens of `line`, from left to right.
///
/// White space between fields is skipped. A field that begins with a quote
/// gives the text up to the quote that closes it; any other field is a token
/// as it stands.
pub open spec fn lex(line: Seq<char>) -> Seq<Lexeme>
    decreases line.len(),
    via lex_terminates
{
    if line.len() == 0 {
        seq![]
    } else if is_blank(line[0]) {
        lex(line.drop_first())
    } else if quoting_of(line[0]) != Quoting::Bare {
        let n = quoted_len(line.drop_first(), line[0]);
        let token = Lexeme { text: line.subrange(1, 1 + n), quoting: quoting_of(line[0]) };
        if n + 2 <= line.len() {
            seq![token] + lex(line.skip(n + 2))
        } else {
            seq![token]
        }
    } else {
        let n = field_len(line);
        seq![Lexeme { text: line.take(n), quoting: Quoting::Bare }] + lex(line.skip(n))
    }
}

#[via_fn]
proof fn lex_terminates(line: Seq<char>) {
    if line.len() > 0 {
        lemma_quoted_len(line.drop_first(), line[0]);
        lemma_field_len(line);
    }
}

/// The texts of the tokens of `line`, from left to right.
pub open spec fn tokens(line: Seq<char>) -> Seq<Seq<char>> {
    lex(line).map_values(|token: Lexeme| token.text)
}

/// `field_len` stops at the first white space character and nowhere before
/// it.
pub proof fn lemma_field_len(s: Seq<char>)
    ensures
        0 <= field_len(s) <= s.len(),
        no_blank(s.take(field_len(s))),
        field_len(s) < s.len() ==> is_blank(s[field_len(s)]),
    decreases s.len(),
{
    if s.len() == 0 || is_blank(s[0]) {
    } else {
        let rest = s.drop_first();
        lemma_field_len(rest);
        let field = s.take(field_len(s));
        assert forall|i: int| 0 <= i < field.len() implies !is_blank(#[trigger] field[i]) by {
            if i > 0 {
                assert(field[i] == rest.take(field_len(rest))[i - 1]);
            }
        }
    }
}

/// Any index before which there is no white space and at which there is
/// some, or the length where there is none at all, is `field_len`.
pub proof fn lemma_field_len_is(s: Seq<char>, n: int)
    requires
        0 <= n <= s.len(),
        forall|i: int| 0 <= i < n ==> !is_blank(s[i]),
        n < s.len() ==> is_blank(s[n]),
    ensures
        field_len(s) == n,
{
    lemma_field_len(s);
    let found = field_len(s);
    if found < n {
        assert(is_blank(s[found]));
    } else if n < found {
        assert(s.take(found)[n] == s[n]);
    }
}

/// `quoted_len` stops at the first quote that ends a field and nowhere
/// before it.
pub proof fn lemma_quoted_len(s: Seq<char>, quote: char)
    ensures
        0 <= quoted_len(s, quote) <= s.len(),
        forall|i: int| 0 <= i < quoted_len(s, quote) ==> !closes_at(s, quote, i),
        quoted_len(s, quote) < s.len() ==> closes_at(s, quote, quoted_len(s, quote)),
    decreases s.len(),
{
    if s.len() == 0 || closes_at(s, quote, 0) {
    } else {
        let rest = s.drop_first();
        lemma_quoted_len(rest, quote);
        assert forall|i: int| 0 <= i < quoted_len(s, quote) implies !closes_at(s, quote, i) by {
            if i > 0 {
                assert(closes_at(rest, quote, i - 1) == closes_at(s, quote, i));
            }
        }
    }
}

/// Any index that holds the first closing quote, or the length where there
/// is none, is `quoted_len`.
pub proof fn lemma_quoted_len_is(s: Seq<char>, quote: char, n: int)
    requires
        0 <= n <= s.len(),
        forall|i: int| 0 <= i < n ==> !closes_at(s, quote, i),
        n < s.len() ==> closes_at(s, quote, n),
    ensures
        quoted_len(s, quote) == n,
{
    lemma_quoted_len(s, quote);
}

/// White space between tokens leaves no trace: a token that was written
/// without quotes is never empty and holds no white space. Only a quoted
/// token can be empty or hold some.
pub proof fn lemma_bare_tokens(line: Seq<char>, i: int)
    requires
        0 <= i < lex(line).len(),
        lex(line)[i].quoting == Quoting::Bare,
    ensures
        lex(line)[i].text.len() > 0,
        no_blank(lex(line)[i].text),
    decreases line.len(),
{
    if line.len() == 0 {
    } else if is_blank(line[0]) {
        lemma_bare_tokens(line.drop_first(), i);
    } else if quoting_of(line[0]) != Quoting::Bare {
        let n = quoted_len(line.drop_first(), line[0]);
        lemma_quoted_len(line.drop_first(), line[0]);
        if i > 0 {
            lemma_bare_tokens(line.skip(n + 2), i - 1);
        }
    } else {
        let n = field_len(line);
        lemma_field_len(line);
        if i > 0 {
            lemma_bare_tokens(line.skip(n), i - 1);
        }
    }
}

/// A line of white space alone has no tokens.
pub proof fn lemma_blank_line(line: Seq<char>)
    requires
        forall|i: int| 0 <= i < line.len() ==> is_blank(line[i]),
    ensures
        lex(line) == Seq::<Lexeme>::empty(),
    decreases line.len(),
{
    if line.len() > 0 {
        let rest = line.drop_first();
        assert forall|i: int| 0 <= i < rest.len() implies is_blank(rest[i]) by {
            assert(rest[i] == line[i + 1]);
        }
        lemma_blank_line(rest);
    }
}

/// A word that reads the same inside and outside quotes: it is not empty and
/// holds no white space and no quote.
pub open spec fn is_plain(word: Seq<char>) -> bool {
    word.len() > 0 && no_blank(word) && !word.contains('"') && !word.contains('\'')
}

/// A plain word at the start of a line is the first token of that line, if
/// white space or the end of the line follows it.
pub proof fn lemma_lex_plain_word(word: Seq<char>, rest: Seq<char>)
    requires
        is_plain(word),
        rest.len() == 0 || is_blank(rest[0]),
    ensures
        lex(word + rest) == seq![Lexeme { text: word, quoting: Quoting::Bare }] + lex(rest),
{
    let line = word + rest;
    assert(line[0] == word[0]);
    assert(word.contains(word[0]));
    assert forall|i: int| 0 <= i < word.len() implies !is_blank(line[i]) by {
        assert(line[i] == word[i]);
    }
    lemma_field_len_is(line, word.len() as int);
    assert(line.take(word.len() as int) == word);
    assert(line.skip(word.len() as int) == rest);
}

/// The words of `words` as tokens that were written without quotes.
pub open spec fn bare(words: Seq<Seq<char>>) -> Seq<Lexeme> {
    words.map_values(|word: Seq<char>| Lexeme { text: word, quoting: Quoting::Bare })
}

/// Splitting undoes joining: a line made of plain words with single spaces
/// between them has exactly those words as its tokens, none of them quoted.
pub proof fn lemma_split_of_join(words: Seq<Seq<char>>)
    requires
        forall|i: int| 0 <= i < words.len() ==> is_plain(#[trigger] words[i]),
    ensures
        lex(join(words, ' ')) == bare(words),
        tokens(join(words, ' ')) == words,
    decreases words.len(),
{
    if words.len() == 0 {
    } else if words.len() == 1 {
        lemma_lex_plain_word(words[0], seq![]);
        assert(words[0] + Seq::<char>::empty() == words[0]);
    } else {
        let others = words.drop_first();
        let rest = seq![' '] + join(others, ' ');
        assert(join(words, ' ') == words[0] + rest);
        lemma_lex_plain_word(words[0], rest);
        assert(rest.drop_first() == join(others, ' '));
        assert forall|i: int| 0 <= i < others.len() implies is_plain(#[trigger] others[i]) by {
        }
        lemma_split_of_join(others);
        assert(words == seq![words[0]] + others);
        assert(bare(words) == seq![Lexeme { text: words[0], quoting: Quoting::Bare }] + bare(
            others,
        ));
    }
    assert(tokens(join(words, ' ')) == words);
}

/// Where a token lies in its line, in characters.
struct Span {
    start: usize,
    end: usize,
    quoting: Quoting,
}

impl Span {
    spec fn within(&self, line: Seq<char>) -> bool {
        self.start <= self.end <= line.len()
    }

    spec fn lexeme(&self, line: Seq<char>) -> Lexeme {
        Lexeme { text: line.subrange(self.start as int, self.end as int), quoting: self.quoting }
    }
}

/// The tokens that a list of spans cuts out of `line`.
spec fn cut(spans: Seq<Span>, line: Seq<char>) -> Seq<Lexeme> {
    spans.map_values(|span: Span| span.lexeme(line))
}

/// Tells whether a character separates fields.
pub fn is_space(c: char) -> (blank: bool)
    ensures
        blank == is_blank(c),
{
    c == ' ' || ('\u{9}' <= c && c <= '\u{d}') || c == '\u{85}' || c == '\u{a0}' || c == '\u{1680}'
        || ('\u{2000}' <= c && c <= '\u{200a}') || c == '\u{2028}' || c == '\u{2029}' || c
        == '\u{202f}' || c == '\u{205f}' || c == '\u{3000}'
}

/// Index of the first white space character at or after `from`, or the
/// length of `chars` where there is none.
fn find_blank(chars: &Vec<char>, from: usize) -> (at: usize)
    requires
        from <= chars.len(),
    ensures
        from <= at <= chars.len(),
        at == from + field_len(chars@.skip(from as int)),
{
    let mut at: usize = from;
    while at < chars.len() && !is_space(chars[at])
        invariant
            from <= at <= chars.len(),
            forall|i: int| from <= i < at ==> !is_blank(chars[i]),
        decreases chars.len() - at,
    {
        at += 1;
    }
    proof {
        lemma_field_len_is(chars@.skip(from as int), at - from);
    }
    at
}

/// Index of the quote that closes a token whose text begins at `from`, or
/// the length of `chars` where the token is never closed.
fn find_closing(chars: &Vec<char>, quote: char, from: usize) -> (at: usize)
    requires
        from <= chars.len(),
    ensures
        from <= at <= chars.len(),
        at == from + quoted_len(chars@.skip(from as int), quote),
{
    let ghost rest = chars@.skip(from as int);
    let mut at: usize = from;
    while at < chars.len() && !(chars[at] == quote && (at + 1 == chars.len() || is_space(
        chars[at + 1],
    )))
        invariant
            from <= at <= chars.len(),
            rest == chars@.skip(from as int),
            forall|i: int| 0 <= i < at - from ==> !closes_at(rest, quote, i),
        decreases chars.len() - at,
    {
        at += 1;
    }
    proof {
        lemma_quoted_len_is(rest, quote, at - from);
    }
    at
}

/// Finds the tokens of a line.
fn spans_of(chars: &Vec<char>) -> (spans: Vec<Span>)
    ensures
        cut(spans@, chars@) == lex(chars@),
        forall|i: int| 0 <= i < spans.len() ==> (#[trigger] spans[i]).within(chars@),
{
    let ghost line = chars@;
    let mut spans: Vec<Span> = Vec::new();
    let mut at: usize = 0;
    assert(line.skip(0) == line);
    while at < chars.len()
        invariant
            at <= chars.len(),
            line == chars@,
            lex(line) == cut(spans@, line) + lex(line.skip(at as int)),
            forall|i: int| 0 <= i < spans.len() ==> (#[trigger] spans[i]).within(line),
        decreases chars.len() - at,
    {
        let ghost rest = line.skip(at as int);
        let c = chars[at];
        if is_space(c) {
            assert(rest.drop_first() == line.skip(at + 1));
            at += 1;
        } else if c == '"' || c == '\'' {
            let quoting = if c == '"' {
                Quoting::Double
            } else {
                Quoting::Single
            };
            assert(rest.drop_first() == line.skip(at + 1));
            let end = find_closing(chars, c, at + 1);
            let span = Span { start: at + 1, end, quoting };
            assert(span.lexeme(line).text == rest.subrange(1, 1 + (end - at - 1)));
            spans.push(span);
            if end < chars.len() {
                assert(rest.skip(end - at + 1) == line.skip(end + 1));
                at = end + 1;
            } else {
                at = end;
            }
        } else {
            let end = find_blank(chars, at);
            let span = Span { start: at, end, quoting: Quoting::Bare };
            assert(span.lexeme(line).text == rest.take(end - at));
            spans.push(span);
            assert(rest.skip(end - at) == line.skip(end as int));
            at = end;
        }
    }
    spans
}

/// Cuts a line into its tokens and keeps, for each, how it was written.
pub fn tokenize(line: &str) -> (out: Vec<Token>)
    ensures
        out.deep_view() == lex(line@),
{
    let chars = chars_of(line);
    let spans = spans_of(&chars);
    let mut out: Vec<Token> = Vec::new();
    let mut i: usize = 0;
    while i < spans.len()
        invariant
            i <= spans.len(),
            chars@ == line@,
            out.len() == i,
            forall|j: int| 0 <= j < spans.len() ==> (#[trigger] spans[j]).within(line@),
            forall|j: int| 0 <= j < i ==> (#[trigger] out[j]).deep_view() == spans[j].lexeme(line@),
        decreases spans.len() - i,
    {
        let span = &spans[i];
        let text = line.substring_char(span.start, span.end).to_string();
        out.push(Token { text, quoting: span.quoting });
        i += 1;
    }
    out
}

/// Splits a line into its tokens, honoring single and double quotes.
///
/// `echo 'first argument' 'second argument'` has the three tokens `echo`,
/// `first argument` and `second argument`.
pub fn split_arguments<'a>(line: &'a str) -> (out: Vec<&'a str>)
    ensures
        out.deep_view() == tokens(line@),
{
    let chars = chars_of(line);
    let spans = spans_of(&chars);
    let mut out: Vec<&'a str> = Vec::new();
    let mut i: usize = 0;
    while i < spans.len()
        invariant
            i <= spans.len(),
            chars@ == line@,
            out.len() == i,
            forall|j: int| 0 <= j < spans.len() ==> (#[trigger] spans[j]).within(line@),
            forall|j: int| 0 <= j < i ==> (#[trigger] out[j])@ == spans[j].lexeme(line@).text,
        decreases spans.len() - i,
    {
        let span = &spans[i];
        out.push(line.substring_char(span.start, span.end));
        i += 1;
    }
    out
}

} // verus!
