//! Cuts the text of a tree into one token per line that is not blank: how
//! far right the line's connector stands, and the text behind it.

use crate::text::{char_is_space, is_space, string_of, to_chars, trim_end, trimmed_end};
use vstd::prelude::*;

verus! {

/// One line of the tree.
#[derive(Debug, Clone, PartialEq, Eq)]
pub struct Token {
    /// 0 where the line has no connector, else the connector's column plus
    /// one, columns counted in characters from 0.
    pub depth: usize,
    /// The text behind the connector, without surrounding whitespace.
    pub text: String,
    /// The line's number in the text, from 1.
    pub line: usize,
}

/// A token, its text as a character sequence.
pub struct TokenView {
    pub depth: nat,
    pub text: Seq<char>,
    pub line: nat,
}

impl View for Token {
    type V = TokenView;

    open spec fn view(&self) -> TokenView {
        TokenView { depth: self.depth as nat, text: self.text@, line: self.line as nat }
    }
}

/// The views of a list of tokens.
pub open spec fn tokens_view(v: Seq<Token>) -> Seq<TokenView> {
    Seq::new(v.len(), |i: int| v[i]@)
}

/// What may stand before a connector: whitespace and the vertical guide.
pub open spec fn is_guide(c: char) -> bool {
    is_space(c) || c == '│'
}

/// The two connectors: a branch with siblings below it, and the last branch.
pub open spec fn is_connector(c: char) -> bool {
    c == '├' || c == '└'
}

/// What may stand between a connector and the text: whitespace and the
/// horizontal rule.
pub open spec fn is_rule(c: char) -> bool {
    is_space(c) || c == '─'
}

/// The first index at or after `from` whose character is no guide.
pub open spec fn skip_guides(line: Seq<char>, from: int) -> int
    decreases line.len() - from,
{
    if 0 <= from < line.len() && is_guide(line[from]) {
        skip_guides(line, from + 1)
    } else {
        from
    }
}

/// The first index at or after `from` whose character is no rule.
pub open spec fn skip_rules(line: Seq<char>, from: int) -> int
    decreases line.len() - from,
{
    if 0 <= from < line.len() && is_rule(line[from]) {
        skip_rules(line, from + 1)
    } else {
        from
    }
}

/// The token of one line, the line's number given.
pub open spec fn token_of(line: Seq<char>, number: nat) -> TokenView {
    let p = skip_guides(line, 0);
    if 0 <= p < line.len() && is_connector(line[p]) {
        TokenView {
            depth: (p + 1) as nat,
            text: trim_end(line.skip(skip_rules(line, p + 1))),
            line: number,
        }
    } else {
        TokenView { depth: 0, text: trim_end(line.skip(p)), line: number }
    }
}

/// A line with neither connector nor text.
pub open spec fn is_blank(line: Seq<char>) -> bool {
    token_of(line, 0).depth == 0 && token_of(line, 0).text.len() == 0
}

/// The lines of a text: the pieces between its line breaks.
pub open spec fn lines(text: Seq<char>) -> Seq<Seq<char>>
    decreases text.len(),
{
    if text.len() == 0 {
        seq![Seq::empty()]
    } else {
        let head = lines(text.drop_last());
        if text.last() == '\n' {
            head.push(Seq::empty())
        } else {
            head.update(head.len() - 1, head.last().push(text.last()))
        }
    }
}

/// The tokens of a list of lines: one for each line that is not blank,
/// numbered by the line's place in the list.
pub open spec fn tokens_of(lines: Seq<Seq<char>>) -> Seq<TokenView>
    decreases lines.len(),
{
    if lines.len() == 0 {
        Seq::empty()
    } else {
        let head = tokens_of(lines.drop_last());
        if is_blank(lines.last()) {
            head
        } else {
            head.push(token_of(lines.last(), lines.len()))
        }
    }
}

/// The tokens of a text.
pub open spec fn scanned(text: Seq<char>) -> Seq<TokenView> {
    tokens_of(lines(text))
}

/// The texts of a list of character vectors.
pub open spec fn lines_view(v: Seq<Vec<char>>) -> Seq<Seq<char>> {
    Seq::new(v.len(), |i: int| v[i]@)
}

/// Cuts `text` at its line breaks.
pub fn split_lines(text: &Vec<char>) -> (out: Vec<Vec<char>>)
    ensures
        lines_view(out@) == lines(text@),
{
    let mut out: Vec<Vec<char>> = Vec::new();
    let mut current: Vec<char> = Vec::new();
    let mut i: usize = 0;
    while i < text.len()
        invariant
            i <= text.len(),
            lines_view(out@).push(current@) == lines(text@.take(i as int)),
        decreases text.len() - i,
    {
        let c = text[i];
        assert(text@.take(i + 1).drop_last() =~= text@.take(i as int));
        if c == '\n' {
            out.push(current);
            current = Vec::new();
        } else {
            current.push(c);
        }
        i += 1;
    }
    assert(text@.take(text.len() as int) =~= text@);
    out.push(current);
    out
}

/// The first index at or after `from` whose character is no guide.
fn after_guides(line: &Vec<char>, from: usize) -> (r: usize)
    requires
        from <= line.len(),
    ensures
        from <= r <= line.len(),
        r == skip_guides(line@, from as int),
{
    let mut r: usize = from;
    while r < line.len() && (char_is_space(line[r]) || line[r] == '│')
        invariant
            from <= r <= line.len(),
            skip_guides(line@, r as int) == skip_guides(line@, from as int),
        decreases line.len() - r,
    {
        r += 1;
    }
    r
}

/// The first index at or after `from` whose character is no rule.
fn after_rules(line: &Vec<char>, from: usize) -> (r: usize)
    requires
        from <= line.len(),
    ensures
        from <= r <= line.len(),
        r == skip_rules(line@, from as int),
{
    let mut r: usize = from;
    while r < line.len() && (char_is_space(line[r]) || line[r] == '─')
        invariant
            from <= r <= line.len(),
            skip_rules(line@, r as int) == skip_rules(line@, from as int),
        decreases line.len() - r,
    {
        r += 1;
    }
    r
}

/// The token of one line.
pub fn scan_line(line: &Vec<char>, number: usize) -> (token: Token)
    ensures
        token@ == token_of(line@, number as nat),
{
    let p = after_guides(line, 0);
    if p < line.len() && (line[p] == '├' || line[p] == '└') {
        let q = after_rules(line, p + 1);
        let end = trimmed_end(line, q);
        Token { depth: p + 1, text: string_of(line, q, end), line: number }
    } else {
        let end = trimmed_end(line, p);
        Token { depth: 0, text: string_of(line, p, end), line: number }
    }
}

/// The tokens of `text`: one for each line that is not blank, in order.
pub fn scan(text: &str) -> (tokens: Vec<Token>)
    ensures
        tokens_view(tokens@) == scanned(text@),
{
    let chars = to_chars(text);
    let all = split_lines(&chars);
    let ghost ls = lines(text@);
    let mut tokens: Vec<Token> = Vec::new();
    let mut i: usize = 0;
    while i < all.len()
        invariant
            i <= all.len(),
            ls == lines_view(all@),
            tokens_view(tokens@) == tokens_of(ls.take(i as int)),
        decreases all.len() - i,
    {
        assert(ls.take(i + 1).drop_last() =~= ls.take(i as int));
        let token = scan_line(&all[i], i + 1);
        if token.depth != 0 || !token.text.as_str().is_empty() {
            tokens.push(token);
        }
        i += 1;
    }
    assert(ls.take(all.len() as int) =~= ls);
    tokens
}

} // verus!
