//! How phrases of the tree become identifiers: word capitalisation and the
//! replacement of every character that an identifier cannot hold.

use crate::classifier::{keyword_text, Keyword};
use crate::text::{
    begins_with, char_is_ident, char_is_space, char_to_upper, has_leading_word, is_ident_char,
    is_space, leading_word, starts_with_ignore_case, string_of, to_chars, to_upper,
};
use vstd::prelude::*;
use vstd::string::*;

verus! {

/// The character that stands in for every character that an identifier
/// cannot hold.
pub const FILLER: char = '_';

/// A character as it stands in an identifier: itself where it is an
/// identifier character, else the filler.
pub open spec fn sanitized_char(c: char) -> char {
    if is_ident_char(c) {
        c
    } else {
        FILLER
    }
}

/// `s` as an identifier: every character that is no identifier character
/// is replaced by the filler, and every other character stays, each in its
/// place.
pub open spec fn sanitized(s: Seq<char>) -> Seq<char> {
    Seq::new(s.len(), |i: int| sanitized_char(s[i]))
}

/// Every character of `s` is an identifier character.
pub open spec fn is_identifier(s: Seq<char>) -> bool {
    forall|i: int| 0 <= i < s.len() ==> is_ident_char(#[trigger] s[i])
}

/// The words of `s` joined without separators, the first letter of each in
/// upper case: whitespace is left out, and a character that opens a word is
/// capitalised.
pub open spec fn pascal(s: Seq<char>) -> Seq<char>
    decreases s.len(),
{
    if s.len() == 0 {
        s
    } else {
        let head = pascal(s.drop_last());
        let c = s.last();
        if is_space(c) {
            head
        } else if s.len() == 1 || is_space(s[s.len() - 2]) {
            head.push(to_upper(c))
        } else {
            head.push(c)
        }
    }
}

/// What sanitising yields is an identifier of the length of the text:
/// each identifier character of the text stands in its place, and the
/// filler stands in the place of each other character.
pub proof fn lemma_sanitized_is_identifier(s: Seq<char>)
    ensures
        is_identifier(sanitized(s)),
        sanitized(s).len() == s.len(),
        forall|i: int|
            0 <= i < s.len() ==> #[trigger] sanitized(s)[i] == if is_ident_char(s[i]) {
                s[i]
            } else {
                FILLER
            },
{
}

/// Sanitising a text that is an identifier already changes nothing.
pub proof fn lemma_sanitized_keeps_identifier(s: Seq<char>)
    requires
        is_identifier(s),
    ensures
        sanitized(s) == s,
{
    assert(sanitized(s) =~= s);
}

/// Appends to `out` what sanitising `v` yields.
pub fn push_sanitized(out: &mut Vec<char>, v: &Vec<char>)
    ensures
        final(out)@ == old(out)@ + sanitized(v@),
{
    let mut i: usize = 0;
    assert(out@ =~= old(out)@ + sanitized(v@.take(0)));
    while i < v.len()
        invariant
            i <= v.len(),
            out@ == old(out)@ + sanitized(v@.take(i as int)),
        decreases v.len() - i,
    {
        let c = v[i];
        if char_is_ident(c) {
            out.push(c);
        } else {
            out.push(FILLER);
        }
        i += 1;
        assert(out@ =~= old(out)@ + sanitized(v@.take(i as int)));
    }
    assert(v@.take(v.len() as int) =~= v@);
}

/// `identifier` with the filler in place of every character that is no
/// identifier character.
pub fn sanitize(identifier: &str) -> (out: String)
    ensures
        out@ == sanitized(identifier@),
        out@.len() == identifier@.len(),
        is_identifier(out@),
{
    let v = to_chars(identifier);
    let mut clean: Vec<char> = Vec::new();
    push_sanitized(&mut clean, &v);
    proof {
        lemma_sanitized_is_identifier(v@);
    }
    string_of(&clean, 0, clean.len())
}

/// Appends to `out` the words of `v[from..]`, capitalised and joined.
pub fn push_pascal(out: &mut Vec<char>, v: &Vec<char>, from: usize)
    requires
        from <= v.len(),
    ensures
        final(out)@ == old(out)@ + pascal(v@.skip(from as int)),
{
    let ghost s = v@.skip(from as int);
    let mut i: usize = from;
    while i < v.len()
        invariant
            from <= i <= v.len(),
            s == v@.skip(from as int),
            out@ == old(out)@ + pascal(s.take(i - from)),
        decreases v.len() - i,
    {
        let c = v[i];
        assert(s.take(i + 1 - from).drop_last() =~= s.take(i - from));
        if !char_is_space(c) {
            if i == from || char_is_space(v[i - 1]) {
                out.push(char_to_upper(c));
            } else {
                out.push(c);
            }
        }
        i += 1;
    }
    assert(s.take(v.len() - from) =~= s);
}

/// A keyword as it is written inside a function name.
pub open spec fn keyword_title(keyword: Keyword) -> Seq<char> {
    match keyword {
        Keyword::When => "When"@,
        Keyword::Given => "Given"@,
    }
}

/// A condition as it is written inside a function name: the keyword
/// capitalised, then the words of the phrase.
pub open spec fn folded(keyword: Keyword, phrase: Seq<char>) -> Seq<char> {
    keyword_title(keyword) + pascal(phrase)
}

/// The identifier of the modifier that a condition is promoted to: the
/// keyword in lower case, then the words of the phrase, sanitised.
pub open spec fn modifier_name(keyword: Keyword, phrase: Seq<char>) -> Seq<char> {
    sanitized(keyword_text(keyword) + pascal(phrase))
}

/// The text of an action says that a revert is expected.
pub open spec fn is_revert(text: Seq<char>) -> bool {
    starts_with_ignore_case(text, "it should revert"@)
}

/// The identifier of a test function. `chain` holds the conditions folded
/// into the name, `bare` the same without the keyword of the first; `first`
/// is the text of the first action of the function.
pub open spec fn test_name(chain: Seq<char>, bare: Seq<char>, first: Seq<char>) -> Seq<char> {
    if is_revert(first) {
        "test_RevertWhen_"@ + sanitized(bare)
    } else {
        "test_"@ + sanitized(chain)
    }
}

/// What an action directly below the root contributes to the name of its
/// function: its words without a leading `it`.
pub open spec fn action_stem(text: Seq<char>) -> Seq<char> {
    if has_leading_word(text, "it"@) {
        pascal(text.skip("it"@.len() as int))
    } else {
        pascal(text)
    }
}

/// The identifier of a test function, from the names gathered on the way
/// down and the text of its first action.
pub fn test_identifier(chain: &Vec<char>, bare: &Vec<char>, first: &str) -> (name: String)
    ensures
        name@ == test_name(chain@, bare@, first@),
{
    let text = to_chars(first);
    let marker = to_chars("it should revert");
    let mut out: Vec<char> = Vec::new();
    let mut name = String::new();
    if begins_with(&text, &marker) {
        name.append("test_RevertWhen_");
        push_sanitized(&mut out, bare);
    } else {
        name.append("test_");
        push_sanitized(&mut out, chain);
    }
    let clean = string_of(&out, 0, out.len());
    name.append(clean.as_str());
    name
}

/// The identifier of the modifier of a condition.
pub fn modifier_identifier(keyword: Keyword, phrase: &str) -> (name: String)
    ensures
        name@ == modifier_name(keyword, phrase@),
        is_identifier(name@),
{
    let mut raw = match keyword {
        Keyword::When => to_chars("when"),
        Keyword::Given => to_chars("given"),
    };
    let text = to_chars(phrase);
    push_pascal(&mut raw, &text, 0);
    assert(text@.skip(0) =~= text@);
    let mut out: Vec<char> = Vec::new();
    push_sanitized(&mut out, &raw);
    proof {
        lemma_sanitized_is_identifier(raw@);
    }
    string_of(&out, 0, out.len())
}

/// Appends to `out` a condition as it is written inside a function name.
pub fn push_folded(out: &mut Vec<char>, keyword: Keyword, phrase: &Vec<char>)
    ensures
        final(out)@ == old(out)@ + folded(keyword, phrase@),
{
    let title = match keyword {
        Keyword::When => to_chars("When"),
        Keyword::Given => to_chars("Given"),
    };
    let mut i: usize = 0;
    while i < title.len()
        invariant
            i <= title.len(),
            out@ == old(out)@ + title@.take(i as int),
        decreases title.len() - i,
    {
        out.push(title[i]);
        i += 1;
    }
    push_pascal(out, phrase, 0);
    assert(phrase@.skip(0) =~= phrase@);
}

/// What an action directly below the root contributes to the name of its
/// function.
pub fn stem_of_action(text: &Vec<char>) -> (stem: Vec<char>)
    ensures
        stem@ == action_stem(text@),
{
    let it = to_chars("it");
    let mut stem: Vec<char> = Vec::new();
    if leading_word(text, &it) {
        push_pascal(&mut stem, text, it.len());
    } else {
        push_pascal(&mut stem, text, 0);
        assert(text@.skip(0) =~= text@);
    }
    stem
}

} // verus!
