//! Character-level helpers shared by every stage: conversions between strings
//! and character vectors, ASCII classification and case mapping, trimming.

use vstd::prelude::*;

verus! {

/// `String::push` appends one character to the end of the string.
pub assume_specification[ String::push ](s: &mut String, c: char)
    ensures
        final(s)@ == old(s)@.push(c),
;

/// `String::pop` removes the last character and returns it, or returns
/// `None` and changes nothing where the string is empty.
pub assume_specification[ String::pop ](s: &mut String) -> (c: Option<char>)
    ensures
        old(s)@.len() == 0 ==> c.is_none() && final(s)@ == old(s)@,
        old(s)@.len() > 0 ==> c == Some(old(s)@.last()) && final(s)@ == old(s)@.drop_last(),
;

/// Whitespace inside a line: space, tab and carriage return.
pub open spec fn is_space(c: char) -> bool {
    c == ' ' || c == '\t' || c == '\r'
}

/// An ASCII lower-case letter.
pub open spec fn is_lower(c: char) -> bool {
    'a' <= c && c <= 'z'
}

/// An ASCII upper-case letter.
pub open spec fn is_upper(c: char) -> bool {
    'A' <= c && c <= 'Z'
}

/// An ASCII digit.
pub open spec fn is_digit(c: char) -> bool {
    '0' <= c && c <= '9'
}

/// The characters an identifier may hold: ASCII letters, digits and `_`.
pub open spec fn is_ident_char(c: char) -> bool {
    is_lower(c) || is_upper(c) || is_digit(c) || c == '_'
}

/// The lower-case form of an ASCII upper-case letter; any other character
/// as it is.
pub open spec fn to_lower(c: char) -> char {
    if is_upper(c) {
        ((c as u8) + 32) as char
    } else {
        c
    }
}

/// The upper-case form of an ASCII lower-case letter; any other character
/// as it is.
pub open spec fn to_upper(c: char) -> char {
    if is_lower(c) {
        ((c as u8) - 32) as char
    } else {
        c
    }
}

/// `s` with every ASCII upper-case letter replaced by its lower-case form.
pub open spec fn lower(s: Seq<char>) -> Seq<char> {
    Seq::new(s.len(), |i: int| to_lower(s[i]))
}

/// `n` spaces.
pub open spec fn spaces(n: nat) -> Seq<char> {
    Seq::new(n, |i: int| ' ')
}

/// `s` without its trailing whitespace.
pub open spec fn trim_end(s: Seq<char>) -> Seq<char>
    decreases s.len(),
{
    if s.len() == 0 || !is_space(s.last()) {
        s
    } else {
        trim_end(s.drop_last())
    }
}

/// `s` without its leading whitespace.
pub open spec fn trim_start(s: Seq<char>) -> Seq<char>
    decreases s.len(),
{
    if s.len() == 0 || !is_space(s[0]) {
        s
    } else {
        trim_start(s.drop_first())
    }
}

/// `s` begins with `word`, letter case aside.
pub open spec fn starts_with_ignore_case(s: Seq<char>, word: Seq<char>) -> bool {
    s.len() >= word.len() && lower(s.take(word.len() as int)) == lower(word)
}

/// `s` begins with `word`, letter case aside, and the word ends there: the
/// text stops or whitespace follows.
pub open spec fn has_leading_word(s: Seq<char>, word: Seq<char>) -> bool {
    starts_with_ignore_case(s, word) && (s.len() == word.len() || is_space(s[word.len() as int]))
}

/// Whether `c` is whitespace inside a line.
pub fn char_is_space(c: char) -> (r: bool)
    ensures
        r == is_space(c),
{
    c == ' ' || c == '\t' || c == '\r'
}

/// Whether an identifier may hold `c`.
pub fn char_is_ident(c: char) -> (r: bool)
    ensures
        r == is_ident_char(c),
{
    (c >= 'a' && c <= 'z') || (c >= 'A' && c <= 'Z') || (c >= '0' && c <= '9') || c == '_'
}

/// `c` in lower case.
pub fn char_to_lower(c: char) -> (r: char)
    ensures
        r == to_lower(c),
{
    if c >= 'A' && c <= 'Z' {
        ((c as u8) + 32) as char
    } else {
        c
    }
}

/// `c` in upper case.
pub fn char_to_upper(c: char) -> (r: char)
    ensures
        r == to_upper(c),
{
    if c >= 'a' && c <= 'z' {
        ((c as u8) - 32) as char
    } else {
        c
    }
}

/// The characters of `s`, in order.
pub fn to_chars(s: &str) -> (v: Vec<char>)
    ensures
        v@ == s@,
{
    let mut v: Vec<char> = Vec::new();
    for c in it: s.chars()
        invariant
            v@ == it.seq().take(it.index()),
            it.seq() == s@,
    {
        v.push(c);
    }
    v
}

/// Appends the characters `v[from..to]` to `s`.
pub fn push_chars(s: &mut String, v: &Vec<char>, from: usize, to: usize)
    requires
        from <= to <= v.len(),
    ensures
        final(s)@ == old(s)@ + v@.subrange(from as int, to as int),
{
    let mut i: usize = from;
    while i < to
        invariant
            from <= i <= to <= v.len(),
            s@ == old(s)@ + v@.subrange(from as int, i as int),
        decreases to - i,
    {
        s.push(v[i]);
        i += 1;
    }
}

/// The string made of the characters `v[from..to]`.
pub fn string_of(v: &Vec<char>, from: usize, to: usize) -> (s: String)
    requires
        from <= to <= v.len(),
    ensures
        s@ == v@.subrange(from as int, to as int),
{
    let mut s = String::new();
    push_chars(&mut s, v, from, to);
    s
}

/// Appends `n` spaces to `s`.
pub fn push_spaces(s: &mut String, n: usize)
    ensures
        final(s)@ == old(s)@ + spaces(n as nat),
{
    let mut i: usize = 0;
    while i < n
        invariant
            i <= n,
            s@ == old(s)@ + spaces(i as nat),
        decreases n - i,
    {
        s.push(' ');
        i += 1;
    }
}

/// Spaces add up under concatenation.
pub proof fn lemma_spaces_add(a: nat, b: nat)
    ensures
        spaces(a) + spaces(b) == spaces(a + b),
{
}

/// The end of `v[from..]` once trailing whitespace is cut off.
pub fn trimmed_end(v: &Vec<char>, from: usize) -> (r: usize)
    requires
        from <= v.len(),
    ensures
        from <= r <= v.len(),
        v@.subrange(from as int, r as int) == trim_end(v@.skip(from as int)),
{
    let mut r: usize = v.len();
    while r > from && char_is_space(v[r - 1])
        invariant
            from <= r <= v.len(),
            trim_end(v@.subrange(from as int, r as int)) == trim_end(v@.skip(from as int)),
        decreases r,
    {
        assert(v@.subrange(from as int, r as int).drop_last() =~= v@.subrange(
            from as int,
            r - 1,
        ));
        r -= 1;
    }
    r
}

/// The index of the first character at or after `from` that is not
/// whitespace, or the length where there is none.
pub fn skip_spaces(v: &Vec<char>, from: usize) -> (r: usize)
    requires
        from <= v.len(),
    ensures
        from <= r <= v.len(),
        v@.skip(r as int) == trim_start(v@.skip(from as int)),
{
    let mut r: usize = from;
    while r < v.len() && char_is_space(v[r])
        invariant
            from <= r <= v.len(),
            trim_start(v@.skip(r as int)) == trim_start(v@.skip(from as int)),
        decreases v.len() - r,
    {
        assert(v@.skip(r as int).drop_first() == v@.skip(r + 1));
        r += 1;
    }
    r
}

/// Whether `v` begins with `word`, letter case aside, as a whole word.
pub fn leading_word(v: &Vec<char>, word: &Vec<char>) -> (r: bool)
    ensures
        r == has_leading_word(v@, word@),
{
    if v.len() < word.len() {
        return false;
    }
    let mut i: usize = 0;
    while i < word.len()
        invariant
            i <= word.len() <= v.len(),
            forall|j: int| 0 <= j < i ==> to_lower(v@[j]) == to_lower(word@[j]),
        decreases word.len() - i,
    {
        if char_to_lower(v[i]) != char_to_lower(word[i]) {
            assert(lower(v@.take(word.len() as int))[i as int] != lower(word@)[i as int]);
            return false;
        }
        i += 1;
    }
    assert(lower(v@.take(word.len() as int)) =~= lower(word@));
    v.len() == word.len() || char_is_space(v[word.len()])
}

/// Whether `v` begins with `prefix`, letter case aside.
pub fn begins_with(v: &Vec<char>, prefix: &Vec<char>) -> (r: bool)
    ensures
        r == starts_with_ignore_case(v@, prefix@),
{
    if v.len() < prefix.len() {
        return false;
    }
    let mut i: usize = 0;
    while i < prefix.len()
        invariant
            i <= prefix.len() <= v.len(),
            forall|j: int| 0 <= j < i ==> to_lower(v@[j]) == to_lower(prefix@[j]),
        decreases prefix.len() - i,
    {
        if char_to_lower(v[i]) != char_to_lower(prefix[i]) {
            assert(lower(v@.take(prefix.len() as int))[i as int] != lower(prefix@)[i as int]);
            return false;
        }
        i += 1;
    }
    assert(lower(v@.take(prefix.len() as int)) =~= lower(prefix@));
    true
}

} // verus!
