//! Text as sequences of characters.
//!
//! Strings are handled one `char` at a time, so every position and length in
//! this crate counts characters, never bytes.
use vstd::prelude::*;
use vstd::string::*;

verus! {

/// `String::push` appends one character.
pub assume_specification[ String::push ](s: &mut String, c: char)
    ensures
        final(s)@ == old(s)@.push(c),
;

/// The characters of `s`, in order.
pub fn chars_of(s: &str) -> (chars: Vec<char>)
    ensures
        chars@ == s@,
{
    let mut chars: Vec<char> = Vec::new();
    for c in it: s.chars()
        invariant
            chars@ == it.seq().take(it.index() as int),
            it.seq() == s@,
    {
        chars.push(c);
    }
    chars
}

/// The string made of the characters `chars[from..to]`.
pub fn text_of(chars: &[char], from: usize, to: usize) -> (text: String)
    requires
        from <= to <= chars@.len(),
    ensures
        text@ == chars@.subrange(from as int, to as int),
{
    let mut text = String::new();
    let mut i: usize = from;
    while i < to
        invariant
            from <= i <= to <= chars@.len(),
            text@ == chars@.subrange(from as int, i as int),
        decreases to - i,
    {
        text.push(chars[i]);
        assert(chars@.subrange(from as int, i + 1) == chars@.subrange(from as int, i as int).push(
            chars@[i as int],
        ));
        i += 1;
    }
    text
}

/// Whether two strings hold the same characters.
pub fn same_text(a: &str, b: &str) -> (same: bool)
    ensures
        same == (a@ == b@),
{
    spells(chars_of(a).as_slice(), b)
}

/// Whether `chars` are the characters of `text`.
pub fn spells(chars: &[char], text: &str) -> (same: bool)
    ensures
        same == (chars@ == text@),
{
    let wanted = chars_of(text);
    assert(chars@.subrange(0, chars@.len() as int) =~= chars@);
    chars.len() == wanted.len() && matches_at(chars, wanted.as_slice(), 0)
}

/// The characters of every string in `texts`, in order.
pub open spec fn texts_view(texts: Seq<String>) -> Seq<Seq<char>> {
    texts.map_values(|text: String| text@)
}

/// The characters of every string slice in `texts`, in order.
pub open spec fn strs_view(texts: Seq<&str>) -> Seq<Seq<char>> {
    texts.map_values(|text: &str| text@)
}

/// Copies `texts`.
pub fn copy_texts(texts: &[String]) -> (copy: Vec<String>)
    ensures
        texts_view(copy@) == texts_view(texts@),
{
    let mut copy: Vec<String> = Vec::new();
    let mut i: usize = 0;
    while i < texts.len()
        invariant
            i <= texts@.len(),
            texts_view(copy@) == texts_view(texts@).take(i as int),
        decreases texts@.len() - i,
    {
        copy.push(texts[i].clone());
        assert(texts_view(texts@).take(i + 1) == texts_view(texts@).take(i as int).push(
            texts@[i as int]@,
        ));
        assert(texts_view(copy@) == texts_view(texts@).take(i + 1));
        i += 1;
    }
    assert(texts_view(texts@).take(i as int) == texts_view(texts@));
    copy
}

// ---------------------------------------------------------------------------
// Searching
// ---------------------------------------------------------------------------

/// Whether `pattern` stands in `s` at position `at`.
pub open spec fn occurs_at(s: Seq<char>, pattern: Seq<char>, at: int) -> bool {
    &&& 0 <= at
    &&& at + pattern.len() <= s.len()
    &&& s.subrange(at, at + pattern.len()) == pattern
}

/// The first position at or after `from` where `pattern` stands in `s`.
pub open spec fn first_occurrence(s: Seq<char>, pattern: Seq<char>, from: int) -> Option<int>
    decreases s.len() + 1 - from,
{
    if from < 0 || from + pattern.len() > s.len() {
        None
    } else if occurs_at(s, pattern, from) {
        Some(from)
    } else {
        first_occurrence(s, pattern, from + 1)
    }
}

/// `first_occurrence` finds an occurrence with none before it, and misses none.
pub proof fn lemma_first_occurrence(s: Seq<char>, pattern: Seq<char>, from: int)
    requires
        0 <= from,
    ensures
        match first_occurrence(s, pattern, from) {
            Some(at) => {
                &&& from <= at
                &&& occurs_at(s, pattern, at)
                &&& forall|i: int| from <= i < at ==> !occurs_at(s, pattern, i)
            },
            None => forall|i: int| from <= i ==> !occurs_at(s, pattern, i),
        },
    decreases s.len() + 1 - from,
{
    if from + pattern.len() <= s.len() && !occurs_at(s, pattern, from) {
        lemma_first_occurrence(s, pattern, from + 1);
    }
}

/// Whether `pattern` stands in `s` at position `at`.
pub fn matches_at(s: &[char], pattern: &[char], at: usize) -> (found: bool)
    ensures
        found == occurs_at(s@, pattern@, at as int),
{
    if at > s.len() || s.len() - at < pattern.len() {
        return false;
    }
    let len: usize = s.len();
    let mut i: usize = 0;
    while i < pattern.len()
        invariant
            i <= pattern@.len(),
            at + pattern@.len() <= s@.len(),
            len == s@.len(),
            forall|j: int| 0 <= j < i ==> #[trigger] pattern@[j] == s@[at + j],
        decreases pattern@.len() - i,
    {
        if s[at + i] != pattern[i] {
            assert(s@.subrange(at as int, at + pattern@.len())[i as int] != pattern@[i as int]);
            return false;
        }
        i += 1;
    }
    assert(s@.subrange(at as int, at + pattern@.len()) =~= pattern@);
    true
}

/// Finds the first occurrence of `pattern` in `s` at or after `from`.
pub fn find(s: &[char], pattern: &[char], from: usize) -> (at: Option<usize>)
    ensures
        match at {
            Some(at) => first_occurrence(s@, pattern@, from as int) == Some(at as int),
            None => first_occurrence(s@, pattern@, from as int) is None,
        },
{
    let mut i: usize = from;
    while i <= s.len() && s.len() - i >= pattern.len()
        invariant
            from <= i,
            first_occurrence(s@, pattern@, from as int) == first_occurrence(
                s@,
                pattern@,
                i as int,
            ),
        decreases s@.len() + 1 - i,
    {
        if matches_at(s, pattern, i) {
            return Some(i);
        }
        if i == s.len() {
            assert(s@.subrange(i as int, i as int) =~= pattern@);
            return None;
        }
        i += 1;
    }
    None
}

/// What follows `prefix` in a text that starts with it.
pub open spec fn after_prefix(s: Seq<char>, prefix: Seq<char>) -> Option<Seq<char>> {
    if occurs_at(s, prefix, 0) {
        Some(s.skip(prefix.len() as int))
    } else {
        None
    }
}

/// What follows `prefix` in a text that starts with it.
pub fn strip_prefix(s: &str, prefix: &str) -> (rest: Option<Vec<char>>)
    ensures
        match rest {
            Some(rest) => after_prefix(s@, prefix@) == Some(rest@),
            None => after_prefix(s@, prefix@) is None,
        },
{
    let chars = chars_of(s);
    let start = chars_of(prefix);
    if !matches_at(chars.as_slice(), start.as_slice(), 0) {
        return None;
    }
    let mut rest: Vec<char> = Vec::new();
    let mut i: usize = start.len();
    while i < chars.len()
        invariant
            start@.len() <= i <= chars@.len(),
            rest@ == chars@.subrange(start@.len() as int, i as int),
        decreases chars@.len() - i,
    {
        rest.push(chars[i]);
        assert(rest@ =~= chars@.subrange(start@.len() as int, i + 1));
        i += 1;
    }
    assert(rest@ =~= s@.skip(prefix@.len() as int));
    Some(rest)
}

// ---------------------------------------------------------------------------
// White space
// ---------------------------------------------------------------------------

/// The characters with the Unicode `White_Space` property.
pub open spec fn is_white(c: char) -> bool {
    let n = c as u32;
    ||| 0x9 <= n <= 0xd
    ||| n == 0x20
    ||| n == 0x85
    ||| n == 0xa0
    ||| n == 0x1680
    ||| 0x2000 <= n <= 0x200a
    ||| n == 0x2028
    ||| n == 0x2029
    ||| n == 0x202f
    ||| n == 0x205f
    ||| n == 0x3000
}

/// Whether `c` is white space.
pub fn is_whitespace(c: char) -> (white: bool)
    ensures
        white == is_white(c),
{
    let n: u32 = c as u32;
    (0x9 <= n && n <= 0xd) || n == 0x20 || n == 0x85 || n == 0xa0 || n == 0x1680 || (0x2000 <= n
        && n <= 0x200a) || n == 0x2028 || n == 0x2029 || n == 0x202f || n == 0x205f || n == 0x3000
}

/// `s` without its leading white space.
pub open spec fn trimmed_start(s: Seq<char>) -> Seq<char>
    decreases s.len(),
{
    if s.len() > 0 && is_white(s.first()) {
        trimmed_start(s.drop_first())
    } else {
        s
    }
}

/// `s` without its trailing white space.
pub open spec fn trimmed_end(s: Seq<char>) -> Seq<char>
    decreases s.len(),
{
    if s.len() > 0 && is_white(s.last()) {
        trimmed_end(s.drop_last())
    } else {
        s
    }
}

/// `s` without its leading and trailing white space.
pub open spec fn trimmed(s: Seq<char>) -> Seq<char> {
    trimmed_end(trimmed_start(s))
}

/// Trimming the end leaves a prefix whose last character is not white space.
pub proof fn lemma_trimmed_end(s: Seq<char>)
    ensures
        trimmed_end(s).len() <= s.len(),
        trimmed_end(s) == s.take(trimmed_end(s).len() as int),
        trimmed_end(s).len() > 0 ==> !is_white(trimmed_end(s).last()),
    decreases s.len(),
{
    if s.len() > 0 && is_white(s.last()) {
        lemma_trimmed_end(s.drop_last());
        assert(s.drop_last().take(trimmed_end(s).len() as int) =~= s.take(
            trimmed_end(s).len() as int,
        ));
    } else {
        assert(s.take(s.len() as int) =~= s);
    }
}

/// The end of `chars[..to]` once its trailing white space is gone.
fn end_of_text(chars: &[char], from: usize) -> (to: usize)
    requires
        from <= chars@.len(),
    ensures
        from <= to <= chars@.len(),
        chars@.subrange(from as int, to as int) == trimmed_end(
            chars@.subrange(from as int, chars@.len() as int),
        ),
{
    let mut to: usize = chars.len();
    while from < to && is_whitespace(chars[to - 1])
        invariant
            from <= to <= chars@.len(),
            trimmed_end(chars@.subrange(from as int, to as int)) == trimmed_end(
                chars@.subrange(from as int, chars@.len() as int),
            ),
        decreases to,
    {
        assert(chars@.subrange(from as int, to as int).drop_last() =~= chars@.subrange(
            from as int,
            to - 1,
        ));
        to -= 1;
    }
    to
}

/// Drops the white space at both ends of `s`.
pub fn trim(s: &str) -> (t: &str)
    ensures
        t@ == trimmed(s@),
{
    let chars = chars_of(s);
    let mut from: usize = 0;
    assert(chars@.subrange(0, chars@.len() as int) =~= s@);
    while from < chars.len() && is_whitespace(chars[from])
        invariant
            from <= chars@.len(),
            chars@ == s@,
            trimmed_start(chars@.subrange(from as int, chars@.len() as int)) == trimmed_start(s@),
        decreases chars@.len() - from,
    {
        assert(chars@.subrange(from as int, chars@.len() as int).drop_first() =~= chars@.subrange(
            from + 1,
            chars@.len() as int,
        ));
        from += 1;
    }
    let to = end_of_text(chars.as_slice(), from);
    s.substring_char(from, to)
}

/// Drops the white space at the end of `s`.
pub fn trim_end(s: &str) -> (t: &str)
    ensures
        t@ == trimmed_end(s@),
{
    let chars = chars_of(s);
    assert(chars@.subrange(0, chars@.len() as int) =~= s@);
    let to = end_of_text(chars.as_slice(), 0);
    s.substring_char(0, to)
}

// ---------------------------------------------------------------------------
// Letter case
// ---------------------------------------------------------------------------

/// Whether `c` is one of `a` to `z`.
pub open spec fn is_lower(c: char) -> bool {
    'a' <= c <= 'z'
}

/// `c` with an ASCII capital made small.
pub open spec fn lower(c: char) -> char {
    if 'A' <= c <= 'Z' {
        ((c as u32) + 32) as char
    } else {
        c
    }
}

/// `s` with every ASCII capital made small.
pub open spec fn folded(s: Seq<char>) -> Seq<char> {
    s.map_values(|c: char| lower(c))
}

/// Whether `c` is one of `a` to `z`.
pub fn is_ascii_lowercase(c: char) -> (small: bool)
    ensures
        small == is_lower(c),
{
    'a' <= c && c <= 'z'
}

/// Whether two characters differ at most by ASCII letter case.
fn same_letter(a: char, b: char) -> (same: bool)
    ensures
        same == (lower(a) == lower(b)),
{
    let x: u32 = a as u32;
    let y: u32 = b as u32;
    let x: u32 = if 65 <= x && x <= 90 { x + 32 } else { x };
    let y: u32 = if 65 <= y && y <= 90 { y + 32 } else { y };
    x == y
}

/// Whether two strings are equal but for ASCII letter case.
pub fn eq_ignore_ascii_case(a: &str, b: &str) -> (same: bool)
    ensures
        same == (folded(a@) == folded(b@)),
{
    let left = chars_of(a);
    let right = chars_of(b);
    if left.len() != right.len() {
        assert(folded(a@).len() != folded(b@).len());
        return false;
    }
    let mut i: usize = 0;
    while i < left.len()
        invariant
            left@ == a@,
            right@ == b@,
            left@.len() == right@.len(),
            i <= left@.len(),
            forall|j: int| 0 <= j < i ==> #[trigger] lower(left@[j]) == lower(right@[j]),
        decreases left@.len() - i,
    {
        if !same_letter(left[i], right[i]) {
            assert(folded(a@)[i as int] != folded(b@)[i as int]);
            return false;
        }
        i += 1;
    }
    assert(folded(a@) =~= folded(b@));
    true
}

// ---------------------------------------------------------------------------
// Splitting
// ---------------------------------------------------------------------------

/// The pieces of `s` between its separators; one piece more than separators.
pub open spec fn pieces(s: Seq<char>, separator: char) -> Seq<Seq<char>>
    decreases s.len(),
{
    if s.len() == 0 {
        seq![Seq::empty()]
    } else {
        let before = pieces(s.drop_last(), separator);
        if s.last() == separator {
            before.push(Seq::empty())
        } else {
            before.drop_last().push(before.last().push(s.last()))
        }
    }
}

/// The characters of every vector in `texts`, in order.
pub open spec fn chars_view(texts: Seq<Vec<char>>) -> Seq<Seq<char>> {
    texts.map_values(|text: Vec<char>| text@)
}

/// Splits `s` at every `separator`.
pub fn split(s: &[char], separator: char) -> (parts: Vec<Vec<char>>)
    ensures
        parts@.len() > 0,
        chars_view(parts@) == pieces(s@, separator),
{
    let mut done: Vec<Vec<char>> = Vec::new();
    let mut current: Vec<char> = Vec::new();
    let mut i: usize = 0;
    assert(s@.take(0) =~= Seq::empty());
    assert(chars_view(done@).push(current@) =~= pieces(s@.take(0), separator));
    while i < s.len()
        invariant
            i <= s@.len(),
            chars_view(done@).push(current@) == pieces(s@.take(i as int), separator),
        decreases s@.len() - i,
    {
        let ghost before = chars_view(done@).push(current@);
        assert(s@.take(i + 1).drop_last() =~= s@.take(i as int));
        assert(before.drop_last() =~= chars_view(done@));
        if s[i] == separator {
            done.push(current);
            current = Vec::new();
            assert(chars_view(done@) =~= before);
        } else {
            current.push(s[i]);
        }
        assert(chars_view(done@).push(current@) =~= pieces(s@.take(i + 1), separator));
        i += 1;
    }
    assert(s@.take(i as int) =~= s@);
    let ghost before = chars_view(done@).push(current@);
    done.push(current);
    assert(chars_view(done@) =~= before);
    done
}

/// `s` without a trailing carriage return.
pub open spec fn without_return(s: Seq<char>) -> Seq<char> {
    if s.len() > 0 && s.last() == '\r' {
        s.drop_last()
    } else {
        s
    }
}

/// The lines of `s`. A line ends with `\n` or `\r\n`, which it does not
/// include; what follows the last line ending is a line unless it is empty.
pub open spec fn lines_of(s: Seq<char>) -> Seq<Seq<char>> {
    let all = pieces(s, '\n');
    let ended = all.drop_last().map_values(|line: Seq<char>| without_return(line));
    if all.last().len() == 0 {
        ended
    } else {
        ended.push(all.last())
    }
}

/// Splits `s` into its lines.
pub fn lines(s: &[char]) -> (found: Vec<Vec<char>>)
    ensures
        chars_view(found@) == lines_of(s@),
{
    let mut found = split(s, '\n');
    let ghost all = pieces(s@, '\n');
    let last = found.pop();
    assert(chars_view(found@) =~= all.drop_last());
    let mut i: usize = 0;
    while i < found.len()
        invariant
            i <= found@.len(),
            found@.len() == all.len() - 1,
            forall|j: int|
                0 <= j < i ==> #[trigger] found@[j]@ == without_return(all[j]),
            forall|j: int| i <= j < found@.len() ==> #[trigger] found@[j]@ == all[j],
        decreases found@.len() - i,
    {
        let mut line: Vec<char> = Vec::new();
        std::mem::swap(&mut line, &mut found[i]);
        let len: usize = line.len();
        if len > 0 && line[len - 1] == '\r' {
            line.pop();
            assert(line@ =~= all[i as int].drop_last());
        }
        found[i] = line;
        i += 1;
    }
    assert(chars_view(found@) =~= all.drop_last().map_values(
        |line: Seq<char>| without_return(line),
    ));
    match last {
        Some(line) => {
            assert(line@ == all.last());
            if line.len() > 0 {
                let ghost ended = chars_view(found@);
                found.push(line);
                assert(chars_view(found@) =~= ended.push(all.last()));
            }
        },
        None => {},
    }
    found
}

// ---------------------------------------------------------------------------
// Laws
// ---------------------------------------------------------------------------

/// Texts with a gap between each and the next.
pub open spec fn interleaved(texts: Seq<Seq<char>>, gaps: Seq<Seq<char>>) -> Seq<char>
    decreases gaps.len(),
{
    if gaps.len() == 0 {
        texts.first()
    } else {
        texts.first() + gaps.first() + interleaved(texts.skip(1), gaps.skip(1))
    }
}

/// The last text and the gap before it come after all the others.
pub proof fn lemma_interleaved_last(texts: Seq<Seq<char>>, gaps: Seq<Seq<char>>)
    requires
        gaps.len() > 0,
        texts.len() == gaps.len() + 1,
    ensures
        interleaved(texts, gaps) == interleaved(texts.drop_last(), gaps.drop_last()) + gaps.last()
            + texts.last(),
    decreases gaps.len(),
{
    if gaps.len() == 1 {
        assert(interleaved(texts.skip(1), gaps.skip(1)) == texts.skip(1).first());
        assert(interleaved(texts.drop_last(), gaps.drop_last()) == texts.first());
        assert(interleaved(texts, gaps) =~= texts.first() + gaps.last() + texts.last());
    } else {
        lemma_interleaved_last(texts.skip(1), gaps.skip(1));
        assert(texts.skip(1).drop_last() =~= texts.drop_last().skip(1));
        assert(gaps.skip(1).drop_last() =~= gaps.drop_last().skip(1));
        let middle = interleaved(texts.drop_last().skip(1), gaps.drop_last().skip(1));
        let head = texts.first() + gaps.first();
        assert(interleaved(texts, gaps) == head + (middle + gaps.last() + texts.last()));
        assert(interleaved(texts.drop_last(), gaps.drop_last()) == head + middle);
        assert(head + (middle + gaps.last() + texts.last()) =~= (head + middle) + gaps.last()
            + texts.last());
    }
}

/// Whether every character of a text is white space.
pub open spec fn is_blank(s: Seq<char>) -> bool {
    forall|i: int| 0 <= i < s.len() ==> is_white(#[trigger] s[i])
}

/// Of the ASCII characters the space and the controls from tab to carriage
/// return are white space, and no others.
pub proof fn law_ascii_white_space(c: char)
    requires
        (c as u32) < 128,
    ensures
        is_white(c) == (c == ' ' || c == '\t' || c == '\n' || c == '\r' || c as u32 == 11 || c as u32
            == 12),
{
}

/// White space before a text that does not start with it is what trimming the
/// start drops.
proof fn lemma_trimmed_start(white: Seq<char>, text: Seq<char>)
    requires
        is_blank(white),
        text.len() > 0 ==> !is_white(text.first()),
    ensures
        trimmed_start(white + text) == text,
    decreases white.len(),
{
    if white.len() == 0 {
        assert(white + text =~= text);
    } else {
        let rest = white.drop_first();
        assert(is_white(white[0]));
        assert forall|i: int| 0 <= i < rest.len() implies is_white(#[trigger] rest[i]) by {
            assert(is_white(white[i + 1]));
        }
        assert((white + text).drop_first() =~= rest + text);
        assert((white + text).first() == white[0]);
        lemma_trimmed_start(rest, text);
    }
}

/// Trimming the end drops the white space there and nothing else.
pub proof fn law_trimming_the_end(text: Seq<char>, white: Seq<char>)
    requires
        is_blank(white),
        text.len() > 0 ==> !is_white(text.last()),
    ensures
        trimmed_end(text + white) == text,
    decreases white.len(),
{
    if white.len() == 0 {
        assert(text + white =~= text);
    } else {
        let rest = white.drop_last();
        assert(is_white(white[white.len() - 1]));
        assert forall|i: int| 0 <= i < rest.len() implies is_white(#[trigger] rest[i]) by {
            assert(is_white(white[i]));
        }
        assert((text + white).drop_last() =~= text + rest);
        assert((text + white).last() == white.last());
        law_trimming_the_end(text, rest);
    }
}

/// Trimming drops the white space at both ends and nothing else; of white
/// space alone nothing is left.
pub proof fn law_trimming(before: Seq<char>, text: Seq<char>, after: Seq<char>)
    requires
        is_blank(before),
        is_blank(after),
        text.len() > 0 ==> !is_white(text.first()) && !is_white(text.last()),
    ensures
        trimmed(before + text + after) == text,
{
    if text.len() > 0 {
        assert(before + text + after =~= before + (text + after));
        lemma_trimmed_start(before, text + after);
        law_trimming_the_end(text, after);
    } else {
        let white = before + text + after;
        assert forall|i: int| 0 <= i < white.len() implies is_white(#[trigger] white[i]) by {
            if i < before.len() {
                assert(white[i] == before[i]);
            } else {
                assert(white[i] == after[i - before.len()]);
            }
        }
        assert(white =~= white + text);
        lemma_trimmed_start(white, text);
        assert(trimmed_end(text) == text);
    }
}

/// Folding changes the letters `A` to `Z` to `a` to `z`, one for one, and
/// nothing else.
pub proof fn law_folding(s: Seq<char>, i: int)
    requires
        0 <= i < s.len(),
    ensures
        folded(s).len() == s.len(),
        65 <= s[i] as u32 <= 90 ==> folded(s)[i] as u32 == s[i] as u32 + 32,
        !(65 <= s[i] as u32 <= 90) ==> folded(s)[i] == s[i],
{
}

/// The pieces of a text hold no separator, and with separators between them
/// they are the text.
pub proof fn law_pieces_make_the_text(s: Seq<char>, separator: char)
    ensures
        pieces(s, separator).len() > 0,
        forall|i: int|
            0 <= i < pieces(s, separator).len() ==> !(#[trigger] pieces(s, separator)[i]).contains(
                separator,
            ),
        interleaved(
            pieces(s, separator),
            Seq::new((pieces(s, separator).len() - 1) as nat, |i: int| seq![separator]),
        ) == s,
    decreases s.len(),
{
    let all = pieces(s, separator);
    let gaps = Seq::new((all.len() - 1) as nat, |i: int| seq![separator]);
    if s.len() == 0 {
        assert(interleaved(all, gaps) =~= s);
    } else {
        let before = pieces(s.drop_last(), separator);
        let fewer = Seq::new((before.len() - 1) as nat, |i: int| seq![separator]);
        law_pieces_make_the_text(s.drop_last(), separator);
        if s.last() == separator {
            assert(all.drop_last() =~= before);
            lemma_interleaved_last(all, gaps);
            assert(gaps.drop_last() =~= fewer);
            assert(s =~= s.drop_last() + seq![separator] + Seq::empty());
        } else {
            let last = before.last().push(s.last());
            assert(all.drop_last() =~= before.drop_last());
            assert(!last.contains(separator)) by {
                if last.contains(separator) {
                    let i = choose|i: int| 0 <= i < last.len() && last[i] == separator;
                    assert(before[before.len() - 1][i] == separator);
                }
            }
            assert(gaps =~= fewer);
            if gaps.len() > 0 {
                lemma_interleaved_last(all, gaps);
                lemma_interleaved_last(before, fewer);
                let head = interleaved(before.drop_last(), fewer.drop_last()) + fewer.last();
                assert(head + last =~= (head + before.last()).push(s.last()));
            } else {
                assert(interleaved(all, gaps) == last);
                assert(interleaved(before, fewer) == before.last());
            }
            assert(s.drop_last().push(s.last()) =~= s);
        }
    }
}

/// Texts without a separator, with separators between them, have those texts
/// as their pieces.
pub proof fn law_texts_are_the_pieces(texts: Seq<Seq<char>>, separator: char)
    requires
        texts.len() > 0,
        forall|i: int| 0 <= i < texts.len() ==> !(#[trigger] texts[i]).contains(separator),
    ensures
        pieces(
            interleaved(texts, Seq::new((texts.len() - 1) as nat, |i: int| seq![separator])),
            separator,
        ) == texts,
    decreases texts.len(), texts.last().len(),
{
    let gaps = Seq::new((texts.len() - 1) as nat, |i: int| seq![separator]);
    let s = interleaved(texts, gaps);
    let last = texts.last();
    if last.len() > 0 {
        let shorter = texts.drop_last().push(last.drop_last());
        assert forall|i: int| 0 <= i < shorter.len() implies !(#[trigger] shorter[i]).contains(
            separator,
        ) by {
            assert(!texts[i].contains(separator));
            if shorter[i].contains(separator) {
                let j = choose|j: int| 0 <= j < shorter[i].len() && shorter[i][j] == separator;
                assert(texts[i][j] == separator);
            }
        }
        law_texts_are_the_pieces(shorter, separator);
        assert(shorter.drop_last() =~= texts.drop_last());
        assert(gaps =~= Seq::new((shorter.len() - 1) as nat, |i: int| seq![separator]));
        if gaps.len() > 0 {
            lemma_interleaved_last(texts, gaps);
            lemma_interleaved_last(shorter, gaps);
            let head = interleaved(texts.drop_last(), gaps.drop_last()) + gaps.last();
            assert(s == head + last);
            assert(interleaved(shorter, gaps) == head + last.drop_last());
            assert(s.drop_last() =~= head + last.drop_last());
        } else {
            assert(s == last);
            assert(interleaved(shorter, gaps) == last.drop_last());
        }
        assert(last.contains(last.last()));
        assert(!texts[texts.len() - 1].contains(separator));
        assert(pieces(s.drop_last(), separator) == shorter);
        assert(last.drop_last().push(last.last()) =~= last);
        assert(s.last() == last.last());
        assert(pieces(s, separator) =~= texts);
    } else if texts.len() > 1 {
        let fewer = texts.drop_last();
        assert forall|i: int| 0 <= i < fewer.len() implies !(#[trigger] fewer[i]).contains(
            separator,
        ) by {
            assert(!texts[i].contains(separator));
        }
        law_texts_are_the_pieces(fewer, separator);
        lemma_interleaved_last(texts, gaps);
        assert(gaps.drop_last() =~= Seq::new(
            (fewer.len() - 1) as nat,
            |i: int| seq![separator],
        ));
        assert(s.drop_last() =~= interleaved(fewer, gaps.drop_last()));
        assert(s.last() == separator);
        assert(last =~= Seq::empty());
        assert(pieces(s, separator) =~= texts);
    } else {
        assert(s == last);
        assert(s =~= Seq::empty());
        assert(pieces(s, separator) =~= texts);
    }
}

/// A pattern occurs where the text before it ends, and a text in which it
/// occurs is what stands before it, the pattern, and what stands behind it.
pub proof fn law_occurrences(before: Seq<char>, pattern: Seq<char>, after: Seq<char>, at: int)
    ensures
        occurs_at(before + pattern + after, pattern, before.len() as int),
        occurs_at(before, pattern, at) ==> before == before.take(at) + pattern + before.skip(
            at + pattern.len(),
        ),
{
    let s = before + pattern + after;
    assert(s.subrange(before.len() as int, before.len() as int + pattern.len()) =~= pattern);
    if occurs_at(before, pattern, at) {
        assert(before =~= before.take(at) + before.subrange(at, at + pattern.len()) + before.skip(
            at + pattern.len(),
        ));
    }
}

/// Lines, each with a line end behind it, are the lines of the text they make;
/// the last one may lack its line end if it is not empty.
pub proof fn law_lines_are_what_stands_between_line_ends(texts: Seq<Seq<char>>)
    requires
        texts.len() > 0,
        forall|i: int|
            0 <= i < texts.len() ==> !(#[trigger] texts[i]).contains('\n') && !texts[i].contains(
                '\r',
            ),
    ensures
        ({
            let text = interleaved(
                texts,
                Seq::new((texts.len() - 1) as nat, |i: int| seq!['\n']),
            );
            &&& lines_of(text + seq!['\n']) == texts
            &&& texts.last().len() > 0 ==> lines_of(text) == texts
        }),
{
    let gaps = Seq::new((texts.len() - 1) as nat, |i: int| seq!['\n']);
    let text = interleaved(texts, gaps);
    law_texts_are_the_pieces(texts, '\n');
    let ended = text + seq!['\n'];
    assert(ended.drop_last() =~= text);
    assert(pieces(ended, '\n') == texts.push(Seq::empty()));
    assert forall|i: int| 0 <= i < texts.len() implies without_return(#[trigger] texts[i])
        == texts[i] by {
        if texts[i].len() > 0 {
            assert(texts[i].contains(texts[i].last()));
        }
    }
    assert(texts.push(Seq::empty()).drop_last() =~= texts);
    assert(lines_of(ended) =~= texts);
    if texts.last().len() > 0 {
        assert(lines_of(text) =~= texts);
    }
}

/// A carriage return before a line end belongs to the line end.
pub proof fn law_carriage_returns_belong_to_line_ends(line: Seq<char>)
    requires
        !line.contains('\n'),
    ensures
        lines_of(line + seq!['\r', '\n']) == seq![line],
{
    let whole = line + seq!['\r'];
    assert(!whole.contains('\n')) by {
        if whole.contains('\n') {
            let i = choose|i: int| 0 <= i < whole.len() && whole[i] == '\n';
            if i < line.len() {
                assert(line[i] == '\n');
            }
        }
    }
    let texts = seq![whole];
    law_texts_are_the_pieces(texts, '\n');
    assert(interleaved(texts, Seq::new((texts.len() - 1) as nat, |i: int| seq!['\n'])) == whole);
    let text = line + seq!['\r', '\n'];
    assert(text.drop_last() =~= whole);
    assert(pieces(text, '\n') == texts.push(Seq::empty()));
    assert(texts.push(Seq::empty()).drop_last() =~= texts);
    assert(whole.drop_last() =~= line);
    assert(lines_of(text) =~= seq![line]);
}

/// The characters with the Unicode `White_Space` property, by their numbers.
pub proof fn law_white_space(c: char)
    ensures
        is_white(c) <==> seq![
            9int, 10, 11, 12, 13, 32, 133, 160, 5760, 8192, 8193, 8194, 8195, 8196, 8197, 8198, 8199,
            8200, 8201, 8202, 8232, 8233, 8239, 8287, 12288,
        ].contains(c as int),
{
    let all = seq![
        9int, 10, 11, 12, 13, 32, 133, 160, 5760, 8192, 8193, 8194, 8195, 8196, 8197, 8198, 8199,
        8200, 8201, 8202, 8232, 8233, 8239, 8287, 12288,
    ];
    let n = c as int;
    if is_white(c) {
        let i: int = if n <= 13 {
            n - 9
        } else if n == 32 {
            5
        } else if n == 133 {
            6
        } else if n == 160 {
            7
        } else if n == 5760 {
            8
        } else if n <= 8202 {
            9 + n - 8192
        } else if n == 8232 {
            20
        } else if n == 8233 {
            21
        } else if n == 8239 {
            22
        } else if n == 8287 {
            23
        } else {
            24
        };
        assert(0 <= i < all.len() && all[i] == n);
    }
    if all.contains(n) {
        let i = choose|i: int| 0 <= i < all.len() && all[i] == n;
        assert(is_white(c));
    }
}

/// Lists of strings are seen as the characters of their strings, one for one.
pub proof fn law_lists_of_strings_are_seen_whole(
    texts: Seq<String>,
    slices: Seq<&str>,
    vectors: Seq<Vec<char>>,
    i: int,
)
    ensures
        texts_view(texts).len() == texts.len(),
        0 <= i < texts.len() ==> texts_view(texts)[i] == texts[i]@,
        strs_view(slices).len() == slices.len(),
        0 <= i < slices.len() ==> strs_view(slices)[i] == slices[i]@,
        chars_view(vectors).len() == vectors.len(),
        0 <= i < vectors.len() ==> chars_view(vectors)[i] == vectors[i]@,
{
}

} // verus!
