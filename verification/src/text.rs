//! Text: comparing, cutting and putting it together.

use vstd::prelude::*;
use vstd::string::{StrSliceExecFns, StringExecFns};

verus! {

/// The digit character of a number below ten.
pub open spec fn digit(n: nat) -> char {
    (n + 48) as char
}

/// A number in decimal digits.
pub open spec fn decimal(n: nat) -> Seq<char>
    decreases n,
{
    if n < 10 {
        seq![digit(n)]
    } else {
        decimal(n / 10).push(digit(n % 10))
    }
}

/// A number in decimal digits, with a sign in front when it is negative.
pub open spec fn signed_decimal(n: int) -> Seq<char> {
    if n < 0 {
        seq!['-'] + decimal((-n) as nat)
    } else {
        decimal(n as nat)
    }
}

fn digit_text(n: u64) -> (text: &'static str)
    requires
        n < 10,
    ensures
        text@ == seq![digit(n as nat)],
{
    proof {
        reveal_strlit("0");
        reveal_strlit("1");
        reveal_strlit("2");
        reveal_strlit("3");
        reveal_strlit("4");
        reveal_strlit("5");
        reveal_strlit("6");
        reveal_strlit("7");
        reveal_strlit("8");
        reveal_strlit("9");
    }
    let text = match n {
        0 => "0",
        1 => "1",
        2 => "2",
        3 => "3",
        4 => "4",
        5 => "5",
        6 => "6",
        7 => "7",
        8 => "8",
        _ => "9",
    };
    assert(text@ =~= seq![digit(n as nat)]);
    text
}

/// Adds a number in decimal digits to a text.
pub fn push_decimal(text: &mut String, n: u64)
    ensures
        final(text)@ == old(text)@ + decimal(n as nat),
    decreases n,
{
    let ghost before = text@;
    if n >= 10 {
        push_decimal(text, n / 10);
        text.append(digit_text(n % 10));
        assert(text@ =~= before + decimal(n as nat));
    } else {
        text.append(digit_text(n));
    }
}

/// Adds a number in decimal digits to a text, with its sign when it is negative.
pub fn push_signed(text: &mut String, n: i64)
    ensures
        final(text)@ == old(text)@ + signed_decimal(n as int),
{
    let ghost before = text@;
    if n < 0 {
        proof {
            reveal_strlit("-");
        }
        text.append("-");
        assert(text@ =~= before + seq!['-']);
        let magnitude: u64 = (-(n + 1)) as u64 + 1;
        push_decimal(text, magnitude);
        assert(text@ =~= before + signed_decimal(n as int));
    } else {
        push_decimal(text, n as u64);
    }
}

/// Whether two texts are the same.
pub fn same(a: &str, b: &str) -> (equal: bool)
    ensures
        equal == (a@ == b@),
{
    a.to_owned() == b.to_owned()
}

/// Whether a text starts with another.
pub open spec fn begins(text: Seq<char>, prefix: Seq<char>) -> bool {
    prefix.len() <= text.len() && text.take(prefix.len() as int) == prefix
}

/// Whether a text starts with another.
pub fn starts_with(text: &str, prefix: &str) -> (starts: bool)
    ensures
        starts == begins(text@, prefix@),
{
    let len: usize = prefix.unicode_len();
    if len > text.unicode_len() {
        return false;
    }
    let head = text.substring_char(0, len);
    assert(head@ =~= text@.take(len as int));
    same(head, prefix)
}

/// A text without what it starts with.
pub fn without_prefix<'a>(text: &'a str, prefix: &str) -> (rest: &'a str)
    requires
        begins(text@, prefix@),
    ensures
        rest@ == text@.skip(prefix@.len() as int),
{
    let rest = text.substring_char(prefix.unicode_len(), text.unicode_len());
    assert(rest@ =~= text@.skip(prefix@.len() as int));
    rest
}

/// The characters with Unicode's `White_Space` property.
pub open spec fn is_space(c: char) -> bool {
    let code = c as u32;
    ||| 0x9 <= code <= 0xd
    ||| code == 0x20
    ||| code == 0x85
    ||| code == 0xa0
    ||| code == 0x1680
    ||| 0x2000 <= code <= 0x200a
    ||| code == 0x2028
    ||| code == 0x2029
    ||| code == 0x202f
    ||| code == 0x205f
    ||| code == 0x3000
}

/// The characters that can be cut off the ends of a text.
#[derive(Clone, Copy, PartialEq, Eq, Structural, Debug)]
pub enum CutSet {
    WhiteSpace,
    DoubleQuotes,
}

/// Whether a character is in a set.
pub open spec fn is_cut(set: CutSet, c: char) -> bool {
    match set {
        CutSet::WhiteSpace => is_space(c),
        CutSet::DoubleQuotes => c == '"',
    }
}

fn cuts(set: CutSet, c: char) -> (cut: bool)
    ensures
        cut == is_cut(set, c),
{
    match set {
        CutSet::WhiteSpace => {
            let code: u32 = c as u32;
            (0x9 <= code && code <= 0xd) || code == 0x20 || code == 0x85 || code == 0xa0 || code
                == 0x1680 || (0x2000 <= code && code <= 0x200a) || code == 0x2028 || code == 0x2029
                || code == 0x202f || code == 0x205f || code == 0x3000
        },
        CutSet::DoubleQuotes => c == '"',
    }
}

/// A text without the characters of a set at its start.
pub open spec fn cut_start(text: Seq<char>, set: CutSet) -> Seq<char>
    decreases text.len(),
{
    if text.len() > 0 && is_cut(set, text[0]) {
        cut_start(text.skip(1), set)
    } else {
        text
    }
}

/// A text without the characters of a set at its end.
pub open spec fn cut_end(text: Seq<char>, set: CutSet) -> Seq<char>
    decreases text.len(),
{
    if text.len() > 0 && is_cut(set, text.last()) {
        cut_end(text.drop_last(), set)
    } else {
        text
    }
}

/// A text without the characters of a set at its ends.
pub open spec fn cut_ends(text: Seq<char>, set: CutSet) -> Seq<char> {
    cut_end(cut_start(text, set), set)
}

/// A text without the white space at its ends.
pub open spec fn trimmed(text: Seq<char>) -> Seq<char> {
    cut_ends(text, CutSet::WhiteSpace)
}

/// A text without the characters of a set at its ends.
pub fn cut<'a>(text: &'a str, set: CutSet) -> (inner: &'a str)
    ensures
        inner@ == cut_ends(text@, set),
{
    let len: usize = text.unicode_len();
    let mut start: usize = 0;
    assert(text@.skip(0) =~= text@);
    while start < len
        invariant
            start <= len,
            len == text@.len(),
            cut_start(text@.skip(start as int), set) == cut_start(text@, set),
        ensures
            start <= len,
            cut_start(text@, set) == text@.skip(start as int),
        decreases len - start,
    {
        assert(text@.skip(start as int)[0] == text@[start as int]);
        if !cuts(set, text.get_char(start)) {
            break ;
        }
        assert(text@.skip(start as int).skip(1) =~= text@.skip(start + 1));
        start = start + 1;
    }
    let ghost rest = text@.skip(start as int);
    let mut end: usize = len;
    assert(text@.subrange(start as int, len as int) =~= rest);
    while end > start
        invariant
            start <= end <= len,
            len == text@.len(),
            cut_end(text@.subrange(start as int, end as int), set) == cut_end(rest, set),
        ensures
            start <= end <= len,
            cut_end(rest, set) == text@.subrange(start as int, end as int),
        decreases end,
    {
        let ghost part = text@.subrange(start as int, end as int);
        assert(part.last() == text@[end - 1]);
        if !cuts(set, text.get_char(end - 1)) {
            break ;
        }
        assert(part.drop_last() =~= text@.subrange(start as int, end - 1));
        end = end - 1;
    }
    text.substring_char(start, end)
}

/// A text without the white space at its ends.
pub fn trim<'a>(text: &'a str) -> (inner: &'a str)
    ensures
        inner@ == trimmed(text@),
{
    cut(text, CutSet::WhiteSpace)
}

/// Where a character first stands in a text; its length when it does not.
pub open spec fn place_of(text: Seq<char>, c: char) -> int
    decreases text.len(),
{
    if text.len() == 0 || text[0] == c {
        0
    } else {
        1 + place_of(text.skip(1), c)
    }
}

/// Where a character first stands in a text, from `from` on.
fn find_char(text: &str, from: usize, c: char) -> (at: usize)
    requires
        from <= text@.len(),
    ensures
        at == from + place_of(text@.skip(from as int), c),
        from <= at <= text@.len(),
        at < text@.len() ==> text@[at as int] == c,
{
    let len: usize = text.unicode_len();
    let mut at: usize = from;
    while at < len
        invariant
            from <= at <= len,
            len == text@.len(),
            at + place_of(text@.skip(at as int), c) == from + place_of(text@.skip(from as int), c),
        ensures
            from <= at <= len,
            at == from + place_of(text@.skip(from as int), c),
            at < len ==> text@[at as int] == c,
        decreases len - at,
    {
        assert(text@.skip(at as int)[0] == text@[at as int]);
        if text.get_char(at) == c {
            break ;
        }
        assert(text@.skip(at as int).skip(1) =~= text@.skip(at + 1));
        at = at + 1;
    }
    at
}

/// The first line of a text: up to its first line feed, without a carriage
/// return just before that.
pub open spec fn first_line(text: Seq<char>) -> Seq<char> {
    let end = place_of(text, '\n');
    if end < text.len() && end > 0 && text[end - 1] == '\r' {
        text.take(end - 1)
    } else {
        text.take(end)
    }
}

/// What follows the first line of a text.
pub open spec fn after_line(text: Seq<char>) -> Seq<char> {
    let end = place_of(text, '\n');
    if end < text.len() {
        text.skip(end + 1)
    } else {
        Seq::empty()
    }
}

/// A place in a text is in the text.
pub proof fn lemma_place_is_inside(text: Seq<char>, c: char)
    ensures
        0 <= place_of(text, c) <= text.len(),
        place_of(text, c) < text.len() ==> text[place_of(text, c)] == c,
    decreases text.len(),
{
    if text.len() > 0 && text[0] != c {
        lemma_place_is_inside(text.skip(1), c);
    }
}

/// The lines of a text. A line feed at the very end starts no line.
pub open spec fn lines_of(text: Seq<char>) -> Seq<Seq<char>>
    decreases text.len(),
{
    if text.len() == 0 {
        Seq::empty()
    } else {
        proof {
            lemma_place_is_inside(text, '\n');
        }
        seq![first_line(text)] + lines_of(after_line(text))
    }
}

/// The contents of some texts.
pub open spec fn texts(parts: Seq<&str>) -> Seq<Seq<char>> {
    Seq::new(parts.len(), |i: int| parts[i]@)
}

/// The lines of a text.
pub fn lines<'a>(text: &'a str) -> (lines: Vec<&'a str>)
    ensures
        texts(lines@) == lines_of(text@),
{
    let len: usize = text.unicode_len();
    let mut lines: Vec<&'a str> = Vec::new();
    let mut start: usize = 0;
    assert(text@.skip(0) =~= text@);
    assert(texts(lines@) =~= Seq::empty());
    while start < len
        invariant
            start <= len,
            len == text@.len(),
            texts(lines@) + lines_of(text@.skip(start as int)) == lines_of(text@),
        decreases len - start,
    {
        let ghost rest = text@.skip(start as int);
        let ghost before = lines@;
        proof {
            lemma_place_is_inside(rest, '\n');
        }
        let end: usize = find_char(text, start, '\n');
        let cut: usize = if end < len && end > start && text.get_char(end - 1) == '\r' {
            end - 1
        } else {
            end
        };
        let line = text.substring_char(start, cut);
        lines.push(line);
        proof {
            assert(end > start ==> rest[end - start - 1] == text@[end - 1]);
            assert(line@ =~= first_line(rest));
            assert(texts(lines@) =~= texts(before).push(first_line(rest)));
        }
        start = if end < len {
            end + 1
        } else {
            len
        };
        proof {
            assert(text@.skip(start as int) =~= after_line(rest));
            assert(texts(lines@) + lines_of(after_line(rest)) =~= texts(before) + lines_of(rest));
        }
    }
    proof {
        assert(text@.skip(start as int) =~= Seq::empty());
        assert(texts(lines@) =~= lines_of(text@));
    }
    lines
}

/// A text cut in two at the first occurrence of a character, which belongs to
/// neither part; `None` when it does not occur.
pub fn split_at_char<'a>(text: &'a str, c: char) -> (parts: Option<(&'a str, &'a str)>)
    ensures
        parts is Some <==> place_of(text@, c) < text@.len(),
        parts matches Some((left, right)) ==> {
            &&& left@ == text@.take(place_of(text@, c))
            &&& right@ == text@.skip(place_of(text@, c) + 1)
        },
{
    assert(text@.skip(0) =~= text@);
    let at: usize = find_char(text, 0, c);
    let len: usize = text.unicode_len();
    if at >= len {
        return None;
    }
    let left = text.substring_char(0, at);
    let right = text.substring_char(at + 1, len);
    assert(left@ =~= text@.take(at as int));
    assert(right@ =~= text@.skip(at + 1));
    Some((left, right))
}

/// How many characters a text has before its first white space.
pub open spec fn word_len(text: Seq<char>) -> nat
    decreases text.len(),
{
    if text.len() == 0 || is_space(text[0]) {
        0
    } else {
        1 + word_len(text.skip(1))
    }
}

/// A word is no longer than its text.
pub proof fn lemma_word_is_inside(text: Seq<char>)
    ensures
        word_len(text) <= text.len(),
        text.len() > 0 && !is_space(text[0]) ==> word_len(text) > 0,
    decreases text.len(),
{
    if text.len() > 0 && !is_space(text[0]) {
        lemma_word_is_inside(text.skip(1));
    }
}

/// The words of a text: its longest parts without white space, in order.
pub open spec fn words_of(text: Seq<char>) -> Seq<Seq<char>>
    decreases text.len(),
{
    if text.len() == 0 {
        Seq::empty()
    } else if is_space(text[0]) {
        words_of(text.skip(1))
    } else {
        proof {
            lemma_word_is_inside(text);
        }
        seq![text.take(word_len(text) as int)] + words_of(text.skip(word_len(text) as int))
    }
}

/// The words of a text.
pub fn split_words<'a>(text: &'a str) -> (words: Vec<&'a str>)
    ensures
        texts(words@) == words_of(text@),
{
    let len: usize = text.unicode_len();
    let mut words: Vec<&'a str> = Vec::new();
    let mut start: usize = 0;
    assert(text@.skip(0) =~= text@);
    assert(texts(words@) =~= Seq::empty());
    while start < len
        invariant
            start <= len,
            len == text@.len(),
            texts(words@) + words_of(text@.skip(start as int)) == words_of(text@),
        decreases len - start,
    {
        let ghost rest = text@.skip(start as int);
        let ghost before = words@;
        assert(rest[0] == text@[start as int]);
        if cuts(CutSet::WhiteSpace, text.get_char(start)) {
            assert(rest.skip(1) =~= text@.skip(start + 1));
            start = start + 1;
            continue ;
        }
        proof {
            lemma_word_is_inside(rest);
        }
        let end: usize = find_space(text, start);
        let word = text.substring_char(start, end);
        words.push(word);
        proof {
            assert(word@ =~= rest.take(word_len(rest) as int));
            assert(texts(words@) =~= texts(before).push(word@));
            assert(text@.skip(end as int) =~= rest.skip(word_len(rest) as int));
            assert(texts(words@) + words_of(text@.skip(end as int)) =~= texts(before) + words_of(
                rest,
            ));
        }
        start = end;
    }
    proof {
        assert(text@.skip(start as int) =~= Seq::empty());
        assert(texts(words@) =~= words_of(text@));
    }
    words
}

/// Where the word that starts at `from` ends.
fn find_space(text: &str, from: usize) -> (at: usize)
    requires
        from <= text@.len(),
    ensures
        at == from + word_len(text@.skip(from as int)),
        from <= at <= text@.len(),
{
    let len: usize = text.unicode_len();
    let mut at: usize = from;
    while at < len
        invariant
            from <= at <= len,
            len == text@.len(),
            at + word_len(text@.skip(at as int)) == from + word_len(text@.skip(from as int)),
        ensures
            from <= at <= len,
            at == from + word_len(text@.skip(from as int)),
        decreases len - at,
    {
        assert(text@.skip(at as int)[0] == text@[at as int]);
        if cuts(CutSet::WhiteSpace, text.get_char(at)) {
            break ;
        }
        assert(text@.skip(at as int).skip(1) =~= text@.skip(at + 1));
        at = at + 1;
    }
    at
}

/// The number that some decimal digits spell.
pub open spec fn number_in(digits: Seq<char>) -> nat
    decreases digits.len(),
{
    if digits.len() == 0 {
        0
    } else {
        10 * number_in(digits.drop_last()) + (digits.last() as u32 - 48) as nat
    }
}

/// Whether a text is a number as it is commonly written: decimal digits, and no
/// zero in front of others.
pub open spec fn is_number(text: Seq<char>) -> bool {
    &&& text.len() > 0
    &&& forall|i: int| 0 <= i < text.len() ==> '0' <= #[trigger] text[i] <= '9'
    &&& text[0] == '0' ==> text.len() == 1
}

/// A number is written in decimal digits that spell it, so that no two numbers
/// are written alike.
pub proof fn law_numbers_are_spelled_by_their_digits(n: nat)
    ensures
        is_number(decimal(n)),
        number_in(decimal(n)) == n,
        n > 0 ==> decimal(n)[0] != '0',
    decreases n,
{
    if n >= 10 {
        law_numbers_are_spelled_by_their_digits(n / 10);
        let before = decimal(n / 10);
        assert(decimal(n).drop_last() =~= before);
        assert forall|i: int| 0 <= i < decimal(n).len() implies '0' <= #[trigger] decimal(n)[i]
            <= '9' by {
            if i < before.len() {
                assert(decimal(n)[i] == before[i]);
            }
        }
    } else {
        assert(decimal(n).drop_last() =~= Seq::empty());
        assert(number_in(decimal(n).drop_last()) == 0);
    }
}

/// A negative number has a minus sign before its digits, and no other has.
pub proof fn law_signs_come_first(n: int)
    ensures
        n >= 0 ==> is_number(signed_decimal(n)) && number_in(signed_decimal(n)) == n,
        n < 0 ==> signed_decimal(n)[0] == '-' && is_number(signed_decimal(n).skip(1)) && number_in(
            signed_decimal(n).skip(1),
        ) == -n,
{
    if n < 0 {
        law_numbers_are_spelled_by_their_digits((-n) as nat);
        assert(signed_decimal(n).skip(1) =~= decimal((-n) as nat));
    } else {
        law_numbers_are_spelled_by_their_digits(n as nat);
    }
}

/// Different numbers are written differently.
pub proof fn law_numbers_are_told_apart(a: int, b: int)
    requires
        a != b,
    ensures
        signed_decimal(a) != signed_decimal(b),
{
    law_signs_come_first(a);
    law_signs_come_first(b);
}

/// A number that is written at the end of a text is what follows the text.
pub proof fn law_numbers_are_added_at_the_end(
    text: &mut String,
    n: u64,
    other: &mut String,
    m: i64,
)
    requires
        call_ensures(push_decimal, (text, n), ()),
        call_ensures(push_signed, (other, m), ()),
    ensures
        ({
            let before = old(text)@;
            let after = final(text)@;
            &&& begins(after, before)
            &&& is_number(after.skip(before.len() as int))
            &&& number_in(after.skip(before.len() as int)) == n
        }),
        ({
            let before = old(other)@;
            let after = final(other)@;
            &&& begins(after, before)
            &&& m >= 0 ==> is_number(after.skip(before.len() as int)) && number_in(
                after.skip(before.len() as int),
            ) == m
            &&& m < 0 ==> after[before.len() as int] == '-' && number_in(
                after.skip(before.len() as int + 1),
            ) == -m
        }),
{
    law_numbers_are_spelled_by_their_digits(n as nat);
    law_signs_come_first(m as int);
    let before = old(text)@;
    let after = final(text)@;
    assert(after.take(before.len() as int) =~= before);
    assert(after.skip(before.len() as int) =~= decimal(n as nat));
    let ahead = old(other)@;
    let all = final(other)@;
    assert(all.take(ahead.len() as int) =~= ahead);
    assert(all.skip(ahead.len() as int) =~= signed_decimal(m as int));
    assert(all.skip(ahead.len() as int + 1) =~= signed_decimal(m as int).skip(1));
}

/// A text starts with another exactly when it is that one with something after
/// it, and taking it off leaves that.
pub proof fn law_prefixes_come_off(text: Seq<char>, prefix: Seq<char>, rest: Seq<char>)
    ensures
        begins(prefix + rest, prefix),
        begins(text, prefix) ==> text == prefix + text.skip(prefix.len() as int),
        text == prefix + rest ==> begins(text, prefix) && text.skip(prefix.len() as int) == rest,
{
    assert((prefix + rest).take(prefix.len() as int) =~= prefix);
    assert((prefix + rest).skip(prefix.len() as int) =~= rest);
    if begins(text, prefix) {
        assert(text =~= prefix + text.skip(prefix.len() as int));
    }
}

/// What `starts_with` and `without_prefix` find is that.
pub proof fn law_prefixes_are_found(text: &str, prefix: &str, starts: bool, rest: &str)
    requires
        call_ensures(starts_with, (text, prefix), starts),
        call_ensures(without_prefix, (text, prefix), rest),
    ensures
        starts <==> exists|tail: Seq<char>| text@ == #[trigger] (prefix@ + tail),
        starts ==> text@ == prefix@ + rest@,
{
    if starts {
        law_prefixes_come_off(text@, prefix@, rest@);
        assert(text@ == prefix@ + text@.skip(prefix@.len() as int));
    }
    if exists|tail: Seq<char>| text@ == #[trigger] (prefix@ + tail) {
        let tail = choose|tail: Seq<char>| text@ == #[trigger] (prefix@ + tail);
        law_prefixes_come_off(text@, prefix@, tail);
    }
}

/// The white space of the ASCII characters: the blank, and those from the tab to
/// the carriage return.
pub proof fn law_blanks_and_line_ends_are_space(c: char)
    requires
        c as u32 <= 0x7f,
    ensures
        is_space(c) <==> c == ' ' || c == '\t' || c == '\n' || c == '\r' || c as u32 == 0xb
            || c as u32 == 0xc,
{
}

proof fn lemma_cut_start(text: Seq<char>, set: CutSet)
    ensures
        ({
            let inner = cut_start(text, set);
            let n = text.len() - inner.len();
            &&& 0 <= n
            &&& inner == text.skip(n)
            &&& forall|i: int| 0 <= i < n ==> is_cut(set, #[trigger] text[i])
            &&& inner.len() > 0 ==> !is_cut(set, inner[0])
        }),
    decreases text.len(),
{
    if text.len() > 0 && is_cut(set, text[0]) {
        lemma_cut_start(text.skip(1), set);
        let inner = cut_start(text, set);
        let n = text.len() - inner.len();
        assert(text.skip(1).skip(n - 1) =~= text.skip(n));
        assert forall|i: int| 0 <= i < n implies is_cut(set, #[trigger] text[i]) by {
            if i > 0 {
                assert(text.skip(1)[i - 1] == text[i]);
            }
        }
    } else {
        assert(text.skip(0) =~= text);
    }
}

proof fn lemma_cut_end(text: Seq<char>, set: CutSet)
    ensures
        ({
            let inner = cut_end(text, set);
            &&& inner.len() <= text.len()
            &&& inner == text.take(inner.len() as int)
            &&& forall|i: int| inner.len() <= i < text.len() ==> is_cut(set, #[trigger] text[i])
            &&& inner.len() > 0 ==> !is_cut(set, inner.last())
        }),
    decreases text.len(),
{
    if text.len() > 0 && is_cut(set, text.last()) {
        let rest = text.drop_last();
        lemma_cut_end(rest, set);
        let inner = cut_end(text, set);
        assert(rest.take(inner.len() as int) =~= text.take(inner.len() as int));
        assert forall|i: int| inner.len() <= i < text.len() implies is_cut(
            set,
            #[trigger] text[i],
        ) by {
            if i < rest.len() {
                assert(rest[i] == text[i]);
            }
        }
    } else {
        assert(text.take(text.len() as int) =~= text);
    }
}

/// Cutting takes characters of the set off both ends, as many as there are, and
/// nothing from between.
pub proof fn law_only_the_ends_are_cut(text: &str, set: CutSet, inner: &str)
    requires
        call_ensures(cut, (text, set), inner),
    ensures
        exists|from: int, to: int|
            0 <= from <= to <= text@.len() && inner@ == #[trigger] text@.subrange(from, to) && (
            forall|i: int|
                (0 <= i < from || to <= i < text@.len()) ==> is_cut(set, #[trigger] text@[i])),
        inner@.len() > 0 ==> !is_cut(set, inner@[0]) && !is_cut(set, inner@.last()),
{
    lemma_cut_start(text@, set);
    let started = cut_start(text@, set);
    lemma_cut_end(started, set);
    let from = text@.len() - started.len();
    let to = from + inner@.len();
    assert(inner@ =~= text@.subrange(from, to));
    assert forall|i: int| (0 <= i < from || to <= i < text@.len()) implies is_cut(
        set,
        #[trigger] text@[i],
    ) by {
        if to <= i {
            assert(started[i - from] == text@[i]);
        }
    }
    if inner@.len() > 0 {
        assert(inner@[0] == started[0]);
    }
}

/// Trimming cuts white space, and quotes are only the double ones.
pub proof fn law_trimming_cuts_white_space(text: &str, inner: &str, c: char)
    requires
        call_ensures(trim, (text,), inner),
    ensures
        inner@ == cut_ends(text@, CutSet::WhiteSpace),
        is_cut(CutSet::WhiteSpace, c) <==> is_space(c),
        is_cut(CutSet::DoubleQuotes, c) <==> c == '"',
{
}

proof fn lemma_place(text: Seq<char>, c: char)
    ensures
        0 <= place_of(text, c) <= text.len(),
        forall|i: int| 0 <= i < place_of(text, c) ==> #[trigger] text[i] != c,
        place_of(text, c) < text.len() ==> text[place_of(text, c)] == c,
    decreases text.len(),
{
    if text.len() > 0 && text[0] != c {
        lemma_place(text.skip(1), c);
        assert forall|i: int| 0 <= i < place_of(text, c) implies #[trigger] text[i] != c by {
            if i > 0 {
                assert(text.skip(1)[i - 1] == text[i]);
            }
        }
    }
}

/// A text is split at the first of a character: what is left of it does not have
/// it, and the two parts with it between them are the text.
pub proof fn law_texts_split_at_the_first(
    text: &str,
    c: char,
    parts: Option<(&str, &str)>,
)
    requires
        call_ensures(split_at_char, (text, c), parts),
    ensures
        parts is Some <==> text@.contains(c),
        parts matches Some((left, right)) ==> text@ == left@.push(c) + right@ && !left@.contains(c),
{
    lemma_place(text@, c);
    let at = place_of(text@, c);
    if at < text@.len() {
        assert(text@[at] == c);
        assert(text@ =~= text@.take(at).push(c) + text@.skip(at + 1));
    }
}

/// Where a character first stands.
proof fn lemma_place_is_first(text: Seq<char>, c: char, at: int)
    requires
        0 <= at < text.len(),
        text[at] == c,
        forall|i: int| 0 <= i < at ==> #[trigger] text[i] != c,
    ensures
        place_of(text, c) == at,
{
    lemma_place(text, c);
    let found = place_of(text, c);
    if found < at {
        assert(text[found] != c);
    }
}

/// Lines end at line feeds: a text with no line feed is one line, and a text up
/// to its first line feed is a line before the lines of what follows. A carriage
/// return at the end of a line that a line feed ends does not belong to it.
pub proof fn law_lines_end_at_line_feeds(line: Seq<char>, rest: Seq<char>)
    requires
        !line.contains('\n'),
    ensures
        lines_of(Seq::<char>::empty()).len() == 0,
        line.len() > 0 ==> lines_of(line) == seq![line],
        lines_of(line.push('\n') + rest) == seq![
            if line.len() > 0 && line.last() == '\r' {
                line.drop_last()
            } else {
                line
            },
        ] + lines_of(rest),
{
    lemma_place(line, '\n');
    if place_of(line, '\n') < line.len() {
        assert(line.contains('\n'));
    }
    if line.len() > 0 {
        assert(line.take(line.len() as int) =~= line);
        assert(after_line(line) =~= Seq::empty());
        assert(lines_of(after_line(line)) =~= Seq::empty());
        assert(first_line(line) =~= line);
        assert(lines_of(line) =~= seq![line]);
    }
    let text = line.push('\n') + rest;
    assert forall|i: int| 0 <= i < line.len() implies #[trigger] text[i] != '\n' by {
        assert(text[i] == line[i]);
        assert(line.contains(line[i]));
    }
    lemma_place_is_first(text, '\n', line.len() as int);
    assert(after_line(text) =~= rest);
    if line.len() > 0 && line.last() == '\r' {
        assert(first_line(text) =~= line.drop_last());
    } else {
        assert(first_line(text) =~= line);
    }
}

proof fn lemma_word(text: Seq<char>)
    ensures
        word_len(text) <= text.len(),
        forall|i: int| 0 <= i < word_len(text) ==> !is_space(#[trigger] text[i]),
        word_len(text) < text.len() ==> is_space(text[word_len(text) as int]),
    decreases text.len(),
{
    if text.len() > 0 && !is_space(text[0]) {
        lemma_word(text.skip(1));
        assert forall|i: int| 0 <= i < word_len(text) implies !is_space(#[trigger] text[i]) by {
            if i > 0 {
                assert(text.skip(1)[i - 1] == text[i]);
            }
        }
    }
}

/// Words are what white space keeps apart: white space at the start does not
/// matter, and what comes before the first of it is a word before the words of
/// what follows.
pub proof fn law_words_are_kept_apart_by_white_space(
    word: Seq<char>,
    space: char,
    rest: Seq<char>,
)
    requires
        is_space(space),
        forall|i: int| 0 <= i < word.len() ==> !is_space(#[trigger] word[i]),
    ensures
        words_of(seq![space] + rest) == words_of(rest),
        word.len() > 0 ==> words_of(word) == seq![word],
        word.len() > 0 ==> words_of(word.push(space) + rest) == seq![word] + words_of(rest),
        words_of(Seq::<char>::empty()).len() == 0,
{
    assert((seq![space] + rest).skip(1) =~= rest);
    if word.len() > 0 {
        lemma_word(word);
        if word_len(word) < word.len() {
            assert(!is_space(word[word_len(word) as int]));
        }
        assert(word.take(word.len() as int) =~= word);
        assert(word.skip(word.len() as int) =~= Seq::empty());
        assert(words_of(word.skip(word.len() as int)) =~= Seq::empty());
        assert(words_of(word) =~= seq![word]);
        let text = word.push(space) + rest;
        lemma_word(text);
        let len = word_len(text) as int;
        if len < word.len() {
            assert(text[len] == word[len]);
        }
        if len > word.len() {
            assert(!is_space(text[word.len() as int]));
        }
        assert(text.take(len) =~= word);
        assert(text.skip(len) =~= seq![space] + rest);
    }
}

/// Whether a text occurs in another.
pub open spec fn occurs(text: Seq<char>, part: Seq<char>) -> bool {
    exists|before: Seq<char>, after: Seq<char>| text == #[trigger] (before + part + after)
}

/// A part of a part is a part.
pub proof fn lemma_occurs_within(
    text: Seq<char>,
    before: Seq<char>,
    middle: Seq<char>,
    after: Seq<char>,
    part: Seq<char>,
)
    requires
        text == before + middle + after,
        occurs(middle, part),
    ensures
        occurs(text, part),
{
    let (left, right) = choose|left: Seq<char>, right: Seq<char>|
        middle == #[trigger] (left + part + right);
    assert(text =~= (before + left) + part + (right + after));
}

/// The lines and the words that are told of a text are its lines and its words.
pub proof fn law_lines_and_words_are_told(
    text: &str,
    all: Vec<&str>,
    words: Vec<&str>,
)
    requires
        call_ensures(lines, (text,), all),
        call_ensures(split_words, (text,), words),
    ensures
        texts(all@) == lines_of(text@),
        texts(words@) == words_of(text@),
{
}

/// Two texts are the same when they have the same characters.
pub proof fn law_texts_are_the_same_by_their_characters(a: &str, b: &str, equal: bool)
    requires
        call_ensures(same, (a, b), equal),
    ensures
        equal <==> a@.len() == b@.len() && forall|i: int|
            0 <= i < a@.len() ==> #[trigger] a@[i] == b@[i],
{
    if a@.len() == b@.len() && forall|i: int| 0 <= i < a@.len() ==> #[trigger] a@[i] == b@[i] {
        assert(a@ =~= b@);
    }
}

} // verus!
