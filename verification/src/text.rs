//! Characters, words and decimal numbers: the pieces every line-oriented
//! input of the stack is read with.

use vstd::prelude::*;
use vstd::std_specs::iter::IteratorSpec;

verus! {

/// Whether `c` is white space in the sense of Unicode's `White_Space` property.
pub open spec fn is_space(c: char) -> bool {
    let u = c as u32;
    ||| 0x09 <= u <= 0x0d
    ||| u == 0x20
    ||| u == 0x85
    ||| u == 0xa0
    ||| u == 0x1680
    ||| 0x2000 <= u <= 0x200a
    ||| u == 0x2028
    ||| u == 0x2029
    ||| u == 0x202f
    ||| u == 0x205f
    ||| u == 0x3000
}

/// The first index at or after `i` that holds no white space, or the length.
pub open spec fn word_start(s: Seq<char>, i: int) -> int
    decreases s.len() - i,
{
    if i < 0 || i >= s.len() {
        s.len() as int
    } else if !is_space(s[i]) {
        i
    } else {
        word_start(s, i + 1)
    }
}

/// The first index after `i` that holds white space, or the length.
pub open spec fn word_end(s: Seq<char>, i: int) -> int
    decreases s.len() - i,
{
    if i < 0 || i + 1 >= s.len() {
        s.len() as int
    } else if is_space(s[i + 1]) {
        i + 1
    } else {
        word_end(s, i + 1)
    }
}

pub proof fn lemma_word_start_bounds(s: Seq<char>, i: int)
    requires
        0 <= i <= s.len(),
    ensures
        i <= word_start(s, i) <= s.len(),
        forall|k: int| i <= k < word_start(s, i) ==> is_space(#[trigger] s[k]),
        word_start(s, i) < s.len() ==> !is_space(s[word_start(s, i)]),
    decreases s.len() - i,
{
    if i < s.len() && is_space(s[i]) {
        lemma_word_start_bounds(s, i + 1);
    }
}

pub proof fn lemma_word_end_bounds(s: Seq<char>, i: int)
    requires
        0 <= i < s.len(),
    ensures
        i < word_end(s, i) <= s.len(),
        forall|k: int| i < k < word_end(s, i) ==> !is_space(#[trigger] s[k]),
        word_end(s, i) < s.len() ==> is_space(s[word_end(s, i)]),
    decreases s.len() - i,
{
    if i + 1 < s.len() && !is_space(s[i + 1]) {
        lemma_word_end_bounds(s, i + 1);
    }
}

/// The words of `s` that begin at or after `i`: the maximal runs of
/// characters that are not white space, in order.
pub open spec fn words_from(s: Seq<char>, i: int) -> Seq<Seq<char>>
    decreases s.len() - i,
{
    let a = word_start(s, i);
    let b = word_end(s, a);
    if 0 <= i <= a < b <= s.len() {
        seq![s.subrange(a, b)].add(words_from(s, b))
    } else {
        Seq::empty()
    }
}

/// The words of a line, split at white space; empty words never occur.
pub open spec fn split_words(s: Seq<char>) -> Seq<Seq<char>> {
    words_from(s, 0)
}

pub fn is_whitespace(c: char) -> (b: bool)
    ensures
        b == is_space(c),
{
    let u: u32 = c as u32;
    (0x09 <= u && u <= 0x0d) || u == 0x20 || u == 0x85 || u == 0xa0 || u == 0x1680 || (0x2000 <= u
        && u <= 0x200a) || u == 0x2028 || u == 0x2029 || u == 0x202f || u == 0x205f || u == 0x3000
}

/// The characters of a string, in order.
pub fn chars_of(s: &str) -> (v: Vec<char>)
    ensures
        v@ == s@,
{
    broadcast use vstd::string::group_string_axioms;

    let mut v: Vec<char> = Vec::new();
    let mut it = s.chars();
    loop
        invariant
            it.obeys_prophetic_iter_laws(),
            v@ + it.remaining() == s@,
            it.decrease() is Some,
        decreases it.decrease()->0,
    {
        let ghost before = it;
        match it.next() {
            Some(c) => {
                assert(before.remaining() == seq![c] + it.remaining());
                assert(v@.push(c) + it.remaining() == v@ + before.remaining());
                v.push(c);
            },
            None => {
                assert(v@ + before.remaining() == v@);
                return v;
            },
        }
    }
}

/// Appends one character to a string. This is `String::push`; the contract
/// says that the string's characters grow by exactly `c` at the end.
#[verifier::external_body]
fn push_char(s: &mut String, c: char)
    ensures
        final(s)@ == old(s)@.push(c),
{
    s.push(c)
}

/// The string that holds exactly the given characters.
pub fn string_of(chars: &[char]) -> (s: String)
    ensures
        s@ == chars@,
{
    let mut s = String::new();
    let mut i: usize = 0;
    while i < chars.len()
        invariant
            i <= chars.len(),
            s@ == chars@.take(i as int),
        decreases chars.len() - i,
    {
        push_char(&mut s, chars[i]);
        i += 1;
        assert(chars@.take(i as int) == chars@.take(i - 1).push(chars@[i - 1]));
    }
    assert(chars@.take(i as int) == chars@);
    s
}

/// The view of a list of words: each word as a sequence of characters.
pub open spec fn words_view(words: Seq<Vec<char>>) -> Seq<Seq<char>> {
    words.map_values(|w: Vec<char>| w@)
}

/// Splits a line at white space, as `str::split_whitespace` does: the
/// result holds the non-empty words in order.
pub fn split_whitespace(line: &[char]) -> (words: Vec<Vec<char>>)
    ensures
        words_view(words@) == split_words(line@),
{
    let mut words: Vec<Vec<char>> = Vec::new();
    let mut i: usize = 0;
    assert(words_view(words@) =~= Seq::empty());
    loop
        invariant
            i <= line.len(),
            words_view(words@) + words_from(line@, i as int) == split_words(line@),
        decreases line.len() - i,
    {
        let ghost from = i as int;
        let mut a: usize = i;
        while a < line.len() && is_whitespace(line[a])
            invariant
                i <= a <= line.len(),
                word_start(line@, a as int) == word_start(line@, i as int),
            decreases line.len() - a,
        {
            a += 1;
        }
        if a >= line.len() {
            assert(words_from(line@, from) =~= Seq::empty());
            return words;
        }
        let mut b: usize = a + 1;
        let mut word: Vec<char> = Vec::new();
        word.push(line[a]);
        while b < line.len() && !is_whitespace(line[b])
            invariant
                a < b <= line.len(),
                word_end(line@, b - 1) == word_end(line@, a as int),
                word@ == line@.subrange(a as int, b as int),
            decreases line.len() - b,
        {
            word.push(line[b]);
            b += 1;
        }
        proof {
            assert(word_start(line@, from) == a);
            assert(word_end(line@, a as int) == b);
            assert(words_from(line@, from) == seq![word@].add(words_from(line@, b as int)));
            assert(words_view(words@.push(word)) =~= words_view(words@).push(word@));
            assert(words_view(words@).push(word@) + words_from(line@, b as int) =~= words_view(
                words@,
            ) + words_from(line@, from));
        }
        words.push(word);
        i = b;
    }
}

/// Whether `word` holds exactly the characters of `text`.
pub fn word_is(word: &[char], text: &str) -> (b: bool)
    ensures
        b == (word@ == text@),
{
    let other = chars_of(text);
    if word.len() != other.len() {
        return false;
    }
    let mut i: usize = 0;
    while i < word.len()
        invariant
            i <= word.len(),
            word.len() == other.len(),
            other@ == text@,
            word@.take(i as int) == other@.take(i as int),
        decreases word.len() - i,
    {
        if word[i] != other[i] {
            assert(word@[i as int] != other@[i as int]);
            return false;
        }
        i += 1;
        assert(word@.take(i as int) == word@.take(i - 1).push(word@[i - 1]));
        assert(other@.take(i as int) == other@.take(i - 1).push(other@[i - 1]));
    }
    assert(word@.take(i as int) == word@);
    assert(other@.take(i as int) == other@);
    true
}

/// Whether `c` is one of the ten decimal digits.
pub open spec fn is_digit(c: char) -> bool {
    '0' <= c <= '9'
}

/// The number that a digit stands for.
pub open spec fn digit_value(c: char) -> nat {
    (c as u32 - '0' as u32) as nat
}

/// The number that a run of decimal digits stands for.
pub open spec fn decimal_value(s: Seq<char>) -> nat
    decreases s.len(),
{
    if s.len() == 0 {
        0
    } else {
        decimal_value(s.drop_last()) * 10 + digit_value(s.last())
    }
}

/// Whether every character of `s` is a decimal digit.
pub open spec fn all_digits(s: Seq<char>) -> bool {
    forall|i: int| 0 <= i < s.len() ==> is_digit(#[trigger] s[i])
}

/// The digits of an unsigned decimal numeral: the text without one leading `+`.
pub open spec fn numeral_digits(s: Seq<char>) -> Seq<char> {
    if s.len() > 0 && s[0] == '+' {
        s.skip(1)
    } else {
        s
    }
}

/// What an unsigned decimal numeral stands for, if it is one and its value
/// is at most `max`: an optional `+`, then one or more digits.
pub open spec fn parse_unsigned(s: Seq<char>, max: nat) -> Option<nat> {
    let d = numeral_digits(s);
    if d.len() > 0 && all_digits(d) && decimal_value(d) <= max {
        Some(decimal_value(d))
    } else {
        None
    }
}

/// A longer run of digits never stands for a smaller number than its prefix.
pub proof fn lemma_decimal_value_grows(s: Seq<char>, i: int)
    requires
        0 <= i <= s.len(),
    ensures
        decimal_value(s.take(i)) <= decimal_value(s),
    decreases s.len() - i,
{
    if i < s.len() {
        lemma_decimal_value_grows(s, i + 1);
        assert(s.take(i + 1).drop_last() == s.take(i));
    } else {
        assert(s.take(i) == s);
    }
}

/// Reads an unsigned decimal numeral whose value is at most `max`.
pub fn parse_decimal(word: &[char], max: u64) -> (r: Option<u64>)
    ensures
        r is Some <==> parse_unsigned(word@, max as nat) is Some,
        r is Some ==> r->0 as nat == parse_unsigned(word@, max as nat)->0,
{
    let start: usize = if word.len() > 0 && word[0] == '+' {
        1
    } else {
        0
    };
    let ghost d = numeral_digits(word@);
    assert(d == word@.skip(start as int));
    if start >= word.len() {
        return None;
    }
    let mut acc: u64 = 0;
    let mut i: usize = start;
    assert(d.take(0) =~= Seq::empty());
    while i < word.len()
        invariant
            start <= i <= word.len(),
            d == word@.skip(start as int),
            d == numeral_digits(word@),
            all_digits(d.take(i - start)),
            acc as nat == decimal_value(d.take(i - start)),
            acc <= max,
        decreases word.len() - i,
    {
        let c = word[i];
        assert(c == d[i - start]);
        if !('0' <= c && c <= '9') {
            assert(!is_digit(d[i - start]));
            return None;
        }
        let digit: u64 = (c as u32 - '0' as u32) as u64;
        assert(d.take(i - start + 1).drop_last() == d.take(i - start));
        if digit > max || acc > (max - digit) / 10 {
            proof {
                lemma_decimal_value_grows(d, i - start + 1);
            }
            return None;
        }
        acc = acc * 10 + digit;
        i += 1;
    }
    assert(d.take(i - start) == d);
    Some(acc)
}

/// The first index at or after `i` that holds `sep`, or the length.
pub open spec fn next_sep(s: Seq<char>, sep: char, i: int) -> int
    decreases s.len() - i,
{
    if i < 0 || i >= s.len() {
        s.len() as int
    } else if s[i] == sep {
        i
    } else {
        next_sep(s, sep, i + 1)
    }
}

/// The fields of `s` from `i` on, parted at every `sep`; a field may be empty.
pub open spec fn fields_from(s: Seq<char>, sep: char, i: int) -> Seq<Seq<char>>
    decreases s.len() - i,
{
    let e = next_sep(s, sep, i);
    if 0 <= i <= e < s.len() {
        seq![s.subrange(i, e)].add(fields_from(s, sep, e + 1))
    } else if 0 <= i <= s.len() {
        seq![s.subrange(i, s.len() as int)]
    } else {
        Seq::empty()
    }
}

/// The fields of `s`, parted at every `sep`: one more than there are separators.
pub open spec fn split_fields(s: Seq<char>, sep: char) -> Seq<Seq<char>> {
    fields_from(s, sep, 0)
}

/// Parts a text at every `sep`, keeping empty fields.
pub fn split_at(text: &[char], sep: char) -> (fields: Vec<Vec<char>>)
    ensures
        words_view(fields@) == split_fields(text@, sep),
{
    let mut fields: Vec<Vec<char>> = Vec::new();
    let mut i: usize = 0;
    assert(words_view(fields@) =~= Seq::empty());
    loop
        invariant
            i <= text.len(),
            words_view(fields@) + fields_from(text@, sep, i as int) == split_fields(text@, sep),
        decreases text.len() - i,
    {
        let mut e: usize = i;
        let mut field: Vec<char> = Vec::new();
        while e < text.len() && text[e] != sep
            invariant
                i <= e <= text.len(),
                next_sep(text@, sep, e as int) == next_sep(text@, sep, i as int),
                field@ == text@.subrange(i as int, e as int),
            decreases text.len() - e,
        {
            field.push(text[e]);
            e += 1;
        }
        proof {
            assert(next_sep(text@, sep, i as int) == e);
            assert(words_view(fields@.push(field)) =~= words_view(fields@).push(field@));
        }
        if e >= text.len() {
            proof {
                assert(fields_from(text@, sep, i as int) == seq![field@]);
                assert(words_view(fields@).push(field@) =~= words_view(fields@) + seq![field@]);
            }
            fields.push(field);
            return fields;
        }
        proof {
            assert(fields_from(text@, sep, i as int) == seq![field@].add(
                fields_from(text@, sep, e + 1),
            ));
            assert(words_view(fields@).push(field@) + fields_from(text@, sep, e + 1)
                =~= words_view(fields@) + fields_from(text@, sep, i as int));
        }
        fields.push(field);
        i = e + 1;
    }
}

/// The character of a digit.
pub open spec fn digit_char(d: nat) -> char {
    ('0' as u32 + d as u32) as char
}

/// The decimal numeral of `n`: its digits, without a sign or leading zeros.
pub open spec fn digits_of(n: nat) -> Seq<char>
    decreases n,
{
    if n < 10 {
        seq![digit_char(n)]
    } else {
        digits_of(n / 10).push(digit_char(n % 10))
    }
}

/// Appends the decimal numeral of `n`.
pub fn push_decimal(out: &mut Vec<char>, n: u64)
    ensures
        final(out)@ == old(out)@ + digits_of(n as nat),
    decreases n,
{
    if n >= 10 {
        push_decimal(out, n / 10);
    }
    let d: u8 = (n % 10) as u8;
    out.push((48u8 + d) as char);
    assert(out@ =~= old(out)@ + digits_of(n as nat));
}

/// Appends the characters of `text`.
pub fn push_text(out: &mut Vec<char>, text: &str)
    ensures
        final(out)@ == old(out)@ + text@,
{
    let mut chars = chars_of(text);
    out.append(&mut chars);
}

/// What is written is what is read: the numeral of a number stands for
/// that number.
pub proof fn lemma_decimal_round_trip(n: nat, max: nat)
    requires
        n <= max,
    ensures
        parse_unsigned(digits_of(n), max) == Some(n),
        digits_of(n).len() >= 1,
        all_digits(digits_of(n)),
        decimal_value(digits_of(n)) == n,
    decreases n,
{
    let d = digits_of(n);
    if n < 10 {
        assert(d.drop_last() =~= Seq::<char>::empty());
        assert(decimal_value(d.drop_last()) == 0);
        assert(d.last() == digit_char(n));
    } else {
        lemma_decimal_round_trip(n / 10, max);
        assert(d.drop_last() =~= digits_of(n / 10));
        assert(d.last() == digit_char(n % 10));
        assert forall|i: int| 0 <= i < d.len() implies is_digit(#[trigger] d[i]) by {
            if i < d.len() - 1 {
                assert(d[i] == digits_of(n / 10)[i]);
            }
        }
    }
    assert(is_digit(d[0]));
    assert(numeral_digits(d) == d);
}

/// Looking for a separator in the second part of a text goes by the
/// second part alone.
pub proof fn lemma_next_sep_shift(p: Seq<char>, y: Seq<char>, sep: char, j: int)
    requires
        0 <= j <= y.len(),
    ensures
        next_sep(p + y, sep, p.len() + j) == p.len() + next_sep(y, sep, j),
    decreases y.len() - j,
{
    if j < y.len() {
        assert((p + y)[p.len() + j] == y[j]);
        if y[j] != sep {
            lemma_next_sep_shift(p, y, sep, j + 1);
        }
    }
}

/// The fields of the second part of a text are the fields of the second
/// part alone.
pub proof fn lemma_fields_shift(p: Seq<char>, y: Seq<char>, sep: char, j: int)
    requires
        0 <= j <= y.len(),
    ensures
        fields_from(p + y, sep, p.len() + j) == fields_from(y, sep, j),
    decreases y.len() - j,
{
    lemma_next_sep_shift(p, y, sep, j);
    lemma_next_sep_bounds(y, sep, j);
    let e = next_sep(y, sep, j);
    if e < y.len() {
        lemma_fields_shift(p, y, sep, e + 1);
        assert((p + y).subrange(p.len() + j, p.len() + e) =~= y.subrange(j, e));
    } else {
        assert((p + y).subrange(p.len() + j, (p + y).len() as int) =~= y.subrange(
            j,
            y.len() as int,
        ));
    }
}

pub proof fn lemma_next_sep_bounds(s: Seq<char>, sep: char, i: int)
    requires
        0 <= i <= s.len(),
    ensures
        i <= next_sep(s, sep, i) <= s.len(),
        forall|k: int| i <= k < next_sep(s, sep, i) ==> #[trigger] s[k] != sep,
        next_sep(s, sep, i) < s.len() ==> s[next_sep(s, sep, i)] == sep,
    decreases s.len() - i,
{
    if i < s.len() && s[i] != sep {
        lemma_next_sep_bounds(s, sep, i + 1);
    }
}

/// A text that begins with a field, then has a separator, has that field
/// first and then the fields of what follows; a text without a separator
/// is one field.
pub proof fn lemma_fields_of_parts(x: Seq<char>, sep: char, rest: Seq<char>)
    requires
        forall|k: int| 0 <= k < x.len() ==> #[trigger] x[k] != sep,
    ensures
        split_fields(x + seq![sep] + rest, sep) == seq![x] + split_fields(rest, sep),
        split_fields(x, sep) == seq![x],
{
    let s = x + seq![sep] + rest;
    lemma_next_sep_bounds(s, sep, 0);
    let e = next_sep(s, sep, 0);
    assert(s[x.len() as int] == sep);
    if e < x.len() {
        assert(s[e] == x[e]);
    }
    assert(e == x.len());
    assert(s.subrange(0, e) =~= x);
    lemma_fields_shift(x + seq![sep], rest, sep, 0);
    lemma_next_sep_bounds(x, sep, 0);
    assert(x.subrange(0, x.len() as int) =~= x);
}

} // verus!
