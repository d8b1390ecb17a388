//! How much of its time the machine spends waiting for its disks.

use vstd::prelude::*;
use vstd::string::*;
use vstd::utf8::*;

use crate::text::{all_digits, decimal, digits_value, law_decimal_reads_back, read_digits};

verus! {

/// A character that separates words: one with the Unicode property White_Space.
pub open spec fn is_white(c: char) -> bool {
    let n = c as u32;
    ||| 0x9 <= n <= 0xd
    ||| n == 0x20
    ||| n == 0x85
    ||| n == 0xa0
    ||| n == 0x1680
    ||| 0x2000 <= n <= 0x200a
    ||| n == 0x2028
    ||| n == 0x2029
    ||| n == 0x202f
    ||| n == 0x205f
    ||| n == 0x3000
}

fn white(c: char) -> (yes: bool)
    ensures
        yes == is_white(c),
{
    let n: u32 = c as u32;
    (0x9 <= n && n <= 0xd) || n == 0x20 || n == 0x85 || n == 0xa0 || n == 0x1680 || (0x2000 <= n
        && n <= 0x200a) || n == 0x2028 || n == 0x2029 || n == 0x202f || n == 0x205f || n == 0x3000
}

/// How many characters stand before the first that separates words.
pub open spec fn word_len(text: Seq<char>) -> nat
    decreases text.len(),
{
    if text.len() == 0 || is_white(text[0]) {
        0
    } else {
        1 + word_len(text.skip(1))
    }
}

/// A word ends where it says: before the first separator.
pub proof fn lemma_word_len(text: Seq<char>)
    ensures
        word_len(text) <= text.len(),
        forall|i: int| 0 <= i < word_len(text) ==> !is_white(#[trigger] text[i]),
        word_len(text) < text.len() ==> is_white(text[word_len(text) as int]),
    decreases text.len(),
{
    if text.len() > 0 && !is_white(text[0]) {
        let rest = text.skip(1);
        lemma_word_len(rest);
        assert forall|i: int| 0 <= i < word_len(text) implies !is_white(#[trigger] text[i]) by {
            if i > 0 {
                assert(text[i] == rest[i - 1]);
            }
        }
    }
}

/// The words of a text: the longest runs of characters that do not separate words.
pub open spec fn words_of(text: Seq<char>) -> Seq<Seq<char>>
    decreases text.len(),
{
    if text.len() == 0 {
        Seq::empty()
    } else if is_white(text[0]) {
        words_of(text.skip(1))
    } else {
        let len = word_len(text) as int;
        proof {
            lemma_word_len(text);
        }
        seq![text.take(len)] + words_of(text.skip(len))
    }
}

/// How many decimal digits a text begins with.
pub open spec fn digits_len(text: Seq<char>) -> nat
    decreases text.len(),
{
    if text.len() == 0 || !('0' <= text[0] <= '9') {
        0
    } else {
        1 + digits_len(text.skip(1))
    }
}

/// A text without the sign that may stand before it.
pub open spec fn without_sign(text: Seq<char>) -> Seq<char> {
    if text.len() > 0 && (text[0] == '+' || text[0] == '-') {
        text.skip(1)
    } else {
        text
    }
}

/// One or more decimal digits and nothing else.
pub open spec fn is_digits(text: Seq<char>) -> bool {
    text.len() > 0 && digits_len(text) == text.len()
}

/// How long the number is that a text begins with, before any exponent: digits with a point before,
/// among or after them, or without one.
pub open spec fn mantissa_len(text: Seq<char>) -> nat {
    let whole = digits_len(text);
    if whole < text.len() && text[whole as int] == '.' {
        let fraction = digits_len(text.skip(whole as int + 1));
        if whole + fraction > 0 {
            whole + 1 + fraction
        } else {
            0
        }
    } else {
        whole
    }
}

/// An exponent: the letter, a sign or none, and digits.
pub open spec fn is_exponent(text: Seq<char>) -> bool {
    &&& text.len() > 0
    &&& text[0] == 'e' || text[0] == 'E'
    &&& is_digits(without_sign(text.skip(1)))
}

/// A text is a word, whether its letters are small or capital.
pub open spec fn spells(text: Seq<char>, small: Seq<char>, capital: Seq<char>) -> bool {
    &&& text.len() == small.len() == capital.len()
    &&& forall|i: int|
        0 <= i < text.len() ==> #[trigger] text[i] == small[i] || text[i] == capital[i]
}

/// The words for what is no finite number.
pub open spec fn is_named(text: Seq<char>) -> bool {
    ||| spells(text, seq!['i', 'n', 'f'], seq!['I', 'N', 'F'])
    ||| spells(
        text,
        seq!['i', 'n', 'f', 'i', 'n', 'i', 't', 'y'],
        seq!['I', 'N', 'F', 'I', 'N', 'I', 'T', 'Y'],
    )
    ||| spells(text, seq!['n', 'a', 'n'], seq!['N', 'A', 'N'])
}

/// Digits, with a point or without, and an exponent or none.
pub open spec fn is_decimal(text: Seq<char>) -> bool {
    let len = mantissa_len(text) as int;
    len > 0 && (len == text.len() || is_exponent(text.skip(len)))
}

/// The word reads as a floating-point number: a sign or none, and then digits, which may have a
/// point and an exponent, or one of the words for what is no finite number.
pub open spec fn is_number(word: Seq<char>) -> bool {
    is_decimal(without_sign(word)) || is_named(without_sign(word))
}

/// The numbers among some words, in order.
pub open spec fn numbers_among(words: Seq<Seq<char>>) -> Seq<Seq<char>>
    decreases words.len(),
{
    if words.len() == 0 {
        Seq::empty()
    } else if is_number(words.last()) {
        numbers_among(words.drop_last()).push(words.last())
    } else {
        numbers_among(words.drop_last())
    }
}

fn chars_of(text: &str) -> (chars: Vec<char>)
    ensures
        chars@ == text@,
{
    let mut chars: Vec<char> = Vec::new();
    for c in iter: text.chars()
        invariant
            chars@ == iter.seq().take(iter.index() as int),
    {
        chars.push(c);
    }
    chars
}

/// How many characters stand before the first line feed.
pub open spec fn line_len(text: Seq<char>) -> nat
    decreases text.len(),
{
    if text.len() == 0 || text[0] == '\n' {
        0
    } else {
        1 + line_len(text.skip(1))
    }
}

/// The first line of a text: what stands before its first line feed, and all of it where there is
/// none.
pub open spec fn first_line(text: Seq<char>) -> Seq<char> {
    text.take(line_len(text) as int)
}

fn first_line_of(text: &str) -> (line: Vec<char>)
    ensures
        line@ == first_line(text@),
{
    let mut chars: Vec<char> = chars_of(text);
    let mut len: usize = 0;
    assert(chars@.skip(0) =~= chars@);
    while len < chars.len() && chars[len] != '\n'
        invariant
            len <= chars@.len(),
            line_len(chars@) == len + line_len(chars@.skip(len as int)),
        decreases chars@.len() - len,
    {
        assert(chars@.skip(len as int).skip(1) =~= chars@.skip(len + 1));
        len += 1;
    }
    assert(line_len(chars@.skip(len as int)) == 0);
    chars.truncate(len);
    assert(chars@ =~= first_line(text@));
    chars
}

/// All but the first of some words.
pub open spec fn after_first(words: Seq<Seq<char>>) -> Seq<Seq<char>> {
    if words.len() == 0 {
        words
    } else {
        words.skip(1)
    }
}

/// The columns of the statistics: those of the words after the first that read as numbers.
pub open spec fn columns_of(text: Seq<char>) -> Seq<Seq<char>> {
    numbers_among(after_first(words_of(text)))
}

/// Words as sequences of characters.
pub open spec fn words_view(words: Seq<Vec<char>>) -> Seq<Seq<char>> {
    Seq::new(words.len(), |i: int| words[i]@)
}

fn part_of(chars: &Vec<char>, from: usize, to: usize) -> (part: Vec<char>)
    requires
        from <= to <= chars@.len(),
    ensures
        part@ == chars@.subrange(from as int, to as int),
{
    let mut part: Vec<char> = Vec::new();
    let mut i: usize = from;
    while i < to
        invariant
            from <= i <= to <= chars@.len(),
            part@ == chars@.subrange(from as int, i as int),
        decreases to - i,
    {
        part.push(chars[i]);
        i += 1;
        assert(part@ =~= chars@.subrange(from as int, i as int));
    }
    part
}

/// A text has no more digits than characters, and they are digits.
proof fn lemma_digits_len(text: Seq<char>)
    ensures
        digits_len(text) <= text.len(),
        forall|i: int| 0 <= i < digits_len(text) ==> '0' <= #[trigger] text[i] <= '9',
    decreases text.len(),
{
    if text.len() > 0 && '0' <= text[0] <= '9' {
        let rest = text.skip(1);
        lemma_digits_len(rest);
        assert forall|i: int| 0 <= i < digits_len(text) implies '0' <= #[trigger] text[i]
            <= '9' by {
            if i > 0 {
                assert(text[i] == rest[i - 1]);
            }
        }
    }
}

/// Where the digits that begin at `from` end.
fn digits_end(text: &Vec<char>, from: usize) -> (end: usize)
    requires
        from <= text@.len(),
    ensures
        end == from + digits_len(text@.skip(from as int)),
        from <= end <= text@.len(),
{
    let mut end: usize = from;
    while end < text.len() && '0' <= text[end] && text[end] <= '9'
        invariant
            from <= end <= text@.len(),
            digits_len(text@.skip(from as int)) == end - from + digits_len(
                text@.skip(end as int),
            ),
        decreases text@.len() - end,
    {
        assert(text@.skip(end as int).skip(1) =~= text@.skip(end + 1));
        end += 1;
    }
    assert(digits_len(text@.skip(end as int)) == 0);
    end
}

fn signed_at(text: &Vec<char>, at: usize) -> (from: usize)
    requires
        at <= text@.len(),
    ensures
        at <= from <= text@.len(),
        text@.skip(from as int) == without_sign(text@.skip(at as int)),
        from == at || (from == at + 1 && (text@[at as int] == '+' || text@[at as int] == '-')),
{
    if at < text.len() && (text[at] == '+' || text[at] == '-') {
        assert(text@.skip(at as int).skip(1) =~= text@.skip(at + 1));
        at + 1
    } else {
        at
    }
}

fn spells_at(text: &Vec<char>, from: usize, small: &[char], capital: &[char]) -> (yes: bool)
    requires
        from <= text@.len(),
        small@.len() == capital@.len(),
    ensures
        yes == spells(text@.skip(from as int), small@, capital@),
{
    if text.len() - from != small.len() {
        return false;
    }
    let ghost rest = text@.skip(from as int);
    let size: usize = text.len();
    let mut i: usize = 0;
    while i < small.len()
        invariant
            i <= small@.len() == capital@.len(),
            size == text@.len() == from + small@.len(),
            rest == text@.skip(from as int),
            forall|j: int|
                0 <= j < i ==> #[trigger] rest[j] == small@[j] || rest[j] == capital@[j],
        decreases small@.len() - i,
    {
        assert(rest[i as int] == text@[from + i]);
        if text[from + i] != small[i] && text[from + i] != capital[i] {
            return false;
        }
        i += 1;
    }
    true
}

/// Where the number ends that begins at `from`, before any exponent.
fn mantissa_end(text: &Vec<char>, from: usize) -> (end: usize)
    requires
        from <= text@.len(),
    ensures
        end == from + mantissa_len(text@.skip(from as int)),
        from <= end <= text@.len(),
{
    let ghost rest = text@.skip(from as int);
    let whole_end: usize = digits_end(text, from);
    assert(whole_end < text@.len() ==> rest[whole_end - from] == text@[whole_end as int]);
    if whole_end < text.len() && text[whole_end] == '.' {
        let fraction_end: usize = digits_end(text, whole_end + 1);
        assert(rest.skip(whole_end - from + 1) =~= text@.skip(whole_end + 1));
        if whole_end > from || fraction_end > whole_end + 1 {
            fraction_end
        } else {
            from
        }
    } else {
        whole_end
    }
}

fn exponent_at(text: &Vec<char>, at: usize) -> (yes: bool)
    requires
        at < text@.len(),
    ensures
        yes == is_exponent(text@.skip(at as int)),
{
    let size: usize = text.len();
    assert(text@.skip(at as int)[0] == text@[at as int]);
    assert(text@.skip(at as int).skip(1) =~= text@.skip(at + 1));
    if text[at] != 'e' && text[at] != 'E' {
        return false;
    }
    let from: usize = signed_at(text, at + 1);
    let end: usize = digits_end(text, from);
    end > from && end == size
}

fn decimal_at(text: &Vec<char>, from: usize) -> (yes: bool)
    requires
        from <= text@.len(),
    ensures
        yes == is_decimal(text@.skip(from as int)),
{
    let end: usize = mantissa_end(text, from);
    assert(text@.skip(from as int).skip(end - from) =~= text@.skip(end as int));
    end > from && (end == text.len() || exponent_at(text, end))
}

fn named_at(text: &Vec<char>, from: usize) -> (yes: bool)
    requires
        from <= text@.len(),
    ensures
        yes == is_named(text@.skip(from as int)),
{
    let inf: [char; 3] = ['i', 'n', 'f'];
    let inf_capital: [char; 3] = ['I', 'N', 'F'];
    let infinity: [char; 8] = ['i', 'n', 'f', 'i', 'n', 'i', 't', 'y'];
    let infinity_capital: [char; 8] = ['I', 'N', 'F', 'I', 'N', 'I', 'T', 'Y'];
    let nan: [char; 3] = ['n', 'a', 'n'];
    let nan_capital: [char; 3] = ['N', 'A', 'N'];
    assert(inf@ =~= seq!['i', 'n', 'f'] && inf_capital@ =~= seq!['I', 'N', 'F']);
    assert(infinity@ =~= seq!['i', 'n', 'f', 'i', 'n', 'i', 't', 'y']);
    assert(infinity_capital@ =~= seq!['I', 'N', 'F', 'I', 'N', 'I', 'T', 'Y']);
    assert(nan@ =~= seq!['n', 'a', 'n'] && nan_capital@ =~= seq!['N', 'A', 'N']);
    spells_at(text, from, &inf, &inf_capital) || spells_at(
        text,
        from,
        &infinity,
        &infinity_capital,
    ) || spells_at(text, from, &nan, &nan_capital)
}

/// Whether a word reads as a number.
pub fn reads_as_number(word: &Vec<char>) -> (yes: bool)
    ensures
        yes == is_number(word@),
{
    assert(word@.skip(0) =~= word@);
    let from: usize = signed_at(word, 0);
    decimal_at(word, from) || named_at(word, from)
}

/// Reads the columns of the statistics.
pub fn read_columns(chars: &Vec<char>) -> (columns: Vec<Vec<char>>)
    ensures
        words_view(columns@) == columns_of(chars@),
{
    let mut columns: Vec<Vec<char>> = Vec::new();
    let mut seen_first: bool = false;
    let mut i: usize = 0;
    let ghost mut done: Seq<Seq<char>> = Seq::empty();
    proof {
        assert(chars@.skip(0) =~= chars@);
        assert(done + words_of(chars@) =~= words_of(chars@));
        assert(words_view(columns@) =~= numbers_among(after_first(done)));
    }
    while i < chars.len()
        invariant
            i <= chars@.len(),
            words_of(chars@) == done + words_of(chars@.skip(i as int)),
            seen_first == (done.len() > 0),
            words_view(columns@) == numbers_among(after_first(done)),
        decreases chars@.len() - i,
    {
        let ghost rest = chars@.skip(i as int);
        if white(chars[i]) {
            assert(rest.skip(1) =~= chars@.skip(i + 1));
            i += 1;
        } else {
            let mut end: usize = i;
            proof {
                lemma_word_len(rest);
            }
            while end < chars.len() && !white(chars[end])
                invariant
                    i <= end <= chars@.len(),
                    rest == chars@.skip(i as int),
                    end - i <= word_len(rest) <= rest.len(),
                    forall|j: int| 0 <= j < word_len(rest) ==> !is_white(#[trigger] rest[j]),
                    word_len(rest) < rest.len() ==> is_white(rest[word_len(rest) as int]),
                decreases chars@.len() - end,
            {
                assert(rest[end - i] == chars@[end as int]);
                end += 1;
            }
            proof {
                if end - i < word_len(rest) {
                    assert(!is_white(rest[end - i]));
                }
                if end < chars@.len() {
                    assert(rest[end - i] == chars@[end as int]);
                }
                assert(end - i == word_len(rest));
            }
            let ghost word = chars@.subrange(i as int, end as int);
            proof {
                assert(word =~= rest.take(end - i));
                assert(rest.skip(end - i) =~= chars@.skip(end as int));
                assert(words_of(rest) == seq![word] + words_of(chars@.skip(end as int)));
                assert(words_of(chars@) =~= done.push(word) + words_of(chars@.skip(end as int)));
            }
            if seen_first {
                proof {
                    assert(after_first(done.push(word)) =~= after_first(done).push(word));
                    assert(after_first(done).push(word).drop_last() =~= after_first(done));
                }
                assert(i < end);
                let text: Vec<char> = part_of(chars, i, end);
                if reads_as_number(&text) {
                    let ghost before = words_view(columns@);
                    columns.push(text);
                    assert(words_view(columns@) =~= before.push(word));
                }
            } else {
                assert(after_first(done.push(word)) =~= after_first(done));
                seen_first = true;
            }
            proof {
                done = done.push(word);
            }
            i = end;
        }
    }
    assert(chars@.skip(i as int) =~= Seq::<char>::empty());
    assert(done + Seq::<Seq<char>>::empty() =~= done);
    columns
}

/// A row of digits as bytes.
pub open spec fn ascii_bytes(digits: Seq<char>) -> Seq<u8> {
    Seq::new(digits.len(), |i: int| digits[i] as u8)
}

/// The word is a whole number: digits, with a sign before them or none.
pub open spec fn is_whole(word: Seq<char>) -> bool {
    is_digits(without_sign(word))
}

/// A whole number without its sign.
pub open spec fn size_of(word: Seq<char>) -> nat {
    digits_value(ascii_bytes(without_sign(word)))
}

/// What a whole number stands for.
pub open spec fn value_of(word: Seq<char>) -> int {
    if word.len() > 0 && word[0] == '-' {
        -(size_of(word) as int)
    } else {
        size_of(word) as int
    }
}

/// The sizes of some whole numbers added up.
pub open spec fn sizes_of(words: Seq<Seq<char>>) -> nat
    decreases words.len(),
{
    if words.len() == 0 {
        0
    } else {
        sizes_of(words.drop_last()) + size_of(words.last())
    }
}

/// Some whole numbers added up.
pub open spec fn total_of(words: Seq<Seq<char>>) -> int
    decreases words.len(),
{
    if words.len() == 0 {
        0
    } else {
        total_of(words.drop_last()) + value_of(words.last())
    }
}

/// Up to here every whole number is a 64-bit floating-point number too: 2 to the power of 53.
pub const EXACT_LIMIT: u64 = 9_007_199_254_740_992;

/// The columns are whole numbers, small enough that adding them up in floating point is exact.
pub open spec fn are_exact(columns: Seq<Seq<char>>) -> bool {
    &&& forall|i: int| 0 <= i < columns.len() ==> is_whole(#[trigger] columns[i])
    &&& sizes_of(columns) <= EXACT_LIMIT
}

/// Reads a word as a whole number of no more than the limit.
fn read_whole(word: &Vec<char>) -> (value: Option<i64>)
    ensures
        match value {
            Some(value) => {
                &&& is_whole(word@)
                &&& size_of(word@) <= EXACT_LIMIT
                &&& value == value_of(word@)
            },
            None => !is_whole(word@) || size_of(word@) > EXACT_LIMIT,
        },
{
    assert(word@.skip(0) =~= word@);
    let from: usize = signed_at(word, 0);
    let ghost text = word@.skip(from as int);
    let end: usize = digits_end(word, from);
    if end == from || end != word.len() {
        return None;
    }
    proof {
        lemma_digits_len(text);
    }
    let mut digits: Vec<u8> = Vec::new();
    let mut i: usize = from;
    while i < end
        invariant
            from <= i <= end == word@.len(),
            text == word@.skip(from as int),
            forall|j: int| 0 <= j < text.len() ==> '0' <= #[trigger] text[j] <= '9',
            digits@.len() == i - from,
            forall|j: int| 0 <= j < digits@.len() ==> digits@[j] == text[j] as u8,
        decreases end - i,
    {
        assert(text[i - from] == word@[i as int]);
        digits.push(word[i] as u8);
        i += 1;
    }
    assert(digits@ =~= ascii_bytes(text));
    assert(all_digits(digits@)) by {
        assert forall|j: int| 0 <= j < digits@.len() implies 48 <= #[trigger] digits@[j] <= 57 by {
            assert('0' <= text[j] <= '9');
        }
    }
    match read_digits(digits.as_slice(), EXACT_LIMIT) {
        Some(size) => {
            if word[0] == '-' {
                Some(-(size as i64))
            } else {
                Some(size as i64)
            }
        },
        None => None,
    }
}

/// No number is larger than all of them added up.
proof fn lemma_sizes(words: Seq<Seq<char>>, at: int)
    requires
        0 <= at < words.len(),
    ensures
        size_of(words[at]) <= sizes_of(words),
        sizes_of(words.take(at)) + size_of(words[at]) <= sizes_of(words),
    decreases words.len(),
{
    if at < words.len() - 1 {
        lemma_sizes(words.drop_last(), at);
        assert(words.drop_last().take(at) =~= words.take(at));
    } else {
        assert(words.take(at) =~= words.drop_last());
    }
}

/// What is added up is no larger than its sizes.
proof fn lemma_total(words: Seq<Seq<char>>)
    ensures
        -(sizes_of(words) as int) <= total_of(words) <= sizes_of(words),
    decreases words.len(),
{
    if words.len() > 0 {
        lemma_total(words.drop_last());
    }
}

/// The fifth column and all of them added up, where they are whole numbers and exact.
fn add_up(columns: &Vec<Vec<char>>) -> (sums: Option<(i64, i64)>)
    requires
        columns@.len() >= 5,
    ensures
        match sums {
            Some((fifth, total)) => {
                &&& are_exact(words_view(columns@))
                &&& fifth == value_of(columns@[4]@)
                &&& total == total_of(words_view(columns@))
                &&& -(EXACT_LIMIT as int) <= fifth <= EXACT_LIMIT
                &&& -(EXACT_LIMIT as int) <= total <= EXACT_LIMIT
            },
            None => !are_exact(words_view(columns@)),
        },
{
    let ghost words = words_view(columns@);
    let mut fifth: i64 = 0;
    let mut total: i64 = 0;
    let mut sizes: u64 = 0;
    let mut i: usize = 0;
    while i < columns.len()
        invariant
            i <= columns@.len(),
            words == words_view(columns@),
            sizes == sizes_of(words.take(i as int)),
            sizes <= EXACT_LIMIT,
            total == total_of(words.take(i as int)),
            i > 4 ==> fifth == value_of(columns@[4]@) && -(EXACT_LIMIT as int) <= fifth
                <= EXACT_LIMIT,
            forall|j: int| 0 <= j < i ==> is_whole(#[trigger] words[j]),
        decreases columns@.len() - i,
    {
        assert(words[i as int] == columns@[i as int]@);
        proof {
            lemma_sizes(words, i as int);
            lemma_total(words.take(i as int));
            assert(words.take(i + 1).drop_last() =~= words.take(i as int));
        }
        let value: i64 = match read_whole(&columns[i]) {
            Some(value) => value,
            None => {
                return None;
            },
        };
        let size: u64 = if value < 0 {
            (-value) as u64
        } else {
            value as u64
        };
        assert(size == size_of(words[i as int]));
        if size > EXACT_LIMIT - sizes {
            return None;
        }
        sizes = sizes + size;
        total = total + value;
        if i == 4 {
            fifth = value;
        }
        i += 1;
    }
    proof {
        assert(words.take(i as int) =~= words);
        lemma_total(words);
    }
    Some((fifth, total))
}

/// What part of the time since the last look went by waiting.
///
/// The page's percentage is formed from this at the edge.
#[derive(Debug, PartialEq)]
pub enum IoDelay {
    /// None of it.
    Nothing,
    /// So much of so much, in whole numbers that floating point holds exactly.
    Part { waited: i64, elapsed: u64 },
    /// It takes floating point to say: the columns of the last look and of this one.
    Columns { before: Vec<Vec<char>>, now: Vec<Vec<char>> },
}

/// [`IoDelay`] with the columns as sequences.
#[verifier::ext_equal]
pub enum IoDelayView {
    Nothing,
    Part { waited: int, elapsed: int },
    Columns { before: Seq<Seq<char>>, now: Seq<Seq<char>> },
}

impl View for IoDelay {
    type V = IoDelayView;

    open spec fn view(&self) -> IoDelayView {
        match self {
            IoDelay::Nothing => IoDelayView::Nothing,
            IoDelay::Part { waited, elapsed } => IoDelayView::Part {
                waited: *waited as int,
                elapsed: *elapsed as int,
            },
            IoDelay::Columns { before, now } => IoDelayView::Columns {
                before: words_view(before@),
                now: words_view(now@),
            },
        }
    }
}

/// What part of the time went by waiting between two looks, of which the first may not have been:
/// the growth of the fifth column as a part of the growth of all of them. It is none where they did
/// not grow, or had come to nothing before.
pub open spec fn delay_between(before: Seq<Seq<char>>, now: Seq<Seq<char>>) -> IoDelayView {
    if before.len() == 0 {
        IoDelayView::Nothing
    } else if !are_exact(before) || !are_exact(now) {
        IoDelayView::Columns { before, now }
    } else if total_of(now) > total_of(before) && total_of(before) > 0 {
        IoDelayView::Part {
            waited: value_of(now[4]) - value_of(before[4]),
            elapsed: total_of(now) - total_of(before),
        }
    } else {
        IoDelayView::Nothing
    }
}

/// The statistics as they were at the last look.
#[derive(Debug)]
pub struct IoWait {
    columns: Vec<Vec<char>>,
}

impl IoWait {
    /// The columns at the last look, none before the first.
    pub closed spec fn last_columns(self) -> Seq<Seq<char>> {
        words_view(self.columns@)
    }

    /// There were enough columns at the last look, if there was one.
    pub open spec fn wf(self) -> bool {
        self.last_columns().len() == 0 || self.last_columns().len() >= 5
    }

    /// Nothing has been looked at yet.
    pub fn new() -> (io_wait: Self)
        ensures
            io_wait.wf(),
            io_wait.last_columns().len() == 0,
    {
        IoWait { columns: Vec::new() }
    }

    /// Takes the beginning of the kernel's statistics, whose first line is about all processors
    /// together, and says what part of the time since the last look went by waiting.
    ///
    /// Only that line counts: what follows it, and a number that the end of the buffer may have cut
    /// off there, is not read. The time spent waiting is the fifth column. With fewer columns there
    /// is nothing to say, and on the first look there is nothing to compare with. The kernel writes
    /// whole numbers; for columns that take floating point, they are handed out as they are.
    pub fn update(&mut self, buffer: Vec<u8>) -> (delay: IoDelay)
        requires
            old(self).wf(),
            valid_utf8(buffer@),
            buffer@.len() >= 3 && buffer@.take(3) == seq![99u8, 112, 117],
        ensures
            final(self).wf(),
            ({
                let columns = columns_of(first_line(decode_utf8(buffer@)));
                if columns.len() < 5 {
                    &&& delay@ == IoDelayView::Nothing
                    &&& *final(self) == *old(self)
                } else {
                    &&& delay@ == delay_between(old(self).last_columns(), columns)
                    &&& final(self).last_columns() == columns
                }
            }),
    {
        let text: String = match String::from_utf8(buffer) {
            Ok(text) => text,
            Err(_) => {
                return IoDelay::Nothing;
            },
        };
        let mut columns: Vec<Vec<char>> = read_columns(&first_line_of(text.as_str()));
        if columns.len() < 5 {
            return IoDelay::Nothing;
        }
        let ghost now = words_view(columns@);
        let ghost before = self.last_columns();
        std::mem::swap(&mut self.columns, &mut columns);
        assert(self.last_columns() == now && words_view(columns@) == before);
        if columns.len() == 0 {
            return IoDelay::Nothing;
        }
        match (add_up(&columns), add_up(&self.columns)) {
            (Some((old_wait, old_total)), Some((io_wait, total))) => {
                assert(before[4] == columns@[4]@ && now[4] == self.columns@[4]@);
                if total > old_total && old_total > 0 {
                    IoDelay::Part {
                        waited: io_wait - old_wait,
                        elapsed: (total - old_total) as u64,
                    }
                } else {
                    IoDelay::Nothing
                }
            },
            _ => IoDelay::Columns { before: columns, now: copy_of(&self.columns) },
        }
    }
}

fn copy_of(words: &Vec<Vec<char>>) -> (copy: Vec<Vec<char>>)
    ensures
        words_view(copy@) == words_view(words@),
{
    let mut copy: Vec<Vec<char>> = Vec::new();
    let mut i: usize = 0;
    while i < words.len()
        invariant
            i <= words@.len(),
            words_view(copy@) == words_view(words@).take(i as int),
        decreases words@.len() - i,
    {
        let ghost before = words_view(copy@);
        let word: Vec<char> = part_of(&words[i], 0, words[i].len());
        assert(word@ =~= words@[i as int]@);
        copy.push(word);
        assert(words_view(copy@) =~= before.push(words@[i as int]@));
        i += 1;
        assert(before.push(words@[i - 1]@) =~= words_view(words@).take(i as int));
    }
    assert(words_view(words@).take(i as int) =~= words_view(words@));
    copy
}

impl Default for IoWait {
    fn default() -> (io_wait: Self)
        ensures
            io_wait.wf(),
            io_wait.last_columns().len() == 0,
    {
        IoWait::new()
    }
}

/// No column fell from one look to the next.
pub open spec fn none_fell(before: Seq<Seq<char>>, now: Seq<Seq<char>>) -> bool {
    &&& before.len() == now.len()
    &&& forall|i: int| 0 <= i < before.len() ==> value_of(#[trigger] before[i]) <= value_of(now[i])
}

/// No column grew but the one at `at`, if any did.
pub open spec fn others_stayed(before: Seq<Seq<char>>, now: Seq<Seq<char>>, at: int) -> bool {
    forall|i: int|
        0 <= i < before.len() && i != at ==> value_of(#[trigger] before[i]) == value_of(now[i])
}

/// The total grows by as much as one of the columns at least, where none fell, and by just as much
/// where only that one grew.
proof fn lemma_total_grows(before: Seq<Seq<char>>, now: Seq<Seq<char>>, at: int)
    requires
        none_fell(before, now),
    ensures
        total_of(before) <= total_of(now),
        0 <= at < before.len() ==> value_of(now[at]) - value_of(before[at]) <= total_of(now)
            - total_of(before),
        0 <= at < before.len() && others_stayed(before, now, at) ==> value_of(now[at]) - value_of(
            before[at],
        ) == total_of(now) - total_of(before),
        !(0 <= at < before.len()) && others_stayed(before, now, at) ==> total_of(before)
            == total_of(now),
    decreases before.len(),
{
    if before.len() > 0 {
        let last = before.len() - 1;
        let one = before.drop_last();
        let two = now.drop_last();
        assert forall|i: int| 0 <= i < one.len() implies value_of(#[trigger] one[i]) <= value_of(
            two[i],
        ) by {
            assert(value_of(before[i]) <= value_of(now[i]));
        }
        lemma_total_grows(one, two, at);
        assert(value_of(before[last]) <= value_of(now[last]));
        if others_stayed(before, now, at) {
            assert forall|i: int| 0 <= i < one.len() && i != at implies value_of(
                #[trigger] one[i],
            ) == value_of(two[i]) by {
                assert(value_of(before[i]) == value_of(now[i]));
            }
            if at != last {
                assert(value_of(before[last]) == value_of(now[last]));
            }
        }
    }
}

/// The part that went by waiting is a part: where no column fell since a look at which they came to
/// more than nothing, it is between nothing and all of the time that went by. It is nothing where
/// no column grew, and all where only the fifth did.
pub proof fn law_waiting_is_a_part(before: Seq<Seq<char>>, now: Seq<Seq<char>>)
    requires
        before.len() >= 5,
        are_exact(before),
        are_exact(now),
        total_of(before) > 0,
        none_fell(before, now),
    ensures
        delay_between(before, now) matches IoDelayView::Part { waited, elapsed } ==> 0 <= waited
            <= elapsed && 0 < elapsed,
        !(delay_between(before, now) is Columns),
        others_stayed(before, now, -1) ==> delay_between(before, now) is Nothing,
        others_stayed(before, now, 4) && value_of(before[4]) < value_of(now[4]) ==> (delay_between(
            before,
            now,
        ) matches IoDelayView::Part { waited, elapsed } && waited == elapsed),
{
    lemma_total_grows(before, now, 4);
    lemma_total_grows(before, now, -1);
    assert(value_of(before[4]) <= value_of(now[4]));
}

/// Spaces, tabs and line ends separate words, and nothing that prints does.
pub proof fn law_what_prints_is_in_a_word(c: char)
    ensures
        c == ' ' || c == '\t' || c == '\n' || c == '\r' ==> is_white(c),
        '!' <= c <= '~' ==> !is_white(c),
{
}

/// A text without a separator is one word, and one with a separator has the words before it and
/// then the words after it. So every run of other characters is a word, in a text of any length.
pub proof fn law_words_stand_between_separators(one: Seq<char>, c: char, two: Seq<char>)
    requires
        is_white(c),
    ensures
        words_of(one.push(c) + two) == words_of(one) + words_of(two),
        one.len() > 0 && (forall|i: int| 0 <= i < one.len() ==> !is_white(#[trigger] one[i]))
            ==> words_of(one) == seq![one],
        words_of(Seq::empty()) == Seq::<Seq<char>>::empty(),
    decreases one.len(),
{
    let whole = one.push(c) + two;
    if one.len() == 0 {
        assert(whole.skip(1) =~= two);
        assert(words_of(one) + words_of(two) =~= words_of(two));
    } else if is_white(one[0]) {
        let rest = one.skip(1);
        law_words_stand_between_separators(rest, c, two);
        assert(whole.skip(1) =~= rest.push(c) + two);
    } else {
        lemma_word_len(one);
        lemma_word_len(whole);
        let len = word_len(one) as int;
        assert(is_white(whole[len])) by {
            if len < one.len() {
                assert(whole[len] == one[len]);
            } else {
                assert(whole[len] == c);
            }
        }
        if word_len(whole) < len {
            assert(whole[word_len(whole) as int] == one[word_len(whole) as int]);
        }
        if word_len(whole) > len {
            assert(!is_white(whole[len]));
        }
        assert(word_len(whole) == len);
        let rest = one.skip(len);
        law_words_stand_between_separators(rest, c, two);
        assert(whole.take(len) =~= one.take(len));
        assert(whole.skip(len) =~= rest.push(c) + two);
        assert(words_of(whole) =~= words_of(one) + words_of(two));
        if forall|i: int| 0 <= i < one.len() ==> !is_white(#[trigger] one[i]) {
            if len < one.len() {
                assert(!is_white(one[len]));
            }
            assert(rest =~= Seq::<char>::empty());
            assert(one.take(len) =~= one);
            assert(words_of(one) =~= seq![one]);
        }
    }
}

proof fn lemma_numbers_among(words: Seq<Seq<char>>)
    ensures
        numbers_among(words) == words.filter(|word: Seq<char>| is_number(word)),
    decreases words.len(),
{
    reveal(Seq::filter);
    if words.len() > 0 {
        lemma_numbers_among(words.drop_last());
    }
    assert(numbers_among(words) =~= words.filter(|word: Seq<char>| is_number(word)));
}

/// Every word of a line after the first that reads as a number is a column, and nothing else is, in
/// order and for lines of any length.
pub proof fn law_columns_are_all_the_numbers(line: Seq<char>)
    ensures
        words_of(line).len() > 0 ==> columns_of(line) == words_of(line).skip(1).filter(
            |word: Seq<char>| is_number(word),
        ),
        words_of(line).len() == 0 ==> columns_of(line).len() == 0,
{
    lemma_numbers_among(after_first(words_of(line)));
}

/// One more word on a line is one more column where it reads as a number, and none where it does
/// not, however many columns there are already.
pub proof fn law_every_number_counts(line: Seq<char>, c: char, word: Seq<char>)
    requires
        words_of(line).len() > 0,
        is_white(c),
        word.len() > 0,
        forall|i: int| 0 <= i < word.len() ==> !is_white(#[trigger] word[i]),
    ensures
        columns_of(line.push(c) + word) == (if is_number(word) {
            columns_of(line).push(word)
        } else {
            columns_of(line)
        }),
{
    law_words_stand_between_separators(line, c, word);
    law_words_stand_between_separators(word, c, Seq::empty());
    let before = words_of(line);
    let after = words_of(line.push(c) + word);
    assert(after =~= before.push(word));
    assert(after_first(after) =~= after_first(before).push(word));
    assert(after_first(before).push(word).drop_last() =~= after_first(before));
}

/// Only the first line counts: what follows its line feed makes no difference.
pub proof fn law_first_line_ends_at_the_feed(line: Seq<char>, rest: Seq<char>)
    requires
        forall|i: int| 0 <= i < line.len() ==> #[trigger] line[i] != '\n',
    ensures
        first_line(line) == line,
        first_line(line.push('\n') + rest) == line,
    decreases line.len(),
{
    let whole = line.push('\n') + rest;
    if line.len() == 0 {
        assert(first_line(line) =~= line);
        assert(first_line(whole) =~= line);
    } else {
        let shorter = line.skip(1);
        assert forall|i: int| 0 <= i < shorter.len() implies #[trigger] shorter[i] != '\n' by {
            assert(shorter[i] == line[i + 1]);
        }
        law_first_line_ends_at_the_feed(shorter, rest);
        assert(whole.skip(1) =~= shorter.push('\n') + rest);
        assert(first_line(shorter).len() == shorter.len());
        lemma_line_len(shorter);
        lemma_line_len(shorter.push('\n') + rest);
        assert(line_len(line) == line.len());
        assert(line_len(whole) == line.len());
        assert(first_line(line) =~= line);
        assert(first_line(whole) =~= line);
    }
}

proof fn lemma_line_len(text: Seq<char>)
    ensures
        line_len(text) <= text.len(),
        first_line(text).len() == line_len(text),
    decreases text.len(),
{
    if text.len() > 0 && text[0] != '\n' {
        lemma_line_len(text.skip(1));
    }
}

/// The total is the sum over all the columns: that of some columns and of some more is the two
/// totals added up, and that of one column is its number. So it is with their sizes.
pub proof fn law_total_is_the_sum(one: Seq<Seq<char>>, two: Seq<Seq<char>>, word: Seq<char>)
    ensures
        total_of(one + two) == total_of(one) + total_of(two),
        total_of(seq![word]) == value_of(word),
        total_of(Seq::empty()) == 0,
        sizes_of(one + two) == sizes_of(one) + sizes_of(two),
        sizes_of(seq![word]) == size_of(word),
        size_of(word) == value_of(word) || size_of(word) == -value_of(word),
    decreases two.len(),
{
    let single = seq![word];
    assert(single.drop_last() =~= Seq::<Seq<char>>::empty());
    assert(total_of(single.drop_last()) == 0 && sizes_of(single.drop_last()) == 0);
    if two.len() == 0 {
        assert(one + two =~= one);
    } else {
        law_total_is_the_sum(one, two.drop_last(), word);
        assert((one + two).drop_last() =~= one + two.drop_last());
    }
}

/// The delay is the growth of the fifth column as a part of the growth of all of them added up,
/// where they have grown since a look at which they came to more than nothing. On the first look,
/// and where they have not grown, there is none.
pub proof fn law_delay_is_a_part_of_all_the_growth(before: Seq<Seq<char>>, now: Seq<Seq<char>>)
    requires
        now.len() >= 5,
        before.len() >= 5,
        are_exact(before),
        are_exact(now),
    ensures
        delay_between(Seq::empty(), now) == IoDelayView::Nothing,
        total_of(before) > 0 && total_of(now) > total_of(before) ==> delay_between(before, now) == (
        IoDelayView::Part {
            waited: value_of(now[4]) - value_of(before[4]),
            elapsed: total_of(now) - total_of(before),
        }),
        total_of(before) <= 0 || total_of(now) <= total_of(before) ==> delay_between(before, now)
            == IoDelayView::Nothing,
{
}

/// Columns that are not whole numbers, or too large to be added up exactly, are handed out as they
/// are, those of the last look and those of this one.
pub proof fn law_other_columns_are_handed_out(before: Seq<Seq<char>>, now: Seq<Seq<char>>)
    requires
        before.len() >= 5,
        now.len() >= 5,
    ensures
        are_exact(now) <==> sizes_of(now) <= 9_007_199_254_740_992 && forall|i: int|
            0 <= i < now.len() ==> is_whole(#[trigger] now[i]),
        !are_exact(before) || !are_exact(now) ==> delay_between(before, now) == (
        IoDelayView::Columns { before, now }),
{
}

/// Digits and nothing else are digits all the way.
proof fn lemma_all_digits(text: Seq<char>, rest: Seq<char>)
    requires
        forall|i: int| 0 <= i < text.len() ==> '0' <= #[trigger] text[i] <= '9',
        rest.len() > 0 ==> !('0' <= rest[0] <= '9'),
    ensures
        digits_len(text) == text.len(),
        digits_len(text + rest) == text.len(),
    decreases text.len(),
{
    let whole = text + rest;
    if text.len() > 0 {
        let shorter = text.skip(1);
        assert forall|i: int| 0 <= i < shorter.len() implies '0' <= #[trigger] shorter[i]
            <= '9' by {
            assert(shorter[i] == text[i + 1]);
        }
        lemma_all_digits(shorter, rest);
        assert(whole.skip(1) =~= shorter + rest);
        assert(whole[0] == text[0]);
    } else {
        assert(whole =~= rest);
    }
}

/// Digits read as a number, with a sign before them or without, with a point after them and more
/// digits or none, and with an exponent. A word that begins with a letter does not, but for those
/// that may stand for what is no finite number.
pub proof fn law_digits_read_as_numbers(digits: Seq<char>, more: Seq<char>, word: Seq<char>)
    requires
        digits.len() > 0,
        forall|i: int| 0 <= i < digits.len() ==> '0' <= #[trigger] digits[i] <= '9',
        forall|i: int| 0 <= i < more.len() ==> '0' <= #[trigger] more[i] <= '9',
    ensures
        is_number(digits) && is_whole(digits),
        is_number(seq!['+'] + digits) && is_whole(seq!['+'] + digits),
        is_number(seq!['-'] + digits) && is_whole(seq!['-'] + digits),
        is_number(digits.push('.') + more),
        is_number(seq!['.'] + digits),
        more.len() > 0 ==> is_number(digits.push('e') + more),
        word.len() > 0 && ('a' <= word[0] <= 'h' || 'j' <= word[0] <= 'm' || 'o' <= word[0] <= 'z')
            ==> !is_number(word),
{
    let none: Seq<char> = Seq::empty();
    lemma_all_digits(digits, none);
    lemma_all_digits(more, none);
    assert(digits[0] != '+' && digits[0] != '-');
    assert(without_sign(digits) == digits);
    assert(is_decimal(digits));
    assert((seq!['+'] + digits).skip(1) =~= digits);
    assert((seq!['-'] + digits).skip(1) =~= digits);
    let pointed = digits.push('.') + more;
    assert(pointed =~= digits + (seq!['.'] + more));
    lemma_all_digits(digits, seq!['.'] + more);
    assert(pointed[0] == digits[0]);
    assert(pointed.skip(digits.len() as int + 1) =~= more);
    assert(pointed[digits.len() as int] == '.');
    assert(mantissa_len(pointed) == pointed.len());
    assert(is_decimal(without_sign(pointed)));
    let bare = seq!['.'] + digits;
    assert(bare.skip(1) =~= digits);
    assert(digits_len(bare) == 0);
    assert(mantissa_len(bare) == bare.len());
    assert(is_decimal(without_sign(bare)));
    if more.len() > 0 {
        let raised = digits.push('e') + more;
        assert(raised =~= digits + (seq!['e'] + more));
        lemma_all_digits(digits, seq!['e'] + more);
        assert(raised[0] == digits[0]);
        assert(raised[digits.len() as int] == 'e');
        assert(mantissa_len(raised) == digits.len());
        let exponent = raised.skip(digits.len() as int);
        assert(exponent[0] == 'e');
        assert(exponent.skip(1) =~= more);
        assert(more[0] != '+' && more[0] != '-');
        assert(is_exponent(exponent));
        assert(is_decimal(without_sign(raised)));
    }
    if word.len() > 0 && ('a' <= word[0] <= 'h' || 'j' <= word[0] <= 'm' || 'o' <= word[0] <= 'z') {
        assert(without_sign(word) == word);
        assert(digits_len(word) == 0);
        assert(mantissa_len(word) == 0);
        assert(word[0] != 'i' && word[0] != 'I' && word[0] != 'n' && word[0] != 'N');
        assert(seq!['i', 'n', 'f'][0] == 'i' && seq!['n', 'a', 'n'][0] == 'n');
        assert(seq!['i', 'n', 'f', 'i', 'n', 'i', 't', 'y'][0] == 'i');
    }
}

/// A counter stands for the number that the kernel wrote in decimal, and for less than nothing with
/// a minus sign before it.
pub proof fn law_counter_is_what_was_written(number: nat)
    ensures
        value_of(decimal(number)) == number,
        value_of(seq!['+'] + decimal(number)) == number,
        value_of(seq!['-'] + decimal(number)) == -(number as int),
        is_whole(decimal(number)),
{
    law_decimal_reads_back(number, number);
    let text = decimal(number);
    let written = text.map_values(|c: char| c as u8);
    assert(ascii_bytes(text) =~= written);
    lemma_decimal_chars(number);
    lemma_all_digits(text, Seq::empty());
    assert(text[0] != '+' && text[0] != '-');
    assert(without_sign(text) == text);
    assert((seq!['+'] + text).skip(1) =~= text);
    assert((seq!['-'] + text).skip(1) =~= text);
}

proof fn lemma_decimal_chars(number: nat)
    ensures
        decimal(number).len() > 0,
        forall|i: int|
            0 <= i < decimal(number).len() ==> '0' <= #[trigger] decimal(number)[i] <= '9',
    decreases number,
{
    if number >= 10 {
        lemma_decimal_chars(number / 10);
    }
}

} // verus!
