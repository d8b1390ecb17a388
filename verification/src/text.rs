//! Text as bytes and characters: searching, splitting, and numbers in decimal.

use vstd::prelude::*;
use vstd::slice::slice_subrange;
use vstd::string::*;
use vstd::utf8::*;

verus! {

/// `needle` stands in `hay`, beginning at byte `at`.
pub open spec fn occurs_at(hay: Seq<u8>, needle: Seq<u8>, at: int) -> bool {
    &&& 0 <= at
    &&& at + needle.len() <= hay.len()
    &&& hay.subrange(at, at + needle.len()) == needle
}

/// The first place where `needle` stands in `hay`.
pub open spec fn is_first_occurrence(hay: Seq<u8>, needle: Seq<u8>, at: int) -> bool {
    &&& occurs_at(hay, needle, at)
    &&& forall|earlier: int| 0 <= earlier < at ==> !occurs_at(hay, needle, earlier)
}

/// Where `needle` first stands in `hay`, if it does.
pub open spec fn first_occurrence(hay: Seq<u8>, needle: Seq<u8>) -> Option<int> {
    if exists|at: int| is_first_occurrence(hay, needle, at) {
        Some(choose|at: int| is_first_occurrence(hay, needle, at))
    } else {
        None
    }
}

/// Whether `needle` stands in `hay` at `at`.
fn stands_at(hay: &[u8], needle: &[u8], at: usize) -> (yes: bool)
    requires
        at <= hay@.len(),
    ensures
        yes == occurs_at(hay@, needle@, at as int),
{
    let size: usize = hay.len();
    if size - at < needle.len() {
        return false;
    }
    let mut i: usize = 0;
    while i < needle.len()
        invariant
            at + needle@.len() <= hay@.len(),
            size == hay@.len(),
            i <= needle@.len(),
            forall|j: int| 0 <= j < i ==> hay@[at + j] == #[trigger] needle@[j],
        decreases needle@.len() - i,
    {
        if hay[at + i] != needle[i] {
            assert(hay@.subrange(at as int, at + needle@.len())[i as int] != needle@[i as int]);
            return false;
        }
        i += 1;
    }
    assert(hay@.subrange(at as int, at + needle@.len()) =~= needle@);
    true
}

/// There is one first place only.
pub proof fn lemma_first_occurrence(hay: Seq<u8>, needle: Seq<u8>, at: int)
    requires
        is_first_occurrence(hay, needle, at),
    ensures
        first_occurrence(hay, needle) == Some(at),
{
    let chosen = choose|c: int| is_first_occurrence(hay, needle, c);
    assert(is_first_occurrence(hay, needle, chosen));
    if chosen < at {
        assert(!occurs_at(hay, needle, chosen));
    }
    if at < chosen {
        assert(!occurs_at(hay, needle, at));
    }
}

/// Where `needle` first stands in `hay`.
pub fn find_bytes(hay: &[u8], needle: &[u8]) -> (found: Option<usize>)
    ensures
        match found {
            Some(at) => first_occurrence(hay@, needle@) == Some(at as int),
            None => first_occurrence(hay@, needle@) is None,
        },
        found matches Some(at) ==> is_first_occurrence(hay@, needle@, at as int),
        found is None ==> forall|at: int| !occurs_at(hay@, needle@, at),
{
    let mut at: usize = 0;
    while hay.len() - at >= needle.len()
        invariant
            at <= hay@.len(),
            forall|earlier: int| 0 <= earlier < at ==> !occurs_at(hay@, needle@, earlier),
        decreases hay@.len() - at,
    {
        if stands_at(hay, needle, at) {
            proof {
                lemma_first_occurrence(hay@, needle@, at as int);
            }
            return Some(at);
        }
        if at == hay.len() {
            return None;
        }
        at += 1;
    }
    None
}

/// A line without the carriage return that may stand before its line feed.
pub open spec fn without_return(line: Seq<u8>) -> Seq<u8> {
    if line.len() > 0 && line.last() == 13u8 {
        line.drop_last()
    } else {
        line
    }
}

/// The lines of a text: each ends at a line feed, which is not part of it, nor is a carriage
/// return right before the line feed. What follows the last line feed is a line if there is any.
pub open spec fn lines_of(text: Seq<u8>) -> Seq<Seq<u8>>
    decreases text.len(),
{
    if text.len() == 0 {
        Seq::empty()
    } else {
        match first_occurrence(text, seq![10u8]) {
            Some(at) if 0 <= at < text.len() => seq![without_return(text.take(at))] + lines_of(
                text.skip(at + 1),
            ),
            _ => seq![text],
        }
    }
}

/// The lines of two texts put together, the first of which ends with a line feed, are the lines
/// of the first and then those of the second.
pub proof fn lemma_lines_of_two(one: Seq<u8>, two: Seq<u8>)
    requires
        one.len() > 0,
        one.last() == 10,
    ensures
        lines_of(one + two) == lines_of(one) + lines_of(two),
    decreases one.len(),
{
    let feed = seq![10u8];
    let whole = one + two;
    let last = one.len() - 1;
    assert(one.subrange(last, last + 1) =~= feed);
    assert(occurs_at(one, feed, last));
    let at = lemma_some_occurrence(one, feed, last);
    lemma_first_occurrence(one, feed, at);
    assert forall|j: int| 0 <= j < one.len() implies occurs_at(whole, feed, j) == occurs_at(
        one,
        feed,
        j,
    ) by {
        assert(whole.subrange(j, j + 1) =~= one.subrange(j, j + 1));
    }
    assert(is_first_occurrence(whole, feed, at));
    lemma_first_occurrence(whole, feed, at);
    assert(whole.take(at) =~= one.take(at));
    assert(whole.skip(at + 1) =~= one.skip(at + 1) + two);
    let rest = one.skip(at + 1);
    if rest.len() > 0 {
        lemma_lines_of_two(rest, two);
        assert(lines_of(whole) =~= lines_of(one) + lines_of(two));
    } else {
        assert(rest + two =~= two);
        assert(lines_of(rest).len() == 0);
        assert(lines_of(whole) =~= lines_of(one) + lines_of(two));
    }
}

/// What stands somewhere stands somewhere first.
proof fn lemma_some_occurrence(hay: Seq<u8>, needle: Seq<u8>, at: int) -> (first: int)
    requires
        occurs_at(hay, needle, at),
    ensures
        is_first_occurrence(hay, needle, first),
        first <= at,
    decreases at,
{
    if exists|earlier: int| 0 <= earlier < at && occurs_at(hay, needle, earlier) {
        let earlier = choose|earlier: int| 0 <= earlier < at && occurs_at(hay, needle, earlier);
        lemma_some_occurrence(hay, needle, earlier)
    } else {
        at
    }
}

/// In valid UTF-8 a character ends after every byte that is ASCII.
pub proof fn lemma_boundary_after_ascii(bytes: Seq<u8>, at: int)
    requires
        valid_utf8(bytes),
        0 <= at < bytes.len(),
        bytes[at] < 128,
    ensures
        is_char_boundary(bytes, at),
        is_char_boundary(bytes, at + 1),
{
    is_char_boundary_iff_not_is_continuation_byte(bytes, at);
    valid_utf8_split(bytes, at);
    let tail = bytes.subrange(at, bytes.len() as int);
    let rest = pop_first_scalar(tail);
    assert(tail[0] == bytes[at]);
    assert(valid_utf8(tail));
    assert(is_leading_byte_width_1(tail[0]));
    assert(rest =~= bytes.subrange(at + 1, bytes.len() as int));
    assert(valid_utf8(rest));
    if at + 1 == bytes.len() {
        is_char_boundary_start_end_of_seq(bytes);
    } else {
        assert(rest[0] == bytes[at + 1]);
        assert(valid_first_scalar(rest));
        is_char_boundary_iff_not_is_continuation_byte(bytes, at + 1);
    }
}

/// The character of one decimal digit.
pub open spec fn digit_char(digit: int) -> char
    recommends
        0 <= digit < 10,
{
    (48 + digit) as char
}

/// A number in decimal, without leading zeros.
pub open spec fn decimal(number: nat) -> Seq<char>
    decreases number,
{
    if number < 10 {
        seq![digit_char(number as int)]
    } else {
        decimal(number / 10).push(digit_char((number % 10) as int))
    }
}

fn digit_text(digit: u64) -> (text: &'static str)
    requires
        digit < 10,
    ensures
        text@ == seq![digit_char(digit as int)],
{
    proof {
        reveal_strlit("0");
        reveal_strlit("1");
        reveal_strlit("2");
        reveal_strlit("3");
        reveal_strlit("4");
        reveal_strlit("5");
        reveal_strlit("6");
        reveal_strlit("7");
        reveal_strlit("8");
        reveal_strlit("9");
    }
    let text: &'static str = match digit {
        0 => "0",
        1 => "1",
        2 => "2",
        3 => "3",
        4 => "4",
        5 => "5",
        6 => "6",
        7 => "7",
        8 => "8",
        _ => "9",
    };
    assert(text@ =~= seq![digit_char(digit as int)]);
    text
}

/// Writes a number in decimal.
pub fn decimal_text(number: u64) -> (text: String)
    ensures
        text@ == decimal(number as nat),
    decreases number,
{
    if number < 10 {
        let text = digit_text(number).to_owned();
        text
    } else {
        let mut text = decimal_text(number / 10);
        text.append(digit_text(number % 10));
        assert(text@ =~= decimal((number / 10) as nat).push(digit_char((number % 10) as int)));
        text
    }
}

/// A byte that is a decimal digit.
pub open spec fn is_digit(byte: u8) -> bool {
    48 <= byte <= 57
}

/// Every byte is a decimal digit.
pub open spec fn all_digits(text: Seq<u8>) -> bool {
    forall|i: int| 0 <= i < text.len() ==> is_digit(#[trigger] text[i])
}

/// What a row of decimal digits stands for.
pub open spec fn digits_value(text: Seq<u8>) -> nat
    decreases text.len(),
{
    if text.len() == 0 {
        0
    } else {
        digits_value(text.drop_last()) * 10 + (text.last() - 48) as nat
    }
}

/// The digits of an unsigned number: one plus sign may stand before them.
pub open spec fn after_plus(text: Seq<u8>) -> Seq<u8> {
    if text.len() > 0 && text[0] == 43u8 {
        text.skip(1)
    } else {
        text
    }
}

/// Reads an unsigned number: an optional plus sign, then one or more decimal digits and nothing
/// else, for a number of at most `limit`.
pub open spec fn unsigned_of(text: Seq<u8>, limit: nat) -> Option<nat> {
    let digits = after_plus(text);
    if digits.len() > 0 && all_digits(digits) && digits_value(digits) <= limit {
        Some(digits_value(digits))
    } else {
        None
    }
}

/// More digits make no smaller number.
proof fn lemma_digits_grow(text: Seq<u8>, shorter: int)
    requires
        0 <= shorter <= text.len(),
        all_digits(text),
    ensures
        digits_value(text.take(shorter)) <= digits_value(text),
    decreases text.len() - shorter,
{
    if shorter == text.len() {
        assert(text.take(shorter) =~= text);
    } else {
        lemma_digits_grow(text, shorter + 1);
        assert(text.take(shorter + 1).drop_last() =~= text.take(shorter));
        assert(is_digit(text[shorter]));
    }
}

/// Reads a row of decimal digits that stands for at most `limit`.
pub fn read_digits(digits: &[u8], limit: u64) -> (number: Option<u64>)
    ensures
        match number {
            Some(n) => all_digits(digits@) && digits_value(digits@) == n && n <= limit,
            None => !all_digits(digits@) || digits_value(digits@) > limit,
        },
{
    let mut total: u64 = 0;
    let mut i: usize = 0;
    while i < digits.len()
        invariant
            i <= digits@.len(),
            total <= limit,
            forall|j: int| 0 <= j < i ==> is_digit(#[trigger] digits@[j]),
            total == digits_value(digits@.take(i as int)),
        decreases digits@.len() - i,
    {
        let byte: u8 = digits[i];
        if byte < 48 || byte > 57 {
            assert(!is_digit(digits@[i as int]));
            return None;
        }
        proof {
            assert(digits@.take(i + 1).drop_last() =~= digits@.take(i as int));
            if all_digits(digits@) {
                lemma_digits_grow(digits@, i + 1);
            }
        }
        let digit: u64 = (byte - 48) as u64;
        let next: u128 = total as u128 * 10 + digit as u128;
        if next > limit as u128 {
            return None;
        }
        total = next as u64;
        i += 1;
    }
    assert(digits@.take(digits@.len() as int) =~= digits@);
    Some(total)
}

/// Reads an unsigned number of at most `limit`.
pub fn read_unsigned(text: &[u8], limit: u64) -> (number: Option<u64>)
    ensures
        match number {
            Some(n) => unsigned_of(text@, limit as nat) == Some(n as nat),
            None => unsigned_of(text@, limit as nat) is None,
        },
{
    let signed: bool = text.len() > 0 && text[0] == 43;
    let digits: &[u8] = if signed {
        slice_subrange(text, 1, text.len())
    } else {
        text
    };
    assert(digits@ =~= after_plus(text@));
    if digits.len() == 0 {
        return None;
    }
    read_digits(digits, limit)
}

/// The standard library's account of why bytes are not UTF-8.
#[verifier::external_type_specification]
#[verifier::external_body]
pub struct ExFromUtf8Error(std::string::FromUtf8Error);

/// `String::from_utf8`: takes the bytes as text exactly when they are valid UTF-8, and then the
/// text is what they encode.
pub assume_specification[ String::from_utf8 ](vec: Vec<u8>) -> (text: Result<
    String,
    std::string::FromUtf8Error,
>)
    ensures
        text is Ok <==> valid_utf8(vec@),
        text matches Ok(s) ==> s@ == decode_utf8(vec@),
;

/// The text that `String::from_utf8_lossy` makes of bytes.
pub uninterp spec fn lossy_text(bytes: Seq<u8>) -> Seq<char>;

/// `String::from_utf8_lossy`: the text depends on the bytes alone, and valid UTF-8 is taken as it
/// is. Which replacement characters stand for invalid bytes is left to the name.
#[verifier::external_body]
pub(crate) fn text_from_lossy(bytes: &[u8]) -> (text: String)
    ensures
        text@ == lossy_text(bytes@),
        valid_utf8(bytes@) ==> text@ == decode_utf8(bytes@),
{
    String::from_utf8_lossy(bytes).into_owned()
}

/// A text is what the operating system's bytes say, with what is not text replaced.
pub open spec fn is_text_of(text: Seq<char>, bytes: Seq<u8>) -> bool {
    &&& text == lossy_text(bytes)
    &&& valid_utf8(bytes) ==> text == decode_utf8(bytes)
}

/// A number that is written in decimal reads back as itself, with a plus sign before it or without,
/// wherever the limit lets it, and is written without leading zeros.
pub proof fn law_decimal_reads_back(number: nat, limit: nat)
    ensures
        ({
            let written = decimal(number).map_values(|c: char| c as u8);
            &&& written.len() > 0
            &&& all_digits(written)
            &&& digits_value(written) == number
            &&& unsigned_of(written, limit) == (if number <= limit {
                Some(number)
            } else {
                None
            })
            &&& unsigned_of(seq![43u8] + written, limit) == unsigned_of(written, limit)
            &&& number > 0 ==> decimal(number)[0] != '0'
        }),
    decreases number,
{
    let written = decimal(number).map_values(|c: char| c as u8);
    if number < 10 {
        assert(written =~= seq![(48 + number) as u8]);
        assert(written.drop_last() =~= Seq::<u8>::empty());
        assert(digits_value(written.drop_last()) == 0);
    } else {
        law_decimal_reads_back(number / 10, limit);
        let shorter = decimal(number / 10).map_values(|c: char| c as u8);
        let digit = (48 + number % 10) as u8;
        assert(written =~= shorter.push(digit));
        assert(written.drop_last() =~= shorter);
        assert(decimal(number)[0] == decimal(number / 10)[0]);
    }
    assert(all_digits(written));
    assert(is_digit(written[0]));
    assert((seq![43u8] + written).skip(1) =~= written);
}

/// A row of digits, leading zeros or not, is the number that they stand for. What is no row of
/// digits, but for one plus sign before it, is refused, and so is a number above the limit.
pub proof fn law_what_is_no_number_is_refused(text: Seq<u8>, at: int, limit: nat)
    ensures
        text.len() == 0 ==> unsigned_of(text, limit) is None,
        text == seq![43u8] ==> unsigned_of(text, limit) is None,
        0 <= at < text.len() && !(48 <= text[at] <= 57) && !(at == 0 && text[0] == 43)
            ==> unsigned_of(text, limit) is None,
        unsigned_of(text, limit) matches Some(number) ==> number <= limit,
        text.len() > 0 && (forall|i: int| 0 <= i < text.len() ==> 48 <= #[trigger] text[i] <= 57)
            ==> unsigned_of(text, limit) == (if digits_value(text) <= limit {
            Some(digits_value(text))
        } else {
            None
        }),
{
    if 0 <= at < text.len() && !(48 <= text[at] <= 57) && !(at == 0 && text[0] == 43) {
        let digits = after_plus(text);
        if text[0] == 43 {
            assert(digits[at - 1] == text[at]);
        }
    }
}

/// One more digit makes ten times as much and the digit.
pub proof fn law_digits_count_tenfold(text: Seq<u8>, digit: u8)
    requires
        48 <= digit <= 57,
    ensures
        digits_value(text.push(digit)) == 10 * digits_value(text) + (digit - 48),
        digits_value(Seq::empty()) == 0,
{
    assert(text.push(digit).drop_last() =~= text);
}

/// A line ends where its line feed is: a text without one is one line, or none where it is empty,
/// and a line with its feed is that line, without the carriage return that may end it.
pub proof fn law_line_ends_at_its_feed(line: Seq<u8>)
    requires
        forall|i: int| 0 <= i < line.len() ==> #[trigger] line[i] != 10,
    ensures
        lines_of(line) == (if line.len() == 0 {
            Seq::empty()
        } else {
            seq![line]
        }),
        lines_of(line.push(10)) == seq![
            if line.len() > 0 && line.last() == 13 {
                line.drop_last()
            } else {
                line
            },
        ],
{
    let feed = seq![10u8];
    if line.len() > 0 {
        assert forall|at: int| !occurs_at(line, feed, at) by {
            if occurs_at(line, feed, at) {
                assert(line.subrange(at, at + 1)[0] == line[at]);
            }
        }
        assert(first_occurrence(line, feed) is None);
    }
    let ended = line.push(10);
    let at = line.len() as int;
    assert(ended.subrange(at, at + 1) =~= feed);
    assert forall|earlier: int| 0 <= earlier < at implies !occurs_at(ended, feed, earlier) by {
        if occurs_at(ended, feed, earlier) {
            assert(ended.subrange(earlier, earlier + 1)[0] == line[earlier]);
        }
    }
    assert(is_first_occurrence(ended, feed, at));
    lemma_first_occurrence(ended, feed, at);
    assert(ended.take(at) =~= line);
    assert(ended.skip(at + 1) =~= Seq::<u8>::empty());
    assert(lines_of(ended.skip(at + 1)).len() == 0);
    assert(lines_of(ended) =~= seq![without_return(line)]);
}

/// The first place is one where all the bytes stand, and there is no earlier one.
pub proof fn law_first_place_is_the_first(hay: Seq<u8>, needle: Seq<u8>, at: int)
    requires
        0 <= at,
        needle.is_prefix_of(hay.skip(at)),
        at <= hay.len(),
        forall|earlier: int|
            0 <= earlier < at ==> !needle.is_prefix_of(#[trigger] hay.skip(earlier)),
    ensures
        first_occurrence(hay, needle) == Some(at),
{
    let len = needle.len() as int;
    assert(hay.subrange(at, at + len) =~= hay.skip(at).take(len));
    assert forall|earlier: int| 0 <= earlier < at implies !occurs_at(hay, needle, earlier) by {
        if occurs_at(hay, needle, earlier) {
            assert(hay.subrange(earlier, earlier + len) =~= hay.skip(earlier).take(len));
            assert(needle.is_prefix_of(hay.skip(earlier)));
        }
    }
    assert(is_first_occurrence(hay, needle, at));
    lemma_first_occurrence(hay, needle, at);
}

} // verus!
