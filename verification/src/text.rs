//! Dates as text: three decimal fields with a separator between them.
//!
//! A Jalali date is written with `/` between the fields and a Gregorian
//! date with `-`. The year is written with at least four characters and the
//! month and the day with at least two, filled with zeros from the left.

use vstd::prelude::*;

use crate::calendar::Calendar;

verus! {

/// The character that stands between the fields of a date of `calendar`.
pub open spec fn separator(calendar: Calendar) -> char {
    match calendar {
        Calendar::Jalali => '/',
        Calendar::Gregorian => '-',
    }
}

/// Whether `c` is one of the ten decimal digits.
pub open spec fn is_digit(c: char) -> bool {
    '0' <= c <= '9'
}

/// The number that the digit `c` stands for.
pub open spec fn digit_value(c: char) -> int {
    c as int - '0' as int
}

/// Whether `text` holds decimal digits only.
pub open spec fn all_digits(text: Seq<char>) -> bool {
    forall|i: int| 0 <= i < text.len() ==> is_digit(#[trigger] text[i])
}

/// The number that a run of decimal digits stands for; zero for no digits.
pub open spec fn decimal_value(digits: Seq<char>) -> int
    decreases digits.len(),
{
    if digits.len() == 0 {
        0
    } else {
        10 * decimal_value(digits.drop_last()) + digit_value(digits.last())
    }
}

/// What stands behind the sign of a number: all of `text`, or all but its
/// first character where that is a `+`, or a `-` if `signed`.
pub open spec fn digits_of(text: Seq<char>, signed: bool) -> Seq<char> {
    if text.len() > 0 && (text[0] == '+' || (signed && text[0] == '-')) {
        text.skip(1)
    } else {
        text
    }
}

/// The integer that `text` is the decimal notation of, if it is one and lies
/// from `min` to `max`.
///
/// The notation is an optional sign and at least one digit. A `-` is a sign
/// only if `signed`. Zeros in front are allowed; blanks are not.
pub open spec fn integer_field(text: Seq<char>, signed: bool, min: int, max: int) -> Option<int> {
    let digits = digits_of(text, signed);
    let magnitude = decimal_value(digits);
    let value = if signed && text.len() > 0 && text[0] == '-' {
        -magnitude
    } else {
        magnitude
    };
    if digits.len() > 0 && all_digits(digits) && min <= value <= max {
        Some(value)
    } else {
        None
    }
}

/// The three parts that two separators divide `text` into. There are none
/// if `text` holds fewer or more than two separators.
pub open spec fn three_parts(text: Seq<char>, mark: char) -> Option<
    (Seq<char>, Seq<char>, Seq<char>),
> {
    match text.index_of_first(mark) {
        None => None,
        Some(first) => {
            let rest = text.skip(first + 1);
            match rest.index_of_first(mark) {
                None => None,
                Some(second) => {
                    let last = rest.skip(second + 1);
                    if last.contains(mark) {
                        None
                    } else {
                        Some((text.take(first), rest.take(second), last))
                    }
                },
            }
        },
    }
}

/// The year, month and day that `text` holds, read as a date of `calendar`:
/// three parts divided by the separator of that calendar, the first a signed
/// integer of 32 bits and the other two unsigned integers of 8 bits.
///
/// Whether such a day exists is not asked here.
pub open spec fn date_fields(text: Seq<char>, calendar: Calendar) -> Option<(int, int, int)> {
    match three_parts(text, separator(calendar)) {
        None => None,
        Some((year, month, day)) => match (
            integer_field(year, true, i32::MIN as int, i32::MAX as int),
            integer_field(month, false, 0, u8::MAX as int),
            integer_field(day, false, 0, u8::MAX as int),
        ) {
            (Some(y), Some(m), Some(d)) => Some((y, m, d)),
            _ => None,
        },
    }
}

/// A number is no smaller than what any of its leading digits stand for.
pub proof fn lemma_decimal_value_grows(digits: Seq<char>, count: int)
    requires
        all_digits(digits),
        0 <= count <= digits.len(),
    ensures
        0 <= decimal_value(digits.take(count)) <= decimal_value(digits),
    decreases digits.len() - count,
{
    if count == digits.len() {
        assert(digits.take(count) =~= digits);
        lemma_decimal_value_nonnegative(digits);
    } else {
        lemma_decimal_value_grows(digits, count + 1);
        let longer = digits.take(count + 1);
        assert(longer.drop_last() =~= digits.take(count));
        assert(is_digit(longer.last()));
        lemma_decimal_value_nonnegative(digits.take(count));
    }
}

/// Digits stand for a number that is not negative.
pub proof fn lemma_decimal_value_nonnegative(digits: Seq<char>)
    requires
        all_digits(digits),
    ensures
        0 <= decimal_value(digits),
    decreases digits.len(),
{
    if digits.len() > 0 {
        assert(is_digit(digits.last()));
        lemma_decimal_value_nonnegative(digits.drop_last());
    }
}

/// The characters of `text`, one by one.
fn characters(text: &str) -> (chars: Vec<char>)
    ensures
        chars@ == text@,
{
    broadcast use vstd::string::group_string_axioms;

    let mut chars: Vec<char> = Vec::new();
    for c in walk: text.chars()
        invariant
            walk.seq() == text@,
            chars@ == text@.take(walk.index() as int),
    {
        chars.push(c);
        assert(chars@ =~= text@.take(walk.index() + 1));
    }
    assert(text@.take(text@.len() as int) =~= text@);
    chars
}

/// Where `mark` first stands in `chars` at or behind `from`, or the length
/// of `chars` if it stands nowhere there.
fn find_mark(chars: &Vec<char>, from: usize, mark: char) -> (at: usize)
    requires
        from <= chars.len(),
    ensures
        from <= at <= chars.len(),
        chars@.skip(from as int).index_of_first(mark) == if at < chars.len() {
            Some(at - from)
        } else {
            None
        },
{
    let mut at: usize = from;
    while at < chars.len() && chars[at] != mark
        invariant
            from <= at <= chars.len(),
            forall|k: int| from <= k < at ==> chars@[k] != mark,
        decreases chars.len() - at,
    {
        at += 1;
    }
    proof {
        let tail = chars@.skip(from as int);
        tail.index_of_first_ensures(mark);
        if at < chars.len() {
            assert(tail[at - from] == mark);
            assert(tail.contains(mark));
            let found = tail.index_of_first(mark).unwrap();
            assert(tail[found] == chars@[found + from]);
            if found > at - from {
                assert(tail[at - from] != mark);
            }
        } else {
            if tail.contains(mark) {
                let found = tail.index_of_first(mark).unwrap();
                assert(tail[found] == chars@[found + from]);
            }
        }
    }
    at
}

/// Reads `chars[from..to]` as a run of digits that stands for a number up to
/// `limit`.
fn read_digits(chars: &Vec<char>, from: usize, to: usize, limit: u64) -> (value: Option<u64>)
    requires
        from <= to <= chars.len(),
        limit <= u32::MAX,
    ensures
        ({
            let digits = chars@.subrange(from as int, to as int);
            if digits.len() > 0 && all_digits(digits) && decimal_value(digits) <= limit {
                value == Some(decimal_value(digits) as u64)
            } else {
                value is None
            }
        }),
{
    let ghost digits = chars@.subrange(from as int, to as int);
    if from == to {
        return None;
    }
    let mut total: u64 = 0;
    let mut at: usize = from;
    while at < to
        invariant
            from <= at <= to <= chars.len(),
            limit <= u32::MAX,
            digits == chars@.subrange(from as int, to as int),
            all_digits(chars@.subrange(from as int, at as int)),
            total == decimal_value(chars@.subrange(from as int, at as int)),
            total <= limit,
        decreases to - at,
    {
        let c = chars[at];
        if c < '0' || c > '9' {
            assert(digits[at - from] == c);
            return None;
        }
        let next: u64 = total * 10 + (c as u64 - '0' as u64);
        proof {
            let seen = chars@.subrange(from as int, at as int);
            let longer = chars@.subrange(from as int, at + 1);
            assert(longer.drop_last() =~= seen);
            assert(longer.last() == c);
            assert(longer =~= digits.take(at + 1 - from));
            if all_digits(digits) {
                lemma_decimal_value_grows(digits, at + 1 - from);
            }
            assert forall|i: int| 0 <= i < longer.len() implies is_digit(#[trigger] longer[i]) by {
                if i < seen.len() {
                    assert(longer[i] == seen[i]);
                }
            }
        }
        if next > limit {
            return None;
        }
        total = next;
        at += 1;
    }
    Some(total)
}

/// Reads `chars[from..to]` as an integer from `min` to `max`, with a `-` in
/// front allowed only if `signed`.
fn read_integer(
    chars: &Vec<char>,
    from: usize,
    to: usize,
    signed: bool,
    min: i64,
    max: i64,
) -> (value: Option<i64>)
    requires
        from <= to <= chars.len(),
        -(u32::MAX as int) <= min <= 0 <= max <= u32::MAX,
    ensures
        match integer_field(chars@.subrange(from as int, to as int), signed, min as int, max as int) {
            Some(n) => value == Some(n as i64),
            None => value is None,
        },
{
    let ghost text = chars@.subrange(from as int, to as int);
    let negative = signed && from < to && chars[from] == '-';
    let start = if from < to && (chars[from] == '+' || negative) {
        from + 1
    } else {
        from
    };
    let limit: u64 = if negative {
        (-min) as u64
    } else {
        max as u64
    };
    proof {
        let digits = digits_of(text, signed);
        assert(digits =~= chars@.subrange(start as int, to as int));
        if all_digits(digits) {
            lemma_decimal_value_nonnegative(digits);
        }
    }
    match read_digits(chars, start, to, limit) {
        None => None,
        Some(magnitude) => Some(
            if negative {
                -(magnitude as i64)
            } else {
                magnitude as i64
            },
        ),
    }
}

/// Finds the two separators that divide `chars` into three parts.
fn find_parts(chars: &Vec<char>, mark: char) -> (found: Option<(usize, usize)>)
    ensures
        match three_parts(chars@, mark) {
            None => found is None,
            Some(parts) => found matches Some((first, second)) && first < second < chars.len()
                && parts == (
                chars@.subrange(0, first as int),
                chars@.subrange(first + 1, second as int),
                chars@.subrange(second + 1, chars.len() as int),
            ),
        },
{
    let first = find_mark(chars, 0, mark);
    assert(chars@.skip(0) =~= chars@);
    if first >= chars.len() {
        return None;
    }
    let second = find_mark(chars, first + 1, mark);
    if second >= chars.len() {
        return None;
    }
    let third = find_mark(chars, second + 1, mark);
    proof {
        let rest = chars@.skip(first + 1);
        let last = rest.skip(second - first);
        assert(last =~= chars@.skip(second + 1));
        last.index_of_first_ensures(mark);
        assert(chars@.take(first as int) =~= chars@.subrange(0, first as int));
        assert(rest.take(second - first - 1) =~= chars@.subrange(first + 1, second as int));
        assert(last =~= chars@.subrange(second + 1, chars.len() as int));
    }
    if third < chars.len() {
        return None;
    }
    Some((first, second))
}

/// The separator of `calendar`.
pub fn separator_of(calendar: Calendar) -> (mark: char)
    ensures
        mark == separator(calendar),
{
    match calendar {
        Calendar::Jalali => '/',
        Calendar::Gregorian => '-',
    }
}

/// Reads the year, the month and the day out of `text`, a date of
/// `calendar`. Fails if `text` is not three integers of the widths of these
/// fields with the separator of `calendar` between them.
pub fn parse_date_fields(text: &str, calendar: Calendar) -> (fields: Option<(i32, u8, u8)>)
    ensures
        match date_fields(text@, calendar) {
            Some((y, m, d)) => fields matches Some(f) && f.0 == y && f.1 == m && f.2 == d,
            None => fields is None,
        },
{
    let chars = characters(text);
    let (first, second) = match find_parts(&chars, separator_of(calendar)) {
        Some(found) => found,
        None => { return None; },
    };
    let year = read_integer(&chars, 0, first, true, i32::MIN as i64, i32::MAX as i64);
    let month = read_integer(&chars, first + 1, second, false, 0, u8::MAX as i64);
    let day = read_integer(&chars, second + 1, chars.len(), false, 0, u8::MAX as i64);
    match (year, month, day) {
        (Some(y), Some(m), Some(d)) => Some((y as i32, m as u8, d as u8)),
        _ => None,
    }
}

/// The digit that stands for `value`, a number from 0 to 9.
pub open spec fn digit_char(value: int) -> char {
    ('0' as int + value) as char
}

/// The decimal notation of `n`, without zeros in front.
pub open spec fn decimal_text(n: nat) -> Seq<char>
    decreases n,
{
    if n < 10 {
        seq![digit_char(n as int)]
    } else {
        decimal_text(n / 10).push(digit_char((n % 10) as int))
    }
}

/// The decimal notation of `n`, with a `-` in front if it is negative.
pub open spec fn integer_text(n: int) -> Seq<char> {
    if n < 0 {
        seq!['-'] + decimal_text((-n) as nat)
    } else {
        decimal_text(n as nat)
    }
}

/// `count` zeros.
pub open spec fn zeros(count: nat) -> Seq<char> {
    Seq::new(count, |i: int| '0')
}

/// `text`, with zeros put in front of it until it has `width` characters.
/// They come before a sign, too.
pub open spec fn zero_padded(text: Seq<char>, width: nat) -> Seq<char> {
    if text.len() < width {
        zeros((width - text.len()) as nat) + text
    } else {
        text
    }
}

/// The text of the date with the given fields in `calendar`: the year in
/// four characters or more, the month and the day in two or more, and the
/// separator of the calendar between them.
pub open spec fn date_text(calendar: Calendar, year: int, month: int, day: int) -> Seq<char> {
    zero_padded(integer_text(year), 4) + seq![separator(calendar)] + zero_padded(
        integer_text(month),
        2,
    ) + seq![separator(calendar)] + zero_padded(integer_text(day), 2)
}

/// The one-character text of a digit.
fn digit_text(value: u32) -> (text: &'static str)
    requires
        value < 10,
    ensures
        text@ == seq![digit_char(value as int)],
{
    proof {
        reveal_strlit("0");
        reveal_strlit("1");
        reveal_strlit("2");
        reveal_strlit("3");
        reveal_strlit("4");
        reveal_strlit("5");
        reveal_strlit("6");
        reveal_strlit("7");
        reveal_strlit("8");
        reveal_strlit("9");
    }
    let text = match value {
        0 => "0",
        1 => "1",
        2 => "2",
        3 => "3",
        4 => "4",
        5 => "5",
        6 => "6",
        7 => "7",
        8 => "8",
        _ => "9",
    };
    assert(text@ =~= seq![digit_char(value as int)]);
    text
}

/// The one-character text of the separator of `calendar`.
fn separator_text(calendar: Calendar) -> (text: &'static str)
    ensures
        text@ == seq![separator(calendar)],
{
    proof {
        reveal_strlit("/");
        reveal_strlit("-");
    }
    let text = match calendar {
        Calendar::Jalali => "/",
        Calendar::Gregorian => "-",
    };
    assert(text@ =~= seq![separator(calendar)]);
    text
}

/// The number of characters in the decimal notation of `n`.
fn decimal_length(n: u32) -> (length: usize)
    ensures
        length == decimal_text(n as nat).len(),
        1 <= length <= 10,
    decreases n,
{
    if n < 10 {
        1
    } else {
        let shorter = decimal_length(n / 10);
        proof {
            lemma_decimal_length_bound(n as nat);
        }
        shorter + 1
    }
}

/// A number below 10 to the power of ten has ten digits at most.
proof fn lemma_decimal_length_bound(n: nat)
    requires
        n <= u32::MAX,
    ensures
        decimal_text(n).len() <= 10,
{
    reveal_with_fuel(decimal_text, 11);
}

/// Writes the decimal notation of `n` at the end of `out`.
fn push_decimal(out: &mut String, n: u32)
    ensures
        final(out)@ == old(out)@ + decimal_text(n as nat),
    decreases n,
{
    if n >= 10 {
        push_decimal(out, n / 10);
    }
    out.append(digit_text(n % 10));
    assert(final(out)@ =~= old(out)@ + decimal_text(n as nat));
}

/// Writes `count` zeros at the end of `out`.
fn push_zeros(out: &mut String, count: usize)
    ensures
        final(out)@ == old(out)@ + zeros(count as nat),
{
    let mut done: usize = 0;
    proof {
        reveal_strlit("0");
    }
    assert(out@ =~= old(out)@ + zeros(0));
    while done < count
        invariant
            done <= count,
            out@ == old(out)@ + zeros(done as nat),
            "0"@ == seq!['0'],
        decreases count - done,
    {
        out.append("0");
        done += 1;
        assert(out@ =~= old(out)@ + zeros(done as nat));
    }
}

/// Writes the decimal notation of `n` at the end of `out`, in `width`
/// characters or more.
fn push_padded(out: &mut String, n: i32, width: usize)
    ensures
        final(out)@ == old(out)@ + zero_padded(integer_text(n as int), width as nat),
{
    let negative = n < 0;
    let magnitude: u32 = if negative {
        (-(n as i64)) as u32
    } else {
        n as u32
    };
    let length = decimal_length(magnitude) + if negative { 1usize } else { 0usize };
    let ghost before = out@;
    if length < width {
        push_zeros(out, width - length);
    }
    if negative {
        proof {
            reveal_strlit("-");
        }
        out.append("-");
    }
    push_decimal(out, magnitude);
    assert(out@ =~= before + zero_padded(integer_text(n as int), width as nat));
}

/// The decimal notation of `n`.
pub fn format_integer(n: i32) -> (text: String)
    ensures
        text@ == integer_text(n as int),
{
    let mut text = String::new();
    push_padded(&mut text, n, 0);
    assert(text@ =~= integer_text(n as int));
    text
}

/// Writes the date with the given fields as a text of `calendar`.
pub fn format_date(calendar: Calendar, year: i32, month: u8, day: u8) -> (text: String)
    ensures
        text@ == date_text(calendar, year as int, month as int, day as int),
{
    let mut text = String::new();
    push_padded(&mut text, year, 4);
    text.append(separator_text(calendar));
    push_padded(&mut text, month as i32, 2);
    text.append(separator_text(calendar));
    push_padded(&mut text, day as i32, 2);
    assert(text@ =~= date_text(calendar, year as int, month as int, day as int));
    text
}

/// The decimal notation of a number is digits, at least one, and stands
/// for that number.
pub proof fn lemma_decimal_text_reads_back(n: nat)
    ensures
        decimal_text(n).len() > 0,
        all_digits(decimal_text(n)),
        decimal_value(decimal_text(n)) == n,
    decreases n,
{
    let text = decimal_text(n);
    if n < 10 {
        assert(text.drop_last() =~= Seq::<char>::empty());
        assert(decimal_value(text.drop_last()) == 0);
    } else {
        lemma_decimal_text_reads_back(n / 10);
        assert(text.drop_last() =~= decimal_text(n / 10));
        assert forall|i: int| 0 <= i < text.len() implies is_digit(#[trigger] text[i]) by {
            if i < text.len() - 1 {
                assert(text[i] == decimal_text(n / 10)[i]);
            }
        }
    }
}

/// Zeros in front of digits change nothing of the number they stand for.
pub proof fn lemma_zeros_in_front(count: nat, digits: Seq<char>)
    requires
        all_digits(digits),
    ensures
        all_digits(zeros(count) + digits),
        decimal_value(zeros(count) + digits) == decimal_value(digits),
    decreases digits.len(), count,
{
    let text = zeros(count) + digits;
    if digits.len() > 0 {
        lemma_zeros_in_front(count, digits.drop_last());
        assert(text.drop_last() =~= zeros(count) + digits.drop_last());
        assert(text.last() == digits.last());
    } else if count > 0 {
        lemma_zeros_in_front((count - 1) as nat, digits);
        assert(text.drop_last() =~= zeros((count - 1) as nat) + digits);
        assert(text.last() == '0');
    } else {
        assert(text =~= Seq::<char>::empty());
    }
    assert forall|i: int| 0 <= i < text.len() implies is_digit(#[trigger] text[i]) by {
        if i >= count {
            assert(text[i] == digits[i - count]);
        }
    }
}

/// A number that is not negative is read back from its notation in any
/// width, as a signed and as an unsigned field.
pub proof fn lemma_field_reads_back(n: int, width: nat, signed: bool, min: int, max: int)
    requires
        min <= 0 <= n <= max,
    ensures
        all_digits(zero_padded(integer_text(n), width)),
        integer_field(zero_padded(integer_text(n), width), signed, min, max) == Some(n),
{
    let digits = decimal_text(n as nat);
    let text = zero_padded(integer_text(n), width);
    lemma_decimal_text_reads_back(n as nat);
    if digits.len() < width {
        lemma_zeros_in_front((width - digits.len()) as nat, digits);
    }
    assert(is_digit(text[0]));
    assert(digits_of(text, signed) == text);
}

/// Digits hold no separator of a calendar.
pub proof fn lemma_digits_hold_no_separator(digits: Seq<char>, calendar: Calendar)
    requires
        all_digits(digits),
    ensures
        !digits.contains(separator(calendar)),
{
    if digits.contains(separator(calendar)) {
        let i = choose|i: int| 0 <= i < digits.len() && digits[i] == separator(calendar);
        assert(is_digit(digits[i]));
    }
}

/// Where a mark first stands in a text that is made of a part without the
/// mark, the mark, and more text.
pub proof fn lemma_first_mark(head: Seq<char>, mark: char, tail: Seq<char>)
    requires
        !head.contains(mark),
    ensures
        (head + seq![mark] + tail).index_of_first(mark) == Some(head.len() as int),
        (head + seq![mark] + tail).take(head.len() as int) == head,
        (head + seq![mark] + tail).skip(head.len() as int + 1) == tail,
{
    let text = head + seq![mark] + tail;
    text.index_of_first_ensures(mark);
    assert(text[head.len() as int] == mark);
    assert(text.contains(mark));
    let found = text.index_of_first(mark).unwrap();
    if found < head.len() {
        assert(head[found] == text[found]);
        assert(head.contains(mark));
    }
    assert(text.take(head.len() as int) =~= head);
    assert(text.skip(head.len() as int + 1) =~= tail);
}

/// A text made of three parts without the mark, with the mark between
/// them, divides into these parts.
pub proof fn lemma_three_parts_of_joined(
    first: Seq<char>,
    second: Seq<char>,
    third: Seq<char>,
    mark: char,
)
    requires
        !first.contains(mark),
        !second.contains(mark),
        !third.contains(mark),
    ensures
        three_parts(first + seq![mark] + second + seq![mark] + third, mark) == Some(
            (first, second, third),
        ),
{
    let text = first + seq![mark] + second + seq![mark] + third;
    let rest = second + seq![mark] + third;
    assert(text =~= first + seq![mark] + rest);
    lemma_first_mark(first, mark, rest);
    lemma_first_mark(second, mark, third);
}

/// What is written can be read: the text of a date with a year that is not
/// negative holds the fields of that date.
///
/// A negative year is not always read back. Its sign is a separator in a
/// Gregorian text, and in a Jalali text zeros stand before the sign of a
/// year from -99 to -1.
pub proof fn lemma_date_text_reads_back(calendar: Calendar, year: int, month: int, day: int)
    requires
        0 <= year <= i32::MAX,
        0 <= month <= u8::MAX,
        0 <= day <= u8::MAX,
    ensures
        date_fields(date_text(calendar, year, month, day), calendar) == Some((year, month, day)),
{
    let y = zero_padded(integer_text(year), 4);
    let m = zero_padded(integer_text(month), 2);
    let d = zero_padded(integer_text(day), 2);
    lemma_field_reads_back(year, 4, true, i32::MIN as int, i32::MAX as int);
    lemma_field_reads_back(month, 2, false, 0, u8::MAX as int);
    lemma_field_reads_back(day, 2, false, 0, u8::MAX as int);
    lemma_digits_hold_no_separator(y, calendar);
    lemma_digits_hold_no_separator(m, calendar);
    lemma_digits_hold_no_separator(d, calendar);
    lemma_three_parts_of_joined(y, m, d, separator(calendar));
}

} // verus!
