//! Text: how numbers are written into names, messages and arguments and read
//! back, how text is searched and compared, and its lines.

use vstd::prelude::*;
use vstd::string::*;

use crate::strmap;

verus! {

// ---------------------------------------------------------------------------
// Numbers as text
// ---------------------------------------------------------------------------

/// The character of a decimal digit.
pub open spec fn digit_char(d: nat) -> char
    recommends
        d < 10,
{
    (48 + d) as char
}

/// The decimal text of a number, without leading zeros.
pub open spec fn decimal(n: nat) -> Seq<char>
    decreases n,
{
    if n < 10 {
        seq![digit_char(n)]
    } else {
        decimal(n / 10).push(digit_char(n % 10))
    }
}

/// The text of one digit.
fn digit_text(d: u64) -> (text: &'static str)
    requires
        d < 10,
    ensures
        text@ == seq![digit_char(d as nat)],
{
    proof {
        reveal_strlit("0");
        reveal_strlit("1");
        reveal_strlit("2");
        reveal_strlit("3");
        reveal_strlit("4");
        reveal_strlit("5");
        reveal_strlit("6");
        reveal_strlit("7");
        reveal_strlit("8");
        reveal_strlit("9");
    }
    match d {
        0 => "0",
        1 => "1",
        2 => "2",
        3 => "3",
        4 => "4",
        5 => "5",
        6 => "6",
        7 => "7",
        8 => "8",
        _ => "9",
    }
}

/// Appends the decimal text of a number.
pub fn append_decimal(text: &mut String, n: u64)
    ensures
        final(text)@ == old(text)@ + decimal(n as nat),
    decreases n,
{
    if n >= 10 {
        append_decimal(text, n / 10);
    }
    text.append(digit_text(n % 10));
}

/// The decimal text of a number, on its own.
pub fn decimal_text(n: u64) -> (text: String)
    ensures
        text@ == decimal(n as nat),
{
    let mut text = String::new();
    append_decimal(&mut text, n);
    text
}

// ---------------------------------------------------------------------------
// Lists of numbers as text
// ---------------------------------------------------------------------------

/// Numbers in decimal, separated by a comma and a space.
pub open spec fn comma_separated(items: Seq<u64>) -> Seq<char>
    decreases items.len(),
{
    if items.len() == 0 {
        Seq::empty()
    } else if items.len() == 1 {
        decimal(items[0] as nat)
    } else {
        comma_separated(items.drop_last()) + ", "@ + decimal(items.last() as nat)
    }
}

/// A list of numbers in square brackets.
pub open spec fn bracketed(items: Seq<u64>) -> Seq<char> {
    "["@ + comma_separated(items) + "]"@
}

/// Appends a list of numbers in square brackets.
pub fn append_bracketed(text: &mut String, items: &Vec<u64>)
    ensures
        final(text)@ == old(text)@ + bracketed(items@),
{
    let ghost before = text@;
    text.append("[");
    let mut i: usize = 0;
    while i < items.len()
        invariant
            i <= items.len(),
            text@ =~= before + "["@ + comma_separated(items@.take(i as int)),
        decreases items.len() - i,
    {
        let ghost done = items@.take(i as int);
        let ghost next = items@.take(i + 1);
        assert(next.drop_last() =~= done);
        assert(next.last() == items@[i as int]);
        if i > 0 {
            text.append(", ");
        }
        append_decimal(text, items[i]);
        i = i + 1;
    }
    assert(items@.take(i as int) =~= items@);
    text.append("]");
}

// ---------------------------------------------------------------------------
// Text as numbers
// ---------------------------------------------------------------------------

/// Whether a character is a decimal digit.
pub open spec fn is_digit(c: char) -> bool {
    '0' <= c <= '9'
}

/// Whether every character is a decimal digit.
pub open spec fn all_digits(s: Seq<char>) -> bool {
    forall|i: int| 0 <= i < s.len() ==> is_digit(#[trigger] s[i])
}

/// The number that a string of decimal digits denotes.
pub open spec fn digits_value(s: Seq<char>) -> nat
    decreases s.len(),
{
    if s.len() == 0 {
        0
    } else {
        digits_value(s.drop_last()) * 10 + (s.last() as nat - 48) as nat
    }
}

/// A string of digits without the plus sign that may stand before it.
pub open spec fn unsigned_part(s: Seq<char>) -> Seq<char> {
    if s.len() > 0 && s[0] == '+' {
        s.skip(1)
    } else {
        s
    }
}

/// The `u64` that a text denotes: decimal digits, at least one, after an
/// optional plus sign, and not above `u64::MAX`.
pub open spec fn parsed_u64(s: Seq<char>) -> Option<u64> {
    let digits = unsigned_part(s);
    if digits.len() > 0 && all_digits(digits) && digits_value(digits) <= u64::MAX {
        Some(digits_value(digits) as u64)
    } else {
        None
    }
}

/// A longer string of digits denotes no smaller number than its beginning.
proof fn lemma_digits_value_grows(s: Seq<char>, i: int)
    requires
        0 <= i <= s.len(),
        all_digits(s),
    ensures
        digits_value(s.take(i)) <= digits_value(s),
    decreases s.len() - i,
{
    if i == s.len() {
        assert(s.take(i) =~= s);
    } else {
        lemma_digits_value_grows(s, i + 1);
        assert(s.take(i + 1).drop_last() =~= s.take(i));
    }
}

/// Reads a `u64` from its decimal text.
pub fn parse_u64(text: &str) -> (value: Option<u64>)
    ensures
        value == parsed_u64(text@),
{
    let len: usize = text.unicode_len();
    let mut start: usize = 0;
    if len > 0 && text.get_char(0) == '+' {
        start = 1;
    }
    let ghost digits = unsigned_part(text@);
    assert(digits =~= text@.skip(start as int));
    if start == len {
        return None;
    }
    let mut value: u64 = 0;
    let mut i: usize = start;
    while i < len
        invariant
            start <= i <= len,
            len == text@.len(),
            digits == text@.skip(start as int),
            digits == unsigned_part(text@),
            digits.len() == len - start,
            all_digits(digits.take(i - start)),
            value == digits_value(digits.take(i - start)),
        decreases len - i,
    {
        let c: char = text.get_char(i);
        assert(c == digits[i - start]);
        if c < '0' || c > '9' {
            assert(!is_digit(digits[i - start]));
            return None;
        }
        let digit: u64 = c as u64 - 48;
        let ghost next = digits.take(i - start + 1);
        proof {
            assert(next.drop_last() =~= digits.take(i - start));
            assert(next.last() == c);
            assert(digits_value(next) == value * 10 + digit);
            assert forall|j: int| 0 <= j < next.len() implies is_digit(#[trigger] next[j]) by {
                if j < i - start {
                    assert(next[j] == digits.take(i - start)[j]);
                }
            }
            if all_digits(digits) {
                lemma_digits_value_grows(digits, i - start + 1);
            }
        }
        if value > (u64::MAX - digit) / 10 {
            return None;
        }
        value = value * 10 + digit;
        i = i + 1;
    }
    assert(digits.take(i - start) =~= digits);
    Some(value)
}

// ---------------------------------------------------------------------------
// Substrings
// ---------------------------------------------------------------------------

/// Whether `needle` stands in `text` from position `at` on.
pub open spec fn occurs_at(text: Seq<char>, needle: Seq<char>, at: int) -> bool {
    0 <= at && at + needle.len() <= text.len() && text.subrange(at, at + needle.len()) == needle
}

/// Whether `needle` stands somewhere in `text`.
pub open spec fn occurs(text: Seq<char>, needle: Seq<char>) -> bool {
    exists|at: int| occurs_at(text, needle, at)
}

/// Whether a text holds another.
pub fn contains_text(text: &str, needle: &str) -> (found: bool)
    ensures
        found == occurs(text@, needle@),
{
    let text_len: usize = text.unicode_len();
    let needle_len: usize = needle.unicode_len();
    if needle_len > text_len {
        return false;
    }
    let last: usize = text_len - needle_len;
    let mut at: usize = 0;
    loop
        invariant
            text_len == text@.len(),
            needle_len == needle@.len(),
            last == text_len - needle_len,
            at <= last,
            forall|j: int| 0 <= j < at ==> !occurs_at(text@, needle@, j),
        decreases last - at,
    {
        let mut same: usize = 0;
        while same < needle_len && text.get_char(at + same) == needle.get_char(same)
            invariant
                text_len == text@.len(),
                needle_len == needle@.len(),
                last == text_len - needle_len,
                at <= last,
                same <= needle_len,
                forall|j: int| 0 <= j < same ==> text@[at + j] == needle@[j],
            decreases needle_len - same,
        {
            same = same + 1;
        }
        if same == needle_len {
            assert(text@.subrange(at as int, at + needle@.len()) =~= needle@);
            assert(occurs_at(text@, needle@, at as int));
            return true;
        }
        assert(!occurs_at(text@, needle@, at as int)) by {
            if occurs_at(text@, needle@, at as int) {
                assert(text@.subrange(at as int, at + needle@.len())[same as int] == needle@[same as int]);
            }
        }
        if at == last {
            return false;
        }
        at = at + 1;
    }
}

/// Whether a string holds exactly this text.
pub fn same_text(string: &String, text: &str) -> (same: bool)
    ensures
        same == (string@ == text@),
{
    *string == String::from_str(text)
}

// ---------------------------------------------------------------------------
// Lines
// ---------------------------------------------------------------------------

/// How many characters stand before the first line feed.
pub open spec fn line_len(s: Seq<char>) -> nat
    decreases s.len(),
{
    if s.len() == 0 || s[0] == '\n' {
        0
    } else {
        1 + line_len(s.skip(1))
    }
}

/// The first line of a text, without its line ending: a line feed, with a
/// carriage return before it or not.
pub open spec fn first_line(s: Seq<char>) -> Seq<char> {
    let n = line_len(s) as int;
    if n < s.len() && n > 0 && s[n - 1] == '\r' {
        s.take(n - 1)
    } else {
        s.take(n)
    }
}

/// The first lines of a text, at most `count` of them. Nothing behind the last
/// line feed is no line.
pub open spec fn lines_of(s: Seq<char>, count: nat) -> Seq<Seq<char>>
    decreases count,
{
    if s.len() == 0 || count == 0 {
        Seq::empty()
    } else {
        let n = line_len(s) as int;
        let rest = if n < s.len() {
            s.skip(n + 1)
        } else {
            Seq::empty()
        };
        seq![first_line(s)] + lines_of(rest, (count - 1) as nat)
    }
}

/// The length of the first line, when it is not shorter than `n`.
proof fn lemma_line_len(s: Seq<char>, n: int)
    requires
        0 <= n <= s.len(),
        forall|i: int| 0 <= i < n ==> #[trigger] s[i] != '\n',
        n == s.len() || s[n] == '\n',
    ensures
        line_len(s) == n,
    decreases n,
{
    if n > 0 {
        let rest = s.skip(1);
        assert(s[0] != '\n');
        assert forall|i: int| 0 <= i < n - 1 implies #[trigger] rest[i] != '\n' by {
            assert(rest[i] == s[i + 1]);
        }
        lemma_line_len(rest, n - 1);
    }
}

/// The first lines of a text, at most `count` of them.
pub fn first_lines(text: &str, count: usize) -> (lines: Vec<String>)
    ensures
        strmap::text_views(lines@) == lines_of(text@, count as nat),
{
    let len: usize = text.unicode_len();
    let mut lines: Vec<String> = Vec::new();
    let mut start: usize = 0;
    let mut left: usize = count;
    assert(text@.skip(0) =~= text@);
    assert(strmap::text_views(lines@) + lines_of(text@, count as nat) =~= lines_of(text@, count as nat));
    while start < len && left > 0
        invariant
            start <= len,
            len == text@.len(),
            strmap::text_views(lines@) + lines_of(text@.skip(start as int), left as nat) == lines_of(
                text@,
                count as nat,
            ),
        decreases left,
    {
        let ghost here = text@.skip(start as int);
        let mut end: usize = start;
        while end < len && text.get_char(end) != '\n'
            invariant
                start <= end <= len,
                len == text@.len(),
                forall|i: int| start <= i < end ==> #[trigger] text@[i] != '\n',
            decreases len - end,
        {
            end = end + 1;
        }
        proof {
            assert forall|i: int| 0 <= i < end - start implies #[trigger] here[i] != '\n' by {
                assert(here[i] == text@[start + i]);
            }
            lemma_line_len(here, end - start);
        }
        let mut stop: usize = end;
        if end < len && end > start && text.get_char(end - 1) == '\r' {
            stop = end - 1;
        }
        let line = String::from_str(text.substring_char(start, stop));
        let ghost before = lines@;
        let ghost line_text = line@;
        lines.push(line);
        let next: usize = if end < len {
            end + 1
        } else {
            len
        };
        proof {
            assert(line_text =~= first_line(here));
            let rest = if end - start < here.len() {
                here.skip(end - start + 1)
            } else {
                Seq::empty()
            };
            assert(rest =~= text@.skip(next as int));
            assert(strmap::text_views(lines@) =~= strmap::text_views(before).push(line_text));
            assert(strmap::text_views(lines@) + lines_of(rest, (left - 1) as nat) =~= strmap::text_views(before)
                + lines_of(here, left as nat));
        }
        start = next;
        left = left - 1;
    }
    assert(lines_of(text@.skip(start as int), left as nat) =~= Seq::empty());
    assert(strmap::text_views(lines@) =~= lines_of(text@, count as nat));
    lines
}

// ---------------------------------------------------------------------------
// Laws
// ---------------------------------------------------------------------------

/// The decimal text of a number has only digits, at least one of them, and
/// denotes the number.
pub proof fn decimal_denotes_number(n: nat)
    ensures
        decimal(n).len() > 0,
        all_digits(decimal(n)),
        digits_value(decimal(n)) == n,
    decreases n,
{
    if n < 10 {
        assert(decimal(n).drop_last() =~= Seq::<char>::empty());
        assert(digits_value(Seq::<char>::empty()) == 0);
    } else {
        decimal_denotes_number(n / 10);
        assert(decimal(n).drop_last() =~= decimal(n / 10));
        assert forall|i: int| 0 <= i < decimal(n).len() implies is_digit(#[trigger] decimal(n)[i]) by {
            if i < decimal(n / 10).len() {
                assert(decimal(n)[i] == decimal(n / 10)[i]);
            }
        }
    }
}

/// A number is read back from its decimal text.
pub proof fn decimal_reads_back(n: u64)
    ensures
        parsed_u64(decimal(n as nat)) == Some(n),
{
    decimal_denotes_number(n as nat);
    assert(is_digit(decimal(n as nat)[0]));
}

/// Different numbers have different decimal texts.
pub proof fn decimal_is_injective(a: nat, b: nat)
    requires
        decimal(a) == decimal(b),
    ensures
        a == b,
{
    decimal_denotes_number(a);
    decimal_denotes_number(b);
}

/// Decimal text is written from the highest digit down: one digit stands for a number below
/// ten, one more digit multiplies by ten, and no number but zero starts with a zero.
pub proof fn decimal_is_written_digit_by_digit(n: nat, d: nat)
    requires
        d < 10,
    ensures
        decimal(d).len() == 1,
        decimal(d)[0] as int == '0' as int + d,
        n > 0 ==> decimal(n * 10 + d) == decimal(n) + decimal(d),
        n > 0 ==> decimal(n)[0] != '0',
    decreases n,
{
    if n > 0 {
        assert((n * 10 + d) / 10 == n && (n * 10 + d) % 10 == d);
        assert(decimal(n * 10 + d) =~= decimal(n) + decimal(d));
        if n >= 10 {
            decimal_is_written_digit_by_digit(n / 10, n % 10);
            decimal_denotes_number(n / 10);
        }
    }
}

/// What a text denotes once one more character was written: nothing is denoted by no text
/// and by a plus sign alone, a digit behind them denotes itself, a digit behind a number
/// multiplies by ten as long as the number fits, and nothing else denotes a number.
pub proof fn numbers_are_read_digit_by_digit(s: Seq<char>, c: char)
    ensures
        parsed_u64(Seq::empty()) is None,
        parsed_u64(seq!['+']) is None,
        s.len() == 0 || s == seq!['+'] ==> parsed_u64(s.push(c)) == if '0' <= c <= '9' {
            Some((c as int - '0' as int) as u64)
        } else {
            None
        },
        s.len() > 0 && s != seq!['+'] ==> parsed_u64(s.push(c)) == match parsed_u64(s) {
            Some(n) => if '0' <= c <= '9' && n * 10 + (c as int - '0' as int) <= u64::MAX {
                Some((n * 10 + (c as int - '0' as int)) as u64)
            } else {
                None
            },
            None => None,
        },
{
    assert(unsigned_part(seq!['+']).len() == 0);
    let before = unsigned_part(s);
    let after = unsigned_part(s.push(c));
    if s.len() == 0 {
        assert(s.push(c) =~= seq![c]);
        if c != '+' {
            assert(after =~= seq![c]);
            assert(after.drop_last() =~= Seq::<char>::empty());
            assert(digits_value(after.drop_last()) == 0);
            assert(all_digits(after) <==> is_digit(c)) by {
                assert(after[0] == c);
            }
        }
    } else if s == seq!['+'] {
        assert(after =~= seq![c]);
        assert(after.drop_last() =~= Seq::<char>::empty());
        assert(digits_value(after.drop_last()) == 0);
        assert(all_digits(after) <==> is_digit(c)) by {
            assert(after[0] == c);
        }
    } else {
        assert(before.len() > 0) by {
            if s[0] == '+' && s.len() == 1 {
                assert(s =~= seq!['+']);
            }
        }
        assert(after =~= before.push(c));
        assert(after.drop_last() =~= before);
        assert(all_digits(after) <==> all_digits(before) && is_digit(c)) by {
            if all_digits(before) && is_digit(c) {
                assert forall|i: int| 0 <= i < after.len() implies is_digit(#[trigger] after[i]) by {
                    if i < before.len() {
                        assert(after[i] == before[i]);
                    }
                }
            }
            if all_digits(after) {
                assert(is_digit(after[before.len() as int]));
                assert forall|i: int| 0 <= i < before.len() implies is_digit(#[trigger] before[i]) by {
                    assert(after[i] == before[i]);
                }
            }
        }
    }
}

/// A list of numbers stands in square brackets, with a comma and a space before each number
/// but the first.
pub proof fn lists_are_written_item_by_item(items: Seq<u64>, item: u64)
    ensures
        bracketed(Seq::empty()) == "["@ + "]"@,
        bracketed(seq![item]) == "["@ + decimal(item as nat) + "]"@,
        items.len() > 0 ==> bracketed(items.push(item)) == bracketed(items).take(
            bracketed(items).len() - 1,
        ) + ", "@ + decimal(item as nat) + "]"@,
{
    reveal_strlit("]");
    assert(bracketed(Seq::empty()) =~= "["@ + "]"@);
    assert(seq![item][0] == item);
    if items.len() > 0 {
        assert(items.push(item).drop_last() =~= items);
        assert(bracketed(items).take(bracketed(items).len() - 1) =~= "["@ + comma_separated(items));
        assert(bracketed(items.push(item)) =~= bracketed(items).take(
            bracketed(items).len() - 1,
        ) + ", "@ + decimal(item as nat) + "]"@);
    }
}

/// A text occurs in another exactly if the other is made of it and what stands before and
/// behind it.
pub proof fn occurring_text_stands_somewhere(text: Seq<char>, needle: Seq<char>)
    ensures
        occurs(text, needle) <==> exists|before: Seq<char>, behind: Seq<char>|
            text == #[trigger] (before + needle + behind),
{
    if occurs(text, needle) {
        let at = choose|at: int| occurs_at(text, needle, at);
        let before = text.take(at);
        let behind = text.skip(at + needle.len());
        assert(text =~= before + needle + behind) by {
            assert forall|i: int| 0 <= i < needle.len() implies text[at + i] == needle[i] by {
                assert(text.subrange(at, at + needle.len())[i] == needle[i]);
            }
        }
    }
    if exists|before: Seq<char>, behind: Seq<char>| text == #[trigger] (before + needle + behind) {
        let (before, behind) = choose|before: Seq<char>, behind: Seq<char>|
            text == #[trigger] (before + needle + behind);
        assert(text.subrange(before.len() as int, (before.len() + needle.len()) as int) =~= needle);
        assert(occurs_at(text, needle, before.len() as int));
    }
}

/// The lines of a text are what stands between its line feeds, without a carriage return
/// before a line feed. What stands behind the last line feed is a line only if it is not
/// empty. No more lines are taken than are asked for.
pub proof fn lines_end_at_line_feeds(line: Seq<char>, rest: Seq<char>, count: nat)
    requires
        forall|i: int| 0 <= i < line.len() ==> #[trigger] line[i] != '\n',
    ensures
        lines_of(line + seq!['\n'] + rest, 0) == Seq::<Seq<char>>::empty(),
        lines_of(Seq::empty(), count) == Seq::<Seq<char>>::empty(),
        lines_of(line + seq!['\n'] + rest, count + 1) == seq![
            if line.len() > 0 && line.last() == '\r' {
                line.drop_last()
            } else {
                line
            },
        ] + lines_of(rest, count),
        line.len() > 0 ==> lines_of(line, count + 1) == seq![line],
{
    let s = line + seq!['\n'] + rest;
    let n = line.len() as int;
    assert forall|i: int| 0 <= i < n implies #[trigger] s[i] != '\n' by {
        assert(s[i] == line[i]);
    }
    assert(s[n] == '\n');
    lemma_line_len(s, n);
    assert(s.skip(n + 1) =~= rest);
    assert(s.take(n) =~= line);
    if n > 0 {
        assert(s[n - 1] == line.last());
        assert(s.take(n - 1) =~= line.drop_last());
        lemma_line_len(line, n);
        assert(line.take(n) =~= line);
        assert(lines_of(Seq::<char>::empty(), count).len() == 0);
        assert(first_line(line) == line);
        assert(lines_of(line, count + 1) == seq![first_line(line)] + lines_of(Seq::<char>::empty(), count));
        assert(lines_of(line, count + 1) =~= seq![line]);
    }
}

} // verus!
