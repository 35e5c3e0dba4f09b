//! The text format of a dataset: one row per line, two fields per row.
//!
//! A line is a run of characters between line breaks; empty lines are passed
//! over. A row is a line with exactly one `;`, a city before it that is not
//! empty, and a number after it. The line is cut at the separator and nowhere
//! else: the city is taken character for character, with nothing trimmed,
//! quoted or escaped, and what counts as a number is the number parser's to say.

use crate::measurement::Measurement;
use crate::text::{chars_of, string_of};
use vstd::prelude::*;

verus! {

/// The character between the two fields of a row.
pub const SEPARATOR: char = ';';

/// Line feed: one of the two characters that end a line.
pub const LINE_FEED: char = '\n';

/// Carriage return: the other character that ends a line.
pub const CARRIAGE_RETURN: char = '\r';

/// Whether a character ends a line.
pub open spec fn is_break(c: char) -> bool {
    c == LINE_FEED || c == CARRIAGE_RETURN
}

/// The number of characters of `s` that stand before its first `a` or `b`:
/// the length of `s` where it holds neither.
pub open spec fn first_of(s: Seq<char>, a: char, b: char) -> nat
    decreases s.len(),
{
    if s.len() == 0 || s[0] == a || s[0] == b {
        0
    } else {
        1 + first_of(s.drop_first(), a, b)
    }
}

/// `first_of` stops at an `a` or a `b`, or at the end, and passes over neither before.
pub proof fn lemma_first_of(s: Seq<char>, a: char, b: char)
    ensures
        first_of(s, a, b) <= s.len(),
        first_of(s, a, b) < s.len() ==> s[first_of(s, a, b) as int] == a || s[first_of(s, a, b) as int] == b,
        forall|i: int| 0 <= i < first_of(s, a, b) ==> s[i] != a && s[i] != b,
    decreases s.len(),
{
    if s.len() == 0 || s[0] == a || s[0] == b {
    } else {
        let rest = s.drop_first();
        lemma_first_of(rest, a, b);
        assert forall|i: int| 0 <= i < first_of(s, a, b) implies s[i] != a && s[i] != b by {
            if i > 0 {
                assert(s[i] == rest[i - 1]);
            }
        }
    }
}

/// The only position that `first_of` can name.
pub proof fn lemma_first_of_is(s: Seq<char>, a: char, b: char, at: int)
    requires
        0 <= at <= s.len(),
        at < s.len() ==> s[at] == a || s[at] == b,
        forall|i: int| 0 <= i < at ==> s[i] != a && s[i] != b,
    ensures
        first_of(s, a, b) == at,
    decreases s.len(),
{
    if at > 0 {
        let rest = s.drop_first();
        assert forall|i: int| 0 <= i < at - 1 implies rest[i] != a && rest[i] != b by {
            assert(rest[i] == s[i + 1]);
        }
        lemma_first_of_is(rest, a, b, at - 1);
    }
}

/// The lines of a text, in order.
pub open spec fn lines(text: Seq<char>) -> Seq<Seq<char>>
    decreases text.len(),
{
    if text.len() == 0 {
        Seq::empty()
    } else if is_break(text[0]) {
        lines(text.skip(1))
    } else {
        let n = first_of(text, LINE_FEED, CARRIAGE_RETURN) as int;
        proof {
            lemma_first_of(text, LINE_FEED, CARRIAGE_RETURN);
        }
        seq![text.take(n)] + lines(text.skip(n))
    }
}

/// No line is empty, and none holds a line break.
pub proof fn lemma_lines_hold_no_break(text: Seq<char>)
    ensures
        forall|i: int|
            0 <= i < lines(text).len() ==> {
                &&& (#[trigger] lines(text)[i]).len() > 0
                &&& forall|j: int| 0 <= j < lines(text)[i].len() ==> !is_break(lines(text)[i][j])
            },
    decreases text.len(),
{
    if text.len() == 0 {
    } else if is_break(text[0]) {
        lemma_lines_hold_no_break(text.skip(1));
        assert(lines(text) == lines(text.skip(1)));
    } else {
        let n = first_of(text, LINE_FEED, CARRIAGE_RETURN) as int;
        lemma_first_of(text, LINE_FEED, CARRIAGE_RETURN);
        lemma_lines_hold_no_break(text.skip(n));
        let rest = lines(text.skip(n));
        assert forall|i: int| 0 <= i < lines(text).len() implies {
            &&& (#[trigger] lines(text)[i]).len() > 0
            &&& forall|j: int| 0 <= j < lines(text)[i].len() ==> !is_break(lines(text)[i][j])
        } by {
            if i > 0 {
                assert(lines(text)[i] == rest[i - 1]);
            }
        }
    }
}

/// A text without a line break that is not empty is one line.
pub proof fn lemma_lines_of_one_line(line: Seq<char>)
    requires
        line.len() > 0,
        forall|j: int| 0 <= j < line.len() ==> !is_break(line[j]),
    ensures
        lines(line) == seq![line],
{
    lemma_first_of_is(line, LINE_FEED, CARRIAGE_RETURN, line.len() as int);
    let n = line.len() as int;
    assert(line.take(n) =~= line);
    assert(lines(line.skip(n)) =~= Seq::<Seq<char>>::empty());
    assert(lines(line) =~= seq![line]);
}

/// The lines of two texts joined by a line break are the lines of the first
/// and then those of the second.
pub proof fn lemma_lines_of_joined(before: Seq<char>, c: char, after: Seq<char>)
    requires
        is_break(c),
    ensures
        lines(before + seq![c] + after) == lines(before) + lines(after),
    decreases before.len(),
{
    let text = before + seq![c] + after;
    if before.len() == 0 {
        assert(text.skip(1) =~= after);
        assert(lines(before) + lines(after) =~= lines(after));
    } else if is_break(before[0]) {
        assert(text.skip(1) =~= before.skip(1) + seq![c] + after);
        lemma_lines_of_joined(before.skip(1), c, after);
    } else {
        let n = first_of(before, LINE_FEED, CARRIAGE_RETURN) as int;
        lemma_first_of(before, LINE_FEED, CARRIAGE_RETURN);
        lemma_first_of_is(text, LINE_FEED, CARRIAGE_RETURN, n);
        assert(text.take(n) =~= before.take(n));
        assert(text.skip(n) =~= before.skip(n) + seq![c] + after);
        lemma_lines_of_joined(before.skip(n), c, after);
        assert(lines(text) =~= lines(before) + lines(after));
    }
}

/// What stands before the first separator of a line.
pub open spec fn city_field(line: Seq<char>) -> Seq<char> {
    line.take(first_of(line, SEPARATOR, SEPARATOR) as int)
}

/// What stands after the first separator of a line.
pub open spec fn number_field(line: Seq<char>) -> Seq<char> {
    line.skip(first_of(line, SEPARATOR, SEPARATOR) as int + 1)
}

/// A line has two fields when it holds one separator and no more.
pub open spec fn has_two_fields(line: Seq<char>) -> bool {
    &&& first_of(line, SEPARATOR, SEPARATOR) < line.len()
    &&& !number_field(line).contains(SEPARATOR)
}

/// A line with two fields is its city field, the separator and its number
/// field, and neither field holds a separator.
pub proof fn lemma_two_fields_shape(line: Seq<char>)
    requires
        has_two_fields(line),
    ensures
        line == city_field(line) + seq![SEPARATOR] + number_field(line),
        !city_field(line).contains(SEPARATOR),
        !number_field(line).contains(SEPARATOR),
{
    lemma_first_of(line, SEPARATOR, SEPARATOR);
    assert(line =~= city_field(line) + seq![SEPARATOR] + number_field(line));
}

/// Two texts without a separator, joined by one, make a line with these two fields.
pub proof fn lemma_fields_of_joined(city: Seq<char>, number: Seq<char>)
    requires
        !city.contains(SEPARATOR),
        !number.contains(SEPARATOR),
    ensures
        has_two_fields(city + seq![SEPARATOR] + number),
        city_field(city + seq![SEPARATOR] + number) == city,
        number_field(city + seq![SEPARATOR] + number) == number,
{
    let line = city + seq![SEPARATOR] + number;
    assert forall|i: int| 0 <= i < city.len() implies line[i] != SEPARATOR by {
        assert(city.contains(line[i]));
    }
    lemma_first_of_is(line, SEPARATOR, SEPARATOR, city.len() as int);
    assert(city_field(line) =~= city);
    assert(number_field(line) =~= number);
}

/// One row of a table: a city and what was measured there.
pub struct Row {
    pub city: Seq<char>,
    pub measurement: Measurement,
}

/// The row that a line stands for, or `None` where the line breaks the schema.
pub open spec fn row_of(line: Seq<char>) -> Option<Row> {
    if has_two_fields(line) && city_field(line).len() > 0 {
        match Measurement::parsed(number_field(line)) {
            Some(measurement) => Some(Row { city: city_field(line), measurement }),
            None => None,
        }
    } else {
        None
    }
}

/// Finds the first `a` or `b` among the characters from `from` up to `to`.
pub fn find_first_of(chars: &Vec<char>, from: usize, to: usize, a: char, b: char) -> (at: usize)
    requires
        from <= to <= chars.len(),
    ensures
        from <= at <= to,
        at == from + first_of(chars@.subrange(from as int, to as int), a, b),
{
    let mut at: usize = from;
    while at < to && chars[at] != a && chars[at] != b
        invariant
            from <= at <= to <= chars.len(),
            forall|i: int| from <= i < at ==> chars@[i] != a && chars@[i] != b,
        decreases to - at,
    {
        at += 1;
    }
    proof {
        lemma_first_of_is(chars@.subrange(from as int, to as int), a, b, at - from);
    }
    at
}

/// One row as it is stored: the city's name and the measurement.
pub struct Entry {
    pub city: String,
    pub measurement: Measurement,
}

impl View for Entry {
    type V = Row;

    open spec fn view(&self) -> Row {
        Row { city: self.city@, measurement: self.measurement }
    }
}

/// What reading one line gave, as a row or none.
pub open spec fn outcome(read: Option<Entry>) -> Option<Row> {
    match read {
        Some(entry) => Some(entry@),
        None => None,
    }
}

/// Splits the line made of the characters from `from` up to `to` into its two
/// fields; `None` where the line does not have exactly two.
pub fn split_row(chars: &Vec<char>, from: usize, to: usize) -> (r: Option<(String, String)>)
    requires
        from <= to <= chars.len(),
    ensures
        r is Some <==> has_two_fields(chars@.subrange(from as int, to as int)),
        r matches Some(fields) ==> {
            &&& fields.0@ == city_field(chars@.subrange(from as int, to as int))
            &&& fields.1@ == number_field(chars@.subrange(from as int, to as int))
        },
{
    let ghost line = chars@.subrange(from as int, to as int);
    let at = find_first_of(chars, from, to, SEPARATOR, SEPARATOR);
    if at == to {
        return None;
    }
    let next = find_first_of(chars, at + 1, to, SEPARATOR, SEPARATOR);
    proof {
        let number = chars@.subrange(at + 1, to as int);
        assert(number_field(line) =~= number);
        lemma_first_of(number, SEPARATOR, SEPARATOR);
        if next == to {
            assert(!number.contains(SEPARATOR));
        } else {
            assert(number[next - at - 1] == SEPARATOR);
        }
    }
    if next != to {
        return None;
    }
    let city = string_of(chars, from, at);
    let number = string_of(chars, at + 1, to);
    proof {
        assert(city_field(line) =~= chars@.subrange(from as int, at as int));
    }
    Some((city, number))
}

/// Reads the line made of the characters from `from` up to `to` as a row.
pub fn read_row(chars: &Vec<char>, from: usize, to: usize) -> (r: Option<Entry>)
    requires
        from <= to <= chars.len(),
    ensures
        outcome(r) == row_of(chars@.subrange(from as int, to as int)),
{
    match split_row(chars, from, to) {
        None => None,
        Some((city, number)) => {
            if city.as_str().is_empty() {
                return None;
            }
            match Measurement::parse(number.as_str()) {
                Some(measurement) => Some(Entry { city, measurement }),
                None => None,
            }
        },
    }
}

/// Reads one line of text as a row.
pub fn parse_row(line: &str) -> (r: Option<Entry>)
    ensures
        outcome(r) == row_of(line@),
{
    let chars = chars_of(line);
    assert(chars@.subrange(0, chars@.len() as int) =~= line@);
    read_row(&chars, 0, chars.len())
}

/// Reads every line of a text as a row, in order.
pub fn read_rows(text: &str) -> (r: Vec<Option<Entry>>)
    ensures
        r@.len() == lines(text@).len(),
        forall|i: int| 0 <= i < r@.len() ==> outcome(#[trigger] r@[i]) == row_of(lines(text@)[i]),
{
    let chars = chars_of(text);
    let mut out: Vec<Option<Entry>> = Vec::new();
    let ghost mut done: Seq<Seq<char>> = Seq::empty();
    let mut pos: usize = 0;
    assert(text@.skip(0) =~= text@);
    while pos < chars.len()
        invariant
            chars@ == text@,
            pos <= chars.len(),
            lines(text@) =~= done + lines(text@.skip(pos as int)),
            out@.len() == done.len(),
            forall|i: int| 0 <= i < out@.len() ==> outcome(#[trigger] out@[i]) == row_of(done[i]),
        decreases chars.len() - pos,
    {
        let ghost rest = text@.skip(pos as int);
        let c = chars[pos];
        if c == LINE_FEED || c == CARRIAGE_RETURN {
            proof {
                assert(rest.skip(1) =~= text@.skip(pos + 1));
            }
            pos += 1;
        } else {
            let end = find_first_of(&chars, pos, chars.len(), LINE_FEED, CARRIAGE_RETURN);
            let row = read_row(&chars, pos, end);
            proof {
                let n = end - pos;
                assert(chars@.subrange(pos as int, chars@.len() as int) =~= rest);
                assert(rest.take(n) =~= chars@.subrange(pos as int, end as int));
                assert(rest.skip(n) =~= text@.skip(end as int));
                done = done.push(rest.take(n));
            }
            out.push(row);
            pos = end;
        }
    }
    out
}

} // verus!
