//! The table: two columns of equal length, built once and then only read.

use crate::measurement::Measurement;
use crate::rows::{lines, outcome, read_rows, row_of, Entry, Row};
use vstd::prelude::*;

verus! {

/// Why no table could be built.
#[derive(Clone, Copy, Debug, PartialEq, Eq, Structural)]
pub enum LoadError {
    /// There was no text to read: the source is missing or cannot be read.
    SourceUnavailable,
    /// A line breaks the schema; `row` counts the lines before the first such one.
    SchemaViolation { row: usize },
}

/// The number of outcomes that stand before the first `None`.
pub open spec fn rows_before_violation(outcomes: Seq<Option<Row>>) -> nat
    decreases outcomes.len(),
{
    if outcomes.len() == 0 || outcomes[0] is None {
        0
    } else {
        1 + rows_before_violation(outcomes.drop_first())
    }
}

/// All rows or none: the rows where every line gave one, else the place of
/// the first line that gave none.
pub open spec fn assembled(outcomes: Seq<Option<Row>>) -> Result<Seq<Row>, LoadError> {
    let n = rows_before_violation(outcomes);
    if n == outcomes.len() {
        Ok(outcomes.map_values(|o: Option<Row>| o.unwrap()))
    } else {
        Err(LoadError::SchemaViolation { row: n as usize })
    }
}

/// What each line of a text gives when read as a row.
pub open spec fn line_outcomes(text: Seq<char>) -> Seq<Option<Row>> {
    lines(text).map_values(|line: Seq<char>| row_of(line))
}

/// What loading a text gives.
pub open spec fn loaded(text: Seq<char>) -> Result<Seq<Row>, LoadError> {
    assembled(line_outcomes(text))
}

/// `rows_before_violation` stops at a `None`, or at the end, and passes over none before.
pub proof fn lemma_rows_before_violation(outcomes: Seq<Option<Row>>)
    ensures
        rows_before_violation(outcomes) <= outcomes.len(),
        rows_before_violation(outcomes) < outcomes.len() ==> outcomes[rows_before_violation(
            outcomes,
        ) as int] is None,
        forall|i: int| 0 <= i < rows_before_violation(outcomes) ==> outcomes[i] is Some,
    decreases outcomes.len(),
{
    if outcomes.len() == 0 || outcomes[0] is None {
    } else {
        let rest = outcomes.drop_first();
        lemma_rows_before_violation(rest);
        assert forall|i: int| 0 <= i < rows_before_violation(outcomes) implies outcomes[i] is Some by {
            if i > 0 {
                assert(outcomes[i] == rest[i - 1]);
            }
        }
    }
}

/// The only number that `rows_before_violation` can give.
pub proof fn lemma_rows_before_violation_is(outcomes: Seq<Option<Row>>, at: int)
    requires
        0 <= at <= outcomes.len(),
        at < outcomes.len() ==> outcomes[at] is None,
        forall|i: int| 0 <= i < at ==> outcomes[i] is Some,
    ensures
        rows_before_violation(outcomes) == at,
    decreases outcomes.len(),
{
    if at > 0 {
        let rest = outcomes.drop_first();
        assert(outcomes[0] is Some);
        assert forall|i: int| 0 <= i < at - 1 implies rest[i] is Some by {
            assert(rest[i] == outcomes[i + 1]);
        }
        lemma_rows_before_violation_is(rest, at - 1);
    }
}

/// Loading is all or nothing: one line that is no row, and the text gives no table.
pub proof fn lemma_one_bad_line_fails(text: Seq<char>, i: int)
    requires
        0 <= i < lines(text).len(),
        row_of(lines(text)[i]) is None,
    ensures
        loaded(text) is Err,
{
    lemma_rows_before_violation(line_outcomes(text));
    if rows_before_violation(line_outcomes(text)) == line_outcomes(text).len() {
        assert(line_outcomes(text)[i] is Some);
    }
}

/// Where every line is a row, the text gives these rows, in the order of the lines.
pub proof fn lemma_all_rows_load(text: Seq<char>)
    requires
        forall|i: int| 0 <= i < lines(text).len() ==> row_of(#[trigger] lines(text)[i]) is Some,
    ensures
        loaded(text) is Ok,
        loaded(text)->Ok_0.len() == lines(text).len(),
        forall|i: int|
            0 <= i < lines(text).len() ==> Some(#[trigger] loaded(text)->Ok_0[i]) == row_of(
                lines(text)[i],
            ),
{
    lemma_rows_before_violation_is(line_outcomes(text), lines(text).len() as int);
}

/// Where a text gives no table, the error names the first line that is no row.
pub proof fn lemma_load_error_names_first_bad_line(text: Seq<char>)
    requires
        loaded(text) is Err,
        lines(text).len() <= usize::MAX,
    ensures
        loaded(text)->Err_0 matches LoadError::SchemaViolation { row } && {
            &&& row < lines(text).len()
            &&& row_of(lines(text)[row as int]) is None
            &&& forall|j: int| 0 <= j < row ==> row_of(#[trigger] lines(text)[j]) is Some
        },
{
    lemma_rows_before_violation(line_outcomes(text));
    let n = rows_before_violation(line_outcomes(text));
    assert(line_outcomes(text)[n as int] is None);
    assert forall|j: int| 0 <= j < n implies row_of(#[trigger] lines(text)[j]) is Some by {
        assert(line_outcomes(text)[j] is Some);
    }
}

/// The measurements of the rows whose city is `city`, in the rows' order.
pub open spec fn matching(rows: Seq<Row>, city: Seq<char>) -> Seq<Measurement> {
    rows.filter(|row: Row| row.city == city).map_values(|row: Row| row.measurement)
}

/// One more row adds its measurement to the matches, or nothing.
pub proof fn lemma_matching_push(rows: Seq<Row>, row: Row, city: Seq<char>)
    ensures
        matching(rows.push(row), city) == if row.city == city {
            matching(rows, city).push(row.measurement)
        } else {
            matching(rows, city)
        },
{
    rows.lemma_filter_push(row, |row: Row| row.city == city);
    if row.city == city {
        assert(matching(rows.push(row), city) =~= matching(rows, city).push(row.measurement));
    }
}

/// No rows, no matches.
pub proof fn lemma_matching_empty(city: Seq<char>)
    ensures
        matching(Seq::empty(), city) == Seq::<Measurement>::empty(),
{
    reveal(Seq::filter);
    assert(matching(Seq::empty(), city) =~= Seq::<Measurement>::empty());
}

/// A city that no row names has no matches.
pub proof fn lemma_absent_city_matches_nothing(rows: Seq<Row>, city: Seq<char>)
    requires
        forall|i: int| 0 <= i < rows.len() ==> (#[trigger] rows[i]).city != city,
    ensures
        matching(rows, city) == Seq::<Measurement>::empty(),
    decreases rows.len(),
{
    if rows.len() == 0 {
        assert(rows =~= Seq::empty());
        lemma_matching_empty(city);
    } else {
        lemma_absent_city_matches_nothing(rows.drop_last(), city);
        lemma_matching_push(rows.drop_last(), rows.last(), city);
        assert(rows.drop_last().push(rows.last()) =~= rows);
    }
}

/// A table of cities and measurements.
pub struct Table {
    cities: Vec<String>,
    measurements: Vec<Measurement>,
}

impl View for Table {
    type V = Seq<Row>;

    /// The rows of the table, in order.
    closed spec fn view(&self) -> Seq<Row> {
        Seq::new(
            self.cities@.len(),
            |i: int| Row { city: self.cities@[i]@, measurement: self.measurements@[i] },
        )
    }
}

impl Table {
    /// The two columns have the same length.
    #[verifier::type_invariant]
    spec fn columns_match(self) -> bool {
        self.cities@.len() == self.measurements@.len()
    }

    /// Builds the table from what reading each line gave: from all of them, or not at all.
    pub fn from_rows(rows: Vec<Option<Entry>>) -> (r: Result<Table, LoadError>)
        ensures
            match r {
                Ok(table) => Ok::<Seq<Row>, LoadError>(table@),
                Err(e) => Err(e),
            } == assembled(rows@.map_values(|read: Option<Entry>| outcome(read))),
            r is Ok <==> forall|i: int| 0 <= i < rows@.len() ==> (#[trigger] rows@[i]) is Some,
            r matches Ok(table) ==> {
                &&& table@.len() == rows@.len()
                &&& forall|i: int| 0 <= i < rows@.len() ==> Some(#[trigger] table@[i]) == outcome(rows@[i])
            },
            r matches Err(e) ==> e matches LoadError::SchemaViolation { row } && {
                &&& row < rows@.len()
                &&& rows@[row as int] is None
                &&& forall|i: int| 0 <= i < row ==> (#[trigger] rows@[i]) is Some
            },
    {
        let ghost all = rows@;
        let ghost outcomes = all.map_values(|read: Option<Entry>| outcome(read));
        let total = rows.len();
        let mut cities: Vec<String> = Vec::new();
        let mut measurements: Vec<Measurement> = Vec::new();
        let mut n: usize = 0;
        for read in it: rows
            invariant
                it.seq() == all,
                all.len() == total,
                outcomes == all.map_values(|read: Option<Entry>| outcome(read)),
                n == it.index(),
                cities@.len() == n,
                measurements@.len() == n,
                forall|j: int|
                    0 <= j < n ==> {
                        &&& (#[trigger] all[j]) is Some
                        &&& cities@[j]@ == all[j].unwrap().city@
                        &&& measurements@[j] == all[j].unwrap().measurement
                    },
        {
            match read {
                Some(entry) => {
                    cities.push(entry.city);
                    measurements.push(entry.measurement);
                    n += 1;
                },
                None => {
                    proof {
                        lemma_rows_before_violation_is(outcomes, n as int);
                    }
                    return Err(LoadError::SchemaViolation { row: n });
                },
            }
        }
        proof {
            lemma_rows_before_violation_is(outcomes, n as int);
        }
        let table = Table { cities, measurements };
        assert(table@ =~= outcomes.map_values(|o: Option<Row>| o.unwrap()));
        Ok(table)
    }

    /// Reads a dataset: every line that is not empty must be a row.
    pub fn load(text: &str) -> (r: Result<Table, LoadError>)
        ensures
            match r {
                Ok(table) => Ok::<Seq<Row>, LoadError>(table@),
                Err(e) => Err(e),
            } == loaded(text@),
    {
        let rows = read_rows(text);
        assert(rows@.map_values(|read: Option<Entry>| outcome(read)) =~= line_outcomes(text@));
        Table::from_rows(rows)
    }

    /// The number of rows.
    pub fn len(&self) -> (r: usize)
        ensures
            r == self@.len(),
    {
        self.cities.len()
    }

    /// Whether the table has no rows.
    pub fn is_empty(&self) -> (r: bool)
        ensures
            r == (self@.len() == 0),
    {
        self.cities.len() == 0
    }

    /// The column of cities: one for each row, in the rows' order.
    pub fn cities(&self) -> (r: &Vec<String>)
        ensures
            r@.len() == self@.len(),
            forall|i: int| 0 <= i < r@.len() ==> (#[trigger] r@[i])@ == self@[i].city,
    {
        &self.cities
    }

    /// The column of measurements: one for each row, in the rows' order.
    pub fn measurements(&self) -> (r: &Vec<Measurement>)
        ensures
            r@.len() == self@.len(),
            forall|i: int| 0 <= i < r@.len() ==> #[trigger] r@[i] == self@[i].measurement,
    {
        proof {
            use_type_invariant(self);
        }
        &self.measurements
    }

    /// The city of the row at `index`, where there is such a row.
    pub fn city_at(&self, index: usize) -> (r: Option<&str>)
        ensures
            r is Some <==> index < self@.len(),
            r matches Some(city) ==> city@ == self@[index as int].city,
    {
        if index < self.cities.len() {
            Some(self.cities[index].as_str())
        } else {
            None
        }
    }

    /// The measurement of the row at `index`, where there is such a row.
    pub fn measurement_at(&self, index: usize) -> (r: Option<Measurement>)
        ensures
            r == if index < self@.len() {
                Some(self@[index as int].measurement)
            } else {
                None
            },
    {
        proof {
            use_type_invariant(self);
        }
        if index < self.measurements.len() {
            Some(self.measurements[index])
        } else {
            None
        }
    }

    /// The measurements recorded for a city, in the order of the rows.
    pub fn query_by_city(&self, city: &str) -> (r: Vec<Measurement>)
        ensures
            r@ == matching(self@, city@),
            (forall|i: int| 0 <= i < self@.len() ==> (#[trigger] self@[i]).city != city@) ==> r@.len()
                == 0,
    {
        proof {
            use_type_invariant(self);
            if forall|i: int| 0 <= i < self@.len() ==> (#[trigger] self@[i]).city != city@ {
                lemma_absent_city_matches_nothing(self@, city@);
            }
        }
        let wanted = city.to_owned();
        let mut out: Vec<Measurement> = Vec::new();
        let mut i: usize = 0;
        proof {
            lemma_matching_empty(city@);
            assert(self@.take(0) =~= Seq::<Row>::empty());
        }
        while i < self.cities.len()
            invariant
                i <= self.cities@.len(),
                self.cities@.len() == self.measurements@.len(),
                wanted@ == city@,
                out@ == matching(self@.take(i as int), city@),
            decreases self.cities@.len() - i,
        {
            proof {
                lemma_matching_push(self@.take(i as int), self@[i as int], city@);
                assert(self@.take(i as int).push(self@[i as int]) =~= self@.take(i + 1));
            }
            if self.cities[i] == wanted {
                out.push(self.measurements[i]);
            }
            i += 1;
        }
        assert(self@.take(i as int) =~= self@);
        out
    }
}

} // verus!
