//! The query service: a table that is loaded once and then answers queries by city.

use crate::formatter::rendered;
use crate::measurement::Measurement;
use crate::rows::{lines, row_of, Row};
use crate::table::{lemma_one_bad_line_fails, loaded, matching, LoadError, Table};
use vstd::prelude::*;

verus! {

/// Why a query gave no result.
#[derive(Clone, Copy, Debug, PartialEq, Eq, Structural)]
pub enum QueryError {
    /// The query could not be executed: no table is loaded.
    Execution,
}

impl QueryError {
    /// The message of the error.
    pub open spec fn text(self) -> Seq<char> {
        "the table is not available"@
    }

    /// The message of the error.
    pub fn message(&self) -> (r: String)
        ensures
            r@ == self.text(),
    {
        String::from_str("the table is not available")
    }
}

/// What loading gives from what reading the source gave: without a text there
/// is nothing to load.
pub open spec fn loaded_from(source: Option<Seq<char>>) -> Result<Seq<Row>, LoadError> {
    match source {
        Some(text) => loaded(text),
        None => Err(LoadError::SourceUnavailable),
    }
}

/// The result of a query: the matches, or an error where no table is loaded.
pub open spec fn query_result(table: Option<Seq<Row>>, city: Seq<char>) -> Result<
    Seq<Measurement>,
    QueryError,
> {
    match table {
        Some(rows) => Ok(matching(rows, city)),
        None => Err(QueryError::Execution),
    }
}

/// The text fetched for a city: the matches rendered.
pub open spec fn fetched(table: Option<Seq<Row>>, city: Seq<char>) -> Result<Seq<char>, QueryError> {
    match query_result(table, city) {
        Ok(values) => Ok(rendered(values)),
        Err(e) => Err(e),
    }
}

/// The body of a response: the text fetched, or `Error: ` and the error's message.
pub open spec fn body_text(outcome: Result<Seq<char>, QueryError>) -> Seq<char> {
    match outcome {
        Ok(data) => data,
        Err(e) => "Error: "@ + e.text(),
    }
}

/// The body of the response to a fetch.
pub fn response_body(outcome: Result<String, QueryError>) -> (r: String)
    ensures
        r@ == body_text(
            match outcome {
                Ok(data) => Ok(data@),
                Err(e) => Err(e),
            },
        ),
{
    match outcome {
        Ok(data) => data,
        Err(e) => {
            let mut body = String::from_str("Error: ");
            let message = e.message();
            body.append(message.as_str());
            body
        },
    }
}

/// A source with one line that is no row gives no service.
pub proof fn lemma_bad_line_gives_no_service(text: Seq<char>, i: int)
    requires
        0 <= i < lines(text).len(),
        row_of(lines(text)[i]) is None,
    ensures
        loaded_from(Some(text)) is Err,
{
    lemma_one_bad_line_fails(text, i);
}

/// Loading and fetching are functions of their inputs: two services loaded
/// from the same source give the same response for the same city.
pub proof fn lemma_same_inputs_same_response(
    a: WeatherStations,
    b: WeatherStations,
    source: Option<Seq<char>>,
    city: Seq<char>,
)
    requires
        a@ is Some,
        b@ is Some,
        loaded_from(source) == Ok::<Seq<Row>, LoadError>(a@->0),
        loaded_from(source) == Ok::<Seq<Row>, LoadError>(b@->0),
    ensures
        fetched(a@, city) == fetched(b@, city),
        body_text(fetched(a@, city)) == body_text(fetched(b@, city)),
{
}

/// The service: at most one table, which never changes once it is there.
pub struct WeatherStations {
    table: Option<Table>,
}

impl View for WeatherStations {
    type V = Option<Seq<Row>>;

    /// The rows of the table, where one is loaded.
    closed spec fn view(&self) -> Option<Seq<Row>> {
        match self.table {
            Some(table) => Some(table@),
            None => None,
        }
    }
}

impl WeatherStations {
    /// A service without a table: every query fails.
    pub fn unloaded() -> (r: WeatherStations)
        ensures
            r@ is None,
    {
        WeatherStations { table: None }
    }

    /// Loads the service from what reading the source gave. There is a service
    /// only where the whole text could be loaded.
    pub fn from_source(source: Option<&str>) -> (r: Result<WeatherStations, LoadError>)
        ensures
            match r {
                Ok(service) => service@ is Some && loaded_from(
                    match source {
                        Some(text) => Some(text@),
                        None => None,
                    },
                ) == Ok::<Seq<Row>, LoadError>(service@->0),
                Err(e) => loaded_from(
                    match source {
                        Some(text) => Some(text@),
                        None => None,
                    },
                ) == Err::<Seq<Row>, LoadError>(e),
            },
    {
        match source {
            None => Err(LoadError::SourceUnavailable),
            Some(text) => match Table::load(text) {
                Ok(table) => Ok(WeatherStations { table: Some(table) }),
                Err(e) => Err(e),
            },
        }
    }

    /// Whether a table is loaded.
    pub fn is_ready(&self) -> (r: bool)
        ensures
            r == self@ is Some,
    {
        self.table.is_some()
    }

    /// The measurements recorded for a city, in the order of the rows.
    pub fn query_by_city(&self, city: &str) -> (r: Result<Vec<Measurement>, QueryError>)
        ensures
            match r {
                Ok(values) => Ok(values@),
                Err(e) => Err(e),
            } == query_result(self@, city@),
    {
        match &self.table {
            Some(table) => Ok(table.query_by_city(city)),
            None => Err(QueryError::Execution),
        }
    }

    /// The measurements recorded for a city, rendered as one text.
    pub fn fetch_by_city(&self, city: &str) -> (r: Result<String, QueryError>)
        ensures
            match r {
                Ok(data) => Ok(data@),
                Err(e) => Err(e),
            } == fetched(self@, city@),
    {
        match self.query_by_city(city) {
            Ok(values) => Ok(crate::formatter::format(values.as_slice())),
            Err(e) => Err(e),
        }
    }

    /// The body of the response to a request for a city.
    pub fn respond(&self, city: &str) -> (r: String)
        ensures
            r@ == body_text(fetched(self@, city@)),
    {
        response_body(self.fetch_by_city(city))
    }
}

} // verus!
