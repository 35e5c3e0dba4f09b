use weather_stations::measurement::Measurement;
use weather_stations::rows::{find_first_of, parse_row, read_row, read_rows, split_row, Entry};
use weather_stations::table::{LoadError, Table};
use weather_stations::text::{chars_of, string_of};

fn chars(text: &str) -> Vec<char> {
    text.chars().collect()
}

fn measured(value: f32) -> Measurement {
    Measurement::from_bits(value.to_bits())
}

#[test]
fn chars_of_keeps_every_character() {
    assert_eq!(chars_of("a;1\n"), vec!['a', ';', '1', '\n']);
    assert_eq!(chars_of("Zü"), vec!['Z', 'ü']);
    assert_eq!(chars_of(""), Vec::<char>::new());
}

#[test]
fn string_of_takes_the_span() {
    let all = chars("Paris;12.5");
    assert_eq!(string_of(&all, 0, 5), "Paris");
    assert_eq!(string_of(&all, 6, 10), "12.5");
    assert_eq!(string_of(&all, 3, 3), "");
    assert_eq!(string_of(&all, 0, 10), "Paris;12.5");
}

#[test]
fn find_stops_at_the_first_of_two() {
    let all = chars("ab\rcd\nef");
    assert_eq!(find_first_of(&all, 0, all.len(), '\n', '\r'), 2);
    assert_eq!(find_first_of(&all, 3, all.len(), '\n', '\r'), 5);
    assert_eq!(find_first_of(&all, 6, all.len(), '\n', '\r'), 8);
    assert_eq!(find_first_of(&all, 0, 2, '\n', '\r'), 2);
    assert_eq!(find_first_of(&all, 2, all.len(), '\n', '\r'), 2);
    assert_eq!(find_first_of(&all, 4, 4, '\n', '\r'), 4);
}

#[test]
fn split_row_wants_exactly_one_separator() {
    let line = chars("Paris;12.5");
    assert_eq!(
        split_row(&line, 0, line.len()),
        Some((String::from("Paris"), String::from("12.5")))
    );
    let none = chars("Paris");
    assert_eq!(split_row(&none, 0, none.len()), None);
    let three = chars("Paris;12.5;x");
    assert_eq!(split_row(&three, 0, three.len()), None);
    let bare = chars(";");
    assert_eq!(split_row(&bare, 0, bare.len()), Some((String::new(), String::new())));
    let empty = chars("");
    assert_eq!(split_row(&empty, 0, 0), None);
    assert_eq!(split_row(&three, 0, 10), Some((String::from("Paris"), String::from("12.5"))));
}

#[test]
fn read_row_checks_both_fields() {
    let line = chars("xxLyon;9.9yy");
    let entry = read_row(&line, 2, 10).unwrap();
    assert_eq!(entry.city, "Lyon");
    assert_eq!(entry.measurement, measured(9.9));
    assert!(read_row(&line, 2, 6).is_none());
    assert!(read_row(&line, 2, 7).is_none());
    assert!(read_row(&line, 6, 10).is_none());
}

#[test]
fn parse_row_accepts_a_row() {
    let entry = parse_row("Paris;12.5").unwrap();
    assert_eq!(entry.city, "Paris");
    assert_eq!(entry.measurement.to_bits(), 12.5f32.to_bits());
    let negative = parse_row("Oslo;-7.25").unwrap();
    assert_eq!(negative.measurement.to_bits(), (-7.25f32).to_bits());
    let spaced = parse_row("New York;3").unwrap();
    assert_eq!(spaced.city, "New York");
    assert_eq!(spaced.measurement.to_bits(), 3.0f32.to_bits());
}

#[test]
fn parse_row_refuses_what_breaks_the_schema() {
    assert!(parse_row("Paris").is_none());
    assert!(parse_row("Paris;").is_none());
    assert!(parse_row(";12.5").is_none());
    assert!(parse_row("Paris;12.5;1").is_none());
    assert!(parse_row("Paris;notanumber").is_none());
    assert!(parse_row("Paris;12,5").is_none());
    assert!(parse_row("").is_none());
    assert!(parse_row(";").is_none());
}

#[test]
fn read_rows_reads_line_by_line() {
    let rows = read_rows("Paris;12.5\nbad\n\nLyon;9.9");
    assert_eq!(rows.len(), 3);
    assert_eq!(rows[0].as_ref().unwrap().city, "Paris");
    assert!(rows[1].is_none());
    assert_eq!(rows[2].as_ref().unwrap().city, "Lyon");
    assert_eq!(rows[2].as_ref().unwrap().measurement, measured(9.9));
}

#[test]
fn empty_lines_and_both_line_breaks() {
    let text = "\n\nParis;12.5\r\nLyon;9.9\r\r\n\nNice;1\n\n";
    let rows = read_rows(text);
    assert_eq!(rows.len(), 3);
    let table = Table::load(text).unwrap();
    assert_eq!(table.len(), 3);
    assert_eq!(table.query_by_city("Lyon"), vec![measured(9.9)]);
    assert_eq!(table.query_by_city("Nice"), vec![measured(1.0)]);
}

#[test]
fn empty_text_gives_an_empty_table() {
    let table = Table::load("").unwrap();
    assert_eq!(table.len(), 0);
    assert!(table.is_empty());
    assert!(table.query_by_city("Paris").is_empty());
    let only_breaks = Table::load("\n\r\n\n").unwrap();
    assert!(only_breaks.is_empty());
}

#[test]
fn last_line_needs_no_line_break() {
    let with = Table::load("Paris;12.5\nLyon;9.9\n").unwrap();
    let without = Table::load("Paris;12.5\nLyon;9.9").unwrap();
    assert_eq!(with.len(), 2);
    assert_eq!(without.len(), 2);
    assert_eq!(with.query_by_city("Lyon"), without.query_by_city("Lyon"));
}

#[test]
fn error_names_the_first_bad_row() {
    assert!(matches!(Table::load("Paris"), Err(LoadError::SchemaViolation { row: 0 })));
    assert!(matches!(
        Table::load("Paris;1\n\n\nLyon\nNice;x\n"),
        Err(LoadError::SchemaViolation { row: 1 })
    ));
    assert!(matches!(
        Table::load("Paris;1\nLyon;2\nNice;3;4\n"),
        Err(LoadError::SchemaViolation { row: 2 })
    ));
    assert!(matches!(Table::load(";1\n"), Err(LoadError::SchemaViolation { row: 0 })));
    assert!(matches!(
        Table::load("Paris;1\nLyon;\n"),
        Err(LoadError::SchemaViolation { row: 1 })
    ));
}

#[test]
fn from_rows_takes_all_or_nothing() {
    let good = vec![
        Some(Entry { city: String::from("Paris"), measurement: measured(12.5) }),
        Some(Entry { city: String::from("Lyon"), measurement: measured(9.9) }),
        Some(Entry { city: String::from("Paris"), measurement: measured(13.0) }),
    ];
    let table = Table::from_rows(good).unwrap();
    assert_eq!(table.len(), 3);
    assert_eq!(table.query_by_city("Paris"), vec![measured(12.5), measured(13.0)]);
    assert_eq!(table.city_at(1), Some("Lyon"));
    assert_eq!(table.measurement_at(1), Some(measured(9.9)));
    assert_eq!(table.city_at(3), None);
    assert_eq!(table.measurement_at(3), None);

    let bad = vec![
        Some(Entry { city: String::from("Paris"), measurement: measured(12.5) }),
        None,
        Some(Entry { city: String::from("Lyon"), measurement: measured(9.9) }),
        None,
    ];
    assert!(matches!(Table::from_rows(bad), Err(LoadError::SchemaViolation { row: 1 })));
    assert!(Table::from_rows(Vec::new()).unwrap().is_empty());
}

#[test]
fn columns_keep_the_order_of_the_rows() {
    let table = Table::load("b;2\na;1\nb;3\nc;4\nb;5\n").unwrap();
    assert_eq!(table.len(), 5);
    assert_eq!(table.city_at(0), Some("b"));
    assert_eq!(table.city_at(1), Some("a"));
    assert_eq!(table.city_at(4), Some("b"));
    assert_eq!(table.measurement_at(3), Some(measured(4.0)));
    assert_eq!(table.query_by_city("b"), vec![measured(2.0), measured(3.0), measured(5.0)]);
    assert_eq!(table.query_by_city("a"), vec![measured(1.0)]);
    assert!(table.query_by_city("d").is_empty());
}
