use weather_stations::formatter;
use weather_stations::measurement::Measurement;

fn number(value: f32) -> Measurement {
    Measurement::from_bits(value.to_bits())
}

#[test]
fn parse_reads_decimal_numbers() {
    assert_eq!(Measurement::parse("12.5"), Some(number(12.5)));
    assert_eq!(Measurement::parse("13.0"), Some(number(13.0)));
    assert_eq!(Measurement::parse("9.9"), Some(number(9.9)));
    assert_eq!(Measurement::parse("-0.5"), Some(number(-0.5)));
    assert_eq!(Measurement::parse("7"), Some(number(7.0)));
    assert_eq!(Measurement::parse("1e3"), Some(number(1000.0)));
}

#[test]
fn parse_refuses_what_is_no_number() {
    assert_eq!(Measurement::parse("notanumber"), None);
    assert_eq!(Measurement::parse(""), None);
    assert_eq!(Measurement::parse("12,5"), None);
    assert_eq!(Measurement::parse("12.5.1"), None);
    assert_eq!(Measurement::parse("1 2"), None);
}

#[test]
fn bits_round_trip() {
    for bits in [0u32, 1, 0x4148_0000, 0x8000_0000, 0x7f80_0000, u32::MAX] {
        assert_eq!(Measurement::from_bits(bits).to_bits(), bits);
    }
    assert_eq!(Measurement::parse("12.5").unwrap().to_bits(), 0x4148_0000);
}

#[test]
fn to_text_is_the_default_decimal_form() {
    assert_eq!(number(12.5).to_text(), "12.5");
    assert_eq!(number(13.0).to_text(), "13");
    assert_eq!(number(9.9).to_text(), "9.9");
    assert_eq!(number(-7.25).to_text(), "-7.25");
    assert_eq!(number(0.0).to_text(), "0");
    assert_eq!(Measurement::from_bits(0x4148_0000).to_text(), "12.5");
}

#[test]
fn stored_precision_is_kept() {
    let third = Measurement::parse("0.33333334").unwrap();
    assert_eq!(third.to_bits(), (1.0f32 / 3.0f32).to_bits());
    assert_eq!(third.to_text(), (1.0f32 / 3.0f32).to_string());
    let tenth = Measurement::parse("0.1").unwrap();
    assert_eq!(f32::from_bits(tenth.to_bits()), 0.1f32);
    assert_eq!(tenth.to_text(), "0.1");
}

#[test]
fn format_joins_without_separator() {
    assert_eq!(formatter::format(&[number(12.5), number(13.0)]), "12.513");
    assert_eq!(formatter::format(&[number(9.9)]), "9.9");
    assert_eq!(formatter::format(&[number(1.0), number(2.0), number(3.5)]), "123.5");
}

#[test]
fn format_of_nothing_is_empty() {
    assert_eq!(formatter::format(&[]), "");
}

#[test]
fn format_is_the_texts_one_after_another() {
    let values = [number(-1.5), number(0.25), number(100.0)];
    let mut expected = String::new();
    for value in values.iter() {
        expected.push_str(&value.to_text());
    }
    assert_eq!(formatter::format(&values), expected);
    assert_eq!(expected, "-1.50.25100");
}
