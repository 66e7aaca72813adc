use wooridb::compare::{types_compare, Comparison};
use wooridb::error::Error;
use wooridb::numbers::rounded_to_f64;
use wooridb::steps::delete_id;
use wooridb::types::{FloatInfo, Types};
use wooridb::when_at::{day_log_file, state_when, when_day, when_instant};

fn float(f: f64) -> Types {
    let bits = f.to_bits();
    let magnitude = (bits & 0x7fff_ffff_ffff_ffff) as i128;
    let order = if bits >> 63 == 1 { -magnitude } else { magnitude };
    let floor = f.floor();
    Types::Float(
        format!("{:?}", f),
        Some(FloatInfo { order, floor: floor as i128, fraction: f > floor }),
    )
}

fn nan() -> Types {
    Types::Float("NaN".to_string(), None)
}

fn record(id: &str, date: &str, state: &str) -> (String, String, String) {
    (id.to_string(), date.to_string(), state.to_string())
}

#[test]
fn when_instant_reads_a_utc_date() {
    assert_eq!(when_instant("2014-11-28T12:00:09Z").ok(), Some((1_417_176_009, 0)));
    assert_eq!(when_instant("2014-11-28T12:00:09.5Z").ok(), Some((1_417_176_009, 500_000_000)));
    assert!(matches!(when_instant("28/11/2014"), Err(Error::DateTimeParse(_))));
}

#[test]
fn when_day_names_the_log_of_the_day() {
    assert_eq!(day_log_file((1_417_176_009, 0)), "data/2014_11_28.log");
    let (instant, file) = when_day("2014-11-28T23:59:59Z").ok().unwrap();
    assert_eq!(instant, (1_417_219_199, 0));
    assert_eq!(file, "data/2014_11_28.log");
    assert!(matches!(when_day("yesterday"), Err(Error::DateTimeParse(_))));
}

#[test]
fn state_when_keeps_the_last_record_of_each_registry() {
    let records = vec![
        record("a", "d1", "first a"),
        record("b", "d2", "only b"),
        record("a", "d3", "last a"),
    ];
    let mut r = state_when(&records, None);
    r.sort();
    assert_eq!(
        r,
        vec![
            ("a".to_string(), "last a".to_string()),
            ("b".to_string(), "only b".to_string())
        ]
    );
}

#[test]
fn state_when_of_one_registry() {
    let id: u128 = 0x1234;
    let text = uuid::Uuid::from_u128(id).to_string();
    let records = vec![
        record(&text, "d1", "first"),
        record("other", "d2", "not this one"),
        record(&text, "d3", "second"),
    ];
    assert_eq!(state_when(&records, Some(id)), vec![(text.clone(), "second".to_string())]);
    assert_eq!(state_when(&vec![record("other", "d", "s")], Some(id)), vec![]);
}

#[test]
fn delete_id_reads_a_uuid() {
    assert_eq!(delete_id("00000000-0000-0000-0000-000000001234").ok(), Some(0x1234));
    assert!(matches!(delete_id("not-a-uuid"), Err(Error::InvalidUuid(_))));
}

#[test]
fn integers_round_to_the_nearest_float() {
    let two53: i128 = 1 << 53;
    assert_eq!(rounded_to_f64(5), 5);
    assert_eq!(rounded_to_f64(-7), -7);
    assert_eq!(rounded_to_f64((two53 + 1) as isize), two53);
    assert_eq!(rounded_to_f64((two53 + 3) as isize), two53 + 4);
    assert_eq!(rounded_to_f64(-(two53 + 1) as isize), -two53);
    assert_eq!(rounded_to_f64(isize::MAX), isize::MAX as f64 as i128);
    assert_eq!(rounded_to_f64(isize::MIN), isize::MIN as f64 as i128);
    for x in [two53 + 5, two53 * 3 + 7, 123_456_789_123_456_789] {
        assert_eq!(rounded_to_f64(x as isize), (x as isize) as f64 as i128);
    }
}

#[test]
fn integers_compare_with_floats_after_rounding() {
    let two53: i64 = 1 << 53;
    let big = Types::Integer((two53 + 1) as isize);
    assert_eq!(types_compare(&big, &float(two53 as f64)), Some(Comparison::Less));
    assert_eq!(types_compare(&float(two53 as f64), &big), Some(Comparison::Less));
    assert_eq!(types_compare(&Types::Integer(3), &float(2.5)), Some(Comparison::Greater));
    assert_eq!(types_compare(&float(2.5), &Types::Integer(2)), Some(Comparison::Greater));
}

#[test]
fn nan_is_above_nothing() {
    assert_eq!(types_compare(&nan(), &Types::Integer(1)), Some(Comparison::Less));
    assert_eq!(types_compare(&Types::Integer(1), &nan()), Some(Comparison::Less));
    assert_eq!(types_compare(&nan(), &nan()), Some(Comparison::Less));
    assert_eq!(types_compare(&float(1.0), &nan()), Some(Comparison::Less));
}
