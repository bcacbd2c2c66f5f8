use serde_sqlx::data::{
    DateParts, IntervalParts, PgColumn, PgRow, Prim, RawValue, TimeParts, TimestampParts,
};
use serde_sqlx::fmt::{format_date, format_duration, format_time, format_timestamp, format_uuid};
use serde_sqlx::from_pg_row;
use serde_sqlx::shape::Shape;
use serde_sqlx::tag::TypeTag;
use serde_sqlx::value::Value;

fn one_col_row(tag: TypeTag, data: Option<Prim>) -> PgRow {
    PgRow {
        columns: vec![PgColumn {
            name: "value".to_string(),
            value: Ok(RawValue { tag, data }),
        }],
    }
}

fn chrono_date(y: i32, m: u8, d: u8) -> String {
    chrono::NaiveDate::from_ymd_opt(y, m as u32, d as u32)
        .unwrap()
        .to_string()
}

#[test]
fn date_text_matches_the_calendar_crate() {
    let cases = [
        (2015i32, 9u8, 18u8),
        (2024, 2, 29),
        (1, 1, 1),
        (-1, 1, 1),
        (10000, 12, 31),
        (9999, 12, 31),
        (100000, 6, 15),
        (-100, 3, 1),
    ];
    for (y, m, d) in cases {
        let parts = DateParts {
            year: y,
            month: m,
            day: d,
        };
        assert_eq!(format_date(&parts), chrono_date(y, m, d), "year {}", y);
    }
}

#[test]
fn date_column_decodes_to_canonical_text() {
    let parts = DateParts {
        year: 2024,
        month: 1,
        day: 15,
    };
    let row = one_col_row(TypeTag::Date, Some(Prim::Date(parts)));
    assert_eq!(
        from_pg_row(&row, &Shape::Str).unwrap(),
        Value::Str("2024-01-15".to_string())
    );
}

#[test]
fn time_text_matches_the_calendar_crate() {
    let cases = [
        (23u8, 56u8, 4u8, 0u32),
        (0, 0, 0, 0),
        (1, 2, 3, 12000),
        (1, 2, 3, 12345),
        (13, 7, 59, 999999),
        (13, 7, 59, 500000),
    ];
    for (h, mi, s, us) in cases {
        let parts = TimeParts {
            hour: h,
            minute: mi,
            second: s,
            micro: us,
        };
        let expected = chrono::NaiveTime::from_hms_micro_opt(h as u32, mi as u32, s as u32, us)
            .unwrap()
            .to_string();
        assert_eq!(format_time(&parts), expected, "micro {}", us);
    }
}

#[test]
fn timestamp_text_matches_the_calendar_crate() {
    let cases = [(0i32, 453829u32), (330, 0), (-300, 120000)];
    for (offset_minutes, micro) in cases {
        let parts = TimestampParts {
            date: DateParts {
                year: 2018,
                month: 1,
                day: 26,
            },
            time: TimeParts {
                hour: 18,
                minute: 30,
                second: 9,
                micro,
            },
            offset_minutes,
        };
        let off = chrono::FixedOffset::east_opt(offset_minutes * 60).unwrap();
        let expected = chrono::NaiveDate::from_ymd_opt(2018, 1, 26)
            .unwrap()
            .and_hms_micro_opt(18, 30, 9, micro)
            .unwrap()
            .and_local_timezone(off)
            .unwrap()
            .to_rfc3339();
        assert_eq!(format_timestamp(&parts), expected, "offset {}", offset_minutes);
    }
}

#[test]
fn timestamp_column_decodes_to_rfc3339_text() {
    let parts = TimestampParts {
        date: DateParts {
            year: 2018,
            month: 1,
            day: 26,
        },
        time: TimeParts {
            hour: 18,
            minute: 30,
            second: 9,
            micro: 0,
        },
        offset_minutes: 0,
    };
    let row = one_col_row(TypeTag::TimestampTz, Some(Prim::Timestamp(parts)));
    assert_eq!(
        from_pg_row(&row, &Shape::Str).unwrap(),
        Value::Str("2018-01-26T18:30:09+00:00".to_string())
    );
}

#[test]
fn uuid_text_matches_the_identifier_crate() {
    let bytes: [u8; 16] = [
        0x67, 0xe5, 0x50, 0x44, 0x10, 0xb1, 0x42, 0x6f, 0x92, 0x47, 0xbb, 0x68, 0x0e, 0x5f, 0xe0,
        0xc8,
    ];
    let expected = uuid::Uuid::from_bytes(bytes).to_string();
    assert_eq!(format_uuid(&bytes.to_vec()), expected);
    let row = one_col_row(TypeTag::Uuid, Some(Prim::Bytes(bytes.to_vec())));
    assert_eq!(from_pg_row(&row, &Shape::Str).unwrap(), Value::Str(expected));
}

fn chrono_duration_text(days: i32, microseconds: i64) -> String {
    let secs = microseconds / 1_000_000;
    let nanos = (microseconds % 1_000_000) * 1000;
    let duration = chrono::Duration::seconds(secs)
        + chrono::Duration::nanoseconds(nanos)
        + chrono::Duration::days(days as i64);
    duration.to_string()
}

#[test]
fn duration_text_matches_the_calendar_crate() {
    let cases = [
        (0i32, 0i64),
        (0, 1),
        (0, -1),
        (1, 3_723_500_000),
        (0, 42_000_000),
        (-2, 500_000),
        (365, -1),
        (0, 86_400_000_000),
        (2147483647, 0),
        (-2147483648, 999_999),
    ];
    for (days, micros) in cases {
        assert_eq!(
            format_duration(days, micros),
            chrono_duration_text(days, micros),
            "days {} micros {}",
            days,
            micros
        );
    }
}

#[test]
fn interval_column_ignores_months() {
    // the month component is deliberately ignored: a documented lossy
    // conversion
    let with_months = IntervalParts {
        months: 7,
        days: 1,
        microseconds: 3_600_000_000,
    };
    let without_months = IntervalParts {
        months: 0,
        days: 1,
        microseconds: 3_600_000_000,
    };
    let row_a = one_col_row(TypeTag::Interval, Some(Prim::Interval(with_months)));
    let row_b = one_col_row(TypeTag::Interval, Some(Prim::Interval(without_months)));
    let a = from_pg_row(&row_a, &Shape::Str).unwrap();
    let b = from_pg_row(&row_b, &Shape::Str).unwrap();
    assert_eq!(a, b);
    assert_eq!(a, Value::Str(chrono_duration_text(1, 3_600_000_000)));
}

#[test]
fn time_column_decodes_to_canonical_text() {
    let parts = TimeParts {
        hour: 1,
        minute: 2,
        second: 3,
        micro: 12000,
    };
    let row = one_col_row(TypeTag::Time, Some(Prim::Time(parts)));
    assert_eq!(
        from_pg_row(&row, &Shape::Str).unwrap(),
        Value::Str("01:02:03.012".to_string())
    );
}

#[test]
fn invalid_date_is_a_driver_error() {
    let parts = DateParts {
        year: 2023,
        month: 2,
        day: 29,
    };
    let row = one_col_row(TypeTag::Date, Some(Prim::Date(parts)));
    assert_eq!(
        from_pg_row(&row, &Shape::Str),
        Err(serde_sqlx::error::DecodeError::Driver {
            target: "date".to_string(),
            tag: "DATE".to_string(),
        })
    );
}
