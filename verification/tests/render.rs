use conduit::render::{
    escape_label_value, format_labels, has_scalar_value, is_counter, sanitize_name, to_prometheus,
    DatumKind, Field, Sample,
};
use conduit::text::i64_text;
use uuid::Uuid;

fn field(name: &str, value: &str) -> Field {
    Field { name: name.to_string(), value: value.to_string() }
}

fn sample(name: &str, fields: Vec<Field>, datum: DatumKind, value: &str, ts: i64) -> Sample {
    Sample {
        timeseries_name: name.to_string(),
        fields,
        datum,
        value: value.to_string(),
        timestamp_ms: ts,
    }
}

#[test]
fn sanitize_replaces_colon() {
    assert_eq!(sanitize_name("crucible_downstairs:read"), "crucible_downstairs_read");
}

#[test]
fn escape_handles_quotes_and_backslashes() {
    assert_eq!(escape_label_value(r#"a"b\c"#), r#"a\"b\\c"#);
}

#[test]
fn renders_counter_with_labels_and_timestamp() {
    let s = sample(
        "crucible_downstairs:read",
        vec![field("downstairs_uuid", &Uuid::nil().to_string())],
        DatumKind::CumulativeI64,
        "7",
        1_725_029_869_000,
    );

    let out = to_prometheus(&[s]);

    assert!(out.contains("# TYPE crucible_downstairs_read counter"));
    assert!(out.contains("downstairs_uuid=\"00000000-0000-0000-0000-000000000000\""));
    assert!(out.contains(" 7 "));
}

#[test]
fn sanitize_leading_digit_and_other_bytes() {
    assert_eq!(sanitize_name("9lives"), "_lives");
    assert_eq!(sanitize_name("a9"), "a9");
    assert_eq!(sanitize_name("a-b.c d"), "a_b_c_d");
    assert_eq!(sanitize_name(""), "");
    assert_eq!(sanitize_name("é:x"), "__x");
}

#[test]
fn sanitize_is_idempotent_on_examples() {
    for s in ["crucible_downstairs:read", "9x:y", "ok_name", "ünï:cødé", ""] {
        let once = sanitize_name(s);
        assert_eq!(sanitize_name(&once), once);
        assert_eq!(once.chars().count(), s.chars().count());
    }
}

#[test]
fn escape_newline_and_plain_text() {
    assert_eq!(escape_label_value("line1\nline2"), "line1\\nline2");
    assert_eq!(escape_label_value("plain"), "plain");
    assert_eq!(escape_label_value(""), "");
    assert!(!escape_label_value("a\nb\n").contains('\n'));
}

#[test]
fn labels_empty_and_several() {
    assert_eq!(format_labels(&[]), "");
    assert_eq!(format_labels(&[field("a", "1")]), "{a=\"1\"}");
    assert_eq!(
        format_labels(&[field("x:y", "q\""), field("z", "2")]),
        "{x_y=\"q\\\"\",z=\"2\"}"
    );
}

#[test]
fn integer_text() {
    assert_eq!(i64_text(0), "0");
    assert_eq!(i64_text(7), "7");
    assert_eq!(i64_text(-42), "-42");
    assert_eq!(i64_text(1_725_029_869_123), "1725029869123");
    assert_eq!(i64_text(i64::MIN), "-9223372036854775808");
    assert_eq!(i64_text(i64::MAX), "9223372036854775807");
}

#[test]
fn datum_kinds() {
    let counters = [
        DatumKind::CumulativeI64,
        DatumKind::CumulativeU64,
        DatumKind::CumulativeF32,
        DatumKind::CumulativeF64,
    ];
    for k in counters {
        assert!(is_counter(&k));
        assert!(has_scalar_value(&k));
    }
    let gauges = [
        DatumKind::Bool,
        DatumKind::I8,
        DatumKind::U8,
        DatumKind::I16,
        DatumKind::U16,
        DatumKind::I32,
        DatumKind::U32,
        DatumKind::I64,
        DatumKind::U64,
        DatumKind::F32,
        DatumKind::F64,
    ];
    for k in gauges {
        assert!(!is_counter(&k));
        assert!(has_scalar_value(&k));
    }
    let skipped = [
        DatumKind::String,
        DatumKind::Bytes,
        DatumKind::HistogramI8,
        DatumKind::HistogramU8,
        DatumKind::HistogramI16,
        DatumKind::HistogramU16,
        DatumKind::HistogramI32,
        DatumKind::HistogramU32,
        DatumKind::HistogramI64,
        DatumKind::HistogramU64,
        DatumKind::HistogramF32,
        DatumKind::HistogramF64,
        DatumKind::Missing,
    ];
    for k in skipped {
        assert!(!is_counter(&k));
        assert!(!has_scalar_value(&k));
    }
}

#[test]
fn full_document_declares_each_type_once() {
    let samples = vec![
        sample("crucible_downstairs:read", vec![field("id", "a")], DatumKind::CumulativeI64, "7", 10),
        sample("crucible_downstairs:write", vec![], DatumKind::I64, "-3", 11),
        sample("crucible_downstairs:hist", vec![], DatumKind::HistogramF64, "", 12),
        sample("crucible_downstairs:read", vec![field("id", "b")], DatumKind::CumulativeI64, "9", 13),
    ];
    let out = to_prometheus(&samples);
    assert_eq!(
        out,
        "# TYPE crucible_downstairs_read counter\n\
         crucible_downstairs_read{id=\"a\"} 7 10\n\
         # TYPE crucible_downstairs_write gauge\n\
         crucible_downstairs_write -3 11\n\
         crucible_downstairs_read{id=\"b\"} 9 13\n"
    );
    assert_eq!(out.matches("# TYPE crucible_downstairs_read ").count(), 1);
}

#[test]
fn empty_and_unrenderable_batches() {
    assert_eq!(to_prometheus(&[]), "");
    let only_skipped = vec![
        sample("t:bytes", vec![], DatumKind::Bytes, "", 1),
        sample("t:missing", vec![], DatumKind::Missing, "", 2),
    ];
    assert_eq!(to_prometheus(&only_skipped), "");
}

#[test]
fn type_follows_first_sample_of_a_name() {
    let samples = vec![
        sample("a:b", vec![], DatumKind::Missing, "", 1),
        sample("a:b", vec![], DatumKind::U8, "1", 2),
        sample("a:b", vec![], DatumKind::CumulativeU64, "2", 3),
    ];
    assert_eq!(to_prometheus(&samples), "# TYPE a_b gauge\na_b 1 2\na_b 2 3\n");
}

fn unescape(t: &str) -> String {
    let mut out = String::new();
    let mut chars = t.chars();
    while let Some(c) = chars.next() {
        if c == '\\' {
            match chars.next() {
                Some('n') => out.push('\n'),
                Some(other) => out.push(other),
                None => out.push('\\'),
            }
        } else {
            out.push(c);
        }
    }
    out
}

#[test]
fn escaped_values_read_back_unchanged() {
    for s in ["", "plain", "a\"b\\c", "\\\\", "\n\n\"", "ünï\\n", "end\\"] {
        assert_eq!(unescape(&escape_label_value(s)), s);
    }
}

#[test]
fn skipped_samples_do_not_change_the_document() {
    let with_skipped = vec![
        sample("x:h", vec![], DatumKind::HistogramU64, "", 1),
        sample("x:c", vec![field("k", "v")], DatumKind::CumulativeU64, "5", 2),
        sample("x:c", vec![], DatumKind::String, "", 3),
        sample("x:g", vec![], DatumKind::Bool, "1", 4),
    ];
    let without = vec![
        sample("x:c", vec![field("k", "v")], DatumKind::CumulativeU64, "5", 2),
        sample("x:g", vec![], DatumKind::Bool, "1", 4),
    ];
    assert_eq!(to_prometheus(&with_skipped), to_prometheus(&without));
}
