use gpu_usage::parse::{duration_value, memory_value};
use gpu_usage::process::comm_name;
use gpu_usage::record::parse_record;

#[test]
fn duration_nanoseconds_pass_through() {
    assert_eq!(duration_value(b"5 ns"), 5);
    assert_eq!(duration_value(b"0 ns"), 0);
    assert_eq!(duration_value(b"18446744073709551615 ns"), 18446744073709551615u128);
}

#[test]
fn duration_microseconds_scale_by_thousand() {
    assert_eq!(duration_value(b"5 us"), 5_000);
    assert_eq!(duration_value(b"123 us"), 123_000);
}

#[test]
fn duration_milliseconds_scale_by_million() {
    assert_eq!(duration_value(b"5 ms"), 5_000_000);
    assert_eq!(duration_value(b"18446744073709551615 ms"), 18446744073709551615u128 * 1_000_000);
}

#[test]
fn duration_unrecognized_unit_is_zero() {
    assert_eq!(duration_value(b"5 s"), 0);
    assert_eq!(duration_value(b"5 minutes"), 0);
    assert_eq!(duration_value(b"5 NS"), 0);
}

#[test]
fn duration_malformed_integer_is_zero() {
    assert_eq!(duration_value(b"abc ms"), 0);
    assert_eq!(duration_value(b"12x ms"), 0);
    assert_eq!(duration_value(b" ms"), 0);
    // one past u64::MAX no longer parses
    assert_eq!(duration_value(b"18446744073709551616 ms"), 0);
}

#[test]
fn duration_missing_separator_is_zero() {
    assert_eq!(duration_value(b"5"), 0);
    assert_eq!(duration_value(b""), 0);
    assert_eq!(duration_value(b"5ms"), 0);
}

#[test]
fn memory_kibibytes_pass_through() {
    assert_eq!(memory_value(b"7 kib"), 7);
    assert_eq!(memory_value(b"0 kib"), 0);
}

#[test]
fn memory_mebibytes_divide_by_1024() {
    assert_eq!(memory_value(b"2048 mib"), 2);
    assert_eq!(memory_value(b"1 mib"), 0);
}

#[test]
fn memory_other_unit_multiplies_by_1024() {
    assert_eq!(memory_value(b"3 b"), 3072);
    assert_eq!(memory_value(b"3 gib"), 3072);
    // too large to represent saturates
    assert_eq!(memory_value(b"18446744073709551615 b"), u64::MAX);
}

#[test]
fn memory_malformed_is_zero() {
    assert_eq!(memory_value(b"x kib"), 0);
    assert_eq!(memory_value(b"7"), 0);
    assert_eq!(memory_value(b""), 0);
}

#[test]
fn parser_keeps_only_prefixed_lines() {
    let rec = parse_record(b"drm-client-id: 42\npid: 7\nuninteresting\ndrm-pdev: 0000:03:00.0\n");
    assert_eq!(rec.pairs.len(), 2);
    assert_eq!(rec.get(b"drm-client-id").map(|v| v.as_slice()), Some(b"42".as_slice()));
    assert_eq!(rec.get(b"drm-pdev").map(|v| v.as_slice()), Some(b"0000:03:00.0".as_slice()));
    assert_eq!(rec.get(b"pid"), None);
}

#[test]
fn parser_trims_leading_blanks_of_values() {
    let rec = parse_record(b"drm-engine-render:   \t 12 ns\n");
    assert_eq!(
        rec.get(b"drm-engine-render").map(|v| v.as_slice()),
        Some(b"12 ns".as_slice())
    );
}

#[test]
fn parser_strips_carriage_returns() {
    let rec = parse_record(b"drm-client-id: 1\r\ndrm-pdev: a\r\n");
    assert_eq!(rec.get(b"drm-client-id").map(|v| v.as_slice()), Some(b"1".as_slice()));
    assert_eq!(rec.get(b"drm-pdev").map(|v| v.as_slice()), Some(b"a".as_slice()));
}

#[test]
fn parser_handles_missing_final_newline() {
    let rec = parse_record(b"drm-client-id: 9");
    assert_eq!(rec.get(b"drm-client-id").map(|v| v.as_slice()), Some(b"9".as_slice()));
}

#[test]
fn parser_later_line_shadows_earlier() {
    let rec = parse_record(b"drm-engine-render: 1 ns\ndrm-engine-render: 2 ns\n");
    assert_eq!(
        rec.get(b"drm-engine-render").map(|v| v.as_slice()),
        Some(b"2 ns".as_slice())
    );
}

#[test]
fn parser_prefixed_line_without_colon_yields_empty_pair() {
    let rec = parse_record(b"drmnocolonhere\n");
    assert_eq!(rec.pairs.len(), 1);
    assert_eq!(rec.get(b"").map(|v| v.as_slice()), Some(b"".as_slice()));
}

#[test]
fn client_id_parses_as_integer() {
    let rec = parse_record(b"drm-client-id: 42\n");
    assert_eq!(rec.client_id(), Some(42));
    let rec = parse_record(b"drm-client-id: nonsense\n");
    assert_eq!(rec.client_id(), Some(0));
    let rec = parse_record(b"drm-pdev: a\n");
    assert_eq!(rec.client_id(), None);
}

#[test]
fn comm_name_strips_trailing_newline() {
    assert_eq!(comm_name(b"bash\n"), b"bash".to_vec());
    assert_eq!(comm_name(b"bash"), b"bash".to_vec());
    assert_eq!(comm_name(b""), Vec::<u8>::new());
    assert_eq!(comm_name(b"\n"), Vec::<u8>::new());
}
