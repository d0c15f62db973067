use parse_pause::cli::chapter_threshold;
use parse_pause::cli::parse_u32;
use parse_pause::cli::part_threshold;
use parse_pause::cli::split_threshold;
use parse_pause::codec::decode_duration;
use parse_pause::codec::duration2string;
use parse_pause::codec::u64_to_string;
use parse_pause::render::render_json;
use parse_pause::run_compare;
use parse_pause::segmenter::Segment;
use parse_pause::run_parse_pause;
use parse_pause::segmenter::segment_markers;
use parse_pause::segmenter::SilenceMarker;
use parse_pause::segmenter::TimingError;

#[test]
fn decode_subminute_literal() {
    let (value, message) = decode_duration("PT9.123S");
    assert_eq!(value, Some(9123));
    assert!(message.is_none());
}

#[test]
fn encode_decode_round_trip_subminute() {
    let (value, _) = decode_duration("PT9.123S");
    assert_eq!(duration2string(value.unwrap()), "PT9.123S");
}

#[test]
fn decode_full_calendar_literal() {
    let (value, message) = decode_duration("PT1H1M1.5S");
    assert_eq!(value, Some(3661500));
    assert!(message.is_none());
}

#[test]
fn decode_ignores_calendar_date_fields() {
    let (value, message) = decode_duration("P1Y2M3DT4H5M6S");
    assert_eq!(value, Some((4 * 3600 + 5 * 60 + 6) * 1000));
    assert!(message.is_none());
}

#[test]
fn encode_omits_zero_higher_units() {
    assert_eq!(duration2string(3661000), "PT1H1M1.000S");
    assert_eq!(duration2string(500), "PT0.500S");
}

#[test]
fn encode_pads_milliseconds_to_three_digits() {
    assert_eq!(duration2string(0), "PT0.000S");
    assert_eq!(duration2string(1), "PT0.001S");
    assert_eq!(duration2string(42), "PT0.042S");
    assert_eq!(duration2string(60000), "PT1M0.000S");
    assert_eq!(duration2string(3600000), "PT1H0.000S");
}

#[test]
fn decode_weeks_form_contributes_nothing() {
    let (value, message) = decode_duration("P2W");
    assert_eq!(value, None);
    assert_eq!(message.as_deref(), Some("weeks: 2"));
}

#[test]
fn decode_malformed_literal_reports_and_defaults() {
    let (value, message) = decode_duration("bogus");
    assert_eq!(value, None);
    assert_eq!(
        message.as_deref(),
        Some("Invalid date: Failed to parse duration: bogus")
    );
}

#[test]
fn u64_rendering_is_decimal() {
    assert_eq!(u64_to_string(0), "0");
    assert_eq!(u64_to_string(105), "105");
    assert_eq!(u64_to_string(18446744073709551615), "18446744073709551615");
}

#[test]
fn parse_u32_accepts_digits_and_plus_sign() {
    assert_eq!(parse_u32("0"), Some(0));
    assert_eq!(parse_u32("42"), Some(42));
    assert_eq!(parse_u32("+42"), Some(42));
    assert_eq!(parse_u32("4294967295"), Some(4294967295));
}

#[test]
fn parse_u32_rejects_malformed_and_overflowing_text() {
    assert_eq!(parse_u32(""), None);
    assert_eq!(parse_u32("+"), None);
    assert_eq!(parse_u32("-1"), None);
    assert_eq!(parse_u32("1x"), None);
    assert_eq!(parse_u32("4294967296"), None);
    assert_eq!(parse_u32("99999999999999999999"), None);
}

#[test]
fn thresholds_fall_back_on_unparseable_flags() {
    assert_eq!(chapter_threshold("x"), 3000);
    assert_eq!(part_threshold("x", 3000), 1);
    assert_eq!(split_threshold("x"), 300000);
}

#[test]
fn thresholds_scale_seconds_to_milliseconds() {
    assert_eq!(chapter_threshold("3"), 3000);
    assert_eq!(part_threshold("1", 3000), 1000);
    assert_eq!(split_threshold("300"), 300000);
}

#[test]
fn part_threshold_overridden_by_mismatched_unit_comparison() {
    // The raw seconds value is compared against the chapter threshold's
    // millisecond count; above it, the part threshold drops to one second
    // below the chapter threshold.
    assert_eq!(part_threshold("5000", 3000), 2000);
    assert_eq!(part_threshold("2999", 3000), 2999000);
}

#[test]
fn part_threshold_with_zero_chapter_threshold_saturates() {
    assert_eq!(part_threshold("5", 0), 0);
}

#[test]
fn absent_chapter_total_defaults_to_one_millisecond() {
    let segments = vec![Segment {
        chapter: 7,
        part: 1,
        offset_ms: 0,
        duration_ms: 0,
    }];
    let totals = vec![];
    let out = render_json(&segments, &totals);
    assert_eq!(
        out,
        "{\"segments\": [{\"title\": \"Chapter 7, part 1\", \"offset\": \"PT0.000S\", \
         \"part_duration\": \"PT0.000S\", \"chapter_duration\": \"PT0.001S\"}]}"
    );
}

#[test]
fn no_silence_elements_yield_one_segment() {
    let doc = b"<recording></recording>";
    let out = run_parse_pause(doc, "3", "1", "300").unwrap();
    let expected = "{\"segments\": [\
        {\"title\": \"Chapter 1, part 1\", \"offset\": \"PT0.000S\", \
        \"part_duration\": \"PT0.000S\", \"chapter_duration\": \"PT0.000S\"}\
        ]}1, PT0.000S\n";
    assert_eq!(out, expected);
}

#[test]
fn chapter_transition_yields_two_segments() {
    let doc = b"<r><silence from=\"PT10S\" until=\"PT20S\"/></r>";
    let out = run_parse_pause(doc, "3", "1", "300").unwrap();
    let expected = "{\"segments\": [\
        {\"title\": \"Chapter 1, part 1\", \"offset\": \"PT0.000S\", \
        \"part_duration\": \"PT0.000S\", \"chapter_duration\": \"PT20.000S\"},\
        {\"title\": \"Chapter 2, part 1\", \"offset\": \"PT0.000S\", \
        \"part_duration\": \"PT20.000S\", \"chapter_duration\": \"PT0.000S\"}\
        ]}1, PT20.000S\n2, PT0.000S\n";
    assert_eq!(out, expected);
}

#[test]
fn part_transition_increments_part_only() {
    let doc = b"<r><silence from=\"PT10S\" until=\"PT12S\"/></r>";
    let out = run_parse_pause(doc, "3", "1", "300").unwrap();
    let expected = "{\"segments\": [\
        {\"title\": \"Chapter 1, part 1\", \"offset\": \"PT0.000S\", \
        \"part_duration\": \"PT0.000S\", \"chapter_duration\": \"PT0.000S\"},\
        {\"title\": \"Chapter 1, part 2\", \"offset\": \"PT0.000S\", \
        \"part_duration\": \"PT12.000S\", \"chapter_duration\": \"PT0.000S\"}\
        ]}1, PT0.000S\n";
    assert_eq!(out, expected);
}

#[test]
fn segment_durations_sum_to_elapsed_time() {
    let markers = vec![
        SilenceMarker {
            from_ms: 1000,
            until_ms: 2000,
        },
        SilenceMarker {
            from_ms: 5000,
            until_ms: 9000,
        },
        SilenceMarker {
            from_ms: 12000,
            until_ms: 12500,
        },
    ];
    let (segments, totals) = segment_markers(&markers, 3000, 1, 300000).unwrap();
    let sum: u64 = segments.iter().map(|s| s.duration_ms).sum();
    assert_eq!(sum, 12500);
    assert_eq!(segments.len(), 4);
    assert_eq!(totals.len(), 2);
    assert_eq!(totals[0].chapter, 1);
    assert_eq!(totals[0].duration_ms, 9000);
    assert_eq!(totals[1].chapter, 2);
    assert_eq!(totals[1].duration_ms, 7000);
}

#[test]
fn inconsistent_markers_are_diagnosed() {
    let markers = vec![SilenceMarker {
        from_ms: 5000,
        until_ms: 1000,
    }];
    let r = segment_markers(&markers, 3000, 1, 300000);
    assert_eq!(r.unwrap_err(), TimingError::Inconsistent);
    assert_eq!(TimingError::Inconsistent.message(), "inconsistent timing data");
}

#[test]
fn out_of_order_report_is_diagnosed() {
    let doc = b"<r><silence from=\"PT20S\" until=\"PT30S\"/>\
                <silence from=\"PT5S\" until=\"PT6S\"/></r>";
    let r = run_parse_pause(doc, "3", "1", "300");
    assert_eq!(r.unwrap_err(), TimingError::Inconsistent);
}

#[test]
fn inspector_prints_raw_attribute_pairs() {
    let doc = b"<r><silence from=\"PT1S\" until=\"PT2S\"/></r>";
    assert_eq!(run_compare(doc), "silence:from=PT1S:until=PT2S\n");
}

#[test]
fn inspector_ignores_other_elements() {
    let doc = b"<r><pause from=\"PT1S\"/><silence from=\"PT1S\" until=\"PT2S\"/>\
                <silence note=\"x\"/></r>";
    assert_eq!(
        run_compare(doc),
        "silence:from=PT1S:until=PT2S\nsilence:note=x\n"
    );
}

#[test]
fn malformed_literal_does_not_abort_the_run() {
    let doc = b"<r><silence from=\"bogus\" until=\"PT2S\"/></r>";
    let out = run_parse_pause(doc, "3", "1", "300").unwrap();
    assert!(out.starts_with("Invalid date: Failed to parse duration: bogus"));
    assert!(out.contains("\"segments\""));
}

#[test]
fn stream_error_keeps_collected_markers() {
    let doc = b"<r><silence from=\"PT10S\" until=\"PT20S\"/><oops";
    let out = run_parse_pause(doc, "3", "1", "300").unwrap();
    assert!(out.contains("Error: "));
    assert!(out.contains("\"Chapter 2, part 1\""));
}

#[test]
fn inspector_reports_stream_error() {
    let doc = b"<r><silence from=\"PT1S\" until=\"PT2S\"/><oops";
    let out = run_compare(doc);
    assert!(out.starts_with("silence:from=PT1S:until=PT2S\n"));
    assert!(out.contains("Error: "));
}

#[test]
fn json_has_no_stray_commas_for_single_segment() {
    let doc = b"<recording/>";
    let out = run_parse_pause(doc, "3", "1", "300").unwrap();
    assert!(out.contains("[{\""));
    assert!(out.contains("\"}]"));
    assert!(!out.contains("[,"));
    assert!(!out.contains(",]"));
    assert!(!out.contains("},{"));
}

#[test]
fn json_separates_segments_with_single_commas() {
    let doc = b"<r><silence from=\"PT10S\" until=\"PT20S\"/>\
                <silence from=\"PT30S\" until=\"PT40S\"/></r>";
    let out = run_parse_pause(doc, "3", "1", "300").unwrap();
    let json_end = out.find("]}").unwrap() + 2;
    let json = &out[..json_end];
    assert_eq!(json.matches("},{").count(), 2);
    assert!(!json.contains("[,"));
    assert!(!json.contains(",]"));
    assert!(json.ends_with("\"}]}"));
}
