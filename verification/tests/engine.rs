use calendar_timeline::civil::Instant;
use calendar_timeline::record::normalize;
use calendar_timeline::record::NormalizeError;
use calendar_timeline::record::RawEventRecord;
use calendar_timeline::recurrence::expand_occurrences;
use calendar_timeline::timeline::build_timeline;
use calendar_timeline::timeline::process_records;
use calendar_timeline::timeline::window_bounds;

fn record(fields: &[(&str, &str)]) -> RawEventRecord {
    RawEventRecord {
        fields: fields.iter().map(|(k, v)| (k.to_string(), v.to_string())).collect(),
    }
}

#[test]
fn normalizer_applies_defaults() {
    let rec = record(&[("DTSTART", "2024-03-10"), ("DTEND", "2024-03-10")]);
    let (draft, rule) = normalize(&rec).unwrap();
    assert!(rule.is_none());
    assert_eq!(draft.name, "Unknown Event");
    assert_eq!(draft.location, "No location");
    assert_eq!(draft.notes, "");
    assert_eq!(draft.start.secs, 1710028800);
    assert_eq!(draft.end.secs, 1710028800);
}

#[test]
fn normalizer_keeps_given_fields() {
    let rec = record(&[
        ("DTSTART", "2024-03-10"),
        ("DTEND", "2024-03-11"),
        ("SUMMARY", "Picnic"),
        ("LOCATION", "Park"),
        ("DESCRIPTION", "Bring food"),
    ]);
    let (draft, _) = normalize(&rec).unwrap();
    assert_eq!(draft.name, "Picnic");
    assert_eq!(draft.location, "Park");
    assert_eq!(draft.notes, "Bring food");
}

#[test]
fn normalizer_missing_start_field() {
    let rec = record(&[("DTEND", "2024-03-10")]);
    assert_eq!(normalize(&rec).unwrap_err(), NormalizeError::MissingRequiredField);
}

#[test]
fn normalizer_missing_end_field() {
    let rec = record(&[("DTSTART", "2024-03-10")]);
    assert_eq!(normalize(&rec).unwrap_err(), NormalizeError::MissingRequiredField);
}

#[test]
fn normalizer_malformed_timestamp() {
    let rec = record(&[("DTSTART", "2024-33-10"), ("DTEND", "2024-03-10")]);
    assert_eq!(normalize(&rec).unwrap_err(), NormalizeError::MalformedTimestamp);
}

#[test]
fn normalizer_malformed_rule() {
    let rec = record(&[
        ("DTSTART", "2024-01-01T09:00:00Z"),
        ("DTEND", "2024-01-01T10:00:00Z"),
        ("RRULE", "NOT A RULE"),
    ]);
    assert_eq!(normalize(&rec).unwrap_err(), NormalizeError::MalformedRecurrenceRule);
}

#[test]
fn normalizer_accepts_weekly_rule() {
    let rec = record(&[
        ("DTSTART", "2024-01-01T09:00:00Z"),
        ("DTEND", "2024-01-01T10:00:00Z"),
        ("RRULE", "FREQ=WEEKLY"),
    ]);
    let (draft, rule) = normalize(&rec).unwrap();
    let rule = rule.unwrap();
    assert_eq!(rule.anchor.secs, draft.start.secs);
    assert_eq!(rule.text, "FREQ=WEEKLY");
}

#[test]
fn single_record_in_window() {
    // One non-recurring record; the timeline holds one entry at midnight UTC.
    let recs = vec![record(&[("DTSTART", "2024-03-10"), ("DTEND", "2024-03-10")])];
    let ws = Instant { secs: 1710028800 - 7 * 86400 };
    let we = Instant { secs: 1710028800 + 7 * 86400 };
    let timeline = process_records(&recs, ws, we);
    assert_eq!(timeline.len(), 1);
    assert_eq!(timeline[0].start.secs, 1710028800);
    assert_eq!(timeline[0].end.secs, 1710028800);
    assert_eq!(timeline[0].name, "Unknown Event");
}

#[test]
fn weekly_rule_three_occurrences() {
    // Weekly rule anchored 2024-01-01T09:00:00Z, one hour long, in a window
    // spanning three of its weeks: exactly three occurrences, each one hour
    // long, seven days apart.
    let recs = vec![record(&[
        ("DTSTART", "2024-01-01T09:00:00Z"),
        ("DTEND", "2024-01-01T10:00:00Z"),
        ("SUMMARY", "Standup"),
        ("RRULE", "FREQ=WEEKLY"),
    ])];
    let ws = Instant { secs: 1703980800 }; // 2023-12-31 00:00:00Z
    let we = Instant { secs: 1705708800 }; // 2024-01-20 00:00:00Z
    let timeline = process_records(&recs, ws, we);
    assert_eq!(timeline.len(), 3);
    for (k, occ) in timeline.iter().enumerate() {
        assert_eq!(occ.start.secs, 1704099600 + (k as i64) * 7 * 86400);
        assert_eq!(occ.end.secs - occ.start.secs, 3600);
        assert_eq!(occ.name, "Standup");
    }
}

#[test]
fn duplicate_records_stay_duplicated() {
    // The same event from two source calendars appears twice.
    let rec = [("DTSTART", "2024-03-10"), ("DTEND", "2024-03-10"), ("SUMMARY", "Twice")];
    let recs = vec![record(&rec), record(&rec)];
    let ws = Instant { secs: 1710028800 - 7 * 86400 };
    let we = Instant { secs: 1710028800 + 7 * 86400 };
    let timeline = process_records(&recs, ws, we);
    assert_eq!(timeline.len(), 2);
    assert_eq!(timeline[0].name, "Twice");
    assert_eq!(timeline[1].name, "Twice");
}

#[test]
fn record_missing_end_is_dropped_alone() {
    // A record without its end time is dropped; its sibling survives.
    let recs = vec![
        record(&[("DTSTART", "2024-03-10"), ("SUMMARY", "Broken")]),
        record(&[("DTSTART", "2024-03-11"), ("DTEND", "2024-03-11"), ("SUMMARY", "Fine")]),
    ];
    let ws = Instant { secs: 1710028800 - 7 * 86400 };
    let we = Instant { secs: 1710028800 + 7 * 86400 };
    let timeline = process_records(&recs, ws, we);
    assert_eq!(timeline.len(), 1);
    assert_eq!(timeline[0].name, "Fine");
}

#[test]
fn window_bounds_are_exclusive() {
    let mk = |secs: i64| calendar_timeline::record::Occurrence {
        start: Instant { secs },
        end: Instant { secs },
        name: String::new(),
        location: String::new(),
        notes: String::new(),
    };
    let ws: i64 = 1000000;
    let we: i64 = 2000000;
    let events = vec![mk(ws), mk(ws + 1), mk(we - 1), mk(we)];
    let timeline = build_timeline(events, Instant { secs: ws }, Instant { secs: we });
    assert_eq!(timeline.len(), 2);
    assert_eq!(timeline[0].start.secs, ws + 1);
    assert_eq!(timeline[1].start.secs, we - 1);
}

#[test]
fn timeline_is_idempotent() {
    let recs = vec![
        record(&[("DTSTART", "2024-03-12"), ("DTEND", "2024-03-12"), ("SUMMARY", "B")]),
        record(&[("DTSTART", "2024-03-10"), ("DTEND", "2024-03-10"), ("SUMMARY", "A")]),
        record(&[
            ("DTSTART", "2024-03-01T08:00:00Z"),
            ("DTEND", "2024-03-01T09:30:00Z"),
            ("RRULE", "FREQ=DAILY"),
        ]),
    ];
    let ws = Instant { secs: 1710028800 - 7 * 86400 };
    let we = Instant { secs: 1710028800 + 7 * 86400 };
    let once = process_records(&recs, ws, we);
    let again = build_timeline(
        once.iter().map(|o| o.duplicate()).collect(),
        ws,
        we,
    );
    assert_eq!(once.len(), again.len());
    for (a, b) in once.iter().zip(again.iter()) {
        assert_eq!(a.start.secs, b.start.secs);
        assert_eq!(a.end.secs, b.end.secs);
        assert_eq!(a.name, b.name);
        assert_eq!(a.location, b.location);
        assert_eq!(a.notes, b.notes);
    }
}

#[test]
fn timeline_is_sorted_with_stable_ties() {
    let recs = vec![
        record(&[("DTSTART", "2024-03-12"), ("DTEND", "2024-03-12"), ("SUMMARY", "late")]),
        record(&[("DTSTART", "2024-03-10"), ("DTEND", "2024-03-10"), ("SUMMARY", "first")]),
        record(&[("DTSTART", "2024-03-10"), ("DTEND", "2024-03-10"), ("SUMMARY", "second")]),
    ];
    let ws = Instant { secs: 1710028800 - 7 * 86400 };
    let we = Instant { secs: 1710028800 + 7 * 86400 };
    let timeline = process_records(&recs, ws, we);
    assert_eq!(timeline.len(), 3);
    assert_eq!(timeline[0].name, "first");
    assert_eq!(timeline[1].name, "second");
    assert_eq!(timeline[2].name, "late");
}

#[test]
fn unbounded_daily_rule_is_capped() {
    // A daily rule with no end over a two-year window never exceeds 256
    // occurrences.
    let rec = record(&[
        ("DTSTART", "2024-01-01T09:00:00Z"),
        ("DTEND", "2024-01-01T10:00:00Z"),
        ("RRULE", "FREQ=DAILY"),
    ]);
    let (draft, rule) = normalize(&rec).unwrap();
    let rule = rule.unwrap();
    let ws = Instant { secs: 1704067200 };
    let we = Instant { secs: 1704067200 + 730 * 86400 };
    let occs = expand_occurrences(&draft, &rule, ws, we).unwrap();
    assert_eq!(occs.len(), 256);
    for o in occs.iter() {
        assert_eq!(o.end.secs - o.start.secs, 3600);
    }
    let timeline = process_records(&vec![rec], ws, we);
    assert!(timeline.len() <= 256);
}

#[test]
fn duration_preserved_across_dst_style_boundaries() {
    // A daily 90-minute event expanded across a month keeps its duration at
    // every occurrence.
    let recs = vec![record(&[
        ("DTSTART", "2024-03-01T08:00:00Z"),
        ("DTEND", "2024-03-01T09:30:00Z"),
        ("RRULE", "FREQ=DAILY"),
    ])];
    let ws = Instant { secs: 1709164800 }; // 2024-02-29
    let we = Instant { secs: 1712102400 }; // 2024-04-03
    let timeline = process_records(&recs, ws, we);
    assert!(timeline.len() > 25);
    for o in timeline.iter() {
        assert_eq!(o.end.secs - o.start.secs, 5400);
    }
}

#[test]
fn count_limited_rule_stops_early() {
    let recs = vec![record(&[
        ("DTSTART", "2024-01-01T09:00:00Z"),
        ("DTEND", "2024-01-01T10:00:00Z"),
        ("RRULE", "FREQ=DAILY;COUNT=2"),
    ])];
    let ws = Instant { secs: 1703980800 };
    let we = Instant { secs: 1705708800 };
    let timeline = process_records(&recs, ws, we);
    assert_eq!(timeline.len(), 2);
    assert_eq!(timeline[0].start.secs, 1704099600);
    assert_eq!(timeline[1].start.secs, 1704099600 + 86400);
}

#[test]
fn expansion_stays_inside_window() {
    // The rule is anchored well before the window; only instants inside the
    // window reach the timeline.
    let recs = vec![record(&[
        ("DTSTART", "2023-01-02T09:00:00Z"),
        ("DTEND", "2023-01-02T09:30:00Z"),
        ("RRULE", "FREQ=WEEKLY"),
    ])];
    let ws = Instant { secs: 1704067200 }; // 2024-01-01
    let we = Instant { secs: 1705276800 }; // 2024-01-15
    let timeline = process_records(&recs, ws, we);
    assert_eq!(timeline.len(), 2);
    for o in timeline.iter() {
        assert!(ws.secs < o.start.secs && o.start.secs < we.secs);
    }
}

#[test]
fn window_bounds_fixed_offsets() {
    let now = Instant { secs: 1710028800 };
    let (ws, we) = window_bounds(now);
    assert_eq!(ws.secs, 1710028800 - 14 * 86400);
    assert_eq!(we.secs, 1710028800 + 7 * 86400);
}
