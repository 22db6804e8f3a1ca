use orarend::calendar::index_of_ongoing;
use orarend::event_parser::{
    get_events_by_date, parse_events, split_line, strip_summary_suffix, Vevent,
};
use orarend::icstime::{ICSTime, ParseError, TimeStamp};
use orarend::navigation::{get_classes_by_day, get_classes_by_week, App};
use orarend::neptunclass::{get_classes, join_semicolon_exec, NeptunClass};
use orarend::text::split_on_char;

fn lines(text: &[&str]) -> Vec<String> {
    text.iter().map(|s| s.to_string()).collect()
}

fn class_at(summary: &str, start: &str, end: &str) -> NeptunClass {
    NeptunClass::new(
        summary,
        ICSTime::new(start).unwrap(),
        ICSTime::new(end).unwrap(),
        "Room 1".to_string(),
    )
    .unwrap()
}

#[test]
fn split_line_on_first_colon() {
    assert_eq!(split_line("DESCRIPTION:a:b"), Ok(("DESCRIPTION", "a:b")));
    assert_eq!(split_line("END:VEVENT"), Ok(("END", "VEVENT")));
    assert_eq!(split_line("KEY:"), Ok(("KEY", "")));
    assert_eq!(split_line("NOCOLON"), Err(ParseError::MalformedLine));
    assert_eq!(split_line(":value"), Err(ParseError::MalformedLine));
    assert_eq!(split_line(""), Err(ParseError::MalformedLine));
}

#[test]
fn two_events_on_one_day_in_start_order() {
    let text = lines(&[
        "BEGIN:VCALENDAR",
        "BEGIN:VEVENT",
        "UID:later",
        "DTSTART:20240610T101500",
        "DTEND:20240610T114500",
        "SUMMARY:Physics",
        "LOCATION:B12",
        "END:VEVENT",
        "BEGIN:VEVENT",
        "UID:earlier",
        "DTSTART:20240610T074500",
        "DTEND:20240610T083000",
        "SUMMARY:Math",
        "LOCATION:A1",
        "END:VEVENT",
        "END:VCALENDAR",
    ]);
    let parsed = parse_events(&text);
    assert_eq!(parsed.skipped, 0);
    assert_eq!(parsed.events.len(), 2);
    let day: Vec<&Vevent> = get_events_by_date(&parsed.events, (2024, 6, 10));
    assert_eq!(day.len(), 2);
    assert_eq!(day[0].summary, "Math");
    assert_eq!(day[0].location, "A1");
    assert_eq!(day[0].uid(), "earlier");
    assert_eq!((day[0].start.hour, day[0].start.min), (9, 45));
    assert_eq!((day[0].end.hour, day[0].end.min), (10, 30));
    assert_eq!(day[1].summary, "Physics");
    assert!(get_events_by_date(&parsed.events, (2024, 6, 11)).is_empty());
}

#[test]
fn equal_starts_ordered_by_end() {
    let text = lines(&[
        "BEGIN:VEVENT",
        "UID:long",
        "DTSTART:20240610T080000",
        "DTEND:20240610T100000",
        "END:VEVENT",
        "BEGIN:VEVENT",
        "UID:short",
        "DTSTART:20240610T080000",
        "DTEND:20240610T090000",
        "END:VEVENT",
    ]);
    let parsed = parse_events(&text);
    let day = get_events_by_date(&parsed.events, (2024, 6, 10));
    assert_eq!(day[0].uid(), "short");
    assert_eq!(day[1].uid(), "long");
    assert!(*day[0] != *day[1]);
    assert!(*day[0] == *day[0]);
}

#[test]
fn missing_end_does_not_hide_later_blocks() {
    let text = lines(&[
        "BEGIN:VEVENT",
        "UID:broken",
        "DTSTART:20240610T080000",
        "BEGIN:VEVENT",
        "UID:good",
        "DTSTART:20240611T080000",
        "DTEND:20240611T093000",
        "SUMMARY:Chemistry",
        "END:VEVENT",
    ]);
    let parsed = parse_events(&text);
    assert_eq!(parsed.skipped, 1);
    assert_eq!(parsed.events.len(), 1);
    assert_eq!(parsed.events[0].uid(), "good");
    assert_eq!(parsed.events[0].summary, "Chemistry");
}

#[test]
fn malformed_blocks_are_skipped_and_counted() {
    let text = lines(&[
        "garbage outside any block",
        "BEGIN:VEVENT",
        "no delimiter here",
        "DTSTART:20240610T080000",
        "DTEND:20240610T090000",
        "END:VEVENT",
        "BEGIN:VEVENT",
        "DTSTART:2024-06-10",
        "DTEND:20240610T090000",
        "END:VEVENT",
        "BEGIN:VEVENT",
        "DTSTART:20240610T080000",
        "END:VEVENT",
        "BEGIN:VEVENT",
        "DTSTART:20240612T080000",
        "DTEND:20240612T090000",
        "X-UNKNOWN:ignored",
        "END:VEVENT",
        "BEGIN:VEVENT",
        "DTSTART:20240613T080000",
    ]);
    let parsed = parse_events(&text);
    assert_eq!(parsed.skipped, 4);
    assert_eq!(parsed.events.len(), 1);
    assert_eq!(parsed.events[0].start.day, 12);
    assert_eq!(parsed.events[0].summary, "");
}

#[test]
fn composite_summary_decomposes() {
    let c = class_at(
        "Algebra ( - ALG101) - J.Smith;K.Doe - extra",
        "20240610T080000",
        "20240610T093000",
    );
    assert_eq!(c.name, "Algebra");
    assert_eq!(c.code, "ALG101");
    assert_eq!(c.teachers, vec!["J.Smith".to_string(), "K.Doe".to_string()]);
    assert_eq!(c.location, "Room 1");
    let same_code = class_at("Other name ( - ALG101) - X", "20240611T080000", "20240611T093000");
    assert!(c == same_code);
    let other_code = class_at("Algebra ( - ALG102) - J.Smith", "20240610T080000", "20240610T093000");
    assert!(c != other_code);
}

#[test]
fn composite_summary_missing_separators() {
    let t = ICSTime::new("20240610T080000").unwrap();
    let r = NeptunClass::new("Algebra - ALG101", t, t, String::new());
    assert!(matches!(r, Err(ParseError::MissingField)));
    let r = NeptunClass::new("Algebra ( - ALG101 J.Smith", t, t, String::new());
    assert!(matches!(r, Err(ParseError::MissingField)));
    let c = NeptunClass::new("Algebra ( - ALG101) - J.Smith", t, t, String::new()).unwrap();
    assert_eq!(c.teachers, vec!["J.Smith".to_string()]);
}

#[test]
fn split_and_join_on_semicolon() {
    assert_eq!(split_on_char("a;b;;c", ";"), vec!["a", "b", "", "c"]);
    assert_eq!(split_on_char("", ";"), vec![""]);
    let parts = vec!["x".to_string(), "y".to_string(), "z".to_string()];
    assert_eq!(join_semicolon_exec(&parts), "x;y;z");
    assert_eq!(join_semicolon_exec(&Vec::new()), "");
}

#[test]
fn string_array_columns() {
    let c = class_at(
        "Algebra ( - ALG101) - J.Smith;K.Doe - extra",
        "20240610T074500",
        "20240610T083000",
    );
    let a = c.string_array();
    assert_eq!(a[0], "Algebra");
    assert_eq!(a[1], "ALG101");
    assert_eq!(a[2], "09:45 - 10:30");
    assert_eq!(a[3], "Room 1");
    assert_eq!(a[4], "J.Smith;K.Doe");
}

#[test]
fn classes_from_events_keep_decomposable_summaries() {
    let text = lines(&[
        "BEGIN:VEVENT",
        "DTSTART:20240610T080000",
        "DTEND:20240610T090000",
        "SUMMARY:Algebra ( - ALG101) - J.Smith - Tanóra",
        "LOCATION:A1",
        "END:VEVENT",
        "BEGIN:VEVENT",
        "DTSTART:20240610T100000",
        "DTEND:20240610T110000",
        "SUMMARY:Holiday ( - H1) - Nobody - Szünet",
        "END:VEVENT",
    ]);
    let parsed = parse_events(&text);
    let classes = get_classes(&parsed.events);
    assert_eq!(classes.len(), 1);
    assert_eq!(classes[0].code, "ALG101");
    assert_eq!(classes[0].location, "A1");
}

#[test]
fn ongoing_index_first_match() {
    let a = class_at("A ( - A1) - T", "20240610T060000", "20240610T073000");
    let b = class_at("B ( - B1) - T", "20240610T080000", "20240610T093000");
    let c = class_at("C ( - C1) - T", "20240610T083000", "20240610T100000");
    let list = vec![&a, &b, &c];
    // a: 08:00-09:30, b: 10:00-11:30, c: 10:30-12:00 after the offset
    assert_eq!(index_of_ongoing(&list, TimeStamp { h: 8, m: 30 }), Some(0));
    assert_eq!(index_of_ongoing(&list, TimeStamp { h: 9, m: 45 }), None);
    assert_eq!(index_of_ongoing(&list, TimeStamp { h: 10, m: 45 }), Some(1));
    assert_eq!(index_of_ongoing(&list, TimeStamp { h: 11, m: 45 }), Some(2));
    assert_eq!(index_of_ongoing(&list, TimeStamp { h: 10, m: 0 }), Some(1));
    assert_eq!(index_of_ongoing(&list, TimeStamp { h: 13, m: 0 }), None);
}

#[test]
fn week_query_across_month_boundary() {
    let classes = vec![
        class_at("Sun ( - S) - T", "20240728T080000", "20240728T090000"),
        class_at("Fri ( - F) - T", "20240802T080000", "20240802T090000"),
        class_at("Mon ( - M) - T", "20240729T100000", "20240729T110000"),
        class_at("Sun2 ( - S2) - T", "20240804T080000", "20240804T090000"),
        class_at("Next ( - N) - T", "20240805T080000", "20240805T090000"),
        class_at("Mon2 ( - M2) - T", "20240729T080000", "20240729T090000"),
    ];
    let week = get_classes_by_week(&classes, (2024, 7, 31));
    let codes: Vec<&str> = week.iter().map(|c| c.code.as_str()).collect();
    assert_eq!(codes, vec!["M2", "M", "F", "S2"]);
    let day = get_classes_by_day(&classes, (2024, 7, 29));
    let codes: Vec<&str> = day.iter().map(|c| c.code.as_str()).collect();
    assert_eq!(codes, vec!["M2", "M"]);
}

#[test]
fn day_view_rows_wrap_and_clamp() {
    let classes = vec![
        class_at("A ( - A) - T", "20240610T080000", "20240610T090000"),
        class_at("B ( - B) - T", "20240610T100000", "20240610T110000"),
        class_at("C ( - C) - T", "20240611T100000", "20240611T110000"),
    ];
    let mut app = App::new(classes, (2024, 6, 10));
    assert_eq!(app.selected_classes, 2);
    assert_eq!(app.selected, Some(0));
    app.next_row();
    assert_eq!(app.selected, Some(1));
    app.next_row();
    assert_eq!(app.selected, Some(0));
    app.prev_row();
    assert_eq!(app.selected, Some(1));
    app.next_day();
    assert_eq!(app.selected_date, (2024, 6, 11));
    assert_eq!(app.selected_classes, 1);
    assert_eq!(app.selected, Some(0));
    app.next_day();
    assert_eq!(app.selected_classes, 0);
    assert_eq!(app.selected, None);
    app.next_row();
    assert_eq!(app.selected, None);
    app.prev_day();
    app.prev_day();
    assert_eq!(app.selected_date, (2024, 6, 10));
    app.next_row();
    assert_eq!(app.selected, Some(0));
    let day = app.classes_of_day();
    assert_eq!(day.len(), 2);
}

#[test]
fn summary_suffix_rule() {
    assert_eq!(strip_summary_suffix("Algebra - Tanóra", " - Tanóra"), "Algebra");
    assert_eq!(strip_summary_suffix("Algebra", " - Tanóra"), "Algebra");
    assert_eq!(strip_summary_suffix("", "x"), "");
}

#[test]
fn texts_of_records() {
    let text = lines(&[
        "BEGIN:VEVENT",
        "UID:abc-1",
        "DTSTART:20240610T074500",
        "DTEND:20240610T083000",
        "SUMMARY:Math",
        "LOCATION:A1",
        "END:VEVENT",
    ]);
    let parsed = parse_events(&text);
    assert_eq!(
        parsed.events[0].to_text(),
        "abc-1\nMath\nA1\nHétfő, 2024.06.10. 09:45\nHétfő, 2024.06.10. 10:30"
    );
    let c = class_at("Alg ( - A1) - T1;T2 - x", "20240610T074500", "20240610T083000");
    assert_eq!(c.to_text(), "===\nAlg\nA1\n09:45 - 10:30\nRoom 1\nT1;T2\n===");
    assert_eq!(TimeStamp { h: 7, m: 5 }.to_text(), "07:05");
    assert_eq!(TimeStamp { h: 123, m: 45 }.to_text(), "123:45");
}

#[test]
fn composite_summary_splits_the_remainder() {
    let t = ICSTime::new("20240610T080000").unwrap();
    let c = NeptunClass::new("A ( - B ( - C) - D", t, t, String::new()).unwrap();
    assert_eq!(c.name, "A");
    assert_eq!(c.code, "B ( - C");
    assert_eq!(c.teachers, vec!["D".to_string()]);
    let c = NeptunClass::new("N ( - C) - T1) - y", t, t, String::new()).unwrap();
    assert_eq!(c.code, "C");
    assert_eq!(c.teachers, vec!["T1)".to_string()]);
}

#[test]
fn lesson_suffix_stripped_when_parsing() {
    let text = lines(&[
        "BEGIN:VEVENT",
        "DTSTART:20240610T080000",
        "DTEND:20240610T090000",
        "SUMMARY:Algebra ( - ALG101) - J.Smith - Tanóra",
        "END:VEVENT",
        "BEGIN:VEVENT",
        "DTSTART:20240610T100000",
        "DTEND:20240610T110000",
        "SUMMARY:Math",
        "END:VEVENT",
    ]);
    let parsed = parse_events(&text);
    assert_eq!(parsed.events[0].summary, "Algebra ( - ALG101) - J.Smith");
    assert!(parsed.events[0].lesson);
    assert_eq!(parsed.events[1].summary, "Math");
    assert!(!parsed.events[1].lesson);
}

#[test]
fn unterminated_block_is_skipped_not_merged() {
    let text = lines(&[
        "BEGIN:VEVENT",
        "DTSTART:20240610T074500",
        "LOCATION:X",
        "BEGIN:VEVENT",
        "DTSTART:20240611T080000",
        "DTEND:20240611T093000",
        "LOCATION:A1",
        "END:VEVENT",
    ]);
    let parsed = parse_events(&text);
    assert_eq!(parsed.skipped, 1);
    assert_eq!(parsed.events.len(), 1);
    let e = &parsed.events[0];
    assert_eq!(e.start, ICSTime::new("20240611T080000").unwrap());
    assert_eq!(e.end, ICSTime::new("20240611T093000").unwrap());
    assert_eq!(e.location, "A1");
}

#[test]
fn classes_after_a_malformed_event() {
    let text = lines(&[
        "BEGIN:VEVENT",
        "DTSTART:20240610T080000",
        "SUMMARY:Broken ( - B1) - T - Tanóra",
        "END:VEVENT",
        "BEGIN:VEVENT",
        "DTSTART:20240610T100000",
        "DTEND:20240610T110000",
        "SUMMARY:Exam ( - E1) - T - Vizsga",
        "END:VEVENT",
        "BEGIN:VEVENT",
        "DTSTART:20240611T080000",
        "DTEND:20240611T090000",
        "SUMMARY:Algebra ( - ALG101) - J.Smith - Tanóra",
        "LOCATION:A1",
        "END:VEVENT",
        "BEGIN:VEVENT",
        "DTSTART:20240612T080000",
        "DTEND:20240612T090000",
        "SUMMARY:Physics ( - PHY1) - K.Doe - Tanóra",
        "END:VEVENT",
    ]);
    let parsed = parse_events(&text);
    assert_eq!(parsed.skipped, 1);
    let classes = get_classes(&parsed.events);
    let codes: Vec<&str> = classes.iter().map(|c| c.code.as_str()).collect();
    assert_eq!(codes, vec!["ALG101", "PHY1"]);
    assert_eq!(classes[0].teachers, vec!["J.Smith".to_string()]);
    assert_eq!(classes[1].location, "");
}

#[test]
fn week_query_for_a_wednesday_only_that_week() {
    let classes = vec![
        class_at("Before ( - B) - T", "20240930T080000", "20240930T090000"),
        class_at("Mon ( - M) - T", "20241007T080000", "20241007T090000"),
        class_at("Wed ( - W) - T", "20241009T080000", "20241009T090000"),
        class_at("Sun ( - S) - T", "20241013T080000", "20241013T090000"),
        class_at("After ( - A) - T", "20241014T080000", "20241014T090000"),
    ];
    let week = get_classes_by_week(&classes, (2024, 10, 9));
    let codes: Vec<&str> = week.iter().map(|c| c.code.as_str()).collect();
    assert_eq!(codes, vec!["M", "W", "S"]);
}

#[test]
fn truncation_counts_grapheme_clusters() {
    assert_eq!(orarend::text::truncate_string("e\u{301}abc", 1), "e\u{301}...");
    assert_eq!(orarend::text::truncate_string("abc", 3), "abc");
    assert_eq!(orarend::text::truncate_string("abcd", 3), "abc...");
    assert_eq!(orarend::text::truncate_string("", 0), "");
    let g = vec!["x".to_string(), "y".to_string(), "z".to_string()];
    assert_eq!(orarend::text::truncate_graphemes(&g, "xyz", 2), "xy...");
    assert_eq!(orarend::text::truncate_graphemes(&g, "xyz", 3), "xyz");
}
