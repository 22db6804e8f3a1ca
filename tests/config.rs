use orarend::config_parser::{parse_config, trim_blanks};

fn lines(text: &[&str]) -> Vec<String> {
    text.iter().map(|s| s.to_string()).collect()
}

#[test]
fn test_config_parser() {
    let c = parse_config(&lines(&[
        "# calendar settings",
        "theme = dark",
        "  path = /home/user/NeptunCalendarExport.ics  ",
        "path=/somewhere/else.ics",
    ]));
    assert_eq!(c.ics_path, Some("/home/user/NeptunCalendarExport.ics".to_string()));
}

#[test]
fn config_without_path() {
    let c = parse_config(&lines(&["theme=dark", "pathway=/x", ""]));
    assert_eq!(c.ics_path, None);
    assert_eq!(parse_config(&Vec::new()).ics_path, None);
}

#[test]
fn config_value_stops_at_second_equals() {
    let c = parse_config(&lines(&["path=\t/a/b=c"]));
    assert_eq!(c.ics_path, Some("/a/b".to_string()));
}

#[test]
fn trim_blanks_both_ends() {
    assert_eq!(trim_blanks("  a b \t\r\n"), "a b");
    assert_eq!(trim_blanks("   "), "");
    assert_eq!(trim_blanks("x"), "x");
}

#[test]
fn config_value_trims_unicode_whitespace() {
    let c = parse_config(&lines(&["\u{a0}path\u{3000}=\u{2003}/x/cal.ics\u{b}\u{c}"]));
    assert_eq!(c.ics_path, Some("/x/cal.ics".to_string()));
    assert_eq!(trim_blanks("\u{85}a\u{2028}"), "a");
}
