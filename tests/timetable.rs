use orarend::icstime::ICSTime;
use orarend::neptunclass::NeptunClass;
use orarend::timetable::{TimeTable, TimeTableNavigation, TimeTableState};

fn class_at(code: &str, start: &str, end: &str) -> NeptunClass {
    let summary = format!("Name ( - {}) - Teacher - rest", code);
    NeptunClass::new(
        &summary,
        ICSTime::new(start).unwrap(),
        ICSTime::new(end).unwrap(),
        String::new(),
    )
    .unwrap()
}

fn codes(tt: &TimeTable, day: usize) -> Vec<String> {
    tt.classes[day].iter().map(|c| c.code.clone()).collect()
}

#[test]
fn grid_columns_by_weekday_sorted_by_start() {
    // 2024-06-10 is a Monday; the hours below are shifted by two
    let classes = vec![
        class_at("MON-LATE", "20240610T100000", "20240610T113000"),
        class_at("WED", "20240612T080000", "20240612T093000"),
        class_at("MON-EARLY", "20240610T060000", "20240610T073000"),
        class_at("SAT", "20240615T080000", "20240615T093000"),
        class_at("MON-EARLY-2", "20240610T060000", "20240610T070000"),
        class_at("FRI", "20240614T080000", "20240614T093000"),
    ];
    let refs: Vec<&NeptunClass> = classes.iter().collect();
    let tt = TimeTable::from_classes(refs);
    assert_eq!(tt.classes.len(), 5);
    assert_eq!(codes(&tt, 0), vec!["MON-EARLY", "MON-EARLY-2", "MON-LATE"]);
    assert!(codes(&tt, 1).is_empty());
    assert_eq!(codes(&tt, 2), vec!["WED"]);
    assert!(codes(&tt, 3).is_empty());
    assert_eq!(codes(&tt, 4), vec!["FRI"]);
    assert_eq!(tt.column_len(0), 3);
}

#[test]
fn quarter_offsets_and_heights() {
    // 08:00 to 09:30 local time
    let c = class_at("X", "20240610T060000", "20240610T073000");
    assert_eq!(TimeTable::quarters_from_seven(&c), 4);
    assert_eq!(TimeTable::quarters_from_twenty(&c), 80 - 38);
    assert_eq!(TimeTable::height_in_quarters(&c), 6);
    // 06:00 to 07:30 local time: starts before the window
    let early = class_at("E", "20240610T040000", "20240610T053000");
    assert_eq!(TimeTable::quarters_from_seven(&early), 0);
    assert_eq!(TimeTable::height_in_quarters(&early), 2);
    assert_eq!(TimeTable::quarters_from_twenty(&early), 80 - 30);
    // 19:00 to 21:45 local time: ends after the window
    let late = class_at("L", "20240610T170000", "20240610T194500");
    assert_eq!(TimeTable::quarters_from_twenty(&late), 0);
    assert_eq!(TimeTable::height_in_quarters(&late), 4);
    // ends before it starts
    let odd = class_at("O", "20240610T090000", "20240610T080000");
    assert_eq!(TimeTable::height_in_quarters(&odd), 0);
}

#[test]
fn navigation_wraps_within_and_across_columns() {
    let classes = vec![
        class_at("M1", "20240610T060000", "20240610T070000"),
        class_at("M2", "20240610T080000", "20240610T090000"),
        class_at("T1", "20240611T080000", "20240611T090000"),
        class_at("F1", "20240614T080000", "20240614T090000"),
    ];
    let refs: Vec<&NeptunClass> = classes.iter().collect();
    let tt = TimeTable::from_classes(refs);
    let mut st = TimeTableState::default();
    st.set_distribution(&tt);
    assert_eq!(st.distribution, [2, 1, 0, 0, 1]);
    assert_eq!(st.selected_class, None);
    st.navigate(TimeTableNavigation::DOWN);
    assert_eq!((st.selected_day, st.selected_class, st.index), (0, Some(0), Some(0)));
    st.navigate(TimeTableNavigation::DOWN);
    assert_eq!((st.selected_class, st.index), (Some(1), Some(1)));
    st.navigate(TimeTableNavigation::DOWN);
    assert_eq!(st.selected_class, Some(0));
    st.navigate(TimeTableNavigation::UP);
    assert_eq!(st.selected_class, Some(1));
    st.navigate(TimeTableNavigation::RIGHT);
    assert_eq!((st.selected_day, st.selected_class, st.index), (1, Some(0), Some(2)));
    st.navigate(TimeTableNavigation::RIGHT);
    assert_eq!((st.selected_day, st.selected_class, st.index), (2, None, None));
    st.navigate(TimeTableNavigation::DOWN);
    assert_eq!((st.selected_day, st.selected_class), (2, None));
    let mut st2 = TimeTableState::default();
    st2.set_distribution(&tt);
    st2.navigate(TimeTableNavigation::UP);
    st2.navigate(TimeTableNavigation::LEFT);
    assert_eq!((st2.selected_day, st2.selected_class, st2.index), (4, Some(0), Some(3)));
    st2.navigate(TimeTableNavigation::RIGHT);
    assert_eq!((st2.selected_day, st2.selected_class, st2.index), (0, Some(0), Some(0)));
    assert!(st2.highlights(0, 0));
    assert!(!st2.highlights(0, 1));
    assert!(!st2.highlights(1, 0));
}

#[test]
fn set_distribution_pulls_selection_back() {
    let classes = vec![
        class_at("M1", "20240610T060000", "20240610T070000"),
        class_at("M2", "20240610T080000", "20240610T090000"),
    ];
    let refs: Vec<&NeptunClass> = classes.iter().collect();
    let tt = TimeTable::from_classes(refs);
    let mut st = TimeTableState::default();
    st.set_distribution(&tt);
    st.navigate(TimeTableNavigation::DOWN);
    st.navigate(TimeTableNavigation::DOWN);
    assert_eq!(st.selected_class, Some(1));
    let fewer = vec![&classes[0]];
    let tt2 = TimeTable::from_classes(fewer);
    st.set_distribution(&tt2);
    assert_eq!((st.selected_class, st.index), (Some(0), Some(0)));
    let empty = TimeTable::default();
    st.set_distribution(&empty);
    assert_eq!((st.selected_class, st.index), (None, None));
}
