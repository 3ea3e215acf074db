use calendar_timeline::civil::Instant;
use calendar_timeline::pretty::format_local;
use calendar_timeline::pretty::in_presentation_range;
use calendar_timeline::pretty::present;
use calendar_timeline::record::Occurrence;

#[test]
fn formats_midnight() {
    // 2024-03-10 00:00:00 is a Sunday.
    assert_eq!(format_local(1710028800), "Sunday, March 10, 2024 at 12:00 AM");
}

#[test]
fn formats_morning_with_blank_padded_hour() {
    // 2024-01-01 09:05:00 is a Monday; the 12-hour field is blank-padded.
    assert_eq!(format_local(1704099600 + 300), "Monday, January 01, 2024 at  9:05 AM");
}

#[test]
fn formats_afternoon() {
    // 2024-01-01 15:45:00.
    assert_eq!(format_local(1704067200 + 15 * 3600 + 45 * 60), "Monday, January 01, 2024 at  3:45 PM");
}

#[test]
fn formats_noon_and_late_evening() {
    assert_eq!(format_local(1704067200 + 12 * 3600), "Monday, January 01, 2024 at 12:00 PM");
    assert_eq!(format_local(1704067200 + 23 * 3600), "Monday, January 01, 2024 at 11:00 PM");
}

#[test]
fn reparsing_the_rendering_recovers_date_and_hour() {
    // Formatting and re-reading the visible fields reconstructs the
    // wall-clock date and hour in the display zone.
    let locals: [i64; 4] = [1710028800, 1704099600 + 300, 1704067200 + 12 * 3600, 999999999];
    let months = [
        "January", "February", "March", "April", "May", "June", "July", "August", "September",
        "October", "November", "December",
    ];
    for &l in locals.iter() {
        let s = format_local(l);
        let (_, rest) = s.split_once(", ").unwrap();
        let (month_day, rest) = rest.split_once(", ").unwrap();
        let (month_name, day) = month_day.split_once(' ').unwrap();
        let (year, time) = rest.split_once(" at ").unwrap();
        let month = months.iter().position(|m| *m == month_name).unwrap() as i64 + 1;
        let day: i64 = day.trim().parse().unwrap();
        let year: i64 = year.parse().unwrap();
        let (hm, marker) = time.rsplit_once(' ').unwrap();
        let (h12, minute) = hm.split_once(':').unwrap();
        let h12: i64 = h12.trim().parse().unwrap();
        let minute: i64 = minute.parse().unwrap();
        let hour = match (marker, h12) {
            ("AM", 12) => 0,
            ("AM", h) => h,
            ("PM", 12) => 12,
            (_, h) => h + 12,
        };
        let days = calendar_timeline::civil::epoch_days_exec(year, month, day);
        let rebuilt = days * 86400 + hour * 3600 + minute * 60;
        assert!(rebuilt <= l && l < rebuilt + 60);
    }
}

#[test]
fn presents_timeline_in_display_zone() {
    let occ = Occurrence {
        start: Instant { secs: 1710028800 },
        end: Instant { secs: 1710028800 + 3600 },
        name: "Brunch".to_string(),
        location: "Home".to_string(),
        notes: "".to_string(),
    };
    assert!(in_presentation_range(&occ, -3600));
    let timeline = vec![occ];
    // Display zone one hour west of UTC.
    let shown = present(&timeline, -3600);
    assert_eq!(shown.len(), 1);
    assert_eq!(shown[0].starts, "Saturday, March 09, 2024 at 11:00 PM");
    assert_eq!(shown[0].ends, "Sunday, March 10, 2024 at 12:00 AM");
    assert_eq!(shown[0].name, "Brunch");
    assert_eq!(shown[0].location, "Home");
    assert_eq!(shown[0].notes, "");
}
