use solvency::calendar::{day_number, Date};
use solvency::date_utils::{resolve_date_range, DatePreset, DateRange, PeriodType};

fn d(year: i32, month: u32, day: u32) -> Date {
    Date { year, month, day }
}

// Wednesday 2026-02-18
fn today() -> Date {
    d(2026, 2, 18)
}

#[test]
fn preset_keys_and_labels() {
    assert_eq!(DatePreset::LastQuarter.as_str(), "last_quarter");
    assert_eq!(DatePreset::ThisWeek.label(), "This Week");
    assert_eq!(DatePreset::all().len(), 9);
    assert_eq!(DatePreset::parse("last_month"), Some(DatePreset::LastMonth));
    assert_eq!(DatePreset::parse("bogus"), None);
}

#[test]
fn this_and_last_week() {
    let w = DateRange::from_preset_on(DatePreset::ThisWeek, today());
    assert_eq!(w.from, d(2026, 2, 16));
    assert_eq!(w.to, d(2026, 2, 22));
    let lw = DateRange::from_preset_on(DatePreset::LastWeek, today());
    assert_eq!(lw.from, d(2026, 2, 9));
    assert_eq!(lw.to, d(2026, 2, 15));
}

#[test]
fn month_quarter_year_presets() {
    let m = DateRange::from_preset_on(DatePreset::ThisMonth, today());
    assert_eq!((m.from, m.to), (d(2026, 2, 1), d(2026, 2, 28)));
    let lm = DateRange::from_preset_on(DatePreset::LastMonth, d(2026, 1, 10));
    assert_eq!((lm.from, lm.to), (d(2025, 12, 1), d(2025, 12, 31)));
    let q = DateRange::from_preset_on(DatePreset::ThisQuarter, d(2024, 5, 5));
    assert_eq!((q.from, q.to), (d(2024, 4, 1), d(2024, 6, 30)));
    let lq = DateRange::from_preset_on(DatePreset::LastQuarter, d(2024, 2, 5));
    assert_eq!((lq.from, lq.to), (d(2023, 10, 1), d(2023, 12, 31)));
    let ly = DateRange::from_preset_on(DatePreset::LastYear, today());
    assert_eq!((ly.from, ly.to), (d(2025, 1, 1), d(2025, 12, 31)));
    let all = DateRange::from_preset_on(DatePreset::All, today());
    assert_eq!((all.from, all.to), (d(1970, 1, 1), d(2099, 12, 31)));
}

#[test]
fn from_dates_detects_preset() {
    let r = DateRange::from_dates_on(d(2026, 2, 1), d(2026, 2, 28), today());
    assert_eq!(r.preset, Some(DatePreset::ThisMonth));
    let c = DateRange::from_dates_on(d(2026, 2, 3), d(2026, 2, 9), today());
    assert_eq!(c.preset, None);
}

#[test]
fn period_detection() {
    let r = DateRange::from_dates_on(d(2025, 4, 1), d(2025, 6, 30), today());
    assert_eq!(r.detect_period_type(), PeriodType::Quarter);
    let y = DateRange::from_dates_on(d(2020, 1, 1), d(2020, 12, 31), today());
    assert_eq!(y.detect_period_type(), PeriodType::Year);
    let w = DateRange::from_dates_on(d(2024, 12, 30), d(2025, 1, 5), today());
    assert_eq!(w.detect_period_type(), PeriodType::Week);
    let c = DateRange::from_dates_on(d(2024, 1, 3), d(2024, 1, 9), today());
    assert_eq!(c.detect_period_type(), PeriodType::Custom);
}

#[test]
fn prev_and_next_navigation() {
    let m = DateRange::from_dates_on(d(2024, 3, 1), d(2024, 3, 31), today());
    let p = m.prev_on(today());
    assert_eq!((p.from, p.to), (d(2024, 2, 1), d(2024, 2, 29)));
    let back = p.next_on(today());
    assert_eq!((back.from, back.to), (m.from, m.to));
    let q = DateRange::from_dates_on(d(2024, 1, 1), d(2024, 3, 31), today());
    let pq = q.prev_on(today());
    assert_eq!((pq.from, pq.to), (d(2023, 10, 1), d(2023, 12, 31)));
    let c = DateRange::from_dates_on(d(2024, 1, 10), d(2024, 1, 19), today());
    let nc = c.next_on(today());
    assert_eq!((nc.from, nc.to), (d(2024, 1, 20), d(2024, 1, 29)));
    let all = DateRange::from_preset_on(DatePreset::All, today());
    let same = all.next_on(today());
    assert_eq!((same.from, same.to), (all.from, all.to));
}

#[test]
fn display_labels() {
    let m = DateRange::from_dates_on(d(2026, 1, 1), d(2026, 1, 31), today());
    assert_eq!(m.display_label(), "January 2026");
    let q = DateRange::from_dates_on(d(2026, 1, 1), d(2026, 3, 31), today());
    assert_eq!(q.display_label(), "Q1 2026");
    let y = DateRange::from_dates_on(d(2025, 1, 1), d(2025, 12, 31), today());
    assert_eq!(y.display_label(), "2025");
    let w = DateRange::from_dates_on(d(2026, 1, 26), d(2026, 2, 1), today());
    assert_eq!(w.display_label(), "Jan 26 – Feb 1, 2026");
    let w2 = DateRange::from_dates_on(d(2026, 2, 2), d(2026, 2, 8), today());
    assert_eq!(w2.display_label(), "Feb 2 – 8, 2026");
    let c = DateRange::from_dates_on(d(2026, 1, 1), d(2026, 3, 15), today());
    assert_eq!(c.display_label(), "Jan 1 – Mar 15, 2026");
    let c2 = DateRange::from_dates_on(d(2025, 12, 20), d(2026, 1, 5), today());
    assert_eq!(c2.display_label(), "Dec 20, 2025 – Jan 5, 2026");
    let all = DateRange::from_preset_on(DatePreset::All, today());
    assert_eq!(all.display_label(), "All Time");
}

#[test]
fn query_string_and_resolve_all() {
    let m = DateRange::from_preset_on(DatePreset::ThisMonth, today());
    assert_eq!(m.query_string(), "from_date=2026-02-01&to_date=2026-02-28&preset=this_month");
    let c = DateRange::from_dates_on(d(2024, 1, 3), d(2024, 1, 9), today());
    assert_eq!(c.query_string(), "from_date=2024-01-03&to_date=2024-01-09");
    let all = DateRange::from_preset_on(DatePreset::All, today());
    let narrowed = all.resolve_all(Some(("2021-05-01".to_string(), "2024-02-03".to_string())));
    assert_eq!((narrowed.from, narrowed.to), (d(2021, 5, 1), d(2024, 2, 3)));
    let kept = all.resolve_all(Some(("junk".to_string(), "2024-02-03".to_string())));
    assert_eq!(kept.from, d(1970, 1, 1));
    let untouched = c.resolve_all(Some(("2021-05-01".to_string(), "2024-02-03".to_string())));
    assert_eq!(untouched, c);
}

#[test]
fn resolve_from_parameters() {
    let p = "last_year".to_string();
    let r = resolve_date_range(Some(&p), None, None, None, today());
    assert_eq!((r.from, r.to), (d(2025, 1, 1), d(2025, 12, 31)));
    let f = "2024-03-01".to_string();
    let t = "2024-03-31".to_string();
    let prev = "prev".to_string();
    let r2 = resolve_date_range(None, Some(&f), Some(&t), Some(&prev), today());
    assert_eq!((r2.from, r2.to), (d(2024, 2, 1), d(2024, 2, 29)));
    let bad = "nope".to_string();
    let r3 = resolve_date_range(Some(&bad), None, None, None, today());
    assert_eq!(r3.preset, Some(DatePreset::ThisMonth));
}

#[test]
fn checked_presets_refuse_days_out_of_range() {
    let m = DateRange::from_preset_checked(DatePreset::ThisMonth, today()).unwrap();
    assert_eq!((m.from, m.to), (d(2026, 2, 1), d(2026, 2, 28)));
    assert_eq!(m.preset, Some(DatePreset::ThisMonth));
    let far = DateRange::from_preset_checked(DatePreset::LastYear, d(200000, 3, 1)).unwrap();
    assert_eq!((far.from, far.to), (d(199999, 1, 1), d(199999, 12, 31)));
    assert!(DateRange::from_preset_checked(DatePreset::ThisMonth, d(262142, 1, 1)).is_none());
    assert!(DateRange::from_preset_checked(DatePreset::ThisMonth, d(-262143, 6, 1)).is_none());
    assert!(DateRange::from_preset_checked(DatePreset::ThisMonth, d(2026, 2, 30)).is_none());
    assert!(DateRange::from_preset(DatePreset::ThisYear).is_some());
}

#[test]
fn next_then_prev_returns_the_period() {
    let cases = [
        (d(2026, 1, 1), d(2026, 1, 31)),
        (d(2025, 12, 1), d(2025, 12, 31)),
        (d(2025, 10, 1), d(2025, 12, 31)),
        (d(2025, 1, 1), d(2025, 12, 31)),
        (d(2024, 12, 30), d(2025, 1, 5)),
    ];
    for (f, t) in cases {
        let r = DateRange::from_dates_on(f, t, today());
        let n = r.next_on(today());
        let back = n.prev_on(today());
        assert_eq!((back.from, back.to), (f, t));
    }
    let jan = DateRange::from_dates_on(d(2026, 1, 1), d(2026, 1, 31), today());
    let dec = jan.prev_on(today());
    assert_eq!((dec.from, dec.to), (d(2025, 12, 1), d(2025, 12, 31)));
}

#[test]
fn navigation_far_from_today() {
    let jan = DateRange::from_dates_on(d(200000, 1, 1), d(200000, 1, 31), today());
    let dec = jan.prev_on(today());
    assert_eq!((dec.from, dec.to), (d(199999, 12, 1), d(199999, 12, 31)));
    let back = dec.next_on(today());
    assert_eq!((back.from, back.to), (jan.from, jan.to));
    let y = DateRange::from_dates_on(d(-262142, 1, 1), d(-262142, 12, 31), today());
    let py = y.prev_on(today());
    assert_eq!((py.from, py.to), (d(-262143, 1, 1), d(-262143, 12, 31)));
    let w = DateRange::from_preset_on(DatePreset::ThisWeek, d(262141, 12, 31));
    assert_eq!(day_number(w.to) - day_number(w.from), 6);
}
