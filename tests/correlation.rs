use tobus_approaching::model::arrival::correlate;
use tobus_approaching::model::bus::{get_approaching_bus, get_date_set, Bus};
use tobus_approaching::model::calendar::{active_calendars, Calendar};
use tobus_approaching::model::clock::{Date, LocalDateTime, TimeOfDay};
use tobus_approaching::model::route_pattern::RoutePattern;
use tobus_approaching::model::timetable::{Timetable, TimetableObject};
use tobus_approaching::query::{bus_list_param, join_ids, query_string, timetable_params};
use tobus_approaching::{get_common_route, get_route_for_destination, Pole, PoleOrder};

fn pole(id: &str, patterns: &[&str]) -> Pole {
    Pole {
        name: id.to_string(),
        kana: String::new(),
        longitude: None,
        latitude: None,
        route_pattern: patterns.iter().map(|p| p.to_string()).collect(),
        operator: vec!["Toei".to_string()],
        pole_number: "1".to_string(),
        timetable: None,
        same_as: id.to_string(),
        note: None,
        title: None,
    }
}

fn route(id: &str, order: &[(&str, Option<i64>)]) -> RoutePattern {
    RoutePattern {
        name: id.to_string(),
        kana: None,
        route: format!("{}-route", id),
        pole_order: order
            .iter()
            .map(|(p, i)| PoleOrder { pole: p.to_string(), index: *i, note: None })
            .collect(),
        direction: "1".to_string(),
        note: None,
        operator: "Toei".to_string(),
        pattern: "1".to_string(),
        same_as: id.to_string(),
        types: None,
    }
}

fn hm(h: u32, m: u32) -> TimeOfDay {
    TimeOfDay { millis: (h * 60 + m) * 60_000 }
}

fn date(d: u32) -> Date {
    Date { year: 2024, month: 5, day: d }
}

fn bus(pattern: &str, from: &str, to: &str, terminal: &str, day: u32, at: TimeOfDay) -> Bus {
    Bus {
        valid: "2024-05-01T09:00:00+09:00".to_string(),
        number: "101".to_string(),
        route: format!("{}-route", pattern),
        route_pattern: pattern.to_string(),
        frequency: 30,
        from_pole: from.to_string(),
        from_pole_time: LocalDateTime { date: date(day), time: at, offset_seconds: 9 * 3600 },
        note: None,
        operator: None,
        starting_pole: "S".to_string(),
        terminal_pole: terminal.to_string(),
        to_pole: to.to_string(),
        same_as: format!("bus-{}-{}", pattern, to),
    }
}

fn entry(dest: &str, at: TimeOfDay) -> TimetableObject {
    TimetableObject {
        route_pattern: "P2".to_string(),
        route_pattern_order: 1,
        departure_time: at,
        destination_pole: dest.to_string(),
        destination_sign: dest.to_string(),
        is_midnight: false,
        is_non_step_bus: true,
    }
}

fn timetable(route: &str, pole: &str, entries: Vec<TimetableObject>) -> Timetable {
    Timetable {
        title: pole.to_string(),
        bus_direction: "1".to_string(),
        route: route.to_string(),
        pole: pole.to_string(),
        timetable_object: entries,
        calendar: "Weekday".to_string(),
        note: None,
        operator: "Toei".to_string(),
        same_as: format!("tt-{}", pole),
    }
}

fn calendar(id: &str, days: Vec<Date>) -> Calendar {
    Calendar {
        title: None,
        days,
        same_as: id.to_string(),
        duration: "P1D".to_string(),
        operator: "Toei".to_string(),
    }
}

fn sorted(mut v: Vec<String>) -> Vec<String> {
    v.sort();
    v
}

#[test]
fn common_route_is_shared_pattern() {
    let a = vec![pole("A", &["P1", "P2"])];
    let b = vec![pole("B", &["P2", "P3"])];
    assert_eq!(get_common_route(&a, &b), vec!["P2".to_string()]);
}

#[test]
fn common_route_of_disjoint_stops_is_empty() {
    let a = vec![pole("A", &["P1", "P4"]), pole("A2", &["P5"])];
    let b = vec![pole("B", &["P2", "P3"])];
    assert!(get_common_route(&a, &b).is_empty());
    assert!(get_common_route(&vec![], &b).is_empty());
}

#[test]
fn common_route_commutes_and_has_no_duplicates() {
    let a = vec![pole("A", &["P1", "P2", "P3"]), pole("A2", &["P2", "P3"])];
    let b = vec![pole("B", &["P3", "P2"]), pole("B2", &["P9", "P2"])];
    let ab = get_common_route(&a, &b);
    let ba = get_common_route(&b, &a);
    assert_eq!(ab.len(), 2);
    assert_eq!(sorted(ab.clone()), vec!["P2".to_string(), "P3".to_string()]);
    assert_eq!(sorted(ab), sorted(ba));
}

#[test]
fn direction_filter_keeps_forward_routes_only() {
    let a = vec![pole("A", &["P1", "P2"])];
    let b = vec![pole("B", &["P2", "P3"])];
    let routes = vec![
        route("P2", &[("A", Some(1)), ("B", Some(5))]),
        route("P1", &[("B", Some(1)), ("A", Some(5))]),
        route("P3", &[("X", Some(1)), ("B", Some(5))]),
        route("P4", &[("A", None), ("B", Some(5))]),
        route("P5", &[("A", Some(3)), ("B", Some(3))]),
    ];
    let kept = get_route_for_destination(&routes, &a, &b);
    assert_eq!(kept.len(), 1);
    assert_eq!(kept[0].same_as, "P2");
}

#[test]
fn direction_filter_never_returns_backward_route() {
    let a = vec![pole("A", &["P1"]), pole("A2", &["P1"])];
    let b = vec![pole("B", &["P1"])];
    let routes = vec![
        route("R1", &[("A2", Some(9)), ("B", Some(4)), ("A", Some(1))]),
        route("R2", &[("A", Some(2)), ("B", Some(7))]),
    ];
    let kept = get_route_for_destination(&routes, &a, &b);
    for r in &kept {
        let from = r.get_pole_index(&a).unwrap();
        let to = r.get_pole_index(&b).unwrap();
        assert!(from < to);
    }
    assert_eq!(kept.len(), 1);
    assert_eq!(kept[0].same_as, "R2");
}

#[test]
fn pole_index_takes_first_entry_along_route() {
    let r = route("R", &[("X", Some(1)), ("A2", Some(4)), ("A", Some(6))]);
    let group = vec![pole("A", &[]), pole("A2", &[])];
    assert_eq!(r.get_pole_index(&group), Some(4));
    assert_eq!(r.get_pole_index(&[pole("Z", &[])]), None);
    assert_eq!(r.index_of(&"A".to_string()), Some(6));
    assert_eq!(r.index_of(&"Q".to_string()), None);
}

#[test]
fn bus_at_target_is_approaching() {
    let b_stops = vec![pole("B", &["P2", "P3"])];
    let routes = vec![route("P2", &[("A", Some(1)), ("B", Some(5)), ("C", Some(8))])];
    let buses = vec![bus("P2", "A", "B", "T", 1, hm(8, 10))];
    let near = get_approaching_bus(&buses, &b_stops, &routes);
    assert_eq!(near.len(), 1);
    assert_eq!(near[0].same_as, buses[0].same_as);
}

#[test]
fn bus_past_target_is_excluded() {
    let b_stops = vec![pole("B", &["P2", "P3"])];
    let routes = vec![route("P2", &[("A", Some(1)), ("B", Some(5)), ("C", Some(8))])];
    let buses = vec![bus("P2", "B", "C", "T", 1, hm(8, 10))];
    assert!(get_approaching_bus(&buses, &b_stops, &routes).is_empty());
}

#[test]
fn bus_on_unknown_pattern_is_excluded() {
    let b_stops = vec![pole("B", &["P2", "P7"])];
    let routes = vec![route("P2", &[("A", Some(1)), ("B", Some(5))])];
    let buses = vec![
        bus("P7", "A", "A", "T", 1, hm(8, 10)),
        bus("P2", "X", "A", "T", 1, hm(8, 10)),
    ];
    let near = get_approaching_bus(&buses, &b_stops, &routes);
    assert_eq!(near.len(), 1);
    assert_eq!(near[0].route_pattern, "P2");
}

#[test]
fn bus_with_unresolved_index_is_excluded() {
    let b_stops = vec![pole("B", &["P2"])];
    let routes = vec![route("P2", &[("A", None), ("B", Some(5))])];
    let buses = vec![
        bus("P2", "S", "A", "T", 1, hm(8, 10)),
        bus("P2", "S", "Nowhere", "T", 1, hm(8, 10)),
    ];
    assert!(get_approaching_bus(&buses, &b_stops, &routes).is_empty());
    let unserved = vec![pole("B", &["P9"])];
    let ok = vec![bus("P2", "S", "B", "T", 1, hm(8, 10))];
    assert!(get_approaching_bus(&ok, &unserved, &routes).is_empty());
}

#[test]
fn no_buses_select_no_calendar() {
    let calendars = vec![calendar("Weekday", vec![date(1), date(2)])];
    assert!(active_calendars(&[], &calendars).is_empty());
}

#[test]
fn calendars_overlapping_service_dates_are_selected() {
    let calendars = vec![
        calendar("Weekday", vec![date(1), date(2)]),
        calendar("Holiday", vec![date(4), date(5)]),
        calendar("Special", vec![date(2), date(5)]),
    ];
    let buses = vec![bus("P2", "A", "B", "T", 2, hm(8, 0)), bus("P2", "A", "B", "T", 2, hm(9, 0))];
    let active = active_calendars(&buses, &calendars);
    assert_eq!(active.len(), 2);
    assert_eq!(active[0].same_as, "Weekday");
    assert_eq!(active[1].same_as, "Special");
    assert!(calendars[1].contains_date(&[date(5)]));
    assert!(!calendars[1].contains_date(&[date(1), date(2)]));
}

#[test]
fn date_set_holds_each_service_date_once() {
    let buses = vec![
        bus("P2", "A", "B", "T", 2, hm(8, 0)),
        bus("P2", "A", "B", "T", 3, hm(8, 0)),
        bus("P2", "A", "B", "T", 2, hm(9, 0)),
    ];
    assert_eq!(buses[1].get_date(), date(3));
    assert_eq!(get_date_set(buses), vec![date(2), date(3)]);
    assert!(get_date_set(vec![]).is_empty());
}

#[test]
fn nearest_departure_is_matched_by_full_position() {
    let tts = vec![
        timetable("P2-route", "Z", vec![entry("B", hm(8, 10))]),
        timetable(
            "P2-route",
            "A",
            vec![entry("X", hm(8, 9)), entry("B", hm(8, 0)), entry("B", hm(8, 30))],
        ),
    ];
    let b = bus("P2", "A", "B", "B", 1, hm(8, 10));
    let (t, i) = b.get_timetable_and_index(&tts).unwrap();
    assert_eq!(t.pole, "A");
    assert_eq!(i, 1);
    assert_eq!(t.timetable_object[i].departure_time, hm(8, 0));
}

#[test]
fn equal_distance_picks_earlier_entry() {
    let tts = vec![timetable(
        "P2-route",
        "A",
        vec![entry("B", hm(8, 20)), entry("B", hm(8, 0)), entry("B", hm(8, 40))],
    )];
    let b = bus("P2", "A", "B", "B", 1, hm(8, 10));
    assert_eq!(b.get_timetable_and_index(&tts).unwrap().1, 0);
}

#[test]
fn matching_twice_gives_same_pair() {
    let tts = vec![timetable("P2-route", "A", vec![entry("B", hm(7, 0)), entry("B", hm(8, 5))])];
    let b = bus("P2", "A", "B", "B", 1, hm(8, 10));
    let first = b.get_timetable_and_index(&tts).unwrap();
    let second = b.get_timetable_and_index(&tts).unwrap();
    assert_eq!(first.1, second.1);
    assert!(std::ptr::eq(first.0, second.0));
    assert_eq!(first.1, 1);
}

#[test]
fn matching_does_not_wrap_at_midnight() {
    let tts = vec![timetable("P2-route", "A", vec![entry("B", hm(23, 59)), entry("B", hm(12, 0))])];
    let b = bus("P2", "A", "B", "B", 1, hm(0, 1));
    assert_eq!(b.get_timetable_and_index(&tts).unwrap().1, 1);
    assert_eq!(hm(23, 59).distance(&hm(0, 1)), 1438 * 60_000);
    assert_eq!(hm(0, 1).distance(&hm(23, 59)), 1438 * 60_000);
}

#[test]
fn no_timetable_or_destination_means_no_match() {
    let b = bus("P2", "A", "B", "B", 1, hm(8, 10));
    let other_stop = vec![timetable("P2-route", "Q", vec![entry("B", hm(8, 0))])];
    assert!(b.get_timetable_and_index(&other_stop).is_none());
    let other_dest = vec![timetable("P2-route", "A", vec![entry("C", hm(8, 0))])];
    assert!(b.get_timetable_and_index(&other_dest).is_none());
    assert!(b.get_timetable_and_index(&[]).is_none());
}

#[test]
fn correlation_pairs_entries_at_same_position() {
    let origin = vec![pole("A", &["P2"])];
    let tts = vec![
        timetable("P2-route", "S", vec![entry("B", hm(7, 50)), entry("B", hm(8, 20))]),
        timetable("P2-route", "A", vec![entry("B", hm(8, 0)), entry("B", hm(8, 30))]),
    ];
    let on_time = bus("P2", "S", "A", "B", 1, hm(8, 15));
    let unmatched = bus("P2", "Q", "A", "B", 1, hm(8, 15));
    let buses = vec![&on_time, &unmatched];
    let out = correlate(&buses, &origin, &tts);
    assert_eq!(out.len(), 1);
    assert_eq!(out[0].0.same_as, on_time.same_as);
    assert_eq!(out[0].1.departure_time, hm(8, 20));
    assert_eq!(out[0].2.departure_time, hm(8, 30));
}

#[test]
fn query_texts_are_joined() {
    let ids = vec!["a".to_string(), "b".to_string(), "c".to_string()];
    assert_eq!(join_ids(&ids), "a,b,c");
    assert_eq!(join_ids(&[]), "");
    let params = vec![
        ("odpt:operator".to_string(), "odpt.Operator:Toei".to_string()),
        ("dc:title".to_string(), "X".to_string()),
    ];
    assert_eq!(query_string(&params), "odpt:operator=odpt.Operator:Toei&dc:title=X");
    let routes = vec![route("P1", &[]), route("P2", &[])];
    assert_eq!(bus_list_param(&routes), "P1,P2");
}

#[test]
fn timetable_request_lists_stops_routes_and_calendars() {
    let buses = vec![bus("P2", "A", "B", "T", 1, hm(8, 0)), bus("P3", "C", "D", "T", 1, hm(8, 0))];
    let extra = pole("E", &[]);
    let cal = calendar("Weekday", vec![]);
    let (poles, routes, cals) = timetable_params(&buses, &[&extra], &[&cal]);
    assert_eq!(poles, "A,C,E");
    assert_eq!(routes, "P2-route,P3-route");
    assert_eq!(cals, "Weekday");
}
