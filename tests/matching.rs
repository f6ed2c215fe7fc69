use transit_match::{
    assign_buses_to_lines, calculate_distance, calculate_optimal_bus_line, clean_telemetry,
    find_nearest_coordinates, is_delay_acceptable, is_time_compatible, match_all_stops,
    nearest_ping, remove_duplicates_except_payment, remove_last_duplicates_in_busdata,
    test_results, Assignment, Bus, Coordinate, EvalError, Line, LookupError, MatchedRecord,
    Record, ScheduleGroup, VehicleGroup,
};
use transit_match::partition::{group_by_vehicle, split_sections};

fn coord(lat: f64, lon: f64) -> Coordinate {
    Coordinate { lat_e7: (lat * 1e7).round() as i32, lon_e7: (lon * 1e7).round() as i32 }
}

fn stop(id: &str, zeit: u64, lat: f64, lon: f64) -> Line {
    Line {
        schedule_id: id.to_string(),
        datum: "2023-10-25".to_string(),
        frt_fid: 1,
        frt_start: 1,
        line: 100,
        richtung: 1,
        varianten: 1,
        umlauf: 1,
        lfnr: 1,
        ankunft: 0,
        abfahrt: 0,
        zeitpkt: "08:00:00".to_string(),
        zeit,
        ort_nr: 1,
        ort_name: "Halt".to_string(),
        coordinate: coord(lat, lon),
        x: "0".to_string(),
        y: "0".to_string(),
        fahrt_start: "08:00".to_string(),
        fahrt_ende: "09:00".to_string(),
        wkt: "POINT".to_string(),
    }
}

fn ping(vehicle: &str, t: u64, lat: f64, lon: f64, typ: &str, wkt: &str) -> Bus {
    Bus {
        vehicle: vehicle.to_string(),
        datum: "2023-10-25".to_string(),
        zeit: "08:00:00".to_string(),
        zeit_next: "08:00:10".to_string(),
        unixzeit: t,
        coordinate: coord(lat, lon),
        x: "0".to_string(),
        y: "0".to_string(),
        typ: typ.to_string(),
        einsteiger: 0,
        aussteiger: 0,
        wkt: wkt.to_string(),
    }
}

fn at(t: u64, lat: f64, lon: f64) -> Bus {
    ping("V1", t, lat, lon, "FAHRT", "P")
}

fn tags(pings: &[Bus]) -> Vec<(String, String)> {
    pings.iter().map(|p| (p.wkt.clone(), p.typ.clone())).collect()
}

fn stream(items: &[(&str, &str)]) -> Vec<Bus> {
    items.iter().enumerate().map(|(i, (w, t))| ping("V1", i as u64, 52.5, 13.4, t, w)).collect()
}

#[test]
fn time_windows_are_inclusive() {
    assert!(is_time_compatible(1000, 1600));
    assert!(is_time_compatible(1600, 1000));
    assert!(!is_time_compatible(1000, 1601));
    assert!(is_delay_acceptable(1000, 1300));
    assert!(is_delay_acceptable(1300, 1000));
    assert!(!is_delay_acceptable(1000, 1301));
}

#[test]
fn distance_of_a_tenth_of_a_milli_degree() {
    let d = calculate_distance(coord(52.50, 13.40), coord(52.5001, 13.4001));
    assert!(d > 12_900 && d < 13_200, "{}", d);
    assert_eq!(calculate_distance(coord(52.5, 13.4), coord(52.5, 13.4)), 0);
}

#[test]
fn fine_matcher_prefers_close_ping_within_windows() {
    let e = stop("L1", 1000, 52.50, 13.40);
    let pool = vec![at(1005, 52.52, 13.42), at(1200, 52.5001, 13.4001)];
    assert_eq!(nearest_ping(&e, &pool), Some(1));
}

#[test]
fn heuristic_product_rule_on_worked_example() {
    let e = stop("L1", 1000, 52.50, 13.40);
    let pool = vec![at(1005, 52.52, 13.42), at(1200, 52.5001, 13.4001)];
    let da = calculate_distance(e.coordinate, pool[1].coordinate) as u128;
    let db = calculate_distance(e.coordinate, pool[0].coordinate) as u128;
    // about 13 m times 200 s against about 2.6 km times 5 s
    assert!(da * 200 < db * 5);
    assert_eq!(calculate_optimal_bus_line(&e, &pool), Some(1));
}

#[test]
fn fine_matcher_rejects_pings_outside_delay_window() {
    let e = stop("L1", 1000, 52.50, 13.40);
    let pool = vec![at(1301, 52.50, 13.40), at(400, 52.50, 13.40)];
    assert_eq!(nearest_ping(&e, &pool), None);
    assert_eq!(nearest_ping(&e, &Vec::new()), None);
}

#[test]
fn fine_matcher_breaks_ties_by_first_ping() {
    let e = stop("L1", 1000, 52.50, 13.40);
    let pool = vec![at(2000, 52.50, 13.40), at(1100, 52.51, 13.40), at(900, 52.51, 13.40)];
    assert_eq!(nearest_ping(&e, &pool), Some(1));
}

#[test]
fn heuristic_never_rejects_and_keeps_first_on_tie() {
    let e = stop("L1", 1000, 52.50, 13.40);
    let pool = vec![at(90_000, 53.0, 14.0), at(80_000, 53.0, 14.0)];
    assert_eq!(calculate_optimal_bus_line(&e, &pool), Some(1));
    let same = vec![at(1000, 53.0, 14.0), at(1000, 52.0, 13.0)];
    assert_eq!(calculate_optimal_bus_line(&e, &same), Some(0));
    assert_eq!(calculate_optimal_bus_line(&e, &Vec::new()), None);
}

#[test]
fn heuristic_matches_every_stop_once() {
    let lines = vec![stop("L1", 1000, 52.50, 13.40), stop("L1", 2000, 52.51, 13.41)];
    let pool = vec![at(1000, 52.50, 13.40), at(2000, 52.51, 13.41)];
    let r = match_all_stops(&lines, &pool);
    assert_eq!(r.len(), 2);
    assert_eq!((r[0].stop, r[0].ping), (0, 0));
    assert_eq!((r[1].stop, r[1].ping), (1, 1));
    assert!(match_all_stops(&lines, &Vec::new()).is_empty());
}

fn groups() -> (Vec<ScheduleGroup>, Vec<VehicleGroup>) {
    let lines = vec![
        ScheduleGroup {
            key: "line_1".to_string(),
            stops: vec![stop("L1", 1000, 52.50, 13.40), stop("L2", 1500, 52.51, 13.41)],
        },
        ScheduleGroup { key: "line_2".to_string(), stops: vec![stop("L3", 50_000, 52.50, 13.40)] },
    ];
    let buses = vec![
        VehicleGroup {
            vehicle: "V1".to_string(),
            pings: vec![at(1100, 52.52, 13.42), at(1500, 52.511, 13.41)],
        },
        VehicleGroup {
            vehicle: "V2".to_string(),
            pings: vec![at(1050, 52.5001, 13.4001), at(1450, 52.6, 13.5)],
        },
    ];
    (lines, buses)
}

#[test]
fn coarse_assigner_picks_closest_vehicle() {
    let (lines, buses) = groups();
    let a = assign_buses_to_lines(&lines, &buses);
    assert_eq!(a.len(), 1);
    assert_eq!(a[0].line_id, "line_1");
    assert_eq!(a[0].bus_id, "V2");
}

#[test]
fn coarse_assigner_tie_goes_to_first_vehicle() {
    let lines = vec![ScheduleGroup { key: "g".to_string(), stops: vec![stop("L1", 1000, 52.5, 13.4)] }];
    let buses = vec![
        VehicleGroup { vehicle: "A".to_string(), pings: vec![at(1000, 52.51, 13.4)] },
        VehicleGroup { vehicle: "B".to_string(), pings: vec![at(1000, 52.51, 13.4)] },
    ];
    let a = assign_buses_to_lines(&lines, &buses);
    assert_eq!(a.len(), 1);
    assert_eq!(a[0].bus_id, "A");
}

#[test]
fn fine_matcher_follows_assignment() {
    let (lines, buses) = groups();
    let assignment = vec![Assignment { line_id: "line_1".to_string(), bus_id: "V1".to_string() }];
    let out = match find_nearest_coordinates(&lines, &buses, &assignment) {
        Ok(out) => out,
        Err(_) => panic!("lookup failed"),
    };
    assert_eq!(
        out,
        vec![
            MatchedRecord { line_group: 0, stop: 0, bus_group: 0, ping: 0 },
            MatchedRecord { line_group: 0, stop: 1, bus_group: 0, ping: 1 },
        ]
    );
}

#[test]
fn fine_matcher_reports_missing_groups() {
    let (lines, buses) = groups();
    let bad_line = vec![Assignment { line_id: "nope".to_string(), bus_id: "V1".to_string() }];
    match find_nearest_coordinates(&lines, &buses, &bad_line) {
        Err(LookupError::ScheduleGroupNotFound(k)) => assert_eq!(k, "nope"),
        _ => panic!("expected a missing schedule group"),
    }
    let bad_bus = vec![Assignment { line_id: "line_1".to_string(), bus_id: "V9".to_string() }];
    match find_nearest_coordinates(&lines, &buses, &bad_bus) {
        Err(LookupError::VehicleGroupNotFound(k)) => assert_eq!(k, "V9"),
        _ => panic!("expected a missing vehicle group"),
    }
}

#[test]
fn first_pass_keeps_payments_and_first_record() {
    let s = stream(&[("A", "FAHRT"), ("A", "FAHRT"), ("A", "ZAHLUNG"), ("B", "FAHRT"), ("A", "FAHRT")]);
    let r = remove_duplicates_except_payment(&s);
    assert_eq!(
        tags(&r),
        vec![
            ("A".to_string(), "FAHRT".to_string()),
            ("A".to_string(), "ZAHLUNG".to_string()),
            ("B".to_string(), "FAHRT".to_string()),
            ("A".to_string(), "FAHRT".to_string()),
        ]
    );
    assert!(remove_duplicates_except_payment(&Vec::new()).is_empty());
}

#[test]
fn second_pass_folds_into_payment() {
    let s = stream(&[("A", "FAHRT"), ("A", "ZAHLUNG"), ("B", "FAHRT"), ("C", "ZAHLUNG"), ("C", "FAHRT")]);
    let r = remove_last_duplicates_in_busdata(&s);
    assert_eq!(
        tags(&r),
        vec![
            ("A".to_string(), "ZAHLUNG".to_string()),
            ("B".to_string(), "FAHRT".to_string()),
            ("C".to_string(), "ZAHLUNG".to_string()),
            ("C".to_string(), "FAHRT".to_string()),
        ]
    );
}

#[test]
fn cleaning_twice_changes_nothing() {
    let s = stream(&[
        ("A", "FAHRT"),
        ("A", "FAHRT"),
        ("A", "ZAHLUNG"),
        ("A", "ZAHLUNG"),
        ("B", "FAHRT"),
        ("B", "ZAHLUNG"),
        ("B", "FAHRT"),
        ("C", "FAHRT"),
    ]);
    let once = clean_telemetry(&s);
    let twice = clean_telemetry(&once);
    assert_eq!(tags(&once), tags(&twice));
    assert_eq!(
        tags(&once),
        vec![
            ("A".to_string(), "ZAHLUNG".to_string()),
            ("B".to_string(), "ZAHLUNG".to_string()),
            ("C".to_string(), "FAHRT".to_string()),
        ]
    );
}

fn record(id: &str, vehicle: &str, lat: f64, lon: f64) -> Record {
    Record { schedule_id: id.to_string(), fahrzeug: vehicle.to_string(), coordinate: coord(lat, lon) }
}

fn percent(thirds: u128, records: usize) -> f64 {
    thirds as f64 * 100.0 / (3.0 * records as f64)
}

#[test]
fn concordance_partial_credit_fifty_metres_off() {
    let output = vec![record("L1", "V1", 52.50, 13.40)];
    // about 50 m north
    let truth = vec![record("L1", "V1", 52.50045, 13.40)];
    let c = match test_results(&output, &truth) {
        Ok(c) => c,
        Err(_) => panic!("output is not empty"),
    };
    assert_eq!(c.thirds, 2);
    assert_eq!(c.records, 1);
    assert!((percent(c.thirds, c.records) - 66.67).abs() < 0.01);
}

#[test]
fn concordance_of_identical_records_is_full() {
    let output = vec![record("L1", "V1", 52.50, 13.40), record("L2", "V2", 52.51, 13.41)];
    let truth = vec![record("L1", "V1", 52.50, 13.40), record("L2", "V2", 52.51, 13.41)];
    let c = match test_results(&output, &truth) {
        Ok(c) => c,
        Err(_) => panic!("output is not empty"),
    };
    assert_eq!(c.thirds, 6);
    assert!((percent(c.thirds, c.records) - 100.0).abs() < 1e-9);
}

#[test]
fn concordance_credit_levels() {
    let output = vec![record("L1", "V1", 52.50, 13.40)];
    let near = vec![record("L1", "V1", 52.50005, 13.40)];
    let other_vehicle = vec![record("L1", "V2", 52.50, 13.40)];
    let other_id = vec![record("L9", "V1", 52.50, 13.40)];
    let thirds = |t: &Vec<Record>| match test_results(&output, t) {
        Ok(c) => c.thirds,
        Err(_) => panic!("output is not empty"),
    };
    assert_eq!(thirds(&near), 3);
    assert_eq!(thirds(&other_vehicle), 1);
    assert_eq!(thirds(&other_id), 0);
}

#[test]
fn concordance_of_empty_output_is_an_error() {
    let truth = vec![record("L1", "V1", 52.50, 13.40)];
    assert!(matches!(test_results(&Vec::new(), &truth), Err(EvalError::EmptyOutput)));
}

#[test]
fn coarse_assigner_keeps_true_minimum() {
    // a later, farther but time-compatible vehicle must not displace the closest one
    let lines = vec![ScheduleGroup { key: "g".to_string(), stops: vec![stop("L1", 1000, 52.5, 13.4)] }];
    let buses = vec![
        VehicleGroup { vehicle: "near".to_string(), pings: vec![at(1000, 52.5001, 13.4)] },
        VehicleGroup { vehicle: "far".to_string(), pings: vec![at(1000, 52.6, 13.4)] },
    ];
    let a = assign_buses_to_lines(&lines, &buses);
    assert_eq!(a.len(), 1);
    assert_eq!(a[0].bus_id, "near");
}

#[test]
fn coarse_assigner_ignores_incompatible_times() {
    let lines = vec![ScheduleGroup { key: "g".to_string(), stops: vec![stop("L1", 1000, 52.5, 13.4)] }];
    let buses = vec![
        VehicleGroup { vehicle: "late".to_string(), pings: vec![at(1601, 52.5, 13.4)] },
        VehicleGroup { vehicle: "ok".to_string(), pings: vec![at(1600, 52.6, 13.4)] },
    ];
    let a = assign_buses_to_lines(&lines, &buses);
    assert_eq!(a.len(), 1);
    assert_eq!(a[0].bus_id, "ok");
    assert!(assign_buses_to_lines(&lines, &Vec::new()).is_empty());
}

#[test]
fn grouping_by_vehicle_keeps_stream_order() {
    let raw = vec![
        ping("B", 1, 52.5, 13.4, "FAHRT", "x"),
        ping("A", 2, 52.5, 13.4, "FAHRT", "y"),
        ping("B", 3, 52.5, 13.4, "FAHRT", "z"),
    ];
    let groups = group_by_vehicle(&raw);
    assert_eq!(groups.len(), 2);
    assert_eq!(groups[0].vehicle, "B");
    assert_eq!(groups[0].pings.iter().map(|p| p.unixzeit).collect::<Vec<_>>(), vec![1, 3]);
    assert_eq!(groups[1].vehicle, "A");
    assert_eq!(groups[1].pings.iter().map(|p| p.unixzeit).collect::<Vec<_>>(), vec![2]);
    assert!(group_by_vehicle(&Vec::new()).is_empty());
}

#[test]
fn sections_open_at_sequence_number_one() {
    let mut rows = vec![
        stop("L0", 1, 52.5, 13.4),
        stop("L1", 2, 52.5, 13.4),
        stop("L2", 3, 52.5, 13.4),
        stop("L3", 4, 52.5, 13.4),
    ];
    rows[0].lfnr = 4;
    rows[1].lfnr = 1;
    rows[2].lfnr = 2;
    rows[3].lfnr = 1;
    assert_eq!(split_sections(&rows), vec![1, 3]);
    assert!(split_sections(&Vec::new()).is_empty());
}
