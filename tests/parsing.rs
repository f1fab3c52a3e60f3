use time_trial::index::{Waypoint, WaypointIndexMap};
use time_trial::parser::{parse_time_trial_data, validate_name_token, ParseError};

fn parsed(text: &str) -> WaypointIndexMap {
    match parse_time_trial_data(text) {
        Ok(m) => m,
        Err(e) => panic!("unexpected error on line {}: {}", e.line_number, e.error),
    }
}

fn refused(text: &str) -> ParseError {
    match parse_time_trial_data(text) {
        Ok(_) => panic!("expected an error"),
        Err(e) => e,
    }
}

#[test]
fn example_two_lines_chain() {
    let m = parsed("0 0 0\n1 1 1\n");
    assert_eq!(m.len(), 2);
    let ws = m.waypoints();
    assert_eq!(ws[0].gates, Vec::<usize>::new());
    assert_eq!(ws[1].gates, vec![0]);
    assert_eq!(ws[0].name, "Waypoint1");
    assert_eq!(ws[1].name, "Waypoint2");
    assert_eq!((ws[1].x, ws[1].y, ws[1].z), (1, 1, 1));
}

#[test]
fn example_named_gate() {
    let m = parsed("0 0 0 Start\n1 1 1 End < Start\n");
    let end = m.get_by_name("End").unwrap();
    assert_eq!(end, 1);
    assert_eq!(m.waypoints()[end].gates, vec![0]);
}

#[test]
fn example_empty_gate_list_keeps_chain() {
    let m = parsed("0 0 0\n1 1 1 <\n");
    assert_eq!(m.waypoints()[1].gates, vec![0]);
    assert_eq!(m.waypoints()[1].name, "Waypoint2");
}

#[test]
fn example_bad_coordinate() {
    let e = refused("0 0 0\nbad 1 1\n");
    assert_eq!(e.line_number, 2);
    assert_eq!(e.token_number, 0);
    assert_eq!(e.token, "bad");
    assert_eq!(e.line, "bad 1 1");
    assert_eq!(e.error, "invalid digit found in string");
}

#[test]
fn example_bad_name() {
    let e = refused("0 0 0 1bad\n");
    assert_eq!(e.line_number, 1);
    assert_eq!(e.token_number, 3);
    assert_eq!(e.token, "1bad");
    assert_eq!(e.error, "Name token '1bad' does not match regex.");
}

#[test]
fn example_unknown_number() {
    let e = refused("0 0 0 A\n1 1 1 B < 99\n");
    assert_eq!(e.line_number, 2);
    assert_eq!(e.token, "99");
    assert_eq!(e.token_number, 5);
    assert_eq!(e.error, "unrecognized waypoint number");
}

#[test]
fn unknown_name_is_a_name_error() {
    let e = refused("0 0 0 A\n1 1 1 B < Nope\n");
    assert_eq!(e.token, "Nope");
    assert_eq!(e.error, "unrecognized waypoint name");
}

#[test]
fn failing_gate_is_the_one_reported() {
    let e = refused("0 0 0 A\n1 1 1 < A Missing\n");
    assert_eq!(e.line_number, 2);
    assert_eq!(e.token_number, 5);
    assert_eq!(e.token, "Missing");
}

#[test]
fn negative_gate_number_is_unrecognized() {
    let e = refused("0 0 0\n1 1 1 < -1\n");
    assert_eq!(e.error, "unrecognized waypoint number");
}

#[test]
fn count_equals_non_empty_lines() {
    let m = parsed("0 0 0\n\n1 1 1\n\n\n2 2 2");
    assert_eq!(m.len(), 3);
    assert_eq!(parsed("").len(), 0);
    assert_eq!(parsed("\n\n").len(), 0);
}

#[test]
fn blank_lines_leave_gaps_in_numbers() {
    let m = parsed("0 0 0\n\n1 1 1\n");
    let ws = m.waypoints();
    assert_eq!(ws[0].number, 1);
    assert_eq!(ws[1].number, 3);
    assert_eq!(ws[1].name, "Waypoint3");
    assert_eq!(m.get_by_number(&3), Some(1));
    assert_eq!(m.get_by_number(&2), None);
}

#[test]
fn lookups_find_each_declared_waypoint() {
    let m = parsed("0 0 0 A\n1 1 1\n\n2 2 2 C < A 2\n");
    for (i, w) in m.waypoints().iter().enumerate() {
        assert_eq!(m.get_by_number(&w.number), Some(i));
        assert_eq!(m.get_by_name(&w.name), Some(i));
    }
    assert_eq!(m.get_by_name("Waypoint2"), Some(1));
}

#[test]
fn explicit_gates_replace_chain() {
    let m = parsed("0 0 0 A\n1 1 1 B\n2 2 2 C < A\n");
    assert_eq!(m.waypoints()[2].gates, vec![0]);
    let m = parsed("0 0 0 A\n1 1 1 B\n2 2 2 C < B A 1\n");
    assert_eq!(m.waypoints()[2].gates, vec![1, 0, 0]);
}

#[test]
fn numeric_gate_refers_to_line_number() {
    let m = parsed("0 0 0\n\n1 1 1\n2 2 2 < 3 1\n");
    assert_eq!(m.waypoints()[2].gates, vec![1, 0]);
    let e = refused("0 0 0\n\n1 1 1\n2 2 2 < 2\n");
    assert_eq!(e.error, "unrecognized waypoint number");
}

#[test]
fn name_that_looks_numeric_but_overflows_is_a_name() {
    let e = refused("0 0 0\n1 1 1 < 99999999999\n");
    assert_eq!(e.error, "unrecognized waypoint name");
}

#[test]
fn too_few_tokens() {
    let e = refused("0 0\n");
    assert_eq!(e.line_number, 1);
    assert_eq!(e.token_number, 0);
    assert_eq!(e.token, "");
    assert_eq!(e.error, "fewer than 3 tokens");
    let e = refused("0 0 0\n   \n");
    assert_eq!(e.line_number, 2);
    assert_eq!(e.error, "fewer than 3 tokens");
}

#[test]
fn name_must_be_followed_by_delimiter() {
    let e = refused("0 0 0 A B\n");
    assert_eq!(e.token_number, 4);
    assert_eq!(e.token, "B");
    assert_eq!(e.error, "token after name must be gate delimiter '<'");
}

#[test]
fn coordinate_errors_carry_the_parse_message() {
    let e = refused("0 0 99999999999\n");
    assert_eq!(e.token_number, 2);
    assert_eq!(e.error, "number too large to fit in target type");
    let e = refused("0 -99999999999 0\n");
    assert_eq!(e.token_number, 1);
    assert_eq!(e.error, "number too small to fit in target type");
}

#[test]
fn signed_coordinates() {
    let m = parsed("-5 +7 2147483647\n");
    let w = &m.waypoints()[0];
    assert_eq!((w.x, w.y, w.z), (-5, 7, 2147483647));
}

#[test]
fn crlf_and_tabs() {
    let m = parsed("0\t0 0 A\r\n1 1  1 B\t<\tA\r\n");
    assert_eq!(m.len(), 2);
    assert_eq!(m.waypoints()[1].name, "B");
    assert_eq!(m.waypoints()[1].gates, vec![0]);
}

#[test]
fn duplicate_names_last_one_wins() {
    let m = parsed("0 0 0 A\n1 1 1 A\n2 2 2 < A\n");
    assert_eq!(m.get_by_name("A"), Some(1));
    assert_eq!(m.waypoints()[2].gates, vec![1]);
}

#[test]
fn default_name_can_be_taken_by_explicit_name() {
    let m = parsed("0 0 0\n1 1 1 Waypoint1\n2 2 2 < Waypoint1\n");
    assert_eq!(m.get_by_name("Waypoint1"), Some(1));
    assert_eq!(m.waypoints()[2].gates, vec![1]);
}

#[test]
fn resolved_gates_look_up_the_same_positions() {
    let m = parsed("0 0 0 S\n1 1 1\n2 2 2 M < 2\n3 3 3 E < S M 1\n");
    let ws = m.waypoints();
    for (i, w) in ws.iter().enumerate() {
        for g in &w.gates {
            assert!(*g < i);
            assert_eq!(m.get_by_number(&ws[*g].number), Some(*g));
            assert_eq!(m.get_by_name(&ws[*g].name), Some(*g));
        }
    }
    assert_eq!(ws[3].gates, vec![0, 2, 0]);
}

#[test]
fn name_pattern() {
    assert!(validate_name_token("_a-1Z").is_ok());
    assert!(validate_name_token("A").is_ok());
    assert!(validate_name_token("-a").is_err());
    assert!(validate_name_token("a.b").is_err());
    assert!(validate_name_token("\u{e9}t\u{e9}").is_err());
    assert_eq!(
        validate_name_token("9x"),
        Err("Name token '9x' does not match regex.".to_string())
    );
}

#[test]
fn index_add_and_lookup() {
    let mut m = WaypointIndexMap::new();
    assert_eq!(m.len(), 0);
    assert_eq!(m.get_by_name("A"), None);
    m.add(Waypoint { x: 1, y: 2, z: 3, gates: vec![], name: "A".to_string(), number: 4 });
    m.add(Waypoint { x: 0, y: 0, z: 0, gates: vec![0], name: "B".to_string(), number: 7 });
    m.add(Waypoint { x: 0, y: 0, z: 0, gates: vec![0], name: "A".to_string(), number: 9 });
    assert_eq!(m.len(), 3);
    assert_eq!(m.get_by_name("A"), Some(2));
    assert_eq!(m.get_by_name("B"), Some(1));
    assert_eq!(m.get_by_number(&4), Some(0));
    assert_eq!(m.get_by_number(&9), Some(2));
    assert_eq!(m.get_by_number(&5), None);
}
