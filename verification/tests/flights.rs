use xproxy::flights::{FlightState, Flights};

#[test]
fn test_takeoff_registers_framing() {
    let mut flights = Flights::new();
    assert!(!flights.contains("/cache/a"));
    assert!(flights.takeoff("/cache/a", FlightState::Length(42)));
    assert!(flights.contains("/cache/a"));
    assert_eq!(flights.get("/cache/a"), Some(FlightState::Length(42)));
    assert_eq!(flights.get("/cache/b"), None);
}

#[test]
fn test_second_takeoff_for_same_key_is_refused() {
    let mut flights = Flights::new();
    assert!(flights.takeoff("/cache/a", FlightState::Chunks));
    // A concurrent requester of the same resource must coalesce, never
    // start a second origin fetch for the key.
    assert!(!flights.takeoff("/cache/a", FlightState::Length(7)));
    assert_eq!(flights.get("/cache/a"), Some(FlightState::Chunks));
}

#[test]
fn test_distinct_keys_fly_independently() {
    let mut flights = Flights::new();
    assert!(flights.takeoff("/cache/a", FlightState::Chunks));
    assert!(flights.takeoff("/cache/b", FlightState::Length(9)));
    assert_eq!(flights.get("/cache/a"), Some(FlightState::Chunks));
    assert_eq!(flights.get("/cache/b"), Some(FlightState::Length(9)));
}

#[test]
fn test_landing_frees_the_key() {
    let mut flights = Flights::new();
    assert!(flights.takeoff("/cache/a", FlightState::Chunks));
    assert!(flights.land("/cache/a"));
    assert!(!flights.contains("/cache/a"));
    assert!(!flights.land("/cache/a"));
    assert!(flights.takeoff("/cache/a", FlightState::Length(3)));
    assert_eq!(flights.get("/cache/a"), Some(FlightState::Length(3)));
}

#[test]
fn test_landing_leaves_other_flights_alone() {
    let mut flights = Flights::new();
    assert!(flights.takeoff("/cache/a", FlightState::Chunks));
    assert!(flights.takeoff("/cache/b", FlightState::Length(9)));
    assert!(flights.land("/cache/a"));
    assert!(!flights.contains("/cache/a"));
    assert_eq!(flights.get("/cache/b"), Some(FlightState::Length(9)));
}
