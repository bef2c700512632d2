use housing_dashboard::transportation::{
    format_minutes_diff, format_minutes_diff_from_now, graphql_request_body, next_arrivals_query,
    next_arrivals_request_body, parse_times_to_arrivals, query_stops_by_radius_query, sort_arrivals,
    Arrivals, Data, Edge, Node, Route, Stop, StopTimesWithoutPatterns, StopsByRadius, Trip,
};

fn expected_query(start_time: i64, time_range: i64) -> String {
    format!(
        r#"{{
        stopsByRadius(lat:60.188374, lon:24.984065, radius:750) {{
            edges {{
                node {{
                    stop {{
                        gtfsId
                        platformCode
                        name
                        desc

                        stoptimesWithoutPatterns(numberOfDepartures: 10, startTime: {start_time}, timeRange: {time_range} ) {{
                            scheduledArrival
                            scheduledDeparture
                            realtimeArrival
                            trip {{
                                route {{
                                    shortName
                                }}
                            }}
                            headsign
                        }}
                    }}
                    distance
                }}
            }}
        }}
    }}"#,
        start_time = start_time,
        time_range = time_range
    )
}

#[test]
fn query_uses_default_time_range() {
    assert_eq!(query_stops_by_radius_query(1700000000, None), expected_query(1700000000, 600));
    assert_eq!(
        query_stops_by_radius_query(1700000000, None),
        query_stops_by_radius_query(1700000000, Some(600))
    );
}

#[test]
fn query_with_given_time_range() {
    assert_eq!(query_stops_by_radius_query(-5, Some(3600)), expected_query(-5, 3600));
    assert_eq!(query_stops_by_radius_query(0, Some(0)), expected_query(0, 0));
    for (start, range) in [(7i64, 10i64), (9, 100), (-10, 42), (i64::MIN, i64::MAX), (i64::MAX, -987654321)] {
        assert_eq!(query_stops_by_radius_query(start, Some(range)), expected_query(start, range));
    }
}

#[test]
fn next_arrivals_query_starts_two_minutes_later() {
    assert_eq!(next_arrivals_query(1000), expected_query(1120, 600));
}

#[test]
fn graphql_request_body_escapes_the_query() {
    assert_eq!(graphql_request_body("a\"b\nc"), "{\"query\":\"a\\\"b\\nc\"}");
    assert_eq!(graphql_request_body(""), "{\"query\":\"\"}");
    assert_eq!(
        graphql_request_body("\u{1}\t\r\u{8}\u{c}\u{1f}\\ä/"),
        "{\"query\":\"\\u0001\\t\\r\\b\\f\\u001f\\\\ä/\"}"
    );
    let query = next_arrivals_query(1000);
    let body = graphql_request_body(&query);
    let value: serde_json::Value = serde_json::from_str(&body).unwrap();
    assert_eq!(value["query"].as_str(), Some(query.as_str()));
}

#[test]
fn next_arrivals_request_body_is_a_query() {
    let body = next_arrivals_request_body().unwrap();
    let value: serde_json::Value = serde_json::from_str(&body).unwrap();
    let query = value["query"].as_str().unwrap();
    assert!(query.contains("timeRange: 600 )"));
    assert!(query.starts_with("{\n        stopsByRadius"));
}

#[test]
fn format_minutes_diff_rounds_toward_zero() {
    assert_eq!(format_minutes_diff(600, 0), "10 minutes from now");
    assert_eq!(format_minutes_diff(659, 0), "10 minutes from now");
    assert_eq!(format_minutes_diff(59, 0), "0 minutes from now");
    assert_eq!(format_minutes_diff(0, 59), "0 minutes from now");
    assert_eq!(format_minutes_diff(0, 61), "-1 minutes from now");
    assert_eq!(format_minutes_diff(36000, 35880), "2 minutes from now");
    assert_eq!(format_minutes_diff(i64::MAX, i64::MIN), format!("{} minutes from now", (u64::MAX as i128 / 60)));
    assert_eq!(format_minutes_diff(i64::MIN, i64::MAX), format!("{} minutes from now", -(u64::MAX as i128 / 60)));
}

#[test]
fn format_minutes_diff_from_now_is_a_minutes_text() {
    let text = format_minutes_diff_from_now(43200);
    assert!(text == "Error" || text.ends_with(" minutes from now"), "{}", text);
    if text != "Error" {
        let number = text.trim_end_matches(" minutes from now");
        let minutes: i64 = number.parse().unwrap();
        assert!(-3600 < minutes && minutes < 3600);
    }
}

fn arrival(name: &str, time: i64) -> Arrivals {
    Arrivals {
        gtfs_id: "HSL:1".to_string(),
        stop_name: name.to_string(),
        stop_desc: String::new(),
        route_short_name: "55".to_string(),
        headsign: String::new(),
        realtime_arrival: time,
        realtime_text: String::new(),
    }
}

#[test]
fn sort_arrivals_is_stable() {
    let input = vec![arrival("a", 300), arrival("b", 100), arrival("c", 300), arrival("d", 200), arrival("e", 100)];
    let sorted = sort_arrivals(input);
    let order: Vec<(String, i64)> = sorted.iter().map(|a| (a.stop_name.clone(), a.realtime_arrival)).collect();
    assert_eq!(
        order,
        vec![
            ("b".to_string(), 100),
            ("e".to_string(), 100),
            ("d".to_string(), 200),
            ("a".to_string(), 300),
            ("c".to_string(), 300)
        ]
    );
    assert!(sort_arrivals(vec![]).is_empty());
}

fn stop_time(time: i64, route: &str, headsign: Option<&str>) -> StopTimesWithoutPatterns {
    StopTimesWithoutPatterns {
        realtime_arrival: time,
        scheduled_arrival: time - 30,
        scheduled_departure: time - 20,
        headsign: headsign.map(|h| h.to_string()),
        trip: Trip { route: Route { short_name: route.to_string() } },
    }
}

fn edge(id: &str, name: &str, desc: &str, times: Vec<StopTimesWithoutPatterns>) -> Edge {
    Edge {
        node: Node {
            stop: Stop {
                name: name.to_string(),
                desc: desc.to_string(),
                gtfs_id: id.to_string(),
                platform_code: None,
                stop_times_without_patterns: times,
            },
            distance: 100,
        },
    }
}

#[test]
fn parse_times_to_arrivals_flattens_and_sorts() {
    let data = Data {
        stops_by_radius: StopsByRadius {
            edges: vec![
                edge("HSL:1", "Kalasatama", "Itäväylä", vec![stop_time(50000, "55", Some("Rautatientori")), stop_time(40000, "M1", None)]),
                edge("HSL:2", "Capellan puistotie", "Kaupunginosa", vec![stop_time(45000, "58", Some("Itäkeskus")), stop_time(50000, "16", Some("Kauppatori"))]),
                edge("HSL:3", "Empty", "", vec![]),
            ],
        },
    };
    let arrivals = parse_times_to_arrivals(data);
    let summary: Vec<(&str, &str, &str, &str, &str, i64)> = arrivals
        .iter()
        .map(|a| {
            (
                a.gtfs_id.as_str(),
                a.stop_name.as_str(),
                a.stop_desc.as_str(),
                a.route_short_name.as_str(),
                a.headsign.as_str(),
                a.realtime_arrival,
            )
        })
        .collect();
    assert_eq!(
        summary,
        vec![
            ("HSL:1", "Kalasatama", "Itäväylä", "M1", "", 40000),
            ("HSL:2", "Capellan puistotie", "Kaupunginosa", "58", "Itäkeskus", 45000),
            ("HSL:1", "Kalasatama", "Itäväylä", "55", "Rautatientori", 50000),
            ("HSL:2", "Capellan puistotie", "Kaupunginosa", "16", "Kauppatori", 50000),
        ]
    );
    for a in &arrivals {
        assert!(a.realtime_text == "Error" || a.realtime_text.ends_with(" minutes from now"));
    }
}

#[test]
fn request_body_for_starts_two_minutes_later() {
    let body = housing_dashboard::transportation::request_body_for(1000).unwrap();
    assert_eq!(body, graphql_request_body(&expected_query(1120, 600)));
    assert!(housing_dashboard::transportation::request_body_for(i64::MAX - 120).is_some());
    assert!(housing_dashboard::transportation::request_body_for(i64::MAX - 119).is_none());
    assert!(housing_dashboard::transportation::request_body_for(i64::MAX).is_none());
}

#[test]
fn parse_times_to_arrivals_ignores_distance_platform_and_schedule() {
    let make = |distance: i64, platform: Option<&str>, shift: i64| {
        let mut e = edge("HSL:1", "Kalasatama", "Itäväylä", vec![stop_time(50000, "55", Some("Rautatientori")), stop_time(40000, "M1", None)]);
        e.node.distance = distance;
        e.node.stop.platform_code = platform.map(|p| p.to_string());
        for t in e.node.stop.stop_times_without_patterns.iter_mut() {
            t.scheduled_arrival += shift;
            t.scheduled_departure -= shift;
        }
        Data { stops_by_radius: StopsByRadius { edges: vec![e] } }
    };
    let key = |a: &Arrivals| (a.gtfs_id.clone(), a.stop_name.clone(), a.stop_desc.clone(), a.route_short_name.clone(), a.headsign.clone(), a.realtime_arrival);
    let r1: Vec<_> = parse_times_to_arrivals(make(100, None, 0)).iter().map(key).collect();
    let r2: Vec<_> = parse_times_to_arrivals(make(900, Some("3"), 777)).iter().map(key).collect();
    assert_eq!(r1, r2);
}
