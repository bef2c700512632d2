use vstd::prelude::*;
use crate::clock::{local_seconds_since_midnight, unix_timestamp_now, is_reading_since_midnight};
use crate::text::{push_decimal_signed, decimal_int, digit_char};

verus! {

/// A public-transport route, by its short name ("55", "M1", ...).
#[derive(Clone, Debug)]
pub struct Route {
    pub short_name: String,
}

/// A trip of a vehicle along a route.
#[derive(Clone, Debug)]
pub struct Trip {
    pub route: Route,
}

/// One departure from a stop; times are in seconds since midnight.
#[derive(Clone, Debug)]
pub struct StopTimesWithoutPatterns {
    pub realtime_arrival: i64,
    pub scheduled_arrival: i64,
    pub scheduled_departure: i64,
    pub headsign: Option<String>,
    pub trip: Trip,
}

/// The `data` part of the routing service's answer.
#[derive(Debug)]
pub struct Data {
    pub stops_by_radius: StopsByRadius,
}

/// A stop with its coming departures.
#[derive(Debug)]
pub struct Stop {
    pub name: String,
    pub desc: String,
    pub gtfs_id: String,
    pub platform_code: Option<String>,
    pub stop_times_without_patterns: Vec<StopTimesWithoutPatterns>,
}

/// A stop found near the building, with its distance in metres.
#[derive(Debug)]
pub struct Node {
    pub stop: Stop,
    pub distance: i64,
}

/// One result of the search by radius.
#[derive(Debug)]
pub struct Edge {
    pub node: Node,
}

/// The stops found within the search radius.
#[derive(Debug)]
pub struct StopsByRadius {
    pub edges: Vec<Edge>,
}

/// The whole answer of the routing service.
#[derive(Debug)]
pub struct ApiResponse {
    pub data: Data,
}

/// One coming arrival as the dashboard lists it.
#[derive(Clone, Debug)]
pub struct Arrivals {
    pub gtfs_id: String,
    pub stop_name: String,
    pub stop_desc: String,
    pub route_short_name: String,
    pub headsign: String,
    pub realtime_arrival: i64,
    pub realtime_text: String,
}

/// What an arrival shows.
pub struct ArrivalsView {
    pub gtfs_id: Seq<char>,
    pub stop_name: Seq<char>,
    pub stop_desc: Seq<char>,
    pub route_short_name: Seq<char>,
    pub headsign: Seq<char>,
    pub realtime_arrival: i64,
    pub realtime_text: Seq<char>,
}

impl View for Arrivals {
    type V = ArrivalsView;

    open spec fn view(&self) -> ArrivalsView {
        ArrivalsView {
            gtfs_id: self.gtfs_id@,
            stop_name: self.stop_name@,
            stop_desc: self.stop_desc@,
            route_short_name: self.route_short_name@,
            headsign: self.headsign@,
            realtime_arrival: self.realtime_arrival,
            realtime_text: self.realtime_text@,
        }
    }
}

/// How far ahead of now the departures are asked for, in seconds.
pub const TWO_MINUTES: i64 = 120;

/// The time range asked for when none is given, in seconds.
pub const TEN_MINUTES: i64 = 600;

/// The part of the query before the start time.
pub const QUERY_HEAD: &'static str = "{\n        stopsByRadius(lat:60.188374, lon:24.984065, radius:750) {\n            edges {\n                node {\n                    stop {\n                        gtfsId\n                        platformCode\n                        name\n                        desc\n\n                        stoptimesWithoutPatterns(numberOfDepartures: 10, startTime: ";

/// The part of the query between the start time and the time range.
pub const QUERY_MIDDLE: &'static str = ", timeRange: ";

/// The part of the query after the time range.
pub const QUERY_TAIL: &'static str = " ) {\n                            scheduledArrival\n                            scheduledDeparture\n                            realtimeArrival\n                            trip {\n                                route {\n                                    shortName\n                                }\n                            }\n                            headsign\n                        }\n                    }\n                    distance\n                }\n            }\n        }\n    }";

/// The time range that a query asks for: the one given, else ten minutes.
pub open spec fn effective_time_range(time_range: Option<i64>) -> i64 {
    match time_range {
        Some(t) => t,
        None => TEN_MINUTES,
    }
}

/// The GraphQL query for the departures of the stops near the building, from `start_time`
/// over `time_range` seconds.
pub open spec fn stops_query(start_time: i64, time_range: Option<i64>) -> Seq<char> {
    QUERY_HEAD@ + decimal_int(start_time as int) + QUERY_MIDDLE@
        + decimal_int(effective_time_range(time_range) as int) + QUERY_TAIL@
}

/// The GraphQL query for the departures near the building: the start time and the time range
/// (ten minutes when none is given) written in decimal into the fixed query text.
pub fn query_stops_by_radius_query(start_time: i64, time_range: Option<i64>) -> (r: String)
    ensures
        r@ == stops_query(start_time, time_range),
{
    let time_range: i64 = match time_range {
        Some(t) => t,
        None => TEN_MINUTES,
    };
    let mut query = String::from_str(QUERY_HEAD);
    push_decimal_signed(&mut query, start_time);
    query.append(QUERY_MIDDLE);
    push_decimal_signed(&mut query, time_range);
    query.append(QUERY_TAIL);
    query
}

/// Integer division rounded toward zero, as Rust's `/` on integers does.
pub open spec fn div_toward_zero(a: int, b: int) -> int {
    if a >= 0 { a / b } else { -((-a) / b) }
}

/// The text that says in how many whole minutes an arrival at `seconds_since_midnight`
/// comes, seen at `now_seconds_since_midnight`.
pub open spec fn minutes_text(seconds_since_midnight: int, now_seconds_since_midnight: int) -> Seq<char> {
    decimal_int(div_toward_zero(seconds_since_midnight - now_seconds_since_midnight, 60))
        + " minutes from now"@
}

/// How many whole minutes from now an arrival comes, as text: the difference in seconds,
/// divided by 60 toward zero, followed by " minutes from now".
pub fn format_minutes_diff(seconds_since_midnight: i64, now_seconds_since_midnight: i64) -> (r: String)
    ensures
        r@ == minutes_text(seconds_since_midnight as int, now_seconds_since_midnight as int),
{
    let diff: i128 = seconds_since_midnight as i128 - now_seconds_since_midnight as i128;
    let magnitude: u128 = if diff >= 0 { diff as u128 } else { (0i128 - diff) as u128 };
    let quotient: u128 = magnitude / 60;
    assert(quotient <= 0x1_0000_0000_0000_0000u128 / 60);
    let minutes: i64 = if diff >= 0 { quotient as i64 } else { 0i64 - quotient as i64 };
    assert(minutes == div_toward_zero(seconds_since_midnight - now_seconds_since_midnight, 60));
    let mut text = String::new();
    push_decimal_signed(&mut text, minutes);
    text.append(" minutes from now");
    text
}

/// A text that `format_minutes_diff_from_now` can give for an arrival at
/// `seconds_since_midnight`: the minutes text for some reading of the local time of day that
/// the clock can give, or "Error".
pub open spec fn is_minutes_text(text: Seq<char>, seconds_since_midnight: i64) -> bool {
    ||| text == "Error"@
    ||| exists|now: i64| is_reading_since_midnight(now)
        && text == #[trigger] minutes_text(seconds_since_midnight as int, now as int)
}

/// In how many whole minutes from the current local time of day an arrival at
/// `seconds_since_midnight` comes, as text; "Error" when the local midnight cannot be found.
pub fn format_minutes_diff_from_now(seconds_since_midnight: i64) -> (r: String)
    ensures
        is_minutes_text(r@, seconds_since_midnight),
{
    match local_seconds_since_midnight() {
        Some(now_seconds_since_midnight) => format_minutes_diff(seconds_since_midnight, now_seconds_since_midnight),
        None => String::from_str("Error"),
    }
}

/// The views of a sequence of arrivals.
pub open spec fn arrival_views(s: Seq<Arrivals>) -> Seq<ArrivalsView> {
    s.map_values(|a: Arrivals| a@)
}

/// Keeps the arrivals at time `t`.
pub open spec fn arrives_at(t: i64) -> spec_fn(ArrivalsView) -> bool {
    |v: ArrivalsView| v.realtime_arrival == t
}

/// Arrivals in order of their time, earliest first.
pub open spec fn sorted_by_arrival(s: Seq<ArrivalsView>) -> bool {
    forall|i: int, j: int| 0 <= i <= j < s.len() ==> #[trigger] s[i].realtime_arrival <= #[trigger] s[j].realtime_arrival
}

/// `r` is `s` sorted by arrival time, arrivals at the same time kept in their order in `s`.
pub open spec fn is_stable_arrival_sort(r: Seq<ArrivalsView>, s: Seq<ArrivalsView>) -> bool {
    &&& r.len() == s.len()
    &&& sorted_by_arrival(r)
    &&& forall|t: i64| #[trigger] r.filter(arrives_at(t)) == s.filter(arrives_at(t))
}

proof fn lemma_filter_none<A>(s: Seq<A>, p: spec_fn(A) -> bool)
    requires
        forall|i: int| 0 <= i < s.len() ==> !p(#[trigger] s[i]),
    ensures
        s.filter(p) == Seq::<A>::empty(),
{
    s.lemma_all_neg_filter_empty(p);
    assert(s.filter(p) =~= Seq::<A>::empty());
}

proof fn lemma_filter_single<A>(x: A, p: spec_fn(A) -> bool)
    ensures
        seq![x].filter(p) == (if p(x) { seq![x] } else { Seq::<A>::empty() }),
{
    Seq::<A>::empty().lemma_filter_push(x, p);
    reveal(Seq::filter);
    assert(Seq::<A>::empty().push(x) =~= seq![x]);
    assert(Seq::<A>::empty().filter(p) =~= Seq::<A>::empty());
}

/// Inserting an arrival after every earlier-or-equal one and before every later one keeps the
/// order, and adds it at the end of the arrivals with its time.
proof fn lemma_insert_in_order(s: Seq<ArrivalsView>, x: ArrivalsView, p: int)
    requires
        sorted_by_arrival(s),
        0 <= p <= s.len(),
        p == 0 || s[p - 1].realtime_arrival <= x.realtime_arrival,
        forall|j: int| p <= j < s.len() ==> (#[trigger] s[j]).realtime_arrival > x.realtime_arrival,
    ensures
        sorted_by_arrival(s.insert(p, x)),
        forall|t: i64| #[trigger] s.insert(p, x).filter(arrives_at(t)) == if t == x.realtime_arrival {
            s.filter(arrives_at(t)).push(x)
        } else {
            s.filter(arrives_at(t))
        },
{
    let r = s.insert(p, x);
    assert forall|i: int, j: int| 0 <= i <= j < r.len() implies #[trigger] r[i].realtime_arrival <= #[trigger] r[j].realtime_arrival by {
        if i < p {
            assert(s[i].realtime_arrival <= s[p - 1].realtime_arrival);
        }
        if j > p && i < p {
            assert(s[i].realtime_arrival <= s[j - 1].realtime_arrival);
        }
        if j > p && i > p {
            assert(s[i - 1].realtime_arrival <= s[j - 1].realtime_arrival);
        }
    }
    let a = s.take(p);
    let b = s.skip(p);
    assert(r =~= a + seq![x] + b);
    assert(s =~= a + b);
    assert forall|t: i64| #[trigger] s.insert(p, x).filter(arrives_at(t)) == if t == x.realtime_arrival {
        s.filter(arrives_at(t)).push(x)
    } else {
        s.filter(arrives_at(t))
    } by {
        let q = arrives_at(t);
        Seq::filter_distributes_over_add(a + seq![x], b, q);
        Seq::filter_distributes_over_add(a, seq![x], q);
        Seq::filter_distributes_over_add(a, b, q);
        lemma_filter_single(x, q);
        if t == x.realtime_arrival {
            assert forall|i: int| 0 <= i < b.len() implies !q(#[trigger] b[i]) by {
                assert(b[i] == s[p + i]);
            }
            lemma_filter_none(b, q);
            assert(b.filter(q) =~= Seq::<ArrivalsView>::empty());
            assert(a.filter(q) + b.filter(q) =~= a.filter(q));
            assert(r.filter(q) =~= a.filter(q).push(x));
        } else {
            assert(a.filter(q) + Seq::<ArrivalsView>::empty() =~= a.filter(q));
        }
    }
}

/// Sorts arrivals by arrival time, earliest first; arrivals at the same time keep their order.
pub fn sort_arrivals(arrivals: Vec<Arrivals>) -> (r: Vec<Arrivals>)
    ensures
        is_stable_arrival_sort(arrival_views(r@), arrival_views(arrivals@)),
{
    let ghost orig = arrival_views(arrivals@);
    let mut input = arrivals;
    let mut sorted: Vec<Arrivals> = Vec::new();
    let mut n: usize = 0;
    proof {
        assert(orig.skip(0) =~= orig);
        assert forall|t: i64| #[trigger] arrival_views(sorted@).filter(arrives_at(t)) == orig.take(0).filter(arrives_at(t)) by {
            reveal(Seq::filter);
            assert(arrival_views(sorted@) =~= orig.take(0));
        }
    }
    while input.len() > 0
        invariant
            orig.len() == n + input.len(),
            n + input.len() <= usize::MAX,
            arrival_views(input@) == orig.skip(n as int),
            sorted.len() == n,
            sorted_by_arrival(arrival_views(sorted@)),
            forall|t: i64| #[trigger] arrival_views(sorted@).filter(arrives_at(t))
                == orig.take(n as int).filter(arrives_at(t)),
        decreases input.len(),
    {
        let ghost before = arrival_views(input@);
        let x = input.remove(0);
        proof {
            assert(before[0] == x@);
            assert(arrival_views(input@) =~= before.skip(1));
            assert(orig.skip(n as int)[0] == orig[n as int]);
            assert(orig.skip(n + 1) =~= orig.skip(n as int).skip(1));
        }
        let key = x.realtime_arrival;
        let ghost s = arrival_views(sorted@);
        let mut p: usize = sorted.len();
        loop
            invariant
                s == arrival_views(sorted@),
                p <= sorted.len(),
                forall|j: int| p <= j < sorted.len() ==> (#[trigger] s[j]).realtime_arrival > key,
            ensures
                p <= sorted.len(),
                p == 0 || s[p - 1].realtime_arrival <= key,
                forall|j: int| p <= j < sorted.len() ==> (#[trigger] s[j]).realtime_arrival > key,
            decreases p,
        {
            if p == 0 {
                break;
            }
            assert(s[p - 1] == sorted@[p - 1]@);
            if sorted[p - 1].realtime_arrival <= key {
                break;
            }
            p -= 1;
        }
        sorted.insert(p, x);
        proof {
            lemma_insert_in_order(s, x@, p as int);
            assert(arrival_views(sorted@) =~= s.insert(p as int, x@));
            assert(orig.take(n + 1) =~= orig.take(n as int).push(orig[n as int]));
            assert forall|t: i64| #[trigger] arrival_views(sorted@).filter(arrives_at(t))
                == orig.take(n + 1).filter(arrives_at(t)) by {
                orig.take(n as int).lemma_filter_push(orig[n as int], arrives_at(t));
            }
        }
        n += 1;
    }
    proof {
        assert(orig.take(n as int) =~= orig);
    }
    sorted
}

/// An arrival without its time text: what the routing data decides.
pub struct ArrivalInfo {
    pub gtfs_id: Seq<char>,
    pub stop_name: Seq<char>,
    pub stop_desc: Seq<char>,
    pub route_short_name: Seq<char>,
    pub headsign: Seq<char>,
    pub realtime_arrival: i64,
}

/// An arrival's view without its time text.
pub open spec fn info_of(v: ArrivalsView) -> ArrivalInfo {
    ArrivalInfo {
        gtfs_id: v.gtfs_id,
        stop_name: v.stop_name,
        stop_desc: v.stop_desc,
        route_short_name: v.route_short_name,
        headsign: v.headsign,
        realtime_arrival: v.realtime_arrival,
    }
}

/// The views of arrivals without their time texts.
pub open spec fn infos_of(s: Seq<ArrivalsView>) -> Seq<ArrivalInfo> {
    s.map_values(|v: ArrivalsView| info_of(v))
}

/// Keeps the arrival informations at time `t`.
pub open spec fn info_arrives_at(t: i64) -> spec_fn(ArrivalInfo) -> bool {
    |v: ArrivalInfo| v.realtime_arrival == t
}

/// The arrival that a departure from a stop makes: the stop's identifier, name and
/// description, the route's short name, the headsign (empty when there is none) and the time.
pub open spec fn departure_info(stop: Stop, t: StopTimesWithoutPatterns) -> ArrivalInfo {
    ArrivalInfo {
        gtfs_id: stop.gtfs_id@,
        stop_name: stop.name@,
        stop_desc: stop.desc@,
        route_short_name: t.trip.route.short_name@,
        headsign: match t.headsign {
            Some(h) => h@,
            None => Seq::empty(),
        },
        realtime_arrival: t.realtime_arrival,
    }
}

/// The arrivals of one stop, in the order of its departures.
pub open spec fn stop_arrival_infos(stop: Stop) -> Seq<ArrivalInfo> {
    stop.stop_times_without_patterns@.map_values(|t: StopTimesWithoutPatterns| departure_info(stop, t))
}

/// The arrivals of the stops of `edges`, stop after stop.
pub open spec fn edges_arrival_infos(edges: Seq<Edge>) -> Seq<ArrivalInfo>
    decreases edges.len(),
{
    if edges.len() == 0 {
        Seq::empty()
    } else {
        edges_arrival_infos(edges.drop_last()) + stop_arrival_infos(edges.last().node.stop)
    }
}

/// All arrivals in the routing data, stop after stop, each stop's in its order.
pub open spec fn data_arrival_infos(data: Data) -> Seq<ArrivalInfo> {
    edges_arrival_infos(data.stops_by_radius.edges@)
}

fn arrival_of(stop: &Stop, stop_time: &StopTimesWithoutPatterns) -> (r: Arrivals)
    ensures
        info_of(r@) == departure_info(*stop, *stop_time),
        is_minutes_text(r.realtime_text@, r.realtime_arrival),
{
    let realtime_text = format_minutes_diff_from_now(stop_time.realtime_arrival);
    Arrivals {
        gtfs_id: stop.gtfs_id.clone(),
        stop_desc: stop.desc.clone(),
        stop_name: stop.name.clone(),
        route_short_name: stop_time.trip.route.short_name.clone(),
        headsign: match &stop_time.headsign {
            Some(headsign) => headsign.clone(),
            None => String::new(),
        },
        realtime_arrival: stop_time.realtime_arrival,
        realtime_text: realtime_text,
    }
}

fn collect_arrivals(data: &Data) -> (r: Vec<Arrivals>)
    ensures
        infos_of(arrival_views(r@)) == data_arrival_infos(*data),
        forall|i: int| 0 <= i < r.len() ==> is_minutes_text((#[trigger] r[i]).realtime_text@, r[i].realtime_arrival),
{
    let edges = &data.stops_by_radius.edges;
    let mut arrivals: Vec<Arrivals> = Vec::new();
    let mut i: usize = 0;
    while i < edges.len()
        invariant
            edges == &data.stops_by_radius.edges,
            0 <= i <= edges.len(),
            infos_of(arrival_views(arrivals@)) == edges_arrival_infos(edges@.take(i as int)),
            forall|k: int| 0 <= k < arrivals.len() ==> is_minutes_text((#[trigger] arrivals[k]).realtime_text@, arrivals[k].realtime_arrival),
        decreases edges.len() - i,
    {
        let stop = &edges[i].node.stop;
        let times = &stop.stop_times_without_patterns;
        let mut j: usize = 0;
        proof {
            assert(stop_arrival_infos(*stop).take(0) =~= Seq::<ArrivalInfo>::empty());
            assert(edges_arrival_infos(edges@.take(i as int)) + Seq::<ArrivalInfo>::empty()
                =~= edges_arrival_infos(edges@.take(i as int)));
        }
        while j < times.len()
            invariant
                edges == &data.stops_by_radius.edges,
                0 <= i < edges.len(),
                stop == &edges@[i as int].node.stop,
                times == &stop.stop_times_without_patterns,
                0 <= j <= times.len(),
                infos_of(arrival_views(arrivals@))
                    == edges_arrival_infos(edges@.take(i as int)) + stop_arrival_infos(*stop).take(j as int),
                forall|k: int| 0 <= k < arrivals.len() ==> is_minutes_text((#[trigger] arrivals[k]).realtime_text@, arrivals[k].realtime_arrival),
            decreases times.len() - j,
        {
            let a = arrival_of(stop, &times[j]);
            let ghost before = arrival_views(arrivals@);
            arrivals.push(a);
            proof {
                assert(arrival_views(arrivals@) =~= before.push(a@));
                assert(infos_of(before.push(a@)) =~= infos_of(before).push(info_of(a@)));
                assert(stop_arrival_infos(*stop).take(j + 1)
                    =~= stop_arrival_infos(*stop).take(j as int).push(departure_info(*stop, times@[j as int])));
                assert(infos_of(arrival_views(arrivals@))
                    =~= edges_arrival_infos(edges@.take(i as int)) + stop_arrival_infos(*stop).take(j + 1));
            }
            j += 1;
        }
        proof {
            assert(stop_arrival_infos(*stop).take(times.len() as int) =~= stop_arrival_infos(*stop));
            assert(edges@.take(i + 1).drop_last() =~= edges@.take(i as int));
            assert(edges@.take(i + 1).last() == edges@[i as int]);
        }
        i += 1;
    }
    assert(edges@.take(edges.len() as int) =~= edges@);
    arrivals
}

/// Filtering after a map is the map of filtering by the composed predicate.
proof fn lemma_filter_after_map<A, B>(s: Seq<A>, f: spec_fn(A) -> B, p: spec_fn(B) -> bool, q: spec_fn(A) -> bool)
    requires
        forall|a: A| #[trigger] q(a) == p(f(a)),
    ensures
        s.map_values(f).filter(p) == s.filter(q).map_values(f),
    decreases s.len(),
{
    reveal(Seq::filter);
    if s.len() == 0 {
        assert(s.map_values(f) =~= Seq::<B>::empty());
        assert(s.filter(q).map_values(f) =~= Seq::<B>::empty());
    } else {
        let t = s.drop_last();
        lemma_filter_after_map(t, f, p, q);
        assert(s.map_values(f).drop_last() =~= t.map_values(f));
        assert(s.map_values(f).last() == f(s.last()));
        if q(s.last()) {
            assert(s.filter(q).map_values(f) =~= t.filter(q).map_values(f).push(f(s.last())));
        }
    }
}

proof fn lemma_infos_filter(s: Seq<ArrivalsView>, t: i64)
    ensures
        infos_of(s).filter(info_arrives_at(t)) == s.filter(arrives_at(t)).map_values(|v: ArrivalsView| info_of(v)),
{
    lemma_filter_after_map(s, |v: ArrivalsView| info_of(v), info_arrives_at(t), arrives_at(t));
}

/// `r` holds the arrivals of the routing data, earliest first, those at the same time in the
/// order of the data (their time texts aside).
pub open spec fn arranges_arrivals(r: Seq<ArrivalsView>, data: Data) -> bool {
    &&& r.len() == data_arrival_infos(data).len()
    &&& sorted_by_arrival(r)
    &&& forall|t: i64| #[trigger] infos_of(r).filter(info_arrives_at(t))
        == data_arrival_infos(data).filter(info_arrives_at(t))
}

/// The arrivals of the routing data, earliest first: one for each departure of each stop,
/// with the stop's identifier, name and description, the route's short name, the headsign
/// (empty when there is none) and the arrival time; arrivals at the same time keep the order
/// of the data. Each carries the text of how many minutes from now it comes.
pub fn parse_times_to_arrivals(data: Data) -> (r: Vec<Arrivals>)
    ensures
        arranges_arrivals(arrival_views(r@), data),
        forall|i: int| 0 <= i < r.len() ==> is_minutes_text((#[trigger] r[i]).realtime_text@, r[i].realtime_arrival),
{
    let collected = collect_arrivals(&data);
    let ghost c = arrival_views(collected@);
    let arrivals = sort_arrivals(collected);
    let ghost rv = arrival_views(arrivals@);
    proof {
        assert(infos_of(c).len() == c.len());
        assert forall|t: i64| #[trigger] infos_of(rv).filter(info_arrives_at(t))
            == data_arrival_infos(data).filter(info_arrives_at(t)) by {
            lemma_infos_filter(rv, t);
            lemma_infos_filter(c, t);
        }
        assert forall|i: int| 0 <= i < arrivals.len() implies is_minutes_text((#[trigger] arrivals[i]).realtime_text@, arrivals[i].realtime_arrival) by {
            let v = rv[i];
            assert(v == arrivals[i]@);
            let key = arrival_views(arrivals@)[i].realtime_arrival;
            rv.lemma_filter_contains(arrives_at(key), i);
            assert(c.filter(arrives_at(key)).contains(v));
            c.lemma_filter_contains_rev(arrives_at(key), v);
            let j = choose|j: int| 0 <= j < c.len() && c[j] == v;
            assert(c[j] == collected@[j]@);
        }
    }
    arrivals
}

/// A lowercase hexadecimal digit (0 to 15).
pub open spec fn hex_digit_lower(d: int) -> char {
    if d < 10 { digit_char(d) }
    else if d == 10 { 'a' }
    else if d == 11 { 'b' }
    else if d == 12 { 'c' }
    else if d == 13 { 'd' }
    else if d == 14 { 'e' }
    else { 'f' }
}

/// How a JSON string literal writes one character: quote, backslash and the control
/// characters escaped (the short forms \b \t \n \f \r where JSON has them, else \u00 and two
/// lowercase hexadecimal digits); every other character as it is.
pub open spec fn json_escaped_char(c: char) -> Seq<char> {
    if c == '"' { seq!['\\', '"'] }
    else if c == '\\' { seq!['\\', '\\'] }
    else if c == '\u{8}' { seq!['\\', 'b'] }
    else if c == '\t' { seq!['\\', 't'] }
    else if c == '\n' { seq!['\\', 'n'] }
    else if c == '\u{c}' { seq!['\\', 'f'] }
    else if c == '\r' { seq!['\\', 'r'] }
    else if (c as int) < 0x20 {
        seq!['\\', 'u', '0', '0', hex_digit_lower((c as int) / 16), hex_digit_lower((c as int) % 16)]
    } else {
        seq![c]
    }
}

/// The characters of a text as a JSON string literal writes them, between the quotes.
pub open spec fn json_escaped(s: Seq<char>) -> Seq<char>
    decreases s.len(),
{
    if s.len() == 0 {
        Seq::empty()
    } else {
        json_escaped(s.drop_last()) + json_escaped_char(s.last())
    }
}

/// A text as a JSON string literal: quoted, with its characters escaped.
pub open spec fn json_string_literal(s: Seq<char>) -> Seq<char> {
    seq!['"'] + json_escaped(s) + seq!['"']
}

/// `serde_json::to_string` on a `str`: the text as a JSON string literal. serde_json's
/// `format_escaped_str` writes a quote, the text with `"`, `\\` and the bytes below 0x20 escaped
/// by its `ESCAPE` table (short forms \b \t \n \f \r, else \u00 and lowercase hex), and a
/// quote; writing into a `Vec` cannot fail, so the result is always there.
#[verifier::external_body]
fn json_string(s: &str) -> (r: Option<String>)
    ensures
        r is Some,
        r matches Some(j) ==> j@ == json_string_literal(s@),
{
    serde_json::to_string(s).ok()
}

/// The JSON body of a GraphQL request carrying `query`: `{"query":` the query as a JSON
/// string, then `}`.
pub open spec fn graphql_body(query: Seq<char>) -> Seq<char> {
    "{\"query\":"@ + json_string_literal(query) + "}"@
}

/// The JSON body that posts `query` to a GraphQL service.
pub fn graphql_request_body(query: &str) -> (r: String)
    ensures
        r@ == graphql_body(query@),
{
    let quoted = match json_string(query) {
        Some(j) => j,
        None => String::new(),
    };
    let mut body = String::from_str("{\"query\":");
    body.append(quoted.as_str());
    body.append("}");
    body
}

/// The query for the departures near the building that come from two minutes after
/// `unix_now` on, over the default time range.
pub fn next_arrivals_query(unix_now: i64) -> (r: String)
    requires
        unix_now + TWO_MINUTES <= i64::MAX,
    ensures
        r@ == stops_query((unix_now + TWO_MINUTES) as i64, None),
{
    query_stops_by_radius_query(unix_now + TWO_MINUTES, None)
}

/// The request body for the coming departures near the building, asked from two minutes
/// after `unix_now` on; `None` exactly when two more minutes do not fit in an `i64`.
pub fn request_body_for(unix_now: i64) -> (r: Option<String>)
    ensures
        r is None <==> unix_now > i64::MAX - TWO_MINUTES,
        r matches Some(body) ==> body@ == graphql_body(stops_query((unix_now + TWO_MINUTES) as i64, None)),
{
    if unix_now > i64::MAX - TWO_MINUTES {
        return None;
    }
    let query = next_arrivals_query(unix_now);
    let body = graphql_request_body(query.as_str());
    Some(body)
}

/// The request body for the coming departures near the building, asked from two minutes
/// after the current time on. `None` only when the clock reads a time so late that two more
/// minutes do not fit in an `i64`.
pub fn next_arrivals_request_body() -> (r: Option<String>)
    ensures
        r matches Some(body) ==> exists|unix_now: i64| unix_now + TWO_MINUTES <= i64::MAX
            && body@ == #[trigger] graphql_body(stops_query((unix_now + TWO_MINUTES) as i64, None)),
{
    let unix_now = unix_timestamp_now();
    request_body_for(unix_now)
}

proof fn lemma_count_in_filter<A>(s: Seq<A>, p: spec_fn(A) -> bool, x: A)
    requires
        p(x),
    ensures
        s.filter(p).to_multiset().count(x) == s.to_multiset().count(x),
    decreases s.len(),
{
    broadcast use vstd::seq_lib::group_to_multiset_ensures;
    broadcast use vstd::multiset::group_multiset_axioms;

    reveal(Seq::filter);
    if s.len() == 0 {
        assert(s.filter(p) =~= s);
    } else {
        let t = s.drop_last();
        lemma_count_in_filter(t, p, x);
        assert(s =~= t.push(s.last()));
        if p(s.last()) {
            assert(s.filter(p) == t.filter(p).push(s.last()));
        } else {
            assert(s.filter(p) == t.filter(p));
        }
    }
}

/// A stable sort by arrival time rearranges the arrivals and loses or adds none: the two
/// sequences hold the same arrivals, each as many times.
pub proof fn lemma_stable_arrival_sort_is_permutation(r: Seq<ArrivalsView>, s: Seq<ArrivalsView>)
    requires
        is_stable_arrival_sort(r, s),
    ensures
        r.to_multiset() == s.to_multiset(),
{
    assert forall|x: ArrivalsView| r.to_multiset().count(x) == s.to_multiset().count(x) by {
        let p = arrives_at(x.realtime_arrival);
        lemma_count_in_filter(r, p, x);
        lemma_count_in_filter(s, p, x);
        assert(r.filter(p) == s.filter(p));
    }
    assert(r.to_multiset() =~= s.to_multiset());
}

/// A query asked without a time range asks for ten minutes.
pub proof fn lemma_query_default_time_range(start_time: i64)
    ensures
        stops_query(start_time, None) == stops_query(start_time, Some(TEN_MINUTES)),
{
}

/// Arrival informations in order of their time, earliest first.
pub open spec fn infos_sorted(s: Seq<ArrivalInfo>) -> bool {
    forall|i: int, j: int| 0 <= i <= j < s.len() ==> #[trigger] s[i].realtime_arrival <= #[trigger] s[j].realtime_arrival
}

proof fn lemma_filter_of_push<A>(s: Seq<A>, p: spec_fn(A) -> bool)
    requires
        s.len() > 0,
    ensures
        s.filter(p) == if p(s.last()) { s.drop_last().filter(p).push(s.last()) } else { s.drop_last().filter(p) },
{
    assert(s =~= s.drop_last().push(s.last()));
    s.drop_last().lemma_filter_push(s.last(), p);
}

/// Sorting by time and keeping each time's arrivals in a given order leaves one outcome:
/// two sorted sequences with the same arrivals at every time are equal.
pub proof fn lemma_sorted_arrangement_unique(a: Seq<ArrivalInfo>, b: Seq<ArrivalInfo>)
    requires
        infos_sorted(a),
        infos_sorted(b),
        forall|t: i64| #[trigger] a.filter(info_arrives_at(t)) == b.filter(info_arrives_at(t)),
    ensures
        a == b,
    decreases a.len() + b.len(),
{
    if a.len() == 0 && b.len() == 0 {
        assert(a =~= b);
    } else if a.len() == 0 || b.len() == 0 {
        let (s, o) = if a.len() == 0 { (b, a) } else { (a, b) };
        let x = s.last();
        let p = info_arrives_at(x.realtime_arrival);
        lemma_filter_of_push(s, p);
        reveal(Seq::filter);
        assert(o.filter(p) =~= o);
        assert(s.filter(p).len() > 0);
        assert(a.filter(p) == b.filter(p));
    } else {
        let x = a.last();
        let y = b.last();
        let px = info_arrives_at(x.realtime_arrival);
        let py = info_arrives_at(y.realtime_arrival);
        lemma_filter_of_push(a, px);
        lemma_filter_of_push(b, py);
        assert(a.filter(px).contains(x)) by {
            assert(a.filter(px)[a.filter(px).len() - 1] == x);
        }
        assert(b.filter(py).contains(y)) by {
            assert(b.filter(py)[b.filter(py).len() - 1] == y);
        }
        assert(a.filter(px) == b.filter(px));
        assert(a.filter(py) == b.filter(py));
        b.lemma_filter_contains_rev(px, x);
        a.lemma_filter_contains_rev(py, y);
        let j = choose|j: int| 0 <= j < b.len() && b[j] == x;
        let i = choose|i: int| 0 <= i < a.len() && a[i] == y;
        assert(b[j].realtime_arrival <= b[b.len() - 1].realtime_arrival);
        assert(a[i].realtime_arrival <= a[a.len() - 1].realtime_arrival);
        assert(x.realtime_arrival == y.realtime_arrival);
        assert(px == py);
        lemma_filter_of_push(b, px);
        assert(x == y) by {
            assert(a.filter(px).last() == x);
            assert(b.filter(px).last() == y);
        }
        let a2 = a.drop_last();
        let b2 = b.drop_last();
        assert forall|t: i64| #[trigger] a2.filter(info_arrives_at(t)) == b2.filter(info_arrives_at(t)) by {
            let q = info_arrives_at(t);
            lemma_filter_of_push(a, q);
            lemma_filter_of_push(b, q);
            assert(a.filter(q) == b.filter(q));
            if q(x) {
                assert(a2.filter(q) =~= a.filter(q).drop_last());
                assert(b2.filter(q) =~= b.filter(q).drop_last());
            }
        }
        lemma_sorted_arrangement_unique(a2, b2);
        assert(a =~= a2.push(x));
        assert(b =~= b2.push(y));
    }
}

/// Two routing answers that agree on everything an arrival is made of: the same stops in the
/// same order with the same identifiers, names and descriptions, and the same departures with
/// the same arrival times, headsigns and routes. Distances, platform codes and scheduled times
/// may differ.
pub open spec fn same_arrival_sources(d1: Data, d2: Data) -> bool {
    let e1 = d1.stops_by_radius.edges@;
    let e2 = d2.stops_by_radius.edges@;
    &&& e1.len() == e2.len()
    &&& forall|i: int| 0 <= i < e1.len() ==> {
        let s1 = (#[trigger] e1[i]).node.stop;
        let s2 = e2[i].node.stop;
        let t1 = s1.stop_times_without_patterns@;
        let t2 = s2.stop_times_without_patterns@;
        &&& s1.gtfs_id@ == s2.gtfs_id@
        &&& s1.name@ == s2.name@
        &&& s1.desc@ == s2.desc@
        &&& t1.len() == t2.len()
        &&& forall|j: int| 0 <= j < t1.len() ==> {
            &&& (#[trigger] t1[j]).realtime_arrival == t2[j].realtime_arrival
            &&& t1[j].trip.route.short_name@ == t2[j].trip.route.short_name@
            &&& match (t1[j].headsign, t2[j].headsign) {
                (Some(h1), Some(h2)) => h1@ == h2@,
                (None, None) => true,
                _ => false,
            }
        }
    }
}

proof fn lemma_edges_infos_agree(e1: Seq<Edge>, e2: Seq<Edge>)
    requires
        e1.len() == e2.len(),
        forall|i: int| 0 <= i < e1.len() ==> stop_arrival_infos((#[trigger] e1[i]).node.stop)
            == stop_arrival_infos(e2[i].node.stop),
    ensures
        edges_arrival_infos(e1) == edges_arrival_infos(e2),
    decreases e1.len(),
{
    if e1.len() > 0 {
        lemma_edges_infos_agree(e1.drop_last(), e2.drop_last());
        assert(e1.last() == e1[e1.len() - 1]);
    }
}

/// What `parse_times_to_arrivals` returns, time texts aside, does not depend on the stops'
/// distances and platform codes nor on the departures' scheduled times: for two routing
/// answers that agree on the rest, any two results it may return agree on every arrival.
pub proof fn lemma_arrivals_ignore_unused_fields(d1: Data, d2: Data, r1: Seq<ArrivalsView>, r2: Seq<ArrivalsView>)
    requires
        same_arrival_sources(d1, d2),
        arranges_arrivals(r1, d1),
        arranges_arrivals(r2, d2),
    ensures
        infos_of(r1) == infos_of(r2),
{
    let e1 = d1.stops_by_radius.edges@;
    let e2 = d2.stops_by_radius.edges@;
    assert forall|i: int| 0 <= i < e1.len() implies stop_arrival_infos((#[trigger] e1[i]).node.stop)
        == stop_arrival_infos(e2[i].node.stop) by {
        let s1 = e1[i].node.stop;
        let s2 = e2[i].node.stop;
        let t1 = s1.stop_times_without_patterns@;
        let t2 = s2.stop_times_without_patterns@;
        assert forall|j: int| 0 <= j < t1.len() implies departure_info(s1, #[trigger] t1[j]) == departure_info(s2, t2[j]) by {
            match (t1[j].headsign, t2[j].headsign) {
                (Some(h1), Some(h2)) => {},
                _ => {},
            }
        }
        assert(stop_arrival_infos(s1) =~= stop_arrival_infos(s2));
    }
    lemma_edges_infos_agree(e1, e2);
    let a = infos_of(r1);
    let b = infos_of(r2);
    assert forall|i: int, j: int| 0 <= i <= j < a.len() implies #[trigger] a[i].realtime_arrival <= #[trigger] a[j].realtime_arrival by {
        assert(a[i] == info_of(r1[i]) && a[j] == info_of(r1[j]));
        assert(r1[i].realtime_arrival <= r1[j].realtime_arrival);
    }
    assert forall|i: int, j: int| 0 <= i <= j < b.len() implies #[trigger] b[i].realtime_arrival <= #[trigger] b[j].realtime_arrival by {
        assert(b[i] == info_of(r2[i]) && b[j] == info_of(r2[j]));
        assert(r2[i].realtime_arrival <= r2[j].realtime_arrival);
    }
    assert forall|t: i64| #[trigger] a.filter(info_arrives_at(t)) == b.filter(info_arrives_at(t)) by {
        assert(a.filter(info_arrives_at(t)) == data_arrival_infos(d1).filter(info_arrives_at(t)));
        assert(b.filter(info_arrives_at(t)) == data_arrival_infos(d2).filter(info_arrives_at(t)));
    }
    lemma_sorted_arrangement_unique(a, b);
}

} // verus!
