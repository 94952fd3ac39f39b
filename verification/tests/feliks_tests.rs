use feliks::cypher::{
    human_log_link, human_node, next_station, station_node, station_table, station_table_link, trip_log,
};
use feliks::decimal::append_decimal;
use feliks::human::{Human, HumanState, TripUnit};
use feliks::human_manager::HumanManager;
use feliks::schedule::{Event, Scheduler};
use feliks::sim_engine::SimEngine;
use feliks::train::{LineTimeTable, Station, StationTimeTable, Train};
use feliks::train_manager::TrainManager;

fn arrival(lid: u32, sid: u32, tid: u32) -> Event {
    Event::TrainArrival { lid, sid, tid }
}

fn departure(lid: u32, sid: u32, tid: u32) -> Event {
    Event::TrainDeparture { lid, sid, tid }
}

#[test]
fn decimal_rendering() {
    for n in [0u32, 7, 10, 99, 100, 1234567, u32::MAX] {
        let mut s = String::from("x=");
        append_decimal(&mut s, n);
        assert_eq!(s, format!("x={}", n));
    }
}

#[test]
fn station_query_text() {
    let q = station_node(3, "Apple", 0, 150);
    assert_eq!(
        q,
        format!("CREATE (a:Station:Static {{ stationID: {}, name: \"{}\", corX: {}, corY: {}}})", 3, "Apple", 0, 150)
    );
}

#[test]
fn human_query_texts() {
    assert_eq!(human_node(41), "CREATE (a:Human:Static { humanID: 41})");
    assert_eq!(trip_log(41, 905), "CREATE (t:TripLog { humanID: 41, tripID: 905})");
    assert_eq!(
        human_log_link(41),
        "MATCH (a:Human), (t:TripLog) WHERE a.humanID = 41 AND t.humanID = 41 CREATE (a)-[:LOG]->(t)"
    );
}

#[test]
fn station_table_query_texts() {
    assert_eq!(station_table(2, 1, 7), "CREATE (a:StationTable:Static { stationID: 2, lineID: 1, stop_time: 7})");
    assert_eq!(
        station_table_link(2, 1),
        "MATCH (a:Station), (t:StationTable) WHERE a.stationID = 2 AND t.stationID = 2 AND t.lineID = 1 CREATE (a)-[:TABLE]->(t)"
    );
    assert_eq!(
        next_station(2, 3, 100),
        "MATCH (a:Station), (b:Station) WHERE a.stationID = 2 AND b.stationID = 3 CREATE (a)-[rel:NEXT_STATION]->(b) SET rel.distance = 100"
    );
}

#[test]
fn scheduler_hands_out_earliest_due_first() {
    let mut sch = Scheduler::new();
    sch.push(5, arrival(0, 0, 0));
    sch.push(3, departure(0, 1, 1));
    sch.push(7, arrival(1, 2, 2));
    assert_eq!(sch.peek(), Some((3, departure(0, 1, 1))));
    assert_eq!(sch.consume(2), None);
    assert_eq!(sch.consume(4), Some(departure(0, 1, 1)));
    assert_eq!(sch.consume(4), None);
    assert_eq!(sch.consume(10), Some(arrival(0, 0, 0)));
    assert_eq!(sch.consume(10), Some(arrival(1, 2, 2)));
    assert_eq!(sch.consume(100), None);
    assert_eq!(sch.peek(), None);
}

#[test]
fn scheduler_push_then_consume() {
    let e = Event::HumanLeaveStation { hid: 9, sid: 4 };
    let mut sch = Scheduler::new();
    sch.push(10, e);
    assert_eq!(sch.consume(9), None);
    assert_eq!(sch.consume(10), Some(e));
    assert_eq!(sch.consume(u32::MAX), None);
}

#[test]
fn sim_engine_step_drains_due_events() {
    let mut sch = Scheduler::new();
    sch.push(1, arrival(0, 0, 0));
    sch.push(2, departure(0, 0, 0));
    sch.push(5, arrival(0, 1, 0));
    {
        let mut engine = SimEngine::new(4, &mut sch);
        engine.do_step(2);
        assert_eq!(engine.count_sim(), 4);
    }
    assert_eq!(sch.peek(), Some((5, arrival(0, 1, 0))));
    assert_eq!(sch.consume(4), None);
    assert_eq!(sch.consume(5), Some(arrival(0, 1, 0)));
    assert_eq!(sch.peek(), None);
}

#[test]
fn sim_engine_step_with_nothing_due() {
    let mut sch = Scheduler::new();
    sch.push(8, arrival(0, 0, 0));
    {
        let mut engine = SimEngine::new(0, &mut sch);
        engine.do_step(7);
    }
    assert_eq!(sch.peek(), Some((8, arrival(0, 0, 0))));
}

fn sample_line() -> LineTimeTable {
    let mut line = LineTimeTable::new(0, "FRUITY".to_string(), 10);
    line.add_station(StationTimeTable::new(10, 5, 1, Some(50), Some(11)));
    line.add_station(StationTimeTable::new(11, 6, 1, Some(100), Some(12)));
    line.add_station(StationTimeTable::new(12, 7, 2, Some(100), Some(13)));
    line.add_station(StationTimeTable::new(13, 8, 3, None, None));
    line
}

#[test]
fn line_time_table_accessors() {
    let mut line = sample_line();
    assert_eq!(line.total_weight, 7);
    assert_eq!(line.get_total_weight(), 7);
    assert_eq!(line.stations, vec![10, 11, 12, 13]);
    assert_eq!(line.get_speed(), 10);
    assert_eq!(line.get_stop_time(12), 7);
    assert_eq!(line.get_next_station(11), Some(12));
    assert_eq!(line.get_next_station(13), None);
    assert_eq!(line.get_dis_next(10), Some(50));
    assert_eq!(line.get_dis_next(13), None);
    assert_eq!(line.get_first_station(), 10);
    assert!(line.get_new_times().is_empty());
    line.add_new_traintime(10);
    line.add_new_traintime(35);
    assert_eq!(line.get_new_times(), &vec![10, 35]);
}

#[test]
fn find_station_by_weight() {
    let line = sample_line();
    assert_eq!(line.find_station_weight(0), (0, 10));
    assert_eq!(line.find_station_weight(1), (0, 10));
    assert_eq!(line.find_station_weight(2), (1, 11));
    assert_eq!(line.find_station_weight(3), (2, 12));
    assert_eq!(line.find_station_weight(4), (2, 12));
    assert_eq!(line.find_station_weight(5), (3, 13));
    assert_eq!(line.find_station_weight(7), (3, 13));
    assert_eq!(line.find_station_weight(8), (0, 0));
    let empty = LineTimeTable::new(1, "EMPTY".to_string(), 3);
    assert_eq!(empty.find_station_weight(0), (0, 0));
}

#[test]
fn find_station_weight_is_monotone() {
    let line = sample_line();
    let mut last = 0;
    for w in 0..=7 {
        let (idx, _) = line.find_station_weight(w);
        assert!(idx >= last);
        last = idx;
    }
}

#[test]
fn previous_station_on_line() {
    let line = sample_line();
    assert_eq!(line.get_last_station(10), None);
    assert_eq!(line.get_last_station(11), Some(10));
    assert_eq!(line.get_last_station(13), Some(12));
}

#[test]
fn train_starts_empty_and_ignores_updates() {
    let mut t = Train::new(3, 1, 10, 5, 20);
    assert_eq!(t.speed, 10);
    assert_eq!(t.get_speed(), 10);
    assert!(t.passengers_queue.is_empty());
    t.update_state(arrival(1, 5, 3));
    assert_eq!(t.get_speed(), 10);
    assert!(t.passengers_queue.is_empty());
}

#[test]
fn unloading_lets_off_those_bound_here() {
    let mut t = Train::new(3, 1, 10, 5, 20);
    t.passengers_queue.push_back((100, 5, 7, 1, 0, 1000));
    t.passengers_queue.push_back((101, 5, 8, 1, 0, 1001));
    t.passengers_queue.push_back((102, 6, 7, 1, 2, 1002));
    let events = t.unload_at(7, 3);
    assert_eq!(
        events,
        vec![
            Event::HumanUnboardTrain { hid: 100, lid: 1, sid: 7, tid: 3, trid: 1000 },
            Event::HumanUnboardTrain { hid: 102, lid: 1, sid: 7, tid: 3, trid: 1002 },
        ]
    );
    assert_eq!(t.passengers_queue.iter().copied().collect::<Vec<_>>(), vec![(101, 5, 8, 1, 0, 1001)]);
    let none = t.unload_at(9, 3);
    assert!(none.is_empty());
    assert_eq!(t.passengers_queue.len(), 1);
}

#[test]
fn boarding_takes_the_line_and_cycles_the_rest() {
    let a = (1, 5, 9, 1, 0, 11);
    let b = (2, 5, 9, 2, 0, 12);
    let c = (3, 5, 9, 2, 0, 13);
    let mut st = Station::new(5, "Banana".to_string(), 50, 0);
    st.wait_queue.push_back(a);
    st.wait_queue.push_back(b);
    st.wait_queue.push_back(c);
    let mut t = Train::new(0, 1, 10, 5, 0);
    let events = t.board_from(&mut st, 1, 0, 50);
    assert_eq!(events, vec![Event::HumanBoardTrain { hid: 1, lid: 1, sid: 5, tid: 0, trid: 11 }]);
    assert_eq!(t.passengers_queue.iter().copied().collect::<Vec<_>>(), vec![a]);
    // 3 looks used, 47 spare looks cycle [b, c] an odd number of times.
    assert_eq!(st.wait_queue.iter().copied().collect::<Vec<_>>(), vec![c, b]);
}

#[test]
fn boarding_looks_at_no_more_than_the_capacity() {
    let a = (1, 5, 9, 1, 0, 11);
    let b = (2, 5, 9, 2, 0, 12);
    let c = (3, 5, 9, 1, 0, 13);
    let mut st = Station::new(5, "Banana".to_string(), 50, 0);
    st.wait_queue.push_back(a);
    st.wait_queue.push_back(b);
    st.wait_queue.push_back(c);
    let mut t = Train::new(0, 1, 10, 5, 0);
    let events = t.board_from(&mut st, 1, 0, 2);
    assert_eq!(events.len(), 1);
    assert_eq!(t.passengers_queue.iter().copied().collect::<Vec<_>>(), vec![a]);
    assert_eq!(st.wait_queue.iter().copied().collect::<Vec<_>>(), vec![c, b]);
}

#[test]
fn boarding_conserves_passengers() {
    let mut st = Station::new(5, "Banana".to_string(), 50, 0);
    for i in 0..120u32 {
        st.wait_queue.push_back((i, 5, 9, i % 3, 0, i));
    }
    let mut t = Train::new(0, 1, 10, 5, 0);
    t.passengers_queue.push_back((999, 4, 9, 1, 0, 999));
    let events = t.board_from(&mut st, 1, 0, 50);
    assert_eq!(events.len() + 1, t.passengers_queue.len());
    assert_eq!(st.wait_queue.len() + events.len(), 120);
    // Of the first 50 waiting, those with line 1 boarded.
    assert_eq!(events.len(), (0..50u32).filter(|i| i % 3 == 1).count());
    let mut all: Vec<u32> = st.wait_queue.iter().map(|p| p.0).chain(t.passengers_queue.iter().map(|p| p.0)).collect();
    all.sort();
    let mut expected: Vec<u32> = (0..120u32).collect();
    expected.push(999);
    assert_eq!(all, expected);
}

#[test]
fn station_starts_with_empty_queue() {
    let st = Station::new(2, "Coconut".to_string(), 150, 0);
    assert!(st.wait_queue.is_empty());
}

#[test]
fn trip_unit_and_human_constructors() {
    let t = TripUnit::new(1, 2, 3, 400, 410);
    assert_eq!(t.line, 1);
    assert_eq!(t.on, 2);
    assert_eq!(t.off, 3);
    assert_eq!(t.start_time, 400);
    assert_eq!(t.end_time, 410);
    let h = Human::new(5);
    assert!(h.plan.is_empty());
    let s = HumanState::OnTrain { hid: 5, lid: 1, tid: 2, to_sid: 3, since: 4 };
    assert_eq!(s, HumanState::OnTrain { hid: 5, lid: 1, tid: 2, to_sid: 3, since: 4 });
}

#[test]
fn registering_humans_hands_out_fresh_ids() {
    let mut hm = HumanManager::new();
    let plan = vec![TripUnit::new(0, 1, 2, 400, 404)];
    let (h0, (qs, qst, qstt), t0) = hm.register_human(plan);
    assert_eq!((h0, t0), (0, 0));
    assert_eq!(qs, "CREATE (a:Human:Static { humanID: 0})");
    assert_eq!(qst, "CREATE (t:TripLog { humanID: 0, tripID: 0})");
    assert_eq!(qstt, "MATCH (a:Human), (t:TripLog) WHERE a.humanID = 0 AND t.humanID = 0 CREATE (a)-[:LOG]->(t)");
    let (h1, _, t1) = hm.register_human(Vec::new());
    assert_eq!((h1, t1), (1, 1));
    assert_eq!(hm.humans.len(), 2);
    assert_eq!(hm.humans.get(&0).unwrap().plan, vec![TripUnit::new(0, 1, 2, 400, 404)]);
    assert!(hm.humans.get(&1).unwrap().plan.is_empty());
}

fn sample_manager<'a>() -> TrainManager<'a> {
    let mut tm = TrainManager::new();
    let (a, _) = tm.register_station("Apple".to_string(), 0, 0);
    let (b, _) = tm.register_station("Banana".to_string(), 50, 0);
    let (c, _) = tm.register_station("Coconut".to_string(), 150, 0);
    let fruity = tm.register_linetable("FRUITY".to_string(), 10);
    tm.add_station_toline(fruity, StationTimeTable::new(a, 5, 1, Some(50), Some(b)));
    tm.add_station_toline(fruity, StationTimeTable::new(b, 6, 1, Some(100), Some(c)));
    tm.add_station_toline(fruity, StationTimeTable::new(c, 7, 2, None, None));
    tm
}

#[test]
fn registering_stations_and_lines() {
    let mut tm = TrainManager::new();
    let (a, qa) = tm.register_station("Apple".to_string(), 0, 0);
    let (b, qb) = tm.register_station("Banana".to_string(), 50, 0);
    assert_eq!((a, b), (0, 1));
    assert_eq!(qa, "CREATE (a:Station:Static { stationID: 0, name: \"Apple\", corX: 0, corY: 0})");
    assert_eq!(qb, "CREATE (a:Station:Static { stationID: 1, name: \"Banana\", corX: 50, corY: 0})");
    assert_eq!(tm.register_linetable("FRUITY".to_string(), 10), 0);
    assert_eq!(tm.register_linetable("SWEETY".to_string(), 3), 1);
}

#[test]
fn adding_stations_to_lines() {
    let mut tm = TrainManager::new();
    let lid = tm.register_linetable("FRUITY".to_string(), 10);
    let qs = tm.add_station_toline(lid, StationTimeTable::new(0, 5, 1, Some(50), Some(1)));
    assert_eq!(
        qs,
        vec![
            "CREATE (a:StationTable:Static { stationID: 0, lineID: 0, stop_time: 5})".to_string(),
            "MATCH (a:Station), (t:StationTable) WHERE a.stationID = 0 AND t.stationID = 0 AND t.lineID = 0 CREATE (a)-[:TABLE]->(t)".to_string(),
            "MATCH (a:Station), (b:Station) WHERE a.stationID = 0 AND b.stationID = 1 CREATE (a)-[rel:NEXT_STATION]->(b) SET rel.distance = 50".to_string(),
        ]
    );
    let last = tm.add_station_toline(lid, StationTimeTable::new(1, 8, 3, None, None));
    assert_eq!(last.len(), 2);
    assert!(tm.add_station_toline(7, StationTimeTable::new(1, 8, 3, None, None)).is_empty());
    assert!(tm.add_new_traintime_toline(lid, 10));
    assert!(!tm.add_new_traintime_toline(7, 10));
    assert_eq!(tm.find_last_station(lid, 1), Some(0));
    assert_eq!(tm.find_last_station(lid, 0), None);
}

#[test]
fn trains_get_sequential_ids() {
    let mut tm = sample_manager();
    assert_eq!(tm.register_train(0, 0, 10), 0);
    assert_eq!(tm.register_train(0, 0, 35), 1);
    tm.train_update(arrival(0, 0, 0), 0);
    tm.train_update(arrival(0, 0, 9), 9);
}

#[test]
fn arrival_then_departure_then_arrival() {
    let mut tm = sample_manager();
    let tid = tm.register_train(0, 0, 10);
    tm.putWaitingHuman(100, 0, 2, 0, 3, 500);
    tm.putWaitingHuman(101, 0, 1, 1, 3, 501);
    tm.putWaitingHuman(102, 0, 1, 0, 4, 502);

    let (delay, next, human) = tm.handle_event(arrival(0, 0, tid), 10);
    assert_eq!(delay, 5);
    assert_eq!(next, Some(departure(0, 0, tid)));
    assert!(human.is_empty());

    let (delay, next, human) = tm.handle_event(departure(0, 0, tid), 15);
    assert_eq!(delay, 50 / 10);
    assert_eq!(next, Some(arrival(0, 1, tid)));
    assert_eq!(
        human,
        vec![
            Event::HumanBoardTrain { hid: 100, lid: 0, sid: 0, tid, trid: 500 },
            Event::HumanBoardTrain { hid: 102, lid: 0, sid: 0, tid, trid: 502 },
        ]
    );

    let (delay, next, human) = tm.handle_event(arrival(0, 1, tid), 20);
    assert_eq!(delay, 6);
    assert_eq!(next, Some(departure(0, 1, tid)));
    assert_eq!(human, vec![Event::HumanUnboardTrain { hid: 102, lid: 0, sid: 1, tid, trid: 502 }]);

    let (delay, next, human) = tm.handle_event(departure(0, 1, tid), 26);
    assert_eq!(delay, 100 / 10);
    assert_eq!(next, Some(arrival(0, 2, tid)));
    assert!(human.is_empty());

    let (_, _, human) = tm.handle_event(arrival(0, 2, tid), 36);
    assert_eq!(human, vec![Event::HumanUnboardTrain { hid: 100, lid: 0, sid: 2, tid, trid: 500 }]);

    let (delay, next, human) = tm.handle_event(departure(0, 2, tid), 43);
    assert_eq!((delay, next), (0, None));
    assert!(human.is_empty());
}

#[test]
fn passenger_events_need_no_handling() {
    let mut tm = sample_manager();
    for e in [
        Event::HumanArriveStation { hid: 1, sid: 0, lid: 0 },
        Event::HumanEnteredStation { hid: 1, sid: 0, dsid: 2, lid: 0, trid: 3 },
        Event::HumanBoardTrain { hid: 1, lid: 0, sid: 0, tid: 0, trid: 3 },
        Event::HumanUnboardTrain { hid: 1, lid: 0, sid: 2, tid: 0, trid: 3 },
        Event::HumanLeaveStation { hid: 1, sid: 2 },
    ] {
        let (delay, next, human) = tm.handle_event(e, 0);
        assert_eq!((delay, next), (0, None));
        assert!(human.is_empty());
    }
}

#[test]
fn trip_from_given_draws() {
    let mut tm = sample_manager();
    tm.add_station_toline(0, StationTimeTable::new(0, 1, 3, None, None));
    // running weight sums: 1, 2, 4, 7 for stations 0, 1, 2, 0
    let trip = tm.trip_from_draws(0, 1, 5, 400);
    assert_eq!(trip, vec![TripUnit::new(0, 0, 0, 400, 400 + 2 * 3)]);
    let trip = tm.trip_from_draws(0, 2, 3, 360);
    assert_eq!(trip, vec![TripUnit::new(0, 1, 2, 360, 362)]);
}

#[test]
fn random_trips_respect_the_draw_ranges() {
    let mut tm = sample_manager();
    tm.add_station_toline(0, StationTimeTable::new(0, 1, 3, None, None));
    let line = sample_line_manager_stations();
    let mut starts = std::collections::HashSet::new();
    for _ in 0..200 {
        let trip = tm.randomTrip();
        assert_eq!(trip.len(), 1);
        let leg = trip[0];
        assert_eq!(leg.line, 0);
        assert!(360 <= leg.start_time && leg.start_time < 1380);
        assert!(leg.end_time >= leg.start_time + 2);
        assert!(leg.end_time <= leg.start_time + 2 * 3);
        assert!(line.contains(&leg.on) && line.contains(&leg.off));
        starts.insert(leg.start_time);
    }
    // The start times are drawn, not fixed.
    assert!(starts.len() > 1);
}

fn sample_line_manager_stations() -> Vec<u32> {
    vec![0, 1, 2]
}

#[test]
fn line_keeps_speed_first_station_and_tables() {
    let mut line = LineTimeTable::new(2, "SWEETY".to_string(), 3);
    line.add_station(StationTimeTable::new(4, 10, 2, Some(70), Some(2)));
    line.add_new_traintime(20);
    line.add_station(StationTimeTable::new(2, 10, 2, Some(70), Some(5)));
    line.add_new_traintime(80);
    line.add_station(StationTimeTable::new(5, 10, 3, None, None));
    assert_eq!(line.get_speed(), 3);
    assert_eq!(line.get_first_station(), 4);
    assert_eq!(line.get_stop_time(4), 10);
    assert_eq!(line.get_next_station(4), Some(2));
    assert_eq!(line.get_dis_next(4), Some(70));
    assert_eq!(line.get_next_station(2), Some(5));
}

#[test]
fn line_operations_after_outside_edits() {
    let mut line = sample_line();
    // The public list of stations may be edited from outside; a weight that
    // no running sum reaches is still answered, and stations can still be added.
    line.stations.truncate(2);
    assert_eq!(line.find_station_weight(8), (0, 0));
    assert_eq!(line.find_station_weight(2), (1, 11));
    line.add_station(StationTimeTable::new(14, 9, 1, None, None));
    assert_eq!(line.total_weight, 8);
    assert_eq!(line.stations, vec![10, 11, 14]);
    assert_eq!(line.get_stop_time(14), 9);
}
