//! The graph-database statements that record the simulation's static
//! structure: stations, station time tables, passengers and their trip logs.

use vstd::prelude::*;
use crate::custom_types::{Distance, HumanID, LineID, StationID, Time, TripID};
use crate::decimal::{append_decimal, decimal};

verus! {

/// The statement that creates station `id` named `name` at (`x`, `y`).
pub open spec fn station_node_query(id: StationID, name: Seq<char>, x: Distance, y: Distance) -> Seq<char> {
    "CREATE (a:Station:Static { stationID: "@ + decimal(id as nat) + ", name: \""@ + name
        + "\", corX: "@ + decimal(x as nat) + ", corY: "@ + decimal(y as nat) + "})"@
}

/// The statement that creates passenger `hid`.
pub open spec fn human_node_query(hid: HumanID) -> Seq<char> {
    "CREATE (a:Human:Static { humanID: "@ + decimal(hid as nat) + "})"@
}

/// The statement that creates trip log `trid` of passenger `hid`.
pub open spec fn trip_log_query(hid: HumanID, trid: TripID) -> Seq<char> {
    "CREATE (t:TripLog { humanID: "@ + decimal(hid as nat) + ", tripID: "@ + decimal(trid as nat) + "})"@
}

/// The statement that links passenger `hid` to its trip log.
pub open spec fn human_log_link_query(hid: HumanID) -> Seq<char> {
    "MATCH (a:Human), (t:TripLog) WHERE a.humanID = "@ + decimal(hid as nat) + " AND t.humanID = "@
        + decimal(hid as nat) + " CREATE (a)-[:LOG]->(t)"@
}

/// The statement that creates the time table of station `sid` on line `lid`.
pub open spec fn station_table_query(sid: StationID, lid: LineID, stop_time: Time) -> Seq<char> {
    "CREATE (a:StationTable:Static { stationID: "@ + decimal(sid as nat) + ", lineID: "@ + decimal(lid as nat)
        + ", stop_time: "@ + decimal(stop_time as nat) + "})"@
}

/// The statement that links station `sid` to its time table on line `lid`.
pub open spec fn station_table_link_query(sid: StationID, lid: LineID) -> Seq<char> {
    "MATCH (a:Station), (t:StationTable) WHERE a.stationID = "@ + decimal(sid as nat) + " AND t.stationID = "@
        + decimal(sid as nat) + " AND t.lineID = "@ + decimal(lid as nat) + " CREATE (a)-[:TABLE]->(t)"@
}

/// The statement that links station `sid` to the next station `next`, `dist` away.
pub open spec fn next_station_query(sid: StationID, next: StationID, dist: Distance) -> Seq<char> {
    "MATCH (a:Station), (b:Station) WHERE a.stationID = "@ + decimal(sid as nat) + " AND b.stationID = "@
        + decimal(next as nat) + " CREATE (a)-[rel:NEXT_STATION]->(b) SET rel.distance = "@
        + decimal(dist as nat)
}

/// Builds `station_node_query(id, name, x, y)`.
pub fn station_node(id: StationID, name: &str, x: Distance, y: Distance) -> (q: String)
    ensures
        q@ == station_node_query(id, name@, x, y),
{
    let mut q = String::from_str("CREATE (a:Station:Static { stationID: ");
    append_decimal(&mut q, id);
    q.append(", name: \"");
    q.append(name);
    q.append("\", corX: ");
    append_decimal(&mut q, x);
    q.append(", corY: ");
    append_decimal(&mut q, y);
    q.append("})");
    q
}

/// Builds `human_node_query(hid)`.
pub fn human_node(hid: HumanID) -> (q: String)
    ensures
        q@ == human_node_query(hid),
{
    let mut q = String::from_str("CREATE (a:Human:Static { humanID: ");
    append_decimal(&mut q, hid);
    q.append("})");
    q
}

/// Builds `trip_log_query(hid, trid)`.
pub fn trip_log(hid: HumanID, trid: TripID) -> (q: String)
    ensures
        q@ == trip_log_query(hid, trid),
{
    let mut q = String::from_str("CREATE (t:TripLog { humanID: ");
    append_decimal(&mut q, hid);
    q.append(", tripID: ");
    append_decimal(&mut q, trid);
    q.append("})");
    q
}

/// Builds `human_log_link_query(hid)`.
pub fn human_log_link(hid: HumanID) -> (q: String)
    ensures
        q@ == human_log_link_query(hid),
{
    let mut q = String::from_str("MATCH (a:Human), (t:TripLog) WHERE a.humanID = ");
    append_decimal(&mut q, hid);
    q.append(" AND t.humanID = ");
    append_decimal(&mut q, hid);
    q.append(" CREATE (a)-[:LOG]->(t)");
    q
}

/// Builds `station_table_query(sid, lid, stop_time)`.
pub fn station_table(sid: StationID, lid: LineID, stop_time: Time) -> (q: String)
    ensures
        q@ == station_table_query(sid, lid, stop_time),
{
    let mut q = String::from_str("CREATE (a:StationTable:Static { stationID: ");
    append_decimal(&mut q, sid);
    q.append(", lineID: ");
    append_decimal(&mut q, lid);
    q.append(", stop_time: ");
    append_decimal(&mut q, stop_time);
    q.append("})");
    q
}

/// Builds `station_table_link_query(sid, lid)`.
pub fn station_table_link(sid: StationID, lid: LineID) -> (q: String)
    ensures
        q@ == station_table_link_query(sid, lid),
{
    let mut q = String::from_str("MATCH (a:Station), (t:StationTable) WHERE a.stationID = ");
    append_decimal(&mut q, sid);
    q.append(" AND t.stationID = ");
    append_decimal(&mut q, sid);
    q.append(" AND t.lineID = ");
    append_decimal(&mut q, lid);
    q.append(" CREATE (a)-[:TABLE]->(t)");
    q
}

/// Builds `next_station_query(sid, next, dist)`.
pub fn next_station(sid: StationID, next: StationID, dist: Distance) -> (q: String)
    ensures
        q@ == next_station_query(sid, next, dist),
{
    let mut q = String::from_str("MATCH (a:Station), (b:Station) WHERE a.stationID = ");
    append_decimal(&mut q, sid);
    q.append(" AND b.stationID = ");
    append_decimal(&mut q, next);
    q.append(" CREATE (a)-[rel:NEXT_STATION]->(b) SET rel.distance = ");
    append_decimal(&mut q, dist);
    q
}

} // verus!
