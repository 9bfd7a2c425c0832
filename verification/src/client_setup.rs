//! The bootstrap plan of a client of this service.
//!
//! A client connects to the hosting runtime, subscribes to the tables of
//! the synchronization core to build a local partial replica, and watches
//! the proximity view for row events. The network I/O itself lives
//! outside the verified core; these functions compute the plan — where to
//! connect and what to subscribe to — as plain data for the shell to
//! carry out.

use vstd::prelude::*;

verus! {

/// Where a client connects: the host URI, the database name, and the
/// saved credentials to present, if any.
pub struct ConnectionConfig {
    pub host: String,
    pub db_name: String,
    pub token: Option<String>,
}

/// The connection settings of this deployment, with the caller's saved
/// token passed through.
pub fn connect_to_db(token: Option<String>) -> (r: ConnectionConfig)
    ensures
        r.host@ == "https://astro-mouse.org"@,
        r.db_name@ == "fps-base"@,
        r.token == token,
{
    ConnectionConfig {
        host: "https://astro-mouse.org".to_owned(),
        db_name: "fps-base".to_owned(),
        token,
    }
}

/// The subscription queries a client issues to replicate the tables of
/// the synchronization core.
pub fn subscribe_to_tables() -> (r: Vec<&'static str>)
    ensures
        r@.len() == 5,
        r@[0]@ == "SELECT * FROM entity"@,
        r@[1]@ == "SELECT * FROM entity_position"@,
        r@[2]@ == "SELECT * FROM entity_rotation"@,
        r@[3]@ == "SELECT * FROM entity_chunk"@,
        r@[4]@ == "SELECT * FROM player_account"@,
{
    let mut r: Vec<&'static str> = Vec::new();
    r.push("SELECT * FROM entity");
    r.push("SELECT * FROM entity_position");
    r.push("SELECT * FROM entity_rotation");
    r.push("SELECT * FROM entity_chunk");
    r.push("SELECT * FROM player_account");
    r
}

/// The views whose row events a client watches once subscribed.
pub fn register_callbacks() -> (r: Vec<&'static str>)
    ensures
        r@.len() == 1,
        r@[0]@ == "nearby_entity_chunks"@,
{
    let mut r: Vec<&'static str> = Vec::new();
    r.push("nearby_entity_chunks");
    r
}

} // verus!
