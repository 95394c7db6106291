//! The two streams that clients and servers agree on.

use vstd::prelude::*;

verus! {

/// How clients send to the server.
#[derive(Clone, Copy, Debug)]
pub struct ClientToServerSchema {
    pub name: &'static str,
    /// Where clients say which address they send from.
    pub mapper_port: u16,
    /// How often they say it, in milliseconds.
    pub heartbeat_period: u16,
    /// Where datagrams go.
    pub port: u16,
}

/// How the server sends to clients.
#[derive(Clone, Copy, Debug)]
pub struct ServerToClientSchema {
    pub name: &'static str,
    /// Where clients say which address they listen at.
    pub mapper_port: u16,
    /// How often they say it, in milliseconds.
    pub heartbeat_period: u16,
}

/// The stream of player input.
pub fn new_client_to_server_schema() -> (schema: ClientToServerSchema)
    ensures
        schema.name@ == "Input"@,
        schema.mapper_port == 8081,
        schema.heartbeat_period == 100,
        schema.port == 8082,
{
    ClientToServerSchema { name: "Input", mapper_port: 8081, heartbeat_period: 100, port: 8082 }
}

/// The stream of game state.
pub fn new_server_to_client_schema() -> (schema: ServerToClientSchema)
    ensures
        schema.name@ == "State"@,
        schema.mapper_port == 8080,
        schema.heartbeat_period == 100,
{
    ServerToClientSchema { name: "State", mapper_port: 8080, heartbeat_period: 100 }
}

} // verus!
