//! The two message families carried on the wire.
//!
//! Group names, message payloads and error texts are byte strings; the views
//! are the ghost enums `ClientMsg` and `ServerMsg` over `Seq<u8>`.

use crate::bytes_eq;
use vstd::prelude::*;

verus! {

/// Ghost model of a client-to-server request.
pub enum ClientMsg {
    Join { group_name: Seq<u8> },
    Post { group_name: Seq<u8>, message: Seq<u8> },
}

/// Ghost model of a server-to-client notification.
pub enum ServerMsg {
    Message { group_name: Seq<u8>, message: Seq<u8> },
    Error(Seq<u8>),
}

/// A request a client sends to the server: join a group, or post to one.
#[derive(Debug)]
pub enum FromClient {
    Join { group_name: Vec<u8> },
    Post { group_name: Vec<u8>, message: Vec<u8> },
}

/// A notification the server sends to a client: a delivered broadcast, or an
/// error scoped to that client.
#[derive(Debug)]
pub enum FromServer {
    Message { group_name: Vec<u8>, message: Vec<u8> },
    Error(Vec<u8>),
}

impl View for FromClient {
    type V = ClientMsg;

    open spec fn view(&self) -> ClientMsg {
        match self {
            FromClient::Join { group_name } => ClientMsg::Join { group_name: group_name@ },
            FromClient::Post { group_name, message } => ClientMsg::Post {
                group_name: group_name@,
                message: message@,
            },
        }
    }
}

impl View for FromServer {
    type V = ServerMsg;

    open spec fn view(&self) -> ServerMsg {
        match self {
            FromServer::Message { group_name, message } => ServerMsg::Message {
                group_name: group_name@,
                message: message@,
            },
            FromServer::Error(text) => ServerMsg::Error(text@),
        }
    }
}

impl PartialEq for FromClient {
    fn eq(&self, other: &Self) -> (r: bool) {
        match (self, other) {
            (
                FromClient::Join { group_name: g1 },
                FromClient::Join { group_name: g2 },
            ) => bytes_eq(g1, g2),
            (
                FromClient::Post { group_name: g1, message: m1 },
                FromClient::Post { group_name: g2, message: m2 },
            ) => bytes_eq(g1, g2) && bytes_eq(m1, m2),
            _ => false,
        }
    }
}

impl vstd::std_specs::cmp::PartialEqSpecImpl for FromClient {
    open spec fn obeys_eq_spec() -> bool {
        true
    }

    open spec fn eq_spec(&self, other: &Self) -> bool {
        self@ == other@
    }
}

impl PartialEq for FromServer {
    fn eq(&self, other: &Self) -> (r: bool) {
        match (self, other) {
            (
                FromServer::Message { group_name: g1, message: m1 },
                FromServer::Message { group_name: g2, message: m2 },
            ) => bytes_eq(g1, g2) && bytes_eq(m1, m2),
            (FromServer::Error(t1), FromServer::Error(t2)) => bytes_eq(t1, t2),
            _ => false,
        }
    }
}

impl vstd::std_specs::cmp::PartialEqSpecImpl for FromServer {
    open spec fn obeys_eq_spec() -> bool {
        true
    }

    open spec fn eq_spec(&self, other: &Self) -> bool {
        self@ == other@
    }
}

} // verus!
