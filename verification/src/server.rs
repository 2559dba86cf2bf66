//! One request of a connection, from the bytes read to the bytes written.
//!
//! A connection reads bytes, asks [`read_request`] what they ask for, has
//! the operation of the command, if it has one, appended to the durability
//! log, and writes what [`respond`] returns. No error ends the connection:
//! every failure becomes an error reply.

use vstd::prelude::*;
use crate::clock::now_millis;
use crate::commands::{command_of, reply_to, table_after, Command, CommandView};
use crate::error::Error;
use crate::persistence::storage::{Storage, TableView};
use crate::resp::{decoded, Resp, RespView};

verus! {

/// What the bytes of one read ask for at `now`: a command, or the error
/// reply that tells the client why there is none.
pub open spec fn request_of(input: Seq<u8>, now: u64) -> Result<CommandView, RespView> {
    match decoded(input) {
        Err(e) => Err(RespView::Error(e.text())),
        Ok(None) => Err(RespView::Error("Empty request"@)),
        Ok(Some(resp)) => match command_of(resp, now) {
            Ok(command) => Ok(command),
            Err(e) => Err(RespView::Error(e.text())),
        },
    }
}

/// The model of what reading a request returns.
pub open spec fn request_view(request: Result<Command, Resp>) -> Result<CommandView, RespView> {
    match request {
        Ok(command) => Ok(command@),
        Err(reply) => Err(reply@),
    }
}

/// The reply to a request: the command's own, or the error reply that
/// stands in its place.
pub open spec fn response_to(
    request: Result<CommandView, RespView>,
    table: TableView,
    logged: bool,
    now: u64,
) -> RespView {
    match request {
        Ok(command) => reply_to(command, table, logged, now),
        Err(reply) => reply,
    }
}

/// The table after a request: after its command, or unchanged where there is none.
pub open spec fn table_after_request(
    request: Result<CommandView, RespView>,
    table: TableView,
    logged: bool,
    now: u64,
) -> TableView {
    match request {
        Ok(command) => table_after(command, table, logged, now),
        Err(_) => table,
    }
}

/// Decodes and validates the bytes of one read at the time `now`.
pub fn read_request_at(input: &[u8], now: u64) -> (request: Result<Command, Resp>)
    ensures
        request_view(request) == request_of(input@, now),
{
    match Resp::parse(input) {
        Ok(Some(resp)) => match Command::from_resp_at(resp, now) {
            Ok(command) => Ok(command),
            Err(e) => Err(Resp::Error(e.to_string())),
        },
        Ok(None) => Err(Resp::Error("Empty request".to_owned())),
        Err(e) => Err(Resp::Error(e.to_string())),
    }
}

/// Decodes and validates the bytes of one read now. The clock is read once.
pub fn read_request(input: &[u8]) -> (request: Result<Command, Resp>)
    ensures
        exists|now: u64| request_view(request) == #[trigger] request_of(input@, now),
{
    let now = now_millis();
    read_request_at(input, now)
}

/// Runs a request on `storage` at the time `now` and encodes its reply.
///
/// `logged` is what became of appending the command's operation to the
/// durability log; where the request has no command, or the command no
/// operation, it is not looked at.
pub fn respond_at(request: Result<Command, Resp>, storage: &mut Storage, logged: Result<(), Error>, now: u64) -> (bytes: Vec<u8>)
    ensures
        bytes@ == response_to(request_view(request), old(storage)@, logged is Ok, now).encoding(),
        final(storage)@ == table_after_request(
            request_view(request),
            old(storage)@,
            logged is Ok,
            now,
        ),
{
    let reply = match request {
        Ok(command) => command.execute_at(storage, logged, now),
        Err(reply) => reply,
    };
    reply.into_bytes()
}

/// Runs a request on `storage` now and encodes its reply. The clock is read once.
pub fn respond(request: Result<Command, Resp>, storage: &mut Storage, logged: Result<(), Error>) -> (bytes: Vec<u8>)
    ensures
        exists|now: u64|
            bytes@ == (#[trigger] response_to(
                request_view(request),
                old(storage)@,
                logged is Ok,
                now,
            )).encoding() && final(storage)@ == table_after_request(
                request_view(request),
                old(storage)@,
                logged is Ok,
                now,
            ),
{
    let now = now_millis();
    respond_at(request, storage, logged, now)
}

} // verus!
