//! The client's side of a connection.
use crate::executor::{answer, lemma_request_served, serve, ActionView};
use crate::handler::{
    bytes_of, lemma_leftover_is_kept, next_response, responses, ConnectionHandler, Next, NextView,
};
use crate::protocol::roundtrip::response_round_trip;
use crate::protocol::{command_frame, response_frame, Command, CommandView, Response};
use vstd::prelude::*;

verus! {

/// Makes requests and reads the responses to them. One request is in flight
/// at a time: write the bytes of a request, flush, and read the response to it
/// before the next request is made.
pub struct Client {
    handler: ConnectionHandler,
}

/// What is written for a request: the frame of the command, if the command
/// can be encoded.
pub open spec fn request(command: CommandView, frame: Option<Vec<u8>>) -> bool {
    match frame {
        Some(frame) => command.fits() && frame@ == command_frame(command),
        None => !command.fits(),
    }
}

impl View for Client {
    type V = Seq<u8>;

    /// The bytes that have arrived and have not been decoded yet.
    closed spec fn view(&self) -> Seq<u8> {
        self.handler@
    }
}

impl Client {
    /// The limit of the handler's buffer.
    pub closed spec fn limit(&self) -> nat {
        self.handler.limit()
    }

    /// A client on the connection of `handler`.
    pub fn new(handler: ConnectionHandler) -> (client: Self)
        ensures
            client@ == handler@,
            client.limit() == handler.limit(),
    {
        Client { handler }
    }

    /// The request that binds the key to the value.
    pub fn set(&self, key: String, value: String) -> (frame: Option<Vec<u8>>)
        ensures
            request(CommandView::Put(key@, value@), frame),
    {
        let command = Command::Put(key, value);
        return self.handler.write_command(&command);
    }

    /// The request for the value that the key is bound to.
    pub fn get(&self, key: String) -> (frame: Option<Vec<u8>>)
        ensures
            request(CommandView::Get(key@), frame),
    {
        let command = Command::Get(key);
        return self.handler.write_command(&command);
    }

    /// The request that removes the key.
    pub fn unset(&self, key: String) -> (frame: Option<Vec<u8>>)
        ensures
            request(CommandView::Clear(key@), frame),
    {
        let command = Command::Clear(key);
        return self.handler.write_command(&command);
    }

    /// The request for an echo of the message. An empty message is sent as
    /// it is: it is the server that answers it with `PONG`.
    pub fn ping(&self, key: String) -> (frame: Option<Vec<u8>>)
        ensures
            request(CommandView::Ping(key@), frame),
    {
        let command = Command::Ping(key);
        return self.handler.write_command(&command);
    }

    /// Takes in what a read returned, if one was made, and gives the
    /// response to the request in flight, or says what stands in its way.
    pub fn read_response(&mut self, arrived: Option<&[u8]>) -> (next: Next<Response>)
        ensures
            final(self).limit() == old(self).limit(),
            (final(self)@, next@) == next_response(
                old(self)@,
                old(self).limit(),
                bytes_of(arrived),
            ),
    {
        self.handler.read_response(arrived)
    }
}

/// One request and the response to it, from end to end. A server with
/// nothing buffered, whose engine holds `table` and does not fail, is sent
/// the frame of a command. It runs the command and replies. A client with
/// nothing buffered that reads the reply gets the answer to the command.
/// Nothing stays buffered on either side.
///
/// The frames are taken to arrive whole and to fit in the buffers. A text in
/// the table that is too long for a field could not be sent, so the answer
/// is taken to fit as well.
pub proof fn lemma_exchange(
    table: Map<Seq<char>, Seq<char>>,
    command: CommandView,
    server_limit: nat,
    client_limit: nat,
)
    requires
        command.fits(),
        command.frame_len() <= server_limit,
        answer(table, command).1.fits(),
        answer(table, command).1.frame_len() <= client_limit,
    ensures
        ({
            let reply = response_frame(answer(table, command).1);
            &&& serve(Seq::empty(), server_limit, table, Some(command_frame(command))) == (
                Seq::<u8>::empty(),
                answer(table, command).0,
                ActionView::Reply(reply),
            )
            &&& next_response(Seq::empty(), client_limit, Some(reply)) == (
                Seq::<u8>::empty(),
                NextView::Value(answer(table, command).1),
            )
        }),
{
    let response = answer(table, command).1;
    let reply = response_frame(response);
    lemma_request_served(table, server_limit, command);
    response_round_trip(response, Seq::empty());
    assert(reply + Seq::<u8>::empty() =~= reply);
    lemma_leftover_is_kept(reply, Seq::empty(), response, client_limit, responses());
}

} // verus!
