//! The execution of commands against a storage engine, and the loop of one
//! connection as a state machine.
use crate::handler::{bytes_of, next_command, reply_frame, ConnectionHandler, Next, NextView};
use crate::protocol::{Command, CommandView, Response, ResponseView};
use crate::storage::{Storage, StorageError};
use vstd::prelude::*;
use vstd::string::StringExecFns;

verus! {

/// The message that answers an empty ping.
pub open spec fn pong() -> Seq<char> {
    "PONG"@
}

/// The reason given where a key is not bound.
pub open spec fn key_not_found() -> Seq<char> {
    "Key not found"@
}

/// The reason given where the engine could not bind a key.
pub open spec fn set_failed() -> Seq<char> {
    "Error happened while setting the key"@
}

/// What a command does to a table, and the response to it.
pub open spec fn answer(table: Map<Seq<char>, Seq<char>>, command: CommandView) -> (
    Map<Seq<char>, Seq<char>>,
    ResponseView,
) {
    match command {
        CommandView::Get(key) => (
            table,
            if table.contains_key(key) {
                ResponseView::Okay(table[key])
            } else {
                ResponseView::Error(key_not_found())
            },
        ),
        CommandView::Put(key, value) => (table.insert(key, value), ResponseView::Okay(key)),
        CommandView::Clear(key) => (
            table.remove(key),
            if table.contains_key(key) {
                ResponseView::Okay(table[key])
            } else {
                ResponseView::Okay(Seq::empty())
            },
        ),
        CommandView::Ping(message) => (
            table,
            if message.len() == 0 {
                ResponseView::Okay(pong())
            } else {
                ResponseView::Okay(message)
            },
        ),
    }
}

/// The response to a command where the engine fails on it.
pub open spec fn failure(command: CommandView) -> ResponseView {
    match command {
        CommandView::Get(_) => ResponseView::Error(key_not_found()),
        CommandView::Put(_, _) => ResponseView::Error(set_failed()),
        CommandView::Clear(_) => ResponseView::Okay(Seq::empty()),
        CommandView::Ping(_) => answer(Map::empty(), command).1,
    }
}

/// Whether `reply` and the table `after` are what the command makes of the
/// table `before`. An engine that is not reliable may have failed instead,
/// and then nothing is known of its table.
pub open spec fn responds(
    before: Map<Seq<char>, Seq<char>>,
    after: Map<Seq<char>, Seq<char>>,
    reliable: bool,
    command: CommandView,
    reply: ResponseView,
) -> bool {
    ||| (after, reply) == answer(before, command)
    ||| !reliable && reply == failure(command)
}

/// The response to a ping: the message, or `PONG` for an empty one.
pub fn handle_ping(key: String) -> (r: Response)
    ensures
        r@ == answer(Map::empty(), CommandView::Ping(key@)).1,
{
    if key.as_str().is_empty() {
        return Response::Okay(String::from_str("PONG"));
    } else {
        return Response::Okay(key);
    }
}

/// The response to a SET of `key`, given how the engine's `set` came out.
pub fn set_response(key: String, outcome: Result<(), StorageError>) -> (r: Response)
    ensures
        r@ == if outcome is Ok {
            ResponseView::Okay(key@)
        } else {
            ResponseView::Error(set_failed())
        },
{
    match outcome {
        Ok(_) => Response::Okay(key),
        Err(_) => Response::Error(String::from_str("Error happened while setting the key")),
    }
}

/// The response to a GET, given how the engine's `get` came out.
pub fn get_response(outcome: Result<Option<&String>, StorageError>) -> (r: Response)
    ensures
        r@ == match outcome {
            Ok(Some(value)) => ResponseView::Okay(value@),
            _ => ResponseView::Error(key_not_found()),
        },
{
    match outcome {
        Ok(Some(val)) => {
            return Response::Okay(val.clone());
        },
        _ => {
            return Response::Error(String::from_str("Key not found"));
        },
    }
}

/// The response to a CLEAR, given how the engine's `unset` came out.
pub fn unset_response(outcome: Result<Option<String>, StorageError>) -> (r: Response)
    ensures
        r@ == match outcome {
            Ok(Some(value)) => ResponseView::Okay(value@),
            _ => ResponseView::Okay(Seq::empty()),
        },
{
    match outcome {
        Ok(Some(value)) => {
            return Response::Okay(value);
        },
        _ => {
            return Response::Okay(String::new());
        },
    }
}

/// Binds the key to the value in the engine and answers with the key.
pub fn handle_set<S: Storage>(store: &mut S, key: String, value: String) -> (r: Response)
    ensures
        final(store).reliable() == old(store).reliable(),
        responds(
            old(store).table(),
            final(store).table(),
            old(store).reliable(),
            CommandView::Put(key@, value@),
            r@,
        ),
{
    let outcome = store.set(key.clone(), value);
    set_response(key, outcome)
}

/// Answers with the value that the key is bound to in the engine.
pub fn handle_get<S: Storage>(store: &S, key: String) -> (r: Response)
    ensures
        responds(store.table(), store.table(), store.reliable(), CommandView::Get(key@), r@),
{
    get_response(store.get(&key))
}

/// Removes the key from the engine and answers with the value that it was
/// bound to, or with an empty text if it was not bound.
pub fn handle_unset<S: Storage>(store: &mut S, key: String) -> (r: Response)
    ensures
        final(store).reliable() == old(store).reliable(),
        responds(
            old(store).table(),
            final(store).table(),
            old(store).reliable(),
            CommandView::Clear(key@),
            r@,
        ),
{
    unset_response(store.unset(&key))
}

/// Runs the command against the engine and gives the response to it.
pub fn respond<S: Storage>(store: &mut S, cmd: Command) -> (r: Response)
    ensures
        final(store).reliable() == old(store).reliable(),
        responds(old(store).table(), final(store).table(), old(store).reliable(), cmd@, r@),
{
    match cmd {
        Command::Ping(key) => handle_ping(key),
        Command::Put(key, value) => handle_set(store, key, value),
        Command::Get(key) => handle_get(store, key),
        Command::Clear(key) => handle_unset(store, key),
    }
}

/// Whether `frame` and the table `after` are what the command makes of the
/// table `before`: the frame is the one written for the response.
pub open spec fn replies(
    before: Map<Seq<char>, Seq<char>>,
    after: Map<Seq<char>, Seq<char>>,
    reliable: bool,
    command: CommandView,
    frame: Seq<u8>,
) -> bool {
    ||| after == answer(before, command).0 && frame == reply_frame(answer(before, command).1)
    ||| !reliable && frame == reply_frame(failure(command))
}

/// Runs the command against the engine and gives the bytes to write back.
pub fn execute_cmd<S: Storage>(store: &mut S, handler: &ConnectionHandler, cmd: Command) -> (frame:
    Vec<u8>)
    ensures
        final(store).reliable() == old(store).reliable(),
        replies(old(store).table(), final(store).table(), old(store).reliable(), cmd@, frame@),
{
    let result = respond(store, cmd);
    handler.write_response(&result)
}

/// What the loop of a connection is to do next.
#[derive(Debug, PartialEq, Eq)]
pub enum Action {
    /// Read from the stream, at most this many bytes, and run again with
    /// what the read returned.
    Read(usize),
    /// Write these bytes, flush, and run again.
    Reply(Vec<u8>),
    /// The peer broke the protocol. Try to write these bytes, then close.
    Reject(Vec<u8>),
    /// The stream has ended. Close.
    Close,
}

/// The mathematical value of an [`Action`].
pub enum ActionView {
    Read(nat),
    Reply(Seq<u8>),
    Reject(Seq<u8>),
    Close,
}

impl View for Action {
    type V = ActionView;

    open spec fn view(&self) -> ActionView {
        match self {
            Action::Read(room) => ActionView::Read(*room as nat),
            Action::Reply(frame) => ActionView::Reply(frame@),
            Action::Reject(frame) => ActionView::Reject(frame@),
            Action::Close => ActionView::Close,
        }
    }
}

/// One step of the loop of a connection whose handler holds `buffered` and
/// may hold `limit` bytes, against an engine that holds `table` and does not
/// fail. `arrived` is what a read returned, where one was made since the
/// last step. The result is what the handler and the engine hold afterwards,
/// and what to do next.
///
/// A command is run and answered. A frame that is cut short asks for a read.
/// The end of the stream ends the loop. Bytes that break the protocol are
/// answered with an error that carries the reason, and end the loop too:
/// where the next frame starts cannot be known.
pub open spec fn serve(
    buffered: Seq<u8>,
    limit: nat,
    table: Map<Seq<char>, Seq<char>>,
    arrived: Option<Seq<u8>>,
) -> (Seq<u8>, Map<Seq<char>, Seq<char>>, ActionView) {
    let (held, next) = next_command(buffered, limit, arrived);
    match next {
        NextView::Value(command) => (
            held,
            answer(table, command).0,
            ActionView::Reply(reply_frame(answer(table, command).1)),
        ),
        NextView::Read(room) => (held, table, ActionView::Read(room)),
        NextView::Closed => (held, table, ActionView::Close),
        NextView::Malformed(reason) => (
            held,
            table,
            ActionView::Reject(reply_frame(ResponseView::Error(reason))),
        ),
    }
}

/// Whether a step did what [`serve`] says. With an engine that is reliable
/// that is all. With another, the command may have failed on it: then the
/// reply is the one for the failure, and nothing is known of the table.
pub open spec fn runs(
    buffered: Seq<u8>,
    limit: nat,
    before: Map<Seq<char>, Seq<char>>,
    reliable: bool,
    arrived: Option<Seq<u8>>,
    held: Seq<u8>,
    after: Map<Seq<char>, Seq<char>>,
    action: ActionView,
) -> bool {
    ||| (held, after, action) == serve(buffered, limit, before, arrived)
    ||| {
        &&& !reliable
        &&& held == next_command(buffered, limit, arrived).0
        &&& next_command(buffered, limit, arrived).1 matches NextView::Value(command)
        &&& action == ActionView::Reply(reply_frame(failure(command)))
    }
}

/// Drives one connection: reads one command at a time, runs it against the
/// engine and gives the response to write, until the stream ends or the peer
/// breaks the protocol.
pub struct Executor {
    handler: ConnectionHandler,
}

impl View for Executor {
    type V = Seq<u8>;

    /// The bytes that the handler has buffered.
    closed spec fn view(&self) -> Seq<u8> {
        self.handler@
    }
}

impl Executor {
    /// The limit of the handler's buffer.
    pub closed spec fn limit(&self) -> nat {
        self.handler.limit()
    }

    /// An executor for the connection of `handler`.
    pub fn new(handler: ConnectionHandler) -> (executor: Self)
        ensures
            executor@ == handler@,
            executor.limit() == handler.limit(),
    {
        return Executor { handler };
    }

    /// One step of the loop. `arrived` is what the read returned that the
    /// last step asked for, and `None` at the start and after a reply.
    pub fn run<S: Storage>(&mut self, store: &mut S, arrived: Option<&[u8]>) -> (action: Action)
        ensures
            final(self).limit() == old(self).limit(),
            final(store).reliable() == old(store).reliable(),
            runs(
                old(self)@,
                old(self).limit(),
                old(store).table(),
                old(store).reliable(),
                bytes_of(arrived),
                final(self)@,
                final(store).table(),
                action@,
            ),
    {
        match self.handler.read_command(arrived) {
            Next::Value(cmd) => Action::Reply(execute_cmd(store, &self.handler, cmd)),
            Next::Read(room) => Action::Read(room),
            Next::Closed => Action::Close,
            Next::Malformed(reason) => Action::Reject(
                self.handler.write_response(&Response::Error(reason)),
            ),
        }
    }
}

/// The table that a sequence of commands, run in order, makes of `table`.
pub open spec fn run_all(table: Map<Seq<char>, Seq<char>>, commands: Seq<CommandView>) -> Map<
    Seq<char>,
    Seq<char>,
>
    decreases commands.len(),
{
    if commands.len() == 0 {
        table
    } else {
        answer(run_all(table, commands.drop_last()), commands.last()).0
    }
}

/// Whether the command binds `key`.
pub open spec fn binds(command: CommandView, key: Seq<char>) -> bool {
    command matches CommandView::Put(bound, _) && bound == key
}

/// Clearing a key that is not bound answers with an empty text and changes
/// nothing, so it can be done again with the same answer.
pub proof fn lemma_clear_twice(table: Map<Seq<char>, Seq<char>>, key: Seq<char>)
    requires
        !table.contains_key(key),
    ensures
        answer(table, CommandView::Clear(key)) == (table, ResponseView::Okay(Seq::empty())),
        answer(answer(table, CommandView::Clear(key)).0, CommandView::Clear(key)) == (
            table,
            ResponseView::Okay(Seq::empty()),
        ),
{
    assert(table.remove(key) =~= table);
}

/// After a key was cleared, bound or not, clearing it again answers with an
/// empty text.
pub proof fn lemma_clear_after_clear(table: Map<Seq<char>, Seq<char>>, key: Seq<char>)
    ensures
        answer(answer(table, CommandView::Clear(key)).0, CommandView::Clear(key)).1
            == ResponseView::Okay(Seq::empty()),
{
}

/// A key that was bound twice is bound to the second value.
pub proof fn lemma_overwrite(
    table: Map<Seq<char>, Seq<char>>,
    key: Seq<char>,
    first: Seq<char>,
    second: Seq<char>,
)
    ensures
        ({
            let once = answer(table, CommandView::Put(key, first)).0;
            let twice = answer(once, CommandView::Put(key, second)).0;
            answer(twice, CommandView::Get(key)) == (twice, ResponseView::Okay(second))
        }),
{
}

/// A key that no command has bound is not found: neither at the start nor
/// after any sequence of commands that do not bind it.
pub proof fn lemma_miss(
    table: Map<Seq<char>, Seq<char>>,
    commands: Seq<CommandView>,
    key: Seq<char>,
)
    requires
        !table.contains_key(key),
        forall|i: int| 0 <= i < commands.len() ==> !binds(#[trigger] commands[i], key),
    ensures
        !run_all(table, commands).contains_key(key),
        answer(run_all(table, commands), CommandView::Get(key)).1 == ResponseView::Error(
            key_not_found(),
        ),
    decreases commands.len(),
{
    if commands.len() > 0 {
        lemma_miss(table, commands.drop_last(), key);
        assert(!binds(commands[commands.len() - 1], key));
    }
}

/// A key is bound to what the last command that touched it bound it to:
/// whatever was done before a `Put`, the key holds the value of that `Put`
/// afterwards, and the other keys are as they were before it.
pub proof fn lemma_last_writer_wins(
    table: Map<Seq<char>, Seq<char>>,
    commands: Seq<CommandView>,
    key: Seq<char>,
    value: Seq<char>,
)
    ensures
        ({
            let before = run_all(table, commands);
            let after = run_all(table, commands.push(CommandView::Put(key, value)));
            &&& after.contains_key(key)
            &&& after[key] == value
            &&& forall|other: Seq<char>|
                other != key ==> after.contains_key(other) == before.contains_key(other)
                    && after[other] == before[other]
        }),
{
    let longer = commands.push(CommandView::Put(key, value));
    assert(longer.drop_last() =~= commands);
}

/// The commands that bind `key` to each of `values`, in order.
pub open spec fn puts(key: Seq<char>, values: Seq<Seq<char>>) -> Seq<CommandView> {
    Seq::new(values.len(), |i: int| CommandView::Put(key, values[i]))
}

/// Writers of one key leave it bound to the value of one of them. Each
/// `set` is one operation on the table, so however many writers there are
/// and in whatever order they come to it, what they do is some sequence of
/// `Put`s: the key ends up bound to the value of the last.
pub proof fn lemma_one_of_the_values(
    table: Map<Seq<char>, Seq<char>>,
    key: Seq<char>,
    values: Seq<Seq<char>>,
)
    requires
        values.len() > 0,
    ensures
        ({
            let after = run_all(table, puts(key, values));
            &&& after.contains_key(key)
            &&& after[key] == values.last()
            &&& values.contains(after[key])
        }),
{
    assert(puts(key, values).last() == CommandView::Put(key, values.last()));
}

/// A request that arrives whole at a handler with nothing buffered, and
/// fits in its buffer, is run and answered, and nothing stays buffered.
pub proof fn lemma_request_served(
    table: Map<Seq<char>, Seq<char>>,
    limit: nat,
    command: CommandView,
)
    requires
        command.fits(),
        command.frame_len() <= limit,
    ensures
        serve(Seq::empty(), limit, table, Some(crate::protocol::command_frame(command))) == (
            Seq::<u8>::empty(),
            answer(table, command).0,
            ActionView::Reply(reply_frame(answer(table, command).1)),
        ),
{
    let frame = crate::protocol::command_frame(command);
    crate::protocol::roundtrip::command_round_trip(command, Seq::empty());
    assert(Seq::<u8>::empty() + frame =~= frame);
    assert(frame + Seq::<u8>::empty() =~= frame);
    assert(frame.skip(frame.len() as int) =~= Seq::<u8>::empty());
}

} // verus!
