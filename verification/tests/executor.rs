use kvstore::executor::{
    execute_cmd, get_response, handle_get, handle_ping, handle_set, handle_unset, respond,
    set_response, unset_response, Action, Executor,
};
use kvstore::handler::ConnectionHandler;
use kvstore::protocol::{
    decode_response, encode_command, encode_response, Command, DecodeResult, Response,
};
use kvstore::storage::{InMemStorage, Storage, StorageError};

fn broken() -> StorageError {
    StorageError { reason: String::from("broken") }
}

fn ok(text: &str) -> Response {
    Response::Okay(String::from(text))
}

fn error(text: &str) -> Response {
    Response::Error(String::from(text))
}

#[test]
fn ping_defaults_to_pong() {
    assert_eq!(handle_ping(String::new()), ok("PONG"));
    assert_eq!(handle_ping(String::from("hello")), ok("hello"));
    assert_eq!(handle_ping(String::from("PONG")), ok("PONG"));
    assert_eq!(handle_ping(String::from(" ")), ok(" "));
}

#[test]
fn set_answers_with_the_key() {
    let mut store = InMemStorage::new();
    assert_eq!(handle_set(&mut store, String::from("key"), String::from("value")), ok("key"));
    assert_eq!(store.get(&String::from("key")).unwrap(), Some(&String::from("value")));
}

#[test]
fn set_overwrites() {
    let mut store = InMemStorage::new();
    assert_eq!(handle_set(&mut store, String::from("k"), String::from("v1")), ok("k"));
    assert_eq!(handle_set(&mut store, String::from("k"), String::from("v2")), ok("k"));
    assert_eq!(handle_get(&store, String::from("k")), ok("v2"));
}

#[test]
fn get_misses_a_key_never_set() {
    let mut store = InMemStorage::new();
    assert_eq!(handle_get(&store, String::from("k")), error("Key not found"));
    assert_eq!(handle_set(&mut store, String::from("other"), String::from("v")), ok("other"));
    assert_eq!(handle_unset(&mut store, String::from("other")), ok("v"));
    assert_eq!(handle_ping(String::from("k")), ok("k"));
    assert_eq!(handle_get(&store, String::from("k")), error("Key not found"));
}

#[test]
fn clear_of_an_absent_key_is_not_an_error() {
    let mut store = InMemStorage::new();
    assert_eq!(handle_unset(&mut store, String::from("k")), ok(""));
    assert_eq!(handle_unset(&mut store, String::from("k")), ok(""));
}

#[test]
fn clear_answers_with_what_was_removed() {
    let mut store = InMemStorage::new();
    assert_eq!(handle_set(&mut store, String::from("k"), String::from("v")), ok("k"));
    assert_eq!(handle_unset(&mut store, String::from("k")), ok("v"));
    assert_eq!(handle_unset(&mut store, String::from("k")), ok(""));
    assert_eq!(handle_get(&store, String::from("k")), error("Key not found"));
}

#[test]
fn respond_dispatches_every_command() {
    let mut store = InMemStorage::new();
    assert_eq!(respond(&mut store, Command::Ping(String::new())), ok("PONG"));
    assert_eq!(
        respond(&mut store, Command::Put(String::from("a"), String::from("1"))),
        ok("a")
    );
    assert_eq!(respond(&mut store, Command::Get(String::from("a"))), ok("1"));
    assert_eq!(respond(&mut store, Command::Clear(String::from("a"))), ok("1"));
    assert_eq!(respond(&mut store, Command::Get(String::from("a"))), error("Key not found"));
}

#[test]
fn responses_follow_the_outcome_of_the_engine() {
    assert_eq!(set_response(String::from("k"), Ok(())), ok("k"));
    assert_eq!(
        set_response(String::from("k"), Err(broken())),
        error("Error happened while setting the key")
    );
    let value = String::from("v");
    assert_eq!(get_response(Ok(Some(&value))), ok("v"));
    assert_eq!(get_response(Ok(None)), error("Key not found"));
    assert_eq!(get_response(Err(broken())), error("Key not found"));
    assert_eq!(unset_response(Ok(Some(String::from("v")))), ok("v"));
    assert_eq!(unset_response(Ok(None)), ok(""));
    assert_eq!(unset_response(Err(broken())), ok(""));
}

#[test]
fn execute_cmd_gives_the_frame_of_the_response() {
    let mut store = InMemStorage::new();
    let handler = ConnectionHandler::new(64);
    let frame = execute_cmd(
        &mut store,
        &handler,
        Command::Put(String::from("key"), String::from("value")),
    );
    assert_eq!(frame, encode_response(&ok("key")));
    let frame = execute_cmd(&mut store, &handler, Command::Get(String::from("key")));
    assert_eq!(frame, vec![0, 0, 0, 0, 0, 5, b'v', b'a', b'l', b'u', b'e']);
    let frame = execute_cmd(&mut store, &handler, Command::Get(String::from("nope")));
    assert_eq!(frame, encode_response(&error("Key not found")));
}

fn reply_to(executor: &mut Executor, store: &mut InMemStorage, command: &Command) -> Response {
    let request = encode_command(command);
    match executor.run(store, Some(&request)) {
        Action::Reply(frame) => match decode_response(&frame) {
            DecodeResult::Complete(response, len) => {
                assert_eq!(len, frame.len());
                response
            }
            other => panic!("the reply does not decode: {:?}", other),
        },
        other => panic!("no reply: {:?}", other),
    }
}

#[test]
fn set_get_clear_get_over_the_wire() {
    let mut store = InMemStorage::new();
    let mut executor = Executor::new(ConnectionHandler::new(1024));
    assert_eq!(executor.run(&mut store, None), Action::Read(1024));
    let set = Command::Put(String::from("key"), String::from("value"));
    assert_eq!(reply_to(&mut executor, &mut store, &set), ok("key"));
    assert_eq!(executor.run(&mut store, None), Action::Read(1024));
    let get = Command::Get(String::from("key"));
    assert_eq!(reply_to(&mut executor, &mut store, &get), ok("value"));
    let clear = Command::Clear(String::from("key"));
    assert_eq!(reply_to(&mut executor, &mut store, &clear), ok("value"));
    assert_eq!(reply_to(&mut executor, &mut store, &get), error("Key not found"));
    assert_eq!(executor.run(&mut store, Some(&[])), Action::Close);
}

#[test]
fn the_executor_waits_for_the_rest_of_a_frame() {
    let mut store = InMemStorage::new();
    let mut executor = Executor::new(ConnectionHandler::new(100));
    let request = encode_command(&Command::Put(String::from("k"), String::from("v")));
    assert_eq!(executor.run(&mut store, Some(&request[..6])), Action::Read(94));
    assert!(store.get(&String::from("k")).unwrap().is_none());
    assert_eq!(
        executor.run(&mut store, Some(&request[6..])),
        Action::Reply(encode_response(&ok("k")))
    );
    assert_eq!(store.get(&String::from("k")).unwrap(), Some(&String::from("v")));
}

#[test]
fn the_executor_answers_one_command_at_a_time() {
    let mut store = InMemStorage::new();
    let mut executor = Executor::new(ConnectionHandler::new(100));
    let mut bytes = encode_command(&Command::Put(String::from("k"), String::from("v")));
    bytes.extend_from_slice(&encode_command(&Command::Get(String::from("k"))));
    assert_eq!(
        executor.run(&mut store, Some(&bytes)),
        Action::Reply(encode_response(&ok("k")))
    );
    assert_eq!(executor.run(&mut store, None), Action::Reply(encode_response(&ok("v"))));
    assert_eq!(executor.run(&mut store, None), Action::Read(100));
}

#[test]
fn the_executor_rejects_what_breaks_the_protocol() {
    let mut store = InMemStorage::new();
    let mut executor = Executor::new(ConnectionHandler::new(100));
    assert_eq!(
        executor.run(&mut store, Some(&[0, 0xff, 0xff])),
        Action::Reject(encode_response(&error("Unknown command number")))
    );
    let mut executor = Executor::new(ConnectionHandler::new(100));
    assert_eq!(
        executor.run(&mut store, Some(&[0, 0, 0, 0, 0, 0, 1, 0xff])),
        Action::Reject(encode_response(&error("Invalid UTF-8 in a text field")))
    );
    let mut executor = Executor::new(ConnectionHandler::new(8));
    assert_eq!(
        executor.run(&mut store, Some(&[0, 0, 0, 0, 0, 0, 9, b'a'])),
        Action::Reject(encode_response(&error("frame too large")))
    );
}

#[test]
fn the_executor_closes_at_the_end_of_the_stream() {
    let mut store = InMemStorage::new();
    let mut executor = Executor::new(ConnectionHandler::new(100));
    assert_eq!(executor.run(&mut store, Some(&[])), Action::Close);
    assert_eq!(executor.run(&mut store, Some(&[0, 0])), Action::Read(98));
    assert_eq!(executor.run(&mut store, Some(&[])), Action::Close);
}

#[test]
fn writers_of_one_key_leave_one_of_their_values() {
    let values = ["one", "two", "three", "four", "five"];
    for last in 0..values.len() {
        let mut store = InMemStorage::new();
        for offset in 1..=values.len() {
            let value = values[(last + offset) % values.len()];
            assert_eq!(handle_set(&mut store, String::from("k"), String::from(value)), ok("k"));
        }
        assert_eq!(handle_get(&store, String::from("k")), ok(values[last]));
    }
}

#[test]
fn concurrent_writers_of_one_key_leave_one_of_their_values() {
    let runtime = tokio::runtime::Builder::new_multi_thread()
        .worker_threads(4)
        .build()
        .unwrap();
    let store = std::sync::Arc::new(std::sync::Mutex::new(InMemStorage::new()));
    let values = ["one", "two", "three", "four", "five", "six", "seven", "eight"];
    runtime.block_on(async {
        let mut writers = Vec::new();
        for value in values {
            let store = std::sync::Arc::clone(&store);
            writers.push(tokio::spawn(async move {
                for _ in 0..100 {
                    let response = {
                        let mut guard = store.lock().unwrap();
                        handle_set(&mut *guard, String::from("k"), String::from(value))
                    };
                    assert_eq!(response, Response::Okay(String::from("k")));
                    tokio::task::yield_now().await;
                }
            }));
        }
        for writer in writers {
            writer.await.unwrap();
        }
    });
    let guard = store.lock().unwrap();
    match handle_get(&*guard, String::from("k")) {
        Response::Okay(value) => assert!(values.contains(&value.as_str())),
        other => panic!("the key is not bound: {:?}", other),
    }
}
