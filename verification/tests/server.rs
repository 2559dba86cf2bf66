use std::time::{Duration, SystemTime};

use resp_kv::commands::Command;
use resp_kv::error::Error;
use resp_kv::persistence::storage::Storage;
use resp_kv::resp::Resp;
use resp_kv::server::{read_request, read_request_at, respond, respond_at};

fn pause(duration: Duration) {
    let end = SystemTime::now() + duration;
    while SystemTime::now() < end {
        std::hint::spin_loop();
    }
}

fn exchange(storage: &mut Storage, message: &str) -> String {
    let request = read_request(message.as_bytes());
    let response = respond(request, storage, Ok(()));
    String::from_utf8_lossy(&response).to_string()
}

fn exchange_at(storage: &mut Storage, message: &[u8], now: u64) -> Vec<u8> {
    respond_at(read_request_at(message, now), storage, Ok(()), now)
}

#[test]
fn test_set_and_get() {
    let mut storage = Storage::new();

    let set_command = "*3\r\n$3\r\nSET\r\n$5\r\nhello\r\n$5\r\nworld\r\n";
    let set_response = exchange(&mut storage, set_command);
    assert_eq!(set_response, "+OK\r\n");

    let get_command = "*2\r\n$3\r\nGET\r\n$5\r\nhello\r\n";
    let get_response = exchange(&mut storage, get_command);

    assert_eq!(get_response, "$5\r\nworld\r\n");

    let get_missing = "*2\r\n$3\r\nGET\r\n$7\r\nmissing\r\n";
    let missing_response = exchange(&mut storage, get_missing);
    assert_eq!(missing_response, "$-1\r\n");
}

#[test]
fn test_ping() {
    let mut storage = Storage::new();

    let message = "*1\r\n$4\r\nPING\r\n";
    let response = exchange(&mut storage, message);
    assert_eq!(response, "+PONG\r\n");
}

#[test]
fn test_echo() {
    let mut storage = Storage::new();

    let message = "*2\r\n$4\r\nECHO\r\n$3\r\nhey\r\n";
    let response = exchange(&mut storage, message);
    assert_eq!(response, "+hey\r\n");
}

#[test]
fn test_set_with_px() {
    let mut storage = Storage::new();

    let set_command = "*5\r\n$3\r\nSET\r\n$3\r\nkey\r\n$5\r\nvalue\r\n$2\r\nPX\r\n$4\r\n1000\r\n";
    let set_response = exchange(&mut storage, set_command);
    assert_eq!(set_response, "+OK\r\n");

    let get_command = "*2\r\n$3\r\nGET\r\n$3\r\nkey\r\n";
    let get_response = exchange(&mut storage, get_command);
    assert_eq!(get_response, "$5\r\nvalue\r\n");

    pause(Duration::from_millis(1100));

    let get_response = exchange(&mut storage, get_command);
    assert_eq!(get_response, "$-1\r\n");

    pause(Duration::from_millis(100));
}

#[test]
fn set_with_px_on_a_given_clock() {
    let mut storage = Storage::new();
    let set = b"*5\r\n$3\r\nSET\r\n$3\r\nkey\r\n$5\r\nvalue\r\n$2\r\nPX\r\n$4\r\n1000\r\n";
    let get = b"*2\r\n$3\r\nGET\r\n$3\r\nkey\r\n";
    assert_eq!(exchange_at(&mut storage, set, 5_000), b"+OK\r\n".to_vec());
    assert_eq!(exchange_at(&mut storage, get, 5_000), b"$5\r\nvalue\r\n".to_vec());
    assert_eq!(exchange_at(&mut storage, get, 5_999), b"$5\r\nvalue\r\n".to_vec());
    assert_eq!(exchange_at(&mut storage, get, 6_000), b"$-1\r\n".to_vec());
    assert!(!storage.contains_key("key"));
}

#[test]
fn request_is_a_command_or_an_error_reply() {
    assert_eq!(read_request_at(b"*1\r\n$4\r\nPING\r\n", 0), Ok(Command::Ping));
    assert_eq!(read_request_at(b"", 0), Err(Resp::Error("Empty request".to_string())));
    assert_eq!(
        read_request_at(b"+PING\r\n", 0),
        Err(Resp::Error("Protocol error: Unsupported RESP type".to_string()))
    );
    assert_eq!(
        read_request_at(b"*1\r\n$3\r\nDEL\r\n", 0),
        Err(Resp::Error("Command error: Unknown command: DEL".to_string()))
    );
}

#[test]
fn errors_become_error_replies() {
    let mut storage = Storage::new();
    assert_eq!(exchange_at(&mut storage, b"", 0), b"-Empty request\r\n".to_vec());
    assert_eq!(
        exchange_at(&mut storage, b"GET key\r\n", 0),
        b"-Protocol error: Unsupported RESP type\r\n".to_vec()
    );
    assert_eq!(
        exchange_at(&mut storage, b"*2\r\n$3\r\nGET\r\n", 0),
        b"-Protocol error: Incomplete array\r\n".to_vec()
    );
    assert_eq!(exchange_at(&mut storage, b"*0\r\n", 0), b"-Command error: Empty command\r\n".to_vec());
    assert_eq!(
        exchange_at(&mut storage, b"*1\r\n$3\r\nGET\r\n", 0),
        b"-Command error: GET requires exactly one argument\r\n".to_vec()
    );
    assert_eq!(
        exchange_at(&mut storage, b"*5\r\n$3\r\nSET\r\n$1\r\nk\r\n$1\r\nv\r\n$2\r\nPX\r\n$1\r\nx\r\n", 0),
        b"-Command error: Invalid PX value\r\n".to_vec()
    );
    assert!(storage.entries().is_empty());
}

#[test]
fn set_cut_in_its_value_stores_nothing() {
    let mut storage = Storage::new();
    assert_eq!(
        exchange_at(&mut storage, b"*3\r\n$3\r\nSET\r\n$5\r\nhello\r\n$5\r\nwor", 0),
        b"-Protocol error: Incomplete bulk string\r\n".to_vec()
    );
    assert!(storage.entries().is_empty());
}

#[test]
fn ping_with_an_argument_is_refused() {
    let mut storage = Storage::new();
    assert_eq!(
        exchange_at(&mut storage, b"*2\r\n$4\r\nPING\r\n$1\r\nx\r\n", 0),
        b"-Command error: PING takes no arguments\r\n".to_vec()
    );
}

#[test]
fn value_with_a_line_end_is_stored_whole() {
    let mut storage = Storage::new();
    assert_eq!(
        exchange_at(&mut storage, b"*3\r\n$3\r\nSET\r\n$1\r\nk\r\n$4\r\na\r\nb\r\n", 0),
        b"+OK\r\n".to_vec()
    );
    assert_eq!(
        exchange_at(&mut storage, b"*2\r\n$3\r\nGET\r\n$1\r\nk\r\n", 0),
        b"$4\r\na\r\nb\r\n".to_vec()
    );
}

#[test]
fn set_that_was_not_logged_is_refused() {
    let mut storage = Storage::new();
    let set = read_request_at(b"*3\r\n$3\r\nSET\r\n$5\r\nhello\r\n$5\r\nworld\r\n", 0);
    let response = respond_at(set, &mut storage, Err(Error::Io("disk full".to_string())), 0);
    assert_eq!(response, b"-ERR failed to set value\r\n".to_vec());
    assert_eq!(exchange_at(&mut storage, b"*2\r\n$3\r\nGET\r\n$5\r\nhello\r\n", 0), b"$-1\r\n".to_vec());
}

#[test]
fn failed_log_does_not_matter_to_reads() {
    let mut storage = Storage::new();
    let failure = || Err(Error::Io("disk full".to_string()));
    assert_eq!(respond_at(read_request_at(b"*1\r\n$4\r\nPING\r\n", 0), &mut storage, failure(), 0), b"+PONG\r\n".to_vec());
    assert_eq!(respond_at(read_request_at(b"", 0), &mut storage, failure(), 0), b"-Empty request\r\n".to_vec());
}
