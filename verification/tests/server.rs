use respkv::clock::Timestamp;
use respkv::connection::{handle_read, handle_read_at, ConnectionStep};
use respkv::info::Info;
use respkv::redis::{Redis, RedisError, EMPTY_SNAPSHOT, REPLICATION_ID};
use respkv::resp::command::{Command, CommandError};
use respkv::resp::parser::ProtocolError;

fn at(secs: i64, nanos: u32) -> Timestamp {
    Timestamp::new(secs, nanos).unwrap()
}

fn one(bytes: &[u8]) -> Result<Vec<Vec<u8>>, RedisError> {
    Ok(vec![bytes.to_vec()])
}

#[test]
fn ping_is_answered_with_pong() {
    let mut redis = Redis::new(None);
    assert_eq!(redis.eval(b"*1\r\n$4\r\nping\r\n"), one(b"$4\r\nPONG\r\n"));
    assert_eq!(redis.eval(b"*1\r\n$4\r\nPING\r\n"), one(b"$4\r\nPONG\r\n"));
    assert_eq!(redis.eval(b"+ping\r\n"), one(b"$4\r\nPONG\r\n"));
}

#[test]
fn echo_is_answered_with_its_argument() {
    let mut redis = Redis::new(None);
    assert_eq!(redis.eval(b"*2\r\n$4\r\nECHO\r\n$3\r\nHey\r\n"), one(b"$3\r\nhey\r\n"));
}

#[test]
fn set_then_get_gives_the_value() {
    let mut redis = Redis::new(None);
    assert_eq!(
        redis.eval(b"*3\r\n$3\r\nSET\r\n$3\r\nfoo\r\n$3\r\nbar\r\n"),
        one(b"$2\r\nOK\r\n")
    );
    assert_eq!(redis.eval(b"*2\r\n$3\r\nGET\r\n$3\r\nfoo\r\n"), one(b"$3\r\nbar\r\n"));
}

#[test]
fn get_of_a_missing_key_is_answered_with_null() {
    let mut redis = Redis::new(None);
    assert_eq!(redis.eval(b"*2\r\n$3\r\nGET\r\n$3\r\nfoo\r\n"), one(b"$-1\r\n"));
}

#[test]
fn request_is_read_from_the_start_of_a_padded_buffer() {
    let mut redis = Redis::new(None);
    let mut buf = [0u8; 1024];
    let request = b"*2\r\n$4\r\necho\r\n$2\r\nhi\r\n";
    buf[..request.len()].copy_from_slice(request);
    assert_eq!(redis.eval(&buf), one(b"$2\r\nhi\r\n"));
}

#[test]
fn expiry_is_honoured_by_get() {
    let mut redis = Redis::new(None);
    let set = b"*5\r\n$3\r\nset\r\n$1\r\nk\r\n$1\r\nv\r\n$2\r\npx\r\n$3\r\n100\r\n";
    let get = b"*2\r\n$3\r\nget\r\n$1\r\nk\r\n";
    assert_eq!(redis.eval_at(set, at(50, 0)), one(b"$2\r\nOK\r\n"));
    assert_eq!(redis.eval_at(get, at(50, 100_000_000)), one(b"$1\r\nv\r\n"));
    assert_eq!(redis.eval_at(get, at(50, 101_000_000)), one(b"$-1\r\n"));
    assert_eq!(redis.eval_at(get, at(50, 0)), one(b"$-1\r\n"));
}

#[test]
fn get_of_a_key_that_ran_out_a_day_later_is_answered_with_null() {
    let mut redis = Redis::new(None);
    let set = b"*5\r\n$3\r\nset\r\n$1\r\nk\r\n$1\r\nv\r\n$2\r\npx\r\n$8\r\n86400000\r\n";
    let get = b"*2\r\n$3\r\nget\r\n$1\r\nk\r\n";
    let written = 1_700_000_000 + 86_399;
    assert_eq!(redis.eval_at(set, at(written, 0)), one(b"$2\r\nOK\r\n"));
    assert_eq!(redis.eval_at(get, at(written + 1, 0)), one(b"$1\r\nv\r\n"));
    assert_eq!(redis.eval_at(get, at(written + 86_400, 0)), one(b"$1\r\nv\r\n"));
    assert_eq!(redis.eval_at(get, at(written + 86_400, 1_000_000)), one(b"$-1\r\n"));
    assert_eq!(redis.eval_at(get, at(written, 0)), one(b"$-1\r\n"));
}

#[test]
fn run_carries_out_a_command() {
    let mut redis = Redis::new(None);
    let set = Command::SetKey("k".to_string(), "v".to_string(), None);
    assert_eq!(redis.run(set, at(0, 0)), one(b"$2\r\nOK\r\n"));
    assert_eq!(redis.run(Command::Get("k".to_string()), at(9, 0)), one(b"$1\r\nv\r\n"));
    assert_eq!(redis.run(Command::Echo(String::new()), at(9, 0)), one(b"$-1\r\n"));
}

#[test]
fn info_replication_on_a_master() {
    let mut redis = Redis::new(None);
    let reply = redis.eval(b"*2\r\n$4\r\nINFO\r\n$11\r\nreplication\r\n").unwrap();
    let text = format!(
        "role:master\nmaster_replid:{}\nmaster_repl_offset:0\n",
        REPLICATION_ID
    );
    assert_eq!(reply, vec![format!("${}\r\n{}\r\n", text.len(), text).into_bytes()]);
    assert!(String::from_utf8(reply[0].clone()).unwrap().contains("role:master"));
}

#[test]
fn info_replication_on_a_replica() {
    let mut redis = Redis::new(Some("127.0.0.1:6379".to_string()));
    let reply = redis.eval(b"*2\r\n$4\r\ninfo\r\n$11\r\nreplication\r\n").unwrap();
    let text = format!(
        "role:slave\nmaster_replid:{}\nmaster_repl_offset:0\n",
        REPLICATION_ID
    );
    assert_eq!(reply, vec![format!("${}\r\n{}\r\n", text.len(), text).into_bytes()]);
    assert!(String::from_utf8(reply[0].clone()).unwrap().contains("role:slave"));
}

#[test]
fn info_text_lists_role_id_and_offset() {
    let master = Info {
        replicaof: None,
        master_replid: "abc".to_string(),
        master_repl_offset: 1234,
    };
    assert_eq!(master.to_string(), "role:master\nmaster_replid:abc\nmaster_repl_offset:1234\n");
    let replica = Info {
        replicaof: Some("localhost:6379".to_string()),
        master_replid: String::new(),
        master_repl_offset: 0,
    };
    assert_eq!(replica.to_string(), "role:slave\nmaster_replid:\nmaster_repl_offset:0\n");
}

#[test]
fn other_info_sections_are_unimplemented() {
    let mut redis = Redis::new(None);
    assert_eq!(
        redis.eval(b"*2\r\n$4\r\ninfo\r\n$6\r\nserver\r\n"),
        Err(RedisError::Unimplemented)
    );
}

#[test]
fn replconf_is_acknowledged() {
    let mut redis = Redis::new(None);
    assert_eq!(
        redis.eval(b"*3\r\n$8\r\nREPLCONF\r\n$14\r\nlistening-port\r\n$4\r\n6380\r\n"),
        one(b"$2\r\nOK\r\n")
    );
    assert_eq!(
        redis.eval(b"*3\r\n$8\r\nREPLCONF\r\n$4\r\ncapa\r\n$6\r\npsync2\r\n"),
        one(b"$2\r\nOK\r\n")
    );
}

#[test]
fn psync_is_answered_with_full_resync_and_snapshot() {
    let mut redis = Redis::new(None);
    let reply = redis.eval(b"*3\r\n$5\r\nPSYNC\r\n$1\r\n?\r\n$2\r\n-1\r\n").unwrap();
    assert_eq!(reply.len(), 2);
    assert_eq!(reply[0], format!("+FULLRESYNC {} 0\r\n", REPLICATION_ID).into_bytes());
    let mut snapshot = b"$88\r\n".to_vec();
    snapshot.extend_from_slice(&EMPTY_SNAPSHOT);
    assert_eq!(reply[1], snapshot);
    assert_eq!(reply[1].len(), 5 + 88);
    assert_eq!(&reply[1][5..10], b"REDIS");
    assert_eq!(reply[1][reply[1].len() - 1], 0xa2);
}

#[test]
fn replication_id_is_forty_hex_digits() {
    assert_eq!(REPLICATION_ID.len(), 40);
    assert!(REPLICATION_ID.bytes().all(|b| b.is_ascii_hexdigit()));
}

#[test]
fn undecodable_requests_change_nothing() {
    let mut redis = Redis::new(None);
    redis.eval_at(b"*3\r\n$3\r\nset\r\n$1\r\nk\r\n$1\r\nv\r\n", at(0, 0)).unwrap();
    assert_eq!(redis.eval(b""), Err(RedisError::Protocol(ProtocolError::Truncated)));
    assert_eq!(redis.eval(b"*2\r\n$3\r\nget"), Err(RedisError::Protocol(ProtocolError::Truncated)));
    assert_eq!(
        redis.eval(b"hello\r\n"),
        Err(RedisError::Protocol(ProtocolError::UnsupportedFrameType))
    );
    assert_eq!(redis.eval(b"$-1\r\n"), Err(RedisError::Protocol(ProtocolError::Malformed)));
    assert_eq!(
        redis.eval(b"*1\r\n$7\r\nunknown\r\n"),
        Err(RedisError::Command(CommandError::UnknownVerb))
    );
    assert_eq!(
        redis.eval(b"*1\r\n$3\r\nget\r\n"),
        Err(RedisError::Command(CommandError::BadArity))
    );
    assert_eq!(
        redis.eval(b"*5\r\n$3\r\nset\r\n$1\r\nk\r\n$1\r\nw\r\n$2\r\npx\r\n$1\r\nx\r\n"),
        Err(RedisError::Command(CommandError::TypeMismatch))
    );
    assert_eq!(redis.eval_at(b"*2\r\n$3\r\nget\r\n$1\r\nk\r\n", at(1, 0)), one(b"$1\r\nv\r\n"));
}

#[test]
fn a_read_of_nothing_closes_the_connection() {
    let mut redis = Redis::new(None);
    assert_eq!(handle_read(&mut redis, b""), ConnectionStep::Close);
    assert_eq!(handle_read_at(&mut redis, b"", at(0, 0)), ConnectionStep::Close);
}

#[test]
fn a_request_is_answered_and_a_bad_one_aborts() {
    let mut redis = Redis::new(None);
    assert_eq!(
        handle_read(&mut redis, b"*1\r\n$4\r\nping\r\n"),
        ConnectionStep::Respond(vec![b"$4\r\nPONG\r\n".to_vec()])
    );
    assert_eq!(
        handle_read(&mut redis, b"*3\r\n$3\r\nset\r\n$1\r\na\r\n$1\r\nb\r\n"),
        ConnectionStep::Respond(vec![b"$2\r\nOK\r\n".to_vec()])
    );
    assert_eq!(
        handle_read_at(&mut redis, b"*2\r\n$3\r\nget\r\n$1\r\na\r\n", at(5, 0)),
        ConnectionStep::Respond(vec![b"$1\r\nb\r\n".to_vec()])
    );
    assert_eq!(
        handle_read(&mut redis, b"!\r\n"),
        ConnectionStep::Abort(RedisError::Protocol(ProtocolError::UnsupportedFrameType))
    );
    assert_eq!(
        handle_read(&mut redis, b"+quit\r\n"),
        ConnectionStep::Abort(RedisError::Command(CommandError::UnknownVerb))
    );
}
