//! The command executor: binds each request to its effect on the store and
//! to the bytes that answer it.

use vstd::prelude::*;
use vstd::string::*;
use vstd::utf8::encode_utf8;
use crate::clock::{is_instant, now, Timestamp};
use crate::info::{info_text, Info, InfoView};
use crate::resp::command::{classify, eval_dt, Command, CommandError, Request};
use crate::resp::data_type::{wire_bytes, DataType, Frame};
use crate::resp::parser::{
    decode, decode_frame, law_decode_ignores_what_follows, ProtocolError,
};
use crate::resp::text::{decimal, str_eq, usize_to_string};
use crate::store::{store_get, store_set, RecordView, Store};

verus! {

/// The replication id under which every server runs.
pub const REPLICATION_ID: &'static str = "8371b4fb1155b71f4a04d3e1bc3e18c4a990aeeb";

/// The snapshot of an empty database.
pub const EMPTY_SNAPSHOT: [u8; 88] = [
    0x52, 0x45, 0x44, 0x49, 0x53, 0x30, 0x30, 0x31, 0x31, 0xfa, 0x09, 0x72, 0x65, 0x64,
    0x69, 0x73, 0x2d, 0x76, 0x65, 0x72, 0x05, 0x37, 0x2e, 0x32, 0x2e, 0x30, 0xfa, 0x0a,
    0x72, 0x65, 0x64, 0x69, 0x73, 0x2d, 0x62, 0x69, 0x74, 0x73, 0xc0, 0x40, 0xfa, 0x05,
    0x63, 0x74, 0x69, 0x6d, 0x65, 0xc2, 0x6d, 0x08, 0xbc, 0x65, 0xfa, 0x08, 0x75, 0x73,
    0x65, 0x64, 0x2d, 0x6d, 0x65, 0x6d, 0xc2, 0xb0, 0xc4, 0x10, 0x00, 0xfa, 0x08, 0x61,
    0x6f, 0x66, 0x2d, 0x62, 0x61, 0x73, 0x65, 0xc0, 0x00, 0xff, 0xf0, 0x6e, 0x3b, 0xfe,
    0xc0, 0xff, 0x5a, 0xa2,
];

/// Why a request was not carried out.
#[derive(Clone, Copy, Debug, PartialEq, Eq, Structural)]
pub enum RedisError {
    /// The buffer does not start with a well-formed value.
    Protocol(ProtocolError),
    /// The value is not a request.
    Command(CommandError),
    /// The request is known, but nothing carries it out.
    Unimplemented,
}

/// The server's state.
pub struct Redis {
    info: Info,
    store: Store,
}

/// The mathematical content of the server's state.
pub struct RedisView {
    pub info: InfoView,
    pub store: Map<Seq<char>, RecordView>,
}

impl View for Redis {
    type V = RedisView;

    closed spec fn view(&self) -> RedisView {
        RedisView { info: self.info@, store: self.store@ }
    }
}

/// The answer that carries `text`: a bulk string.
pub open spec fn bulk_reply(text: Seq<char>) -> Seq<Seq<u8>> {
    seq![wire_bytes(Frame::Bulk(text))]
}

/// The line that opens a full resynchronisation.
pub open spec fn full_resync_line(info: InfoView) -> Seq<char> {
    "FULLRESYNC "@ + info.master_replid + " "@ + decimal(info.master_repl_offset)
}

/// The snapshot as it is sent: a length line, then the bytes, with no line
/// terminator after them.
pub open spec fn snapshot_bytes() -> Seq<u8> {
    encode_utf8(seq!['$'] + decimal(88) + seq!['\r', '\n']) + EMPTY_SNAPSHOT@
}

/// What a request does to the state at the time `now`, and the writes that
/// answer it.
pub open spec fn execute(state: RedisView, request: Request, now: int) -> (
    RedisView,
    Result<Seq<Seq<u8>>, RedisError>,
) {
    match request {
        Request::Ping => (state, Ok(bulk_reply("PONG"@))),
        Request::Echo(text) => (state, Ok(bulk_reply(text))),
        Request::SetKey(key, value, expiry) => (
            RedisView { store: store_set(state.store, key, value, expiry, now), ..state },
            Ok(bulk_reply("OK"@)),
        ),
        Request::Get(key) => {
            let (store, value) = store_get(state.store, key, now);
            (
                RedisView { store, ..state },
                Ok(
                    bulk_reply(
                        match value {
                            Some(text) => text,
                            None => Seq::empty(),
                        },
                    ),
                ),
            )
        },
        Request::Info(section) => if section == "replication"@ {
            (state, Ok(bulk_reply(info_text(state.info))))
        } else {
            (state, Err(RedisError::Unimplemented))
        },
        Request::Replconf(_) => (state, Ok(bulk_reply("OK"@))),
        Request::Psync => (
            state,
            Ok(seq![wire_bytes(Frame::Simple(full_resync_line(state.info))), snapshot_bytes()]),
        ),
    }
}

/// What the request at the start of `data` does at the time `now`: a buffer
/// that does not decode, or a value that is no request, changes nothing.
pub open spec fn evaluate(state: RedisView, data: Seq<u8>, now: int) -> (
    RedisView,
    Result<Seq<Seq<u8>>, RedisError>,
) {
    match decode_frame(data, 0) {
        Err(e) => (state, Err(RedisError::Protocol(e))),
        Ok((frame, _)) => match classify(frame) {
            Err(e) => (state, Err(RedisError::Command(e))),
            Ok(request) => execute(state, request, now),
        },
    }
}

/// The contents of a list of writes.
pub open spec fn writes_view(writes: Vec<Vec<u8>>) -> Seq<Seq<u8>> {
    writes@.map_values(|chunk: Vec<u8>| chunk@)
}

/// The contents of an outcome.
pub open spec fn outcome_view(outcome: Result<Vec<Vec<u8>>, RedisError>) -> Result<
    Seq<Seq<u8>>,
    RedisError,
> {
    match outcome {
        Ok(writes) => Ok(writes_view(writes)),
        Err(e) => Err(e),
    }
}

/// A list of writes that holds one chunk.
fn single_write(chunk: Vec<u8>) -> (writes: Vec<Vec<u8>>)
    ensures
        writes_view(writes) == seq![chunk@],
{
    let mut writes: Vec<Vec<u8>> = Vec::new();
    writes.push(chunk);
    writes
}

impl Redis {
    /// A server with an empty store; a replica of `replicaof` if that is given.
    pub fn new(replicaof: Option<String>) -> (redis: Self)
        ensures
            redis@.store == Map::<Seq<char>, RecordView>::empty(),
            redis@.info.master_replid == REPLICATION_ID@,
            redis@.info.master_repl_offset == 0,
            redis@.info.replicaof == match replicaof {
                Some(address) => Some(address@),
                None => None,
            },
    {
        Redis {
            info: Info {
                replicaof,
                master_repl_offset: 0,
                master_replid: String::from_str(REPLICATION_ID),
            },
            store: Store::new(),
        }
    }

    /// Carries out the request at the start of `data` as of the time `now`.
    pub fn eval_at(&mut self, data: &[u8], now: Timestamp) -> (outcome: Result<
        Vec<Vec<u8>>,
        RedisError,
    >)
        ensures
            (final(self)@, outcome_view(outcome)) == evaluate(old(self)@, data@, now@),
    {
        let (value, _) = match decode(data) {
            Err(e) => {
                return Err(RedisError::Protocol(e));
            },
            Ok(decoded) => decoded,
        };
        let command = match eval_dt(&value) {
            Err(e) => {
                return Err(RedisError::Command(e));
            },
            Ok(command) => command,
        };
        self.run(command, now)
    }

    /// Carries out the request at the start of `data` as of now, by the wall
    /// clock: the outcome is that of `eval_at` for whatever the clock reads.
    pub fn eval(&mut self, data: &[u8]) -> (outcome: Result<Vec<Vec<u8>>, RedisError>)
        ensures
            exists|now: int|
                is_instant(now) && #[trigger] evaluate(old(self)@, data@, now) == (
                    final(self)@,
                    outcome_view(outcome),
                ),
    {
        let time = now();
        let outcome = self.eval_at(data, time);
        proof {
            time.lemma_is_instant();
        }
        outcome
    }

    /// Carries out `command` as of the time `now`.
    pub fn run(&mut self, command: Command, now: Timestamp) -> (outcome: Result<
        Vec<Vec<u8>>,
        RedisError,
    >)
        ensures
            (final(self)@, outcome_view(outcome)) == execute(old(self)@, command@, now@),
    {
        match command {
            Command::Ping => Ok(single_write(self.echo("PONG"))),
            Command::Echo(text) => Ok(single_write(self.echo(text.as_str()))),
            Command::SetKey(key, value, expiry) => Ok(
                single_write(self.set(key.as_str(), value.as_str(), expiry, now)),
            ),
            Command::Get(key) => Ok(single_write(self.get(key.as_str(), now))),
            Command::Info(section) => match self.info(section.as_str()) {
                Ok(chunk) => Ok(single_write(chunk)),
                Err(e) => Err(e),
            },
            Command::Replconf(args) => Ok(single_write(self.replconf(&args))),
            Command::Psync => Ok(self.psync()),
        }
    }

    /// Acknowledges a replica's configuration; the arguments are not read.
    fn replconf(&self, _args: &Vec<String>) -> (chunk: Vec<u8>)
        ensures
            chunk@ == wire_bytes(Frame::Bulk("OK"@)),
    {
        self.echo("OK")
    }

    /// Opens a full resynchronisation and sends the empty snapshot.
    fn psync(&self) -> (writes: Vec<Vec<u8>>)
        ensures
            writes_view(writes) == seq![
                wire_bytes(Frame::Simple(full_resync_line(self@.info))),
                snapshot_bytes(),
            ],
    {
        let offset = usize_to_string(self.info.master_repl_offset);
        let mut line = String::from_str("FULLRESYNC ");
        line.append(self.info.master_replid.as_str());
        line.append(" ");
        line.append(offset.as_str());
        let opening = DataType::SimpleString(line).to_bytes();

        proof {
            reveal_strlit("$");
            reveal_strlit("\r\n");
        }
        let length = usize_to_string(EMPTY_SNAPSHOT.len());
        let mut head = String::from_str("$");
        head.append(length.as_str());
        head.append("\r\n");
        assert(head@ =~= seq!['$'] + decimal(88) + seq!['\r', '\n']);
        let mut snapshot = head.as_str().as_bytes_vec();
        let ghost prefix = snapshot@;
        let mut i: usize = 0;
        while i < EMPTY_SNAPSHOT.len()
            invariant
                i <= EMPTY_SNAPSHOT@.len(),
                snapshot@ == prefix + EMPTY_SNAPSHOT@.take(i as int),
            decreases EMPTY_SNAPSHOT@.len() - i,
        {
            snapshot.push(EMPTY_SNAPSHOT[i]);
            i += 1;
        }
        assert(EMPTY_SNAPSHOT@.take(EMPTY_SNAPSHOT@.len() as int) =~= EMPTY_SNAPSHOT@);

        let mut writes: Vec<Vec<u8>> = Vec::new();
        writes.push(opening);
        writes.push(snapshot);
        writes
    }

    /// The bulk string that carries `s`.
    fn echo(&self, s: &str) -> (chunk: Vec<u8>)
        ensures
            chunk@ == wire_bytes(Frame::Bulk(s@)),
    {
        DataType::BulkString(String::from_str(s)).to_bytes()
    }

    /// The section `s` of the server's description; only `replication` exists.
    fn info(&self, s: &str) -> (r: Result<Vec<u8>, RedisError>)
        ensures
            match r {
                Ok(chunk) => s@ == "replication"@ && chunk@ == wire_bytes(
                    Frame::Bulk(info_text(self@.info)),
                ),
                Err(e) => s@ != "replication"@ && e == RedisError::Unimplemented,
            },
    {
        if str_eq(s, "replication") {
            Ok(DataType::BulkString(self.info.to_string()).to_bytes())
        } else {
            Err(RedisError::Unimplemented)
        }
    }

    /// Writes to the store and acknowledges.
    fn set(
        &mut self,
        k: &str,
        v: &str,
        expire_in_millisecs: Option<usize>,
        now: Timestamp,
    ) -> (chunk: Vec<u8>)
        ensures
            final(self)@ == (RedisView {
                store: store_set(old(self)@.store, k@, v@, expire_in_millisecs, now@),
                ..old(self)@
            }),
            chunk@ == wire_bytes(Frame::Bulk("OK"@)),
    {
        self.store.set_at(k, v, expire_in_millisecs, now);
        self.echo("OK")
    }

    /// Looks up in the store; the answer to a miss is the null token.
    fn get(&mut self, s: &str, now: Timestamp) -> (chunk: Vec<u8>)
        ensures
            final(self)@ == (RedisView {
                store: store_get(old(self)@.store, s@, now@).0,
                ..old(self)@
            }),
            chunk@ == wire_bytes(
                Frame::Bulk(
                    match store_get(old(self)@.store, s@, now@).1 {
                        Some(text) => text,
                        None => Seq::empty(),
                    },
                ),
            ),
    {
        proof {
            reveal_strlit("");
        }
        match self.store.get_at(s, now) {
            Some(v) => self.echo(v.as_str()),
            None => self.echo(""),
        }
    }
}

/// No request touches the replication identity; a request that fails
/// changes nothing at all; and every answer is a single write, but for the
/// two writes that answer a request to synchronise.
pub proof fn law_execute_shape(state: RedisView, request: Request, now: int)
    ensures
        execute(state, request, now).0.info == state.info,
        execute(state, request, now).1 is Err ==> execute(state, request, now).0 == state,
        execute(state, request, now).1 matches Ok(writes) ==> writes.len() == if request
            is Psync {
            2nat
        } else {
            1nat
        },
{
}

/// A request is carried out the same whatever follows it in the buffer.
pub proof fn law_evaluate_ignores_what_follows(
    state: RedisView,
    data: Seq<u8>,
    rest: Seq<u8>,
    now: int,
)
    requires
        decode_frame(data, 0) is Ok,
    ensures
        evaluate(state, data + rest, now) == evaluate(state, data, now),
{
    law_decode_ignores_what_follows(data, rest, 0);
}

} // verus!
