//! The closed set of requests that the server understands, and the rules
//! by which a decoded value is read as one of them.

use vstd::prelude::*;
use crate::resp::data_type::{text_of, usize_of, DataType, Frame};
use crate::resp::text::str_eq;

verus! {

/// Why a decoded value could not be read as a request.
#[derive(Clone, Copy, Debug, PartialEq, Eq, Structural)]
pub enum CommandError {
    /// The leading word is not one of the known verbs.
    UnknownVerb,
    /// A known verb came with the wrong number of arguments.
    BadArity,
    /// An argument is an array where text is needed, or text that is not a
    /// number where a number is needed.
    TypeMismatch,
}

/// A request.
#[derive(Debug, PartialEq, Eq)]
pub enum Command {
    Ping,
    Echo(String),
    /// Key, value, and the time to live in milliseconds.
    SetKey(String, String, Option<usize>),
    Get(String),
    /// The name of the section asked for.
    Info(String),
    /// The arguments after the verb, in order.
    Replconf(Vec<String>),
    Psync,
}

/// The mathematical content of a request.
pub enum Request {
    Ping,
    Echo(Seq<char>),
    SetKey(Seq<char>, Seq<char>, Option<usize>),
    Get(Seq<char>),
    Info(Seq<char>),
    Replconf(Seq<Seq<char>>),
    Psync,
}

impl View for Command {
    type V = Request;

    open spec fn view(&self) -> Request {
        match self {
            Command::Ping => Request::Ping,
            Command::Echo(text) => Request::Echo(text@),
            Command::SetKey(key, value, expiry) => Request::SetKey(key@, value@, *expiry),
            Command::Get(key) => Request::Get(key@),
            Command::Info(section) => Request::Info(section@),
            Command::Replconf(args) => Request::Replconf(args@.map_values(|s: String| s@)),
            Command::Psync => Request::Psync,
        }
    }
}

/// The only argument of a verb that takes exactly one.
pub open spec fn single_argument(items: Seq<Frame>) -> Result<Seq<char>, CommandError> {
    if items.len() != 2 {
        Err(CommandError::BadArity)
    } else {
        match text_of(items[1]) {
            Some(text) => Ok(text),
            None => Err(CommandError::TypeMismatch),
        }
    }
}

/// The time to live of a `set`: the number after a fourth element `px`.
/// Any other fourth element is passed over.
pub open spec fn expiry_of(items: Seq<Frame>) -> Result<Option<usize>, CommandError> {
    if items.len() <= 3 {
        Ok(None)
    } else {
        match text_of(items[3]) {
            None => Err(CommandError::TypeMismatch),
            Some(option) => if option != "px"@ {
                Ok(None)
            } else if items.len() < 5 {
                Err(CommandError::BadArity)
            } else {
                match usize_of(items[4]) {
                    Some(millis) => Ok(Some(millis)),
                    None => Err(CommandError::TypeMismatch),
                }
            },
        }
    }
}

/// Reads a `set`: key and value are needed, elements after the time to
/// live are passed over.
pub open spec fn classify_set(items: Seq<Frame>) -> Result<Request, CommandError> {
    if items.len() < 3 {
        Err(CommandError::BadArity)
    } else {
        match (text_of(items[1]), text_of(items[2])) {
            (Some(key), Some(value)) => match expiry_of(items) {
                Ok(expiry) => Ok(Request::SetKey(key, value, expiry)),
                Err(e) => Err(e),
            },
            _ => Err(CommandError::TypeMismatch),
        }
    }
}

/// Whether every one of `items` is a string.
pub open spec fn all_text(items: Seq<Frame>) -> bool {
    forall|i: int| 0 <= i < items.len() ==> text_of(#[trigger] items[i]) is Some
}

/// The texts of `items`, in order.
pub open spec fn texts_of(items: Seq<Frame>) -> Seq<Seq<char>> {
    items.map_values(|item: Frame| text_of(item).unwrap())
}

/// Reads a word that stands alone: only `ping` is a request.
pub open spec fn classify_word(word: Seq<char>) -> Result<Request, CommandError> {
    if word == "ping"@ {
        Ok(Request::Ping)
    } else {
        Err(CommandError::UnknownVerb)
    }
}

/// Reads an array whose first element is the text `verb`.
///
/// Verbs are matched letter for letter, in lower case. A first word that
/// is no verb is read as if it stood alone.
pub open spec fn classify_call(verb: Seq<char>, items: Seq<Frame>) -> Result<
    Request,
    CommandError,
> {
    if verb == "echo"@ {
        match single_argument(items) {
            Ok(text) => Ok(Request::Echo(text)),
            Err(e) => Err(e),
        }
    } else if verb == "set"@ {
        classify_set(items)
    } else if verb == "get"@ {
        match single_argument(items) {
            Ok(key) => Ok(Request::Get(key)),
            Err(e) => Err(e),
        }
    } else if verb == "info"@ {
        match single_argument(items) {
            Ok(section) => Ok(Request::Info(section)),
            Err(e) => Err(e),
        }
    } else if verb == "replconf"@ {
        if all_text(items.skip(1)) {
            Ok(Request::Replconf(texts_of(items.skip(1))))
        } else {
            Err(CommandError::TypeMismatch)
        }
    } else if verb == "psync"@ {
        Ok(Request::Psync)
    } else {
        classify_word(verb)
    }
}

/// The request that a decoded value stands for.
///
/// A string that stands alone is read as a word. An array is read by its
/// first element: text is the verb of a call; an array is read in place
/// of the whole. The empty array has no verb and is refused for its arity.
pub open spec fn classify(frame: Frame) -> Result<Request, CommandError>
    decreases frame,
{
    match frame {
        Frame::Simple(word) => classify_word(word),
        Frame::Bulk(word) => classify_word(word),
        Frame::Array(items) => if items.len() == 0 {
            Err(CommandError::BadArity)
        } else {
            match text_of(items[0]) {
                Some(verb) => classify_call(verb, items),
                None => classify(items[0]),
            }
        },
    }
}

/// Reads a word that stands alone.
fn read_word(word: &str) -> (r: Result<Command, CommandError>)
    ensures
        match classify_word(word@) {
            Ok(request) => r matches Ok(command) && command@ == request,
            Err(e) => r == Err::<Command, CommandError>(e),
        },
{
    if str_eq(word, "ping") {
        Ok(Command::Ping)
    } else {
        Err(CommandError::UnknownVerb)
    }
}

/// Reads the only argument of a verb that takes exactly one.
fn read_single_argument(items: &Vec<DataType>) -> (r: Result<String, CommandError>)
    ensures
        match single_argument(DataType::Array(*items)@->Array_0) {
            Ok(text) => r matches Ok(s) && s@ == text,
            Err(e) => r == Err::<String, CommandError>(e),
        },
{
    if items.len() != 2 {
        return Err(CommandError::BadArity);
    }
    items[1].try_into_string()
}

/// Reads the time to live of a `set`.
fn read_expiry(items: &Vec<DataType>) -> (r: Result<Option<usize>, CommandError>)
    ensures
        r == expiry_of(DataType::Array(*items)@->Array_0),
{
    if items.len() <= 3 {
        return Ok(None);
    }
    let option = items[3].try_into_string()?;
    if !str_eq(option.as_str(), "px") {
        return Ok(None);
    }
    if items.len() < 5 {
        return Err(CommandError::BadArity);
    }
    let millis = items[4].try_into_usize()?;
    Ok(Some(millis))
}

/// Reads a `set`.
fn read_set(items: &Vec<DataType>) -> (r: Result<Command, CommandError>)
    ensures
        match classify_set(DataType::Array(*items)@->Array_0) {
            Ok(request) => r matches Ok(command) && command@ == request,
            Err(e) => r == Err::<Command, CommandError>(e),
        },
{
    if items.len() < 3 {
        return Err(CommandError::BadArity);
    }
    let key = items[1].try_into_string()?;
    let value = items[2].try_into_string()?;
    let expiry = read_expiry(items)?;
    Ok(Command::SetKey(key, value, expiry))
}

/// Reads the texts of all elements after the verb.
fn read_arguments(items: &Vec<DataType>) -> (r: Result<Vec<String>, CommandError>)
    requires
        items.len() > 0,
    ensures
        ({
            let rest = DataType::Array(*items)@->Array_0.skip(1);
            if all_text(rest) {
                r matches Ok(args) && args@.map_values(|s: String| s@) == texts_of(rest)
            } else {
                r == Err::<Vec<String>, CommandError>(CommandError::TypeMismatch)
            }
        }),
{
    let ghost rest = DataType::Array(*items)@->Array_0.skip(1);
    let mut args: Vec<String> = Vec::new();
    let mut i: usize = 1;
    while i < items.len()
        invariant
            1 <= i <= items.len(),
            rest == DataType::Array(*items)@->Array_0.skip(1),
            args@.len() == i - 1,
            forall|k: int| 0 <= k < i - 1 ==> text_of(#[trigger] rest[k]) == Some(args@[k]@),
        decreases items.len() - i,
    {
        match items[i].try_into_string() {
            Err(e) => {
                assert(text_of(rest[i - 1]) is None);
                return Err(e);
            },
            Ok(text) => {
                args.push(text);
            },
        }
        i += 1;
    }
    Ok(args)
}

/// Reads an array whose first element is the text `verb`.
fn read_call(verb: &str, items: &Vec<DataType>) -> (r: Result<Command, CommandError>)
    requires
        items.len() > 0,
    ensures
        match classify_call(verb@, DataType::Array(*items)@->Array_0) {
            Ok(request) => r matches Ok(command) && command@ == request,
            Err(e) => r == Err::<Command, CommandError>(e),
        },
{
    if str_eq(verb, "echo") {
        Ok(Command::Echo(read_single_argument(items)?))
    } else if str_eq(verb, "set") {
        read_set(items)
    } else if str_eq(verb, "get") {
        Ok(Command::Get(read_single_argument(items)?))
    } else if str_eq(verb, "info") {
        Ok(Command::Info(read_single_argument(items)?))
    } else if str_eq(verb, "replconf") {
        Ok(Command::Replconf(read_arguments(items)?))
    } else if str_eq(verb, "psync") {
        Ok(Command::Psync)
    } else {
        read_word(verb)
    }
}

/// Reads a decoded value as a request.
pub fn eval_dt(dt: &DataType) -> (r: Result<Command, CommandError>)
    ensures
        match classify(dt@) {
            Ok(request) => r matches Ok(command) && command@ == request,
            Err(e) => r == Err::<Command, CommandError>(e),
        },
    decreases dt,
{
    match dt {
        DataType::SimpleString(word) => read_word(word.as_str()),
        DataType::BulkString(word) => read_word(word.as_str()),
        DataType::Array(items) => {
            if items.len() == 0 {
                return Err(CommandError::BadArity);
            }
            assert(dt@->Array_0[0] == items[0]@);
            match &items[0] {
                DataType::SimpleString(verb) => read_call(verb.as_str(), items),
                DataType::BulkString(verb) => read_call(verb.as_str(), items),
                DataType::Array(_) => {
                    assert(decreases_to!(dt => dt->Array_0[0]));
                    eval_dt(&items[0])
                },
            }
        },
    }
}

} // verus!
