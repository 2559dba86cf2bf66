//! The command model: from a decoded request to a typed command, and from a
//! command to its reply.

use vstd::prelude::*;
use vstd::utf8::*;
use crate::clock::now_millis;
use crate::error::{Error, ErrorView};
use crate::persistence::storage::{after_read, visible, Storage, TableView};
use crate::persistence::{EntryView, Operation, OperationView};
use crate::resp::{lemma_array_view, views_of, Resp, RespView};
use crate::text::{parse_decimal, parse_u64, to_uppercase, uppercase};

verus! {

/// A validated instruction.
///
/// The `expiry` of a `SetValue` is an absolute deadline, in milliseconds since
/// the Unix epoch.
#[derive(Debug, PartialEq, Eq)]
pub enum Command {
    Ping,
    Echo(String),
    SetValue { key: String, value: String, expiry: Option<u128> },
    Get(String),
}

/// The mathematical model of a [`Command`].
pub enum CommandView {
    Ping,
    Echo(Seq<char>),
    SetValue { key: Seq<char>, value: Seq<char>, expiry: Option<u128> },
    Get(Seq<char>),
}

impl View for Command {
    type V = CommandView;

    open spec fn view(&self) -> CommandView {
        match self {
            Command::Ping => CommandView::Ping,
            Command::Echo(message) => CommandView::Echo(message@),
            Command::SetValue { key, value, expiry } => CommandView::SetValue {
                key: key@,
                value: value@,
                expiry: *expiry,
            },
            Command::Get(key) => CommandView::Get(key@),
        }
    }
}

/// The model of what parsing returns.
pub open spec fn parsed_view(r: Result<Command, Error>) -> Result<CommandView, ErrorView> {
    match r {
        Ok(command) => Ok(command@),
        Err(e) => Err(e@),
    }
}

/// A command error with the given description.
pub open spec fn rejected(description: Seq<char>) -> Result<CommandView, ErrorView> {
    Err(ErrorView::Command(description))
}

/// The command that a `SET` with an option denotes.
///
/// `option` is the third argument in upper case and `millis` the fourth as
/// sent. The only option is `PX`, whose argument is a time-to-live in
/// milliseconds: an unsigned decimal number that fits in 64 bits. The
/// deadline is that long after `now`.
pub open spec fn set_with_option_spec(
    key: Seq<char>,
    value: Seq<char>,
    option: Seq<char>,
    millis: Seq<char>,
    now: u64,
) -> Result<CommandView, ErrorView> {
    if option == "PX"@ {
        match parse_decimal(encode_utf8(millis), u64::MAX as nat) {
            Some(ttl) => Ok(CommandView::SetValue { key, value, expiry: Some((now + ttl) as u128) }),
            None => rejected("Invalid PX value"@),
        }
    } else {
        rejected("Invalid SET option"@)
    }
}

/// The command that the upper-case name `name` denotes with the arguments `args`.
///
/// `PING` takes no argument, `ECHO` and `GET` one, and `SET` a key and a
/// value, or a key, a value, an option and the option's argument. Every
/// argument has to be a bulk string. Any other name, and any other number
/// of arguments, is refused.
pub open spec fn command_named(name: Seq<char>, args: Seq<RespView>, now: u64) -> Result<
    CommandView,
    ErrorView,
> {
    if name == "PING"@ {
        if args.len() != 0 {
            rejected("PING takes no arguments"@)
        } else {
            Ok(CommandView::Ping)
        }
    } else if name == "ECHO"@ {
        if args.len() != 1 {
            rejected("ECHO requires exactly one argument"@)
        } else {
            match args[0] {
                RespView::BulkString(message) => Ok(CommandView::Echo(message)),
                _ => rejected("Invalid ECHO argument"@),
            }
        }
    } else if name == "SET"@ {
        if args.len() == 2 {
            match (args[0], args[1]) {
                (RespView::BulkString(key), RespView::BulkString(value)) => Ok(
                    CommandView::SetValue { key, value, expiry: None },
                ),
                _ => rejected("Invalid SET arguments"@),
            }
        } else if args.len() == 4 {
            match (args[0], args[1], args[2], args[3]) {
                (
                    RespView::BulkString(key),
                    RespView::BulkString(value),
                    RespView::BulkString(option),
                    RespView::BulkString(millis),
                ) => set_with_option_spec(key, value, uppercase(option), millis, now),
                _ => rejected("Invalid SET arguments"@),
            }
        } else {
            rejected("Wrong number of SET arguments"@)
        }
    } else if name == "GET"@ {
        if args.len() != 1 {
            rejected("GET requires exactly one argument"@)
        } else {
            match args[0] {
                RespView::BulkString(key) => Ok(CommandView::Get(key)),
                _ => rejected("Invalid GET argument"@),
            }
        }
    } else {
        rejected("Unknown command: "@ + name)
    }
}

/// The command that a request denotes at the time `now`.
///
/// A request is a non-empty array whose first element is a bulk string,
/// the command's name, which is matched in upper case; the other elements
/// are its arguments.
pub open spec fn command_of(resp: RespView, now: u64) -> Result<CommandView, ErrorView> {
    match resp {
        RespView::Array(items) => if items.len() == 0 {
            rejected("Empty command"@)
        } else {
            match items[0] {
                RespView::BulkString(name) => command_named(uppercase(name), items.skip(1), now),
                _ => rejected("Invalid command format"@),
            }
        },
        _ => rejected("Invalid command format"@),
    }
}

/// The operation that `command` has to have in the durability log before
/// it runs: its write for a `SET`, nothing for the commands that only read.
pub open spec fn logged_operation(command: CommandView) -> Option<OperationView> {
    match command {
        CommandView::SetValue { key, value, expiry } => Some(
            OperationView::SetValue { key, value, expires_at: expiry },
        ),
        _ => None,
    }
}

/// The reply to `command` on `table` at `now`, where `logged` says whether
/// the command's operation reached the durability log.
pub open spec fn reply_to(command: CommandView, table: TableView, logged: bool, now: u64) -> RespView {
    match command {
        CommandView::Ping => RespView::SimpleString("PONG"@),
        CommandView::Echo(message) => RespView::SimpleString(message),
        CommandView::SetValue { .. } => if logged {
            RespView::SimpleString("OK"@)
        } else {
            RespView::Error("ERR failed to set value"@)
        },
        CommandView::Get(key) => match visible(table, key, now) {
            Some(value) => RespView::BulkString(value),
            None => RespView::Null,
        },
    }
}

/// The table after `command` on `table` at `now`: a logged `SET` writes
/// its entry, a `GET` removes the entry that it finds expired, and nothing
/// else changes anything.
pub open spec fn table_after(command: CommandView, table: TableView, logged: bool, now: u64) -> TableView {
    match command {
        CommandView::SetValue { key, value, expiry } => if logged {
            table.insert(key, EntryView { value, expires_at: expiry })
        } else {
            table
        },
        CommandView::Get(key) => after_read(table, key, now),
        _ => table,
    }
}

/// Whether `text` is the literal `word`.
fn is_word(text: &str, word: &str) -> (same: bool)
    ensures
        same == (text@ == word@),
{
    text.to_owned() == word.to_owned()
}

/// The text of a bulk string, or nothing for any other value.
fn bulk_text(item: Resp) -> (text: Option<String>)
    ensures
        match text {
            Some(t) => item@ == RespView::BulkString(t@),
            None => !(item@ is BulkString),
        },
{
    match item {
        Resp::BulkString(t) => Some(t),
        _ => None,
    }
}

impl Command {
    /// A `SET` with an option: `option` in upper case, `millis` as sent.
    pub fn set_with_option(key: String, value: String, option: &str, millis: &str, now: u64) -> (r:
        Result<Command, Error>)
        ensures
            parsed_view(r) == set_with_option_spec(key@, value@, option@, millis@, now),
    {
        if is_word(option, "PX") {
            match parse_u64(millis.as_bytes()) {
                Some(ttl) => Ok(Command::SetValue { key, value, expiry: Some(now as u128 + ttl as u128) }),
                None => Err(Error::command("Invalid PX value")),
            }
        } else {
            Err(Error::command("Invalid SET option"))
        }
    }

    /// The command with the upper-case name `name` and the arguments `args`.
    pub fn named(name: &str, args: Vec<Resp>, now: u64) -> (r: Result<Command, Error>)
        ensures
            parsed_view(r) == command_named(name@, views_of(args@), now),
    {
        let mut args = args;
        if is_word(name, "PING") {
            if args.len() != 0 {
                return Err(Error::command("PING takes no arguments"));
            }
            Ok(Command::Ping)
        } else if is_word(name, "ECHO") {
            if args.len() != 1 {
                return Err(Error::command("ECHO requires exactly one argument"));
            }
            match bulk_text(args.remove(0)) {
                Some(message) => Ok(Command::Echo(message)),
                None => Err(Error::command("Invalid ECHO argument")),
            }
        } else if is_word(name, "SET") {
            if args.len() == 2 {
                let first = bulk_text(args.remove(0));
                let second = bulk_text(args.remove(0));
                match (first, second) {
                    (Some(key), Some(value)) => Ok(Command::SetValue { key, value, expiry: None }),
                    _ => Err(Error::command("Invalid SET arguments")),
                }
            } else if args.len() == 4 {
                let first = bulk_text(args.remove(0));
                let second = bulk_text(args.remove(0));
                let third = bulk_text(args.remove(0));
                let fourth = bulk_text(args.remove(0));
                match (first, second, third, fourth) {
                    (Some(key), Some(value), Some(option), Some(millis)) => {
                        let option = to_uppercase(option.as_str());
                        Command::set_with_option(key, value, option.as_str(), millis.as_str(), now)
                    },
                    _ => Err(Error::command("Invalid SET arguments")),
                }
            } else {
                Err(Error::command("Wrong number of SET arguments"))
            }
        } else if is_word(name, "GET") {
            if args.len() != 1 {
                return Err(Error::command("GET requires exactly one argument"));
            }
            match bulk_text(args.remove(0)) {
                Some(key) => Ok(Command::Get(key)),
                None => Err(Error::command("Invalid GET argument")),
            }
        } else {
            Err(Error::Command("Unknown command: ".to_owned().concat(name)))
        }
    }

    /// The command that the request `resp` denotes at the time `now`.
    pub fn from_resp_at(resp: Resp, now: u64) -> (r: Result<Command, Error>)
        ensures
            parsed_view(r) == command_of(resp@, now),
    {
        match resp {
            Resp::Array(items) => {
                let mut items = items;
                proof {
                    lemma_array_view(items);
                }
                let ghost all = views_of(items@);
                if items.len() == 0 {
                    return Err(Error::command("Empty command"));
                }
                match bulk_text(items.remove(0)) {
                    Some(name) => {
                        let name = to_uppercase(name.as_str());
                        assert(views_of(items@) =~= all.skip(1));
                        Command::named(name.as_str(), items, now)
                    },
                    None => Err(Error::command("Invalid command format")),
                }
            },
            _ => Err(Error::command("Invalid command format")),
        }
    }

    /// The operation to append to the durability log before the command runs.
    pub fn operation(&self) -> (op: Option<Operation>)
        ensures
            match op {
                Some(op) => logged_operation(self@) == Some(op@),
                None => logged_operation(self@) is None,
            },
    {
        match self {
            Command::SetValue { key, value, expiry } => Some(
                Operation::SetValue { key: key.clone(), value: value.clone(), expires_at: *expiry },
            ),
            _ => None,
        }
    }

    /// Runs the command on `storage` at the time `now` and builds its reply.
    ///
    /// `logged` is what became of appending [`Command::operation`] to the
    /// durability log; it matters to a `SET` alone, which is refused with
    /// an error reply, and writes nothing, where the append failed.
    pub fn execute_at(&self, storage: &mut Storage, logged: Result<(), Error>, now: u64) -> (reply: Resp)
        ensures
            reply@ == reply_to(self@, old(storage)@, logged is Ok, now),
            final(storage)@ == table_after(self@, old(storage)@, logged is Ok, now),
    {
        match self {
            Command::Ping => Resp::SimpleString("PONG".to_owned()),
            Command::Echo(message) => Resp::SimpleString(message.clone()),
            Command::SetValue { key, value, expiry } => {
                match storage.set(key.clone(), value.clone(), *expiry, logged) {
                    Ok(()) => Resp::SimpleString("OK".to_owned()),
                    Err(_) => Resp::Error("ERR failed to set value".to_owned()),
                }
            },
            Command::Get(key) => match storage.get_at(key.as_str(), now) {
                Ok(Some(value)) => Resp::BulkString(value),
                Ok(None) => Resp::Null,
                Err(_) => Resp::Error("ERR failed to get value".to_owned()),
            },
        }
    }

    /// Runs the command on `storage` now. The clock is read once; see
    /// [`Command::execute_at`].
    pub fn execute(&self, storage: &mut Storage, logged: Result<(), Error>) -> (reply: Resp)
        ensures
            exists|now: u64|
                reply@ == #[trigger] reply_to(self@, old(storage)@, logged is Ok, now)
                    && final(storage)@ == table_after(self@, old(storage)@, logged is Ok, now),
    {
        let now = now_millis();
        self.execute_at(storage, logged, now)
    }

    /// The command that the request `resp` denotes now.
    ///
    /// The clock is read once. Only a `SET` with a time-to-live depends on
    /// the reading.
    pub fn from_resp(resp: Resp) -> (r: Result<Command, Error>)
        ensures
            exists|now: u64| parsed_view(r) == #[trigger] command_of(resp@, now),
    {
        let now = now_millis();
        Command::from_resp_at(resp, now)
    }
}

} // verus!
