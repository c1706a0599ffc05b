//! Commands: requests that have been resolved against the store, each
//! with the reply it is answered by.

use vstd::prelude::*;
use vstd::slice::slice_subrange;
use crate::ascii::{eq_ignore_case, same_ignoring_case, SPACE};
use crate::value::{DataType, Value};

verus! {

/// The command word `PING`.
pub const WORD_PING: [u8; 4] = ['P' as u8, 'I' as u8, 'N' as u8, 'G' as u8];

/// The command word `ECHO`.
pub const WORD_ECHO: [u8; 4] = ['E' as u8, 'C' as u8, 'H' as u8, 'O' as u8];

/// The command word `SET`.
pub const WORD_SET: [u8; 3] = ['S' as u8, 'E' as u8, 'T' as u8];

/// The command word `GET`.
pub const WORD_GET: [u8; 3] = ['G' as u8, 'E' as u8, 'T' as u8];

/// The option word of `SET` that announces a timeout in milliseconds.
pub const WORD_PX: [u8; 2] = ['p' as u8, 'x' as u8];

/// The answer to a `PING` without payload.
pub const WORD_PONG: [u8; 4] = ['P' as u8, 'O' as u8, 'N' as u8, 'G' as u8];

/// The answer to a `SET`.
pub const WORD_OK: [u8; 2] = ['O' as u8, 'K' as u8];

/// Why a command could not be made.
#[derive(Debug, Clone, Copy, PartialEq, Eq, Structural)]
pub enum CommandError {
    /// The command line is empty.
    EmptyPayload,
    /// The command line is a single word that names no command.
    UnknownCommand,
    /// `SET` is not followed by a key and a value that are both strings.
    MissingKeyValue,
    /// A form that is recognised and not served: a command line with
    /// arguments, or an array element that is no string where a command
    /// word is due.
    Unimplemented,
}

/// Mathematical content of a command.
pub ghost enum CommandView {
    Ping(Option<Seq<u8>>),
    Echo(Seq<u8>),
    SetKey,
    Get(Option<Seq<u8>>),
}

impl CommandView {
    /// The value that answers the command.
    ///
    /// A `PING` that carries a payload is answered by that payload as a
    /// bulk string.
    pub open spec fn reply(self) -> Value {
        match self {
            CommandView::Ping(None) => Value::SimpleString(WORD_PONG@),
            CommandView::Ping(Some(payload)) => Value::BulkString(Some(payload)),
            CommandView::Echo(payload) => Value::BulkString(Some(payload)),
            CommandView::SetKey => Value::SimpleString(WORD_OK@),
            CommandView::Get(found) => Value::BulkString(found),
        }
    }
}

/// The command that a command line stands for.
///
/// A line is a command word, and after a space its arguments. The one
/// word that stands alone is `PING`, in any mix of upper and lower case.
/// Lines with arguments are not served.
pub open spec fn parse_line(line: Seq<u8>) -> Result<CommandView, CommandError> {
    if line.len() == 0 {
        Err(CommandError::EmptyPayload)
    } else if line.contains(SPACE) {
        Err(CommandError::Unimplemented)
    } else if same_ignoring_case(line, WORD_PING@) {
        Ok(CommandView::Ping(None))
    } else {
        Err(CommandError::UnknownCommand)
    }
}

/// A request with what the store had to say to it.
#[derive(Debug, PartialEq, Eq)]
pub enum Command<'a> {
    /// `PING`, with the payload to send back if one came with it.
    Ping(Option<&'a [u8]>),
    /// `ECHO` with its payload.
    Echo(&'a [u8]),
    /// A `SET` that has been carried out.
    SetKey,
    /// A `GET` with the data that was found.
    Get(Option<Vec<u8>>),
}

impl<'a> View for Command<'a> {
    type V = CommandView;

    open spec fn view(&self) -> CommandView {
        match self {
            Command::Ping(None) => CommandView::Ping(None),
            Command::Ping(Some(payload)) => CommandView::Ping(Some(payload@)),
            Command::Echo(payload) => CommandView::Echo(payload@),
            Command::SetKey => CommandView::SetKey,
            Command::Get(None) => CommandView::Get(None),
            Command::Get(Some(data)) => CommandView::Get(Some(data@)),
        }
    }
}

impl<'a> Command<'a> {
    /// Reads a command line.
    pub fn from_str(s: &[u8]) -> (r: Result<Command<'a>, CommandError>)
        ensures
            match r {
                Ok(command) => parse_line(s@) == Ok::<CommandView, CommandError>(command@),
                Err(e) => parse_line(s@) == Err::<CommandView, CommandError>(e),
            },
    {
        if s.len() == 0 {
            return Err(CommandError::EmptyPayload);
        }
        let mut i: usize = 0;
        while i < s.len()
            invariant
                i <= s@.len(),
                forall|j: int| 0 <= j < i ==> s@[j] != SPACE,
            decreases s@.len() - i,
        {
            if s[i] == SPACE {
                let command = slice_subrange(s, 0, i);
                let payload = slice_subrange(s, i + 1, s.len());
                return Self::match_command_with_payload(command, payload);
            }
            i += 1;
        }
        Self::match_command(s)
    }

    /// Reads a command line; the same as `from_str`.
    pub fn try_from(value: &[u8]) -> (r: Result<Command<'a>, CommandError>)
        ensures
            match r {
                Ok(command) => parse_line(value@) == Ok::<CommandView, CommandError>(command@),
                Err(e) => parse_line(value@) == Err::<CommandView, CommandError>(e),
            },
    {
        Self::from_str(value)
    }

    /// The command of a line with arguments. No such line is served.
    pub fn match_command_with_payload(_command: &[u8], _payload: &[u8]) -> (r: Result<
        Command<'a>,
        CommandError,
    >)
        ensures
            r matches Err(e) && e == CommandError::Unimplemented,
    {
        Err(CommandError::Unimplemented)
    }

    /// The command of a word that stands alone.
    pub fn match_command(command: &[u8]) -> (r: Result<Command<'a>, CommandError>)
        ensures
            match r {
                Ok(c) => same_ignoring_case(command@, WORD_PING@) && c@ == CommandView::Ping(None),
                Err(e) => !same_ignoring_case(command@, WORD_PING@) && e
                    == CommandError::UnknownCommand,
            },
    {
        let word: &[u8; 4] = &WORD_PING;
        if eq_ignore_case(command, word.as_slice()) {
            Ok(Command::Ping(None))
        } else {
            Err(CommandError::UnknownCommand)
        }
    }

    /// The value that answers the command. It borrows the command's
    /// payload.
    pub fn reply<'b>(&'b self) -> (r: DataType<'b>)
        ensures
            r@ == self@.reply(),
    {
        match self {
            Command::Ping(None) => {
                let word: &'static [u8; 4] = &WORD_PONG;
                DataType::SimpleString(word.as_slice())
            },
            Command::Ping(Some(payload)) => DataType::BulkString(Some(*payload)),
            Command::Echo(payload) => DataType::BulkString(Some(*payload)),
            Command::SetKey => {
                let word: &'static [u8; 2] = &WORD_OK;
                DataType::SimpleString(word.as_slice())
            },
            Command::Get(None) => DataType::BulkString(None),
            Command::Get(Some(data)) => DataType::BulkString(Some(data.as_slice())),
        }
    }

    /// Appends the wire form of the reply.
    pub fn write_to(&self, out: &mut Vec<u8>)
        ensures
            final(out)@ == old(out)@ + self@.reply().encoding(),
    {
        self.reply().write_to(out);
    }

    /// The wire form of the reply.
    pub fn to_bytes(&self) -> (r: Vec<u8>)
        ensures
            r@ == self@.reply().encoding(),
    {
        self.reply().to_bytes()
    }
}

} // verus!
