//! The text protocol of the control socket.
//!
//! A client writes one whitespace-delimited command per connection:
//! `is_enabled`, answered with the current enabled flag, or
//! `set_enabled <bool>`, which mutates it. Anything else is a parse
//! error naming what was wrong; the configuration is left untouched.
//!
//! This protocol delimits tokens by ASCII whitespace only — space, tab,
//! line feed, carriage return, as [`crate::text::is_ws_char`] states.
//! That is the protocol's own, deliberate choice of delimiter set: a
//! Unicode space character is part of a token, not a separator.

use vstd::prelude::*;

use crate::text::next_non_ws;
use crate::text::skip_ws_chars;
use crate::text::str_eq;
use crate::text::token_at;
use crate::text::token_end;
use crate::text::token_end_chars;
use vstd::string::StrSliceExecFns;
use vstd::string::StringExecFns;

verus! {

/// A command received over the control socket.
#[derive(Clone, Copy, Debug, PartialEq, Eq, Structural)]
pub enum Command {
    /// Ask whether the clicker is enabled.
    IsEnabled,
    /// Enable or disable the clicker.
    SetEnabled { value: bool },
}

/// Why a control packet failed to parse.
#[derive(Debug)]
pub enum CommandParseError {
    /// The packet held no token at all.
    EmptyPacket,
    /// The first token is not a known command.
    UnknownCommand(String),
    /// The command wants an argument and none followed it.
    MissingArgument { command: String, argument: String },
    /// The command's argument does not have the expected form.
    InvalidArgument { command: String, argument: String, error: String },
}

impl CommandParseError {
    /// The error's diagnostic line, naming the command and what was
    /// wrong with it.
    pub fn message(&self) -> (r: String)
        ensures
            match self {
                CommandParseError::EmptyPacket => r@ == "received empty packet"@,
                CommandParseError::UnknownCommand(cmd) => r@ == "unknown command: '"@ + cmd@
                    + "'"@,
                CommandParseError::MissingArgument { command, argument } => r@ == "command '"@
                    + command@ + "' missing required argument: "@ + argument@,
                CommandParseError::InvalidArgument { command, argument, error } => r@
                    == "command '"@ + command@ + "' has invalid "@ + argument@ + ": "@ + error@,
            },
    {
        match self {
            CommandParseError::EmptyPacket => String::from_str("received empty packet"),
            CommandParseError::UnknownCommand(cmd) => {
                let mut out = String::from_str("unknown command: '");
                out.append(cmd.as_str());
                out.append("'");
                out
            },
            CommandParseError::MissingArgument { command, argument } => {
                let mut out = String::from_str("command '");
                out.append(command.as_str());
                out.append("' missing required argument: ");
                out.append(argument.as_str());
                out
            },
            CommandParseError::InvalidArgument { command, argument, error } => {
                let mut out = String::from_str("command '");
                out.append(command.as_str());
                out.append("' has invalid ");
                out.append(argument.as_str());
                out.append(": ");
                out.append(error.as_str());
                out
            },
        }
    }
}

impl Command {
    /// Parses one control packet: the first token names the command, and
    /// `set_enabled` takes one boolean token after it. Tokens beyond
    /// those are ignored. Every failure names what was missing or wrong,
    /// exactly as the contract states.
    pub fn from_packet(packet: String) -> (r: Result<Command, CommandParseError>)
        ensures
            ({
                let s = packet@;
                let t0s = next_non_ws(s, 0);
                let tok0 = token_at(s, 0);
                let tok1 = token_at(s, token_end(s, t0s));
                &&& (t0s == s.len() <==> r matches Err(CommandParseError::EmptyPacket))
                &&& (t0s < s.len() && tok0 == "is_enabled"@ ==> r matches Ok(Command::IsEnabled))
                &&& (t0s < s.len() && tok0 == "set_enabled"@ && next_non_ws(s, token_end(s, t0s))
                    == s.len() ==> (r matches Err(CommandParseError::MissingArgument {
                    command,
                    argument,
                }) && command@ == "set_enabled"@ && argument@ == "value"@))
                &&& (t0s < s.len() && tok0 == "set_enabled"@ && next_non_ws(s, token_end(s, t0s))
                    < s.len() && tok1 == "true"@ ==> r matches Ok(Command::SetEnabled { value: true }))
                &&& (t0s < s.len() && tok0 == "set_enabled"@ && next_non_ws(s, token_end(s, t0s))
                    < s.len() && tok1 == "false"@ ==> r matches Ok(Command::SetEnabled { value: false }))
                &&& (t0s < s.len() && tok0 == "set_enabled"@ && next_non_ws(s, token_end(s, t0s))
                    < s.len() && tok1 != "true"@ && tok1 != "false"@ ==> (r matches Err(
                    CommandParseError::InvalidArgument { command, argument, error },
                ) && command@ == "set_enabled"@ && argument@ == "value"@ && error@
                    == "provided string was not `true` or `false`"@))
                &&& (t0s < s.len() && tok0 != "is_enabled"@ && tok0 != "set_enabled"@ ==> (r
                    matches Err(CommandParseError::UnknownCommand(cmd)) && cmd@ == tok0))
            }),
    {
        let lit_is_enabled = "is_enabled";
        let lit_set_enabled = "set_enabled";
        let lit_true = "true";
        let lit_false = "false";
        proof {
            reveal_strlit("is_enabled");
            reveal_strlit("set_enabled");
            reveal_strlit("true");
            reveal_strlit("false");
        }
        proof {
            assert(lit_is_enabled@.len() == 10);
            assert(lit_set_enabled@.len() == 11);
            assert(lit_true@.len() == 4);
            assert(lit_false@.len() == 5);
            assert(lit_is_enabled@ != lit_set_enabled@);
            assert(lit_true@ != lit_false@);
        }
        let s = packet.as_str();
        let n = s.unicode_len();
        let t0s = skip_ws_chars(s, 0, n);
        if t0s == n {
            return Err(CommandParseError::EmptyPacket);
        }
        let t0e = token_end_chars(s, t0s, n);
        let tok0 = s.substring_char(t0s, t0e);
        if str_eq(tok0, lit_is_enabled) {
            return Ok(Command::IsEnabled);
        }
        if str_eq(tok0, lit_set_enabled) {
            let t1s = skip_ws_chars(s, t0e, n);
            if t1s == n {
                return Err(CommandParseError::MissingArgument {
                    command: "set_enabled".to_owned(),
                    argument: "value".to_owned(),
                });
            }
            let t1e = token_end_chars(s, t1s, n);
            let tok1 = s.substring_char(t1s, t1e);
            if str_eq(tok1, lit_true) {
                return Ok(Command::SetEnabled { value: true });
            }
            if str_eq(tok1, lit_false) {
                return Ok(Command::SetEnabled { value: false });
            }
            return Err(CommandParseError::InvalidArgument {
                command: "set_enabled".to_owned(),
                argument: "value".to_owned(),
                error: "provided string was not `true` or `false`".to_owned(),
            });
        }
        Err(CommandParseError::UnknownCommand(tok0.to_owned()))
    }
}

} // verus!
