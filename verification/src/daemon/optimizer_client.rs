//! Commands from the mesh optimizer and their bookkeeping.
use vstd::prelude::*;

use crate::ids::{new_uuid, uuid_hyphenated, uuid_string};
use crate::text::{chars_eq_str, chars_of, owned, split_once, split_once_seq, string_from_chars, trim_chars, trim_seq};

verus! {

/// Commands the optimizer sends to a node.
#[derive(Debug, Clone, PartialEq)]
pub enum OptimizerCommand {
    LoadModel { model_id: String, source_url: Option<String> },
    UnloadModel { model_id: String },
    RunInference { request_id: String, model_id: String, prompt: String },
    GetStatus,
    Shutdown,
    Unknown { raw: String },
}

/// The outcome of executing a command.
#[derive(Debug, Clone)]
pub enum CommandResult {
    Success { message: String },
    Error { reason: String },
    StatusReport { json: String },
}

/// The piece at `i`, or the empty text.
pub open spec fn piece_or_empty(pieces: Seq<Seq<char>>, i: int) -> Seq<char> {
    if 0 <= i < pieces.len() {
        pieces[i]
    } else {
        Seq::empty()
    }
}

/// What a raw message `<verb>: <argument>` asks for. `infer` takes
/// `<model>|<prompt>`; the request ID of an inference is drawn at random.
pub open spec fn command_matches(raw: Seq<char>, c: OptimizerCommand) -> bool {
    let parts = split_once_seq(raw, ':');
    let verb = trim_seq(parts[0]);
    let arg = trim_seq(piece_or_empty(parts, 1));
    if verb == "load"@ {
        c matches OptimizerCommand::LoadModel { model_id, source_url } && model_id@ == arg && source_url is None
    } else if verb == "unload"@ {
        c matches OptimizerCommand::UnloadModel { model_id } && model_id@ == arg
    } else if verb == "status"@ {
        c is GetStatus
    } else if verb == "shutdown"@ {
        c is Shutdown
    } else if verb == "infer"@ {
        let ip = split_once_seq(arg, '|');
        c matches OptimizerCommand::RunInference { request_id, model_id, prompt } && (exists|id: u128|
            request_id@ == #[trigger] uuid_hyphenated(id)) && model_id@ == trim_seq(ip[0]) && prompt@ == trim_seq(
            piece_or_empty(ip, 1),
        )
    } else {
        c matches OptimizerCommand::Unknown { raw: r } && r@ == raw
    }
}

/// Counts of commands received and failed.
pub struct OptimizerClient {
    commands_received: u64,
    commands_failed: u64,
}

impl OptimizerClient {
    /// Commands received.
    pub closed spec fn received_view(&self) -> u64 {
        self.commands_received
    }

    /// Commands failed.
    pub closed spec fn failed_view(&self) -> u64 {
        self.commands_failed
    }

    /// A client with nothing counted.
    pub fn new() -> (c: Self)
        ensures
            c.received_view() == 0,
            c.failed_view() == 0,
    {
        OptimizerClient { commands_received: 0, commands_failed: 0 }
    }

    /// Reads a raw command.
    pub fn parse_command(raw: &str) -> (c: OptimizerCommand)
        ensures
            command_matches(raw@, c),
    {
        let r = chars_of(raw);
        let parts = split_once(&r, ':');
        let verb = trim_chars(&parts[0]);
        let arg: Vec<char> = if parts.len() > 1 {
            trim_chars(&parts[1])
        } else {
            trim_chars(&Vec::new())
        };
        proof {
            reveal_strlit("load");
            reveal_strlit("unload");
            reveal_strlit("status");
            reveal_strlit("shutdown");
            reveal_strlit("infer");
        }
        assert(arg@ == trim_seq(piece_or_empty(split_once_seq(raw@, ':'), 1)));
        if chars_eq_str(&verb, "load") {
            OptimizerCommand::LoadModel { model_id: string_from_chars(&arg), source_url: None }
        } else if chars_eq_str(&verb, "unload") {
            OptimizerCommand::UnloadModel { model_id: string_from_chars(&arg) }
        } else if chars_eq_str(&verb, "status") {
            OptimizerCommand::GetStatus
        } else if chars_eq_str(&verb, "shutdown") {
            OptimizerCommand::Shutdown
        } else if chars_eq_str(&verb, "infer") {
            let ip = split_once(&arg, '|');
            let model = trim_chars(&ip[0]);
            let prompt: Vec<char> = if ip.len() > 1 {
                trim_chars(&ip[1])
            } else {
                trim_chars(&Vec::new())
            };
            let id = new_uuid();
            let request_id = uuid_string(id);
            assert(request_id@ == uuid_hyphenated(id));
            OptimizerCommand::RunInference {
                request_id,
                model_id: string_from_chars(&model),
                prompt: string_from_chars(&prompt),
            }
        } else {
            OptimizerCommand::Unknown { raw: owned(raw) }
        }
    }

    /// Counts a received command.
    pub fn record_received(&mut self)
        requires
            old(self).received_view() < u64::MAX,
        ensures
            final(self).received_view() == old(self).received_view() + 1,
            final(self).failed_view() == old(self).failed_view(),
    {
        self.commands_received = self.commands_received + 1;
    }

    /// Counts a failed command.
    pub fn record_failed(&mut self)
        requires
            old(self).failed_view() < u64::MAX,
        ensures
            final(self).failed_view() == old(self).failed_view() + 1,
            final(self).received_view() == old(self).received_view(),
    {
        self.commands_failed = self.commands_failed + 1;
    }

    /// (received, failed).
    pub fn stats(&self) -> (s: (u64, u64))
        ensures
            s == (self.received_view(), self.failed_view()),
    {
        (self.commands_received, self.commands_failed)
    }
}

} // verus!
