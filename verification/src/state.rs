use vstd::prelude::*;

use crate::codec::{command_bytes, decode_command, decoded_command, encode_command, DecodeFailure};
use crate::messages::WireEntry;

verus! {

/// A client operation on the replicated key-value store.
#[derive(Debug, Clone)]
pub enum Command {
    Put { key: String, value: String },
    Delete { key: String },
}

/// What a `Command` means: its strings taken as character sequences.
pub enum CommandView {
    Put { key: Seq<char>, value: Seq<char> },
    Delete { key: Seq<char> },
}

impl View for Command {
    type V = CommandView;

    open spec fn view(&self) -> CommandView {
        match self {
            Command::Put { key, value } => CommandView::Put { key: key@, value: value@ },
            Command::Delete { key } => CommandView::Delete { key: key@ },
        }
    }
}

/// The role a node plays in the cluster.
#[derive(Debug, Clone, Copy, PartialEq, Eq, Structural)]
pub enum NodeState {
    Follower,
    Candidate,
    Leader,
}

/// One entry of the replicated log.
#[derive(Debug, Clone)]
pub struct LogEntry {
    pub term: u64,
    pub idx: u64,
    pub command: Command,
}

/// What a `LogEntry` means.
pub struct LogEntryView {
    pub term: u64,
    pub idx: u64,
    pub command: CommandView,
}

impl View for LogEntry {
    type V = LogEntryView;

    open spec fn view(&self) -> LogEntryView {
        LogEntryView { term: self.term, idx: self.idx, command: self.command@ }
    }
}

} // verus!

verus! {

/// What a wire entry stands for, where its command bytes decode.
pub open spec fn wire_entry_view(w: WireEntry) -> LogEntryView {
    LogEntryView { term: w.term, idx: w.index, command: decoded_command(w.command@)->Ok_0 }
}

/// Whether the command bytes of a wire entry decode.
pub open spec fn wire_entry_decodes(w: WireEntry) -> bool {
    decoded_command(w.command@) is Ok
}

impl LogEntry {
    /// The entry in the form it travels between nodes.
    pub fn to_wire(&self) -> (w: WireEntry)
        ensures
            w.term == self.term,
            w.index == self.idx,
            w.command@ == command_bytes(self.command@),
    {
        WireEntry { term: self.term, index: self.idx, command: encode_command(&self.command) }
    }

    /// Reads an entry back from its travelling form. Whatever `to_wire`
    /// wrote reads back as the same entry.
    pub fn from_wire(w: &WireEntry) -> (r: Result<LogEntry, DecodeFailure>)
        ensures
            match decoded_command(w.command@) {
                Ok(_) => r matches Ok(e) && e@ == wire_entry_view(*w),
                Err(f) => r == Err::<LogEntry, DecodeFailure>(f),
            },
            forall|e: LogEntryView|
                #![trigger command_bytes(e.command)]
                w.term == e.term && w.index == e.idx && w.command@ == command_bytes(e.command) ==> (
                r matches Ok(d) && d@ == e),
    {
        proof {
            assert forall|e: LogEntryView|
                #![trigger command_bytes(e.command)]
                w.command@ == command_bytes(e.command) implies w.command@ == command_bytes(e.command)
                + Seq::<u8>::empty() by {
                assert(command_bytes(e.command) + Seq::<u8>::empty() =~= command_bytes(e.command));
            }
        }
        match decode_command(w.command.as_slice()) {
            Ok(command) => Ok(LogEntry { term: w.term, idx: w.index, command }),
            Err(f) => Err(f),
        }
    }
}

} // verus!
