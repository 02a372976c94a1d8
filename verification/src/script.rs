//! Animation scripts: the commands of a script, what each command's data
//! names, and how many threads a script's timeline shows.
use std::ops::Range;
use vstd::prelude::*;

use crate::bytes::{u32_at, u32_from_index, Endian};

verus! {

/// What a script command does, with the hashcodes it names.
#[derive(Debug, Clone)]
pub enum UXGeoScriptCommandData {
    Entity { hashcode: u32, file: u32 },
    Sound { hashcode: u32 },
    Particle { hashcode: u32, file: u32 },
    EventType { event_type: u32 },
    SubScript { hashcode: u32, file: u32 },
    Unknown { cmd: u8, data: Vec<u8> },
}

/// A command on a script's timeline: it starts at frame `start` and lasts
/// `length` frames on thread `thread`.
#[derive(Debug, Clone)]
pub struct UXGeoScriptCommand {
    pub start: i16,
    pub length: u16,
    pub thread: u8,
    pub parent_thread: u8,
    pub data: UXGeoScriptCommandData,
}

/// A command as a script file stores it: its kind, its place on the
/// timeline and its raw data.
#[derive(Debug, Clone)]
pub struct AnimScriptCommand {
    pub cmd: u8,
    pub start: i16,
    pub length: u16,
    pub thread: u8,
    pub parent_thread: u8,
    pub data: Vec<u8>,
}

impl UXGeoScriptCommand {
    /// The frames the command covers.
    pub fn range(&self) -> (r: Range<isize>)
        ensures
            r.start == self.start as int,
            r.end == self.start as int + self.length as int,
    {
        let start = self.start as isize;
        start..(start + self.length as isize)
    }
}

/// Bytes of data that a command of kind `cmd` is read from.
pub open spec fn command_bytes_needed(cmd: u8) -> nat {
    if cmd == 3 || cmd == 4 || cmd == 6 {
        12
    } else if cmd == 5 {
        24
    } else if cmd == 11 {
        4
    } else {
        0
    }
}

/// What a command of kind `cmd` with this data does.
pub open spec fn command_meaning(cmd: u8, data: Vec<u8>, endian: Endian) -> UXGeoScriptCommandData {
    if cmd == 3 {
        UXGeoScriptCommandData::Entity { hashcode: u32_at(data@, endian, 8), file: u32_at(data@, endian, 4) }
    } else if cmd == 4 {
        UXGeoScriptCommandData::SubScript { hashcode: u32_at(data@, endian, 8), file: u32_at(data@, endian, 4) }
    } else if cmd == 5 {
        UXGeoScriptCommandData::Sound { hashcode: u32_at(data@, endian, 20) }
    } else if cmd == 6 {
        UXGeoScriptCommandData::Particle { hashcode: u32_at(data@, endian, 8), file: u32_at(data@, endian, 4) }
    } else if cmd == 11 {
        UXGeoScriptCommandData::EventType { event_type: u32_at(data@, endian, 0) }
    } else {
        UXGeoScriptCommandData::Unknown { cmd, data }
    }
}

/// What a command of kind `cmd` with this data does.
pub fn command_data(cmd: u8, data: Vec<u8>, endian: Endian) -> (r: UXGeoScriptCommandData)
    requires
        command_bytes_needed(cmd) <= data@.len(),
    ensures
        r == command_meaning(cmd, data, endian),
{
    match cmd {
        3 => UXGeoScriptCommandData::Entity {
            hashcode: u32_from_index(data.as_slice(), endian, 8),
            file: u32_from_index(data.as_slice(), endian, 4),
        },
        4 => UXGeoScriptCommandData::SubScript {
            hashcode: u32_from_index(data.as_slice(), endian, 8),
            file: u32_from_index(data.as_slice(), endian, 4),
        },
        5 => UXGeoScriptCommandData::Sound { hashcode: u32_from_index(data.as_slice(), endian, 20) },
        6 => UXGeoScriptCommandData::Particle {
            hashcode: u32_from_index(data.as_slice(), endian, 8),
            file: u32_from_index(data.as_slice(), endian, 4),
        },
        11 => UXGeoScriptCommandData::EventType { event_type: u32_from_index(data.as_slice(), endian, 0) },
        _ => UXGeoScriptCommandData::Unknown { cmd, data },
    }
}

/// The timeline command that a stored command becomes.
pub open spec fn command_of(c: AnimScriptCommand, endian: Endian) -> UXGeoScriptCommand {
    UXGeoScriptCommand {
        start: c.start,
        length: c.length,
        thread: c.thread,
        parent_thread: c.parent_thread,
        data: command_meaning(c.cmd, c.data, endian),
    }
}

/// Whether every stored command holds the data its kind is read from.
pub open spec fn commands_complete(commands: Seq<AnimScriptCommand>) -> bool {
    forall|i: int| 0 <= i < commands.len() ==> command_bytes_needed(#[trigger] commands[i].cmd) <= commands[i].data@.len()
}

/// The timeline commands of a script, in the order it stores them.
pub fn read_commands(commands: Vec<AnimScriptCommand>, endian: Endian) -> (r: Vec<UXGeoScriptCommand>)
    requires
        commands_complete(commands@),
    ensures
        r@.len() == commands@.len(),
        forall|i: int| 0 <= i < r@.len() ==> #[trigger] r@[i] == command_of(commands@[i], endian),
{
    let ghost all = commands@;
    let mut out: Vec<UXGeoScriptCommand> = Vec::new();
    for c in it: commands
        invariant
            all == it.seq(),
            commands_complete(all),
            out@.len() == it.index(),
            forall|i: int| 0 <= i < out@.len() ==> #[trigger] out@[i] == command_of(all[i], endian),
    {
        assert(c == all[it.index() as int]);
        let data = command_data(c.cmd, c.data, endian);
        out.push(UXGeoScriptCommand {
            start: c.start,
            length: c.length,
            thread: c.thread,
            parent_thread: c.parent_thread,
            data,
        });
    }
    out
}

/// Whether a command is one of the kinds 0x10, 0x11 and 0x12, which the
/// timeline does not draw.
pub open spec fn is_hidden_command(d: UXGeoScriptCommandData) -> bool {
    d matches UXGeoScriptCommandData::Unknown { cmd, .. } && (cmd == 0x10 || cmd == 0x11 || cmd == 0x12)
}

/// The thread count a command asks for: its thread, read as a signed byte,
/// plus one; none for the commands the timeline does not draw.
pub open spec fn command_threads(c: UXGeoScriptCommand) -> int {
    if is_hidden_command(c.data) {
        0
    } else if c.thread < 128 {
        c.thread + 1
    } else {
        c.thread - 256 + 1
    }
}

/// The largest thread count that the commands ask for.
pub open spec fn max_threads(commands: Seq<UXGeoScriptCommand>) -> int
    decreases commands.len(),
{
    if commands.len() <= 1 {
        if commands.len() == 0 {
            0
        } else {
            command_threads(commands[0])
        }
    } else {
        let earlier = max_threads(commands.drop_last());
        let last = command_threads(commands.last());
        if last > earlier {
            last
        } else {
            earlier
        }
    }
}

fn threads_of(c: &UXGeoScriptCommand) -> (r: isize)
    ensures
        r == command_threads(*c),
{
    let hidden = match &c.data {
        UXGeoScriptCommandData::Unknown { cmd, .. } => *cmd == 0x10 || *cmd == 0x11 || *cmd == 0x12,
        _ => false,
    };
    if hidden {
        0
    } else if c.thread < 128 {
        c.thread as isize + 1
    } else {
        c.thread as isize - 256 + 1
    }
}

/// The number of threads a script's timeline shows: the largest that its
/// commands ask for, 0 for a script without commands.
pub fn thread_count(commands: &[UXGeoScriptCommand]) -> (r: isize)
    ensures
        r == max_threads(commands@),
{
    let n = commands.len();
    if n == 0 {
        return 0;
    }
    let mut best = threads_of(&commands[0]);
    let mut i: usize = 1;
    assert(commands@.take(1).drop_last() =~= Seq::<UXGeoScriptCommand>::empty());
    assert(max_threads(commands@.take(1)) == command_threads(commands@[0]));
    while i < n
        invariant
            n == commands@.len(),
            1 <= i <= n,
            best == max_threads(commands@.take(i as int)),
        decreases n - i,
    {
        let t = threads_of(&commands[i]);
        assert(commands@.take(i + 1).drop_last() =~= commands@.take(i as int));
        if t > best {
            best = t;
        }
        i = i + 1;
    }
    assert(commands@.take(n as int) =~= commands@);
    best
}

} // verus!
