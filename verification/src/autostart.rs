//! Start with Windows, via the per user Run key.
//!
//! The value lives under `HKCU\Software\Microsoft\Windows\CurrentVersion\Run`,
//! which needs no administrator rights and no installer. Nothing is left
//! behind when it is turned off, and the value is refreshed if the executable
//! moves. The registry calls happen at the edge of the program; this module
//! decides what to write and what their outcomes mean.
use vstd::prelude::*;
use crate::text::{push_char, utf16, encode_utf16};

verus! {

broadcast use vstd::string::group_string_axioms;

/// The change to make to the Run value.
#[derive(Debug, Clone, Copy, PartialEq, Eq, Structural)]
pub enum RunChange {
    /// Add or refresh the value so Windows launches this exe at sign in.
    Enable,
    /// Remove the value.
    Disable,
}

/// Make the registry agree with the setting.
pub fn apply(enabled: bool) -> (r: RunChange)
    ensures
        r == (if enabled {
            RunChange::Enable
        } else {
            RunChange::Disable
        }),
{
    if enabled {
        RunChange::Enable
    } else {
        RunChange::Disable
    }
}

/// The value counts as present when it could be queried and is not empty.
pub fn entry_present(queried: bool, size: u32) -> (r: bool)
    ensures
        r == (queried && size > 0),
{
    queried && size > 0
}

/// A path in double quotes, so spaces survive.
pub open spec fn quoted(path: Seq<char>) -> Seq<char> {
    seq!['"'] + path + seq!['"']
}

/// The command line stored in the Run value: the full path of the running
/// executable, quoted. `len` is how many units the module file name query
/// wrote into a buffer of `capacity`; nothing, or a full buffer (a path that
/// may have been cut short), gives no command line.
pub fn command_line(len: u32, capacity: usize, path: &str) -> (r: Option<String>)
    ensures
        match r {
            Some(s) => len > 0 && (len as int) < capacity && s@ == quoted(path@),
            None => len == 0 || len as int >= capacity,
        },
{
    if len == 0 || len as usize >= capacity {
        return None;
    }
    let mut s = String::new();
    push_char(&mut s, '"');
    s.append(path);
    push_char(&mut s, '"');
    assert(s@ =~= quoted(path@));
    Some(s)
}

/// The bytes of a wide string as the registry stores them: each UTF-16 unit
/// low byte first.
pub open spec fn le_bytes(units: Seq<u16>) -> Seq<u8> {
    Seq::new(
        2 * units.len(),
        |i: int|
            if i % 2 == 0 {
                (units[i / 2] % 256) as u8
            } else {
                (units[i / 2] / 256) as u8
            },
    )
}

/// The `REG_SZ` data for a command line: its UTF-16 form with the null
/// terminator, as bytes.
pub fn registry_data(command: &str) -> (r: Vec<u8>)
    ensures
        r@ == le_bytes(utf16(command@).push(0u16)),
{
    let mut units = encode_utf16(command);
    units.push(0);
    let ghost want = le_bytes(units@);
    let mut out: Vec<u8> = Vec::new();
    let mut i: usize = 0;
    while i < units.len()
        invariant
            i <= units@.len(),
            want == le_bytes(units@),
            out@ == want.take(2 * i),
        decreases units@.len() - i,
    {
        let u = units[i];
        out.push((u % 256) as u8);
        out.push((u / 256) as u8);
        assert(out@ =~= want.take(2 * i + 2)) by {
            assert forall|k: int| 0 <= k < 2 * i + 2 implies out@[k] == want[k] by {
                if k >= 2 * i {
                    assert(k / 2 == i);
                }
            }
        }
        i = i + 1;
    }
    assert(want.take(2 * units@.len() as int) =~= want);
    out
}

/// The outcome of writing the Run value.
pub fn enable_outcome(written: bool) -> (r: Result<(), String>)
    ensures
        match r {
            Ok(()) => written,
            Err(m) => !written && m@ == "could not write the autostart entry"@,
        },
{
    if written {
        Ok(())
    } else {
        let mut m = String::new();
        m.append("could not write the autostart entry");
        Err(m)
    }
}

/// What removing the Run value found.
#[derive(Debug, Clone, Copy, PartialEq, Eq, Structural)]
pub enum Removal {
    /// The Run key could not be opened, so there is no value.
    KeyMissing,
    /// The value was deleted.
    Deleted,
    /// There was no value to delete.
    NotFound,
    /// Deleting failed.
    Failed,
}

/// The outcome of removing the Run value. It succeeds when it was already
/// absent.
pub fn disable_outcome(removal: Removal) -> (r: Result<(), String>)
    ensures
        match r {
            Ok(()) => removal != Removal::Failed,
            Err(m) => removal == Removal::Failed && m@ == "could not remove the autostart entry"@,
        },
{
    match removal {
        Removal::Failed => {
            let mut m = String::new();
            m.append("could not remove the autostart entry");
            Err(m)
        },
        _ => Ok(()),
    }
}

/// Whether startup should write the Run value: always on a first run, which
/// is the only moment it is turned on unasked, and otherwise only to refresh
/// an entry the user already has, in case the executable has moved.
pub fn enable_at_startup(first_run: bool, enabled: bool) -> (r: bool)
    ensures
        r == (first_run || enabled),
{
    first_run || enabled
}

} // verus!
