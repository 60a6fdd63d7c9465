//! Rendering of permission data as the attribute text of a listing entry.

use vstd::prelude::*;

verus! {

/// Mask of the file-type bits of a POSIX mode.
pub const FMT: u32 = 0o170000;

pub const FIFO: u32 = 0o010000;

pub const FCHR: u32 = 0o020000;

pub const FDIR: u32 = 0o040000;

pub const FBLK: u32 = 0o060000;

pub const FREG: u32 = 0o100000;

pub const FLNK: u32 = 0o120000;

pub const FSCK: u32 = 0o140000;

/// Set-user-id, set-group-id and sticky bits.
pub const UID: u32 = 0o4000;

pub const GID: u32 = 0o2000;

pub const SID: u32 = 0o1000;

/// Read, write and execute bits of the owner.
pub const UR: u32 = 0o400;

pub const UW: u32 = 0o200;

pub const UX: u32 = 0o100;

/// Read, write and execute bits of the group.
pub const GR: u32 = 0o040;

pub const GW: u32 = 0o020;

pub const GX: u32 = 0o010;

/// Read, write and execute bits of everyone else.
pub const OR: u32 = 0o004;

pub const OW: u32 = 0o002;

pub const OX: u32 = 0o001;

/// What a backend knows about the permissions of one record.
#[derive(Clone, Copy, Debug)]
pub enum Permissions {
    /// A POSIX mode word: file type, special bits and the nine `rwx` bits.
    Posix(u32),
    /// A single read-only flag, as Windows-style filesystems keep it.
    ReadOnly(bool),
    /// The backend has no permission data, or could not read it.
    Unknown,
}

/// True when every bit of `bit` is set in `mode`.
pub open spec fn has_bits(mode: u32, bit: u32) -> bool {
    mode & bit == bit
}

/// The first character of a POSIX attribute text: the file type.
pub open spec fn type_char(mode: u32) -> char {
    let fmt = mode & FMT;
    if fmt == FREG {
        '-'
    } else if fmt == FDIR {
        'd'
    } else if fmt == FLNK {
        'l'
    } else if fmt == FIFO {
        'p'
    } else if fmt == FSCK {
        's'
    } else if fmt == FCHR {
        'c'
    } else if fmt == FBLK {
        'b'
    } else {
        '?'
    }
}

/// `letter` when `bit` is set in `mode`, else `-`.
pub open spec fn flag_char(mode: u32, bit: u32, letter: char) -> char {
    if has_bits(mode, bit) {
        letter
    } else {
        '-'
    }
}

/// The execute position of one `rwx` triple. A set special bit shows as
/// `lower` over a set execute bit and as `upper` over a cleared one;
/// without the special bit the position is `x` or `-`.
pub open spec fn exec_char(mode: u32, special: u32, exec: u32, lower: char, upper: char) -> char {
    if has_bits(mode, special) {
        if has_bits(mode, exec) {
            lower
        } else {
            upper
        }
    } else if has_bits(mode, exec) {
        'x'
    } else {
        '-'
    }
}

/// The classic ten-character rendering of a POSIX mode, as `ls -l` shows it.
pub open spec fn posix_attributes(mode: u32) -> Seq<char> {
    seq![
        type_char(mode),
        flag_char(mode, UR, 'r'),
        flag_char(mode, UW, 'w'),
        exec_char(mode, UID, UX, 's', 'S'),
        flag_char(mode, GR, 'r'),
        flag_char(mode, GW, 'w'),
        exec_char(mode, GID, GX, 's', 'S'),
        flag_char(mode, OR, 'r'),
        flag_char(mode, OW, 'w'),
        exec_char(mode, SID, OX, 't', 'T'),
    ]
}

/// The attribute text of a record with the given permission data.
pub open spec fn attributes_of(permissions: Permissions) -> Seq<char> {
    match permissions {
        Permissions::Posix(mode) => posix_attributes(mode),
        Permissions::ReadOnly(read_only) => if read_only {
            seq!['r']
        } else {
            seq!['-']
        },
        Permissions::Unknown => seq!['-'],
    }
}

fn type_of(mode: u32) -> (c: char)
    ensures
        c == type_char(mode),
{
    let fmt = mode & FMT;
    if fmt == FREG {
        '-'
    } else if fmt == FDIR {
        'd'
    } else if fmt == FLNK {
        'l'
    } else if fmt == FIFO {
        'p'
    } else if fmt == FSCK {
        's'
    } else if fmt == FCHR {
        'c'
    } else if fmt == FBLK {
        'b'
    } else {
        '?'
    }
}

fn flag_of(mode: u32, bit: u32, letter: char) -> (c: char)
    ensures
        c == flag_char(mode, bit, letter),
{
    if mode & bit == bit {
        letter
    } else {
        '-'
    }
}

fn exec_of(mode: u32, special: u32, exec: u32, lower: char, upper: char) -> (c: char)
    ensures
        c == exec_char(mode, special, exec, lower, upper),
{
    if mode & special == special {
        if mode & exec == exec {
            lower
        } else {
            upper
        }
    } else if mode & exec == exec {
        'x'
    } else {
        '-'
    }
}

/// Renders a POSIX mode as its ten attribute characters.
pub fn posix_mode_to_string(mode: u32) -> (out: String)
    ensures
        out@ == posix_attributes(mode),
{
    let mut out = String::new();
    out.push(type_of(mode));
    out.push(flag_of(mode, UR, 'r'));
    out.push(flag_of(mode, UW, 'w'));
    out.push(exec_of(mode, UID, UX, 's', 'S'));
    out.push(flag_of(mode, GR, 'r'));
    out.push(flag_of(mode, GW, 'w'));
    out.push(exec_of(mode, GID, GX, 's', 'S'));
    out.push(flag_of(mode, OR, 'r'));
    out.push(flag_of(mode, OW, 'w'));
    out.push(exec_of(mode, SID, OX, 't', 'T'));
    assert(out@ =~= posix_attributes(mode));
    out
}

/// Renders permission data as attribute text: ten characters for a POSIX
/// mode, `r` or `-` for a read-only flag, `-` where nothing is known.
pub fn permissions_to_string(permissions: &Permissions) -> (out: String)
    ensures
        out@ == attributes_of(*permissions),
{
    match permissions {
        Permissions::Posix(mode) => posix_mode_to_string(*mode),
        Permissions::ReadOnly(read_only) => {
            let mut out = String::new();
            out.push(if *read_only { 'r' } else { '-' });
            assert(out@ =~= attributes_of(*permissions));
            out
        },
        Permissions::Unknown => {
            let mut out = String::new();
            out.push('-');
            assert(out@ =~= seq!['-']);
            out
        },
    }
}

} // verus!
