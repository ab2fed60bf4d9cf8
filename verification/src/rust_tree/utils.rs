//! Sizes in human-readable units, and the classification of write errors.

use vstd::prelude::*;
use crate::rust_tree::numbers::{decimal, push_decimal};
use crate::rust_tree::text::{push_str, string_of};

verus! {

/// 1024 to the power `i`, for the units that exist.
pub open spec fn unit_size(i: nat) -> nat {
    if i == 0 {
        1
    } else if i == 1 {
        0x400
    } else if i == 2 {
        0x10_0000
    } else if i == 3 {
        0x4000_0000
    } else {
        0x100_0000_0000
    }
}

/// The unit in which `bytes` is shown: the largest of B, KB, MB, GB, TB under
/// which the value stays below 1024. A size of 1024 TB or more has no such
/// unit and is shown in bytes.
pub open spec fn unit_index(bytes: nat) -> nat {
    if bytes < 0x400 {
        0
    } else if bytes < 0x10_0000 {
        1
    } else if bytes < 0x4000_0000 {
        2
    } else if bytes < 0x100_0000_0000 {
        3
    } else if bytes < 0x4_0000_0000_0000 {
        4
    } else {
        0
    }
}

/// The name of the unit `i`.
pub open spec fn unit_name(i: nat) -> Seq<char> {
    if i == 0 {
        "B"@
    } else if i == 1 {
        "KB"@
    } else if i == 2 {
        "MB"@
    } else if i == 3 {
        "GB"@
    } else {
        "TB"@
    }
}

/// `bytes / unit` in tenths, rounded to the nearest tenth; a value that lies
/// halfway between two tenths goes to the even one.
pub open spec fn rounded_tenths(bytes: nat, unit: nat) -> nat {
    let q = (bytes * 10) / unit;
    let r = (bytes * 10) % unit;
    if 2 * r > unit || (2 * r == unit && q % 2 == 1) {
        q + 1
    } else {
        q
    }
}

/// The human-readable writing of a size: the byte count and ` B` below 1024
/// bytes, else the value in its unit with one decimal place.
pub open spec fn human_readable(bytes: nat) -> Seq<char> {
    let i = unit_index(bytes);
    if i == 0 {
        decimal(bytes) + " B"@
    } else {
        let t = rounded_tenths(bytes, unit_size(i));
        decimal(t / 10).push('.') + decimal(t % 10).push(' ') + unit_name(i)
    }
}

/// Writes a size in bytes in its human-readable form.
pub fn bytes_to_human_readable(bytes: u64) -> (text: String)
    ensures
        text@ == human_readable(bytes as nat),
{
    let mut out: Vec<char> = Vec::new();
    if bytes < 0x400 || bytes >= 0x4_0000_0000_0000 {
        push_decimal(&mut out, bytes);
        push_str(&mut out, " B");
        return string_of(&out);
    }
    let (unit, name): (u64, &str) = if bytes < 0x10_0000 {
        (0x400, "KB")
    } else if bytes < 0x4000_0000 {
        (0x10_0000, "MB")
    } else if bytes < 0x100_0000_0000 {
        (0x4000_0000, "GB")
    } else {
        (0x100_0000_0000, "TB")
    };
    let ghost i = unit_index(bytes as nat);
    assert(unit == unit_size(i) && name@ == unit_name(i));
    let scaled: u64 = bytes * 10;
    let q: u64 = scaled / unit;
    let r: u64 = scaled % unit;
    let tenths: u64 = if 2 * r > unit || (2 * r == unit && q % 2 == 1) {
        q + 1
    } else {
        q
    };
    assert(tenths == rounded_tenths(bytes as nat, unit as nat));
    push_decimal(&mut out, tenths / 10);
    out.push('.');
    push_decimal(&mut out, tenths % 10);
    out.push(' ');
    push_str(&mut out, name);
    assert(out@ =~= human_readable(bytes as nat));
    string_of(&out)
}

/// One error in a chain of causes, as far as its classification goes.
#[derive(Clone, Copy, Debug, PartialEq, Eq, Structural)]
pub enum ErrorLink {
    /// An I/O error that reports a broken pipe.
    BrokenPipe,
    /// An I/O error of any other kind.
    OtherIo,
    /// An error that is no I/O error.
    Foreign,
}

/// Whether a broken pipe stands anywhere in the chain.
pub open spec fn has_broken_pipe(chain: Seq<ErrorLink>) -> bool {
    exists|i: int| 0 <= i < chain.len() && #[trigger] chain[i] == ErrorLink::BrokenPipe
}

/// Whether an error comes from a reader that closed the pipe. `chain` holds
/// the error itself first, then its cause, the cause of that, and so on.
pub fn is_broken_pipe_error(chain: &Vec<ErrorLink>) -> (r: bool)
    ensures
        r == has_broken_pipe(chain@),
{
    let mut i: usize = 0;
    while i < chain.len()
        invariant
            0 <= i <= chain.len(),
            forall|k: int| 0 <= k < i ==> #[trigger] chain@[k] != ErrorLink::BrokenPipe,
        decreases chain.len() - i,
    {
        match chain[i] {
            ErrorLink::BrokenPipe => {
                return true;
            },
            _ => {},
        }
        i += 1;
    }
    false
}

} // verus!
