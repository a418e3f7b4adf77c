//! The rules of the private runtime directory: the predictable root must be
//! a real directory owned by the current user, and only its `run-*`
//! directories are removed at start-up. The file-system calls belong to the
//! caller.
use vstd::prelude::*;

use crate::text::{chars_of, starts_with};

verus! {

/// Prefix of the per-process run directories.
pub const RUN_PREFIX: &'static str = "run-";

/// A directory entry name that belongs to a run of the console.
pub fn is_owned_run(name: &str) -> (b: bool)
    ensures
        b == starts_with(name@, RUN_PREFIX@),
{
    let v = chars_of(name);
    let p = chars_of(RUN_PREFIX);
    v.len() >= p.len() && crate::text::occurs_at_exec(v.as_slice(), p.as_slice(), 0)
}

/// The runtime root may be used: a directory that is not a symbolic link
/// and is owned by the effective user.
pub fn runtime_root_ok(is_dir: bool, is_symlink: bool, owner: u32, effective_user: u32) -> (b: bool)
    ensures
        b == (is_dir && !is_symlink && owner == effective_user),
{
    is_dir && !is_symlink && owner == effective_user
}

/// What start-up does with an entry of the runtime root.
#[derive(Clone, Copy, Debug, PartialEq, Eq, Structural)]
pub enum StaleEntry {
    /// Not a run directory: leave it.
    Keep,
    /// A run directory: remove it.
    Remove,
    /// A run name that is not a real directory: refuse to go on.
    Refuse,
}

/// Decides what start-up does with an entry of the runtime root. A name
/// that is not valid Unicode is not a run.
pub fn stale_entry(name: Option<&str>, is_real_directory: bool) -> (e: StaleEntry)
    ensures
        match name {
            Some(n) if starts_with(n@, RUN_PREFIX@) => if is_real_directory {
                e == StaleEntry::Remove
            } else {
                e == StaleEntry::Refuse
            },
            _ => e == StaleEntry::Keep,
        },
{
    match name {
        Some(n) => if is_owned_run(n) {
            if is_real_directory {
                StaleEntry::Remove
            } else {
                StaleEntry::Refuse
            }
        } else {
            StaleEntry::Keep
        },
        None => StaleEntry::Keep,
    }
}

} // verus!
