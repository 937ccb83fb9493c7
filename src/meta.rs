//! What the daemon reads from directory listings and file metadata.
use vstd::prelude::*;

use crate::text::{chars_of, ends_with, has_suffix, string_from_chars, strs, take_chars};

verus! {

/// A file time as the filesystem reports it.
pub enum FileTime {
    /// The platform does not record this time.
    Unsupported,
    /// A time before the Unix epoch.
    BeforeEpoch,
    /// Whole seconds since the Unix epoch.
    SinceEpoch(u64),
}

/// The `Created` or `Modified` property for a file time: seconds since the
/// Unix epoch, 0 for times before it or that the platform does not record.
pub fn time_to_int(time: FileTime) -> (r: u64)
    ensures
        r == match time {
            FileTime::SinceEpoch(s) => s,
            _ => 0,
        },
{
    match time {
        FileTime::SinceEpoch(s) => s,
        _ => 0,
    }
}

/// The secret id that a directory entry stands for: a regular file named
/// `{id}.gpg`.
pub open spec fn listed_secret(is_file: bool, name: Seq<char>) -> Option<Seq<char>> {
    if is_file && has_suffix(name, ".gpg"@) {
        Some(name.subrange(0, name.len() - 4))
    } else {
        None
    }
}

/// The secret ids that directory entries (is a regular file, name) stand for, in order.
pub open spec fn listed_secrets(entries: Seq<(bool, String)>) -> Seq<Seq<char>>
    decreases entries.len(),
{
    if entries.len() == 0 {
        Seq::empty()
    } else {
        match listed_secret(entries.last().0, entries.last().1@) {
            Some(id) => listed_secrets(entries.drop_last()).push(id),
            None => listed_secrets(entries.drop_last()),
        }
    }
}

/// The ids of the secrets of a collection, from the entries of its directory:
/// the regular files ending in `.gpg`, without that suffix.
pub fn secret_ids_from_listing(entries: &Vec<(bool, String)>) -> (r: Vec<String>)
    ensures
        strs(r@) == listed_secrets(entries@),
{
    let suffix = chars_of(".gpg");
    proof {
        reveal_strlit(".gpg");
    }
    let mut out: Vec<String> = Vec::new();
    let mut i: usize = 0;
    while i < entries.len()
        invariant
            i <= entries@.len(),
            suffix@ == ".gpg"@,
            suffix@.len() == 4,
            strs(out@) == listed_secrets(entries@.subrange(0, i as int)),
        decreases entries@.len() - i,
    {
        let is_file = entries[i].0;
        let name = chars_of(entries[i].1.as_str());
        proof {
            assert(entries@.subrange(0, i + 1).drop_last() =~= entries@.subrange(0, i as int));
        }
        if is_file && ends_with(&name, &suffix) {
            let id = string_from_chars(&take_chars(&name, name.len() - 4));
            let ghost before = strs(out@);
            out.push(id);
            proof {
                assert(strs(out@) =~= before.push(name@.subrange(0, name@.len() - 4)));
            }
        }
        i += 1;
    }
    proof {
        assert(entries@.subrange(0, entries@.len() as int) =~= entries@);
    }
    out
}

/// The daemon's command-line options.
pub struct CliArgs {
    /// The store's root directory; else `PASSWORD_STORE_DIR`, else
    /// `$HOME/.password-store`.
    pub password_store_dir: Option<String>,
    /// Make `gpg-agent` forget cached passphrases when a collection is locked.
    pub forget_password_on_lock: bool,
    /// Print the version and exit.
    pub print_version: bool,
}

} // verus!
