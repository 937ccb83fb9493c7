//! The password store: where secrets live on disk, the file and directory
//! modes they get, and the `gpg` command lines that read and write them.
use vstd::prelude::*;

use crate::text::{chars_of, concat, ends_with, has_suffix};

verus! {

/// The subdirectory of the store that holds the daemon's collections.
pub open spec fn pass_subdir() -> Seq<char> {
    "secret-service"@
}

/// Octal digits only, at least one.
pub open spec fn is_octal(s: Seq<char>) -> bool {
    s.len() > 0 && forall|i: int| 0 <= i < s.len() ==> '0' <= #[trigger] s[i] <= '7'
}

/// The number that the octal digits `s` spell.
pub open spec fn octal_value(s: Seq<char>) -> nat
    decreases s.len(),
{
    if s.len() == 0 {
        0
    } else {
        octal_value(s.drop_last()) * 8 + ((s.last() as u32) - ('0' as u32)) as nat
    }
}

/// What `u32::from_str_radix(s, 8)` accepts: an optional `+`, then octal
/// digits whose value fits in 32 bits.
pub open spec fn parse_octal_spec(s: Seq<char>) -> Option<u32> {
    let d = if s.len() > 0 && s[0] == '+' {
        s.drop_first()
    } else {
        s
    };
    if is_octal(d) && octal_value(d) <= u32::MAX {
        Some(octal_value(d) as u32)
    } else {
        None
    }
}

/// The umask used when none (or an unreadable one) is configured.
pub open spec fn default_umask() -> u32 {
    0o077
}

/// The mode of new directories: the permissions that the umask leaves.
pub open spec fn dir_mode_of(umask: u32) -> u32 {
    !umask & 0o777u32
}

/// The mode of new files: as for directories, without execute bits.
pub open spec fn file_mode_of(umask: u32) -> u32 {
    !(umask | 0o111u32) & 0o777u32
}

/// `dir` joined with the relative path `rel`.
pub open spec fn join_spec(dir: Seq<char>, rel: Seq<char>) -> Seq<char> {
    if dir.len() > 0 && dir.last() == '/' {
        dir + rel
    } else {
        dir + "/"@ + rel
    }
}

/// The store's file for a secret path relative to the store: `.gpg` is
/// appended unless the path ends with it.
pub open spec fn secret_file_spec(dir: Seq<char>, rel: Seq<char>) -> Seq<char> {
    if has_suffix(rel, ".gpg"@) {
        join_spec(dir, rel)
    } else {
        join_spec(dir, rel) + ".gpg"@
    }
}

/// Parses an octal number as `u32::from_str_radix(s, 8)` does.
pub fn parse_octal(s: &str) -> (r: Option<u32>)
    ensures
        r == parse_octal_spec(s@),
{
    let chars = chars_of(s);
    let mut i: usize = 0;
    if chars.len() > 0 && chars[0] == '+' {
        i = 1;
    }
    let ghost d = if s@.len() > 0 && s@[0] == '+' { s@.drop_first() } else { s@ };
    proof {
        assert(d =~= chars@.subrange(i as int, chars@.len() as int));
    }
    if i >= chars.len() {
        return None;
    }
    let start = i;
    let mut acc: u64 = 0;
    while i < chars.len()
        invariant
            chars@ == s@,
            start <= i <= chars@.len(),
            start < chars@.len(),
            d == chars@.subrange(start as int, chars@.len() as int),
            d == (if s@.len() > 0 && s@[0] == '+' { s@.drop_first() } else { s@ }),
            forall|j: int| start <= j < i ==> '0' <= #[trigger] chars@[j] <= '7',
            acc as nat == octal_value(chars@.subrange(start as int, i as int)),
            acc <= u32::MAX,
        decreases chars@.len() - i,
    {
        let c = chars[i];
        proof {
            assert(chars@.subrange(start as int, i + 1).drop_last() =~= chars@.subrange(start as int, i as int));
        }
        if c < '0' || c > '7' {
            proof {
                assert(d[i - start] == c);
                assert(!is_octal(d));
            }
            return None;
        }
        let next = acc * 8 + ((c as u32) - ('0' as u32)) as u64;
        if next > 0xffff_ffff {
            proof {
                assert(d.subrange(0, (i + 1 - start) as int) =~= chars@.subrange(start as int, i + 1));
                if is_octal(d) {
                    lemma_octal_monotone(d, (i + 1 - start) as int);
                }
            }
            return None;
        }
        acc = next;
        i += 1;
    }
    proof {
        assert(d =~= chars@.subrange(start as int, i as int));
    }
    Some(acc as u32)
}

proof fn lemma_octal_monotone(s: Seq<char>, k: int)
    requires
        0 <= k <= s.len(),
        forall|i: int| 0 <= i < s.len() ==> '0' <= #[trigger] s[i] <= '7',
    ensures
        octal_value(s.subrange(0, k)) <= octal_value(s),
    decreases s.len() - k,
{
    if k < s.len() {
        lemma_octal_monotone(s, k + 1);
        assert(s.subrange(0, k + 1).drop_last() =~= s.subrange(0, k));
    } else {
        assert(s.subrange(0, k) =~= s);
    }
}

/// `dir` joined with the relative path `rel`.
pub fn join_path(dir: &str, rel: &str) -> (r: String)
    ensures
        r@ == join_spec(dir@, rel@),
{
    let chars = chars_of(dir);
    proof {
        reveal_strlit("/");
    }
    if chars.len() > 0 && chars[chars.len() - 1] == '/' {
        concat(dir, rel)
    } else {
        let with_sep = concat(dir, "/");
        concat(with_sep.as_str(), rel)
    }
}

/// The directory of collection `collection_id`, relative to the store.
pub fn get_collection_dir(collection_id: &str) -> (r: String)
    ensures
        r@ == join_spec(pass_subdir(), collection_id@),
{
    join_path("secret-service", collection_id)
}

/// The path of secret `secret_id` of collection `collection_id`, relative
/// to the store and without the `.gpg` extension.
pub fn get_secret_path(collection_id: &str, secret_id: &str) -> (r: String)
    ensures
        r@ == join_spec(join_spec(pass_subdir(), collection_id@), secret_id@),
{
    let dir = get_collection_dir(collection_id);
    join_path(dir.as_str(), secret_id)
}

/// The root directory of the store: the explicit one, else the one from the
/// environment, else `.password-store` under the home directory.
pub fn store_directory(explicit: Option<String>, from_env: Option<String>, home: Option<String>) -> (r: Option<String>)
    ensures
        explicit matches Some(d) ==> r == Some(d),
        explicit is None && from_env is Some ==> r == from_env,
        explicit is None && from_env is None ==> match home {
            Some(h) => r matches Some(d) && d@ == join_spec(h@, ".password-store"@),
            None => r is None,
        },
{
    match explicit {
        Some(d) => Some(d),
        None => match from_env {
            Some(d) => Some(d),
            None => match home {
                Some(h) => Some(join_path(h.as_str(), ".password-store")),
                None => None,
            },
        },
    }
}

/// The password store's settings.
pub struct PasswordStore {
    /// The root directory.
    pub directory: String,
    gpg_opts: Option<String>,
    file_mode: u32,
    dir_mode: u32,
}

impl PasswordStore {
    /// The root directory.
    pub closed spec fn root(&self) -> Seq<char> {
        self.directory@
    }

    pub closed spec fn gpg_opts_spec(&self) -> Option<Seq<char>> {
        match self.gpg_opts {
            Some(o) => Some(o@),
            None => None,
        }
    }

    pub closed spec fn file_mode_spec(&self) -> u32 {
        self.file_mode
    }

    pub closed spec fn dir_mode_spec(&self) -> u32 {
        self.dir_mode
    }

    /// A store rooted at `directory`, with extra `gpg` options and the umask
    /// text that the environment gave (octal; 077 when absent or unreadable).
    pub fn new(directory: String, gpg_opts: Option<String>, umask: Option<&str>) -> (r: Self)
        ensures
            r.root() == directory@,
            r.gpg_opts_spec() == match gpg_opts {
                Some(o) => Some(o@),
                None => None::<Seq<char>>,
            },
            ({
                let m = match umask {
                    Some(u) => match parse_octal_spec(u@) {
                        Some(v) => v,
                        None => default_umask(),
                    },
                    None => default_umask(),
                };
                r.dir_mode_spec() == dir_mode_of(m) && r.file_mode_spec() == file_mode_of(m)
            }),
    {
        let m: u32 = match umask {
            Some(u) => match parse_octal(u) {
                Some(v) => v,
                None => 0o077,
            },
            None => 0o077,
        };
        PasswordStore { directory, gpg_opts, file_mode: !(m | 0o111) & 0o777, dir_mode: !m & 0o777 }
    }

    /// The configured extra `gpg` options, if any.
    pub fn gpg_opts(&self) -> (r: &Option<String>)
        ensures
            self.gpg_opts_spec() == match r {
                Some(o) => Some(o@),
                None => None::<Seq<char>>,
            },
    {
        &self.gpg_opts
    }

    /// The store that the environment describes: the root from the explicit
    /// directory, `PASSWORD_STORE_DIR` or `HOME` (see `store_directory`), the
    /// options from `PASSWORD_STORE_GPG_OPTS` and the umask from
    /// `PASSWORD_STORE_UMASK`. `None` when no root can be found.
    pub fn from_env(
        explicit: Option<String>,
        store_dir: Option<String>,
        home: Option<String>,
        gpg_opts: Option<String>,
        umask: Option<String>,
    ) -> (r: Option<Self>)
        ensures
            r is Some <==> (explicit is Some || store_dir is Some || home is Some),
            r matches Some(p) ==> {
                &&& explicit matches Some(d) ==> p.root() == d@
                &&& explicit is None ==> (store_dir matches Some(d) ==> p.root() == d@)
                &&& explicit is None && store_dir is None ==> (home matches Some(h) ==> p.root() == join_spec(
                    h@,
                    ".password-store"@,
                ))
                &&& p.gpg_opts_spec() == match gpg_opts {
                    Some(o) => Some(o@),
                    None => None::<Seq<char>>,
                }
                &&& {
                    let m = match umask {
                        Some(u) => match parse_octal_spec(u@) {
                            Some(v) => v,
                            None => default_umask(),
                        },
                        None => default_umask(),
                    };
                    p.dir_mode_spec() == dir_mode_of(m) && p.file_mode_spec() == file_mode_of(m)
                }
            },
    {
        let directory = match store_directory(explicit, store_dir, home) {
            Some(d) => d,
            None => {
                return None;
            },
        };
        let store = match &umask {
            Some(u) => PasswordStore::new(directory, gpg_opts, Some(u.as_str())),
            None => PasswordStore::new(directory, gpg_opts, None),
        };
        Some(store)
    }

    /// The mode of new files.
    pub fn file_mode(&self) -> (r: u32)
        ensures
            r == self.file_mode_spec(),
    {
        self.file_mode
    }

    /// The mode of new directories.
    pub fn dir_mode(&self) -> (r: u32)
        ensures
            r == self.dir_mode_spec(),
    {
        self.dir_mode
    }

    /// The file of a secret path relative to the store, with `.gpg` appended
    /// unless the path already ends with it.
    pub fn get_full_secret_path(&self, path: &str) -> (r: String)
        ensures
            r@ == secret_file_spec(self.root(), path@),
    {
        let full = join_path(self.directory.as_str(), path);
        let chars = chars_of(path);
        let suffix = chars_of(".gpg");
        if ends_with(&chars, &suffix) {
            full
        } else {
            concat(full.as_str(), ".gpg")
        }
    }
}

} // verus!
