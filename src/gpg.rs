//! What the daemon asks of `gpg` and `gpg-agent`, and how it reads their answers.
use vstd::prelude::*;

use crate::index::names;
use crate::pass::PasswordStore;
use crate::text::{
    chars_are, chars_of, concat, extend_strs, has_char, push_str, split_chars, split_spec, split_words,
    string_from_chars, strs, trim_chars, trim_spec, views_of, words_spec,
};

verus! {

/// The recipients that a `.gpg-id` file lists: one per non-empty line,
/// without surrounding whitespace.
pub open spec fn gpg_ids_spec(content: Seq<char>) -> Seq<Seq<char>> {
    ids_of_lines(split_spec(content, '\n'))
}

/// The non-empty trimmed lines among `lines`.
pub open spec fn ids_of_lines(lines: Seq<Seq<char>>) -> Seq<Seq<char>>
    decreases lines.len(),
{
    if lines.len() == 0 {
        Seq::empty()
    } else {
        let t = trim_spec(lines.last());
        if t.len() > 0 {
            ids_of_lines(lines.drop_last()).push(t)
        } else {
            ids_of_lines(lines.drop_last())
        }
    }
}

/// The recipients listed in the contents of a `.gpg-id` file.
pub fn parse_gpg_id(content: &str) -> (r: Vec<String>)
    ensures
        strs(r@) == gpg_ids_spec(content@),
{
    let chars = chars_of(content);
    let lines = split_chars(&chars, '\n');
    let mut out: Vec<String> = Vec::new();
    let mut i: usize = 0;
    while i < lines.len()
        invariant
            i <= lines@.len(),
            views_of(lines@) == split_spec(content@, '\n'),
            strs(out@) == ids_of_lines(views_of(lines@).subrange(0, i as int)),
        decreases lines@.len() - i,
    {
        let t = trim_chars(&lines[i]);
        proof {
            let sub = views_of(lines@).subrange(0, i + 1);
            assert(sub.drop_last() =~= views_of(lines@).subrange(0, i as int));
            assert(sub.last() == lines@[i as int]@);
        }
        if t.len() > 0 {
            let ghost before = strs(out@);
            out.push(string_from_chars(&t));
            proof {
                assert(strs(out@) =~= before.push(t@));
            }
        }
        i += 1;
    }
    proof {
        assert(views_of(lines@).subrange(0, lines@.len() as int) =~= views_of(lines@));
    }
    out
}

/// The field at `i` of a record, or empty when the record is shorter.
pub open spec fn field(fields: Seq<Seq<char>>, i: int) -> Seq<char> {
    if 0 <= i < fields.len() {
        fields[i]
    } else {
        Seq::empty()
    }
}

/// Scanning a `--with-colons --with-keygrip` key listing: the keygrips found,
/// and whether the last `pub` or `sub` record has the encryption capability
/// (`e` in its twelfth field). A `grp` record after such a record gives its
/// keygrip (tenth field).
pub open spec fn keygrip_scan(records: Seq<Seq<char>>) -> (Seq<Seq<char>>, bool)
    decreases records.len(),
{
    if records.len() == 0 {
        (Seq::empty(), false)
    } else {
        let (found, pending) = keygrip_scan(records.drop_last());
        let fields = split_spec(records.last(), ':');
        let kind = field(fields, 0);
        if kind == "pub"@ || kind == "sub"@ {
            (found, field(fields, 11).contains('e'))
        } else if kind == "grp"@ {
            if pending && field(fields, 9).len() > 0 {
                (found.push(field(fields, 9)), false)
            } else {
                (found, false)
            }
        } else {
            (found, pending)
        }
    }
}

/// The keygrips of the encryption keys in a key listing.
pub open spec fn keygrips_spec(listing: Seq<char>) -> Seq<Seq<char>> {
    keygrip_scan(split_spec(listing, '\n')).0
}

fn field_at(fields: &Vec<Vec<char>>, i: usize) -> (r: Vec<char>)
    ensures
        r@ == field(views_of(fields@), i as int),
{
    if i < fields.len() {
        fields[i].clone()
    } else {
        Vec::new()
    }
}

/// The keygrips of the encryption keys and subkeys in the output of
/// `gpg --with-colons --with-keygrip --list-key`.
pub fn parse_keygrips(listing: &str) -> (r: Vec<String>)
    ensures
        strs(r@) == keygrips_spec(listing@),
{
    let chars = chars_of(listing);
    let records = split_chars(&chars, '\n');
    let mut out: Vec<String> = Vec::new();
    let mut pending = false;
    let mut i: usize = 0;
    proof {
        reveal_strlit("pub");
        reveal_strlit("sub");
        reveal_strlit("grp");
    }
    while i < records.len()
        invariant
            i <= records@.len(),
            views_of(records@) == split_spec(listing@, '\n'),
            (strs(out@), pending) == keygrip_scan(views_of(records@).subrange(0, i as int)),
        decreases records@.len() - i,
    {
        let fields = split_chars(&records[i], ':');
        let kind = field_at(&fields, 0);
        proof {
            let sub = views_of(records@).subrange(0, i + 1);
            assert(sub.drop_last() =~= views_of(records@).subrange(0, i as int));
            assert(sub.last() == records@[i as int]@);
        }
        if chars_are(&kind, "pub") || chars_are(&kind, "sub") {
            let caps = field_at(&fields, 11);
            pending = has_char(&caps, 'e');
        } else if chars_are(&kind, "grp") {
            let grip = field_at(&fields, 9);
            if pending && grip.len() > 0 {
                let ghost before = strs(out@);
                out.push(string_from_chars(&grip));
                proof {
                    assert(strs(out@) =~= before.push(grip@));
                }
            }
            pending = false;
        }
        i += 1;
    }
    proof {
        assert(views_of(records@).subrange(0, records@.len() as int) =~= views_of(records@));
    }
    out
}

/// The command that makes `gpg-agent` forget the passphrase of a key.
pub open spec fn clear_passphrase_spec(keygrip: Seq<char>) -> Seq<char> {
    "clear_passphrase --mode=normal "@ + keygrip
}

/// The arguments of `gpg-connect-agent` that clear the passphrase of `keygrip`.
pub fn clear_passphrase_args(keygrip: &str) -> (r: Vec<String>)
    ensures
        strs(r@) == seq![clear_passphrase_spec(keygrip@), "/bye"@],
{
    let mut out: Vec<String> = Vec::new();
    let cmd = concat("clear_passphrase --mode=normal ", keygrip);
    let ghost before = strs(out@);
    out.push(cmd);
    proof {
        assert(strs(out@) =~= before.push(clear_passphrase_spec(keygrip@)));
    }
    push_str(&mut out, "/bye");
    proof {
        assert(strs(out@) =~= seq![clear_passphrase_spec(keygrip@), "/bye"@]);
    }
    out
}

/// The recipients of all the lists, each once, in order of first appearance.
pub fn union_recipients(lists: &Vec<Vec<String>>) -> (r: Vec<String>)
    ensures
        forall|x: Seq<char>|
            #[trigger] names(r@, x) <==> exists|i: int| 0 <= i < lists@.len() && names(#[trigger] lists@[i]@, x),
        forall|i: int, j: int| 0 <= i < j < r@.len() ==> #[trigger] r@[i]@ != #[trigger] r@[j]@,
{
    let mut out: Vec<String> = Vec::new();
    let mut i: usize = 0;
    while i < lists.len()
        invariant
            i <= lists@.len(),
            forall|x: Seq<char>|
                #[trigger] names(out@, x) <==> exists|k: int| 0 <= k < i && names(#[trigger] lists@[k]@, x),
            forall|a: int, b: int| 0 <= a < b < out@.len() ==> #[trigger] out@[a]@ != #[trigger] out@[b]@,
        decreases lists@.len() - i,
    {
        let list = &lists[i];
        let mut j: usize = 0;
        while j < list.len()
            invariant
                i < lists@.len(),
                *list == lists@[i as int],
                j <= list@.len(),
                forall|x: Seq<char>|
                    #[trigger] names(out@, x) <==> ((exists|k: int| 0 <= k < i && names(#[trigger] lists@[k]@, x))
                        || exists|m: int| 0 <= m < j && #[trigger] list@[m]@ == x),
                forall|a: int, b: int| 0 <= a < b < out@.len() ==> #[trigger] out@[a]@ != #[trigger] out@[b]@,
            decreases list@.len() - j,
        {
            let x = &list[j];
            let mut seen = false;
            let mut k: usize = 0;
            while k < out.len()
                invariant
                    k <= out@.len(),
                    seen == exists|m: int| 0 <= m < k && #[trigger] out@[m]@ == x@,
                decreases out@.len() - k,
            {
                if out[k] == *x {
                    seen = true;
                }
                k += 1;
            }
            let ghost before = out@;
            if !seen {
                out.push(x.clone());
            }
            proof {
                assert forall|y: Seq<char>|
                    #[trigger] names(out@, y) <==> ((exists|k: int| 0 <= k < i && names(#[trigger] lists@[k]@, y))
                        || exists|m: int| 0 <= m < j + 1 && #[trigger] list@[m]@ == y) by {
                    if names(out@, y) {
                        let m = choose|m: int| 0 <= m < out@.len() && #[trigger] out@[m]@ == y;
                        if m < before.len() {
                            assert(names(before, y));
                        }
                    }
                    if names(before, y) {
                        let m = choose|m: int| 0 <= m < before.len() && #[trigger] before[m]@ == y;
                        assert(out@[m]@ == y);
                    }
                    if y == x@ && seen {
                        assert(names(before, y));
                        let m = choose|m: int| 0 <= m < before.len() && #[trigger] before[m]@ == y;
                        assert(out@[m]@ == y);
                    }
                    if y == x@ && !seen {
                        assert(out@[before.len() as int]@ == y);
                    }
                    if exists|m: int| 0 <= m < j + 1 && #[trigger] list@[m]@ == y {
                        let m = choose|m: int| 0 <= m < j + 1 && #[trigger] list@[m]@ == y;
                        if m == j {
                            assert(y == x@);
                        }
                    }
                }
            }
            j += 1;
        }
        proof {
            assert forall|x: Seq<char>|
                #[trigger] names(out@, x) <==> exists|k: int| 0 <= k < i + 1 && names(#[trigger] lists@[k]@, x) by {
                if exists|m: int| 0 <= m < list@.len() && #[trigger] list@[m]@ == x {
                    assert(names(lists@[i as int]@, x));
                }
                if exists|k: int| 0 <= k < i + 1 && names(#[trigger] lists@[k]@, x) {
                    let k = choose|k: int| 0 <= k < i + 1 && names(#[trigger] lists@[k]@, x);
                    if k == i {
                        let m = choose|m: int| 0 <= m < list@.len() && #[trigger] list@[m]@ == x;
                    }
                }
            }
        }
        i += 1;
    }
    out
}

/// Drops the last name of a relative path: `a/b` gives `a`, `a` gives the
/// empty path (the store's root).
pub open spec fn parent_spec(p: Seq<char>) -> Seq<char>
    decreases p.len(),
{
    if p.len() == 0 {
        p
    } else if p.last() == '/' {
        p.drop_last()
    } else {
        parent_spec(p.drop_last())
    }
}

/// The directories where a `.gpg-id` file is looked for, nearest first: `dir`
/// and each of its ancestors, down to the root (the empty path).
pub open spec fn search_dirs_spec(dir: Seq<char>) -> Seq<Seq<char>>
    decreases dir.len(),
    via search_dirs_decreases
{
    if dir.len() == 0 {
        seq![dir]
    } else {
        seq![dir] + search_dirs_spec(parent_spec(dir))
    }
}

#[via_fn]
proof fn search_dirs_decreases(dir: Seq<char>) {
    lemma_parent_shorter(dir);
}

proof fn lemma_parent_shorter(p: Seq<char>)
    ensures
        p.len() > 0 ==> parent_spec(p).len() < p.len(),
    decreases p.len(),
{
    if p.len() > 0 && p.last() != '/' {
        lemma_parent_shorter(p.drop_last());
        if p.drop_last().len() == 0 {
            assert(parent_spec(p.drop_last()) == p.drop_last());
        }
    }
}

fn parent_dir(p: &Vec<char>) -> (r: Vec<char>)
    ensures
        r@ == parent_spec(p@),
{
    let mut k: usize = p.len();
    proof {
        assert(p@.subrange(0, k as int) =~= p@);
    }
    while k > 0 && p[k - 1] != '/'
        invariant
            k <= p@.len(),
            parent_spec(p@) == parent_spec(p@.subrange(0, k as int)),
        decreases k,
    {
        proof {
            assert(p@.subrange(0, k as int).drop_last() =~= p@.subrange(0, k - 1));
        }
        k -= 1;
    }
    if k == 0 {
        Vec::new()
    } else {
        proof {
            assert(p@.subrange(0, k as int).drop_last() =~= p@.subrange(0, k - 1));
        }
        crate::text::take_chars(p, k - 1)
    }
}

/// The directories, relative to the store, where the recipients of a secret
/// in `dir` are looked for: `dir`, then each ancestor, the root last.
pub fn gpg_id_search_dirs(dir: &str) -> (r: Vec<String>)
    ensures
        strs(r@) == search_dirs_spec(dir@),
{
    let mut cur = chars_of(dir);
    let mut out: Vec<String> = Vec::new();
    proof {
        assert(strs(out@) + search_dirs_spec(cur@) =~= search_dirs_spec(dir@));
    }
    while cur.len() > 0
        invariant
            strs(out@) + search_dirs_spec(cur@) == search_dirs_spec(dir@),
        decreases cur@.len(),
    {
        let ghost before = strs(out@);
        out.push(string_from_chars(&cur));
        proof {
            lemma_parent_shorter(cur@);
            assert(strs(out@) =~= before.push(cur@));
            assert(strs(out@) + search_dirs_spec(parent_spec(cur@)) =~= before + search_dirs_spec(cur@));
        }
        cur = parent_dir(&cur);
    }
    let ghost before = strs(out@);
    out.push(String::new());
    proof {
        assert(cur@ =~= Seq::<char>::empty());
        assert(search_dirs_spec(cur@) == seq![cur@]);
        assert(strs(out@) =~= before.push(Seq::<char>::empty()));
        assert(strs(out@) =~= before + search_dirs_spec(cur@));
    }
    out
}

impl PasswordStore {
    /// The extra options for every `gpg` call: the configured option string,
    /// split at whitespace.
    pub open spec fn opts_spec(&self) -> Seq<Seq<char>> {
        match self.gpg_opts_spec() {
            Some(o) => words_spec(o),
            None => Seq::empty(),
        }
    }

    /// The extra options for every `gpg` call.
    pub fn gpg_opts_args(&self) -> (r: Vec<String>)
        ensures
            strs(r@) == self.opts_spec(),
    {
        match self.gpg_opts() {
            Some(o) => split_words(o.as_str()),
            None => {
                let r: Vec<String> = Vec::new();
                proof {
                    assert(strs(r@) =~= Seq::<Seq<char>>::empty());
                }
                r
            },
        }
    }

    /// The arguments of `gpg` that decrypt standard input; with `can_prompt`
    /// false, `gpg` may not ask for a passphrase.
    pub fn decrypt_args(&self, can_prompt: bool) -> (r: Vec<String>)
        ensures
            strs(r@) == self.opts_spec() + (if can_prompt {
                Seq::<Seq<char>>::empty()
            } else {
                seq!["--pinentry-mode=error"@]
            }) + seq!["--decrypt"@, "-"@],
    {
        let mut r = self.gpg_opts_args();
        let ghost base = strs(r@);
        if !can_prompt {
            push_str(&mut r, "--pinentry-mode=error");
        }
        let ghost mid = strs(r@);
        push_str(&mut r, "--decrypt");
        push_str(&mut r, "-");
        proof {
            if can_prompt {
                assert(mid =~= base + Seq::<Seq<char>>::empty());
            }
            assert(strs(r@) =~= mid + seq!["--decrypt"@, "-"@]);
        }
        r
    }

    /// The arguments of `gpg` that encrypt standard input to every recipient.
    pub fn encrypt_args(&self, recipients: &Vec<String>) -> (r: Vec<String>)
        ensures
            strs(r@) == self.opts_spec() + seq!["--encrypt"@] + strs(recipients@).map_values(
                |x: Seq<char>| "--recipient="@ + x,
            ),
    {
        let mut r = self.gpg_opts_args();
        push_str(&mut r, "--encrypt");
        let ghost base = strs(r@);
        let mut i: usize = 0;
        while i < recipients.len()
            invariant
                i <= recipients@.len(),
                strs(r@) == base + strs(recipients@.subrange(0, i as int)).map_values(|x: Seq<char>| "--recipient="@ + x),
            decreases recipients@.len() - i,
        {
            let arg = concat("--recipient=", recipients[i].as_str());
            let ghost before = strs(r@);
            r.push(arg);
            proof {
                assert(strs(r@) =~= before.push("--recipient="@ + recipients@[i as int]@));
                assert(strs(recipients@.subrange(0, i + 1)).map_values(|x: Seq<char>| "--recipient="@ + x)
                    =~= strs(recipients@.subrange(0, i as int)).map_values(|x: Seq<char>| "--recipient="@ + x).push(
                    "--recipient="@ + recipients@[i as int]@,
                ));
            }
            i += 1;
        }
        proof {
            assert(recipients@.subrange(0, recipients@.len() as int) =~= recipients@);
        }
        r
    }

    /// The arguments of `gpg` that list the keys of `ids` with their
    /// capabilities and keygrips.
    pub fn list_key_args(&self, ids: &Vec<String>) -> (r: Vec<String>)
        ensures
            strs(r@) == self.opts_spec() + seq!["--batch"@, "--with-colons"@, "--with-keygrip"@, "--list-key"@]
                + strs(ids@),
    {
        let mut r = self.gpg_opts_args();
        let ghost base = strs(r@);
        push_str(&mut r, "--batch");
        push_str(&mut r, "--with-colons");
        push_str(&mut r, "--with-keygrip");
        push_str(&mut r, "--list-key");
        proof {
            assert(strs(r@) =~= base + seq!["--batch"@, "--with-colons"@, "--with-keygrip"@, "--list-key"@]);
        }
        extend_strs(&mut r, ids);
        r
    }
}

} // verus!
