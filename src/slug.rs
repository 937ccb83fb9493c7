//! Slugs: the identifiers of collections and aliases.
use vstd::prelude::*;

use crate::text::{chars_of, string_from_chars};

verus! {

/// An ASCII letter or digit.
pub open spec fn is_ascii_alnum(c: char) -> bool {
    ('a' <= c && c <= 'z') || ('A' <= c && c <= 'Z') || ('0' <= c && c <= '9')
}

/// The ASCII lowercase form of a character (other characters are kept).
pub open spec fn ascii_lower(c: char) -> char {
    if 'A' <= c && c <= 'Z' {
        ((c as u32) + 32) as char
    } else {
        c
    }
}

/// The output of the scan after one more input character: letters and digits
/// are copied in lower case; any other character adds one separator, unless
/// the output is empty or already ends with a separator.
pub open spec fn slug_step(out: Seq<char>, c: char) -> Seq<char> {
    if is_ascii_alnum(c) {
        out.push(ascii_lower(c))
    } else if out.len() == 0 || out.last() == '_' {
        out
    } else {
        out.push('_')
    }
}

/// The scan of a whole input.
pub open spec fn slug_scan(s: Seq<char>) -> Seq<char>
    decreases s.len(),
{
    if s.len() == 0 {
        Seq::empty()
    } else {
        slug_step(slug_scan(s.drop_last()), s.last())
    }
}

/// The slug of `s`: its scan without a trailing separator.
pub open spec fn slug_of(s: Seq<char>) -> Seq<char> {
    let out = slug_scan(s);
    if out.len() > 0 && out.last() == '_' {
        out.drop_last()
    } else {
        out
    }
}

/// A well-formed slug: `[a-z0-9]+(_[a-z0-9]+)*`, or empty.
pub open spec fn is_slug(s: Seq<char>) -> bool {
    &&& forall|i: int| 0 <= i < s.len() ==> ('a' <= #[trigger] s[i] <= 'z') || ('0' <= s[i] <= '9') || s[i] == '_'
    &&& s.len() > 0 ==> s[0] != '_' && s.last() != '_'
    &&& forall|i: int| 0 <= i < s.len() - 1 ==> #[trigger] s[i] == '_' ==> s[i + 1] != '_'
}

fn is_alnum(c: char) -> (r: bool)
    ensures
        r == is_ascii_alnum(c),
{
    ('a' <= c && c <= 'z') || ('A' <= c && c <= 'Z') || ('0' <= c && c <= '9')
}

fn lower_char(c: char) -> (r: char)
    requires
        is_ascii_alnum(c),
    ensures
        r == ascii_lower(c),
{
    if 'A' <= c && c <= 'Z' {
        ((c as u8) + 32) as char
    } else {
        c
    }
}

proof fn lemma_scan_shape(s: Seq<char>)
    ensures
        ({
            let out = slug_scan(s);
            &&& forall|i: int| 0 <= i < out.len() ==> ('a' <= #[trigger] out[i] <= 'z') || ('0' <= out[i] <= '9') || out[i] == '_'
            &&& out.len() > 0 ==> out[0] != '_'
            &&& forall|i: int| 0 <= i < out.len() - 1 ==> #[trigger] out[i] == '_' ==> out[i + 1] != '_'
        }),
    decreases s.len(),
{
    if s.len() > 0 {
        lemma_scan_shape(s.drop_last());
        let prev = slug_scan(s.drop_last());
        let out = slug_scan(s);
        let c = s.last();
        if is_ascii_alnum(c) {
            assert(out == prev.push(ascii_lower(c)));
            assert forall|i: int| 0 <= i < out.len() implies ('a' <= #[trigger] out[i] <= 'z') || ('0' <= out[i] <= '9') || out[i] == '_' by {
                if i < prev.len() {
                    assert(out[i] == prev[i]);
                }
            }
        } else if !(prev.len() == 0 || prev.last() == '_') {
            assert(out == prev.push('_'));
            assert forall|i: int| 0 <= i < out.len() implies ('a' <= #[trigger] out[i] <= 'z') || ('0' <= out[i] <= '9') || out[i] == '_' by {
                if i < prev.len() {
                    assert(out[i] == prev[i]);
                }
            }
        }
    }
}

/// Every slug is well formed.
pub proof fn lemma_slug_well_formed(s: Seq<char>)
    ensures
        is_slug(slug_of(s)),
{
    lemma_scan_shape(s);
    let out = slug_scan(s);
    let r = slug_of(s);
    if out.len() > 0 && out.last() == '_' {
        assert(r == out.drop_last());
        assert forall|i: int| 0 <= i < r.len() implies ('a' <= #[trigger] r[i] <= 'z') || ('0' <= r[i] <= '9') || r[i] == '_' by {
            assert(r[i] == out[i]);
        }
        if r.len() > 0 {
            assert(out[out.len() - 2] == '_' ==> out[out.len() - 1] != '_');
            assert(r.last() == out[out.len() - 2]);
            assert(r[0] == out[0]);
        }
        assert forall|i: int| 0 <= i < r.len() - 1 && #[trigger] r[i] == '_' implies r[i + 1] != '_' by {
            assert(r[i] == out[i]);
            assert(r[i + 1] == out[i + 1]);
        }
    }
}

/// Converts a string to a slug: lowercase ASCII letters and digits, with
/// single `_` separators standing for each run of other characters, and
/// none at either end.
pub fn slugify(string: &str) -> (r: String)
    ensures
        r@ == slug_of(string@),
        is_slug(r@),
{
    proof {
        lemma_slug_well_formed(string@);
    }
    let chars = chars_of(string);
    let mut out: Vec<char> = Vec::new();
    let mut i: usize = 0;
    while i < chars.len()
        invariant
            i <= chars@.len(),
            chars@ == string@,
            out@ == slug_scan(chars@.subrange(0, i as int)),
        decreases chars.len() - i,
    {
        let c = chars[i];
        proof {
            assert(chars@.subrange(0, i + 1).drop_last() =~= chars@.subrange(0, i as int));
            assert(chars@.subrange(0, i + 1).last() == c);
        }
        if is_alnum(c) {
            out.push(lower_char(c));
        } else if out.len() > 0 && out[out.len() - 1] != '_' {
            out.push('_');
        }
        i += 1;
    }
    proof {
        assert(chars@.subrange(0, chars@.len() as int) =~= chars@);
    }
    if out.len() > 0 && out[out.len() - 1] == '_' {
        out.pop();
    }
    string_from_chars(&out)
}

} // verus!
