//! Random ids for collections, secrets and sessions.
use vstd::prelude::*;

use crate::graph::is_path_element;

verus! {

/// The characters of random ids: ASCII letters, digits and `_`.
pub open spec fn id_alphabet() -> Seq<char> {
    seq![
        'a', 'b', 'c', 'd', 'e', 'f', 'g', 'h', 'i', 'j', 'k', 'l', 'm', 'n', 'o', 'p',
        'q', 'r', 's', 't', 'u', 'v', 'w', 'x', 'y', 'z', 'A', 'B', 'C', 'D', 'E', 'F',
        'G', 'H', 'I', 'J', 'K', 'L', 'M', 'N', 'O', 'P', 'Q', 'R', 'S', 'T', 'U', 'V',
        'W', 'X', 'Y', 'Z', '0', '1', '2', '3', '4', '5', '6', '7', '8', '9', '_',
    ]
}

/// Relies on `nanoid::format` with `nanoid::rngs::default`: `size` characters,
/// each drawn from `alphabet`. It loops forever on an empty alphabet, on a
/// zero size, or when a character is not ASCII, and panics on an alphabet
/// longer than 255.
#[verifier::external_body]
pub(crate) fn nanoid_format(alphabet: &[char], size: usize) -> (r: String)
    requires
        0 < alphabet@.len() <= 255,
        0 < size,
        forall|i: int| 0 <= i < alphabet@.len() ==> (#[trigger] alphabet@[i] as u32) < 128,
    ensures
        r@.len() == size,
        forall|i: int| 0 <= i < r@.len() ==> alphabet@.contains(#[trigger] r@[i]),
{
    nanoid::format(nanoid::rngs::default, alphabet, size)
}

/// The characters of random ids.
pub fn nanoid_alphabet() -> (r: Vec<char>)
    ensures
        r@ == id_alphabet(),
{
    let r = vec![
        'a', 'b', 'c', 'd', 'e', 'f', 'g', 'h', 'i', 'j', 'k', 'l', 'm', 'n', 'o', 'p',
        'q', 'r', 's', 't', 'u', 'v', 'w', 'x', 'y', 'z', 'A', 'B', 'C', 'D', 'E', 'F',
        'G', 'H', 'I', 'J', 'K', 'L', 'M', 'N', 'O', 'P', 'Q', 'R', 'S', 'T', 'U', 'V',
        'W', 'X', 'Y', 'Z', '0', '1', '2', '3', '4', '5', '6', '7', '8', '9', '_',
    ];
    proof {
        assert(r@ =~= id_alphabet());
    }
    r
}

/// A random id of `size` characters from the id alphabet; it can stand as an
/// element of an object path.
pub fn new_id(size: usize) -> (r: String)
    requires
        size > 0,
    ensures
        r@.len() == size,
        is_path_element(r@),
{
    let alphabet = nanoid_alphabet();
    proof {
        assert forall|i: int| 0 <= i < alphabet@.len() implies (#[trigger] alphabet@[i] as u32) < 128 by {
            let c = alphabet@[i];
            assert(('a' <= c <= 'z') || ('A' <= c <= 'Z') || ('0' <= c <= '9') || c == '_');
        }
    }
    let r = nanoid_format(alphabet.as_slice(), size);
    proof {
        assert forall|i: int| 0 <= i < r@.len() implies {
            let ch = #[trigger] r@[i];
            ('a' <= ch <= 'z') || ('A' <= ch <= 'Z') || ('0' <= ch <= '9') || ch == '_'
        } by {
            assert(alphabet@.contains(r@[i]));
            let j = choose|j: int| 0 <= j < alphabet@.len() && alphabet@[j] == r@[i];
        }
    }
    r
}

} // verus!
