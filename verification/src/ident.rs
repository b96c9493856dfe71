//! Public identifiers: their grammar and the reserved names.

use rand::distributions::Alphanumeric;
use rand::Rng;
use vstd::prelude::*;

verus! {

/// The number of characters of an identifier that the store picks itself.
pub const AUTO_ID_LEN: usize = 6;

/// The number of characters of a deletion secret.
pub const DELETE_KEY_LEN: usize = 32;

/// An ASCII letter or digit.
pub open spec fn is_alphanumeric(c: char) -> bool {
    ||| 'a' <= c <= 'z'
    ||| 'A' <= c <= 'Z'
    ||| '0' <= c <= '9'
}

/// Two or more characters, each an ASCII letter or digit.
pub open spec fn matches_id_pattern(id: Seq<char>) -> bool {
    &&& id.len() >= 2
    &&& forall|i: int| 0 <= i < id.len() ==> is_alphanumeric(#[trigger] id[i])
}

/// The two names that the routes of the static assets use.
pub open spec fn is_reserved_name(id: Seq<char>) -> bool {
    id == "github"@ || id == "favicon"@
}

/// An identifier that an object may have: it follows the grammar and is not
/// reserved.
pub open spec fn is_valid_id(id: Seq<char>) -> bool {
    matches_id_pattern(id) && !is_reserved_name(id)
}

/// A string of `len` characters, each an ASCII letter or digit.
pub open spec fn is_alphanumeric_string(s: Seq<char>, len: nat) -> bool {
    &&& s.len() == len
    &&& forall|i: int| 0 <= i < s.len() ==> is_alphanumeric(#[trigger] s[i])
}

/// Whether `c` is an ASCII letter or digit.
pub fn is_alphanumeric_char(c: char) -> (b: bool)
    ensures
        b == is_alphanumeric(c),
{
    ('a' <= c && c <= 'z') || ('A' <= c && c <= 'Z') || ('0' <= c && c <= '9')
}

/// Whether `id` has two or more characters, each an ASCII letter or digit.
pub fn has_id_pattern(id: &str) -> (b: bool)
    ensures
        b == matches_id_pattern(id@),
{
    let mut count: usize = 0;
    let mut clean = true;
    for c in it: id.chars()
        invariant
            it.seq() == id@,
            count == if it.index() < 2 { it.index() } else { 2 },
            clean == forall|i: int| 0 <= i < it.index() ==> is_alphanumeric(#[trigger] id@[i]),
    {
        if count < 2 {
            count = count + 1;
        }
        if !is_alphanumeric_char(c) {
            clean = false;
        }
    }
    clean && count >= 2
}

/// Whether `id` is one of the two reserved names.
pub fn is_reserved(id: &str) -> (b: bool)
    ensures
        b == is_reserved_name(id@),
{
    same_text(id, "github") || same_text(id, "favicon")
}

/// Whether an object may have the identifier `id`.
pub fn is_valid(id: &str) -> (b: bool)
    ensures
        b == is_valid_id(id@),
{
    has_id_pattern(id) && !is_reserved(id)
}

/// The characters of `s`, in order.
pub fn chars_of(s: &str) -> (chars: Vec<char>)
    ensures
        chars@ == s@,
{
    let mut chars: Vec<char> = Vec::new();
    for c in it: s.chars()
        invariant
            it.seq() == s@,
            chars@ == s@.take(it.index()),
    {
        chars.push(c);
        proof {
            assert(s@.take(it.index() + 1) =~= s@.take(it.index()).push(c));
        }
    }
    proof {
        assert(s@.take(s@.len() as int) =~= s@);
    }
    chars
}

/// Whether `a` and `b` hold the same characters.
pub fn same_text(a: &str, b: &str) -> (same: bool)
    ensures
        same == (a@ == b@),
{
    let left = chars_of(a);
    let right = chars_of(b);
    if left.len() != right.len() {
        return false;
    }
    let n = left.len();
    let mut i: usize = 0;
    while i < n
        invariant
            n == left@.len(),
            n == right@.len(),
            i <= n,
            left@ == a@,
            right@ == b@,
            forall|j: int| 0 <= j < i ==> left@[j] == right@[j],
        decreases n - i,
    {
        if left[i] != right[i] {
            return false;
        }
        i = i + 1;
    }
    proof {
        assert(a@ =~= b@);
    }
    true
}

/// Draws `len` characters from the thread's random generator with
/// `rand::Rng::sample_iter` over `rand::distributions::Alphanumeric`, which
/// yields ASCII letters and digits only. Nothing else is claimed of the
/// characters: two calls may differ.
#[verifier::external_body]
pub(crate) fn random_alphanumeric(len: usize) -> (s: String)
    ensures
        is_alphanumeric_string(s@, len as nat),
{
    rand::thread_rng().sample_iter(&Alphanumeric).take(len).map(char::from).collect()
}

} // verus!
