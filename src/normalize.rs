//! Search keys: a display name lower-cased and cut to a fixed number of
//! characters, so that lookups ignore case.

use vstd::prelude::*;
use vstd::string::*;

verus! {

/// Longest series key, in characters.
pub const SERIES_KEY_LEN: usize = 32;

/// Longest item key, in characters.
pub const ITEM_KEY_LEN: usize = 16;

/// What `str::to_lowercase` makes of a string.
pub uninterp spec fn lower_of(s: Seq<char>) -> Seq<char>;

/// Relies on `str::to_lowercase`: the lower-case mapping of each character,
/// a function of the characters alone.
#[verifier::external_body]
fn lowercase(s: &str) -> (r: String)
    ensures
        r@ == lower_of(s@),
{
    s.to_lowercase()
}

/// The first `n` characters of `s`, or all of it when it is shorter.
pub open spec fn truncate(s: Seq<char>, n: nat) -> Seq<char> {
    if s.len() <= n {
        s
    } else {
        s.take(n as int)
    }
}

/// The search key of `name` for keys of at most `n` characters.
pub open spec fn key_of(name: Seq<char>, n: nat) -> Seq<char> {
    truncate(lower_of(name), n)
}

pub open spec fn series_key(name: Seq<char>) -> Seq<char> {
    key_of(name, SERIES_KEY_LEN as nat)
}

pub open spec fn item_key(name: Seq<char>) -> Seq<char> {
    key_of(name, ITEM_KEY_LEN as nat)
}

/// Lower-cases `name` and keeps at most `max_len` characters of it.
pub fn normalize(name: &str, max_len: usize) -> (r: String)
    ensures
        r@ == key_of(name@, max_len as nat),
        r@.len() <= max_len,
{
    let lower = lowercase(name);
    let n = lower.as_str().unicode_len();
    if n <= max_len {
        lower
    } else {
        let cut = lower.as_str().substring_char(0, max_len);
        proof {
            assert(cut@ =~= lower@.take(max_len as int));
        }
        String::from_str(cut)
    }
}

/// The key under which a series is stored and looked up.
pub fn series_to_search_term(name: &str) -> (r: String)
    ensures
        r@ == series_key(name@),
{
    normalize(name, SERIES_KEY_LEN)
}

/// The key under which an item is stored and looked up.
pub fn card_to_search_term(name: &str) -> (r: String)
    ensures
        r@ == item_key(name@),
{
    normalize(name, ITEM_KEY_LEN)
}

/// The item key of `name`; the same key as `card_to_search_term`.
pub fn to_search_term(name: &str) -> (r: String)
    ensures
        r@ == item_key(name@),
{
    normalize(name, ITEM_KEY_LEN)
}

/// A key is never longer than its bound, and cutting it again changes
/// nothing.
pub proof fn lemma_key_bounded(s: Seq<char>, n: nat)
    ensures
        key_of(s, n).len() <= n,
        truncate(key_of(s, n), n) == key_of(s, n),
{
}

/// Normalizing a key a second time gives the same key, for every key that
/// lower-casing leaves as it is.
pub proof fn lemma_normalize_idempotent(s: Seq<char>, n: nat)
    requires
        lower_of(key_of(s, n)) == key_of(s, n),
    ensures
        key_of(key_of(s, n), n) == key_of(s, n),
        key_of(s, n).len() <= n,
{
    lemma_key_bounded(s, n);
}

} // verus!
