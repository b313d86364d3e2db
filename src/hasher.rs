//! Record-file names derived from directory paths.
use vstd::prelude::*;
use crate::decimal::{decimal, decimal_chars};
use crate::text::string_of;

verus! {

/// The hash that std's default hasher gives a path.
pub uninterp spec fn path_hash(path: Seq<char>) -> u64;

/// Relies on `BuildHasher::hash_one` over `BuildHasherDefault<DefaultHasher>`:
/// std's SipHash with fixed keys, so the hash depends on the path alone.
#[verifier::external_body]
fn default_hash(path: &str) -> (r: u64)
    ensures
        r == path_hash(path@),
{
    std::hash::BuildHasher::hash_one(
        &std::hash::BuildHasherDefault::<std::hash::DefaultHasher>::default(),
        path,
    )
}

/// The extension of every record file.
pub open spec fn token_extension() -> Seq<char> {
    seq!['.', 't', 's', 'v']
}

/// The record-file name for a path hash: its decimal digits and `.tsv`.
pub open spec fn token_spec(h: u64) -> Seq<char> {
    decimal(h as nat) + token_extension()
}

/// The hash of a directory path.
pub fn calculate_hash(path: &str) -> (r: u64)
    ensures
        r == path_hash(path@),
{
    default_hash(path)
}

/// The record-file name for a path hash.
pub fn token_of_hash(h: u64) -> (r: String)
    ensures
        r@ == token_spec(h),
{
    let mut v = decimal_chars(h);
    v.push('.');
    v.push('t');
    v.push('s');
    v.push('v');
    assert(v@ =~= token_spec(h));
    string_of(&v, 0, v.len())
}

/// The record-file name for a directory path.
pub fn file_token(path: &str) -> (r: String)
    ensures
        r@ == token_spec(path_hash(path@)),
{
    token_of_hash(calculate_hash(path))
}

} // verus!
