//! Table names. A namespace's table is named after a hash of its module's
//! name, so the name does not depend on the length or the characters of the
//! module path; a counter in the hashed text lets the allocation step past
//! names that are taken.

use crate::text::{decimal_digits, decimal_string, hex_lower, push_hex_lower};
use vstd::prelude::*;

verus! {

/// The BLAKE3 hash of `input` in its default mode, as 32 bytes.
pub uninterp spec fn blake3_digest(input: Seq<u8>) -> Seq<u8>;

/// `blake3::hash`: the 32-byte BLAKE3 hash of `input`. Only that it is a
/// function of the input is claimed here.
#[verifier::external_body]
fn blake3_hash(input: &[u8]) -> (digest: [u8; 32])
    ensures
        digest@ == blake3_digest(input@),
{
    *blake3::hash(input).as_bytes()
}

/// The text that is hashed for the `nonce`-th candidate name of a module.
pub open spec fn name_seed(nonce: u32, module_name: Seq<char>) -> Seq<char> {
    decimal_digits(nonce as nat) + seq!['|'] + module_name
}

/// The table name made from a digest: a fixed tag, then the first eight
/// bytes of the digest in lower-case hexadecimal.
pub open spec fn table_name_of_digest(digest: Seq<u8>) -> Seq<char> {
    "sylphie_db_kvsdata_"@ + hex_lower(digest.take(8))
}

/// The `nonce`-th candidate name for the table of a module.
pub open spec fn table_name_at(nonce: u32, module_name: Seq<char>) -> Seq<char> {
    table_name_of_digest(blake3_digest(vstd::utf8::encode_utf8(name_seed(nonce, module_name))))
}

/// The first candidate name, counting up from `from`, that is not in
/// `used`; `None` if every remaining candidate is taken.
pub open spec fn first_free_name(used: Set<Seq<char>>, module_name: Seq<char>, from: nat) -> Option<
    Seq<char>,
>
    decreases (u32::MAX as nat + 1 - from) as nat,
{
    if from > u32::MAX {
        None
    } else if !used.contains(table_name_at(from as u32, module_name)) {
        Some(table_name_at(from as u32, module_name))
    } else {
        first_free_name(used, module_name, from + 1)
    }
}

/// The table name for a digest.
pub fn table_name_from_digest(digest: &[u8; 32]) -> (name: String)
    ensures
        name@ == table_name_of_digest(digest@),
{
    let mut name = "sylphie_db_kvsdata_".to_owned();
    push_hex_lower(&mut name, digest.as_slice(), 8);
    name
}

/// The text that is hashed for the `nonce`-th candidate name of a module.
pub fn name_seed_string(nonce: u32, module_name: &str) -> (seed: String)
    ensures
        seed@ == name_seed(nonce, module_name@),
{
    let mut seed = decimal_string(nonce);
    seed.push('|');
    seed.append(module_name);
    assert(seed@ =~= name_seed(nonce, module_name@));
    seed
}

/// The `nonce`-th candidate name for the table of a module.
pub fn table_name_candidate(nonce: u32, module_name: &str) -> (name: String)
    ensures
        name@ == table_name_at(nonce, module_name@),
{
    let seed = name_seed_string(nonce, module_name);
    let digest = blake3_hash(seed.as_str().as_bytes());
    table_name_from_digest(&digest)
}

} // verus!
