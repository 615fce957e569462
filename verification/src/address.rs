//! Deterministic derivation of a record's storage address from its natural
//! key and its owner's identity, under a domain-separation tag.
//!
//! Derived addresses live outside the space reachable by any externally
//! held private key; the nonce returned beside the address exists solely to
//! satisfy that validity rule of the external address space and carries no
//! meaning inside this library.

use vstd::prelude::*;

use crate::error::StoreError;
use anchor_lang::prelude::Pubkey;

verus! {

/// The address and disambiguation nonce that the external address space
/// assigns to a `(natural_key, owner, tag)` triple, or `None` where no
/// valid nonce exists. The pair is a function of the three byte strings
/// alone; nothing else enters the derivation.
pub uninterp spec fn derived_address(
    natural_key: Seq<u8>,
    owner: Seq<u8>,
    tag: Seq<u8>,
) -> Option<(Seq<u8>, u8)>;

/// The mathematical value of an optional `(address, nonce)` pair.
pub open spec fn view_derived(r: Option<(Vec<u8>, u8)>) -> Option<(Seq<u8>, u8)> {
    match r {
        Some(p) => Some((p.0@, p.1)),
        None => None,
    }
}

/// Relies on `anchor_lang::prelude::Pubkey::try_find_program_address`: the
/// derived address and its bump nonce are a function of the seed bytes and
/// the program id alone, and an address is 32 bytes. The search reports
/// `None` where it finds no usable nonce — it tries the values 255 down to
/// 1 — or where the address space refuses the seeds outright (too many, or
/// one over the seed length limit).
#[verifier::external_body]
fn find_derived_address(natural_key: &Vec<u8>, owner: &Vec<u8>, tag: &Vec<u8>) -> (r: Option<
    (Vec<u8>, u8),
>)
    requires
        tag@.len() == 32,
    ensures
        view_derived(r) == derived_address(natural_key@, owner@, tag@),
        r matches Some(p) ==> p.0@.len() == 32,
{
    let program_id = Pubkey::try_from(tag.as_slice()).unwrap();
    Pubkey::try_find_program_address(&[natural_key.as_slice(), owner.as_slice()], &program_id).map(
        |found: (Pubkey, u8)| (found.0.to_bytes().to_vec(), found.1),
    )
}

/// Derive the storage address and nonce of the record keyed by
/// `(natural_key, owner)` under the domain-separation tag `tag`.
///
/// The derivation is a pure function of its inputs: the same triple always
/// yields the same address. It fails where the search finds no valid nonce
/// for the triple or the address space refuses the key as a seed.
pub fn derive_address(natural_key: &Vec<u8>, owner: &Vec<u8>, tag: &Vec<u8>) -> (r: Result<
    (Vec<u8>, u8),
    StoreError,
>)
    requires
        tag@.len() == 32,
    ensures
        r matches Ok(p) ==> derived_address(natural_key@, owner@, tag@) == Some((p.0@, p.1))
            && p.0@.len() == 32,
        r matches Err(e) ==> e == StoreError::AddressSpaceExhausted && derived_address(
            natural_key@,
            owner@,
            tag@,
        ) is None,
{
    match find_derived_address(natural_key, owner, tag) {
        Some(p) => Ok(p),
        None => Err(StoreError::AddressSpaceExhausted),
    }
}

/// Law: address derivation is deterministic. Any two outcomes the deriver
/// reports for the same `(natural_key, owner, tag)` triple are the same:
/// both fail, or both yield the one address and nonce of that triple.
pub proof fn lemma_derive_deterministic(
    natural_key: Seq<u8>,
    owner: Seq<u8>,
    tag: Seq<u8>,
    r1: Option<(Seq<u8>, u8)>,
    r2: Option<(Seq<u8>, u8)>,
)
    requires
        r1 == derived_address(natural_key, owner, tag),
        r2 == derived_address(natural_key, owner, tag),
    ensures
        r1 == r2,
{
}

} // verus!
