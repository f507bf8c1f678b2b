use vstd::prelude::*;

use crate::whitelist::KEY_LEN;

verus! {

#[verifier::external_type_specification]
#[verifier::external_body]
pub struct ExKeyPair(rcgen::KeyPair);

/// The raw public key that `rcgen::KeyPair::public_key_raw` returns for
/// `key_pair`.
pub uninterp spec fn raw_public_key_of(key_pair: rcgen::KeyPair) -> Seq<u8>;

/// Relies on `rcgen::KeyPair::public_key_raw`: the public half of the key
/// pair in raw form, read from the key pair alone.
#[verifier::external_body]
fn public_key_raw(key_pair: &rcgen::KeyPair) -> (r: Vec<u8>)
    ensures
        r@ == raw_public_key_of(*key_pair),
{
    key_pair.public_key_raw().to_vec()
}

/// The raw public key as a fixed-length key, or `None` where it is not
/// exactly `KEY_LEN` bytes long.
pub fn raw_key65(pk: &[u8]) -> (r: Option<[u8; 65]>)
    ensures
        r is Some <==> pk@.len() == KEY_LEN,
        r matches Some(key) ==> key@ == pk@,
{
    if pk.len() != KEY_LEN {
        return None;
    }
    let mut ret = [0u8; 65];
    let mut i: usize = 0;
    while i < KEY_LEN
        invariant
            i <= KEY_LEN,
            pk@.len() == KEY_LEN,
            ret@.len() == KEY_LEN,
            forall|j: int| 0 <= j < i ==> ret@[j] == pk@[j],
        decreases KEY_LEN - i,
    {
        ret[i] = pk[i];
        i = i + 1;
    }
    assert(ret@ =~= pk@);
    Some(ret)
}

/// The raw public key of `key_pair`, or `None` where it is not `KEY_LEN`
/// bytes long (as with keys of other algorithms).
pub fn get_pk65(key_pair: &rcgen::KeyPair) -> (r: Option<[u8; 65]>)
    ensures
        r is Some <==> raw_public_key_of(*key_pair).len() == KEY_LEN,
        r matches Some(key) ==> key@ == raw_public_key_of(*key_pair),
{
    let pk = public_key_raw(key_pair);
    raw_key65(pk.as_slice())
}

} // verus!
