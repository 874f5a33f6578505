//! The secret key of the node.

use vstd::prelude::*;

verus! {

/// How many bytes a secret key takes.
pub const KEY_LENGTH: usize = 32;

/// `SecretKey::generate` of the crate `iroh`, with the key as bytes. The key is random:
/// nothing is said of it.
#[verifier::external_body]
fn generate_secret_key() -> [u8; 32] {
    iroh::SecretKey::generate().to_bytes()
}

/// A secret key, and whether it is new and still has to be stored.
#[derive(Clone, Copy, PartialEq, Eq)]
pub struct LoadedKey {
    pub bytes: [u8; 32],
    pub fresh: bool,
}

/// The key in what was stored. Anything but 32 bytes is no key.
pub fn stored_secret_key(stored: &[u8]) -> (r: Option<[u8; 32]>)
    ensures
        r is Some <==> stored@.len() == KEY_LENGTH,
        r matches Some(key) ==> key@ == stored@,
{
    if stored.len() != KEY_LENGTH {
        return None;
    }
    let mut key: [u8; 32] = [0u8; 32];
    let mut i: usize = 0;
    while i < KEY_LENGTH
        invariant
            i <= KEY_LENGTH == stored@.len(),
            forall|j: int| 0 <= j < i ==> key@[j] == stored@[j],
        decreases KEY_LENGTH - i,
    {
        key[i] = stored[i];
        i += 1;
    }
    assert(key@ =~= stored@);
    Some(key)
}

/// What is stored holds a key.
pub open spec fn holds_key(stored: Option<Vec<u8>>) -> bool {
    stored matches Some(bytes) && bytes@.len() == KEY_LENGTH
}

/// The key to use: the stored one, or the one that was drawn where none is stored or what
/// is stored is no key.
pub fn key_to_use(stored: Option<Vec<u8>>, drawn: [u8; 32]) -> (r: LoadedKey)
    ensures
        holds_key(stored) ==> r.bytes@ == stored->0@ && !r.fresh,
        !holds_key(stored) ==> r.bytes == drawn && r.fresh,
{
    match stored {
        Some(bytes) => match stored_secret_key(bytes.as_slice()) {
            Some(key) => LoadedKey { bytes: key, fresh: false },
            None => LoadedKey { bytes: drawn, fresh: true },
        },
        None => LoadedKey { bytes: drawn, fresh: true },
    }
}

/// The secret key of the node: the stored one, or a new random one where none is stored or
/// what is stored is no key.
pub fn load_or_create_secret_key(stored: Option<Vec<u8>>) -> (r: LoadedKey)
    ensures
        r.fresh <==> !holds_key(stored),
        holds_key(stored) ==> r.bytes@ == stored->0@,
        r.bytes@.len() == KEY_LENGTH,
{
    if let Some(bytes) = &stored {
        if let Some(key) = stored_secret_key(bytes.as_slice()) {
            return LoadedKey { bytes: key, fresh: false };
        }
    }
    key_to_use(stored, generate_secret_key())
}

/// Any 32 bytes are a key, and nothing else is.
pub proof fn any_thirty_two_bytes_are_a_key(stored: Vec<u8>)
    ensures
        holds_key(Some(stored)) <==> stored@.len() == 32,
        !holds_key(None),
{
}

} // verus!
