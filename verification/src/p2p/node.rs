//! The identity of a node.

use vstd::prelude::*;

verus! {

/// The bytes of a secret key.
pub const SECRET_KEY_LEN: usize = 32;

/// What is said of a key file of another length.
pub const KEYPAIR_LEN_ERROR: &'static str = "keypair file must be exactly 32 bytes";

/// The secret key that a key file holds: its bytes, of which there must be exactly
/// 32.
pub fn secret_key_bytes(file: &Vec<u8>) -> (key: Result<[u8; 32], String>)
    ensures
        match key {
            Ok(k) => file.len() == SECRET_KEY_LEN && k@ == file@,
            Err(m) => file.len() != SECRET_KEY_LEN && m@ == KEYPAIR_LEN_ERROR@,
        },
{
    if file.len() != SECRET_KEY_LEN {
        return Err(KEYPAIR_LEN_ERROR.to_owned());
    }
    let mut key: [u8; 32] = [0u8; 32];
    let mut i: usize = 0;
    while i < 32
        invariant
            file.len() == 32,
            i <= 32,
            forall|j: int| 0 <= j < i ==> key@[j] == file@[j],
        decreases 32 - i,
    {
        key[i] = file[i];
        i += 1;
    }
    assert(key@ =~= file@);
    Ok(key)
}

} // verus!
