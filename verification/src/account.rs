//! Framing of account data: an 8-byte discriminator, then the body.

use vstd::prelude::*;
use vstd::slice::slice_subrange;

verus! {

/// The number of bytes that precede the body of an account.
pub const DISCRIMINATOR_LEN: usize = 8;

/// The body of a fixed-size account: the `size` bytes that follow the
/// discriminator. Nothing where the data is too short to hold them.
pub fn zero_account_body(data: &[u8], size: usize) -> (body: Option<&[u8]>)
    ensures
        body.is_some() <==> DISCRIMINATOR_LEN + size <= data@.len(),
        body matches Some(b) ==> b@ == data@.subrange(
            DISCRIMINATOR_LEN as int,
            DISCRIMINATOR_LEN + size,
        ),
{
    let len = data.len();
    if len < DISCRIMINATOR_LEN || len - DISCRIMINATOR_LEN < size {
        return None;
    }
    Some(slice_subrange(data, DISCRIMINATOR_LEN, DISCRIMINATOR_LEN + size))
}

/// The body of an account of any size: all that follows the discriminator.
/// Nothing where the data is shorter than the discriminator.
pub fn account_body(data: Vec<u8>) -> (body: Option<Vec<u8>>)
    ensures
        body.is_some() <==> DISCRIMINATOR_LEN <= data@.len(),
        body matches Some(b) ==> b@ == data@.subrange(
            DISCRIMINATOR_LEN as int,
            data@.len() as int,
        ),
{
    let mut head = data;
    if head.len() < DISCRIMINATOR_LEN {
        return None;
    }
    Some(head.split_off(DISCRIMINATOR_LEN))
}

} // verus!
