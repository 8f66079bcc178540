//! Low-level WebAssembly binary emission: variable-length integers.

use vstd::prelude::*;

verus! {

/// The unsigned LEB128 encoding of `n`: seven bits per byte, least
/// significant first; every byte but the last has its high bit set.
pub open spec fn uleb(n: nat) -> Seq<u8>
    decreases n,
{
    if n < 128 {
        seq![n as u8]
    } else {
        seq![(n % 128 + 128) as u8] + uleb(n / 128)
    }
}

/// Relies on leb128::write::unsigned: it appends the unsigned LEB128
/// encoding of `v` to the writer, low seven-bit groups first, and
/// writing into a `Vec<u8>` cannot fail.
#[verifier::external_body]
pub fn leb_write(w: &mut Vec<u8>, v: u64)
    ensures
        final(w)@ == old(w)@ + uleb(v as nat),
{
    let _ = leb128::write::unsigned(w, v);
}

} // verus!
