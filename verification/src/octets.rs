//! Arithmetic on the octets of IPv4 and IPv6 addresses.
use vstd::prelude::*;

verus! {

/// The sum of two octets, reduced modulo 256.
pub open spec fn wrapped_sum(a: u8, b: u8) -> int {
    (a + b) % 256
}

/// The difference of two octets, reduced modulo 256.
pub open spec fn wrapped_difference(a: u8, b: u8) -> int {
    (a - b) % 256
}

/// The destination of a packet: each octet of the source address plus the
/// octet of the key at the same place, modulo 256.
pub fn dest_octets(from: [u8; 4], key: [u8; 4]) -> (dest: [u8; 4])
    ensures
        forall|i: int| 0 <= i < 4 ==> dest[i] == wrapped_sum(from[i], key[i]),
{
    let mut dest: [u8; 4] = [0u8; 4];
    let mut i: usize = 0;
    while i < 4
        invariant
            i <= 4,
            forall|j: int| 0 <= j < i ==> dest[j] == wrapped_sum(from[j], key[j]),
        decreases 4 - i,
    {
        dest[i] = from[i].wrapping_add(key[i]);
        i += 1;
    }
    dest
}

/// The key that leads from one address to another: each octet of the
/// destination less the octet of the source at the same place, modulo 256.
pub fn key_octets(from: [u8; 4], to: [u8; 4]) -> (key: [u8; 4])
    ensures
        forall|i: int| 0 <= i < 4 ==> key[i] == wrapped_difference(to[i], from[i]),
{
    let mut key: [u8; 4] = [0u8; 4];
    let mut i: usize = 0;
    while i < 4
        invariant
            i <= 4,
            forall|j: int| 0 <= j < i ==> key[j] == wrapped_difference(to[j], from[j]),
        decreases 4 - i,
    {
        key[i] = to[i].wrapping_sub(from[i]);
        i += 1;
    }
    key
}

/// Combines two IPv6 addresses octet by octet with exclusive or. It gives
/// the destination from a source and a key, and the key from a source and a
/// destination.
pub fn xor_octets(a: [u8; 16], b: [u8; 16]) -> (out: [u8; 16])
    ensures
        forall|i: int| 0 <= i < 16 ==> out[i] == a[i] ^ b[i],
{
    let mut out: [u8; 16] = [0u8; 16];
    let mut i: usize = 0;
    while i < 16
        invariant
            i <= 16,
            forall|j: int| 0 <= j < i ==> out[j] == a[j] ^ b[j],
        decreases 16 - i,
    {
        out[i] = a[i] ^ b[i];
        i += 1;
    }
    out
}

} // verus!
