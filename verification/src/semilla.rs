//! The seed of the random generator, read from a text.

use vstd::prelude::*;
use byteorder::{BigEndian, ByteOrder};

verus! {

/// Byte `k` of a text that is continued with zeros.
pub open spec fn byte_relleno(bytes: Seq<u8>, k: int) -> u8 {
    if 0 <= k < bytes.len() {
        bytes[k]
    } else {
        0
    }
}

/// The 64-bit number that the eight bytes from `8 * i` on spell, the
/// most significant first.
pub open spec fn palabra(bytes: Seq<u8>, i: int) -> int {
    byte_relleno(bytes, 8 * i) * 0x100_0000_0000_0000 + byte_relleno(bytes, 8 * i + 1)
        * 0x1_0000_0000_0000 + byte_relleno(bytes, 8 * i + 2) * 0x100_0000_0000 + byte_relleno(
        bytes,
        8 * i + 3,
    ) * 0x1_0000_0000 + byte_relleno(bytes, 8 * i + 4) * 0x100_0000 + byte_relleno(
        bytes,
        8 * i + 5,
    ) * 0x1_0000 + byte_relleno(bytes, 8 * i + 6) * 0x100 + byte_relleno(bytes, 8 * i + 7)
}

/// `ByteOrder::read_u64_into` of `byteorder` for `BigEndian`: every
/// number of `destino` becomes the one that the next eight bytes spell,
/// the most significant first.  `byteorder` panics unless `bytes` holds
/// eight bytes for each number.
#[verifier::external_body]
fn leer_u64(bytes: &[u8], destino: &mut Vec<u64>)
    requires
        bytes@.len() == 8 * old(destino)@.len(),
    ensures
        final(destino)@.len() == old(destino)@.len(),
        forall|i: int|
            0 <= i < final(destino)@.len() ==> #[trigger] final(destino)@[i] == palabra(bytes@, i),
{
    BigEndian::read_u64_into(bytes, destino.as_mut_slice())
}

/// Number of 64-bit numbers that a text of `n` bytes gives.
pub open spec fn num_palabras(n: nat) -> nat {
    (n + 7) / 8
}

/// Turns the bytes of a text into the seed of the generator: the text
/// is continued with zeros to a multiple of eight bytes, and every eight
/// bytes are read as one number, the most significant byte first.
pub fn semilla_desde_bytes(texto: &[u8]) -> (semilla: Vec<u64>)
    ensures
        semilla@.len() == num_palabras(texto@.len()),
        forall|i: int| 0 <= i < semilla@.len() ==> #[trigger] semilla@[i] == palabra(texto@, i),
{
    let mut semilla_bytes: Vec<u8> = vstd::slice::slice_to_vec(texto);
    let n: usize = texto.len();
    let resto: usize = n % 8;
    let relleno: usize = if resto == 0 {
        0
    } else {
        8 - resto
    };
    let mut k: usize = 0;
    while k < relleno
        invariant
            k <= relleno,
            relleno < 8,
            n == texto@.len(),
            semilla_bytes@.len() == n + k,
            forall|j: int| 0 <= j < n + k ==> #[trigger] semilla_bytes@[j] == byte_relleno(texto@, j),
        decreases relleno - k,
    {
        semilla_bytes.push(0);
        k += 1;
    }
    let num: usize = semilla_bytes.len() / 8;
    let mut semilla_vec64: Vec<u64> = Vec::new();
    let mut i: usize = 0;
    while i < num
        invariant
            i <= num,
            semilla_vec64@.len() == i,
        decreases num - i,
    {
        semilla_vec64.push(0);
        i += 1;
    }
    leer_u64(semilla_bytes.as_slice(), &mut semilla_vec64);
    proof {
        assert forall|i: int| 0 <= i < semilla_vec64@.len() implies #[trigger] semilla_vec64@[i]
            == palabra(texto@, i) by {
            let a = semilla_bytes@;
            let b = texto@;
            assert(byte_relleno(a, 8 * i) == byte_relleno(b, 8 * i));
            assert(byte_relleno(a, 8 * i + 1) == byte_relleno(b, 8 * i + 1));
            assert(byte_relleno(a, 8 * i + 2) == byte_relleno(b, 8 * i + 2));
            assert(byte_relleno(a, 8 * i + 3) == byte_relleno(b, 8 * i + 3));
            assert(byte_relleno(a, 8 * i + 4) == byte_relleno(b, 8 * i + 4));
            assert(byte_relleno(a, 8 * i + 5) == byte_relleno(b, 8 * i + 5));
            assert(byte_relleno(a, 8 * i + 6) == byte_relleno(b, 8 * i + 6));
            assert(byte_relleno(a, 8 * i + 7) == byte_relleno(b, 8 * i + 7));
        }
    }
    semilla_vec64
}

} // verus!
