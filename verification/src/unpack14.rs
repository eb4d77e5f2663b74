//! 14-bit DTS container stream to 16-bit-equivalent (raw big-endian)
//! bit stream.
//!
//! Each 16-bit container of a 14-bit-packed stream carries 14 payload
//! bits in its low bits; the top two bits are a sign extension and are
//! discarded. The payloads concatenate MSB-first into the same bit stream
//! a raw 16-bit stream carries.

use crate::bits::{bits_of, bytes_for_bits, pack_bits, padded_bits, push_bits, uint_bits};
use crate::error::Error;
use crate::header::SyncWordEncoding;
use vstd::prelude::*;

verus! {

/// Byte order of the 16-bit containers of a 14-bit-packed stream.
#[derive(Debug, Clone, Copy, PartialEq, Eq, Hash)]
pub enum FourteenBitByteOrder {
    /// Big-endian container words (`1F FF E8 00 07 Fx`).
    BigEndian,
    /// Little-endian container words (`FF 1F 00 E8 Fx 07`).
    LittleEndian,
}

impl FourteenBitByteOrder {
    /// The container byte order of a 14-bit sync encoding; `None` for the
    /// two raw 16-bit encodings.
    pub fn from_sync(sync: SyncWordEncoding) -> (r: Option<Self>)
        ensures
            r == match sync {
                SyncWordEncoding::FourteenBitBigEndian => Some(FourteenBitByteOrder::BigEndian),
                SyncWordEncoding::FourteenBitLittleEndian => Some(
                    FourteenBitByteOrder::LittleEndian,
                ),
                _ => None::<FourteenBitByteOrder>,
            },
    {
        match sync {
            SyncWordEncoding::FourteenBitBigEndian => Some(FourteenBitByteOrder::BigEndian),
            SyncWordEncoding::FourteenBitLittleEndian => Some(FourteenBitByteOrder::LittleEndian),
            _ => None,
        }
    }
}

/// The 16-bit word formed by bytes `a` then `b` in the given order.
pub open spec fn container_word(a: u8, b: u8, order: FourteenBitByteOrder) -> u16 {
    match order {
        FourteenBitByteOrder::BigEndian => ((a as u16) << 8u16) | (b as u16),
        FourteenBitByteOrder::LittleEndian => ((b as u16) << 8u16) | (a as u16),
    }
}

/// The 14-bit payload of container `c` of `input`.
pub open spec fn container_payload(input: Seq<u8>, c: int, order: FourteenBitByteOrder) -> u32 {
    (container_word(input[2 * c], input[2 * c + 1], order) & 0x3FFFu16) as u32
}

/// The payload bit stream of the first `k` containers of `input`.
pub open spec fn payload_stream(input: Seq<u8>, order: FourteenBitByteOrder, k: nat) -> Seq<bool>
    decreases k,
{
    if k == 0 {
        Seq::empty()
    } else {
        payload_stream(input, order, (k - 1) as nat) + uint_bits(
            container_payload(input, k - 1, order),
            14,
        )
    }
}

/// `k` 16-bit words carry `14 * k` payload bits.
pub proof fn lemma_payload_stream_len(input: Seq<u8>, order: FourteenBitByteOrder, k: nat)
    ensures
        payload_stream(input, order, k).len() == 14 * k,
    decreases k,
{
    if k > 0 {
        lemma_payload_stream_len(input, order, (k - 1) as nat);
    }
}

/// The bytes `unpack_14bit_to_16bit` produces for `input`: the payloads of
/// all containers, concatenated and zero-padded to a whole byte.
pub open spec fn spec_unpacked_bits(input: Seq<u8>, order: FourteenBitByteOrder) -> Seq<bool> {
    padded_bits(payload_stream(input, order, input.len() / 2))
}

/// Unpack a 14-bit-packed DTS buffer into the equivalent raw big-endian
/// byte stream. Odd-length input is rejected with `UnexpectedEof`.
pub fn unpack_14bit_to_16bit(input: &[u8], order: FourteenBitByteOrder) -> (res: Result<
    Vec<u8>,
    Error,
>)
    requires
        input@.len() <= usize::MAX / 8,
    ensures
        res is Err <==> input@.len() % 2 == 1,
        res is Err ==> res == Err::<Vec<u8>, Error>(Error::UnexpectedEof),
        res matches Ok(out) ==> out@.len() == bytes_for_bits(7 * input@.len()) && bits_of(out@)
            == spec_unpacked_bits(input@, order),
{
    if input.len() % 2 != 0 {
        return Err(Error::UnexpectedEof);
    }
    let containers = input.len() / 2;
    let mut bv: Vec<bool> = Vec::new();
    let mut c: usize = 0;
    while c < containers
        invariant
            containers == input@.len() / 2,
            input@.len() % 2 == 0,
            input@.len() <= usize::MAX / 8,
            c <= containers,
            bv@ == payload_stream(input@, order, c as nat),
        decreases containers - c,
    {
        let a = input[2 * c];
        let b = input[2 * c + 1];
        let word: u16 = match order {
            FourteenBitByteOrder::BigEndian => ((a as u16) << 8u16) | (b as u16),
            FourteenBitByteOrder::LittleEndian => ((b as u16) << 8u16) | (a as u16),
        };
        let payload = (word & 0x3FFFu16) as u32;
        push_bits(&mut bv, payload, 14);
        c = c + 1;
    }
    proof {
        lemma_payload_stream_len(input@, order, containers as nat);
    }
    let out = pack_bits(&bv);
    Ok(out)
}

} // verus!
