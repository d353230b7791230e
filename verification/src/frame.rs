//! The framing of the TOH memory chip content.
//!
//! The content begins with a 16 byte header, all fields big endian:
//!
//! | offset | size | field                                                    |
//! |--------|------|----------------------------------------------------------|
//! | 0      | 4    | magic, "JTOH"                                            |
//! | 4      | 4    | CRC-32 checksum of the bytes from offset 8 to the end of the payload |
//! | 8      | 2    | vendor id                                                |
//! | 10     | 2    | product id                                               |
//! | 12     | 2    | reserved, zero                                           |
//! | 14     | 2    | payload size                                             |
//!
//! The payload, a CBOR map, follows the header.

use crate::errors::{ChecksumError, MissingDataError, WrongMagicError};
use vstd::prelude::*;

verus! {

/// One bit of CRC-32 (IEEE) division on the register `c`, bits taken least significant first
/// with the reflected polynomial 0xEDB88320.
pub open spec fn crc_bit(c: u32) -> u32 {
    if c & 1 == 1 {
        (c >> 1u32) ^ 0xEDB8_8320u32
    } else {
        c >> 1u32
    }
}

/// The CRC-32 register `c` after taking in the byte `b`.
pub open spec fn crc_byte(c: u32, b: u8) -> u32 {
    let c = c ^ (b as u32);
    crc_bit(crc_bit(crc_bit(crc_bit(crc_bit(crc_bit(crc_bit(crc_bit(c))))))))
}

/// The CRC-32 register after taking in `data`, starting from all ones.
pub open spec fn crc_register(data: Seq<u8>) -> u32
    decreases data.len(),
{
    if data.len() == 0 {
        0xFFFF_FFFFu32
    } else {
        crc_byte(crc_register(data.drop_last()), data.last())
    }
}

/// The CRC-32 (IEEE) checksum of `data`: the register after all bytes, inverted.
pub open spec fn crc32(data: Seq<u8>) -> u32 {
    !crc_register(data)
}

/// `crc32fast::hash`: the CRC-32 (IEEE) checksum of `data`, which is what the crate computes.
#[verifier::external_body]
fn crc32_hash(data: &[u8]) -> (res: u32)
    ensures
        res == crc32(data@),
{
    crc32fast::hash(data)
}

/// Length of the header.
pub const HEADER_LEN: usize = 16;

/// Offset where the checksummed bytes begin.
pub const CHECKSUM_START: usize = 8;

/// Largest payload size that the 16 bit size field of the header can hold.
pub const MAX_PAYLOAD_SIZE: usize = 0xffff;

/// Whether `c` begins with the magic "JTOH".
pub open spec fn has_magic(c: Seq<u8>) -> bool {
    c[0] == 0x4a && c[1] == 0x54 && c[2] == 0x4f && c[3] == 0x48
}

/// The big endian 16 bit number at offset `i` of `b`.
pub open spec fn be16(b: Seq<u8>, i: int) -> int {
    b[i] * 256 + b[i + 1]
}

/// The big endian 32 bit number at offset `i` of `b`.
pub open spec fn be32(b: Seq<u8>, i: int) -> int {
    ((b[i] * 256 + b[i + 1]) * 256 + b[i + 2]) * 256 + b[i + 3]
}

/// The big endian bytes of the 16 bit number `v`.
pub open spec fn bytes16(v: int) -> Seq<u8> {
    seq![(v / 256) as u8, (v % 256) as u8]
}

/// The big endian bytes of the 32 bit number `v`.
pub open spec fn bytes32(v: int) -> Seq<u8> {
    seq![(v / 0x100_0000) as u8, (v / 0x1_0000 % 256) as u8, (v / 256 % 256) as u8, (v % 256) as u8]
}

/// The header and payload of chip content.
#[derive(Debug, PartialEq)]
pub struct Frame {
    pub vendor_id: u16,
    pub product_id: u16,
    /// Reserved field; it should be zero.
    pub reserved: u16,
    /// The payload bytes.
    pub payload: Vec<u8>,
}

/// Mathematical form of a [`Frame`].
pub struct FrameModel {
    pub vendor_id: u16,
    pub product_id: u16,
    pub reserved: u16,
    pub payload: Seq<u8>,
}

impl Frame {
    /// The mathematical form of the frame.
    pub open spec fn model(&self) -> FrameModel {
        FrameModel {
            vendor_id: self.vendor_id,
            product_id: self.product_id,
            reserved: self.reserved,
            payload: self.payload@,
        }
    }
}

/// Why chip content did not unpack.
pub enum FrameFault {
    /// Fewer bytes than `expected`.
    Short(int),
    /// No magic.
    Magic,
    /// Checksum `calculated` did not match the `expected` one in the header.
    Checksum(u32, u32),
}

/// What chip content `c` unpacks to: the checks in their order are the header length, the magic,
/// the length of the payload and the checksum.
pub open spec fn unpack_spec(c: Seq<u8>) -> Result<FrameModel, FrameFault> {
    if c.len() < HEADER_LEN {
        Err(FrameFault::Short(HEADER_LEN as int))
    } else if !has_magic(c) {
        Err(FrameFault::Magic)
    } else {
        let end = HEADER_LEN + be16(c, 14);
        if c.len() < end {
            Err(FrameFault::Short(end))
        } else if crc32(c.subrange(CHECKSUM_START as int, end)) != be32(c, 4) {
            Err(FrameFault::Checksum(crc32(c.subrange(CHECKSUM_START as int, end)), be32(c, 4) as u32))
        } else {
            Ok(
                FrameModel {
                    vendor_id: be16(c, 8) as u16,
                    product_id: be16(c, 10) as u16,
                    reserved: be16(c, 12) as u16,
                    payload: c.subrange(HEADER_LEN as int, end),
                },
            )
        }
    }
}

/// Error of unpacking chip content.
#[derive(Debug, Clone, Copy, PartialEq, Eq)]
pub enum FrameError {
    /// Bad magic.
    BadMagic(WrongMagicError),
    /// Bad checksum.
    BadChecksum(ChecksumError),
    /// Not enough data.
    NotEnoughData(MissingDataError),
}

/// Whether `e` is the error for `f` on chip content `c`.
pub open spec fn is_frame_error(e: FrameError, f: FrameFault, c: Seq<u8>) -> bool {
    match f {
        FrameFault::Short(n) => e == FrameError::NotEnoughData(
            MissingDataError { length: c.len() as usize, expected: n as usize },
        ),
        FrameFault::Magic => e matches FrameError::BadMagic(w) && w.value@ == c.take(4),
        FrameFault::Checksum(calc, exp) => e == FrameError::BadChecksum(
            ChecksumError { calculated: calc, expected: exp },
        ),
    }
}

/// Unpacks chip content into its header fields and payload.
pub fn unpack(content: &[u8]) -> (res: Result<Frame, FrameError>)
    ensures
        match unpack_spec(content@) {
            Ok(m) => res matches Ok(f) && f.model() == m,
            Err(fault) => res matches Err(e) && is_frame_error(e, fault, content@),
        },
{
    let len = content.len();
    if len < HEADER_LEN {
        return Err(FrameError::NotEnoughData(MissingDataError { length: len, expected: HEADER_LEN }));
    }
    if !(content[0] == 0x4a && content[1] == 0x54 && content[2] == 0x4f && content[3] == 0x48) {
        let value = [content[0], content[1], content[2], content[3]];
        assert(value@ =~= content@.take(4));
        return Err(FrameError::BadMagic(WrongMagicError { value }));
    }
    let checksum: u32 = (((content[4] as u32) * 256 + content[5] as u32) * 256 + content[6] as u32)
        * 256 + content[7] as u32;
    let vendor_id: u16 = (content[8] as u16) * 256 + content[9] as u16;
    let product_id: u16 = (content[10] as u16) * 256 + content[11] as u16;
    let reserved: u16 = (content[12] as u16) * 256 + content[13] as u16;
    let payload_size: u16 = (content[14] as u16) * 256 + content[15] as u16;
    let end: usize = HEADER_LEN + payload_size as usize;
    if len < end {
        return Err(FrameError::NotEnoughData(MissingDataError { length: len, expected: end }));
    }
    let calculated = crc32_hash(&content[CHECKSUM_START..end]);
    if checksum != calculated {
        return Err(FrameError::BadChecksum(ChecksumError { calculated, expected: checksum }));
    }
    let mut payload: Vec<u8> = Vec::new();
    payload.extend_from_slice(&content[HEADER_LEN..end]);
    assert(payload@ =~= content@.subrange(HEADER_LEN as int, end as int));
    Ok(Frame { vendor_id, product_id, reserved, payload })
}

/// The bytes after the checksum field of chip content with ids `vendor_id` and `product_id` and
/// payload `payload`: the ids, a zero reserved field, the payload size (modulo 2^16) and the
/// payload.
pub open spec fn checksummed_part(vendor_id: u16, product_id: u16, payload: Seq<u8>) -> Seq<u8> {
    bytes16(vendor_id as int) + bytes16(product_id as int) + seq![0u8, 0u8] + bytes16(
        payload.len() as int % 0x1_0000,
    ) + payload
}

/// Chip content with ids `vendor_id` and `product_id` and payload `payload`.
pub open spec fn framed(vendor_id: u16, product_id: u16, payload: Seq<u8>) -> Seq<u8> {
    let rest = checksummed_part(vendor_id, product_id, payload);
    seq![0x4au8, 0x54u8, 0x4fu8, 0x48u8] + bytes32(crc32(rest) as int) + rest
}

fn push_be16(out: &mut Vec<u8>, v: u16)
    ensures
        final(out)@ == old(out)@ + bytes16(v as int),
{
    out.push((v / 256) as u8);
    out.push((v % 256) as u8);
    assert(final(out)@ =~= old(out)@ + bytes16(v as int));
}

/// Packs ids and payload into chip content, with header and checksum.
///
/// The payload size field holds the payload length modulo 2^16.
pub fn pack(vendor_id: u16, product_id: u16, payload: &[u8]) -> (res: Vec<u8>)
    ensures
        res@ == framed(vendor_id, product_id, payload@),
{
    let mut rest: Vec<u8> = Vec::new();
    push_be16(&mut rest, vendor_id);
    push_be16(&mut rest, product_id);
    rest.push(0);
    rest.push(0);
    let size: u16 = (payload.len() % 0x1_0000) as u16;
    push_be16(&mut rest, size);
    rest.extend_from_slice(payload);
    assert(rest@ =~= checksummed_part(vendor_id, product_id, payload@));
    let checksum = crc32_hash(rest.as_slice());
    let mut res: Vec<u8> = Vec::new();
    res.push(0x4a);
    res.push(0x54);
    res.push(0x4f);
    res.push(0x48);
    res.push((checksum / 0x100_0000) as u8);
    res.push((checksum / 0x1_0000 % 256) as u8);
    res.push((checksum / 256 % 256) as u8);
    res.push((checksum % 256) as u8);
    res.append(&mut rest);
    assert(res@ =~= framed(vendor_id, product_id, payload@));
    res
}

/// Unpacking packed content gives back the ids and the payload, with a zero reserved field,
/// where the payload size fits the size field.
pub proof fn lemma_pack_unpack(vendor_id: u16, product_id: u16, payload: Seq<u8>)
    requires
        payload.len() <= MAX_PAYLOAD_SIZE,
    ensures
        unpack_spec(framed(vendor_id, product_id, payload)) matches Ok(m) && m == (FrameModel {
            vendor_id,
            product_id,
            reserved: 0,
            payload,
        }),
{
    let c = framed(vendor_id, product_id, payload);
    let rest = checksummed_part(vendor_id, product_id, payload);
    let crc = crc32(rest) as int;
    assert(be16(c, 14) == payload.len());
    assert(be16(c, 8) == vendor_id);
    assert(be16(c, 10) == product_id);
    assert(be32(c, 4) == crc);
    assert(c.subrange(8, 16 + payload.len() as int) =~= rest);
    assert(c.subrange(16, 16 + payload.len() as int) =~= payload);
}

/// Bytes after the end of the payload do not change what chip content unpacks to, where it
/// unpacks: the rest of a memory block read along with the content is ignored.
pub proof fn lemma_unpack_trailing(c: Seq<u8>, t: Seq<u8>)
    requires
        unpack_spec(c) is Ok,
    ensures
        unpack_spec(c + t) == unpack_spec(c),
{
    let d = c + t;
    let end = HEADER_LEN + be16(c, 14);
    assert(d.subrange(0, c.len() as int) =~= c);
    assert(be16(d, 14) == be16(c, 14));
    assert(be16(d, 8) == be16(c, 8));
    assert(be16(d, 10) == be16(c, 10));
    assert(be16(d, 12) == be16(c, 12));
    assert(be32(d, 4) == be32(c, 4));
    assert(d.subrange(CHECKSUM_START as int, end) =~= c.subrange(CHECKSUM_START as int, end));
    assert(d.subrange(HEADER_LEN as int, end) =~= c.subrange(HEADER_LEN as int, end));
}

} // verus!
