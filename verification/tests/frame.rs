use symbiosis::errors::{ChecksumError, MissingDataError, WrongMagicError};
use symbiosis::frame::{pack, unpack, FrameError, HEADER_LEN};

fn header(checksum: u32, vendor: u16, product: u16, reserved: u16, size: u16) -> Vec<u8> {
    let mut v = vec![0x4a, 0x54, 0x4f, 0x48];
    v.extend_from_slice(&checksum.to_be_bytes());
    v.extend_from_slice(&vendor.to_be_bytes());
    v.extend_from_slice(&product.to_be_bytes());
    v.extend_from_slice(&reserved.to_be_bytes());
    v.extend_from_slice(&size.to_be_bytes());
    v
}

#[test]
fn pack_empty_payload_gives_exact_header() {
    let packed = pack(0x1234, 0xabcd, &[]);
    let rest = [0x12, 0x34, 0xab, 0xcd, 0, 0, 0, 0];
    let checksum = crc32fast::hash(&rest);
    assert_eq!(packed, header(checksum, 0x1234, 0xabcd, 0, 0));
    assert_eq!(packed.len(), HEADER_LEN);
}

#[test]
fn pack_checksum_covers_ids_and_payload() {
    let payload = [0xa1, 0x62, 0x53, 0x4e, 0x61, 0x78];
    let packed = pack(1, 2, &payload);
    let checksum = u32::from_be_bytes([packed[4], packed[5], packed[6], packed[7]]);
    assert_eq!(checksum, crc32fast::hash(&packed[8..]));
    assert_ne!(checksum, 0);
    assert_eq!(&packed[14..16], &[0, 6]);
    assert_eq!(&packed[16..], &payload);
}

#[test]
fn pack_then_unpack_gives_ids_and_payload() {
    let payload: Vec<u8> = (0..200u8).collect();
    let packed = pack(0x0102, 0x0304, &payload);
    let frame = unpack(&packed).unwrap();
    assert_eq!(frame.vendor_id, 0x0102);
    assert_eq!(frame.product_id, 0x0304);
    assert_eq!(frame.reserved, 0);
    assert_eq!(frame.payload, payload);
}

#[test]
fn unpack_ignores_bytes_after_payload() {
    let mut packed = pack(7, 8, &[1, 2, 3]);
    packed.extend_from_slice(&[0xff; 40]);
    let frame = unpack(&packed).unwrap();
    assert_eq!(frame.payload, vec![1, 2, 3]);
}

#[test]
fn unpack_short_header() {
    let res = unpack(&[0x4a, 0x54, 0x4f, 0x48, 0, 0, 0, 0, 0, 0]);
    assert_eq!(
        res,
        Err(FrameError::NotEnoughData(MissingDataError { length: 10, expected: 16 }))
    );
}

#[test]
fn unpack_bad_magic() {
    let mut packed = pack(1, 1, &[]);
    packed[0] = b'X';
    let res = unpack(&packed);
    assert_eq!(
        res,
        Err(FrameError::BadMagic(WrongMagicError { value: [b'X', b'T', b'O', b'H'] }))
    );
}

#[test]
fn unpack_short_payload() {
    let packed = pack(1, 1, &[9, 9, 9, 9]);
    let res = unpack(&packed[..18]);
    assert_eq!(
        res,
        Err(FrameError::NotEnoughData(MissingDataError { length: 18, expected: 20 }))
    );
}

#[test]
fn unpack_bad_checksum() {
    let mut packed = pack(1, 1, &[9, 9]);
    let expected = u32::from_be_bytes([packed[4], packed[5], packed[6], packed[7]]);
    packed[17] = 8;
    let calculated = crc32fast::hash(&packed[8..]);
    let res = unpack(&packed);
    assert_eq!(res, Err(FrameError::BadChecksum(ChecksumError { calculated, expected })));
}

#[test]
fn unpack_keeps_reserved_field() {
    let payload = [];
    let mut content = header(0, 5, 6, 0x0102, 0);
    let checksum = crc32fast::hash(&content[8..]);
    content[4..8].copy_from_slice(&checksum.to_be_bytes());
    let frame = unpack(&content).unwrap();
    assert_eq!(frame.reserved, 0x0102);
    assert_eq!(frame.payload, payload.to_vec());
}

#[test]
fn bytes_after_payload_are_ignored() {
    let content = pack(5, 6, &[1, 2, 3]);
    let mut longer = content.clone();
    longer.extend_from_slice(&[9; 100]);
    assert_eq!(unpack(&longer), unpack(&content));
    assert_eq!(unpack(&longer).unwrap().payload, vec![1, 2, 3]);
}

#[test]
fn largest_payload_size_needs_its_bytes() {
    let mut content = pack(1, 2, &[]);
    content[14] = 0xff;
    content[15] = 0xff;
    assert_eq!(
        unpack(&content),
        Err(FrameError::NotEnoughData(MissingDataError { length: 16, expected: 0x1000f }))
    );
}
