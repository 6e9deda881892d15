use mockchain_core::packer::{
    put_u128, put_u16, put_u32, put_u64, put_u8, ReadBuf, ReadError, StructureError,
};
use mockchain_core::cbor::{read_head, read_path, write_head, write_path};

#[test]
fn put_get_round_trips() {
    let mut out: Vec<u8> = Vec::new();
    put_u8(&mut out, 0xab);
    put_u16(&mut out, 0x1234);
    put_u32(&mut out, 0x0102_0304);
    put_u64(&mut out, 0x0102_0304_0506_0708);
    put_u128(&mut out, 0x0102_0304_0506_0708_090a_0b0c_0d0e_0f10);
    assert_eq!(
        out,
        vec![
            0xab, 0x12, 0x34, 0x01, 0x02, 0x03, 0x04, 0x01, 0x02, 0x03, 0x04, 0x05, 0x06,
            0x07, 0x08, 0x01, 0x02, 0x03, 0x04, 0x05, 0x06, 0x07, 0x08, 0x09, 0x0a, 0x0b,
            0x0c, 0x0d, 0x0e, 0x0f, 0x10,
        ]
    );
    let mut rb = ReadBuf::new(out.as_slice());
    assert_eq!(rb.get_u8().unwrap(), 0xab);
    assert_eq!(rb.get_u16().unwrap(), 0x1234);
    assert_eq!(rb.get_u32().unwrap(), 0x0102_0304);
    assert_eq!(rb.get_u64().unwrap(), 0x0102_0304_0506_0708);
    assert_eq!(rb.get_u128().unwrap(), 0x0102_0304_0506_0708_090a_0b0c_0d0e_0f10);
    assert!(rb.is_end());
}

#[test]
fn read_past_limit_is_not_enough() {
    let bytes = [0u8, 1];
    let mut rb = ReadBuf::new(&bytes);
    assert_eq!(
        rb.get_u32(),
        Err(ReadError::NotEnough { requested: 4, remaining: 2 })
    );
    assert_eq!(rb.get_u16().unwrap(), 1);
    assert_eq!(
        rb.get_u8(),
        Err(ReadError::NotEnough { requested: 1, remaining: 0 })
    );
}

#[test]
fn head_shortest_forms() {
    let cases: Vec<(u64, Vec<u8>)> = vec![
        (0, vec![0x00]),
        (23, vec![0x17]),
        (24, vec![0x18, 24]),
        (255, vec![0x18, 0xff]),
        (256, vec![0x19, 0x01, 0x00]),
        (65535, vec![0x19, 0xff, 0xff]),
        (65536, vec![0x1a, 0x00, 0x01, 0x00, 0x00]),
        (4294967296, vec![0x1b, 0x00, 0x00, 0x00, 0x01, 0x00, 0x00, 0x00, 0x00]),
    ];
    for (v, enc) in cases {
        let mut out: Vec<u8> = Vec::new();
        write_head(&mut out, 0, v);
        assert_eq!(out, enc);
        let mut rb = ReadBuf::new(out.as_slice());
        assert_eq!(read_head(&mut rb, 0).unwrap(), v);
        assert!(rb.is_end());
    }
}

#[test]
fn head_rejects_non_shortest_form() {
    let bytes = [0x18u8, 0x05];
    let mut rb = ReadBuf::new(&bytes);
    assert_eq!(
        read_head(&mut rb, 0),
        Err(ReadError::StructureInvalid(StructureError::NonMinimalInt))
    );
}

#[test]
fn head_rejects_wrong_major_type() {
    let bytes = [0x45u8, 1, 2, 3, 4, 5];
    let mut rb = ReadBuf::new(&bytes);
    assert_eq!(
        read_head(&mut rb, 0),
        Err(ReadError::StructureInvalid(StructureError::UnexpectedType))
    );
}

#[test]
fn path_array_frame_stability() {
    let bytes = vec![0x9fu8, 0x00, 0x18, 0x2a, 0x19, 0x01, 0x00, 0xff];
    let items = read_path(bytes.as_slice()).unwrap();
    assert_eq!(items, vec![0, 42, 256]);
    let mut out: Vec<u8> = Vec::new();
    write_path(&mut out, &items);
    assert_eq!(out, bytes);
}

#[test]
fn path_rejects_trailing_bytes() {
    let bytes = vec![0x9fu8, 0x00, 0xff, 0x00];
    assert_eq!(
        read_path(bytes.as_slice()),
        Err(ReadError::StructureInvalid(StructureError::TrailingData))
    );
}

#[test]
fn path_rejects_missing_break() {
    let bytes = vec![0x9fu8, 0x00];
    assert!(read_path(bytes.as_slice()).is_err());
}
