use tc_cache::bytes::{FromLeBytes, IntoLeBytes};

#[test]
fn u32_to_bytes() {
    let x: u32 = 123456789;
    let bytes = x.into_le_bytes();
    let y = <u32 as FromLeBytes<u32>>::from_le_bytes(bytes);

    assert_eq!(x, y);
    assert_eq!(hex::encode(bytes), "15cd5b07");
}

#[test]
fn le_bytes_of_edge_values() {
    assert_eq!(0u32.into_le_bytes(), [0, 0, 0, 0]);
    assert_eq!(1u32.into_le_bytes(), [1, 0, 0, 0]);
    assert_eq!(256u32.into_le_bytes(), [0, 1, 0, 0]);
    assert_eq!(u32::MAX.into_le_bytes(), [255, 255, 255, 255]);
    assert_eq!(0x0403_0201u32.into_le_bytes(), [1, 2, 3, 4]);
}

#[test]
fn le_bytes_round_trip() {
    let values = vec![0u32, 1, 255, 256, 65535, 65536, 0x00ff_ff00, 0x8000_0000, u32::MAX];
    for value in values {
        let bytes = value.into_le_bytes();
        assert_eq!(<u32 as FromLeBytes<u32>>::from_le_bytes(bytes), value);
    }
    assert_eq!(<u32 as FromLeBytes<u32>>::from_le_bytes([0, 0, 0, 1]), 16777216);
}
