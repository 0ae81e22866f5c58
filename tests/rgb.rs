use persist_make::rgb::{from_u32, to_u32};

#[test]
fn from_u32_splits_channels() {
    assert_eq!(from_u32(0x123456), (0x12, 0x34, 0x56));
    assert_eq!(from_u32(0x000000), (0, 0, 0));
    assert_eq!(from_u32(0xffffff), (0xff, 0xff, 0xff));
}

#[test]
fn from_u32_ignores_top_byte() {
    assert_eq!(from_u32(0xab123456), (0x12, 0x34, 0x56));
    assert_eq!(from_u32(0xff000000), (0, 0, 0));
}

#[test]
fn to_u32_packs_channels() {
    assert_eq!(to_u32((0x12, 0x34, 0x56)), 0x123456);
    assert_eq!(to_u32((0xff, 0, 0)), 0xff0000);
    assert_eq!(to_u32((0, 0xff, 0)), 0x00ff00);
    assert_eq!(to_u32((0, 0, 0xff)), 0x0000ff);
}

#[test]
fn rgb_round_trips() {
    for v in [0u32, 1, 0x7f7f7f, 0x123456, 0xfedcba, 0xffffff] {
        assert_eq!(to_u32(from_u32(v)), v);
    }
    assert_eq!(to_u32(from_u32(0xaa123456)), 0x123456);
    for c in [(0u8, 0u8, 0u8), (1, 2, 3), (0xff, 0x80, 0x01)] {
        assert_eq!(from_u32(to_u32(c)), c);
    }
}
