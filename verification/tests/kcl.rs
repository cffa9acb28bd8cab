use szs_utils::kcl::flags::{BaseType, CollisionEffect, Flag, WheelDepth};

#[test]
fn base_types_round_trip() {
    for code in 0u8..=0xFF {
        assert_eq!(BaseType::from_u8(code).to_u8(), code);
    }
    assert_eq!(BaseType::from_u8(0x00), BaseType::Road);
    assert_eq!(BaseType::from_u8(0x06), BaseType::Boost);
    assert_eq!(BaseType::from_u8(0x10), BaseType::FallBoundary);
    assert_eq!(BaseType::from_u8(0x1F), BaseType::InvisibleWall2);
    assert_eq!(BaseType::from_u8(0x20), BaseType::Unknown(0x20));
    assert_eq!(BaseType::Unknown(0x20).to_u8(), 0x20);
}

#[test]
fn wheel_depths_round_trip() {
    for code in 0u8..=3 {
        assert_eq!(WheelDepth::from_u8(code).to_u8(), code);
    }
    assert_eq!(WheelDepth::from_u8(0), WheelDepth::Zero);
    assert_eq!(WheelDepth::from_u8(3), WheelDepth::Deep);
}

#[test]
fn collision_effects_use_three_bits() {
    let e = CollisionEffect::from_u8(0b101);
    assert!(e.trickable);
    assert!(!e.reject_road);
    assert!(e.soft_wall);
    assert_eq!(e.to_u8(), 0b101);
    assert_eq!(CollisionEffect::from_u8(0xFA).to_u8(), 0b010);
    for code in 0u8..8 {
        assert_eq!(CollisionEffect::from_u8(code).to_u8(), code);
    }
}

#[test]
fn flags_decode_each_field() {
    let f = Flag::from_u16(0b101_10_011_010_00110);
    assert_eq!(f.base_type, BaseType::Boost);
    assert_eq!(f.variant, 0b010);
    assert_eq!(f.blight, 0b011);
    assert_eq!(f.wheel_depth, WheelDepth::Medium);
    assert!(f.collision_effect.trickable);
    assert!(!f.collision_effect.reject_road);
    assert!(f.collision_effect.soft_wall);
}

#[test]
fn flags_round_trip() {
    for value in 0u16..=u16::MAX {
        assert_eq!(Flag::from_u16(value).to_u16(), value);
    }
    let f = Flag {
        base_type: BaseType::Wall,
        variant: 5,
        blight: 2,
        wheel_depth: WheelDepth::Shallow,
        collision_effect: CollisionEffect { trickable: false, reject_road: true, soft_wall: false },
    };
    assert_eq!(Flag::from_u16(f.to_u16()), f);
}
