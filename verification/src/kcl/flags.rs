//! The sixteen-bit flag of a collision triangle: bits 0-4 the base type, 5-7
//! the variant, 8-10 the blight index, 11-12 the wheel depth and 13-15 the
//! collision effect.
use vstd::prelude::*;

verus! {

/// The decoded flag of a collision triangle.
#[derive(Clone, Copy, Debug, PartialEq, Eq, Structural)]
pub struct Flag {
    pub base_type: BaseType,
    pub variant: u8,
    pub blight: u8,
    pub wheel_depth: WheelDepth,
    pub collision_effect: CollisionEffect,
}

/// The kind of surface.
#[derive(Clone, Copy, Debug, PartialEq, Eq, Structural)]
pub enum BaseType {
    Road,
    SlipperyRoad1,
    WeakOffroad,
    Offroad,
    HeavyOffroad,
    SlipperyRoad2,
    Boost,
    BoostRamp,
    JumpPad,
    ItemRoad,
    SolidFall,
    MovingWater,
    Wall,
    InvisibleWall,
    ItemWall,
    Wall2,
    FallBoundary,
    CannonTrigger,
    ForceRecalculation,
    HalfPipeRamp,
    PlayerOnlyWall,
    MovingRoad,
    StickyRoad,
    Road2,
    SoundTrigger,
    WeakWall,
    EffectTrigger,
    ItemStateModifier,
    HalfPipeInvisibleWall,
    RotatingRoad,
    SpecialWall,
    InvisibleWall2,
    Unknown(u8),
}

/// How deep the wheels sink into the surface.
#[derive(Clone, Copy, Debug, PartialEq, Eq, Structural)]
pub enum WheelDepth {
    Zero,
    Shallow,
    Medium,
    Deep,
}

/// The three collision-effect bits.
#[derive(Clone, Copy, Debug, PartialEq, Eq, Structural)]
pub struct CollisionEffect {
    pub trickable: bool,
    pub reject_road: bool,
    pub soft_wall: bool,
}

/// The base type that a five-bit code names; larger codes are unknown.
pub open spec fn base_type_of(value: u8) -> BaseType {
    match value {
        0x00 => BaseType::Road,
        0x01 => BaseType::SlipperyRoad1,
        0x02 => BaseType::WeakOffroad,
        0x03 => BaseType::Offroad,
        0x04 => BaseType::HeavyOffroad,
        0x05 => BaseType::SlipperyRoad2,
        0x06 => BaseType::Boost,
        0x07 => BaseType::BoostRamp,
        0x08 => BaseType::JumpPad,
        0x09 => BaseType::ItemRoad,
        0x0A => BaseType::SolidFall,
        0x0B => BaseType::MovingWater,
        0x0C => BaseType::Wall,
        0x0D => BaseType::InvisibleWall,
        0x0E => BaseType::ItemWall,
        0x0F => BaseType::Wall2,
        0x10 => BaseType::FallBoundary,
        0x11 => BaseType::CannonTrigger,
        0x12 => BaseType::ForceRecalculation,
        0x13 => BaseType::HalfPipeRamp,
        0x14 => BaseType::PlayerOnlyWall,
        0x15 => BaseType::MovingRoad,
        0x16 => BaseType::StickyRoad,
        0x17 => BaseType::Road2,
        0x18 => BaseType::SoundTrigger,
        0x19 => BaseType::WeakWall,
        0x1A => BaseType::EffectTrigger,
        0x1B => BaseType::ItemStateModifier,
        0x1C => BaseType::HalfPipeInvisibleWall,
        0x1D => BaseType::RotatingRoad,
        0x1E => BaseType::SpecialWall,
        0x1F => BaseType::InvisibleWall2,
        other => BaseType::Unknown(other),
    }
}

impl BaseType {
    /// The code of the base type.
    pub open spec fn code(self) -> u8 {
        match self {
            BaseType::Road => 0x00,
            BaseType::SlipperyRoad1 => 0x01,
            BaseType::WeakOffroad => 0x02,
            BaseType::Offroad => 0x03,
            BaseType::HeavyOffroad => 0x04,
            BaseType::SlipperyRoad2 => 0x05,
            BaseType::Boost => 0x06,
            BaseType::BoostRamp => 0x07,
            BaseType::JumpPad => 0x08,
            BaseType::ItemRoad => 0x09,
            BaseType::SolidFall => 0x0A,
            BaseType::MovingWater => 0x0B,
            BaseType::Wall => 0x0C,
            BaseType::InvisibleWall => 0x0D,
            BaseType::ItemWall => 0x0E,
            BaseType::Wall2 => 0x0F,
            BaseType::FallBoundary => 0x10,
            BaseType::CannonTrigger => 0x11,
            BaseType::ForceRecalculation => 0x12,
            BaseType::HalfPipeRamp => 0x13,
            BaseType::PlayerOnlyWall => 0x14,
            BaseType::MovingRoad => 0x15,
            BaseType::StickyRoad => 0x16,
            BaseType::Road2 => 0x17,
            BaseType::SoundTrigger => 0x18,
            BaseType::WeakWall => 0x19,
            BaseType::EffectTrigger => 0x1A,
            BaseType::ItemStateModifier => 0x1B,
            BaseType::HalfPipeInvisibleWall => 0x1C,
            BaseType::RotatingRoad => 0x1D,
            BaseType::SpecialWall => 0x1E,
            BaseType::InvisibleWall2 => 0x1F,
            BaseType::Unknown(value) => value,
        }
    }

    /// Whether the code of the base type names it back: every named type, and an
    /// unknown one whose code is not among the named ones.
    pub open spec fn is_canonical(self) -> bool {
        self matches BaseType::Unknown(v) ==> v >= 0x20
    }

    /// The base type that a code names.
    pub fn from_u8(value: u8) -> (r: Self)
        ensures
            r == base_type_of(value),
    {
        match value {
            0x00 => BaseType::Road,
            0x01 => BaseType::SlipperyRoad1,
            0x02 => BaseType::WeakOffroad,
            0x03 => BaseType::Offroad,
            0x04 => BaseType::HeavyOffroad,
            0x05 => BaseType::SlipperyRoad2,
            0x06 => BaseType::Boost,
            0x07 => BaseType::BoostRamp,
            0x08 => BaseType::JumpPad,
            0x09 => BaseType::ItemRoad,
            0x0A => BaseType::SolidFall,
            0x0B => BaseType::MovingWater,
            0x0C => BaseType::Wall,
            0x0D => BaseType::InvisibleWall,
            0x0E => BaseType::ItemWall,
            0x0F => BaseType::Wall2,
            0x10 => BaseType::FallBoundary,
            0x11 => BaseType::CannonTrigger,
            0x12 => BaseType::ForceRecalculation,
            0x13 => BaseType::HalfPipeRamp,
            0x14 => BaseType::PlayerOnlyWall,
            0x15 => BaseType::MovingRoad,
            0x16 => BaseType::StickyRoad,
            0x17 => BaseType::Road2,
            0x18 => BaseType::SoundTrigger,
            0x19 => BaseType::WeakWall,
            0x1A => BaseType::EffectTrigger,
            0x1B => BaseType::ItemStateModifier,
            0x1C => BaseType::HalfPipeInvisibleWall,
            0x1D => BaseType::RotatingRoad,
            0x1E => BaseType::SpecialWall,
            0x1F => BaseType::InvisibleWall2,
            other => BaseType::Unknown(other),
        }
    }

    /// The code of the base type.
    pub fn to_u8(&self) -> (r: u8)
        ensures
            r == self.code(),
    {
        match self {
            BaseType::Road => 0x00,
            BaseType::SlipperyRoad1 => 0x01,
            BaseType::WeakOffroad => 0x02,
            BaseType::Offroad => 0x03,
            BaseType::HeavyOffroad => 0x04,
            BaseType::SlipperyRoad2 => 0x05,
            BaseType::Boost => 0x06,
            BaseType::BoostRamp => 0x07,
            BaseType::JumpPad => 0x08,
            BaseType::ItemRoad => 0x09,
            BaseType::SolidFall => 0x0A,
            BaseType::MovingWater => 0x0B,
            BaseType::Wall => 0x0C,
            BaseType::InvisibleWall => 0x0D,
            BaseType::ItemWall => 0x0E,
            BaseType::Wall2 => 0x0F,
            BaseType::FallBoundary => 0x10,
            BaseType::CannonTrigger => 0x11,
            BaseType::ForceRecalculation => 0x12,
            BaseType::HalfPipeRamp => 0x13,
            BaseType::PlayerOnlyWall => 0x14,
            BaseType::MovingRoad => 0x15,
            BaseType::StickyRoad => 0x16,
            BaseType::Road2 => 0x17,
            BaseType::SoundTrigger => 0x18,
            BaseType::WeakWall => 0x19,
            BaseType::EffectTrigger => 0x1A,
            BaseType::ItemStateModifier => 0x1B,
            BaseType::HalfPipeInvisibleWall => 0x1C,
            BaseType::RotatingRoad => 0x1D,
            BaseType::SpecialWall => 0x1E,
            BaseType::InvisibleWall2 => 0x1F,
            BaseType::Unknown(value) => *value,
        }
    }
}

/// The surfaces that the collision codes 0 to 31 name, in code order: road,
/// slippery road, weak offroad (2), offroad (3), heavy offroad, and so on.
pub open spec fn surfaces() -> Seq<BaseType> {
    seq![
        BaseType::Road,
        BaseType::SlipperyRoad1,
        BaseType::WeakOffroad,
        BaseType::Offroad,
        BaseType::HeavyOffroad,
        BaseType::SlipperyRoad2,
        BaseType::Boost,
        BaseType::BoostRamp,
        BaseType::JumpPad,
        BaseType::ItemRoad,
        BaseType::SolidFall,
        BaseType::MovingWater,
        BaseType::Wall,
        BaseType::InvisibleWall,
        BaseType::ItemWall,
        BaseType::Wall2,
        BaseType::FallBoundary,
        BaseType::CannonTrigger,
        BaseType::ForceRecalculation,
        BaseType::HalfPipeRamp,
        BaseType::PlayerOnlyWall,
        BaseType::MovingRoad,
        BaseType::StickyRoad,
        BaseType::Road2,
        BaseType::SoundTrigger,
        BaseType::WeakWall,
        BaseType::EffectTrigger,
        BaseType::ItemStateModifier,
        BaseType::HalfPipeInvisibleWall,
        BaseType::RotatingRoad,
        BaseType::SpecialWall,
        BaseType::InvisibleWall2,
    ]
}

/// Each of the 32 base-type codes names its fixed surface and is that surface's
/// code; every larger code is unknown and keeps its value.
pub proof fn lemma_base_type_table(v: u8)
    ensures
        v < 32 ==> base_type_of(v) == surfaces()[v as int] && surfaces()[v as int].code() == v,
        v >= 32 ==> base_type_of(v) == BaseType::Unknown(v) && BaseType::Unknown(v).code() == v,
{
}

/// Reading back the code of a base type gives the type again, when the code names
/// it back.
pub proof fn lemma_base_type_round_trip(b: BaseType)
    requires
        b.is_canonical(),
    ensures
        base_type_of(b.code()) == b,
{
}

/// The code of the base type that a code names is that code.
pub proof fn lemma_base_type_code_round_trip(value: u8)
    ensures
        base_type_of(value).code() == value,
        base_type_of(value).is_canonical(),
{
}

/// The wheel depth that a two-bit code names.
pub open spec fn wheel_depth_of(value: u8) -> WheelDepth {
    if value == 0 {
        WheelDepth::Zero
    } else if value == 1 {
        WheelDepth::Shallow
    } else if value == 2 {
        WheelDepth::Medium
    } else {
        WheelDepth::Deep
    }
}

impl WheelDepth {
    /// The two-bit code of the depth.
    pub open spec fn code(self) -> u8 {
        match self {
            WheelDepth::Zero => 0,
            WheelDepth::Shallow => 1,
            WheelDepth::Medium => 2,
            WheelDepth::Deep => 3,
        }
    }

    /// The depth that a code from 0 to 3 names.
    pub fn from_u8(value: u8) -> (r: Self)
        requires
            value <= 3,
        ensures
            r == wheel_depth_of(value),
    {
        match value {
            0x0 => WheelDepth::Zero,
            0x1 => WheelDepth::Shallow,
            0x2 => WheelDepth::Medium,
            _ => WheelDepth::Deep,
        }
    }

    /// The code of the depth.
    pub fn to_u8(self) -> (r: u8)
        ensures
            r == self.code(),
    {
        match self {
            WheelDepth::Zero => 0x0,
            WheelDepth::Shallow => 0x1,
            WheelDepth::Medium => 0x2,
            WheelDepth::Deep => 0x3,
        }
    }
}

/// Reading back the code of a depth gives the depth, and the code of the depth
/// that a code names is that code.
pub proof fn lemma_wheel_depth_round_trip(w: WheelDepth, value: u8)
    requires
        value <= 3,
    ensures
        wheel_depth_of(w.code()) == w,
        w.code() <= 3,
        wheel_depth_of(value).code() == value,
{
}

/// The collision effect that the low three bits of `value` encode.
pub open spec fn collision_effect_of(value: u8) -> CollisionEffect {
    CollisionEffect {
        trickable: value & 1 != 0,
        reject_road: (value >> 1) & 1 != 0,
        soft_wall: (value >> 2) & 1 != 0,
    }
}

impl CollisionEffect {
    /// The three-bit code: bit 0 trickable, bit 1 reject road, bit 2 soft wall.
    pub open spec fn code(self) -> u8 {
        (if self.trickable { 1u8 } else { 0u8 }) | (if self.reject_road { 1u8 } else { 0u8 }) << 1
            | (if self.soft_wall { 1u8 } else { 0u8 }) << 2
    }

    /// The effect that the low three bits of `value` encode; higher bits are ignored.
    pub fn from_u8(value: u8) -> (r: Self)
        ensures
            r == collision_effect_of(value),
    {
        CollisionEffect {
            trickable: value & 1 != 0,
            reject_road: (value >> 1) & 1 != 0,
            soft_wall: (value >> 2) & 1 != 0,
        }
    }

    /// The three-bit code of the effect.
    pub fn to_u8(self) -> (r: u8)
        ensures
            r == self.code(),
    {
        (if self.trickable { 1u8 } else { 0u8 }) | (if self.reject_road { 1u8 } else { 0u8 }) << 1
            | (if self.soft_wall { 1u8 } else { 0u8 }) << 2
    }
}

/// The code of the effect that a value encodes is the value's low three bits,
/// and reading back the code of an effect gives the effect.
pub proof fn lemma_collision_effect_round_trip(c: CollisionEffect, value: u8)
    ensures
        collision_effect_of(value).code() == value & 7,
        collision_effect_of(c.code()) == c,
        c.code() <= 7,
{
    let t = value & 1 != 0;
    let rr = (value >> 1) & 1 != 0;
    let sw = (value >> 2) & 1 != 0;
    assert(((if t { 1u8 } else { 0u8 }) | (if rr { 1u8 } else { 0u8 }) << 1 | (if sw { 1u8 } else { 0u8 }) << 2)
        == value & 7) by (bit_vector)
        requires
            t == (value & 1 != 0),
            rr == ((value >> 1) & 1 != 0),
            sw == ((value >> 2) & 1 != 0),
    ;
    let ct = c.trickable;
    let cr = c.reject_road;
    let cs = c.soft_wall;
    let code = c.code();
    assert(((code & 1 != 0) == ct) && (((code >> 1) & 1 != 0) == cr) && (((code >> 2) & 1 != 0) == cs)
        && code <= 7) by (bit_vector)
        requires
            code == (if ct { 1u8 } else { 0u8 }) | (if cr { 1u8 } else { 0u8 }) << 1
                | (if cs { 1u8 } else { 0u8 }) << 2,
    ;
}

/// The flag that a sixteen-bit value encodes.
pub open spec fn flag_of(value: u16) -> Flag {
    Flag {
        base_type: base_type_of((value & 0x1f) as u8),
        variant: ((value >> 5) & 0x7) as u8,
        blight: ((value >> 8) & 0x7) as u8,
        wheel_depth: wheel_depth_of(((value >> 11) & 0x3) as u8),
        collision_effect: collision_effect_of(((value >> 13) & 0x7) as u8),
    }
}

impl Flag {
    /// The sixteen-bit value of the flag, each field shifted to its place.
    pub open spec fn code(self) -> u16 {
        (self.base_type.code() as u16) | (self.variant as u16) << 5 | (self.blight as u16) << 8
            | (self.wheel_depth.code() as u16) << 11 | (self.collision_effect.code() as u16) << 13
    }

    /// Whether every field fits its bits: a named base type, a variant and a
    /// blight index below 8.
    pub open spec fn is_canonical(self) -> bool {
        &&& !(self.base_type is Unknown)
        &&& self.variant < 8
        &&& self.blight < 8
    }

    /// Decodes a flag.
    pub fn from_u16(value: u16) -> (r: Self)
        ensures
            r == flag_of(value),
    {
        let base_type = BaseType::from_u8((value & 0x1F) as u8);
        let variant = ((value >> 5) & 0x7) as u8;
        let blight = ((value >> 8) & 0x7) as u8;
        assert((value >> 11) & 0x3 <= 3) by (bit_vector);
        let wheel_depth = WheelDepth::from_u8(((value >> 11) & 0x3) as u8);
        let collision_effect = CollisionEffect::from_u8(((value >> 13) & 0x7) as u8);
        Flag { base_type, variant, blight, wheel_depth, collision_effect }
    }

    /// Encodes the flag.
    pub fn to_u16(&self) -> (r: u16)
        ensures
            r == self.code(),
    {
        let mut value: u16 = 0;
        value = value | self.base_type.to_u8() as u16;
        value = value | (self.variant as u16) << 5;
        value = value | (self.blight as u16) << 8;
        value = value | (self.wheel_depth.to_u8() as u16) << 11;
        value = value | (self.collision_effect.to_u8() as u16) << 13;
        proof {
            let b = self.base_type.code() as u16;
            let v = self.variant as u16;
            let l = self.blight as u16;
            let w = self.wheel_depth.code() as u16;
            let c = self.collision_effect.code() as u16;
            assert((((((0u16 | b) | v << 5) | l << 8) | w << 11) | c << 13)
                == b | v << 5 | l << 8 | w << 11 | c << 13) by (bit_vector);
        }
        value
    }
}

/// Encoding the flag that a value decodes to gives the value back.
pub proof fn lemma_flag_encode_decode(value: u16)
    ensures
        flag_of(value).code() == value,
{
    let f = flag_of(value);
    let b = (value & 0x1f) as u8;
    let w = ((value >> 11) & 0x3) as u8;
    let c = ((value >> 13) & 0x7) as u8;
    assert(b < 32 && w <= 3 && c <= 7) by (bit_vector)
        requires
            b == (value & 0x1f) as u8,
            w == ((value >> 11) & 0x3) as u8,
            c == ((value >> 13) & 0x7) as u8,
    ;
    lemma_base_type_code_round_trip(b);
    lemma_wheel_depth_round_trip(WheelDepth::Zero, w);
    lemma_collision_effect_round_trip(f.collision_effect, c);
    assert(c & 7 == c) by (bit_vector)
        requires
            c <= 7,
    ;
    let v = f.variant;
    let l = f.blight;
    assert(((b as u16) | (v as u16) << 5 | (l as u16) << 8 | (w as u16) << 11 | (c as u16) << 13) == value)
        by (bit_vector)
        requires
            b == (value & 0x1f) as u8,
            v == ((value >> 5) & 0x7) as u8,
            l == ((value >> 8) & 0x7) as u8,
            w == ((value >> 11) & 0x3) as u8,
            c == ((value >> 13) & 0x7) as u8,
    ;
}

/// Decoding the value of a flag whose fields fit their bits gives the flag back.
pub proof fn lemma_flag_decode_encode(f: Flag)
    requires
        f.is_canonical(),
    ensures
        flag_of(f.code()) == f,
{
    let b = f.base_type.code();
    let v = f.variant;
    let l = f.blight;
    let w = f.wheel_depth.code();
    let c = f.collision_effect.code();
    lemma_wheel_depth_round_trip(f.wheel_depth, 0);
    lemma_collision_effect_round_trip(f.collision_effect, 0);
    assert(b < 32);
    let code = f.code();
    assert(code == (b as u16) | (v as u16) << 5 | (l as u16) << 8 | (w as u16) << 11 | (c as u16) << 13);
    assert((code & 0x1f) as u8 == b && ((code >> 5) & 0x7) as u8 == v && ((code >> 8) & 0x7) as u8 == l
        && ((code >> 11) & 0x3) as u8 == w && ((code >> 13) & 0x7) as u8 == c) by (bit_vector)
        requires
            code == (b as u16) | (v as u16) << 5 | (l as u16) << 8 | (w as u16) << 11 | (c as u16) << 13,
            b < 32,
            v < 8,
            l < 8,
            w <= 3,
            c <= 7,
    ;
    lemma_base_type_round_trip(f.base_type);
}

} // verus!
