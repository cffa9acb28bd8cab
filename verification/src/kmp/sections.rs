//! The entries of the sections of a `.kmp` file.
use vstd::prelude::*;
use core::marker::PhantomData;
use crate::binary::{
    within, be_u16, be_u32, same_from, lemma_same_from, vec2_at, vec3_at, fits, get_u8, get_u16, get_u32,
    get_array, get_vec2, get_vec3, Vec2, Vec3,
};
use crate::error::Error;

verus! {

/// An entry of fixed size, read from bytes at an offset.
pub trait KmpEntry: Sized {
    /// The number of bytes from one entry to the next.
    const SIZE: usize;

    /// Whether an entry can be read at `offset`: the bytes it reads lie inside `data`.
    spec fn readable(data: Seq<u8>, offset: int) -> bool;

    /// Whether the fields of `self` are those stored at `offset` of `data`.
    spec fn read_from(self, data: Seq<u8>, offset: int) -> bool;

    /// An entry is readable only at an offset inside the data.
    proof fn lemma_readable_inside(data: Seq<u8>, offset: int)
        ensures
            Self::readable(data, offset) ==> 0 <= offset <= data.len(),
    ;

    /// An entry is readable wherever its `SIZE` bytes lie inside the data.
    proof fn lemma_fits_readable(data: Seq<u8>, offset: int)
        ensures
            within(data, offset, Self::SIZE as int) ==> Self::readable(data, offset),
    ;

    /// Whether an entry can be read at `offset`, and what it holds, depend only on
    /// the bytes from `offset` on.
    proof fn lemma_frame(d1: Seq<u8>, d2: Seq<u8>, offset: int)
        requires
            same_from(d1, d2, offset),
            0 <= offset,
        ensures
            Self::readable(d1, offset) == Self::readable(d2, offset),
            Self::readable(d1, offset) ==> forall|e: Self| #[trigger] e.read_from(d1, offset) == e.read_from(d2, offset),
    ;

    /// Reads the entry at `offset`.
    fn parse(data: &[u8], offset: usize) -> (r: Result<Self, Error>)
        ensures
            Self::readable(data@, offset as int) ==> (r matches Ok(e) && e.read_from(data@, offset as int)),
            !Self::readable(data@, offset as int) ==> r == Err::<Self, Error>(Error::OutOfBounds),
    ;
}

/// The PathGroup section describes the structure of ENPH, ITPH, and CKPH groups:
/// * The ENPH (enemy path) section describes enemy point grouping; how the routes of CPU racers link together.
/// * The ITPH (item path) section describes item point grouping; how the item routes link together. When all previous or next group indices are set to 0xFF, the game assumes the order of points as they appear in the ITPT section.
/// * The CKPH (checkpoint path) section describes checkpoint grouping; how the routes of checkpoints link together.
pub struct PathGroup<T> {
    pub start: u8,
    pub group_length: u8,
    pub prev_group: [u8; 6],
    pub next_group: [u8; 6],
    pub group_link: u16,
    pub _p: PhantomData<T>,
}

impl<T> KmpEntry for PathGroup<T> {
    const SIZE: usize = 0x10;

    open spec fn readable(data: Seq<u8>, offset: int) -> bool {
        within(data, offset, 0x10)
    }

    open spec fn read_from(self, data: Seq<u8>, offset: int) -> bool {
        &&& self.start == data[offset]
        &&& self.group_length == data[offset + 0x01]
        &&& self.prev_group@ == data.subrange(offset + 0x02, offset + 0x08)
        &&& self.next_group@ == data.subrange(offset + 0x08, offset + 0x0E)
        &&& self.group_link == be_u16(data, offset + 0x0E)
    }

    proof fn lemma_readable_inside(data: Seq<u8>, offset: int) {
    }

    proof fn lemma_fits_readable(data: Seq<u8>, offset: int) {
    }

    proof fn lemma_frame(d1: Seq<u8>, d2: Seq<u8>, offset: int) {
        lemma_same_from(d1, d2, offset);
    }

    fn parse(data: &[u8], offset: usize) -> (r: Result<Self, Error>) {
        if !fits(data, offset, 0x10) {
            return Err(Error::OutOfBounds);
        }
        Ok(PathGroup {
            start: get_u8(data, offset),
            group_length: get_u8(data, offset + 0x01),
            prev_group: get_array(data, offset + 0x02),
            next_group: get_array(data, offset + 0x08),
            group_link: get_u16(data, offset + 0x0E),
            _p: PhantomData,
        })
    }
}

/// The kind of a checkpoint.
#[derive(Debug, Clone, Copy, PartialEq, Eq, Structural)]
pub enum CpType {
    LapCounter,
    KeyCheckpoint,
    Checkpoint,
}

/// The checkpoint kind that a type byte names: 0 the lap counter, -1 an ordinary
/// checkpoint, anything else a key checkpoint.
pub open spec fn cp_type_of(value: i8) -> CpType {
    if value == 0 {
        CpType::LapCounter
    } else if value == -1 {
        CpType::Checkpoint
    } else {
        CpType::KeyCheckpoint
    }
}

impl CpType {
    /// The checkpoint kind that a type byte names.
    pub fn from_i8(value: i8) -> (r: Self)
        ensures
            r == cp_type_of(value),
    {
        match value {
            0 => Self::LapCounter,
            -1 => Self::Checkpoint,
            _ => Self::KeyCheckpoint,
        }
    }

    /// The name of the kind, for display.
    pub fn to_string(&self) -> (r: &str)
        ensures
            r@ == (match self {
                CpType::LapCounter => "Lap Counter"@,
                CpType::KeyCheckpoint => "Key Checkpoint"@,
                CpType::Checkpoint => "Checkpoint"@,
            }),
    {
        match self {
            Self::LapCounter => "Lap Counter",
            Self::KeyCheckpoint => "Key Checkpoint",
            Self::Checkpoint => "Checkpoint",
        }
    }
}

/// The shape of an area.
#[derive(Debug, Clone, Copy, PartialEq, Eq, Structural)]
pub enum Shape {
    Box,
    Cylinder,
    Unknown(u8),
}

/// The shape that a shape byte names: 0 a box, 1 a cylinder.
pub open spec fn shape_of(value: u8) -> Shape {
    if value == 0 {
        Shape::Box
    } else if value == 1 {
        Shape::Cylinder
    } else {
        Shape::Unknown(value)
    }
}

impl Shape {
    /// The shape that a shape byte names.
    pub fn from_u8(value: u8) -> (r: Self)
        ensures
            r == shape_of(value),
    {
        match value {
            0 => Self::Box,
            1 => Self::Cylinder,
            u => Self::Unknown(u),
        }
    }
}

/// Each POTI entry can contain a number of POTI entries/points.
#[derive(Debug, Clone, Copy, PartialEq, Eq, Structural)]
pub struct PotiPoint {
    pub position: Vec3,
    pub setting_1: u16,
    pub setting_2: u16,
}

/// The point stored at `offset`: a position and two settings, sixteen bytes.
pub open spec fn poti_point_at(data: Seq<u8>, offset: int) -> PotiPoint {
    PotiPoint {
        position: vec3_at(data, offset),
        setting_1: be_u16(data, offset + 0xC),
        setting_2: be_u16(data, offset + 0xE),
    }
}

/// The POTI (point information) section describes routes; these are routes for many things including cameras and objects.
pub struct Poti {
    pub num_points: u16,
    pub setting_1: u8,
    pub setting_2: u8,
    pub points: Vec<PotiPoint>,
}

impl Poti {
    /// The number of bytes that the route at `offset` takes: a four-byte head and
    /// sixteen bytes per point.
    pub open spec fn size_at(data: Seq<u8>, offset: int) -> int {
        4 + 16 * be_u16(data, offset)
    }

    /// Whether the route at `offset` can be read: its head and all its points lie
    /// inside `data`.
    pub open spec fn readable(data: Seq<u8>, offset: int) -> bool {
        within(data, offset, 4) && within(data, offset, Self::size_at(data, offset))
    }

    /// Whether the fields of `self` are those of the route stored at `offset`.
    pub open spec fn read_from(self, data: Seq<u8>, offset: int) -> bool {
        &&& self.num_points == be_u16(data, offset)
        &&& self.setting_1 == data[offset + 2]
        &&& self.setting_2 == data[offset + 3]
        &&& self.points@.len() == self.num_points
        &&& forall|j: int|
            0 <= j < self.num_points ==> #[trigger] self.points@[j] == poti_point_at(data, offset + 4 + 16 * j)
    }

    /// Whether a route can be read at `offset`, its size, and what it holds,
    /// depend only on the bytes from `offset` on.
    pub proof fn lemma_frame(d1: Seq<u8>, d2: Seq<u8>, offset: int)
        requires
            same_from(d1, d2, offset),
            0 <= offset,
        ensures
            Self::readable(d1, offset) == Self::readable(d2, offset),
            Self::readable(d1, offset) ==> Self::size_at(d1, offset) == Self::size_at(d2, offset),
            Self::readable(d1, offset) ==> forall|e: Self| #[trigger] e.read_from(d1, offset) == e.read_from(d2, offset),
    {
        lemma_same_from(d1, d2, offset);
        if Self::readable(d1, offset) {
            let n = be_u16(d1, offset);
            assert forall|j: int| 0 <= j < n implies #[trigger] poti_point_at(d1, offset + 4 + 16 * j) == poti_point_at(
                d2,
                offset + 4 + 16 * j,
            ) by {
                let x = offset + 4 + 16 * j;
                assert(vec3_at(d1, x) == vec3_at(d2, x));
                assert(be_u16(d1, x + 0xC) == be_u16(d2, x + 0xC));
                assert(be_u16(d1, x + 0xE) == be_u16(d2, x + 0xE));
            }
        }
    }

    /// Reads the route at `offset`, with the number of bytes it takes.
    pub fn parse(data: &[u8], offset: usize) -> (r: Result<(Self, usize), Error>)
        ensures
            Self::readable(data@, offset as int) ==> (r matches Ok((p, size)) && p.read_from(data@, offset as int)
                && size == Self::size_at(data@, offset as int)),
            !Self::readable(data@, offset as int) ==> r == Err::<(Poti, usize), Error>(Error::OutOfBounds),
    {
        if !fits(data, offset, 4) {
            return Err(Error::OutOfBounds);
        }
        let num_points = get_u16(data, offset);
        let setting_1 = get_u8(data, offset + 2);
        let setting_2 = get_u8(data, offset + 3);
        let total_size = 4 + (num_points as usize) * 0x10;
        if !fits(data, offset, total_size) {
            return Err(Error::OutOfBounds);
        }
        let mut points: Vec<PotiPoint> = Vec::with_capacity(num_points as usize);
        let mut point_offset = offset + 4;
        let mut j: u16 = 0;
        while j < num_points
            invariant
                j <= num_points,
                num_points == be_u16(data@, offset as int),
                offset + total_size <= data.len(),
                total_size == 4 + 16 * num_points,
                point_offset == offset + 4 + 16 * j,
                points@.len() == j,
                forall|k: int| 0 <= k < j ==> #[trigger] points@[k] == poti_point_at(data@, offset + 4 + 16 * k),
            decreases num_points - j,
        {
            let position = get_vec3(data, point_offset);
            let point_setting_1 = get_u16(data, point_offset + 0xC);
            let point_setting_2 = get_u16(data, point_offset + 0xE);
            points.push(PotiPoint { position, setting_1: point_setting_1, setting_2: point_setting_2 });
            point_offset = point_offset + 0x10;
            j = j + 1;
        }
        Ok((Poti { num_points, setting_1, setting_2, points }, total_size))
    }
}

/// The KTPT (kart point) section describes kart points; the starting position for racers.
pub struct Ktpt {
    pub position: Vec3,
    pub rotation: Vec3,
    pub player_index: i16,
    pub _padding: u16,
}

/// A kart point stores its position first, as three big-endian words at offsets
/// 0, 4 and 8, then its rotation as the three words at 0x0C, 0x10 and 0x14, then
/// its player index as the signed half-word at 0x18.
pub proof fn lemma_ktpt_layout(e: Ktpt, data: Seq<u8>, offset: int)
    requires
        e.read_from(data, offset),
    ensures
        e.position.x == be_u32(data, offset),
        e.position.y == be_u32(data, offset + 4),
        e.position.z == be_u32(data, offset + 8),
        e.rotation.x == be_u32(data, offset + 0x0C),
        e.rotation.y == be_u32(data, offset + 0x10),
        e.rotation.z == be_u32(data, offset + 0x14),
        e.player_index == be_u16(data, offset + 0x18) as i16,
{
}

impl KmpEntry for Ktpt {
    const SIZE: usize = 0x1C;

    open spec fn readable(data: Seq<u8>, offset: int) -> bool {
        within(data, offset, 0x1C)
    }

    open spec fn read_from(self, data: Seq<u8>, offset: int) -> bool {
        &&& self.position == vec3_at(data, offset)
        &&& self.rotation == vec3_at(data, offset + 0x0C)
        &&& self.player_index == be_u16(data, offset + 0x18) as i16
        &&& self._padding == be_u16(data, offset + 0x1A)
    }

    proof fn lemma_readable_inside(data: Seq<u8>, offset: int) {
    }

    proof fn lemma_fits_readable(data: Seq<u8>, offset: int) {
    }

    proof fn lemma_frame(d1: Seq<u8>, d2: Seq<u8>, offset: int) {
        lemma_same_from(d1, d2, offset);
    }

    fn parse(data: &[u8], offset: usize) -> (r: Result<Self, Error>) {
        if !fits(data, offset, 0x1C) {
            return Err(Error::OutOfBounds);
        }
        Ok(Ktpt {
            position: get_vec3(data, offset),
            rotation: get_vec3(data, offset + 0x0C),
            player_index: get_u16(data, offset + 0x18) as i16,
            _padding: get_u16(data, offset + 0x1A),
        })
    }
}

/// The ENPT (enemy point) section describes enemy points; the routes of CPU racers. The CPU racers attempt to follow the path described by each group of points (as determined by ENPH). More than 0xFF (255) entries will force a console freeze while loading the track.
///
/// `leniency` holds the bit pattern of a big-endian `f32`.
pub struct Enpt {
    pub position: Vec3,
    pub leniency: u32,
    pub setting_1: u16,
    pub setting_2: u8,
    pub setting_3: u8,
}

impl KmpEntry for Enpt {
    const SIZE: usize = 0x14;

    open spec fn readable(data: Seq<u8>, offset: int) -> bool {
        within(data, offset, 0x14)
    }

    open spec fn read_from(self, data: Seq<u8>, offset: int) -> bool {
        &&& self.position == vec3_at(data, offset)
        &&& self.leniency == be_u32(data, offset + 0x0C)
        &&& self.setting_1 == be_u16(data, offset + 0x10)
        &&& self.setting_2 == data[offset + 0x12]
        &&& self.setting_3 == data[offset + 0x13]
    }

    proof fn lemma_readable_inside(data: Seq<u8>, offset: int) {
    }

    proof fn lemma_fits_readable(data: Seq<u8>, offset: int) {
    }

    proof fn lemma_frame(d1: Seq<u8>, d2: Seq<u8>, offset: int) {
        lemma_same_from(d1, d2, offset);
    }

    fn parse(data: &[u8], offset: usize) -> (r: Result<Self, Error>) {
        if !fits(data, offset, 0x14) {
            return Err(Error::OutOfBounds);
        }
        Ok(Enpt {
            position: get_vec3(data, offset),
            leniency: get_u32(data, offset + 0x0C),
            setting_1: get_u16(data, offset + 0x10),
            setting_2: get_u8(data, offset + 0x12),
            setting_3: get_u8(data, offset + 0x13),
        })
    }
}

/// The ITPT (item point) section describes item points; the Red Shell and Bullet Bill routes. The items attempt to follow the path described by each group of points (as determined by ITPH). More than 0xFF (255) entries will force a console freeze while loading the track.
///
/// `bullet_control` holds the bit pattern of a big-endian `f32`.
pub struct Itpt {
    pub position: Vec3,
    pub bullet_control: u32,
    pub setting_1: u16,
    pub setting_2: u16,
}

impl KmpEntry for Itpt {
    const SIZE: usize = 0x14;

    open spec fn readable(data: Seq<u8>, offset: int) -> bool {
        within(data, offset, 0x14)
    }

    open spec fn read_from(self, data: Seq<u8>, offset: int) -> bool {
        &&& self.position == vec3_at(data, offset)
        &&& self.bullet_control == be_u32(data, offset + 0x0C)
        &&& self.setting_1 == be_u16(data, offset + 0x10)
        &&& self.setting_2 == be_u16(data, offset + 0x12)
    }

    proof fn lemma_readable_inside(data: Seq<u8>, offset: int) {
    }

    proof fn lemma_fits_readable(data: Seq<u8>, offset: int) {
    }

    proof fn lemma_frame(d1: Seq<u8>, d2: Seq<u8>, offset: int) {
        lemma_same_from(d1, d2, offset);
    }

    fn parse(data: &[u8], offset: usize) -> (r: Result<Self, Error>) {
        if !fits(data, offset, 0x14) {
            return Err(Error::OutOfBounds);
        }
        Ok(Itpt {
            position: get_vec3(data, offset),
            bullet_control: get_u32(data, offset + 0x0C),
            setting_1: get_u16(data, offset + 0x10),
            setting_2: get_u16(data, offset + 0x12),
        })
    }
}

/// The CKPT (checkpoint) section describes checkpoints; the routes players must follow to count laps. The racers must follow the path described by each group of points (as determined by CKPH). More than 0xFF (255) entries are possible if the last group begins at index <= 254. This is not recommended because Lakitu will always appear on-screen.
pub struct Ckpt {
    pub cp_left: Vec2,
    pub cp_right: Vec2,
    pub respawn_idx: u8,
    pub cp_type: CpType,
    pub prev_cp: u8,
    pub next_cp: u8,
}

impl KmpEntry for Ckpt {
    const SIZE: usize = 0x14;

    open spec fn readable(data: Seq<u8>, offset: int) -> bool {
        within(data, offset, 0x14)
    }

    open spec fn read_from(self, data: Seq<u8>, offset: int) -> bool {
        &&& self.cp_left == vec2_at(data, offset)
        &&& self.cp_right == vec2_at(data, offset + 0x08)
        &&& self.respawn_idx == data[offset + 0x10]
        &&& self.cp_type == cp_type_of(data[offset + 0x11] as i8)
        &&& self.prev_cp == data[offset + 0x12]
        &&& self.next_cp == data[offset + 0x13]
    }

    proof fn lemma_readable_inside(data: Seq<u8>, offset: int) {
    }

    proof fn lemma_fits_readable(data: Seq<u8>, offset: int) {
    }

    proof fn lemma_frame(d1: Seq<u8>, d2: Seq<u8>, offset: int) {
        lemma_same_from(d1, d2, offset);
    }

    fn parse(data: &[u8], offset: usize) -> (r: Result<Self, Error>) {
        if !fits(data, offset, 0x14) {
            return Err(Error::OutOfBounds);
        }
        Ok(Ckpt {
            cp_left: get_vec2(data, offset),
            cp_right: get_vec2(data, offset + 0x08),
            respawn_idx: get_u8(data, offset + 0x10),
            cp_type: CpType::from_i8(get_u8(data, offset + 0x11) as i8),
            prev_cp: get_u8(data, offset + 0x12),
            next_cp: get_u8(data, offset + 0x13),
        })
    }
}

/// The GOBJ (geo object) section describes objects; things such as item boxes, pipes and also controlled objects such as sound triggers.
pub struct Gobj {
    pub id: u16,
    pub padding: u16,
    pub position: Vec3,
    pub rotation: Vec3,
    pub scale: Vec3,
    pub route: u16,
    pub settings: [u16; 8],
    pub presence_flags: u16,
}

impl KmpEntry for Gobj {
    const SIZE: usize = 0x3C;

    open spec fn readable(data: Seq<u8>, offset: int) -> bool {
        within(data, offset, 0x32)
    }

    open spec fn read_from(self, data: Seq<u8>, offset: int) -> bool {
        &&& self.id == be_u16(data, offset)
        &&& self.padding == be_u16(data, offset + 0x02)
        &&& self.position == vec3_at(data, offset + 0x04)
        &&& self.rotation == vec3_at(data, offset + 0x0C)
        &&& self.scale == vec3_at(data, offset + 0x14)
        &&& self.route == be_u16(data, offset + 0x1C)
        &&& self.settings@ == seq![be_u16(data, offset + 0x20), be_u16(data, offset + 0x22), be_u16(data, offset + 0x24), be_u16(data, offset + 0x26), be_u16(data, offset + 0x28), be_u16(data, offset + 0x2A), be_u16(data, offset + 0x2C), be_u16(data, offset + 0x2E)]
        &&& self.presence_flags == be_u16(data, offset + 0x30)
    }

    proof fn lemma_readable_inside(data: Seq<u8>, offset: int) {
    }

    proof fn lemma_fits_readable(data: Seq<u8>, offset: int) {
    }

    proof fn lemma_frame(d1: Seq<u8>, d2: Seq<u8>, offset: int) {
        lemma_same_from(d1, d2, offset);
    }

    fn parse(data: &[u8], offset: usize) -> (r: Result<Self, Error>) {
        if !fits(data, offset, 0x32) {
            return Err(Error::OutOfBounds);
        }
        let settings: [u16; 8] = [
            get_u16(data, offset + 0x20),
            get_u16(data, offset + 0x22),
            get_u16(data, offset + 0x24),
            get_u16(data, offset + 0x26),
            get_u16(data, offset + 0x28),
            get_u16(data, offset + 0x2A),
            get_u16(data, offset + 0x2C),
            get_u16(data, offset + 0x2E),
        ];
        assert(settings@ =~= seq![be_u16(data@, offset + 0x20), be_u16(data@, offset + 0x22), be_u16(data@, offset + 0x24), be_u16(data@, offset + 0x26), be_u16(data@, offset + 0x28), be_u16(data@, offset + 0x2A), be_u16(data@, offset + 0x2C), be_u16(data@, offset + 0x2E)]);
        Ok(Gobj {
            id: get_u16(data, offset),
            padding: get_u16(data, offset + 0x02),
            position: get_vec3(data, offset + 0x04),
            rotation: get_vec3(data, offset + 0x0C),
            scale: get_vec3(data, offset + 0x14),
            route: get_u16(data, offset + 0x1C),
            settings,
            presence_flags: get_u16(data, offset + 0x30),
        })
    }
}

/// The AREA (area) section describes areas; used to determine which camera to use, for example. The size is 5000 for both the positive and negative sides of the X and Z-axes, and 10000 for only the positive side of the Y-axis.
pub struct Area {
    pub shape: Shape,
    pub kind: u8,
    pub came_index: u8,
    pub priority: u8,
    pub position: Vec3,
    pub rotation: Vec3,
    pub scale: Vec3,
    pub setting_1: u16,
    pub setting_2: u16,
    pub route: u8,
    pub enpt_id: u8,
    pub _padding: u16,
}

impl KmpEntry for Area {
    const SIZE: usize = 0x30;

    open spec fn readable(data: Seq<u8>, offset: int) -> bool {
        within(data, offset, 0x24)
    }

    open spec fn read_from(self, data: Seq<u8>, offset: int) -> bool {
        &&& self.shape == shape_of(data[offset])
        &&& self.kind == data[offset + 0x01]
        &&& self.came_index == data[offset + 0x02]
        &&& self.priority == data[offset + 0x03]
        &&& self.position == vec3_at(data, offset + 0x04)
        &&& self.rotation == vec3_at(data, offset + 0x0C)
        &&& self.scale == vec3_at(data, offset + 0x14)
        &&& self.setting_1 == be_u16(data, offset + 0x1C)
        &&& self.setting_2 == be_u16(data, offset + 0x1E)
        &&& self.route == data[offset + 0x20]
        &&& self.enpt_id == data[offset + 0x21]
        &&& self._padding == be_u16(data, offset + 0x22)
    }

    proof fn lemma_readable_inside(data: Seq<u8>, offset: int) {
    }

    proof fn lemma_fits_readable(data: Seq<u8>, offset: int) {
    }

    proof fn lemma_frame(d1: Seq<u8>, d2: Seq<u8>, offset: int) {
        lemma_same_from(d1, d2, offset);
    }

    fn parse(data: &[u8], offset: usize) -> (r: Result<Self, Error>) {
        if !fits(data, offset, 0x24) {
            return Err(Error::OutOfBounds);
        }
        Ok(Area {
            shape: Shape::from_u8(get_u8(data, offset)),
            kind: get_u8(data, offset + 0x01),
            came_index: get_u8(data, offset + 0x02),
            priority: get_u8(data, offset + 0x03),
            position: get_vec3(data, offset + 0x04),
            rotation: get_vec3(data, offset + 0x0C),
            scale: get_vec3(data, offset + 0x14),
            setting_1: get_u16(data, offset + 0x1C),
            setting_2: get_u16(data, offset + 0x1E),
            route: get_u8(data, offset + 0x20),
            enpt_id: get_u8(data, offset + 0x21),
            _padding: get_u16(data, offset + 0x22),
        })
    }
}

/// The CAME (camera) section describes cameras; used to determine cameras for starting routes, Time Trial pans, etc.
///
/// `zoom_start`, `zoom_end`, `time` hold the bit pattern of a big-endian `f32`.
pub struct Came {
    pub kind: u8,
    pub next_index: u8,
    pub shake: u8,
    pub route: u8,
    pub point_velocity: u16,
    pub zoom_velocity: u16,
    pub view_velocity: u16,
    pub start: u8,
    pub movie: u8,
    pub position: Vec3,
    pub rotation: Vec3,
    pub zoom_start: u32,
    pub zoom_end: u32,
    pub view_start: Vec3,
    pub view_end: Vec3,
    pub time: u32,
}

impl KmpEntry for Came {
    const SIZE: usize = 0x48;

    open spec fn readable(data: Seq<u8>, offset: int) -> bool {
        within(data, offset, 0x48)
    }

    open spec fn read_from(self, data: Seq<u8>, offset: int) -> bool {
        &&& self.kind == data[offset]
        &&& self.next_index == data[offset + 0x01]
        &&& self.shake == data[offset + 0x02]
        &&& self.route == data[offset + 0x03]
        &&& self.point_velocity == be_u16(data, offset + 0x04)
        &&& self.zoom_velocity == be_u16(data, offset + 0x06)
        &&& self.view_velocity == be_u16(data, offset + 0x08)
        &&& self.start == data[offset + 0x0A]
        &&& self.movie == data[offset + 0x0B]
        &&& self.position == vec3_at(data, offset + 0x0C)
        &&& self.rotation == vec3_at(data, offset + 0x18)
        &&& self.zoom_start == be_u32(data, offset + 0x24)
        &&& self.zoom_end == be_u32(data, offset + 0x28)
        &&& self.view_start == vec3_at(data, offset + 0x2C)
        &&& self.view_end == vec3_at(data, offset + 0x38)
        &&& self.time == be_u32(data, offset + 0x44)
    }

    proof fn lemma_readable_inside(data: Seq<u8>, offset: int) {
    }

    proof fn lemma_fits_readable(data: Seq<u8>, offset: int) {
    }

    proof fn lemma_frame(d1: Seq<u8>, d2: Seq<u8>, offset: int) {
        lemma_same_from(d1, d2, offset);
    }

    fn parse(data: &[u8], offset: usize) -> (r: Result<Self, Error>) {
        if !fits(data, offset, 0x48) {
            return Err(Error::OutOfBounds);
        }
        Ok(Came {
            kind: get_u8(data, offset),
            next_index: get_u8(data, offset + 0x01),
            shake: get_u8(data, offset + 0x02),
            route: get_u8(data, offset + 0x03),
            point_velocity: get_u16(data, offset + 0x04),
            zoom_velocity: get_u16(data, offset + 0x06),
            view_velocity: get_u16(data, offset + 0x08),
            start: get_u8(data, offset + 0x0A),
            movie: get_u8(data, offset + 0x0B),
            position: get_vec3(data, offset + 0x0C),
            rotation: get_vec3(data, offset + 0x18),
            zoom_start: get_u32(data, offset + 0x24),
            zoom_end: get_u32(data, offset + 0x28),
            view_start: get_vec3(data, offset + 0x2C),
            view_end: get_vec3(data, offset + 0x38),
            time: get_u32(data, offset + 0x44),
        })
    }
}

/// The JGPT (jugem point) section describes "Jugem" points; the respawn positions. The index is relevant for the link of the CKPT section.
pub struct Jgpt {
    pub position: Vec3,
    pub rotation: Vec3,
    pub respawn_id: u16,
    pub extra_data: i16,
}

impl KmpEntry for Jgpt {
    const SIZE: usize = 0x1C;

    open spec fn readable(data: Seq<u8>, offset: int) -> bool {
        within(data, offset, 0x1C)
    }

    open spec fn read_from(self, data: Seq<u8>, offset: int) -> bool {
        &&& self.position == vec3_at(data, offset)
        &&& self.rotation == vec3_at(data, offset + 0x0C)
        &&& self.respawn_id == be_u16(data, offset + 0x18)
        &&& self.extra_data == be_u16(data, offset + 0x1A) as i16
    }

    proof fn lemma_readable_inside(data: Seq<u8>, offset: int) {
    }

    proof fn lemma_fits_readable(data: Seq<u8>, offset: int) {
    }

    proof fn lemma_frame(d1: Seq<u8>, d2: Seq<u8>, offset: int) {
        lemma_same_from(d1, d2, offset);
    }

    fn parse(data: &[u8], offset: usize) -> (r: Result<Self, Error>) {
        if !fits(data, offset, 0x1C) {
            return Err(Error::OutOfBounds);
        }
        Ok(Jgpt {
            position: get_vec3(data, offset),
            rotation: get_vec3(data, offset + 0x0C),
            respawn_id: get_u16(data, offset + 0x18),
            extra_data: get_u16(data, offset + 0x1A) as i16,
        })
    }
}

/// The CNPT (cannon point) section describes cannon points; the cannon target positions.
pub struct Cnpt {
    pub destination: Vec3,
    pub angle: Vec3,
    pub id: u16,
    pub shoot_effect: i16,
}

impl KmpEntry for Cnpt {
    const SIZE: usize = 0x1C;

    open spec fn readable(data: Seq<u8>, offset: int) -> bool {
        within(data, offset, 0x1C)
    }

    open spec fn read_from(self, data: Seq<u8>, offset: int) -> bool {
        &&& self.destination == vec3_at(data, offset)
        &&& self.angle == vec3_at(data, offset + 0x0C)
        &&& self.id == be_u16(data, offset + 0x18)
        &&& self.shoot_effect == be_u16(data, offset + 0x1A) as i16
    }

    proof fn lemma_readable_inside(data: Seq<u8>, offset: int) {
    }

    proof fn lemma_fits_readable(data: Seq<u8>, offset: int) {
    }

    proof fn lemma_frame(d1: Seq<u8>, d2: Seq<u8>, offset: int) {
        lemma_same_from(d1, d2, offset);
    }

    fn parse(data: &[u8], offset: usize) -> (r: Result<Self, Error>) {
        if !fits(data, offset, 0x1C) {
            return Err(Error::OutOfBounds);
        }
        Ok(Cnpt {
            destination: get_vec3(data, offset),
            angle: get_vec3(data, offset + 0x0C),
            id: get_u16(data, offset + 0x18),
            shoot_effect: get_u16(data, offset + 0x1A) as i16,
        })
    }
}

/// The MSPT (mission success point) section describes end positions. After battles and tournaments have ended, the players are placed on this point(s).
pub struct Mspt {
    pub position: Vec3,
    pub rotation: Vec3,
    pub entry_id: u16,
    pub _unknown: u16,
}

impl KmpEntry for Mspt {
    const SIZE: usize = 0x1C;

    open spec fn readable(data: Seq<u8>, offset: int) -> bool {
        within(data, offset, 0x1C)
    }

    open spec fn read_from(self, data: Seq<u8>, offset: int) -> bool {
        &&& self.position == vec3_at(data, offset)
        &&& self.rotation == vec3_at(data, offset + 0x0C)
        &&& self.entry_id == be_u16(data, offset + 0x18)
        &&& self._unknown == be_u16(data, offset + 0x1A)
    }

    proof fn lemma_readable_inside(data: Seq<u8>, offset: int) {
    }

    proof fn lemma_fits_readable(data: Seq<u8>, offset: int) {
    }

    proof fn lemma_frame(d1: Seq<u8>, d2: Seq<u8>, offset: int) {
        lemma_same_from(d1, d2, offset);
    }

    fn parse(data: &[u8], offset: usize) -> (r: Result<Self, Error>) {
        if !fits(data, offset, 0x1C) {
            return Err(Error::OutOfBounds);
        }
        Ok(Mspt {
            position: get_vec3(data, offset),
            rotation: get_vec3(data, offset + 0x0C),
            entry_id: get_u16(data, offset + 0x18),
            _unknown: get_u16(data, offset + 0x1A),
        })
    }
}

/// The STGI (stage info) section describes stage information; information about a track.
pub struct Stgi {
    pub lap_count: u8,
    pub pole_pos: u8,
    pub driver_distance: u8,
    pub lens_flare_flashing: u8,
    pub flare_color: [u8; 4],
    pub flare_transparency: u8,
    pub padding_1: u16,
    pub padding_2: u8,
}

impl KmpEntry for Stgi {
    const SIZE: usize = 0x0C;

    open spec fn readable(data: Seq<u8>, offset: int) -> bool {
        within(data, offset, 0x0C)
    }

    open spec fn read_from(self, data: Seq<u8>, offset: int) -> bool {
        &&& self.lap_count == data[offset]
        &&& self.pole_pos == data[offset + 0x01]
        &&& self.driver_distance == data[offset + 0x02]
        &&& self.lens_flare_flashing == data[offset + 0x03]
        &&& self.flare_color@ == data.subrange(offset + 0x04, offset + 0x04 + 4)
        &&& self.flare_transparency == data[offset + 0x08]
        &&& self.padding_1 == be_u16(data, offset + 0x09)
        &&& self.padding_2 == data[offset + 0x0B]
    }

    proof fn lemma_readable_inside(data: Seq<u8>, offset: int) {
    }

    proof fn lemma_fits_readable(data: Seq<u8>, offset: int) {
    }

    proof fn lemma_frame(d1: Seq<u8>, d2: Seq<u8>, offset: int) {
        lemma_same_from(d1, d2, offset);
    }

    fn parse(data: &[u8], offset: usize) -> (r: Result<Self, Error>) {
        if !fits(data, offset, 0x0C) {
            return Err(Error::OutOfBounds);
        }
        Ok(Stgi {
            lap_count: get_u8(data, offset),
            pole_pos: get_u8(data, offset + 0x01),
            driver_distance: get_u8(data, offset + 0x02),
            lens_flare_flashing: get_u8(data, offset + 0x03),
            flare_color: get_array(data, offset + 0x04),
            flare_transparency: get_u8(data, offset + 0x08),
            padding_1: get_u16(data, offset + 0x09),
            padding_2: get_u8(data, offset + 0x0B),
        })
    }
}
/// A path group stores its start and length bytes at 0 and 1, its six previous and six next group indices at 2 and 8, and its link half-word at 0x0E.
pub proof fn lemma_path_group_layout<T>(e: PathGroup<T>, data: Seq<u8>, offset: int)
    requires
        e.read_from(data, offset),
    ensures
        e.start == data[offset],
        e.group_length == data[offset + 0x01],
        e.prev_group@ == data.subrange(offset + 0x02, offset + 0x08),
        e.next_group@ == data.subrange(offset + 0x08, offset + 0x0E),
        e.group_link == be_u16(data, offset + 0x0E),
{
}

/// An enemy point stores its position as three big-endian words at 0, 4 and 8, then its leniency word at 0x0C and its settings at 0x10, 0x12 and 0x13.
pub proof fn lemma_enpt_layout(e: Enpt, data: Seq<u8>, offset: int)
    requires
        e.read_from(data, offset),
    ensures
        e.position.x == be_u32(data, offset),
        e.position.y == be_u32(data, offset + 4),
        e.position.z == be_u32(data, offset + 8),
        e.leniency == be_u32(data, offset + 0x0C),
        e.setting_1 == be_u16(data, offset + 0x10),
        e.setting_2 == data[offset + 0x12],
        e.setting_3 == data[offset + 0x13],
{
}

/// An item point stores its position as three big-endian words at 0, 4 and 8, then its bullet-control word at 0x0C and its settings at 0x10 and 0x12.
pub proof fn lemma_itpt_layout(e: Itpt, data: Seq<u8>, offset: int)
    requires
        e.read_from(data, offset),
    ensures
        e.position.x == be_u32(data, offset),
        e.position.y == be_u32(data, offset + 4),
        e.position.z == be_u32(data, offset + 8),
        e.bullet_control == be_u32(data, offset + 0x0C),
        e.setting_1 == be_u16(data, offset + 0x10),
        e.setting_2 == be_u16(data, offset + 0x12),
{
}

/// A checkpoint stores its left end as two big-endian words at 0 and 4, its right end at 8 and 0x0C, then its respawn index, type, previous and next checkpoint bytes at 0x10 to 0x13.
pub proof fn lemma_ckpt_layout(e: Ckpt, data: Seq<u8>, offset: int)
    requires
        e.read_from(data, offset),
    ensures
        e.cp_left.x == be_u32(data, offset),
        e.cp_left.y == be_u32(data, offset + 4),
        e.cp_right.x == be_u32(data, offset + 0x08),
        e.cp_right.y == be_u32(data, offset + 0x08 + 4),
        e.respawn_idx == data[offset + 0x10],
        e.cp_type == cp_type_of(data[offset + 0x11] as i8),
        e.prev_cp == data[offset + 0x12],
        e.next_cp == data[offset + 0x13],
{
}

/// An object stores its id and padding half-words at 0 and 2, then its position, rotation and scale as three big-endian words each from 4, 0x0C and 0x14, its route at 0x1C, eight settings from 0x20 and its presence flags at 0x30.
pub proof fn lemma_gobj_layout(e: Gobj, data: Seq<u8>, offset: int)
    requires
        e.read_from(data, offset),
    ensures
        e.id == be_u16(data, offset),
        e.padding == be_u16(data, offset + 0x02),
        e.position.x == be_u32(data, offset + 0x04),
        e.position.y == be_u32(data, offset + 0x04 + 4),
        e.position.z == be_u32(data, offset + 0x04 + 8),
        e.rotation.x == be_u32(data, offset + 0x0C),
        e.rotation.y == be_u32(data, offset + 0x0C + 4),
        e.rotation.z == be_u32(data, offset + 0x0C + 8),
        e.scale.x == be_u32(data, offset + 0x14),
        e.scale.y == be_u32(data, offset + 0x14 + 4),
        e.scale.z == be_u32(data, offset + 0x14 + 8),
        e.route == be_u16(data, offset + 0x1C),
        e.settings@ == seq![be_u16(data, offset + 0x20), be_u16(data, offset + 0x22), be_u16(data, offset + 0x24), be_u16(data, offset + 0x26), be_u16(data, offset + 0x28), be_u16(data, offset + 0x2A), be_u16(data, offset + 0x2C), be_u16(data, offset + 0x2E)],
        e.presence_flags == be_u16(data, offset + 0x30),
{
}

/// An area stores its shape, kind, camera index and priority bytes at 0 to 3, then its position, rotation and scale as three big-endian words each from 4, 0x0C and 0x14, its settings at 0x1C and 0x1E, its route and enemy point bytes at 0x20 and 0x21.
pub proof fn lemma_area_layout(e: Area, data: Seq<u8>, offset: int)
    requires
        e.read_from(data, offset),
    ensures
        e.shape == shape_of(data[offset]),
        e.kind == data[offset + 0x01],
        e.came_index == data[offset + 0x02],
        e.priority == data[offset + 0x03],
        e.position.x == be_u32(data, offset + 0x04),
        e.position.y == be_u32(data, offset + 0x04 + 4),
        e.position.z == be_u32(data, offset + 0x04 + 8),
        e.rotation.x == be_u32(data, offset + 0x0C),
        e.rotation.y == be_u32(data, offset + 0x0C + 4),
        e.rotation.z == be_u32(data, offset + 0x0C + 8),
        e.scale.x == be_u32(data, offset + 0x14),
        e.scale.y == be_u32(data, offset + 0x14 + 4),
        e.scale.z == be_u32(data, offset + 0x14 + 8),
        e.setting_1 == be_u16(data, offset + 0x1C),
        e.setting_2 == be_u16(data, offset + 0x1E),
        e.route == data[offset + 0x20],
        e.enpt_id == data[offset + 0x21],
        e._padding == be_u16(data, offset + 0x22),
{
}

/// A camera stores its kind, next index, shake and route bytes at 0 to 3, three velocities from 4, its start and movie bytes at 0x0A and 0x0B, then its position and rotation as three big-endian words each from 0x0C and 0x18, its zoom words at 0x24 and 0x28, its view start and end from 0x2C and 0x38, and its time at 0x44.
pub proof fn lemma_came_layout(e: Came, data: Seq<u8>, offset: int)
    requires
        e.read_from(data, offset),
    ensures
        e.kind == data[offset],
        e.next_index == data[offset + 0x01],
        e.shake == data[offset + 0x02],
        e.route == data[offset + 0x03],
        e.point_velocity == be_u16(data, offset + 0x04),
        e.zoom_velocity == be_u16(data, offset + 0x06),
        e.view_velocity == be_u16(data, offset + 0x08),
        e.start == data[offset + 0x0A],
        e.movie == data[offset + 0x0B],
        e.position.x == be_u32(data, offset + 0x0C),
        e.position.y == be_u32(data, offset + 0x0C + 4),
        e.position.z == be_u32(data, offset + 0x0C + 8),
        e.rotation.x == be_u32(data, offset + 0x18),
        e.rotation.y == be_u32(data, offset + 0x18 + 4),
        e.rotation.z == be_u32(data, offset + 0x18 + 8),
        e.zoom_start == be_u32(data, offset + 0x24),
        e.zoom_end == be_u32(data, offset + 0x28),
        e.view_start.x == be_u32(data, offset + 0x2C),
        e.view_start.y == be_u32(data, offset + 0x2C + 4),
        e.view_start.z == be_u32(data, offset + 0x2C + 8),
        e.view_end.x == be_u32(data, offset + 0x38),
        e.view_end.y == be_u32(data, offset + 0x38 + 4),
        e.view_end.z == be_u32(data, offset + 0x38 + 8),
        e.time == be_u32(data, offset + 0x44),
{
}

/// A respawn point stores its position as three big-endian words at 0, 4 and 8, its rotation at 0x0C, 0x10 and 0x14, then its respawn id and extra half-words at 0x18 and 0x1A.
pub proof fn lemma_jgpt_layout(e: Jgpt, data: Seq<u8>, offset: int)
    requires
        e.read_from(data, offset),
    ensures
        e.position.x == be_u32(data, offset),
        e.position.y == be_u32(data, offset + 4),
        e.position.z == be_u32(data, offset + 8),
        e.rotation.x == be_u32(data, offset + 0x0C),
        e.rotation.y == be_u32(data, offset + 0x0C + 4),
        e.rotation.z == be_u32(data, offset + 0x0C + 8),
        e.respawn_id == be_u16(data, offset + 0x18),
        e.extra_data == be_u16(data, offset + 0x1A) as i16,
{
}

/// A cannon point stores its destination as three big-endian words at 0, 4 and 8, its angle at 0x0C, 0x10 and 0x14, then its id and shoot effect half-words at 0x18 and 0x1A.
pub proof fn lemma_cnpt_layout(e: Cnpt, data: Seq<u8>, offset: int)
    requires
        e.read_from(data, offset),
    ensures
        e.destination.x == be_u32(data, offset),
        e.destination.y == be_u32(data, offset + 4),
        e.destination.z == be_u32(data, offset + 8),
        e.angle.x == be_u32(data, offset + 0x0C),
        e.angle.y == be_u32(data, offset + 0x0C + 4),
        e.angle.z == be_u32(data, offset + 0x0C + 8),
        e.id == be_u16(data, offset + 0x18),
        e.shoot_effect == be_u16(data, offset + 0x1A) as i16,
{
}

/// An end position stores its position as three big-endian words at 0, 4 and 8, its rotation at 0x0C, 0x10 and 0x14, then its entry id half-word at 0x18.
pub proof fn lemma_mspt_layout(e: Mspt, data: Seq<u8>, offset: int)
    requires
        e.read_from(data, offset),
    ensures
        e.position.x == be_u32(data, offset),
        e.position.y == be_u32(data, offset + 4),
        e.position.z == be_u32(data, offset + 8),
        e.rotation.x == be_u32(data, offset + 0x0C),
        e.rotation.y == be_u32(data, offset + 0x0C + 4),
        e.rotation.z == be_u32(data, offset + 0x0C + 8),
        e.entry_id == be_u16(data, offset + 0x18),
        e._unknown == be_u16(data, offset + 0x1A),
{
}

/// Stage information stores its lap count, pole position, driver distance and lens-flare bytes at 0 to 3, the four flare colour bytes from 4, the flare transparency at 8, then the rest of the speed factor.
pub proof fn lemma_stgi_layout(e: Stgi, data: Seq<u8>, offset: int)
    requires
        e.read_from(data, offset),
    ensures
        e.lap_count == data[offset],
        e.pole_pos == data[offset + 0x01],
        e.driver_distance == data[offset + 0x02],
        e.lens_flare_flashing == data[offset + 0x03],
        e.flare_color@ == data.subrange(offset + 0x04, offset + 0x04 + 4),
        e.flare_transparency == data[offset + 0x08],
        e.padding_1 == be_u16(data, offset + 0x09),
        e.padding_2 == data[offset + 0x0B],
{
}

/// A checkpoint type byte of 0 marks the lap counter, -1 an ordinary checkpoint,
/// and every other value a key checkpoint.
pub proof fn lemma_checkpoint_kinds(v: i8)
    ensures
        (cp_type_of(v) == CpType::LapCounter) == (v == 0),
        (cp_type_of(v) == CpType::Checkpoint) == (v == -1),
        (cp_type_of(v) == CpType::KeyCheckpoint) == (v != 0 && v != -1),
{
}

/// An area shape byte of 0 is a box, 1 a cylinder, and any other value is kept
/// as an unknown shape.
pub proof fn lemma_area_shapes(v: u8)
    ensures
        (shape_of(v) == Shape::Box) == (v == 0),
        (shape_of(v) == Shape::Cylinder) == (v == 1),
        v > 1 ==> shape_of(v) == Shape::Unknown(v),
{
}

} // verus!
