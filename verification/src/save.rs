//! The in-memory representation of a save file's contents.

use crate::text::string_push;
use vstd::prelude::*;

verus! {

/// A single brick in a save file.
///
/// `asset_name_index`, `material_index`, `owner_index` and the `Palette`
/// variant of `color` point into the lookup tables of the save they belong to.
///
/// `size` is used for procedural bricks. Bricks of a fixed size leave it at
/// `(0, 0, 0)`, which makes the file smaller.
#[derive(Debug, Clone, Copy, PartialEq, Eq)]
pub struct Brick {
    pub asset_name_index: u32,
    pub size: (u32, u32, u32),
    pub position: (i32, i32, i32),
    pub direction: Direction,
    pub rotation: Rotation,
    pub collision: bool,
    pub visibility: bool,
    pub material_index: u32,
    pub color: ColorMode,
    pub owner_index: Option<u32>,
}

/// The axis and sign a brick faces.
#[derive(Debug, Clone, Copy, PartialEq, Eq, Hash, Structural)]
pub enum Direction {
    XPositive,
    XNegative,
    YPositive,
    YNegative,
    ZPositive,
    ZNegative,
}

/// The quarter turns of a brick around the axis it faces.
#[derive(Debug, Clone, Copy, PartialEq, Eq, PartialOrd, Ord, Hash, Structural)]
pub enum Rotation {
    Deg0,
    Deg90,
    Deg180,
    Deg270,
}

impl Direction {
    /// The number that stands for this direction in a packed orientation.
    pub open spec fn index(self) -> nat {
        match self {
            Direction::XPositive => 0,
            Direction::XNegative => 1,
            Direction::YPositive => 2,
            Direction::YNegative => 3,
            Direction::ZPositive => 4,
            Direction::ZNegative => 5,
        }
    }

    /// The direction that `index` stands for, taken modulo six.
    pub open spec fn of_index(index: nat) -> Direction {
        let i = index % 6;
        if i == 0 {
            Direction::XPositive
        } else if i == 1 {
            Direction::XNegative
        } else if i == 2 {
            Direction::YPositive
        } else if i == 3 {
            Direction::YNegative
        } else if i == 4 {
            Direction::ZPositive
        } else {
            Direction::ZNegative
        }
    }

    /// The number that stands for this direction in a packed orientation.
    pub fn to_u8(self) -> (n: u8)
        ensures
            n == self.index(),
    {
        match self {
            Direction::XPositive => 0,
            Direction::XNegative => 1,
            Direction::YPositive => 2,
            Direction::YNegative => 3,
            Direction::ZPositive => 4,
            Direction::ZNegative => 5,
        }
    }

    /// The direction numbered `n`, if there is one.
    pub fn from_u8(n: u8) -> (d: Option<Direction>)
        ensures
            n < 6 ==> d == Some(Direction::of_index(n as nat)),
            n >= 6 ==> d is None,
    {
        match n {
            0 => Some(Direction::XPositive),
            1 => Some(Direction::XNegative),
            2 => Some(Direction::YPositive),
            3 => Some(Direction::YNegative),
            4 => Some(Direction::ZPositive),
            5 => Some(Direction::ZNegative),
            _ => None,
        }
    }
}

impl Rotation {
    /// The number of quarter turns.
    pub open spec fn index(self) -> nat {
        match self {
            Rotation::Deg0 => 0,
            Rotation::Deg90 => 1,
            Rotation::Deg180 => 2,
            Rotation::Deg270 => 3,
        }
    }

    /// The rotation of `index` quarter turns, taken modulo four.
    pub open spec fn of_index(index: nat) -> Rotation {
        let i = index % 4;
        if i == 0 {
            Rotation::Deg0
        } else if i == 1 {
            Rotation::Deg90
        } else if i == 2 {
            Rotation::Deg180
        } else {
            Rotation::Deg270
        }
    }

    /// The number of quarter turns.
    pub fn to_u8(self) -> (n: u8)
        ensures
            n == self.index(),
    {
        match self {
            Rotation::Deg0 => 0,
            Rotation::Deg90 => 1,
            Rotation::Deg180 => 2,
            Rotation::Deg270 => 3,
        }
    }

    /// The rotation of `n` quarter turns, if `n` is below four.
    pub fn from_u8(n: u8) -> (r: Option<Rotation>)
        ensures
            n < 4 ==> r == Some(Rotation::of_index(n as nat)),
            n >= 4 ==> r is None,
    {
        match n {
            0 => Some(Rotation::Deg0),
            1 => Some(Rotation::Deg90),
            2 => Some(Rotation::Deg180),
            3 => Some(Rotation::Deg270),
            _ => None,
        }
    }
}

/// The packed orientation of a direction and a rotation: the direction in the
/// bits above the two that hold the rotation.
pub open spec fn orientation_of(direction: Direction, rotation: Rotation) -> nat {
    direction.index() * 4 + rotation.index()
}

/// Combines a direction and a rotation into their packed orientation.
pub fn combine_orientation(direction: Direction, rotation: Rotation) -> (orientation: u8)
    ensures
        orientation == orientation_of(direction, rotation),
        orientation < 24,
{
    direction.to_u8() * 4 + rotation.to_u8()
}

/// Splits a packed orientation into its direction and rotation. The direction
/// is taken modulo six, so every byte has a meaning.
pub fn split_orientation(orientation: u8) -> (parts: (Direction, Rotation))
    ensures
        parts.0 == Direction::of_index((orientation / 4) as nat),
        parts.1 == Rotation::of_index(orientation as nat),
{
    let direction = match (orientation / 4) % 6 {
        0 => Direction::XPositive,
        1 => Direction::XNegative,
        2 => Direction::YPositive,
        3 => Direction::YNegative,
        4 => Direction::ZPositive,
        _ => Direction::ZNegative,
    };
    let rotation = match orientation % 4 {
        0 => Rotation::Deg0,
        1 => Rotation::Deg90,
        2 => Rotation::Deg180,
        _ => Rotation::Deg270,
    };
    (direction, rotation)
}

/// Splitting undoes combining, and a combined orientation is below 24.
pub proof fn lemma_orientation_bijection(direction: Direction, rotation: Rotation)
    ensures
        orientation_of(direction, rotation) < 24,
        Direction::of_index(orientation_of(direction, rotation) / 4) == direction,
        Rotation::of_index(orientation_of(direction, rotation)) == rotation,
{
}

/// How a brick is colored.
#[derive(Debug, Clone, Copy, PartialEq, Eq)]
pub enum ColorMode {
    /// A color from the color lookup table.
    Palette(u32),
    /// A custom color.
    Custom(Color),
}

/// An RGBA color, held as one 32-bit number with blue in the lowest byte,
/// then green, red and alpha.
#[derive(Debug, Clone, Copy, PartialEq, Eq, Hash, Structural)]
pub struct Color(pub u32);

/// The number that holds the four channels of a color.
pub open spec fn rgba_value(r: u8, g: u8, b: u8, a: u8) -> nat {
    (b as nat) + 0x100 * (g as nat) + 0x1_0000 * (r as nat) + 0x100_0000 * (a as nat)
}

impl Color {
    /// The color of these four channels.
    pub fn from_rgba(r: u8, g: u8, b: u8, a: u8) -> (color: Self)
        ensures
            color.0 == rgba_value(r, g, b, a),
    {
        Color(b as u32 + 0x100 * (g as u32) + 0x1_0000 * (r as u32) + 0x100_0000 * (a as u32))
    }

    /// The red channel.
    pub fn r(self) -> (channel: u8)
        ensures
            channel == (self.0 / 0x1_0000) % 0x100,
    {
        ((self.0 / 0x1_0000) % 0x100) as u8
    }

    /// The green channel.
    pub fn g(self) -> (channel: u8)
        ensures
            channel == (self.0 / 0x100) % 0x100,
    {
        ((self.0 / 0x100) % 0x100) as u8
    }

    /// The blue channel.
    pub fn b(self) -> (channel: u8)
        ensures
            channel == self.0 % 0x100,
    {
        (self.0 % 0x100) as u8
    }

    /// The alpha channel.
    pub fn a(self) -> (channel: u8)
        ensures
            channel == self.0 / 0x100_0000,
    {
        (self.0 / 0x100_0000) as u8
    }
}

/// The digit that stands for a number below sixteen in hexadecimal.
pub open spec fn hex_digit(n: nat) -> char {
    if n == 0 {
        '0'
    } else if n == 1 {
        '1'
    } else if n == 2 {
        '2'
    } else if n == 3 {
        '3'
    } else if n == 4 {
        '4'
    } else if n == 5 {
        '5'
    } else if n == 6 {
        '6'
    } else if n == 7 {
        '7'
    } else if n == 8 {
        '8'
    } else if n == 9 {
        '9'
    } else if n == 10 {
        'a'
    } else if n == 11 {
        'b'
    } else if n == 12 {
        'c'
    } else if n == 13 {
        'd'
    } else if n == 14 {
        'e'
    } else {
        'f'
    }
}

/// The two hexadecimal digits of a byte.
pub open spec fn hex_pair(byte: nat) -> Seq<char> {
    seq![hex_digit(byte / 16), hex_digit(byte % 16)]
}

/// A color as it is spelled in print: a number sign and the two digits of
/// its red, green, blue and alpha channel.
pub open spec fn hex_of(color: Color) -> Seq<char> {
    seq!['#'] + hex_pair(((color.0 / 0x1_0000) % 0x100) as nat) + hex_pair(
        ((color.0 / 0x100) % 0x100) as nat,
    ) + hex_pair((color.0 % 0x100) as nat) + hex_pair((color.0 / 0x100_0000) as nat)
}

/// The digit that stands for `n` in hexadecimal.
fn digit(n: u8) -> (c: char)
    requires
        n < 16,
    ensures
        c == hex_digit(n as nat),
{
    match n {
        0 => '0',
        1 => '1',
        2 => '2',
        3 => '3',
        4 => '4',
        5 => '5',
        6 => '6',
        7 => '7',
        8 => '8',
        9 => '9',
        10 => 'a',
        11 => 'b',
        12 => 'c',
        13 => 'd',
        14 => 'e',
        _ => 'f',
    }
}

/// Puts the two hexadecimal digits of `byte` at the end of `text`.
fn push_hex(text: &mut String, byte: u8)
    ensures
        final(text)@ == old(text)@ + hex_pair(byte as nat),
{
    let ghost before = text@;
    string_push(text, digit(byte / 16));
    string_push(text, digit(byte % 16));
    assert(text@ =~= before + hex_pair(byte as nat));
}

impl Color {
    /// The color as it is spelled in print, such as `#ff17c6ff`.
    pub fn to_hex(self) -> (text: String)
        ensures
            text@ == hex_of(self),
    {
        let mut text = String::new();
        string_push(&mut text, '#');
        push_hex(&mut text, self.r());
        push_hex(&mut text, self.g());
        push_hex(&mut text, self.b());
        push_hex(&mut text, self.a());
        assert(text@ =~= hex_of(self));
        text
    }
}

impl From<u32> for Color {
    fn from(value: u32) -> (color: Color) {
        Color(value)
    }
}

impl vstd::std_specs::convert::FromSpecImpl<u32> for Color {
    open spec fn obeys_from_spec() -> bool {
        true
    }

    open spec fn from_spec(value: u32) -> Color {
        Color(value)
    }
}

impl From<Color> for u32 {
    fn from(color: Color) -> (value: u32) {
        color.0
    }
}

impl vstd::std_specs::convert::FromSpecImpl<Color> for u32 {
    open spec fn obeys_from_spec() -> bool {
        true
    }

    open spec fn from_spec(color: Color) -> u32 {
        color.0
    }
}

/// Each channel of a color made from four channels is the channel it was
/// made from.
pub proof fn lemma_color_channels(r: u8, g: u8, b: u8, a: u8)
    ensures
        rgba_value(r, g, b, a) <= u32::MAX,
        (rgba_value(r, g, b, a) / 0x1_0000) % 0x100 == r,
        (rgba_value(r, g, b, a) / 0x100) % 0x100 == g,
        rgba_value(r, g, b, a) % 0x100 == b,
        rgba_value(r, g, b, a) / 0x100_0000 == a,
{
    let r32 = r as u32;
    let g32 = g as u32;
    let b32 = b as u32;
    let a32 = a as u32;
    assert({
        let v = b32 + 0x100 * g32 + 0x1_0000 * r32 + 0x100_0000 * a32;
        &&& v <= 0xffff_ffff
        &&& (v / 0x1_0000) % 0x100 == r32
        &&& (v / 0x100) % 0x100 == g32
        &&& v % 0x100 == b32
        &&& v / 0x100_0000 == a32
    }) by (bit_vector)
        requires
            r32 < 0x100,
            g32 < 0x100,
            b32 < 0x100,
            a32 < 0x100,
    ;
}

/// A 128-bit identifier, held as the number that its sixteen bytes spell in
/// canonical order, the most significant byte first.
#[derive(Debug, Clone, Copy, PartialEq, Eq, Hash, Structural)]
pub struct Uuid(pub u128);

impl Uuid {
    /// The identifier of all zeroes.
    pub fn nil() -> (id: Uuid)
        ensures
            id.0 == 0,
    {
        Uuid(0)
    }

    /// The identifier whose sixteen bytes spell `value`.
    pub fn from_u128(value: u128) -> (id: Uuid)
        ensures
            id.0 == value,
    {
        Uuid(value)
    }

    /// The number that the sixteen bytes of the identifier spell.
    pub fn as_u128(&self) -> (value: u128)
        ensures
            value == self.0,
    {
        self.0
    }
}

/// A player: an identifier and a display name.
#[derive(Debug, Clone, PartialEq, Eq, Hash)]
pub struct User {
    pub id: Uuid,
    pub name: String,
}

/// What a `User` holds.
pub struct UserModel {
    pub id: Uuid,
    pub name: Seq<char>,
}

impl View for User {
    type V = UserModel;

    open spec fn view(&self) -> UserModel {
        UserModel { id: self.id, name: self.name@ }
    }
}

impl Default for User {
    /// The user of whom nothing is known.
    fn default() -> (user: User)
        ensures
            user@.id.0 == 0,
            user@.name == "Unknown"@,
    {
        User { id: Uuid::nil(), name: "Unknown".to_string() }
    }
}

/// An entry of the brick owner table: a user and the number of bricks the
/// file says they own.
#[derive(Debug, Clone, PartialEq, Eq, Hash)]
pub struct BrickOwner {
    pub user: User,
    pub brick_count: u32,
}

/// What a `BrickOwner` holds.
pub struct BrickOwnerModel {
    pub user: UserModel,
    pub brick_count: u32,
}

impl View for BrickOwner {
    type V = BrickOwnerModel;

    open spec fn view(&self) -> BrickOwnerModel {
        BrickOwnerModel { user: self.user@, brick_count: self.brick_count }
    }
}

/// The byte that says a file embeds no screenshot.
pub const SCREENSHOT_NONE: u8 = 0;

/// The image format of an embedded screenshot.
#[derive(Debug, Clone, Copy, PartialEq, Eq, PartialOrd, Structural)]
pub enum ScreenshotFormat {
    Png,
}

impl ScreenshotFormat {
    /// The byte that marks this format in a file.
    pub fn to_u8(self) -> (marker: u8)
        ensures
            marker == 1,
    {
        1
    }

    /// The format that `marker` stands for, if it is a known one.
    pub fn from_u8(marker: u8) -> (format: Option<ScreenshotFormat>)
        ensures
            format == (if marker == 1 {
                Some(ScreenshotFormat::Png)
            } else {
                None
            }),
    {
        if marker == 1 {
            Some(ScreenshotFormat::Png)
        } else {
            None
        }
    }
}

/// An embedded screenshot: its format and its data.
pub struct Screenshot<R> {
    pub format: ScreenshotFormat,
    pub data: R,
}

/// A save file version, named by what it introduced.
#[derive(Debug, Clone, Copy, PartialEq, Eq, PartialOrd, Ord, Hash, Structural)]
pub enum Version {
    Initial,
    MaterialsStoredAsNames,
    AddedOwnerData,
    AddedDateTime,
    AddedComponentsData,
    AddedScreenshotData,
    AddedGameVersionAndHostAndOwnerDataAndImprovedMaterials,
    RenamedComponentDescriptors,
}

/// The game changelist that is assumed for files too old to name their own.
pub const DEFAULT_GAME_VERSION: u32 = 3642;

impl Version {
    /// The version word that stands for this version in a file.
    pub open spec fn number(self) -> nat {
        match self {
            Version::Initial => 1,
            Version::MaterialsStoredAsNames => 2,
            Version::AddedOwnerData => 3,
            Version::AddedDateTime => 4,
            Version::AddedComponentsData => 5,
            Version::AddedScreenshotData => 6,
            Version::AddedGameVersionAndHostAndOwnerDataAndImprovedMaterials => 7,
            Version::RenamedComponentDescriptors => 8,
        }
    }

    /// The version that the word `raw` stands for, if it is a known one.
    pub open spec fn of_number(raw: nat) -> Option<Version> {
        if raw == 1 {
            Some(Version::Initial)
        } else if raw == 2 {
            Some(Version::MaterialsStoredAsNames)
        } else if raw == 3 {
            Some(Version::AddedOwnerData)
        } else if raw == 4 {
            Some(Version::AddedDateTime)
        } else if raw == 5 {
            Some(Version::AddedComponentsData)
        } else if raw == 6 {
            Some(Version::AddedScreenshotData)
        } else if raw == 7 {
            Some(Version::AddedGameVersionAndHostAndOwnerDataAndImprovedMaterials)
        } else if raw == 8 {
            Some(Version::RenamedComponentDescriptors)
        } else {
            None
        }
    }

    /// Whether this version was introduced no earlier than `other`.
    pub open spec fn at_least_spec(self, other: Version) -> bool {
        self.number() >= other.number()
    }

    /// The version word that stands for this version in a file.
    pub fn to_u16(self) -> (raw: u16)
        ensures
            raw == self.number(),
    {
        match self {
            Version::Initial => 1,
            Version::MaterialsStoredAsNames => 2,
            Version::AddedOwnerData => 3,
            Version::AddedDateTime => 4,
            Version::AddedComponentsData => 5,
            Version::AddedScreenshotData => 6,
            Version::AddedGameVersionAndHostAndOwnerDataAndImprovedMaterials => 7,
            Version::RenamedComponentDescriptors => 8,
        }
    }

    /// The version that the word `raw` stands for, if it is a known one.
    pub fn from_u16(raw: u16) -> (version: Option<Version>)
        ensures
            version == Version::of_number(raw as nat),
    {
        match raw {
            1 => Some(Version::Initial),
            2 => Some(Version::MaterialsStoredAsNames),
            3 => Some(Version::AddedOwnerData),
            4 => Some(Version::AddedDateTime),
            5 => Some(Version::AddedComponentsData),
            6 => Some(Version::AddedScreenshotData),
            7 => Some(Version::AddedGameVersionAndHostAndOwnerDataAndImprovedMaterials),
            8 => Some(Version::RenamedComponentDescriptors),
            _ => None,
        }
    }

    /// Whether this version was introduced no earlier than `other`: whether a
    /// file of this version has what `other` introduced.
    #[verifier::when_used_as_spec(at_least_spec)]
    pub fn at_least(self, other: Version) -> (later: bool)
        ensures
            later == self.at_least_spec(other),
    {
        self.to_u16() >= other.to_u16()
    }

    /// The game changelist assumed for a file of this version, which is too
    /// old to name its own.
    pub fn first_game_version(self) -> (changelist: u32)
        ensures
            changelist == DEFAULT_GAME_VERSION,
    {
        DEFAULT_GAME_VERSION
    }
}

/// The version word of a known version stands for that version, and only the
/// words one to eight stand for any.
pub proof fn lemma_version_numbers(version: Version, raw: nat)
    ensures
        Version::of_number(version.number()) == Some(version),
        Version::of_number(raw) matches Some(v) ==> v.number() == raw,
        Version::of_number(raw) is Some <==> 1 <= raw <= 8,
{
}

/// The oldest version that can be read. Files of the first version are broken
/// and not loaded.
pub const MIN_VERSION_READ: Version = Version::MaterialsStoredAsNames;

/// The newest version that can be read, and the only one that is written.
pub const MAX_VERSION_READ: Version = Version::RenamedComponentDescriptors;

/// A point in time: whole seconds and nanoseconds after midnight of the first
/// of January of the year 1, UTC. A time before that has negative seconds.
#[derive(Debug, Clone, Copy, PartialEq, Eq, Hash, Structural)]
pub struct Timestamp {
    pub secs: i64,
    pub nanos: u32,
}

/// The number of 100 ns ticks in a second.
pub const TICKS_PER_SECOND: i64 = 10_000_000;

impl Timestamp {
    /// A timestamp is well formed if its nanoseconds stay below a second.
    pub open spec fn wf(self) -> bool {
        self.nanos < 1_000_000_000
    }

    /// The number of ticks after the epoch, before any clamping.
    pub open spec fn exact_ticks(self) -> int {
        self.secs * 10_000_000 + (self.nanos / 100)
    }

    /// The tick count that stands for this time in a file: the number of
    /// whole ticks after the epoch, or zero for a time before the epoch or
    /// too late to count its ticks in 64 bits.
    pub open spec fn ticks(self) -> int {
        if self.secs < 0 || self.exact_ticks() > i64::MAX {
            0
        } else {
            self.exact_ticks()
        }
    }

    /// The time that lies `ticks` ticks after the epoch.
    pub open spec fn of_ticks(ticks: int) -> Timestamp {
        Timestamp { secs: (ticks / 10_000_000) as i64, nanos: ((ticks % 10_000_000) * 100) as u32 }
    }

    /// The epoch itself.
    pub fn epoch() -> (t: Timestamp)
        ensures
            t == (Timestamp { secs: 0, nanos: 0 }),
    {
        Timestamp { secs: 0, nanos: 0 }
    }

    /// The tick count that stands for this time in a file.
    pub fn to_ticks(self) -> (ticks: i64)
        ensures
            ticks == self.ticks(),
    {
        if self.secs < 0 || self.secs > i64::MAX / TICKS_PER_SECOND {
            return 0;
        }
        let whole: i64 = self.secs * TICKS_PER_SECOND;
        let part: i64 = (self.nanos / 100) as i64;
        if whole > i64::MAX - part {
            0
        } else {
            whole + part
        }
    }

    /// The time that lies `ticks` ticks after the epoch, or before it if
    /// `ticks` is negative.
    pub fn from_ticks(ticks: i64) -> (t: Timestamp)
        ensures
            t == Timestamp::of_ticks(ticks as int),
            t.wf(),
    {
        if ticks >= 0 {
            Timestamp {
                secs: ticks / TICKS_PER_SECOND,
                nanos: ((ticks % TICKS_PER_SECOND) * 100) as u32,
            }
        } else {
            // Round towards the past, so that the nanoseconds count forward.
            let back: i64 = -(ticks + 1);
            let secs: i64 = -(back / TICKS_PER_SECOND) - 1;
            let part: i64 = TICKS_PER_SECOND - 1 - back % TICKS_PER_SECOND;
            Timestamp { secs, nanos: (part * 100) as u32 }
        }
    }
}

/// A time at or after the epoch whose ticks can be counted comes back from
/// its tick count as it was, but for what it had below a tick.
pub proof fn lemma_timestamp_roundtrip(t: Timestamp)
    requires
        t.wf(),
        t.secs >= 0,
        t.exact_ticks() <= i64::MAX,
    ensures
        Timestamp::of_ticks(t.ticks()) == (Timestamp {
            secs: t.secs,
            nanos: (t.nanos - t.nanos % 100) as u32,
        }),
{
}

/// The tick count of a time made from a tick count that is not negative is
/// that tick count.
pub proof fn lemma_ticks_roundtrip(ticks: int)
    requires
        0 <= ticks <= i64::MAX,
    ensures
        Timestamp::of_ticks(ticks).ticks() == ticks,
{
}

} // verus!
