//! Reading a save file in stages.
//!
//! A [`Reader`] is made of the bytes of a file and takes in the headers at
//! once. What follows is read in the order of the file: the screenshot, the
//! bricks, the components. The state of a reader says how far it has come,
//! so that a stage cannot be read twice or out of turn.

use crate::bit_reader::{BitReader, eof};
use crate::bits::{bytes_bits, padding};
use crate::brick::{
    BrickLayout, decode_brick, decode_bricks, read_brick, size_of_table, table_size,
};
use crate::component::{ComponentCatalog, ComponentEntryModel, parse_components, read_components};
use crate::error::{Error, IoError};
use crate::header::{
    Header1, Header1Model, Header2, Header2Model, names, owners, parse_header1, parse_header2,
    read_header1, read_header2,
};
use crate::save::{
    Brick, BrickOwner, Color, DEFAULT_GAME_VERSION, Screenshot, SCREENSHOT_NONE, ScreenshotFormat,
    Timestamp, User, Version,
};
use crate::section::{parse_section, parse_section_end, read_section, skip_compressed};
use crate::wire::{parse_bytes, parse_int, parse_uint, read_i32, read_u16, read_u32, read_u8};
use crate::write::{WriteData, WriteDataModel};
pub use crate::states::{Init, PostBricks, PostComponents, PostScreenshot, State};
use vstd::prelude::*;

verus! {

/// What a reader knows once the headers are read.
pub struct Opened {
    pub version: Version,
    pub game_version: u32,
    pub header1: Header1Model,
    pub header2: Header2Model,
    pub screenshot: Option<(ScreenshotFormat, usize)>,
}

/// The three bytes that every save file starts with: `BRS`.
pub open spec fn magic() -> Seq<u8> {
    seq![0x42u8, 0x52u8, 0x53u8]
}

/// Whether a file of `version` says which changelist of the game wrote it.
pub open spec fn has_game_version(version: Version) -> bool {
    version.at_least_spec(Version::AddedGameVersionAndHostAndOwnerDataAndImprovedMaterials)
}

/// The version and the game changelist that the start of the input
/// announces: the magic, a 16-bit version word that has to name a version
/// between the oldest and the newest that can be read, and from the version
/// that has one on, a 32-bit changelist.
pub open spec fn parse_preamble(input: Seq<u8>) -> Result<((Version, u32), int), Error> {
    if input.len() < 3 || input.subrange(0, 3) != magic() {
        Err(Error::InvalidMagic)
    } else {
        match parse_uint(input, 3, 2) {
            Err(e) => Err(e),
            Ok((raw, next)) => if raw < 2 {
                Err(Error::VersionTooOld(raw as u16))
            } else if raw > 8 {
                Err(Error::VersionTooNew(raw as u16))
            } else {
                match Version::of_number(raw) {
                    None => Err(Error::VersionUnknown(raw as u16)),
                    Some(version) => if has_game_version(version) {
                        match parse_uint(input, next, 4) {
                            Err(e) => Err(e),
                            Ok((changelist, end)) => Ok(((version, changelist as u32), end)),
                        }
                    } else {
                        Ok(((version, DEFAULT_GAME_VERSION), next))
                    },
                }
            },
        }
    }
}

/// The format and the length of the screenshot that the input announces at
/// `pos`, in a file that can have one: a marker, and behind any but the one
/// for no screenshot a signed 32-bit length, which must not be negative.
pub open spec fn parse_screenshot_header(input: Seq<u8>, pos: int, version: Version) -> Result<
    (Option<(ScreenshotFormat, usize)>, int),
    Error,
> {
    if !version.at_least_spec(Version::AddedScreenshotData) {
        Ok((None, pos))
    } else {
        match parse_uint(input, pos, 1) {
            Err(e) => Err(e),
            Ok((marker, next)) => if marker == 0 {
                Ok((None, next))
            } else if marker != 1 {
                Err(Error::UnknownScreenshotFormat(marker as u8))
            } else {
                match parse_int(input, next, 4) {
                    Err(e) => Err(e),
                    Ok((len, end)) => if len < 0 {
                        Err(Error::InvalidInput)
                    } else {
                        Ok((Some((ScreenshotFormat::Png, len as usize)), end))
                    },
                }
            },
        }
    }
}

/// What the input holds up to the screenshot, and where that starts.
pub open spec fn parse_open(input: Seq<u8>) -> Result<(Opened, int), Error> {
    match parse_preamble(input) {
        Err(e) => Err(e),
        Ok(((version, game_version), p1)) => match parse_section(input, p1) {
            Err(e) => Err(e),
            Ok((first, p2)) => match parse_header1(first, version) {
                Err(e) => Err(e),
                Ok(header1) => match parse_section(input, p2) {
                    Err(e) => Err(e),
                    Ok((second, p3)) => match parse_header2(second, version) {
                        Err(e) => Err(e),
                        Ok(header2) => match parse_screenshot_header(input, p3, version) {
                            Err(e) => Err(e),
                            Ok((screenshot, p4)) => Ok(
                                (
                                    Opened { version, game_version, header1, header2, screenshot },
                                    p4,
                                ),
                            ),
                        },
                    },
                },
            },
        },
    }
}

/// A file that opens is of a version between the oldest and the newest
/// that can be read. One from before files named their changelist is given
/// the one that is assumed for them, and its first section starts behind
/// the version word.
pub proof fn lemma_preamble_gates(input: Seq<u8>)
    ensures
        parse_preamble(input) matches Ok(((version, changelist), next)) ==> 2 <= version.number()
            <= 8 && if version.number() < 7 {
            changelist == DEFAULT_GAME_VERSION && next == 5
        } else {
            next == 9
        },
{
}

/// A file from before there were screenshots has no marker of one, and a
/// file from before there were components has no section of them.
pub proof fn lemma_section_gates(input: Seq<u8>, pos: int, version: Version)
    ensures
        version.number() < 6 ==> parse_screenshot_header(input, pos, version) == Ok::<
            (Option<(ScreenshotFormat, usize)>, int),
            Error,
        >((None, pos)),
        version.number() < 5 ==> parse_catalog(input, pos, version) == Ok::<
            (Seq<ComponentEntryModel>, int),
            Error,
        >((Seq::empty(), pos)),
{
}

/// What the encoding of the bricks of an opened file depends on.
pub open spec fn layout_of(opened: Opened) -> BrickLayout {
    BrickLayout {
        version: opened.version,
        asset_count: table_size(opened.header2.brick_assets.len()),
        material_count: table_size(opened.header2.materials.len()),
        color_count: table_size(opened.header2.colors.len()),
    }
}

/// The screenshot that the input holds at `pos`, given what its header
/// announced.
pub open spec fn parse_screenshot(
    input: Seq<u8>,
    pos: int,
    header: Option<(ScreenshotFormat, usize)>,
) -> Result<(Option<(ScreenshotFormat, Seq<u8>)>, int), Error> {
    match header {
        None => Ok((None, pos)),
        Some((format, len)) => match parse_bytes(input, pos, len as nat) {
            Err(e) => Err(e),
            Ok((data, next)) => Ok((Some((format, data)), next)),
        },
    }
}

/// Whether a file of `version` has a section of components.
pub open spec fn has_components(version: Version) -> bool {
    version.at_least_spec(Version::AddedComponentsData)
}

/// The catalog of components that the input holds at `pos`: that of a
/// section in a file that has one, and an empty one in an older file.
pub open spec fn parse_catalog(input: Seq<u8>, pos: int, version: Version) -> Result<
    (Seq<ComponentEntryModel>, int),
    Error,
> {
    if has_components(version) {
        match parse_section(input, pos) {
            Err(e) => Err(e),
            Ok((data, next)) => match parse_components(data, version) {
                Err(e) => Err(e),
                Ok(catalog) => Ok((catalog, next)),
            },
        }
    } else {
        Ok((Seq::empty(), pos))
    }
}

/// The record that the bricks and the headers of an opened file make, with
/// `missing_time` for the time of a file that is too old to have one.
pub open spec fn parse_record(input: Seq<u8>, pos: int, opened: Opened, missing_time: Timestamp)
    -> Result<WriteDataModel, Error> {
    match parse_screenshot(input, pos, opened.screenshot) {
        Err(e) => Err(e),
        Ok((_, start)) => match parse_section(input, start) {
            Err(e) => Err(e),
            Ok((stream, _)) => match decode_bricks(
                bytes_bits(stream),
                0,
                opened.header1.brick_count as nat,
                layout_of(opened),
            ) {
                None => Err(eof()),
                Some(bricks) => Ok(
                    WriteDataModel {
                        map: opened.header1.map,
                        author: opened.header1.author,
                        description: opened.header1.description,
                        save_time: match opened.header1.time_saved {
                            Some(time) => time,
                            None => missing_time,
                        },
                        mods: opened.header2.mods,
                        brick_assets: opened.header2.brick_assets,
                        colors: opened.header2.colors,
                        materials: opened.header2.materials,
                        brick_owners: opened.header2.brick_owners,
                        bricks,
                    },
                ),
            },
        },
    }
}

/// The record that a whole file makes.
pub open spec fn parse_save(input: Seq<u8>, missing_time: Timestamp) -> Result<
    WriteDataModel,
    Error,
> {
    match parse_open(input) {
        Err(e) => Err(e),
        Ok((opened, pos)) => parse_record(input, pos, opened, missing_time),
    }
}

/// The bricks of a file, read one at a time.
///
/// Once a brick could not be read, no further one is handed out.
pub struct BrickReader {
    reader: BitReader,
    layout: BrickLayout,
    remaining: u32,
}

impl BrickReader {
    /// The bits of the section that holds the bricks.
    pub closed spec fn bits(&self) -> Seq<bool> {
        self.reader.bits()
    }

    /// The number of bits read so far.
    pub closed spec fn pos(&self) -> int {
        self.reader.pos()
    }

    /// The number of bricks still to be handed out.
    pub closed spec fn remaining(&self) -> nat {
        self.remaining as nat
    }

    /// What the encoding of the bricks depends on.
    pub closed spec fn layout(&self) -> BrickLayout {
        self.layout
    }

    /// Whether `self` is `before` moved to the position `pos`, with
    /// `remaining` bricks to go.
    pub open spec fn moved(&self, before: &BrickReader, pos: int, remaining: nat) -> bool {
        &&& self.bits() == before.bits()
        &&& self.layout() == before.layout()
        &&& self.pos() == pos
        &&& self.remaining() == remaining
    }

    /// A reader of `count` bricks at the start of `data`.
    pub fn new(data: Vec<u8>, layout: BrickLayout, count: u32) -> (reader: BrickReader)
        ensures
            reader.bits() == bytes_bits(data@),
            reader.pos() == 0,
            reader.remaining() == count,
            reader.layout() == layout,
    {
        BrickReader { reader: BitReader::new(data), layout, remaining: count }
    }

    /// The number of bricks still to be handed out.
    pub fn len(&self) -> (count: u32)
        ensures
            count == self.remaining(),
    {
        self.remaining
    }

    /// Hands out the next brick, read from the next byte on. A brick that
    /// runs past the end of the section is an error, and the last thing
    /// that is handed out.
    pub fn next(&mut self) -> (item: Option<Result<Brick, Error>>)
        ensures
            old(self).remaining() == 0 ==> item is None && final(self).moved(
                old(self),
                old(self).pos(),
                0,
            ),
            old(self).remaining() > 0 ==> match decode_brick(
                old(self).bits(),
                old(self).pos() + padding(old(self).pos() as nat),
                old(self).layout(),
            ) {
                Some((brick, end)) => {
                    &&& item == Some(Ok::<Brick, Error>(brick))
                    &&& final(self).moved(old(self), end, (old(self).remaining() - 1) as nat)
                },
                None => {
                    &&& item == Some(Err::<Brick, Error>(eof()))
                    &&& final(self).moved(
                        old(self),
                        old(self).pos() + padding(old(self).pos() as nat),
                        0,
                    )
                },
            },
    {
        if self.remaining == 0 {
            return None;
        }
        self.reader.eat_byte_align();
        match read_brick(&mut self.reader, self.layout) {
            Ok(brick) => {
                self.remaining = self.remaining - 1;
                Some(Ok(brick))
            },
            Err(e) => {
                self.remaining = 0;
                Some(Err(e))
            },
        }
    }

    /// Reads all the bricks that are still to be handed out.
    pub fn collect(&mut self) -> (result: Result<Vec<Brick>, Error>)
        ensures
            final(self).remaining() == 0,
            final(self).bits() == old(self).bits(),
            final(self).layout() == old(self).layout(),
            match decode_bricks(
                old(self).bits(),
                old(self).pos(),
                old(self).remaining(),
                old(self).layout(),
            ) {
                Some(bricks) => result matches Ok(found) && found@ == bricks,
                None => result == Err::<Vec<Brick>, Error>(eof()),
            },
    {
        let ghost whole = decode_bricks(self.bits(), self.pos(), self.remaining(), self.layout());
        let ghost before = *self;
        let mut bricks: Vec<Brick> = Vec::new();
        assert(whole == bricks_after(bricks@, whole));
        loop
            invariant_except_break
                before == *old(self),
                whole == decode_bricks(
                    before.bits(),
                    before.pos(),
                    before.remaining(),
                    before.layout(),
                ),
                self.bits() == before.bits(),
                self.layout() == before.layout(),
                whole == bricks_after(
                    bricks@,
                    decode_bricks(self.bits(), self.pos(), self.remaining(), self.layout()),
                ),
            ensures
                self.remaining() == 0,
                self.bits() == before.bits(),
                self.layout() == before.layout(),
                whole == Some(bricks@),
            decreases self.remaining(),
        {
            let ghost done = bricks@;
            let ghost layout = self.layout();
            let ghost bits = self.bits();
            proof {
                if self.remaining() > 0 {
                    match decode_brick(bits, self.pos() + padding(self.pos() as nat), layout) {
                        None => {},
                        Some((first, end)) => {
                            match decode_bricks(bits, end, (self.remaining() - 1) as nat, layout) {
                                None => {},
                                Some(rest) => {
                                    assert(done + (seq![first] + rest) =~= done.push(first) + rest);
                                },
                            }
                        },
                    }
                }
            }
            match self.next() {
                None => {
                    assert(done + Seq::<Brick>::empty() =~= done);
                    break ;
                },
                Some(Ok(brick)) => {
                    bricks.push(brick);
                },
                Some(Err(e)) => {
                    return Err(e);
                },
            }
        }
        Ok(bricks)
    }
}

/// What is read once `done` is read and `more` comes of the rest.
pub open spec fn bricks_after(done: Seq<Brick>, more: Option<Seq<Brick>>) -> Option<Seq<Brick>> {
    match more {
        Some(rest) => Some(done + rest),
        None => None,
    }
}

/// A save file that is being read.
pub struct Reader<S: State> {
    data: Vec<u8>,
    pos: usize,
    file_version: Version,
    game_version: u32,
    header1: Header1,
    header2: Header2,
    screenshot_header: Option<(ScreenshotFormat, usize)>,
    state: S,
}

impl<S: State> Reader<S> {
    /// The bytes of the file.
    pub closed spec fn input(&self) -> Seq<u8> {
        self.data@
    }

    /// The number of bytes read so far.
    pub closed spec fn pos(&self) -> int {
        self.pos as int
    }

    /// What the headers of the file hold.
    pub closed spec fn opened(&self) -> Opened {
        Opened {
            version: self.file_version,
            game_version: self.game_version,
            header1: self.header1@,
            header2: self.header2@,
            screenshot: self.screenshot_header,
        }
    }

    fn with_state<W: State>(self, state: W) -> (reader: Reader<W>)
        ensures
            reader.input() == self.input(),
            reader.pos() == self.pos(),
            reader.opened() == self.opened(),
    {
        Reader {
            data: self.data,
            pos: self.pos,
            file_version: self.file_version,
            game_version: self.game_version,
            header1: self.header1,
            header2: self.header2,
            screenshot_header: self.screenshot_header,
            state,
        }
    }

    /// The bytes of the file.
    pub fn into_inner(self) -> (data: Vec<u8>)
        ensures
            data@ == self.input(),
    {
        self.data
    }

    /// What the encoding of the bricks of this file depends on.
    pub fn brick_layout(&self) -> (layout: BrickLayout)
        ensures
            layout == layout_of(self.opened()),
    {
        BrickLayout {
            version: self.file_version,
            asset_count: size_of_table(self.header2.brick_assets.len()),
            material_count: size_of_table(self.header2.materials.len()),
            color_count: size_of_table(self.header2.colors.len()),
        }
    }

    /// The version of the file.
    pub fn version(&self) -> (version: Version)
        ensures
            version == self.opened().version,
    {
        self.file_version
    }

    /// The changelist of the game that wrote the file.
    pub fn game_version(&self) -> (changelist: u32)
        ensures
            changelist == self.opened().game_version,
    {
        self.game_version
    }

    /// The name of the map that the save was made on.
    pub fn map(&self) -> (map: &str)
        ensures
            map@ == self.opened().header1.map,
    {
        self.header1.map.as_str()
    }

    /// The user who made the save.
    pub fn author(&self) -> (author: &User)
        ensures
            author@ == self.opened().header1.author,
    {
        &self.header1.author
    }

    /// A short description of the save.
    pub fn description(&self) -> (description: &str)
        ensures
            description@ == self.opened().header1.description,
    {
        self.header1.description.as_str()
    }

    /// The user who hosted the game, in a file that names one.
    pub fn host(&self) -> (host: Option<&User>)
        ensures
            match host {
                Some(user) => self.opened().header1.host == Some(user@),
                None => self.opened().header1.host is None,
            },
    {
        self.header1.host.as_ref()
    }

    /// When the save was made, in a file that says so.
    pub fn time_saved(&self) -> (time: Option<Timestamp>)
        ensures
            time == self.opened().header1.time_saved,
    {
        self.header1.time_saved
    }

    /// When the save was made, in a file that says so.
    pub fn save_time(&self) -> (time: Option<Timestamp>)
        ensures
            time == self.opened().header1.time_saved,
    {
        self.header1.time_saved
    }

    /// The number of bricks that the file announces.
    pub fn brick_count(&self) -> (count: u32)
        ensures
            count == self.opened().header1.brick_count,
    {
        self.header1.brick_count
    }

    /// The mods that the save uses.
    pub fn mods(&self) -> (mods: &[String])
        ensures
            names(mods@) == self.opened().header2.mods,
    {
        self.header2.mods.as_slice()
    }

    /// The names of the brick assets that bricks point to.
    pub fn brick_assets(&self) -> (assets: &[String])
        ensures
            names(assets@) == self.opened().header2.brick_assets,
    {
        self.header2.brick_assets.as_slice()
    }

    /// The colors that bricks point to.
    pub fn colors(&self) -> (colors: &[Color])
        ensures
            colors@ == self.opened().header2.colors,
    {
        self.header2.colors.as_slice()
    }

    /// The names of the materials that bricks point to.
    pub fn materials(&self) -> (materials: &[String])
        ensures
            names(materials@) == self.opened().header2.materials,
    {
        self.header2.materials.as_slice()
    }

    /// The owners that bricks point to.
    pub fn brick_owners(&self) -> (table: &[BrickOwner])
        ensures
            owners(table@) == self.opened().header2.brick_owners,
    {
        self.header2.brick_owners.as_slice()
    }

    /// The format and the length of the screenshot, in a file that has one.
    pub fn screenshot_info(&self) -> (info: Option<(ScreenshotFormat, usize)>)
        ensures
            info == self.opened().screenshot,
    {
        self.screenshot_header
    }

    /// The format of the screenshot, in a file that has one.
    pub fn screenshot_format(&self) -> (format: Option<ScreenshotFormat>)
        ensures
            format == match self.opened().screenshot {
                Some((found, _)) => Some(found),
                None => None,
            },
    {
        match self.screenshot_header {
            Some((format, _)) => Some(format),
            None => None,
        }
    }
}

/// Reads the start of a file: the magic, the version and the changelist.
pub fn read_preamble(input: &[u8]) -> (result: Result<((Version, u32), usize), Error>)
    ensures
        match result {
            Ok((found, next)) => parse_preamble(input@) == Ok::<((Version, u32), int), Error>(
                (found, next as int),
            ),
            Err(e) => parse_preamble(input@) == Err::<((Version, u32), int), Error>(e),
        },
{
    if input.len() < 3 || input[0] != 0x42 || input[1] != 0x52 || input[2] != 0x53 {
        assert(input@.len() >= 3 ==> input@.subrange(0, 3)[0] == input@[0] && input@.subrange(
            0,
            3,
        )[1] == input@[1] && input@.subrange(0, 3)[2] == input@[2]);
        return Err(Error::InvalidMagic);
    }
    assert(input@.subrange(0, 3) =~= magic());
    let (raw, next) = read_u16(input, 3)?;
    if raw < 2 {
        return Err(Error::VersionTooOld(raw));
    }
    if raw > 8 {
        return Err(Error::VersionTooNew(raw));
    }
    let version = match Version::from_u16(raw) {
        Some(version) => version,
        None => {
            return Err(Error::VersionUnknown(raw));
        },
    };
    if version.at_least(Version::AddedGameVersionAndHostAndOwnerDataAndImprovedMaterials) {
        let (changelist, end) = read_u32(input, next)?;
        Ok(((version, changelist), end))
    } else {
        Ok(((version, version.first_game_version()), next))
    }
}

/// Reads the marker of the screenshot and, behind it, its length.
pub fn read_image_format(input: &[u8], pos: usize, version: Version) -> (result: Result<
    (Option<(ScreenshotFormat, usize)>, usize),
    Error,
>)
    ensures
        match result {
            Ok((found, next)) => parse_screenshot_header(input@, pos as int, version) == Ok::<
                (Option<(ScreenshotFormat, usize)>, int),
                Error,
            >((found, next as int)),
            Err(e) => parse_screenshot_header(input@, pos as int, version) == Err::<
                (Option<(ScreenshotFormat, usize)>, int),
                Error,
            >(e),
        },
{
    if !version.at_least(Version::AddedScreenshotData) {
        return Ok((None, pos));
    }
    let (marker, next) = read_u8(input, pos)?;
    if marker == SCREENSHOT_NONE {
        return Ok((None, next));
    }
    let format = match ScreenshotFormat::from_u8(marker) {
        Some(format) => format,
        None => {
            return Err(Error::UnknownScreenshotFormat(marker));
        },
    };
    let (len, end) = read_i32(input, next)?;
    if len < 0 {
        return Err(Error::InvalidInput);
    }
    Ok((Some((format, len as usize)), end))
}

impl Reader<Init> {
    /// Takes in the headers of the file whose bytes are `data`.
    pub fn new(data: Vec<u8>) -> (result: Result<Reader<Init>, Error>)
        ensures
            match result {
                Ok(reader) => parse_open(data@) == Ok::<(Opened, int), Error>(
                    (reader.opened(), reader.pos()),
                ) && reader.input() == data@,
                Err(e) => parse_open(data@) == Err::<(Opened, int), Error>(e),
            },
    {
        let input = data.as_slice();
        let ((file_version, game_version), p1) = read_preamble(input)?;
        let (first, p2) = read_section(input, p1)?;
        let header1 = read_header1(first.as_slice(), file_version)?;
        let (second, p3) = read_section(input, p2)?;
        let header2 = read_header2(second.as_slice(), file_version)?;
        let (screenshot_header, p4) = read_image_format(input, p3, file_version)?;
        Ok(
            Reader {
                data,
                pos: p4,
                file_version,
                game_version,
                header1,
                header2,
                screenshot_header,
                state: Init {  },
            },
        )
    }

    /// Passes over the screenshot.
    fn skip_screenshot(self) -> (result: Result<Reader<PostScreenshot>, Error>)
        ensures
            match result {
                Ok(reader) => parse_screenshot(self.input(), self.pos(), self.opened().screenshot)
                    matches Ok((_, next)) && reader.pos() == next && reader.input() == self.input()
                    && reader.opened() == self.opened(),
                Err(e) => parse_screenshot(self.input(), self.pos(), self.opened().screenshot)
                    matches Err(found) && found == e,
            },
    {
        let mut reader = self;
        if let Some((_, len)) = reader.screenshot_header {
            if reader.pos > reader.data.len() || len > reader.data.len() - reader.pos {
                return Err(Error::Io(IoError::UnexpectedEof));
            }
            reader.pos = reader.pos + len;
        }
        Ok(reader.with_state(PostScreenshot {  }))
    }

    /// Hands out the screenshot, if the file has one, and the reader of
    /// what follows it.
    pub fn screenshot_data(self) -> (result: Result<
        (Reader<PostScreenshot>, Option<Screenshot<Vec<u8>>>),
        Error,
    >)
        ensures
            match result {
                Ok((reader, shot)) => parse_screenshot(
                    self.input(),
                    self.pos(),
                    self.opened().screenshot,
                ) == Ok::<(Option<(ScreenshotFormat, Seq<u8>)>, int), Error>(
                    (
                        match shot {
                            Some(found) => Some((found.format, found.data@)),
                            None => None,
                        },
                        reader.pos(),
                    ),
                ) && reader.input() == self.input() && reader.opened() == self.opened(),
                Err(e) => parse_screenshot(self.input(), self.pos(), self.opened().screenshot)
                    == Err::<(Option<(ScreenshotFormat, Seq<u8>)>, int), Error>(e),
            },
    {
        let mut reader = self;
        let shot = match reader.screenshot_header {
            Some((format, len)) => {
                if reader.pos > reader.data.len() || len > reader.data.len() - reader.pos {
                    return Err(Error::Io(IoError::UnexpectedEof));
                }
                let data = vstd::slice::slice_to_vec(
                    vstd::slice::slice_subrange(
                        reader.data.as_slice(),
                        reader.pos,
                        reader.pos + len,
                    ),
                );
                reader.pos = reader.pos + len;
                Some(Screenshot { format, data })
            },
            None => None,
        };
        Ok((reader.with_state(PostScreenshot {  }), shot))
    }

    /// Passes over the screenshot and opens the bricks.
    pub fn bricks(self) -> (result: Result<(Reader<PostBricks>, BrickReader), Error>)
        ensures
            match result {
                Ok((reader, bricks)) => parse_screenshot(
                    self.input(),
                    self.pos(),
                    self.opened().screenshot,
                ) matches Ok((_, start)) && parse_section(self.input(), start) matches Ok(
                    (stream, next),
                ) && bricks.bits() == bytes_bits(stream) && bricks.pos() == 0 && bricks.remaining()
                    == self.opened().header1.brick_count && bricks.layout() == layout_of(
                    self.opened(),
                ) && reader.pos() == next && reader.input() == self.input() && reader.opened()
                    == self.opened(),
                Err(e) => match parse_screenshot(
                    self.input(),
                    self.pos(),
                    self.opened().screenshot,
                ) {
                    Err(found) => found == e,
                    Ok((_, start)) => parse_section(self.input(), start) matches Err(found)
                        && found == e,
                },
            },
    {
        self.skip_screenshot()?.bricks()
    }

    /// Reads the bricks and puts them and the headers into a record that
    /// can be written again. A file that is too old to say when it was
    /// saved gets `missing_time`.
    pub fn into_write_data(self, missing_time: Timestamp) -> (result: Result<WriteData, Error>)
        ensures
            match result {
                Ok(data) => parse_record(self.input(), self.pos(), self.opened(), missing_time)
                    == Ok::<WriteDataModel, Error>(data@),
                Err(e) => parse_record(self.input(), self.pos(), self.opened(), missing_time)
                    == Err::<WriteDataModel, Error>(e),
            },
    {
        let (reader, mut bricks) = self.bricks()?;
        let found = bricks.collect()?;
        let save_time = match reader.header1.time_saved {
            Some(time) => time,
            None => missing_time,
        };
        Ok(
            WriteData {
                map: reader.header1.map,
                author: reader.header1.author,
                description: reader.header1.description,
                save_time,
                mods: reader.header2.mods,
                brick_assets: reader.header2.brick_assets,
                colors: reader.header2.colors,
                materials: reader.header2.materials,
                brick_owners: reader.header2.brick_owners,
                bricks: found,
            },
        )
    }
}

impl Reader<PostScreenshot> {
    /// Passes over the bricks.
    fn skip_bricks(self) -> (result: Result<Reader<PostBricks>, Error>)
        ensures
            match result {
                Ok(reader) => parse_section_end(self.input(), self.pos()) == Ok::<int, Error>(
                    reader.pos(),
                ) && reader.input() == self.input() && reader.opened() == self.opened(),
                Err(e) => parse_section_end(self.input(), self.pos()) == Err::<int, Error>(e),
            },
    {
        let mut reader = self;
        let next = skip_compressed(reader.data.as_slice(), reader.pos)?;
        reader.pos = next;
        Ok(reader.with_state(PostBricks {  }))
    }

    /// Opens the bricks: inflates their section and hands out a reader of
    /// as many bricks as the first header announces.
    pub fn bricks(self) -> (result: Result<(Reader<PostBricks>, BrickReader), Error>)
        ensures
            match result {
                Ok((reader, bricks)) => parse_section(self.input(), self.pos()) matches Ok(
                    (stream, next),
                ) && bricks.bits() == bytes_bits(stream) && bricks.pos() == 0 && bricks.remaining()
                    == self.opened().header1.brick_count && bricks.layout() == layout_of(
                    self.opened(),
                ) && reader.pos() == next && reader.input() == self.input() && reader.opened()
                    == self.opened(),
                Err(e) => parse_section(self.input(), self.pos()) matches Err(found) && found == e,
            },
    {
        let mut reader = self;
        let (stream, next) = read_section(reader.data.as_slice(), reader.pos)?;
        let bricks = BrickReader::new(stream, reader.brick_layout(), reader.header1.brick_count);
        reader.pos = next;
        Ok((reader.with_state(PostBricks {  }), bricks))
    }

    /// Passes over the bricks and reads the catalog of components.
    pub fn components(self) -> (result: Result<(Reader<PostComponents>, ComponentCatalog), Error>)
        ensures
            match result {
                Ok((reader, catalog)) => parse_section_end(self.input(), self.pos()) matches Ok(
                    start,
                ) && parse_catalog(self.input(), start, self.opened().version) == Ok::<
                    (Seq<ComponentEntryModel>, int),
                    Error,
                >((catalog@, reader.pos())) && reader.input() == self.input() && reader.opened()
                    == self.opened(),
                Err(e) => match parse_section_end(self.input(), self.pos()) {
                    Err(found) => found == e,
                    Ok(start) => parse_catalog(self.input(), start, self.opened().version)
                        matches Err(found) && found == e,
                },
            },
    {
        self.skip_bricks()?.components()
    }
}

impl Reader<PostBricks> {
    /// Reads the catalog of components: that of their section in a file
    /// that has one, and an empty one in an older file.
    pub fn components(self) -> (result: Result<(Reader<PostComponents>, ComponentCatalog), Error>)
        ensures
            match result {
                Ok((reader, catalog)) => parse_catalog(
                    self.input(),
                    self.pos(),
                    self.opened().version,
                ) == Ok::<(Seq<ComponentEntryModel>, int), Error>((catalog@, reader.pos()))
                    && reader.input() == self.input() && reader.opened() == self.opened(),
                Err(e) => parse_catalog(self.input(), self.pos(), self.opened().version) == Err::<
                    (Seq<ComponentEntryModel>, int),
                    Error,
                >(e),
            },
    {
        let mut reader = self;
        if !reader.file_version.at_least(Version::AddedComponentsData) {
            return Ok((reader.with_state(PostComponents {  }), ComponentCatalog::empty()));
        }
        let (data, next) = read_section(reader.data.as_slice(), reader.pos)?;
        let catalog = read_components(data.as_slice(), reader.file_version)?;
        reader.pos = next;
        Ok((reader.with_state(PostComponents {  }), catalog))
    }
}

/// Reads a whole save file into a record that can be written again. A file
/// that is too old to say when it was saved gets `missing_time`.
pub fn read_save(data: Vec<u8>, missing_time: Timestamp) -> (result: Result<WriteData, Error>)
    ensures
        match result {
            Ok(record) => parse_save(data@, missing_time) == Ok::<WriteDataModel, Error>(record@),
            Err(e) => parse_save(data@, missing_time) == Err::<WriteDataModel, Error>(e),
        },
{
    Reader::new(data)?.into_write_data(missing_time)
}

} // verus!
