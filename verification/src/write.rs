//! Writing a save file of the newest version.

use crate::brick::{brick_stream, BrickLayout, bricks_ok, size_of_table, table_size, write_bricks};
use crate::error::{Error, IoError};
use crate::fields::{
    datetime_bytes, items_bytes, lemma_items_bytes_push, owner_bytes, table_bytes, uuid_bytes,
    write_date_time, write_owner, write_uuid,
};
use crate::header::{names, owners};
use crate::read::parse_save;
use crate::roundtrip::{lemma_save_roundtrip, read_back};
use crate::save::{
    Brick, BrickOwner, BrickOwnerModel, Color, DEFAULT_GAME_VERSION, MAX_VERSION_READ,
    SCREENSHOT_NONE, Timestamp, User, UserModel, Uuid, Version,
};
use crate::section::{frameable, section_bytes, write_section, zlib_deflate};
use crate::text::{string_bytes, write_string};
use crate::wire::{append, le_bytes, twos, write_i32, write_u16, write_u32};
use vstd::prelude::*;

verus! {

/// Everything that a save file of the newest version is written from.
#[derive(Debug, Clone, PartialEq, Eq)]
pub struct WriteData {
    /// The name of the map that the save was made on.
    pub map: String,
    /// The user who made the save.
    pub author: User,
    /// A short description of the save.
    pub description: String,
    /// When the save was made.
    pub save_time: Timestamp,
    /// The mods that the save uses.
    pub mods: Vec<String>,
    /// The names that bricks point to for their assets, such as
    /// `PB_DefaultBrick`.
    pub brick_assets: Vec<String>,
    /// The colors that bricks point to.
    pub colors: Vec<Color>,
    /// The names that bricks point to for their materials, such as
    /// `BMC_Plastic`.
    pub materials: Vec<String>,
    /// The owners that bricks point to.
    pub brick_owners: Vec<BrickOwner>,
    /// All the bricks of the save.
    pub bricks: Vec<Brick>,
}

/// What a `WriteData` holds.
pub struct WriteDataModel {
    pub map: Seq<char>,
    pub author: UserModel,
    pub description: Seq<char>,
    pub save_time: Timestamp,
    pub mods: Seq<Seq<char>>,
    pub brick_assets: Seq<Seq<char>>,
    pub colors: Seq<Color>,
    pub materials: Seq<Seq<char>>,
    pub brick_owners: Seq<BrickOwnerModel>,
    pub bricks: Seq<Brick>,
}

impl View for WriteData {
    type V = WriteDataModel;

    open spec fn view(&self) -> WriteDataModel {
        WriteDataModel {
            map: self.map@,
            author: self.author@,
            description: self.description@,
            save_time: self.save_time,
            mods: names(self.mods@),
            brick_assets: names(self.brick_assets@),
            colors: self.colors@,
            materials: names(self.materials@),
            brick_owners: owners(self.brick_owners@),
            bricks: self.bricks@,
        }
    }
}

/// The version that is written.
pub const LATEST_VERSION: u16 = 8;

/// The host that is written: nobody who is known.
pub open spec fn written_host() -> UserModel {
    UserModel { id: Uuid(0), name: "Unknown"@ }
}

/// How a string is written as an item of a table. A string that cannot be
/// written stands for no bytes here, and makes the table fail elsewhere.
pub open spec fn string_item_bytes() -> spec_fn(Seq<char>) -> Seq<u8> {
    |s: Seq<char>|
        match string_bytes(s) {
            Ok(bytes) => bytes,
            Err(_) => Seq::empty(),
        }
}

/// How a color is written as an item of a table.
pub open spec fn color_item_bytes() -> spec_fn(Color) -> Seq<u8> {
    |c: Color| le_bytes(c.0 as nat, 4)
}

/// How an owner is written as an item of a table.
pub open spec fn owner_item_bytes() -> spec_fn(BrickOwnerModel) -> Seq<u8> {
    |o: BrickOwnerModel|
        match owner_bytes(o) {
            Ok(bytes) => bytes,
            Err(_) => Seq::empty(),
        }
}

/// The first of the strings that cannot be written, if there is one, and
/// why it cannot.
pub open spec fn first_string_error(items: Seq<Seq<char>>) -> Option<Error>
    decreases items.len(),
{
    if items.len() == 0 {
        None
    } else {
        match string_bytes(items[0]) {
            Err(e) => Some(e),
            Ok(_) => first_string_error(items.skip(1)),
        }
    }
}

/// The bytes of a table of strings: refused if the table is too long for
/// its count to be written, or one of the strings cannot be written.
pub open spec fn strings_table(items: Seq<Seq<char>>) -> Result<Seq<u8>, Error> {
    if items.len() > i32::MAX {
        Err(Error::InvalidInput)
    } else {
        match first_string_error(items) {
            Some(e) => Err(e),
            None => Ok(table_bytes(items, string_item_bytes())),
        }
    }
}

/// The bytes of a table of colors: refused if the table is too long.
pub open spec fn colors_table(items: Seq<Color>) -> Result<Seq<u8>, Error> {
    if items.len() > i32::MAX {
        Err(Error::InvalidInput)
    } else {
        Ok(table_bytes(items, color_item_bytes()))
    }
}

/// The names of owners, in the order of their table.
pub open spec fn owner_names(items: Seq<BrickOwnerModel>) -> Seq<Seq<char>> {
    Seq::new(items.len(), |i: int| items[i].user.name)
}

/// The bytes of a table of owners: refused if the table is too long, or
/// the name of one of the owners cannot be written.
pub open spec fn owners_table(items: Seq<BrickOwnerModel>) -> Result<Seq<u8>, Error> {
    if items.len() > i32::MAX {
        Err(Error::InvalidInput)
    } else {
        match first_string_error(owner_names(items)) {
            Some(e) => Err(e),
            None => Ok(table_bytes(items, owner_item_bytes())),
        }
    }
}

/// Goes on with `rest` behind the bytes of `first`, or fails as `first`
/// did.
pub open spec fn and<A>(first: Result<Seq<u8>, Error>, rest: spec_fn(Seq<u8>) -> Result<A, Error>)
    -> Result<A, Error> {
    match first {
        Ok(bytes) => rest(bytes),
        Err(e) => Err(e),
    }
}

/// What the first header of a record holds once the number of its bricks
/// is known to fit.
pub open spec fn header1_fields(d: WriteDataModel) -> Result<Seq<u8>, Error> {
    and(
        string_bytes(d.map),
        |map: Seq<u8>|
            and(
                string_bytes(d.author.name),
                |author: Seq<u8>|
                    and(
                        string_bytes(d.description),
                        |description: Seq<u8>|
                            and(
                                string_bytes(written_host().name),
                                |host: Seq<u8>|
                                    Ok(
                                        map + author + description + uuid_bytes(d.author.id) + host
                                            + uuid_bytes(written_host().id) + datetime_bytes(
                                            d.save_time,
                                        ) + le_bytes(twos(d.bricks.len() as int, 32), 4),
                                    ),
                            ),
                    ),
            ),
    )
}

/// The data of the first header of a record: the map, the name of the
/// author, the description, the identifier of the author, the host, the
/// time and the number of bricks. A record with more bricks than a signed
/// 32-bit count holds is refused before anything else.
#[verifier::opaque]
pub open spec fn header1_data(d: WriteDataModel) -> Result<Seq<u8>, Error> {
    if d.bricks.len() > i32::MAX {
        Err(Error::InvalidInput)
    } else {
        header1_fields(d)
    }
}

/// The data of the second header of a record: its five tables.
#[verifier::opaque]
pub open spec fn header2_data(d: WriteDataModel) -> Result<Seq<u8>, Error> {
    and(
        strings_table(d.mods),
        |mods: Seq<u8>|
            and(
                strings_table(d.brick_assets),
                |assets: Seq<u8>|
                    and(
                        colors_table(d.colors),
                        |colors: Seq<u8>|
                            and(
                                strings_table(d.materials),
                                |materials: Seq<u8>|
                                    and(
                                        owners_table(d.brick_owners),
                                        |table: Seq<u8>|
                                            Ok(mods + assets + colors + materials + table),
                                    ),
                            ),
                    ),
            ),
    )
}

/// What the encoding of the bricks of a record depends on.
pub open spec fn written_layout(d: WriteDataModel) -> BrickLayout {
    BrickLayout {
        version: Version::RenamedComponentDescriptors,
        asset_count: table_size(d.brick_assets.len()),
        material_count: table_size(d.materials.len()),
        color_count: table_size(d.colors.len()),
    }
}

/// The data of the section of bricks of a record: refused if the encoder
/// does not take one of the bricks.
pub open spec fn bricks_data(d: WriteDataModel) -> Result<Seq<u8>, Error> {
    if bricks_ok(d.bricks, written_layout(d)) {
        Ok(brick_stream(d.bricks, written_layout(d)))
    } else {
        Err(Error::InvalidInput)
    }
}

/// The data of the section of components that is written: a count of zero.
pub open spec fn components_data() -> Seq<u8> {
    le_bytes(0, 4)
}

/// The data of the four sections of a record, in the order of the file.
#[verifier::opaque]
pub open spec fn save_sections(d: WriteDataModel) -> Result<
    (Seq<u8>, Seq<u8>, Seq<u8>, Seq<u8>),
    Error,
> {
    and(
        header1_data(d),
        |first: Seq<u8>|
            and(
                header2_data(d),
                |second: Seq<u8>|
                    and(
                        bricks_data(d),
                        |bricks: Seq<u8>|
                            if frameable(first) && frameable(second) && frameable(bricks) {
                                Ok((first, second, bricks, components_data()))
                            } else {
                                Err(Error::InvalidInput)
                            },
                    ),
            ),
    )
}

/// What a file starts with: the magic, the newest version and the
/// changelist of the game that is written.
pub open spec fn preamble_bytes() -> Seq<u8> {
    seq![0x42u8, 0x52u8, 0x53u8] + le_bytes(8, 2) + le_bytes(DEFAULT_GAME_VERSION as nat, 4)
}

/// The file that is made of the data of its four sections, where a stream
/// is made of each: the preamble, the two headers, the marker for no
/// screenshot, the bricks and the components.
pub open spec fn file_bytes(sections: (Seq<u8>, Seq<u8>, Seq<u8>, Seq<u8>)) -> Option<Seq<u8>> {
    match section_bytes(sections.0) {
        None => None,
        Some(first) => match section_bytes(sections.1) {
            None => None,
            Some(second) => match section_bytes(sections.2) {
                None => None,
                Some(bricks) => match section_bytes(sections.3) {
                    None => None,
                    Some(components) => Some(
                        preamble_bytes() + first + second + seq![0u8] + bricks + components,
                    ),
                },
            },
        },
    }
}

/// The file that is written for a record: refused as the data of its
/// sections is, and failing where no stream is made of one of them.
pub open spec fn save_bytes(d: WriteDataModel) -> Result<Seq<u8>, Error> {
    match save_sections(d) {
        Ok(sections) => match file_bytes(sections) {
            Some(bytes) => Ok(bytes),
            None => Err(Error::Io(IoError::InvalidData)),
        },
        Err(e) => Err(e),
    }
}

/// Packs a table of strings.
fn pack_strings(out: &mut Vec<u8>, items: &Vec<String>) -> (result: Result<(), Error>)
    ensures
        match strings_table(names(items@)) {
            Ok(bytes) => result is Ok && final(out)@ == old(out)@ + bytes,
            Err(e) => result == Err::<(), Error>(e),
        },
{
    let ghost before = out@;
    let ghost all = names(items@);
    if items.len() > 0x7fff_ffff {
        return Err(Error::InvalidInput);
    }
    write_i32(out, items.len() as i32);
    let ghost head = out@;
    let mut index: usize = 0;
    assert(all.subrange(0, 0) =~= Seq::<Seq<char>>::empty());
    assert(out@ =~= head + items_bytes(all.subrange(0, 0), string_item_bytes()));
    assert(all.skip(0) =~= all);
    while index < items.len()
        invariant
            index <= items@.len() <= i32::MAX,
            all == names(items@),
            first_string_error(all) == first_string_error(all.skip(index as int)),
            out@ == head + items_bytes(all.subrange(0, index as int), string_item_bytes()),
        decreases items@.len() - index,
    {
        let ghost done = all.subrange(0, index as int);
        proof {
            lemma_items_bytes_push(done, all[index as int], string_item_bytes());
            assert(done.push(all[index as int]) =~= all.subrange(0, index + 1));
            assert(all.skip(index as int).skip(1) =~= all.skip(index + 1));
            assert(all.skip(index as int)[0] == items@[index as int]@);
        }
        write_string(out, items[index].as_str())?;
        index = index + 1;
        assert(out@ =~= head + items_bytes(all.subrange(0, index as int), string_item_bytes()));
    }
    assert(all.subrange(0, all.len() as int) =~= all);
    assert(out@ =~= before + table_bytes(all, string_item_bytes()));
    Ok(())
}

/// Packs a table of colors.
fn pack_colors(out: &mut Vec<u8>, items: &Vec<Color>) -> (result: Result<(), Error>)
    ensures
        match colors_table(items@) {
            Ok(bytes) => result is Ok && final(out)@ == old(out)@ + bytes,
            Err(e) => result == Err::<(), Error>(e),
        },
{
    let ghost before = out@;
    let ghost all = items@;
    if items.len() > 0x7fff_ffff {
        return Err(Error::InvalidInput);
    }
    write_i32(out, items.len() as i32);
    let ghost head = out@;
    let mut index: usize = 0;
    assert(all.subrange(0, 0) =~= Seq::<Color>::empty());
    assert(out@ =~= head + items_bytes(all.subrange(0, 0), color_item_bytes()));
    while index < items.len()
        invariant
            index <= items@.len(),
            all == items@,
            out@ == head + items_bytes(all.subrange(0, index as int), color_item_bytes()),
        decreases items@.len() - index,
    {
        let ghost done = all.subrange(0, index as int);
        proof {
            lemma_items_bytes_push(done, all[index as int], color_item_bytes());
            assert(done.push(all[index as int]) =~= all.subrange(0, index + 1));
        }
        write_u32(out, items[index].0);
        index = index + 1;
        assert(out@ =~= head + items_bytes(all.subrange(0, index as int), color_item_bytes()));
    }
    assert(all.subrange(0, all.len() as int) =~= all);
    assert(out@ =~= before + table_bytes(all, color_item_bytes()));
    Ok(())
}

/// Packs a table of owners.
fn pack_owners(out: &mut Vec<u8>, items: &Vec<BrickOwner>) -> (result: Result<(), Error>)
    ensures
        match owners_table(owners(items@)) {
            Ok(bytes) => result is Ok && final(out)@ == old(out)@ + bytes,
            Err(e) => result == Err::<(), Error>(e),
        },
{
    let ghost before = out@;
    let ghost all = owners(items@);
    let ghost labels = owner_names(all);
    if items.len() > 0x7fff_ffff {
        return Err(Error::InvalidInput);
    }
    write_i32(out, items.len() as i32);
    let ghost head = out@;
    let mut index: usize = 0;
    assert(all.subrange(0, 0) =~= Seq::<BrickOwnerModel>::empty());
    assert(out@ =~= head + items_bytes(all.subrange(0, 0), owner_item_bytes()));
    assert(labels.skip(0) =~= labels);
    while index < items.len()
        invariant
            index <= items@.len() <= i32::MAX,
            all == owners(items@),
            labels == owner_names(all),
            first_string_error(labels) == first_string_error(labels.skip(index as int)),
            out@ == head + items_bytes(all.subrange(0, index as int), owner_item_bytes()),
        decreases items@.len() - index,
    {
        let ghost done = all.subrange(0, index as int);
        proof {
            lemma_items_bytes_push(done, all[index as int], owner_item_bytes());
            assert(done.push(all[index as int]) =~= all.subrange(0, index + 1));
            assert(labels.skip(index as int).skip(1) =~= labels.skip(index + 1));
            assert(labels.skip(index as int)[0] == items@[index as int]@.user.name);
        }
        write_owner(out, &items[index])?;
        index = index + 1;
        assert(out@ =~= head + items_bytes(all.subrange(0, index as int), owner_item_bytes()));
    }
    assert(all.subrange(0, all.len() as int) =~= all);
    assert(out@ =~= before + table_bytes(all, owner_item_bytes()));
    Ok(())
}

/// Packs the data of the first header of a record.
pub fn pack_header1(data: &WriteData) -> (result: Result<Vec<u8>, Error>)
    ensures
        match header1_data(data@) {
            Ok(bytes) => result matches Ok(packed) && packed@ == bytes,
            Err(e) => result == Err::<Vec<u8>, Error>(e),
        },
{
    reveal(header1_data);
    if data.bricks.len() > 0x7fff_ffff {
        return Err(Error::InvalidInput);
    }
    let mut out: Vec<u8> = Vec::new();
    let host = User::default();
    write_string(&mut out, data.map.as_str())?;
    write_string(&mut out, data.author.name.as_str())?;
    write_string(&mut out, data.description.as_str())?;
    write_uuid(&mut out, &data.author.id);
    write_string(&mut out, host.name.as_str())?;
    write_uuid(&mut out, &host.id);
    write_date_time(&mut out, data.save_time);
    write_i32(&mut out, data.bricks.len() as i32);
    assert(host.id == written_host().id);
    assert(out@ =~= header1_data(data@)->Ok_0);
    Ok(out)
}

/// Packs the data of the second header of a record.
pub fn pack_header2(data: &WriteData) -> (result: Result<Vec<u8>, Error>)
    ensures
        match header2_data(data@) {
            Ok(bytes) => result matches Ok(packed) && packed@ == bytes,
            Err(e) => result == Err::<Vec<u8>, Error>(e),
        },
{
    reveal(header2_data);
    let mut out: Vec<u8> = Vec::new();
    pack_strings(&mut out, &data.mods)?;
    pack_strings(&mut out, &data.brick_assets)?;
    pack_colors(&mut out, &data.colors)?;
    pack_strings(&mut out, &data.materials)?;
    pack_owners(&mut out, &data.brick_owners)?;
    assert(out@ =~= header2_data(data@)->Ok_0);
    Ok(out)
}

/// What the encoding of the bricks of a record depends on.
pub fn layout_for(data: &WriteData) -> (layout: BrickLayout)
    ensures
        layout == written_layout(data@),
{
    BrickLayout {
        version: MAX_VERSION_READ,
        asset_count: size_of_table(data.brick_assets.len()),
        material_count: size_of_table(data.materials.len()),
        color_count: size_of_table(data.colors.len()),
    }
}

/// Packs the data of the four sections of a record.
pub fn pack_sections(data: &WriteData) -> (result: Result<
    (Vec<u8>, Vec<u8>, Vec<u8>, Vec<u8>),
    Error,
>)
    ensures
        match save_sections(data@) {
            Ok(sections) => result matches Ok(packed) && packed.0@ == sections.0 && packed.1@
                == sections.1 && packed.2@ == sections.2 && packed.3@ == sections.3,
            Err(e) => result == Err::<(Vec<u8>, Vec<u8>, Vec<u8>, Vec<u8>), Error>(e),
        },
{
    reveal(save_sections);
    let first = pack_header1(data)?;
    let second = pack_header2(data)?;
    let bricks = write_bricks(&data.bricks, layout_for(data))?;
    if first.len() == 0 || first.len() >= 0x7fff_ffff || second.len() == 0 || second.len()
        >= 0x7fff_ffff || bricks.len() == 0 || bricks.len() >= 0x7fff_ffff {
        return Err(Error::InvalidInput);
    }
    let mut components: Vec<u8> = Vec::new();
    write_i32(&mut components, 0);
    proof {
        vstd::arithmetic::power2::lemma2_to64();
    }
    assert(components@ =~= components_data());
    Ok((first, second, bricks, components))
}

/// Appends the section that holds `data`, which is known to fit in one.
fn frame(out: &mut Vec<u8>, data: &Vec<u8>) -> (result: Result<(), Error>)
    requires
        frameable(data@),
    ensures
        match section_bytes(data@) {
            Some(bytes) => result is Ok && final(out)@ == old(out)@ + bytes,
            None => result == Err::<(), Error>(Error::Io(IoError::InvalidData)),
        },
{
    write_section(out, data.as_slice())
}

/// Whether the data of a section fits in one.
fn fits(data: &Vec<u8>) -> (fits: bool)
    ensures
        fits == frameable(data@),
{
    0 < data.len() && data.len() < 0x7fff_ffff
}

/// Puts a file together from the data of its four sections. Data that
/// does not fit in a section is refused. The file is made of any other,
/// wherever a stream is made of each of the four.
pub fn pack_file(
    first: &Vec<u8>,
    second: &Vec<u8>,
    bricks: &Vec<u8>,
    components: &Vec<u8>,
) -> (result: Result<Vec<u8>, Error>)
    ensures
        if frameable(first@) && frameable(second@) && frameable(bricks@) && frameable(
            components@,
        ) {
            match file_bytes((first@, second@, bricks@, components@)) {
                Some(bytes) => result matches Ok(file) && file@ == bytes,
                None => result == Err::<Vec<u8>, Error>(Error::Io(IoError::InvalidData)),
            }
        } else {
            result == Err::<Vec<u8>, Error>(Error::InvalidInput)
        },
{
    if !fits(first) || !fits(second) || !fits(bricks) || !fits(components) {
        return Err(Error::InvalidInput);
    }
    let mut file: Vec<u8> = Vec::new();
    file.push(0x42);
    file.push(0x52);
    file.push(0x53);
    write_u16(&mut file, LATEST_VERSION);
    write_u32(&mut file, DEFAULT_GAME_VERSION);
    assert(file@ =~= preamble_bytes());
    frame(&mut file, first)?;
    frame(&mut file, second)?;
    file.push(SCREENSHOT_NONE);
    frame(&mut file, bricks)?;
    frame(&mut file, components)?;
    assert(file@ =~= file_bytes((first@, second@, bricks@, components@))->Some_0);
    Ok(file)
}

/// Writes a save file of the newest version that holds `data` behind what
/// `out` holds already.
///
/// What a record does not say is written as little as the format allows:
/// the changelist that is assumed for old files, a host of whom nothing is
/// known, no screenshot and no components.
///
/// A record that the format cannot hold is refused: one with a string that
/// fits neither encoding, with more bricks or table entries than a signed
/// 32-bit count holds, or with a brick that the encoder does not take.
/// Every other record is written, wherever a stream is made of each of its
/// sections. Nothing is written where the call fails.
///
/// The file that is written reads back as `data`, but for the time, which
/// comes back as the time of its tick count.
pub fn write_save(out: &mut Vec<u8>, data: &WriteData) -> (result: Result<(), Error>)
    ensures
        match save_bytes(data@) {
            Ok(bytes) => {
                &&& result is Ok
                &&& final(out)@ == old(out)@ + bytes
                &&& forall|missing_time: Timestamp| #[trigger]
                    parse_save(bytes, missing_time) == Ok::<WriteDataModel, Error>(
                        read_back(data@),
                    )
            },
            Err(e) => result == Err::<(), Error>(e) && final(out)@ == old(out)@,
        },
{
    let ghost record = data@;
    let (first, second, bricks, components) = pack_sections(data)?;
    let ghost sections = save_sections(record)->Ok_0;
    proof {
        lemma_components_frameable();
        crate::roundtrip::lemma_save_sections_parts(record);
        assert(sections == (first@, second@, bricks@, components@));
    }
    let file = pack_file(&first, &second, &bricks, &components)?;
    append(out, &file);
    assert(save_bytes(record) == Ok::<Seq<u8>, Error>(file@));
    assert forall|missing_time: Timestamp| #[trigger]
        parse_save(file@, missing_time) == Ok::<WriteDataModel, Error>(read_back(record)) by {
        lemma_save_roundtrip(record, missing_time);
    }
    Ok(())
}

/// Whether a record holds nothing that the format cannot hold: each of
/// its strings fits an encoding, each of its counts fits a signed 32-bit
/// count, and the encoder takes each of its bricks.
pub open spec fn writable(d: WriteDataModel) -> bool {
    &&& d.bricks.len() <= i32::MAX
    &&& string_bytes(d.map) is Ok
    &&& string_bytes(d.author.name) is Ok
    &&& string_bytes(d.description) is Ok
    &&& strings_table(d.mods) is Ok
    &&& strings_table(d.brick_assets) is Ok
    &&& colors_table(d.colors) is Ok
    &&& strings_table(d.materials) is Ok
    &&& owners_table(d.brick_owners) is Ok
    &&& bricks_ok(d.bricks, written_layout(d))
}

/// The name of the host that is written can be written.
pub proof fn lemma_host_writable()
    ensures
        string_bytes(written_host().name) is Ok,
{
    reveal_strlit("Unknown");
    let name = written_host().name;
    assert(name.len() == 7);
    assert(vstd::utf8::is_ascii_chars(name));
}

/// The data of the sections of a record is made if and only if the record
/// holds nothing that the format cannot hold, and the data of each of its
/// sections fits in a section.
pub proof fn lemma_sections_made(d: WriteDataModel)
    ensures
        save_sections(d) is Ok <==> ({
            &&& writable(d)
            &&& frameable(header1_data(d)->Ok_0)
            &&& frameable(header2_data(d)->Ok_0)
            &&& frameable(brick_stream(d.bricks, written_layout(d)))
        }),
{
    reveal(save_sections);
    reveal(header1_data);
    reveal(header2_data);
    lemma_host_writable();
}

/// A record is written if and only if the data of its sections is made,
/// and a stream of each of them. The file that is written starts with the
/// magic and the newest version.
pub proof fn lemma_file_made(d: WriteDataModel)
    ensures
        save_bytes(d) is Ok <==> ({
            let sections = save_sections(d)->Ok_0;
            &&& save_sections(d) is Ok
            &&& zlib_deflate(sections.0) is Some
            &&& zlib_deflate(sections.1) is Some
            &&& zlib_deflate(sections.2) is Some
            &&& zlib_deflate(sections.3) is Some
        }),
        save_bytes(d) matches Ok(bytes) ==> bytes.len() >= 9 && bytes.subrange(0, 5)
            == seq![0x42u8, 0x52u8, 0x53u8, 0x08u8, 0x00u8],
{
    if save_bytes(d) is Ok {
        let bytes = save_bytes(d)->Ok_0;
        vstd::arithmetic::power2::lemma2_to64();
        crate::wire::lemma_le_bytes_len(8, 2);
        crate::wire::lemma_le_bytes_len(DEFAULT_GAME_VERSION as nat, 4);
        reveal_with_fuel(crate::wire::le_bytes, 3);
        assert(preamble_bytes().len() == 9);
        assert(preamble_bytes().subrange(0, 5) =~= seq![0x42u8, 0x52u8, 0x53u8, 0x08u8, 0x00u8]);
        assert(bytes.subrange(0, 5) =~= preamble_bytes().subrange(0, 5));
    }
}

/// The data of the section of components that is written fits in one.
pub proof fn lemma_components_frameable()
    ensures
        frameable(components_data()),
{
    crate::wire::lemma_le_bytes_len(0, 4);
}

} // verus!
