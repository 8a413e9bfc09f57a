//! What files of each version hold, at the versions where that changes.

use brs::bit_reader::BitReader;
use brs::bit_writer::BitWriter;
use brs::brick::{read_brick, write_brick, write_bricks, BrickLayout};
use brs::component::{read_components, renamed, ComponentEntry};
use brs::fields::{write_date_time, write_uuid};
use brs::header::{read_header1, read_header2};
use brs::read::Reader;
use brs::section::put_section;
use brs::text::write_string;
use brs::wire::{write_i32, write_u32};
use brs::{
    read_save, Brick, BrickOwner, Color, ColorMode, Direction, Error, IoError, Rotation,
    ScreenshotFormat, Timestamp, User, Uuid, Version,
};

const HOST: u16 = 7;

fn version(raw: u16) -> Version {
    Version::from_u16(raw).unwrap()
}

fn user(n: u128, name: &str) -> User {
    User { id: Uuid(n), name: name.to_string() }
}

/// The data of a first header as a file of the version `raw` holds it.
fn header1(raw: u16, bricks: i32) -> Vec<u8> {
    let mut out = Vec::new();
    write_string(&mut out, "Plate").unwrap();
    write_string(&mut out, "Author").unwrap();
    write_string(&mut out, "A description").unwrap();
    write_uuid(&mut out, &Uuid(0xa));
    if raw >= HOST {
        write_string(&mut out, "Host").unwrap();
        write_uuid(&mut out, &Uuid(0xb));
    }
    if raw >= 4 {
        write_date_time(&mut out, Timestamp { secs: 100, nanos: 0 });
    }
    write_i32(&mut out, bricks);
    out
}

fn strings(out: &mut Vec<u8>, items: &[&str]) {
    write_i32(out, items.len() as i32);
    for item in items {
        write_string(out, item).unwrap();
    }
}

/// The data of a second header as a file of the version `raw` holds it.
fn header2(raw: u16) -> Vec<u8> {
    let mut out = Vec::new();
    strings(&mut out, &["a mod"]);
    strings(&mut out, &["PB_DefaultBrick", "PB_DefaultTile", "B_1x1"]);
    write_i32(&mut out, 2);
    write_u32(&mut out, 0x1122_3344);
    write_u32(&mut out, 0x5566_7788);
    if raw >= 2 {
        strings(&mut out, &["BMC_Ghost", "BMC_Plastic", "BMC_Glass"]);
    }
    if raw >= 3 {
        write_i32(&mut out, 2);
        for (n, name) in [(1u128, "One"), (2, "Two")] {
            write_uuid(&mut out, &Uuid(n));
            write_string(&mut out, name).unwrap();
            if raw >= HOST {
                write_u32(&mut out, 10 * n as u32);
            }
        }
    }
    out
}

fn raw_section(out: &mut Vec<u8>, data: &[u8]) {
    put_section(out, data, &[]).unwrap();
}

/// A whole file of the version `raw`, with the bricks of `stream` and no
/// components.
fn file(raw: u16, bricks: i32, stream: &[u8], screenshot: &[u8]) -> Vec<u8> {
    let mut out = b"BRS".to_vec();
    out.extend_from_slice(&raw.to_le_bytes());
    if raw >= HOST {
        write_u32(&mut out, 6000);
    }
    raw_section(&mut out, &header1(raw, bricks));
    raw_section(&mut out, &header2(raw));
    if raw >= 6 {
        out.extend_from_slice(screenshot);
    }
    raw_section(&mut out, stream);
    if raw >= 5 {
        raw_section(&mut out, &[0, 0, 0, 0]);
    }
    out
}

fn layout(raw: u16) -> BrickLayout {
    BrickLayout { version: version(raw), asset_count: 3, material_count: 3, color_count: 2 }
}

fn plain_brick() -> Brick {
    Brick {
        asset_name_index: 0,
        size: (0, 0, 0),
        position: (0, 0, 0),
        direction: Direction::ZPositive,
        rotation: Rotation::Deg0,
        collision: true,
        visibility: true,
        material_index: 1,
        color: ColorMode::Custom(Color::from_rgba(255, 0, 0, 255)),
        owner_index: None,
    }
}

#[test]
fn the_host_is_there_from_its_version_on() {
    let old = read_header1(&header1(6, 0), version(6)).unwrap();
    assert_eq!(old.host, None);
    let new = read_header1(&header1(7, 0), version(7)).unwrap();
    assert_eq!(new.host, Some(user(0xb, "Host")));
    for header in [old, new] {
        assert_eq!(header.map, "Plate");
        assert_eq!(header.author, user(0xa, "Author"));
        assert_eq!(header.description, "A description");
    }
}

#[test]
fn the_time_is_there_from_its_version_on() {
    let old = read_header1(&header1(3, 5), version(3)).unwrap();
    assert_eq!(old.time_saved, None);
    assert_eq!(old.brick_count, 5);
    let new = read_header1(&header1(4, 5), version(4)).unwrap();
    assert_eq!(new.time_saved, Some(Timestamp { secs: 100, nanos: 0 }));
    assert_eq!(new.brick_count, 5);
}

#[test]
fn a_negative_number_of_bricks_is_none() {
    assert_eq!(read_header1(&header1(8, -1), version(8)).unwrap().brick_count, 0);
    assert_eq!(read_header1(&header1(8, i32::MIN), version(8)).unwrap().brick_count, 0);
    assert_eq!(read_header1(&header1(8, i32::MAX), version(8)).unwrap().brick_count, 0x7fff_ffff);
}

#[test]
fn a_header_that_is_cut_short_is_an_error() {
    let whole = header1(8, 3);
    for len in 0..whole.len() {
        assert_eq!(
            read_header1(&whole[..len], version(8)),
            Err(Error::Io(IoError::UnexpectedEof))
        );
    }
    let whole = header2(8);
    for len in 0..whole.len() {
        assert_eq!(
            read_header2(&whole[..len], version(8)),
            Err(Error::Io(IoError::UnexpectedEof))
        );
    }
    // A header of an older version is cut short for a newer one.
    assert_eq!(read_header1(&header1(6, 3), version(7)), Err(Error::Io(IoError::UnexpectedEof)));
}

#[test]
fn the_materials_of_an_old_file_are_the_four_that_there_were() {
    let header = read_header2(&header2(1), Version::Initial).unwrap();
    assert_eq!(
        header.materials,
        vec!["BMC_Hologram", "BMC_Plastic", "BMC_Glow", "BMC_Metallic"]
    );
    assert_eq!(header.brick_assets, vec!["PB_DefaultBrick", "PB_DefaultTile", "B_1x1"]);
    assert_eq!(header.colors, vec![Color(0x1122_3344), Color(0x5566_7788)]);
    assert_eq!(header.mods, vec!["a mod"]);
    assert!(header.brick_owners.is_empty());
}

#[test]
fn the_materials_are_named_from_their_version_on() {
    let header = read_header2(&header2(2), version(2)).unwrap();
    assert_eq!(header.materials, vec!["BMC_Ghost", "BMC_Plastic", "BMC_Glass"]);
    assert!(header.brick_owners.is_empty());
}

#[test]
fn the_owners_are_there_from_their_version_on() {
    let old = read_header2(&header2(2), version(2)).unwrap();
    assert!(old.brick_owners.is_empty());
    let new = read_header2(&header2(3), version(3)).unwrap();
    assert_eq!(
        new.brick_owners,
        vec![
            BrickOwner { user: user(1, "One"), brick_count: 0 },
            BrickOwner { user: user(2, "Two"), brick_count: 0 },
        ]
    );
}

#[test]
fn the_owners_count_their_bricks_from_their_version_on() {
    let old = read_header2(&header2(6), version(6)).unwrap();
    assert_eq!(old.brick_owners[1], BrickOwner { user: user(2, "Two"), brick_count: 0 });
    let new = read_header2(&header2(7), version(7)).unwrap();
    assert_eq!(
        new.brick_owners,
        vec![
            BrickOwner { user: user(1, "One"), brick_count: 10 },
            BrickOwner { user: user(2, "Two"), brick_count: 20 },
        ]
    );
}

#[test]
fn a_table_with_a_negative_count_is_empty() {
    let mut out = Vec::new();
    write_i32(&mut out, -1);
    write_i32(&mut out, 0);
    write_i32(&mut out, -5);
    write_i32(&mut out, 0);
    write_i32(&mut out, i32::MIN);
    let header = read_header2(&out, version(8)).unwrap();
    assert!(header.mods.is_empty() && header.colors.is_empty() && header.brick_owners.is_empty());
}

#[test]
fn the_changelist_is_there_from_its_version_on() {
    let stream = [0u8];
    let old = Reader::new(file(6, 0, &stream, &[0])).unwrap();
    assert_eq!(old.version(), Version::AddedScreenshotData);
    assert_eq!(old.game_version(), 3642);
    assert_eq!(old.host(), None);
    let new = Reader::new(file(7, 0, &stream, &[0])).unwrap();
    assert_eq!(
        new.version(),
        Version::AddedGameVersionAndHostAndOwnerDataAndImprovedMaterials
    );
    assert_eq!(new.game_version(), 6000);
    assert_eq!(new.host(), Some(&user(0xb, "Host")));
}

#[test]
fn every_version_that_can_be_read_is_read() {
    for raw in 2..=8u16 {
        let reader = Reader::new(file(raw, 0, &[0], &[0])).unwrap();
        assert_eq!(reader.version(), version(raw));
        assert_eq!(reader.map(), "Plate");
        assert_eq!(reader.time_saved().is_some(), raw >= 4);
        assert_eq!(reader.brick_owners().len(), if raw >= 3 { 2 } else { 0 });
        let (reader, mut bricks) = reader.bricks().unwrap();
        assert_eq!(bricks.next(), None);
        let (_, catalog) = reader.components().unwrap();
        assert_eq!(catalog.len(), 0);
    }
}

#[test]
fn the_time_of_a_file_without_one_is_the_one_that_is_given() {
    let given = Timestamp { secs: 12, nanos: 34 };
    let old = read_save(file(3, 0, &[0], &[0]), given).unwrap();
    assert_eq!(old.save_time, given);
    let new = read_save(file(4, 0, &[0], &[0]), given).unwrap();
    assert_eq!(new.save_time, Timestamp { secs: 100, nanos: 0 });
}

/// The bits of the plain brick as files before the version of the host
/// hold them: a clear flag where the material is the second one.
fn old_brick_bits() -> Vec<u8> {
    let mut w = BitWriter::new(Vec::new());
    w.write_int(0, 3).unwrap();
    w.write_bit(false);
    w.write_int_vector_packed((0, 0, 0)).unwrap();
    w.write_int(16, 24).unwrap();
    w.write_bit(true);
    w.write_bit(true);
    w.write_bit(false);
    w.write_bit(true);
    w.write_value(Color::from_rgba(255, 0, 0, 255).0 as u64, 32);
    w.write_int_packed(0);
    w.finish()
}

#[test]
fn one_brick_of_the_second_material_and_a_color_of_its_own() {
    let bits = old_brick_bits();
    // Two bits of asset and one of size, three bytes of position, five bits
    // of orientation, two flags, one flag of material, one of color, four
    // bytes of color and one of owner: 12 bits and 8 bytes.
    assert_eq!(bits.len(), 10);
    assert_eq!(
        bits,
        vec![
            0b0000_0000, // asset 00, no size, five bits of position
            0b0000_0000,
            0b0000_0000,
            0b1000_0000, // three bits of position, 0000 and then 1 of the orientation 16
            0b0000_1011, // collision, visibility, no material, a color: blue from here
            0b0000_0000, // green
            0b1111_0000, // red
            0b1111_1111, // alpha
            0b0000_1111, // alpha, and from here the owner
            0b0000_0000,
        ]
    );
    for raw in 3..=6u16 {
        let mut reader = BitReader::new(bits.clone());
        assert_eq!(read_brick(&mut reader, layout(raw)), Ok(plain_brick()));
        assert_eq!(reader.position(), (9, 4));
    }
}

#[test]
fn the_material_is_an_index_from_its_version_on() {
    // Before: a set flag and a packed integer.
    let mut w = BitWriter::new(Vec::new());
    w.write_int(2, 3).unwrap();
    w.write_bit(false);
    w.write_int_vector_packed((1, -1, 0)).unwrap();
    w.write_int(7, 24).unwrap();
    w.write_bit(false);
    w.write_bit(true);
    w.write_bit(true);
    w.write_int_packed(300);
    w.write_bit(false);
    w.write_int(1, 2).unwrap();
    w.write_int_packed(3);
    let expected = Brick {
        asset_name_index: 2,
        size: (0, 0, 0),
        position: (1, -1, 0),
        direction: Direction::XNegative,
        rotation: Rotation::Deg270,
        collision: false,
        visibility: true,
        material_index: 300,
        color: ColorMode::Palette(1),
        owner_index: Some(2),
    };
    let mut reader = BitReader::new(w.finish());
    assert_eq!(read_brick(&mut reader, layout(6)), Ok(expected));
    // From then on: an index below the size of the table.
    let mut w = BitWriter::new(Vec::new());
    let newer = Brick { material_index: 2, ..expected };
    assert_eq!(write_brick(&mut w, &newer, layout(8)), Ok(()));
    let bits = w.finish();
    let mut reader = BitReader::new(bits.clone());
    assert_eq!(read_brick(&mut reader, layout(7)), Ok(newer));
    let mut reader = BitReader::new(bits);
    assert_eq!(read_brick(&mut reader, layout(8)), Ok(newer));
}

#[test]
fn the_owner_is_there_from_its_version_on() {
    let bits = old_brick_bits();
    let mut reader = BitReader::new(bits.clone());
    assert_eq!(read_brick(&mut reader, layout(2)), Ok(plain_brick()));
    // The byte of the owner is not read.
    assert_eq!(reader.position(), (8, 4));
    let mut w = BitWriter::new(Vec::new());
    w.write_bits(&bits, 8 * 8 + 4);
    w.write_int_packed(5);
    let mut reader = BitReader::new(w.finish());
    assert_eq!(
        read_brick(&mut reader, layout(3)),
        Ok(Brick { owner_index: Some(4), ..plain_brick() })
    );
}

#[test]
fn a_brick_of_the_newest_version_is_written_bit_by_bit() {
    let mut w = BitWriter::new(Vec::new());
    let one_of_each = BrickLayout {
        version: Version::RenamedComponentDescriptors,
        asset_count: 1,
        material_count: 1,
        color_count: 1,
    };
    assert_eq!(write_brick(&mut w, &plain_brick(), one_of_each), Ok(()));
    // One bit of asset and one of size, three bytes of position, five bits
    // of orientation, two flags, one bit of material, one flag of color,
    // four bytes of color and one of owner: 11 bits and 8 bytes.
    assert_eq!(
        w.finish(),
        vec![
            0b0000_0000, // asset 0, no size, six bits of position
            0b0000_0000,
            0b0000_0000,
            0b1100_0000, // two bits of position, 00001 of the orientation, collision
            0b0000_0111, // visibility, material 1, a color: blue from here
            0b0000_0000, // green
            0b1111_1000, // red
            0b1111_1111, // alpha
            0b0000_0111, // alpha, and from here the owner
            0b0000_0000,
        ]
    );
}

#[test]
fn every_brick_starts_at_a_byte() {
    let bricks = vec![plain_brick(), Brick { owner_index: Some(200), ..plain_brick() }];
    let stream = write_bricks(&bricks, layout(8)).unwrap();
    let mut one = BitWriter::new(Vec::new());
    write_brick(&mut one, &bricks[0], layout(8)).unwrap();
    let first = one.finish();
    // Twelve bits and eight bytes round up to ten bytes.
    assert_eq!(first.len(), 10);
    assert_eq!(&stream[..10], &first[..]);
    let mut two = BitWriter::new(Vec::new());
    write_brick(&mut two, &bricks[1], layout(8)).unwrap();
    assert_eq!(&stream[10..], &two.finish()[..]);
}

#[test]
fn no_bricks_make_one_clear_byte() {
    assert_eq!(write_bricks(&Vec::new(), layout(8)), Ok(vec![0]));
}

#[test]
fn bricks_are_handed_out_until_one_cannot_be_read() {
    let bricks = vec![plain_brick(); 3];
    let mut bytes = write_bricks(&bricks, layout(8)).unwrap();
    bytes.truncate(25);
    let mut found = Vec::new();
    let reader = Reader::new(file(8, 3, &bytes, &[0])).unwrap();
    let (_, mut reader) = reader.bricks().unwrap();
    while let Some(item) = reader.next() {
        found.push(item);
    }
    assert_eq!(
        found,
        vec![Ok(plain_brick()), Ok(plain_brick()), Err(Error::Io(IoError::UnexpectedEof))]
    );
    assert_eq!(reader.len(), 0);
    assert_eq!(reader.next(), None);
    assert_eq!(reader.collect(), Ok(Vec::new()));
    assert_eq!(
        read_save(file(8, 3, &bytes, &[0]), Timestamp::epoch()),
        Err(Error::Io(IoError::UnexpectedEof))
    );
}

#[test]
fn bricks_are_written_for_the_newest_version_only() {
    for raw in 1..8u16 {
        assert_eq!(write_bricks(&vec![plain_brick()], layout(raw)), Err(Error::InvalidInput));
        let mut w = BitWriter::new(Vec::new());
        assert_eq!(write_brick(&mut w, &plain_brick(), layout(raw)), Err(Error::InvalidInput));
        assert_eq!(w.finish(), Vec::<u8>::new());
    }
}

#[test]
fn a_brick_that_cannot_be_read_leaves_the_reader_where_it_was() {
    let mut bits = old_brick_bits();
    bits.truncate(6);
    let mut padded = vec![0xff];
    padded.extend_from_slice(&bits);
    let mut reader = BitReader::new(padded);
    reader.skip(8).unwrap();
    assert_eq!(read_brick(&mut reader, layout(4)), Err(Error::Io(IoError::UnexpectedEof)));
    assert_eq!(reader.position(), (1, 0));
}

#[test]
fn bits_behind_the_last_brick_are_not_looked_at() {
    let mut bytes = write_bricks(&vec![plain_brick()], layout(8)).unwrap();
    bytes.extend_from_slice(&[0, 0, 0xff]);
    let back = read_save(file(8, 1, &bytes, &[0]), Timestamp::epoch()).unwrap();
    assert_eq!(back.bricks, vec![plain_brick()]);
}

#[test]
fn the_screenshot_is_there_from_its_version_on() {
    let png = [1u8, 4, 0, 0, 0, 0x89, b'P', b'N', b'G'];
    // A file that is too old has no marker, and its bricks come at once.
    let old = Reader::new(file(5, 0, &[0], &png)).unwrap();
    assert_eq!(old.screenshot_info(), None);
    let (old, shot) = old.screenshot_data().unwrap();
    assert!(shot.is_none());
    assert!(old.bricks().is_ok());
    let new = Reader::new(file(6, 0, &[0], &png)).unwrap();
    assert_eq!(new.screenshot_info(), Some((ScreenshotFormat::Png, 4)));
    assert_eq!(new.screenshot_format(), Some(ScreenshotFormat::Png));
    let (new, shot) = new.screenshot_data().unwrap();
    let shot = shot.unwrap();
    assert_eq!(shot.format, ScreenshotFormat::Png);
    assert_eq!(shot.data, vec![0x89, b'P', b'N', b'G']);
    assert!(new.bricks().is_ok());
}

#[test]
fn the_screenshot_can_be_passed_over() {
    let png = [1u8, 4, 0, 0, 0, 0x89, b'P', b'N', b'G'];
    let bytes = write_bricks(&vec![plain_brick()], layout(8)).unwrap();
    let reader = Reader::new(file(8, 1, &bytes, &png)).unwrap();
    let (_, mut bricks) = reader.bricks().unwrap();
    assert_eq!(bricks.collect(), Ok(vec![plain_brick()]));
    let data = read_save(file(8, 1, &bytes, &png), Timestamp::epoch()).unwrap();
    assert_eq!(data.bricks, vec![plain_brick()]);
    assert_eq!(data.brick_owners[1].brick_count, 20);
}

#[test]
fn a_screenshot_of_no_bytes_is_a_screenshot() {
    let reader = Reader::new(file(8, 0, &[0], &[1, 0, 0, 0, 0])).unwrap();
    assert_eq!(reader.screenshot_info(), Some((ScreenshotFormat::Png, 0)));
    let (_, shot) = reader.screenshot_data().unwrap();
    assert_eq!(shot.unwrap().data, Vec::<u8>::new());
}

#[test]
fn an_unknown_screenshot_format_is_refused() {
    assert_eq!(
        Reader::new(file(8, 0, &[0], &[2, 4, 0, 0, 0, 1, 2, 3, 4])).err(),
        Some(Error::UnknownScreenshotFormat(2))
    );
    assert_eq!(
        Reader::new(file(6, 0, &[0], &[0xff])).err(),
        Some(Error::UnknownScreenshotFormat(0xff))
    );
}

#[test]
fn a_negative_screenshot_length_is_refused() {
    assert_eq!(
        Reader::new(file(8, 0, &[0], &[1, 0xff, 0xff, 0xff, 0xff])).err(),
        Some(Error::InvalidInput)
    );
}

#[test]
fn a_screenshot_that_is_cut_short_is_an_error() {
    let mut bytes = file(6, 0, &[0], &[1, 100, 0, 0, 0, 1, 2, 3]);
    let reader = Reader::new(bytes.clone()).unwrap();
    assert_eq!(reader.screenshot_data().err(), Some(Error::Io(IoError::UnexpectedEof)));
    let reader = Reader::new(bytes.clone()).unwrap();
    assert_eq!(reader.bricks().err(), Some(Error::Io(IoError::UnexpectedEof)));
    // Cut within the length of the screenshot.
    bytes.truncate(bytes.len() - 12 - 9 - 3 - 2);
    assert_eq!(Reader::new(bytes).err(), Some(Error::Io(IoError::UnexpectedEof)));
}

/// The data of a section of two components with payloads of 12 and 3 bits.
fn components() -> Vec<u8> {
    let mut out = Vec::new();
    write_i32(&mut out, 2);
    write_string(&mut out, "BTD_Light_BTD").unwrap();
    write_u32(&mut out, 12);
    out.extend_from_slice(&[0xff, 0x0f]);
    write_string(&mut out, "Компонент").unwrap();
    write_u32(&mut out, 3);
    out.push(0x07);
    out
}

fn with_components(raw: u16, data: &[u8]) -> Vec<u8> {
    let mut out = file(raw, 0, &[0], &[0]);
    out.truncate(out.len() - 12);
    raw_section(&mut out, data);
    out
}

#[test]
fn the_catalog_says_what_is_there_and_where() {
    let data = components();
    let catalog = read_components(&data, version(8)).unwrap();
    assert_eq!(catalog.len(), 2);
    assert_eq!(catalog.name(0), "BTD_Light_BTD");
    assert_eq!(catalog.name(1), "Компонент");
    assert_eq!(catalog.names(), vec!["BTD_Light_BTD", "Компонент"]);
    assert_eq!(
        catalog.entries,
        vec![
            ComponentEntry { name: "BTD_Light_BTD".to_string(), data_len: 12, data_pos: 8 * 26 },
            ComponentEntry { name: "Компонент".to_string(), data_len: 3, data_pos: 8 * 56 },
        ]
    );
}

#[test]
fn the_names_of_components_are_renamed_in_old_files() {
    let data = components();
    let old = read_components(&data, version(7)).unwrap();
    assert_eq!(old.names(), vec!["BCD_Light_BCD", "Компонент"]);
    let new = read_components(&data, version(8)).unwrap();
    assert_eq!(new.names(), vec!["BTD_Light_BTD", "Компонент"]);
    assert_eq!(renamed("BTD"), "BCD");
    assert_eq!(renamed("BTBTDTD BTd btd BT"), "BTBCDTD BTd btd BT");
    assert_eq!(renamed("BTDBTDB"), "BCDBCDB");
    assert_eq!(renamed(""), "");
    assert_eq!(renamed("ÄBTDÖ"), "ÄBCDÖ");
}

#[test]
fn the_components_are_there_from_their_version_on() {
    let old = Reader::new(file(4, 0, &[0], &[0])).unwrap();
    let (_, catalog) = old.bricks().unwrap().0.components().unwrap();
    assert_eq!(catalog.len(), 0);
    let new = Reader::new(with_components(5, &components())).unwrap();
    let (_, catalog) = new.bricks().unwrap().0.components().unwrap();
    assert_eq!(catalog.names(), vec!["BCD_Light_BCD", "Компонент"]);
    let newest = Reader::new(with_components(8, &components())).unwrap();
    let (reader, _) = newest.screenshot_data().unwrap();
    let (_, catalog) = reader.components().unwrap();
    assert_eq!(catalog.names(), vec!["BTD_Light_BTD", "Компонент"]);
}

#[test]
fn a_catalog_that_is_cut_short_is_an_error() {
    let whole = components();
    for len in 0..whole.len() {
        assert_eq!(
            read_components(&whole[..len], version(8)),
            Err(Error::Io(IoError::UnexpectedEof)),
            "{}",
            len
        );
    }
    // The last payload may end within the last byte.
    let mut longer = whole.clone();
    longer[whole.len() - 5] = 8;
    assert!(read_components(&longer, version(8)).is_ok());
    longer[whole.len() - 5] = 9;
    assert_eq!(read_components(&longer, version(8)), Err(Error::Io(IoError::UnexpectedEof)));
}

#[test]
fn a_catalog_with_a_negative_count_is_empty() {
    assert_eq!(read_components(&[0xff, 0xff, 0xff, 0xff, 1, 2], version(8)).unwrap().len(), 0);
    assert_eq!(read_components(&[0, 0, 0, 0], version(8)).unwrap().len(), 0);
}
