//! Whole save files: written, read back, and read in stages.

use brs::read::{Init, Reader};
use brs::write::{pack_file, pack_header1, pack_header2, pack_sections};
use brs::{
    read_save, write_save, Brick, BrickOwner, Color, ColorMode, Direction, Error, IoError,
    Rotation, Timestamp, User, Uuid, Version, WriteData,
};

fn plate() -> WriteData {
    WriteData {
        map: "Plate".to_string(),
        author: User { id: Uuid::nil(), name: "J".to_string() },
        description: String::new(),
        save_time: Timestamp::epoch(),
        mods: Vec::new(),
        brick_assets: vec!["PB_DefaultBrick".to_string()],
        colors: vec![Color::from_rgba(255, 23, 198, 255)],
        materials: vec!["BMC_Plastic".to_string()],
        brick_owners: Vec::new(),
        bricks: Vec::new(),
    }
}

fn brick() -> Brick {
    Brick {
        asset_name_index: 0,
        size: (0, 0, 0),
        position: (0, 0, 0),
        direction: Direction::ZPositive,
        rotation: Rotation::Deg0,
        collision: true,
        visibility: true,
        material_index: 1,
        color: ColorMode::Custom(Color::from_rgba(255, 0, 0, 255)),
        owner_index: None,
    }
}

fn village() -> WriteData {
    let mut bricks = Vec::new();
    for i in 0..500u32 {
        bricks.push(Brick {
            asset_name_index: i % 3,
            size: if i % 2 == 0 { (0, 0, 0) } else { (i, 2 * i, 300_000 + i) },
            position: (i as i32 * 10 - 2000, -(i as i32), if i % 5 == 0 { i32::MAX } else { 7 }),
            direction: [
                Direction::XPositive,
                Direction::XNegative,
                Direction::YPositive,
                Direction::YNegative,
                Direction::ZPositive,
                Direction::ZNegative,
            ][(i % 6) as usize],
            rotation: [Rotation::Deg0, Rotation::Deg90, Rotation::Deg180, Rotation::Deg270]
                [(i % 4) as usize],
            collision: i % 3 == 0,
            visibility: i % 7 != 0,
            material_index: i % 4,
            color: if i % 2 == 0 {
                ColorMode::Palette(i % 5)
            } else {
                ColorMode::Custom(Color(i.wrapping_mul(0x0101_0101)))
            },
            owner_index: if i % 3 == 0 { None } else { Some(i % 2) },
        });
    }
    WriteData {
        map: "Studs".to_string(),
        author: User {
            id: Uuid::from_u128(0x0123_4567_89ab_cdef_0011_2233_4455_6677),
            name: "Zoë".to_string(),
        },
        description: "A quaint park full of ducks and turkeys.".to_string(),
        save_time: Timestamp { secs: 63_700_000_000, nanos: 123_456_700 },
        mods: vec!["first".to_string(), "второй".to_string()],
        brick_assets: vec![
            "PB_DefaultBrick".to_string(),
            "PB_DefaultTile".to_string(),
            "B_1x_Octo_T".to_string(),
        ],
        colors: vec![
            Color::from_rgba(255, 255, 255, 255),
            Color::from_rgba(0, 0, 0, 255),
            Color(0x1234_5678),
            Color(0),
            Color(u32::MAX),
        ],
        materials: vec![
            "BMC_Hologram".to_string(),
            "BMC_Plastic".to_string(),
            "BMC_Glow".to_string(),
            "BMC_Metallic".to_string(),
        ],
        brick_owners: vec![
            BrickOwner {
                user: User { id: Uuid::from_u128(1), name: "One".to_string() },
                brick_count: 166,
            },
            BrickOwner {
                user: User { id: Uuid::from_u128(u128::MAX), name: "二".to_string() },
                brick_count: u32::MAX,
            },
        ],
        bricks,
    }
}

fn file_of(data: &WriteData) -> Vec<u8> {
    let mut out = Vec::new();
    write_save(&mut out, data).unwrap();
    out
}

#[test]
fn an_empty_save_comes_back() {
    let data = plate();
    let file = file_of(&data);
    assert_eq!(&file[..3], b"BRS");
    assert_eq!(&file[3..5], &[8, 0]);
    assert_eq!(read_save(file, Timestamp { secs: 5, nanos: 5 }), Ok(data));
}

#[test]
fn a_save_of_one_brick_comes_back() {
    let mut data = plate();
    data.bricks.push(brick());
    assert_eq!(read_save(file_of(&data), Timestamp::epoch()), Ok(data));
}

#[test]
fn a_save_of_many_bricks_comes_back() {
    let data = village();
    let file = file_of(&data);
    assert_eq!(read_save(file, Timestamp::epoch()), Ok(data));
}

#[test]
fn a_save_is_written_behind_what_is_there() {
    let data = plate();
    let mut out = vec![1, 2, 3];
    write_save(&mut out, &data).unwrap();
    assert_eq!(&out[..3], &[1, 2, 3]);
    assert_eq!(&out[3..], &file_of(&data)[..]);
}

#[test]
fn the_time_comes_back_to_a_tick() {
    let mut data = plate();
    data.save_time = Timestamp { secs: 63_000_000_000, nanos: 999_999_999 };
    let back = read_save(file_of(&data), Timestamp::epoch()).unwrap();
    assert_eq!(back.save_time, Timestamp { secs: 63_000_000_000, nanos: 999_999_900 });
    data.save_time = back.save_time;
    assert_eq!(back, data);
}

#[test]
fn a_time_before_the_epoch_comes_back_as_the_epoch() {
    let mut data = plate();
    data.save_time = Timestamp { secs: -1, nanos: 500 };
    let back = read_save(file_of(&data), Timestamp { secs: 9, nanos: 0 }).unwrap();
    assert_eq!(back.save_time, Timestamp::epoch());
    data.save_time = Timestamp { secs: i64::MAX, nanos: 0 };
    let back = read_save(file_of(&data), Timestamp { secs: 9, nanos: 0 }).unwrap();
    assert_eq!(back.save_time, Timestamp::epoch());
}

#[test]
fn the_headers_of_a_written_file_are_those_of_the_newest_version() {
    let data = village();
    let reader = Reader::new(file_of(&data)).unwrap();
    assert_eq!(reader.version(), Version::RenamedComponentDescriptors);
    assert_eq!(reader.game_version(), 3642);
    assert_eq!(reader.map(), "Studs");
    assert_eq!(reader.author(), &data.author);
    assert_eq!(reader.description(), data.description);
    assert_eq!(reader.host(), Some(&User::default()));
    assert_eq!(reader.time_saved(), Some(data.save_time));
    assert_eq!(reader.save_time(), Some(data.save_time));
    assert_eq!(reader.brick_count(), 500);
    assert_eq!(reader.mods(), &data.mods[..]);
    assert_eq!(reader.brick_assets(), &data.brick_assets[..]);
    assert_eq!(reader.colors(), &data.colors[..]);
    assert_eq!(reader.materials(), &data.materials[..]);
    assert_eq!(reader.brick_owners(), &data.brick_owners[..]);
    assert_eq!(reader.screenshot_info(), None);
    assert_eq!(reader.screenshot_format(), None);
    let layout = reader.brick_layout();
    assert_eq!(layout.version, Version::RenamedComponentDescriptors);
    assert_eq!((layout.asset_count, layout.material_count, layout.color_count), (3, 4, 5));
}

#[test]
fn a_written_file_is_read_in_stages() {
    let data = village();
    let file = file_of(&data);
    let reader: Reader<Init> = Reader::new(file.clone()).unwrap();
    let (reader, shot) = reader.screenshot_data().unwrap();
    assert!(shot.is_none());
    let (reader, mut bricks) = reader.bricks().unwrap();
    assert_eq!(bricks.len(), 500);
    assert_eq!(bricks.next(), Some(Ok(data.bricks[0])));
    assert_eq!(bricks.next(), Some(Ok(data.bricks[1])));
    assert_eq!(bricks.len(), 498);
    assert_eq!(bricks.collect(), Ok(data.bricks[2..].to_vec()));
    assert_eq!(bricks.next(), None);
    let (reader, catalog) = reader.components().unwrap();
    assert_eq!(catalog.len(), 0);
    assert_eq!(reader.map(), "Studs");
    assert_eq!(reader.into_inner(), file);
}

#[test]
fn stages_can_be_passed_over() {
    let data = village();
    let file = file_of(&data);
    let reader = Reader::new(file.clone()).unwrap();
    let (reader, mut bricks) = reader.bricks().unwrap();
    assert_eq!(bricks.collect(), Ok(data.bricks.clone()));
    assert_eq!(reader.components().unwrap().1.len(), 0);
    let reader = Reader::new(file).unwrap();
    let (reader, _) = reader.screenshot_data().unwrap();
    let (reader, catalog) = reader.components().unwrap();
    assert_eq!(catalog.names(), Vec::<String>::new());
    assert_eq!(reader.brick_count(), 500);
}

#[test]
fn a_file_with_a_wrong_magic_is_refused() {
    let file = file_of(&plate());
    for len in 0..3 {
        assert_eq!(Reader::new(file[..len].to_vec()).err(), Some(Error::InvalidMagic));
    }
    let mut wrong = file.clone();
    wrong[2] = b's';
    assert_eq!(Reader::new(wrong).err(), Some(Error::InvalidMagic));
    assert_eq!(
        read_save(b"PNG and so on".to_vec(), Timestamp::epoch()),
        Err(Error::InvalidMagic)
    );
}

#[test]
fn a_version_that_is_too_new_is_refused() {
    // Nothing behind the version word is looked at.
    assert_eq!(Reader::new(vec![b'B', b'R', b'S', 9, 0]).err(), Some(Error::VersionTooNew(9)));
    assert_eq!(
        Reader::new(vec![b'B', b'R', b'S', 0xff, 0xff, 1, 2, 3]).err(),
        Some(Error::VersionTooNew(0xffff))
    );
    let mut file = file_of(&plate());
    file[3] = 9;
    assert_eq!(Reader::new(file).err(), Some(Error::VersionTooNew(9)));
}

#[test]
fn a_version_that_is_too_old_is_refused() {
    assert_eq!(Reader::new(vec![b'B', b'R', b'S', 1, 0]).err(), Some(Error::VersionTooOld(1)));
    assert_eq!(Reader::new(vec![b'B', b'R', b'S', 0, 0]).err(), Some(Error::VersionTooOld(0)));
}

#[test]
fn a_file_that_is_cut_short_is_an_error() {
    let file = file_of(&village());
    for len in [3, 4, 5, 8, 9, 12, 16, 17, 40] {
        let got = Reader::new(file[..len].to_vec()).err();
        assert!(
            got == Some(Error::Io(IoError::UnexpectedEof))
                || got == Some(Error::Io(IoError::InvalidData)),
            "{} bytes: {:?}",
            len,
            got
        );
    }
    // The headers are whole, the bricks are not.
    let reader = Reader::new(file[..file.len() - 40].to_vec()).unwrap();
    assert_eq!(reader.bricks().err(), Some(Error::Io(IoError::UnexpectedEof)));
    assert_eq!(
        read_save(file[..file.len() - 40].to_vec(), Timestamp::epoch()),
        Err(Error::Io(IoError::UnexpectedEof))
    );
    // The bricks are whole, the components are not.
    let reader = Reader::new(file[..file.len() - 1].to_vec()).unwrap();
    let (reader, _) = reader.bricks().unwrap();
    assert_eq!(reader.components().err(), Some(Error::Io(IoError::UnexpectedEof)));
}

#[test]
fn an_index_beyond_its_table_is_refused() {
    let mut data = plate();
    data.bricks.push(Brick { asset_name_index: 2, ..brick() });
    assert_eq!(write_save(&mut Vec::new(), &data), Err(Error::InvalidInput));
    data.bricks[0] = Brick { asset_name_index: 1, ..brick() };
    assert_eq!(write_save(&mut Vec::new(), &data), Ok(()));
    data.bricks[0] = Brick { material_index: 2, ..brick() };
    assert_eq!(write_save(&mut Vec::new(), &data), Err(Error::InvalidInput));
    data.bricks[0] = Brick { color: ColorMode::Palette(1), ..brick() };
    assert_eq!(write_save(&mut Vec::new(), &data), Err(Error::InvalidInput));
    data.bricks[0] = Brick { color: ColorMode::Palette(0), ..brick() };
    assert_eq!(write_save(&mut Vec::new(), &data), Ok(()));
    data.colors.clear();
    assert_eq!(write_save(&mut Vec::new(), &data), Err(Error::InvalidInput));
    data.bricks[0] = Brick { owner_index: Some(u32::MAX), ..brick() };
    assert_eq!(write_save(&mut Vec::new(), &data), Err(Error::InvalidInput));
    data.bricks[0] = Brick { position: (0, i32::MIN, 0), ..brick() };
    assert_eq!(write_save(&mut Vec::new(), &data), Err(Error::InvalidInput));
}

#[test]
fn an_index_beyond_its_table_is_read_as_it_is() {
    // With one asset and one material, the index 1 is still below the bound
    // of two that it is written under, and an owner may be anyone.
    let mut data = plate();
    data.bricks.push(Brick { asset_name_index: 1, owner_index: Some(41), ..brick() });
    assert_eq!(read_save(file_of(&data), Timestamp::epoch()), Ok(data));
}

#[test]
fn tables_without_entries_are_written_under_a_bound_of_two() {
    let mut data = plate();
    data.brick_assets.clear();
    data.materials.clear();
    data.colors.clear();
    data.bricks.push(Brick { asset_name_index: 0, material_index: 0, ..brick() });
    data.bricks.push(Brick { asset_name_index: 1, material_index: 1, ..brick() });
    assert_eq!(read_save(file_of(&data), Timestamp::epoch()), Ok(data.clone()));
    data.bricks.push(Brick { asset_name_index: 2, ..brick() });
    assert_eq!(write_save(&mut Vec::new(), &data), Err(Error::InvalidInput));
}

#[test]
fn a_palette_of_one_color_takes_no_bits() {
    let mut data = plate();
    data.bricks.push(Brick { color: ColorMode::Palette(0), ..brick() });
    data.bricks.push(Brick { color: ColorMode::Palette(0), ..brick() });
    assert_eq!(read_save(file_of(&data), Timestamp::epoch()), Ok(data));
}

#[test]
fn nothing_is_written_where_the_record_is_refused() {
    let mut data = plate();
    data.map = "\u{1F600}".to_string();
    let mut out = vec![4, 2];
    assert_eq!(write_save(&mut out, &data), Err(Error::InvalidString));
    assert_eq!(out, vec![4, 2]);
    let mut data = plate();
    data.brick_owners.push(BrickOwner {
        user: User { id: Uuid::nil(), name: "a\u{10000}".to_string() },
        brick_count: 0,
    });
    assert_eq!(write_save(&mut out, &data), Err(Error::InvalidString));
    assert_eq!(out, vec![4, 2]);
}

#[test]
fn strings_of_both_encodings_come_back() {
    let mut data = plate();
    data.map = "Plätze".to_string();
    data.description = "\u{0}\u{7f}\u{80}\u{7ff}\u{800}\u{d7ff}\u{e000}\u{ffff}".to_string();
    data.author.name = "ascii only".to_string();
    data.mods = vec![String::new(), "é".to_string(), "e".to_string()];
    assert_eq!(read_save(file_of(&data), Timestamp::epoch()), Ok(data));
}

#[test]
fn a_file_is_its_start_and_its_sections() {
    let mut data = plate();
    data.bricks.push(brick());
    let (first, second, bricks, components) = pack_sections(&data).unwrap();
    assert_eq!(Ok(first.clone()), pack_header1(&data));
    assert_eq!(Ok(second.clone()), pack_header2(&data));
    assert_eq!(components, vec![0, 0, 0, 0]);
    let file = pack_file(&first, &second, &bricks, &components).unwrap();
    assert_eq!(file, file_of(&data));
    assert_eq!(&file[..9], &[0x42, 0x52, 0x53, 8, 0, 0x3a, 0x0e, 0, 0]);
    // The first header is short and does not get shorter when deflated.
    assert_eq!(&file[9..13], &(first.len() as i32).to_le_bytes());
    assert_eq!(read_save(file, Timestamp::epoch()), Ok(data));
}

#[test]
fn a_section_of_no_data_makes_no_file() {
    let some = vec![1u8, 2, 3];
    let none: Vec<u8> = Vec::new();
    assert_eq!(pack_file(&none, &some, &some, &some), Err(Error::InvalidInput));
    assert_eq!(pack_file(&some, &none, &some, &some), Err(Error::InvalidInput));
    assert_eq!(pack_file(&some, &some, &none, &some), Err(Error::InvalidInput));
    assert_eq!(pack_file(&some, &some, &some, &none), Err(Error::InvalidInput));
    assert!(pack_file(&some, &some, &some, &some).is_ok());
}
