//! The data model: colors, orientations, versions, times.

use brs::save::{combine_orientation, split_orientation, ScreenshotFormat};
use brs::wire::write_u32;
use brs::{
    Color, Direction, Error, IoError, Rotation, Timestamp, User, Uuid, Version, MAX_VERSION_READ,
    MIN_VERSION_READ,
};

const DIRECTIONS: [Direction; 6] = [
    Direction::XPositive,
    Direction::XNegative,
    Direction::YPositive,
    Direction::YNegative,
    Direction::ZPositive,
    Direction::ZNegative,
];

const ROTATIONS: [Rotation; 4] =
    [Rotation::Deg0, Rotation::Deg90, Rotation::Deg180, Rotation::Deg270];

#[test]
fn a_color_holds_its_channels() {
    let color = Color::from_rgba(1, 2, 3, 4);
    assert_eq!((color.r(), color.g(), color.b(), color.a()), (1, 2, 3, 4));
    assert_eq!(color, Color(0x0401_0203));
    let color = Color::from_rgba(255, 23, 198, 255);
    assert_eq!((color.r(), color.g(), color.b(), color.a()), (255, 23, 198, 255));
    assert_eq!(color.0, 0xffff_17c6);
}

#[test]
fn a_color_lies_in_a_file_as_blue_green_red_alpha() {
    let mut out = Vec::new();
    write_u32(&mut out, Color::from_rgba(0x11, 0x22, 0x33, 0x44).0);
    assert_eq!(out, vec![0x33, 0x22, 0x11, 0x44]);
}

#[test]
fn a_color_is_made_of_a_number_and_back() {
    let color: Color = 0xdead_beefu32.into();
    assert_eq!(color, Color(0xdead_beef));
    let value: u32 = color.into();
    assert_eq!(value, 0xdead_beef);
    assert_eq!(Color::from(7u32).b(), 7);
}

#[test]
fn a_color_spells_its_channels_in_hex() {
    assert_eq!(Color::from_rgba(255, 23, 198, 255).to_hex(), "#ff17c6ff");
    assert_eq!(Color::from_rgba(0, 1, 0xa0, 0x0f).to_hex(), "#0001a00f");
}

#[test]
fn every_orientation_splits_into_what_it_was_combined_of() {
    let mut seen = [false; 24];
    for direction in DIRECTIONS {
        for rotation in ROTATIONS {
            let orientation = combine_orientation(direction, rotation);
            assert!(orientation < 24);
            assert!(!seen[orientation as usize]);
            seen[orientation as usize] = true;
            assert_eq!(split_orientation(orientation), (direction, rotation));
        }
    }
    assert_eq!(combine_orientation(Direction::ZPositive, Rotation::Deg0), 16);
    assert_eq!(combine_orientation(Direction::XNegative, Rotation::Deg270), 7);
}

#[test]
fn the_direction_of_an_orientation_is_taken_modulo_six() {
    assert_eq!(split_orientation(24), (Direction::XPositive, Rotation::Deg0));
    assert_eq!(split_orientation(255), (Direction::YNegative, Rotation::Deg270));
}

#[test]
fn directions_and_rotations_have_numbers() {
    for (n, direction) in DIRECTIONS.iter().enumerate() {
        assert_eq!(direction.to_u8(), n as u8);
        assert_eq!(Direction::from_u8(n as u8), Some(*direction));
    }
    assert_eq!(Direction::from_u8(6), None);
    for (n, rotation) in ROTATIONS.iter().enumerate() {
        assert_eq!(rotation.to_u8(), n as u8);
        assert_eq!(Rotation::from_u8(n as u8), Some(*rotation));
    }
    assert_eq!(Rotation::from_u8(4), None);
    assert!(Rotation::Deg90 < Rotation::Deg180);
}

#[test]
fn versions_have_numbers_in_the_order_they_came() {
    let versions = [
        Version::Initial,
        Version::MaterialsStoredAsNames,
        Version::AddedOwnerData,
        Version::AddedDateTime,
        Version::AddedComponentsData,
        Version::AddedScreenshotData,
        Version::AddedGameVersionAndHostAndOwnerDataAndImprovedMaterials,
        Version::RenamedComponentDescriptors,
    ];
    for (n, version) in versions.iter().enumerate() {
        assert_eq!(version.to_u16(), n as u16 + 1);
        assert_eq!(Version::from_u16(n as u16 + 1), Some(*version));
        for (m, other) in versions.iter().enumerate() {
            assert_eq!(version.at_least(*other), n >= m);
            assert_eq!(version >= other, n >= m);
        }
    }
    assert_eq!(Version::from_u16(0), None);
    assert_eq!(Version::from_u16(9), None);
    assert_eq!(MIN_VERSION_READ, Version::MaterialsStoredAsNames);
    assert_eq!(MAX_VERSION_READ, Version::RenamedComponentDescriptors);
}

#[test]
fn old_versions_are_given_a_changelist() {
    assert_eq!(Version::AddedDateTime.first_game_version(), 3642);
    assert_eq!(Version::MaterialsStoredAsNames.first_game_version(), 3642);
}

#[test]
fn screenshot_formats_have_markers() {
    assert_eq!(ScreenshotFormat::Png.to_u8(), 1);
    assert_eq!(ScreenshotFormat::from_u8(1), Some(ScreenshotFormat::Png));
    assert_eq!(ScreenshotFormat::from_u8(0), None);
    assert_eq!(ScreenshotFormat::from_u8(2), None);
}

#[test]
fn a_time_is_counted_in_ticks_of_100_ns() {
    assert_eq!(Timestamp::epoch().to_ticks(), 0);
    assert_eq!(Timestamp { secs: 1, nanos: 0 }.to_ticks(), 10_000_000);
    assert_eq!(Timestamp { secs: 2, nanos: 1_234_567 }.to_ticks(), 20_012_345);
    assert_eq!(Timestamp { secs: 0, nanos: 99 }.to_ticks(), 0);
    assert_eq!(Timestamp { secs: 0, nanos: 100 }.to_ticks(), 1);
    assert_eq!(Timestamp { secs: 922_337_203_685, nanos: 477_580_700 }.to_ticks(), i64::MAX);
}

#[test]
fn a_time_that_cannot_be_counted_is_the_epoch() {
    assert_eq!(Timestamp { secs: -1, nanos: 999_999_999 }.to_ticks(), 0);
    assert_eq!(Timestamp { secs: i64::MIN, nanos: 0 }.to_ticks(), 0);
    assert_eq!(Timestamp { secs: 922_337_203_685, nanos: 477_580_800 }.to_ticks(), 0);
    assert_eq!(Timestamp { secs: 922_337_203_686, nanos: 0 }.to_ticks(), 0);
    assert_eq!(Timestamp { secs: i64::MAX, nanos: u32::MAX }.to_ticks(), 0);
}

#[test]
fn a_time_is_made_of_its_ticks() {
    assert_eq!(Timestamp::from_ticks(0), Timestamp::epoch());
    assert_eq!(Timestamp::from_ticks(1), Timestamp { secs: 0, nanos: 100 });
    assert_eq!(Timestamp::from_ticks(20_012_345), Timestamp { secs: 2, nanos: 1_234_500 });
    assert_eq!(
        Timestamp::from_ticks(i64::MAX),
        Timestamp { secs: 922_337_203_685, nanos: 477_580_700 }
    );
    // A time before the epoch counts its nanoseconds forward from the
    // second before it.
    assert_eq!(Timestamp::from_ticks(-1), Timestamp { secs: -1, nanos: 999_999_900 });
    assert_eq!(Timestamp::from_ticks(-10_000_000), Timestamp { secs: -1, nanos: 0 });
    assert_eq!(Timestamp::from_ticks(-10_000_001), Timestamp { secs: -2, nanos: 999_999_900 });
    assert_eq!(
        Timestamp::from_ticks(i64::MIN),
        Timestamp { secs: -922_337_203_686, nanos: 522_419_200 }
    );
}

#[test]
fn the_user_of_whom_nothing_is_known() {
    let user = User::default();
    assert_eq!(user.id, Uuid::nil());
    assert_eq!(user.name, "Unknown");
    assert_eq!(Uuid::nil().as_u128(), 0);
    assert_eq!(Uuid::from_u128(5), Uuid(5));
}

#[test]
fn every_error_has_a_message() {
    let cases = [
        (Error::InvalidMagic, "invalid magic (may not be a brs file)"),
        (Error::VersionTooOld(1), "version too old (unsupported)"),
        (Error::VersionTooNew(9), "version too new (unsupported)"),
        (Error::VersionUnknown(5), "unknown version (unsupported)"),
        (Error::InvalidCompressedSection, "invalid compressed section"),
        (Error::UnknownScreenshotFormat(2), "unknown screenshot format"),
        (Error::InvalidString, "invalid string"),
        (Error::InvalidInput, "invalid input"),
        (Error::Io(IoError::UnexpectedEof), "i/o error"),
        (Error::Io(IoError::InvalidData), "i/o error"),
    ];
    for (error, message) in cases {
        assert_eq!(error.message(), message);
    }
}
