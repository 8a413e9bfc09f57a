//! What is written can be read: a record comes back from the file that is
//! made of it.

use crate::bits::bytes_bits;
use crate::brick::{brick_stream, bricks_ok, lemma_decode_brick_stream};
use crate::error::Error;
use crate::fields::{
    datetime_bytes, lemma_parse_datetime, lemma_parse_owner, lemma_parse_table, lemma_parse_uuid,
    reads_back, uuid_bytes,
};
use crate::header::{
    color_item, Header1Model, Header2Model, owner_item, parse_header1, parse_header2, string_item,
};
use crate::read::{
    layout_of, Opened, parse_open, parse_preamble, parse_record, parse_save,
    parse_screenshot_header,
};
use crate::save::{BrickOwnerModel, Color, DEFAULT_GAME_VERSION, Timestamp, UserModel, Version};
use crate::section::{frameable, lemma_parse_section, section_bytes};
use crate::text::{lemma_parse_string, parse_string, string_bytes};
use crate::wire::{
    le_bytes, lemma_le_bytes_len, lemma_lies_at_in_place, lemma_lies_at_split, lemma_parse_int,
    lemma_parse_uint, lies_at, twos,
};
use crate::write::{
    color_item_bytes, colors_table, components_data, file_bytes, first_string_error, header1_data,
    header2_data, owner_item_bytes, owner_names, owners_table, preamble_bytes, save_bytes,
    save_sections, string_item_bytes, strings_table, WriteDataModel, written_host,
    written_layout,
};
use vstd::arithmetic::power2::lemma2_to64;
use vstd::prelude::*;

verus! {

/// The record that comes back from the file of `d`: `d` itself, but for the
/// time, which comes back as the time of its tick count.
pub open spec fn read_back(d: WriteDataModel) -> WriteDataModel {
    WriteDataModel { save_time: Timestamp::of_ticks(d.save_time.ticks()), ..d }
}

/// What lies in the start of an input lies in the input.
pub proof fn lemma_lies_at_within(input: Seq<u8>, head: Seq<u8>, pos: int, window: Seq<u8>)
    requires
        lies_at(input, 0, head),
        lies_at(head, pos, window),
    ensures
        lies_at(input, pos, window),
{
    let start = input.subrange(0, head.len() as int);
    assert(input.subrange(pos, pos + window.len()) =~= start.subrange(pos, pos + window.len()));
}

/// Five runs of bytes in a row lie one behind the other.
pub proof fn lemma_five_parts(a: Seq<u8>, b: Seq<u8>, c: Seq<u8>, d: Seq<u8>, e: Seq<u8>)
    ensures
        lies_at(a + b + c + d + e, 0, a),
        lies_at(a + b + c + d + e, a.len() as int, b),
        lies_at(a + b + c + d + e, (a.len() + b.len()) as int, c),
        lies_at(a + b + c + d + e, (a.len() + b.len() + c.len()) as int, d),
        lies_at(a + b + c + d + e, (a.len() + b.len() + c.len() + d.len()) as int, e),
{
    let whole = a + b + c + d + e;
    lemma_lies_at_in_place(Seq::<u8>::empty(), whole, Seq::<u8>::empty());
    assert(Seq::<u8>::empty() + whole + Seq::<u8>::empty() =~= whole);
    lemma_lies_at_split(whole, 0, a + b + c + d, e);
    lemma_lies_at_split(whole, 0, a + b + c, d);
    lemma_lies_at_split(whole, 0, a + b, c);
    lemma_lies_at_split(whole, 0, a, b);
}

/// Strings of which none fails can each be written.
pub proof fn lemma_strings_writable(items: Seq<Seq<char>>)
    requires
        first_string_error(items) is None,
    ensures
        forall|k: int| 0 <= k < items.len() ==> string_bytes(#[trigger] items[k]) is Ok,
    decreases items.len(),
{
    if items.len() > 0 {
        lemma_strings_writable(items.skip(1));
        assert forall|k: int| 0 <= k < items.len() implies string_bytes(
            #[trigger] items[k],
        ) is Ok by {
            if k > 0 {
                assert(items.skip(1)[k - 1] == items[k]);
            }
        }
    }
}

/// A table of strings is read back from its bytes as it was.
pub proof fn lemma_parse_strings(input: Seq<u8>, pos: int, items: Seq<Seq<char>>)
    requires
        strings_table(items) is Ok,
        lies_at(input, pos, strings_table(items)->Ok_0),
    ensures
        crate::fields::parse_table(input, pos, string_item()) == Ok::<
            (Seq<Seq<char>>, int),
            Error,
        >((items, pos + strings_table(items)->Ok_0.len())),
{
    lemma_strings_writable(items);
    assert(reads_back(items, string_item(), string_item_bytes())) by {
        assert forall|i: Seq<u8>, p: int, k: int|
            0 <= k < items.len() && #[trigger] lies_at(
                i,
                p,
                string_item_bytes()(items[k]),
            ) implies string_item()(i, p) == Ok::<(Seq<char>, int), Error>(
            (items[k], p + string_item_bytes()(items[k]).len()),
        ) by {
            lemma_parse_string(i, p, items[k]);
        }
    }
    lemma_parse_table(input, pos, items, string_item(), string_item_bytes());
}

/// A table of colors is read back from its bytes as it was.
pub proof fn lemma_parse_colors(input: Seq<u8>, pos: int, items: Seq<Color>)
    requires
        colors_table(items) is Ok,
        lies_at(input, pos, colors_table(items)->Ok_0),
    ensures
        crate::fields::parse_table(input, pos, color_item()) == Ok::<(Seq<Color>, int), Error>(
            (items, pos + colors_table(items)->Ok_0.len()),
        ),
{
    assert(reads_back(items, color_item(), color_item_bytes())) by {
        assert forall|i: Seq<u8>, p: int, k: int|
            0 <= k < items.len() && #[trigger] lies_at(
                i,
                p,
                color_item_bytes()(items[k]),
            ) implies color_item()(i, p) == Ok::<(Color, int), Error>(
            (items[k], p + color_item_bytes()(items[k]).len()),
        ) by {
            lemma2_to64();
            lemma_le_bytes_len(items[k].0 as nat, 4);
            lemma_parse_uint(i, p, items[k].0 as nat, 4);
        }
    }
    lemma_parse_table(input, pos, items, color_item(), color_item_bytes());
}

/// A table of owners is read back from its bytes as it was.
pub proof fn lemma_parse_owners(input: Seq<u8>, pos: int, items: Seq<BrickOwnerModel>)
    requires
        owners_table(items) is Ok,
        lies_at(input, pos, owners_table(items)->Ok_0),
    ensures
        crate::fields::parse_table(input, pos, owner_item(true)) == Ok::<
            (Seq<BrickOwnerModel>, int),
            Error,
        >((items, pos + owners_table(items)->Ok_0.len())),
{
    lemma_strings_writable(owner_names(items));
    assert(reads_back(items, owner_item(true), owner_item_bytes())) by {
        assert forall|i: Seq<u8>, p: int, k: int|
            0 <= k < items.len() && #[trigger] lies_at(
                i,
                p,
                owner_item_bytes()(items[k]),
            ) implies owner_item(true)(i, p) == Ok::<(BrickOwnerModel, int), Error>(
            (items[k], p + owner_item_bytes()(items[k]).len()),
        ) by {
            assert(owner_names(items)[k] == items[k].user.name);
            lemma_parse_owner(i, p, items[k]);
        }
    }
    lemma_parse_table(input, pos, items, owner_item(true), owner_item_bytes());
}

/// The data of a first header that can be written is its eight fields one
/// behind the other, and no more bricks are counted than a signed 32-bit
/// count holds.
pub proof fn lemma_header1_parts(d: WriteDataModel)
    requires
        header1_data(d) is Ok,
    ensures
        d.bricks.len() <= i32::MAX,
        string_bytes(d.map) is Ok,
        string_bytes(d.author.name) is Ok,
        string_bytes(d.description) is Ok,
        string_bytes(written_host().name) is Ok,
        ({
            let data = header1_data(d)->Ok_0;
            let map = string_bytes(d.map)->Ok_0;
            let author = string_bytes(d.author.name)->Ok_0;
            let description = string_bytes(d.description)->Ok_0;
            let host = string_bytes(written_host().name)->Ok_0;
            let p1 = map.len() as int;
            let p2 = p1 + author.len();
            let p3 = p2 + description.len();
            let p4 = p3 + 16;
            let p5 = p4 + host.len();
            &&& lies_at(data, 0, map)
            &&& lies_at(data, p1, author)
            &&& lies_at(data, p2, description)
            &&& lies_at(data, p3, uuid_bytes(d.author.id))
            &&& lies_at(data, p4, host)
            &&& lies_at(data, p5, uuid_bytes(written_host().id))
            &&& lies_at(data, p5 + 16, datetime_bytes(d.save_time))
            &&& lies_at(data, p5 + 24, le_bytes(twos(d.bricks.len() as int, 32), 4))
        }),
{
    reveal(header1_data);
    let data = header1_data(d)->Ok_0;
    let map = string_bytes(d.map)->Ok_0;
    let author = string_bytes(d.author.name)->Ok_0;
    let description = string_bytes(d.description)->Ok_0;
    let id = uuid_bytes(d.author.id);
    let host = string_bytes(written_host().name)->Ok_0;
    let host_id = uuid_bytes(written_host().id);
    let time = datetime_bytes(d.save_time);
    let count = le_bytes(twos(d.bricks.len() as int, 32), 4);
    assert(data == map + author + description + id + host + host_id + time + count);
    lemma2_to64();
    lemma_le_bytes_len(twos(d.save_time.ticks(), 64), 8);
    lemma_uuid_len(d.author.id);
    lemma_uuid_len(written_host().id);
    lemma_lies_at_in_place(Seq::<u8>::empty(), data, Seq::<u8>::empty());
    assert(Seq::<u8>::empty() + data + Seq::<u8>::empty() =~= data);
    lemma_lies_at_split(data, 0, map + author + description + id + host + host_id + time, count);
    lemma_lies_at_split(data, 0, map + author + description + id + host + host_id, time);
    lemma_lies_at_split(data, 0, map + author + description + id + host, host_id);
    lemma_lies_at_split(data, 0, map + author + description + id, host);
    lemma_lies_at_split(data, 0, map + author + description, id);
    lemma_lies_at_split(data, 0, map + author, description);
    lemma_lies_at_split(data, 0, map, author);
}

/// The first header of a record is read back from its data as it was
/// written.
pub proof fn lemma_parse_header1(d: WriteDataModel)
    requires
        header1_data(d) is Ok,
    ensures
        parse_header1(header1_data(d)->Ok_0, Version::RenamedComponentDescriptors) == Ok::<
            Header1Model,
            Error,
        >(
            Header1Model {
                map: d.map,
                author: d.author,
                description: d.description,
                host: Some(written_host()),
                time_saved: Some(Timestamp::of_ticks(d.save_time.ticks())),
                brick_count: d.bricks.len() as u32,
            },
        ),
{
    reveal(parse_header1);
    lemma_header1_parts(d);
    let data = header1_data(d)->Ok_0;
    let map = string_bytes(d.map)->Ok_0;
    let author = string_bytes(d.author.name)->Ok_0;
    let description = string_bytes(d.description)->Ok_0;
    let host = string_bytes(written_host().name)->Ok_0;
    let p1 = map.len() as int;
    let p2 = p1 + author.len();
    let p3 = p2 + description.len();
    let p4 = p3 + 16;
    let p5 = p4 + host.len();
    let p6 = p5 + 16;
    let p7 = p6 + 8;
    assert(parse_string(data, 0) == Ok::<(Seq<char>, int), Error>((d.map, p1))) by {
        lemma_parse_string(data, 0, d.map);
    }
    assert(parse_string(data, p1) == Ok::<(Seq<char>, int), Error>((d.author.name, p2))) by {
        lemma_parse_string(data, p1, d.author.name);
    }
    assert(parse_string(data, p2) == Ok::<(Seq<char>, int), Error>((d.description, p3))) by {
        lemma_parse_string(data, p2, d.description);
    }
    assert(crate::fields::parse_uuid(data, p3) == Ok::<(crate::save::Uuid, int), Error>(
        (d.author.id, p4),
    )) by {
        lemma_parse_uuid(data, p3, d.author.id);
    }
    assert(parse_string(data, p4) == Ok::<(Seq<char>, int), Error>((written_host().name, p5)))
        by {
        lemma_parse_string(data, p4, written_host().name);
    }
    assert(crate::fields::parse_uuid(data, p5) == Ok::<(crate::save::Uuid, int), Error>(
        (written_host().id, p6),
    )) by {
        lemma_parse_uuid(data, p5, written_host().id);
    }
    assert(crate::fields::parse_datetime(data, p6) == Ok::<(Timestamp, int), Error>(
        (Timestamp::of_ticks(d.save_time.ticks()), p7),
    )) by {
        lemma_parse_datetime(data, p6, d.save_time);
    }
    assert(crate::wire::parse_int(data, p7, 4) == Ok::<(int, int), Error>(
        (d.bricks.len() as int, p7 + 4),
    )) by {
        lemma2_to64();
        lemma_parse_int(data, p7, d.bricks.len() as int, 4);
    }
    let version = Version::RenamedComponentDescriptors;
    assert(crate::header::parse_host(data, p4, version) == Ok::<(Option<UserModel>, int), Error>(
        (Some(written_host()), p6),
    ));
    assert(crate::header::parse_time_saved(data, p6, version) == Ok::<
        (Option<Timestamp>, int),
        Error,
    >((Some(Timestamp::of_ticks(d.save_time.ticks())), p7)));
}

/// An identifier takes sixteen bytes.
pub proof fn lemma_uuid_len(id: crate::save::Uuid)
    ensures
        uuid_bytes(id).len() == 16,
{
    lemma_le_bytes_len((id.0 / 0x1_0000_0000_0000_0000_0000_0000) as nat, 4);
    lemma_le_bytes_len(((id.0 / 0x1_0000_0000_0000_0000) % 0x1_0000_0000) as nat, 4);
    lemma_le_bytes_len(((id.0 / 0x1_0000_0000) % 0x1_0000_0000) as nat, 4);
    lemma_le_bytes_len((id.0 % 0x1_0000_0000) as nat, 4);
}

/// The data of a second header that can be written is its five tables in
/// a row, each of which can be written.
pub proof fn lemma_header2_parts(d: WriteDataModel)
    requires
        header2_data(d) is Ok,
    ensures
        strings_table(d.mods) is Ok,
        strings_table(d.brick_assets) is Ok,
        colors_table(d.colors) is Ok,
        strings_table(d.materials) is Ok,
        owners_table(d.brick_owners) is Ok,
        header2_data(d)->Ok_0 == strings_table(d.mods)->Ok_0 + strings_table(d.brick_assets)->Ok_0
            + colors_table(d.colors)->Ok_0 + strings_table(d.materials)->Ok_0 + owners_table(
            d.brick_owners,
        )->Ok_0,
{
    reveal(header2_data);
}

/// The tables of a second header are read back from its data, one behind
/// the other.
pub proof fn lemma_parse_header2_tables(d: WriteDataModel)
    requires
        header2_data(d) is Ok,
    ensures
        ({
            let data = header2_data(d)->Ok_0;
            let p1 = strings_table(d.mods)->Ok_0.len() as int;
            let p2 = p1 + strings_table(d.brick_assets)->Ok_0.len();
            let p3 = p2 + colors_table(d.colors)->Ok_0.len();
            let p4 = p3 + strings_table(d.materials)->Ok_0.len();
            let p5 = p4 + owners_table(d.brick_owners)->Ok_0.len();
            &&& crate::fields::parse_table(data, 0, string_item()) == Ok::<
                (Seq<Seq<char>>, int),
                Error,
            >((d.mods, p1))
            &&& crate::fields::parse_table(data, p1, string_item()) == Ok::<
                (Seq<Seq<char>>, int),
                Error,
            >((d.brick_assets, p2))
            &&& crate::fields::parse_table(data, p2, color_item()) == Ok::<
                (Seq<Color>, int),
                Error,
            >((d.colors, p3))
            &&& crate::fields::parse_table(data, p3, string_item()) == Ok::<
                (Seq<Seq<char>>, int),
                Error,
            >((d.materials, p4))
            &&& crate::fields::parse_table(data, p4, owner_item(true)) == Ok::<
                (Seq<BrickOwnerModel>, int),
                Error,
            >((d.brick_owners, p5))
        }),
{
    lemma_header2_parts(d);
    let data = header2_data(d)->Ok_0;
    let mods = strings_table(d.mods)->Ok_0;
    let assets = strings_table(d.brick_assets)->Ok_0;
    let colors = colors_table(d.colors)->Ok_0;
    let materials = strings_table(d.materials)->Ok_0;
    let table = owners_table(d.brick_owners)->Ok_0;
    let p1 = mods.len() as int;
    let p2 = p1 + assets.len();
    let p3 = p2 + colors.len();
    let p4 = p3 + materials.len();
    lemma_five_parts(mods, assets, colors, materials, table);
    lemma_parse_strings(data, 0, d.mods);
    lemma_parse_strings(data, p1, d.brick_assets);
    lemma_parse_colors(data, p2, d.colors);
    lemma_parse_strings(data, p3, d.materials);
    lemma_parse_owners(data, p4, d.brick_owners);
}

/// The second header of a record is read back from its data as it was
/// written.
pub proof fn lemma_parse_header2(d: WriteDataModel)
    requires
        header2_data(d) is Ok,
    ensures
        parse_header2(header2_data(d)->Ok_0, Version::RenamedComponentDescriptors) == Ok::<
            Header2Model,
            Error,
        >(
            Header2Model {
                mods: d.mods,
                brick_assets: d.brick_assets,
                colors: d.colors,
                materials: d.materials,
                brick_owners: d.brick_owners,
            },
        ),
{
    reveal(parse_header2);
    lemma_parse_header2_tables(d);
    let data = header2_data(d)->Ok_0;
    let p3 = (strings_table(d.mods)->Ok_0.len() + strings_table(d.brick_assets)->Ok_0.len()
        + colors_table(d.colors)->Ok_0.len()) as int;
    let p4 = p3 + strings_table(d.materials)->Ok_0.len();
    let p5 = p4 + owners_table(d.brick_owners)->Ok_0.len();
    let version = Version::RenamedComponentDescriptors;
    assert(crate::header::parse_materials(data, p3, version) == Ok::<
        (Seq<Seq<char>>, int),
        Error,
    >((d.materials, p4)));
    assert(crate::header::parse_owners(data, p4, version) == Ok::<
        (Seq<BrickOwnerModel>, int),
        Error,
    >((d.brick_owners, p5)));
}

/// A file that starts as every written file does announces the newest
/// version and the changelist that is written.
pub proof fn lemma_parse_preamble(input: Seq<u8>)
    requires
        lies_at(input, 0, preamble_bytes()),
    ensures
        preamble_bytes().len() == 9,
        parse_preamble(input) == Ok::<((Version, u32), int), Error>(
            ((Version::RenamedComponentDescriptors, DEFAULT_GAME_VERSION), 9),
        ),
{
    lemma2_to64();
    let magic = seq![0x42u8, 0x52u8, 0x53u8];
    let version = le_bytes(8, 2);
    let changelist = le_bytes(DEFAULT_GAME_VERSION as nat, 4);
    lemma_le_bytes_len(8, 2);
    lemma_le_bytes_len(DEFAULT_GAME_VERSION as nat, 4);
    lemma_lies_at_split(input, 0, magic + version, changelist);
    lemma_lies_at_split(input, 0, magic, version);
    lemma_parse_uint(input, 3, 8, 2);
    lemma_parse_uint(input, 5, DEFAULT_GAME_VERSION as nat, 4);
    assert(input.subrange(0, 3) =~= crate::read::magic());
}

/// The sections of a record that can be written are its two headers, its
/// bricks and the empty catalog, each of which can be written and framed.
pub proof fn lemma_save_sections_parts(d: WriteDataModel)
    requires
        save_sections(d) is Ok,
    ensures
        d.bricks.len() <= i32::MAX,
        header1_data(d) is Ok,
        header2_data(d) is Ok,
        bricks_ok(d.bricks, written_layout(d)),
        save_sections(d)->Ok_0.0 == header1_data(d)->Ok_0,
        save_sections(d)->Ok_0.1 == header2_data(d)->Ok_0,
        save_sections(d)->Ok_0.2 == brick_stream(d.bricks, written_layout(d)),
        save_sections(d)->Ok_0.3 == components_data(),
        frameable(save_sections(d)->Ok_0.0),
        frameable(save_sections(d)->Ok_0.1),
        frameable(save_sections(d)->Ok_0.2),
{
    reveal(save_sections);
    reveal(header1_data);
}

/// What the headers of a written file hold.
pub open spec fn written_opened(d: WriteDataModel) -> Opened {
    Opened {
        version: Version::RenamedComponentDescriptors,
        game_version: DEFAULT_GAME_VERSION,
        header1: Header1Model {
            map: d.map,
            author: d.author,
            description: d.description,
            host: Some(written_host()),
            time_saved: Some(Timestamp::of_ticks(d.save_time.ticks())),
            brick_count: d.bricks.len() as u32,
        },
        header2: Header2Model {
            mods: d.mods,
            brick_assets: d.brick_assets,
            colors: d.colors,
            materials: d.materials,
            brick_owners: d.brick_owners,
        },
        screenshot: None,
    }
}

/// Where the bricks start in the file of a record.
pub open spec fn written_bricks_at(d: WriteDataModel) -> int {
    9int + section_bytes(save_sections(d)->Ok_0.0)->Some_0.len() + section_bytes(
        save_sections(d)->Ok_0.1,
    )->Some_0.len() + 1
}

/// The sections of a written file lie in it one behind the other.
pub proof fn lemma_file_parts(d: WriteDataModel)
    requires
        save_sections(d) is Ok,
        file_bytes(save_sections(d)->Ok_0) is Some,
    ensures
        ({
            let sections = save_sections(d)->Ok_0;
            let file = file_bytes(sections)->Some_0;
            let p2 = 9int + section_bytes(sections.0)->Some_0.len();
            let p3 = p2 + section_bytes(sections.1)->Some_0.len();
            &&& lies_at(file, 0, preamble_bytes())
            &&& lies_at(file, 9, section_bytes(sections.0)->Some_0)
            &&& lies_at(file, p2, section_bytes(sections.1)->Some_0)
            &&& lies_at(file, p3, seq![0u8])
            &&& lies_at(file, p3 + 1, section_bytes(sections.2)->Some_0)
        }),
{
    let sections = save_sections(d)->Ok_0;
    let file = file_bytes(sections)->Some_0;
    let start = preamble_bytes();
    let first = section_bytes(sections.0)->Some_0;
    let second = section_bytes(sections.1)->Some_0;
    let marker = seq![0u8];
    let third = section_bytes(sections.2)->Some_0;
    let fourth = section_bytes(sections.3)->Some_0;
    let head = start + first + second + marker + third;
    lemma_five_parts(start, first, second, marker, third);
    lemma_parse_preamble(head);
    lemma_lies_at_in_place(Seq::<u8>::empty(), file, Seq::<u8>::empty());
    assert(Seq::<u8>::empty() + file + Seq::<u8>::empty() =~= file);
    lemma_lies_at_split(file, 0, head, fourth);
    lemma_lies_at_within(file, head, 0, start);
    lemma_lies_at_within(file, head, 9, first);
    lemma_lies_at_within(file, head, 9int + first.len(), second);
    lemma_lies_at_within(file, head, 9int + first.len() + second.len(), marker);
    lemma_lies_at_within(file, head, 9int + first.len() + second.len() + 1, third);
}

/// The start of a written file, its two headers and the marker of its
/// screenshot are read from it one behind the other.
pub proof fn lemma_file_layout(d: WriteDataModel)
    requires
        save_sections(d) is Ok,
        file_bytes(save_sections(d)->Ok_0) is Some,
    ensures
        ({
            let sections = save_sections(d)->Ok_0;
            let file = file_bytes(sections)->Some_0;
            let p2 = 9int + section_bytes(sections.0)->Some_0.len();
            let p3 = p2 + section_bytes(sections.1)->Some_0.len();
            &&& parse_preamble(file) == Ok::<((Version, u32), int), Error>(
                ((Version::RenamedComponentDescriptors, DEFAULT_GAME_VERSION), 9),
            )
            &&& crate::section::parse_section(file, 9) == Ok::<(Seq<u8>, int), Error>(
                (sections.0, p2),
            )
            &&& crate::section::parse_section(file, p2) == Ok::<(Seq<u8>, int), Error>(
                (sections.1, p3),
            )
            &&& parse_screenshot_header(file, p3, Version::RenamedComponentDescriptors) == Ok::<
                (Option<(crate::save::ScreenshotFormat, usize)>, int),
                Error,
            >((None, p3 + 1))
        }),
{
    lemma_save_sections_parts(d);
    lemma_file_parts(d);
    let sections = save_sections(d)->Ok_0;
    let file = file_bytes(sections)->Some_0;
    let p1 = 9int;
    let p2 = p1 + section_bytes(sections.0)->Some_0.len();
    let p3 = p2 + section_bytes(sections.1)->Some_0.len();
    lemma_parse_preamble(file);
    lemma_parse_section(file, p1, sections.0);
    lemma_parse_section(file, p2, sections.1);
    assert(parse_screenshot_header(file, p3, Version::RenamedComponentDescriptors) == Ok::<
        (Option<(crate::save::ScreenshotFormat, usize)>, int),
        Error,
    >((None, p3 + 1))) by {
        reveal_with_fuel(crate::wire::le_value, 2);
        assert(file.subrange(p3, p3 + 1) == seq![0u8]);
        assert(file.subrange(p3, p3 + 1)[0] == 0u8);
        assert(file.subrange(p3, p3 + 1).skip(1).len() == 0);
    }
}

/// The headers of a record come back from the file that is made of it.
pub proof fn lemma_open_written(d: WriteDataModel)
    requires
        save_sections(d) is Ok,
        file_bytes(save_sections(d)->Ok_0) is Some,
    ensures
        parse_open(file_bytes(save_sections(d)->Ok_0)->Some_0) == Ok::<(Opened, int), Error>(
            (written_opened(d), written_bricks_at(d)),
        ),
{
    lemma_save_sections_parts(d);
    lemma_file_layout(d);
    lemma_parse_header1(d);
    lemma_parse_header2(d);
}

/// A record comes back from the file that is written for it: every field
/// as it was, but for the time, which comes back as the time of its tick
/// count.
pub proof fn lemma_save_roundtrip(d: WriteDataModel, missing_time: Timestamp)
    requires
        save_bytes(d) is Ok,
    ensures
        parse_save(save_bytes(d)->Ok_0, missing_time) == Ok::<WriteDataModel, Error>(
            read_back(d),
        ),
{
    lemma_save_sections_parts(d);
    lemma_file_parts(d);
    lemma_open_written(d);
    let sections = save_sections(d)->Ok_0;
    let file = file_bytes(sections)->Some_0;
    let p4 = written_bricks_at(d);
    let opened = written_opened(d);
    assert(crate::section::parse_section(file, p4) == Ok::<(Seq<u8>, int), Error>(
        (sections.2, p4 + section_bytes(sections.2)->Some_0.len()),
    )) by {
        lemma_parse_section(file, p4, sections.2);
    }
    assert(layout_of(opened) == written_layout(d));
    assert(crate::brick::decode_bricks(
        bytes_bits(sections.2),
        0,
        d.bricks.len(),
        written_layout(d),
    ) == Some(d.bricks)) by {
        lemma_decode_brick_stream(d.bricks, written_layout(d));
    }
    assert(parse_record(file, p4, opened, missing_time) == Ok::<WriteDataModel, Error>(
        read_back(d),
    ));
}

} // verus!
