//! The two headers of a save file, as they are read.
//!
//! Each header is the data of one compressed section. Which fields it holds
//! depends on the version of the file.

use crate::error::Error;
use crate::fields::{
    after, lemma_parse_items_step, parse_color, parse_datetime, parse_items, parse_owner,
    parse_table, parse_uuid, read_datetime, read_owner, read_uuid,
};
use crate::save::{BrickOwner, BrickOwnerModel, Color, Timestamp, User, UserModel, Uuid, Version};
use crate::text::{parse_string, read_string};
use crate::wire::{parse_int, read_i32, read_u32, then};
use vstd::prelude::*;

verus! {

/// What the first header holds.
#[derive(Debug, Clone, PartialEq, Eq)]
pub struct Header1 {
    pub map: String,
    pub author: User,
    pub description: String,
    pub host: Option<User>,
    pub time_saved: Option<Timestamp>,
    pub brick_count: u32,
}

/// What a `Header1` holds.
pub struct Header1Model {
    pub map: Seq<char>,
    pub author: UserModel,
    pub description: Seq<char>,
    pub host: Option<UserModel>,
    pub time_saved: Option<Timestamp>,
    pub brick_count: u32,
}

impl View for Header1 {
    type V = Header1Model;

    open spec fn view(&self) -> Header1Model {
        Header1Model {
            map: self.map@,
            author: self.author@,
            description: self.description@,
            host: match self.host {
                Some(user) => Some(user@),
                None => None,
            },
            time_saved: self.time_saved,
            brick_count: self.brick_count,
        }
    }
}

/// What the second header holds: the lookup tables that bricks point into.
#[derive(Debug, Clone, PartialEq, Eq)]
pub struct Header2 {
    pub mods: Vec<String>,
    pub brick_assets: Vec<String>,
    pub colors: Vec<Color>,
    pub materials: Vec<String>,
    pub brick_owners: Vec<BrickOwner>,
}

/// What a `Header2` holds.
pub struct Header2Model {
    pub mods: Seq<Seq<char>>,
    pub brick_assets: Seq<Seq<char>>,
    pub colors: Seq<Color>,
    pub materials: Seq<Seq<char>>,
    pub brick_owners: Seq<BrickOwnerModel>,
}

/// What a table of strings holds.
pub open spec fn names(strings: Seq<String>) -> Seq<Seq<char>> {
    Seq::new(strings.len(), |i: int| strings[i]@)
}

/// What a table of owners holds.
pub open spec fn owners(table: Seq<BrickOwner>) -> Seq<BrickOwnerModel> {
    Seq::new(table.len(), |i: int| table[i]@)
}

impl View for Header2 {
    type V = Header2Model;

    open spec fn view(&self) -> Header2Model {
        Header2Model {
            mods: names(self.mods@),
            brick_assets: names(self.brick_assets@),
            colors: self.colors@,
            materials: names(self.materials@),
            brick_owners: owners(self.brick_owners@),
        }
    }
}

/// How a string is read as an item of a table.
pub open spec fn string_item() -> spec_fn(Seq<u8>, int) -> Result<(Seq<char>, int), Error> {
    |input: Seq<u8>, pos: int| parse_string(input, pos)
}

/// How a color is read as an item of a table.
pub open spec fn color_item() -> spec_fn(Seq<u8>, int) -> Result<(Color, int), Error> {
    |input: Seq<u8>, pos: int| parse_color(input, pos)
}

/// How an owner is read as an item of a table.
pub open spec fn owner_item(counted: bool) -> spec_fn(Seq<u8>, int) -> Result<
    (BrickOwnerModel, int),
    Error,
> {
    |input: Seq<u8>, pos: int| parse_owner(input, pos, counted)
}

/// The materials of a file that is too old to name its own.
pub open spec fn default_materials() -> Seq<Seq<char>> {
    seq!["BMC_Hologram"@, "BMC_Plastic"@, "BMC_Glow"@, "BMC_Metallic"@]
}

/// Whether a file of `version` names the user who hosted the game.
pub open spec fn has_host(version: Version) -> bool {
    version.at_least_spec(Version::AddedGameVersionAndHostAndOwnerDataAndImprovedMaterials)
}

/// The number of bricks that a count in a file announces: none where the
/// count is negative.
pub open spec fn announced_bricks(count: int) -> u32 {
    if count < 0 {
        0
    } else {
        count as u32
    }
}

/// What a first header starts with in every version: the map, the name of
/// the author, the description and the identifier of the author.
pub open spec fn parse_credits(data: Seq<u8>) -> Result<
    ((Seq<char>, UserModel, Seq<char>), int),
    Error,
> {
    then(
        parse_string(data, 0),
        |map: Seq<char>, p1: int|
            then(
                parse_string(data, p1),
                |name: Seq<char>, p2: int|
                    then(
                        parse_string(data, p2),
                        |description: Seq<char>, p3: int|
                            then(
                                parse_uuid(data, p3),
                                |id: Uuid, p4: int|
                                    Ok(((map, UserModel { id, name }, description), p4)),
                            ),
                    ),
            ),
    )
}

/// The first header that `data` holds in a file of `version`: what every
/// first header starts with; from the version that has one on, the host;
/// from the version that has one on, the time; and the number of bricks.
#[verifier::opaque]
pub open spec fn parse_header1(data: Seq<u8>, version: Version) -> Result<Header1Model, Error> {
    let fields = then(
        parse_credits(data),
        |credits: (Seq<char>, UserModel, Seq<char>), p1: int|
            then(
                parse_host(data, p1, version),
                |host: Option<UserModel>, p2: int|
                    then(
                        parse_time_saved(data, p2, version),
                        |time_saved: Option<Timestamp>, p3: int|
                            then(
                                parse_int(data, p3, 4),
                                |count: int, p4: int|
                                    Ok(
                                        (
                                            Header1Model {
                                                map: credits.0,
                                                author: credits.1,
                                                description: credits.2,
                                                host,
                                                time_saved,
                                                brick_count: announced_bricks(count),
                                            },
                                            p4,
                                        ),
                                    ),
                            ),
                    ),
            ),
    );
    match fields {
        Ok((header, _)) => Ok(header),
        Err(e) => Err(e),
    }
}

/// The host that `data` holds at `pos`, in a file that names one: a name and
/// then an identifier.
pub open spec fn parse_host(data: Seq<u8>, pos: int, version: Version) -> Result<
    (Option<UserModel>, int),
    Error,
> {
    if has_host(version) {
        then(
            parse_string(data, pos),
            |name: Seq<char>, p: int|
                then(
                    parse_uuid(data, p),
                    |id: Uuid, next: int| Ok((Some(UserModel { id, name }), next)),
                ),
        )
    } else {
        Ok((None, pos))
    }
}

/// The time that `data` holds at `pos`, in a file that has one.
pub open spec fn parse_time_saved(data: Seq<u8>, pos: int, version: Version) -> Result<
    (Option<Timestamp>, int),
    Error,
> {
    if version.at_least_spec(Version::AddedDateTime) {
        then(parse_datetime(data, pos), |time: Timestamp, next: int| Ok((Some(time), next)))
    } else {
        Ok((None, pos))
    }
}

/// The materials that `data` holds at `pos`, or those that every file had
/// before they were named.
pub open spec fn parse_materials(data: Seq<u8>, pos: int, version: Version) -> Result<
    (Seq<Seq<char>>, int),
    Error,
> {
    if version.at_least_spec(Version::MaterialsStoredAsNames) {
        parse_table(data, pos, string_item())
    } else {
        Ok((default_materials(), pos))
    }
}

/// The owners that `data` holds at `pos`, in a file that has any.
pub open spec fn parse_owners(data: Seq<u8>, pos: int, version: Version) -> Result<
    (Seq<BrickOwnerModel>, int),
    Error,
> {
    if version.at_least_spec(Version::AddedOwnerData) {
        parse_table(data, pos, owner_item(has_host(version)))
    } else {
        Ok((Seq::empty(), pos))
    }
}

/// What a second header starts with in every version: the tables of mods,
/// brick assets and colors.
pub open spec fn parse_lookups(data: Seq<u8>) -> Result<
    ((Seq<Seq<char>>, Seq<Seq<char>>, Seq<Color>), int),
    Error,
> {
    then(
        parse_table(data, 0, string_item()),
        |mods: Seq<Seq<char>>, p1: int|
            then(
                parse_table(data, p1, string_item()),
                |brick_assets: Seq<Seq<char>>, p2: int|
                    then(
                        parse_table(data, p2, color_item()),
                        |colors: Seq<Color>, p3: int| Ok(((mods, brick_assets, colors), p3)),
                    ),
            ),
    )
}

/// The second header that `data` holds in a file of `version`: what every
/// second header starts with, and the tables of materials and owners.
#[verifier::opaque]
pub open spec fn parse_header2(data: Seq<u8>, version: Version) -> Result<Header2Model, Error> {
    let fields = then(
        parse_lookups(data),
        |lookups: (Seq<Seq<char>>, Seq<Seq<char>>, Seq<Color>), p1: int|
            then(
                parse_materials(data, p1, version),
                |materials: Seq<Seq<char>>, p2: int|
                    then(
                        parse_owners(data, p2, version),
                        |brick_owners: Seq<BrickOwnerModel>, p3: int|
                            Ok(
                                (
                                    Header2Model {
                                        mods: lookups.0,
                                        brick_assets: lookups.1,
                                        colors: lookups.2,
                                        materials,
                                        brick_owners,
                                    },
                                    p3,
                                ),
                            ),
                    ),
            ),
    );
    match fields {
        Ok((header, _)) => Ok(header),
        Err(e) => Err(e),
    }
}

/// A first header names a host from the version of the host on and in no
/// older file, and says when it was saved from the version of the time on
/// and in no older file.
pub proof fn lemma_header1_gates(data: Seq<u8>, version: Version)
    ensures
        parse_header1(data, version) matches Ok(header) ==> (header.host is Some
            <==> version.number() >= 7) && (header.time_saved is Some <==> version.number() >= 4),
{
    reveal(parse_header1);
}

/// Owners that are read without the number of their bricks own none.
pub proof fn lemma_uncounted_owners(input: Seq<u8>, pos: int, count: nat)
    ensures
        parse_items(input, pos, count, owner_item(false)) matches Ok((items, _)) ==> forall|
            i: int,
        |
            0 <= i < items.len() ==> (#[trigger] items[i]).brick_count == 0,
    decreases count,
{
    if count > 0 {
        match parse_owner(input, pos, false) {
            Err(e) => {},
            Ok((first, next)) => {
                lemma_uncounted_owners(input, next, (count - 1) as nat);
            },
        }
    }
}

/// A second header of a file from before materials were named has the four
/// materials that there were; one from before there were owners has none;
/// and one from before owners counted their bricks gives each of them none.
pub proof fn lemma_header2_gates(data: Seq<u8>, version: Version)
    ensures
        parse_header2(data, version) matches Ok(header) ==> (version.number() < 2
            ==> header.materials == default_materials()) && (version.number() < 3
            ==> header.brick_owners.len() == 0) && (version.number() < 7 ==> forall|i: int|
            0 <= i < header.brick_owners.len() ==> (#[trigger] header.brick_owners[i]).brick_count
                == 0),
{
    reveal(parse_header2);
    match parse_lookups(data) {
        Err(e) => {},
        Ok((lookups, p1)) => {
            match parse_materials(data, p1, version) {
                Err(e) => {},
                Ok((materials, p2)) => {
                    if version.number() >= 3 && version.number() < 7 {
                        match parse_int(data, p2, 4) {
                            Err(e) => {},
                            Ok((count, start)) => {
                                lemma_uncounted_owners(
                                    data,
                                    start,
                                    if count < 0 {
                                        0
                                    } else {
                                        count as nat
                                    },
                                );
                            },
                        }
                    }
                },
            }
        },
    }
}

/// Reads the first header out of the data of its section.
pub fn read_header1(data: &[u8], version: Version) -> (result: Result<Header1, Error>)
    ensures
        match result {
            Ok(header) => parse_header1(data@, version) == Ok::<Header1Model, Error>(header@),
            Err(e) => parse_header1(data@, version) == Err::<Header1Model, Error>(e),
        },
{
    reveal(parse_header1);
    let (map, p1) = read_string(data, 0)?;
    let (author_name, p2) = read_string(data, p1)?;
    let (description, p3) = read_string(data, p2)?;
    let (author_id, p4) = read_uuid(data, p3)?;
    let (host, p5) = if version.at_least(
        Version::AddedGameVersionAndHostAndOwnerDataAndImprovedMaterials,
    ) {
        let (name, p) = read_string(data, p4)?;
        let (id, next) = read_uuid(data, p)?;
        (Some(User { id, name }), next)
    } else {
        (None, p4)
    };
    let (time_saved, p6) = if version.at_least(Version::AddedDateTime) {
        let (time, next) = read_datetime(data, p5)?;
        (Some(time), next)
    } else {
        (None, p5)
    };
    let (count, _) = read_i32(data, p6)?;
    let brick_count: u32 = if count < 0 {
        0
    } else {
        count as u32
    };
    Ok(
        Header1 {
            map,
            author: User { id: author_id, name: author_name },
            description,
            host,
            time_saved,
            brick_count,
        },
    )
}

/// Reads a table of strings.
pub fn read_strings(data: &[u8], pos: usize) -> (result: Result<(Vec<String>, usize), Error>)
    ensures
        match result {
            Ok((items, next)) => parse_table(data@, pos as int, string_item()) == Ok::<
                (Seq<Seq<char>>, int),
                Error,
            >((names(items@), next as int)),
            Err(e) => parse_table(data@, pos as int, string_item()) == Err::<
                (Seq<Seq<char>>, int),
                Error,
            >(e),
        },
{
    let (count, start) = read_i32(data, pos)?;
    let total: usize = if count < 0 {
        0
    } else {
        count as usize
    };
    let ghost whole = parse_table(data@, pos as int, string_item());
    let mut items: Vec<String> = Vec::new();
    let mut at: usize = start;
    let mut index: usize = 0;
    assert(names(items@) =~= Seq::<Seq<char>>::empty());
    assert(whole == after(
        names(items@),
        parse_items(data@, at as int, total as nat, string_item()),
    )) by {
        match parse_items(data@, at as int, total as nat, string_item()) {
            Ok((rest, end)) => {
                assert(names(items@) + rest =~= rest);
            },
            Err(e) => {},
        }
    }
    while index < total
        invariant
            index <= total,
            whole == parse_table(data@, pos as int, string_item()),
            whole == after(
                names(items@),
                parse_items(data@, at as int, (total - index) as nat, string_item()),
            ),
        decreases total - index,
    {
        proof {
            lemma_parse_items_step(
                data@,
                at as int,
                (total - index) as nat,
                string_item(),
                names(items@),
            );
        }
        let ghost before = names(items@);
        let (text, next) = read_string(data, at)?;
        items.push(text);
        assert(names(items@) =~= before.push(text@));
        at = next;
        index = index + 1;
    }
    assert(names(items@) + Seq::<Seq<char>>::empty() =~= names(items@));
    Ok((items, at))
}

/// Reads a table of colors.
pub fn read_colors(data: &[u8], pos: usize) -> (result: Result<(Vec<Color>, usize), Error>)
    ensures
        match result {
            Ok((items, next)) => parse_table(data@, pos as int, color_item()) == Ok::<
                (Seq<Color>, int),
                Error,
            >((items@, next as int)),
            Err(e) => parse_table(data@, pos as int, color_item()) == Err::<
                (Seq<Color>, int),
                Error,
            >(e),
        },
{
    let (count, start) = read_i32(data, pos)?;
    let total: usize = if count < 0 {
        0
    } else {
        count as usize
    };
    let ghost whole = parse_table(data@, pos as int, color_item());
    let mut items: Vec<Color> = Vec::new();
    let mut at: usize = start;
    let mut index: usize = 0;
    assert(whole == after(items@, parse_items(data@, at as int, total as nat, color_item())))
        by {
        match parse_items(data@, at as int, total as nat, color_item()) {
            Ok((rest, end)) => {
                assert(items@ + rest =~= rest);
            },
            Err(e) => {},
        }
    }
    while index < total
        invariant
            index <= total,
            whole == parse_table(data@, pos as int, color_item()),
            whole == after(
                items@,
                parse_items(data@, at as int, (total - index) as nat, color_item()),
            ),
        decreases total - index,
    {
        proof {
            lemma_parse_items_step(data@, at as int, (total - index) as nat, color_item(), items@);
        }
        let (value, next) = read_u32(data, at)?;
        items.push(Color(value));
        at = next;
        index = index + 1;
    }
    assert(items@ + Seq::<Color>::empty() =~= items@);
    Ok((items, at))
}

/// Reads a table of owners.
pub fn read_owners(data: &[u8], pos: usize, counted: bool) -> (result: Result<
    (Vec<BrickOwner>, usize),
    Error,
>)
    ensures
        match result {
            Ok((items, next)) => parse_table(data@, pos as int, owner_item(counted)) == Ok::<
                (Seq<BrickOwnerModel>, int),
                Error,
            >((owners(items@), next as int)),
            Err(e) => parse_table(data@, pos as int, owner_item(counted)) == Err::<
                (Seq<BrickOwnerModel>, int),
                Error,
            >(e),
        },
{
    let (count, start) = read_i32(data, pos)?;
    let total: usize = if count < 0 {
        0
    } else {
        count as usize
    };
    let ghost whole = parse_table(data@, pos as int, owner_item(counted));
    let mut items: Vec<BrickOwner> = Vec::new();
    let mut at: usize = start;
    let mut index: usize = 0;
    assert(owners(items@) =~= Seq::<BrickOwnerModel>::empty());
    assert(whole == after(
        owners(items@),
        parse_items(data@, at as int, total as nat, owner_item(counted)),
    )) by {
        match parse_items(data@, at as int, total as nat, owner_item(counted)) {
            Ok((rest, end)) => {
                assert(owners(items@) + rest =~= rest);
            },
            Err(e) => {},
        }
    }
    while index < total
        invariant
            index <= total,
            whole == parse_table(data@, pos as int, owner_item(counted)),
            whole == after(
                owners(items@),
                parse_items(data@, at as int, (total - index) as nat, owner_item(counted)),
            ),
        decreases total - index,
    {
        proof {
            lemma_parse_items_step(
                data@,
                at as int,
                (total - index) as nat,
                owner_item(counted),
                owners(items@),
            );
        }
        let ghost before = owners(items@);
        let (owner, next) = read_owner(data, at, counted)?;
        items.push(owner);
        assert(owners(items@) =~= before.push(owner@));
        at = next;
        index = index + 1;
    }
    assert(owners(items@) + Seq::<BrickOwnerModel>::empty() =~= owners(items@));
    Ok((items, at))
}

/// The materials of a file that is too old to name its own.
pub fn default_material_names() -> (materials: Vec<String>)
    ensures
        names(materials@) == default_materials(),
{
    let mut materials: Vec<String> = Vec::new();
    materials.push("BMC_Hologram".to_string());
    materials.push("BMC_Plastic".to_string());
    materials.push("BMC_Glow".to_string());
    materials.push("BMC_Metallic".to_string());
    assert(names(materials@) =~= default_materials());
    materials
}

/// Reads the second header out of the data of its section.
pub fn read_header2(data: &[u8], version: Version) -> (result: Result<Header2, Error>)
    ensures
        match result {
            Ok(header) => parse_header2(data@, version) == Ok::<Header2Model, Error>(header@),
            Err(e) => parse_header2(data@, version) == Err::<Header2Model, Error>(e),
        },
{
    reveal(parse_header2);
    let (mods, p1) = read_strings(data, 0)?;
    let (brick_assets, p2) = read_strings(data, p1)?;
    let (colors, p3) = read_colors(data, p2)?;
    let (materials, p4) = if version.at_least(Version::MaterialsStoredAsNames) {
        read_strings(data, p3)?
    } else {
        (default_material_names(), p3)
    };
    let (brick_owners, _) = if version.at_least(Version::AddedOwnerData) {
        read_owners(
            data,
            p4,
            version.at_least(Version::AddedGameVersionAndHostAndOwnerDataAndImprovedMaterials),
        )?
    } else {
        (Vec::new(), p4)
    };
    assert(owners(Seq::<BrickOwner>::empty()) =~= Seq::<BrickOwnerModel>::empty());
    Ok(Header2 { mods, brick_assets, colors, materials, brick_owners })
}

} // verus!
