//! Bricks as they lie in the bit stream of a save file.
//!
//! Every brick starts at a byte. How wide some of its fields are depends on
//! the sizes of the lookup tables, and which fields it has on the version of
//! the file.

use crate::bit_reader::{BitReader, eof};
use crate::bit_writer::BitWriter;
use crate::bits::{
    bits_bytes, bytes_bits, lemma_bits_of_bytes, lemma_low_bits_len, low_bits, padding, zero_bits,
};
use crate::error::Error;
use crate::packing::{
    decode_bit, decode_bits, decode_int, decode_packed, decode_packed3, decode_signed3, holds_at,
    int_bits, lemma_decode_bits, lemma_decode_int, lemma_decode_packed, lemma_decode_packed3,
    lemma_decode_signed3, lemma_holds_at_split, packed3_bits, packed_bits, signed3_bits,
};
use crate::save::{
    Brick, Color, ColorMode, combine_orientation, Direction, lemma_orientation_bijection,
    orientation_of, Rotation, split_orientation, Version,
};
use vstd::arithmetic::power2::lemma2_to64;
use vstd::prelude::*;

verus! {

/// What the encoding of a brick depends on: the version of the file and the
/// sizes of the lookup tables that the brick points into.
#[derive(Debug, Clone, Copy, PartialEq, Eq, Structural)]
pub struct BrickLayout {
    pub version: Version,
    pub asset_count: u32,
    pub material_count: u32,
    pub color_count: u32,
}

/// The size of a table as the encoding of a brick takes it: the number of
/// its entries, or as much of it as 32 bits hold.
pub open spec fn table_size(len: nat) -> u32 {
    if len > u32::MAX {
        u32::MAX
    } else {
        len as u32
    }
}

/// The size of a table as the encoding of a brick takes it.
pub fn size_of_table(len: usize) -> (size: u32)
    ensures
        size == table_size(len as nat),
{
    if len > u32::MAX as usize {
        u32::MAX
    } else {
        len as u32
    }
}

/// The bound that an index into a table of `count` entries is written
/// under: at least two, so that at least one bit is written.
pub open spec fn index_bound(count: u32) -> nat {
    if count < 2 {
        2
    } else {
        count as nat
    }
}

/// Whether bricks of `version` hold their material as an index below the
/// size of the material table, and not as a flag and a packed integer.
pub open spec fn has_bounded_material(version: Version) -> bool {
    version.at_least_spec(Version::AddedGameVersionAndHostAndOwnerDataAndImprovedMaterials)
}

/// Goes on with `rest` where `first` left off, or fails as `first` did.
pub open spec fn next<A, B>(first: Option<(A, int)>, rest: spec_fn(A, int) -> Option<(B, int)>)
    -> Option<(B, int)> {
    match first {
        Some((value, pos)) => rest(value, pos),
        None => None,
    }
}

/// The size of a brick at `pos`: a flag, and three packed integers if it is
/// set.
pub open spec fn decode_size(bits: Seq<bool>, pos: int) -> Option<((u32, u32, u32), int)> {
    next(
        decode_bit(bits, pos),
        |sized: bool, p: int|
            if sized {
                next(
                    decode_packed3(bits, p),
                    |v: (nat, nat, nat), end: int|
                        Some(((v.0 as u32, v.1 as u32, v.2 as u32), end)),
                )
            } else {
                Some(((0u32, 0u32, 0u32), p))
            },
    )
}

/// The material of a brick at `pos`: an index below the size of the
/// material table from the version that has those on, and before that a
/// flag and a packed integer if it is set, or the second material.
pub open spec fn decode_material(bits: Seq<bool>, pos: int, layout: BrickLayout) -> Option<
    (u32, int),
> {
    if has_bounded_material(layout.version) {
        next(
            decode_int(bits, pos, index_bound(layout.material_count)),
            |v: nat, end: int| Some((v as u32, end)),
        )
    } else {
        next(
            decode_bit(bits, pos),
            |named: bool, p: int|
                if named {
                    next(decode_packed(bits, p), |v: nat, end: int| Some((v as u32, end)))
                } else {
                    Some((1u32, p))
                },
        )
    }
}

/// The color of a brick at `pos`: a flag, and then the 32 bits of a color
/// of its own if it is set, or an index below the size of the color table.
pub open spec fn decode_color(bits: Seq<bool>, pos: int, layout: BrickLayout) -> Option<
    (ColorMode, int),
> {
    next(
        decode_bit(bits, pos),
        |custom: bool, p: int|
            if custom {
                next(
                    decode_bits(bits, p, 32),
                    |v: nat, end: int| Some((ColorMode::Custom(Color(v as u32)), end)),
                )
            } else {
                next(
                    decode_int(bits, p, layout.color_count as nat),
                    |v: nat, end: int| Some((ColorMode::Palette(v as u32), end)),
                )
            },
    )
}

/// The owner that the number `code` stands for: nobody for zero, and else
/// the entry before it.
pub open spec fn owner_of_code(code: nat) -> Option<u32> {
    if code == 0 {
        None
    } else {
        Some((code - 1) as u32)
    }
}

/// The number that stands for an owner in a file.
pub open spec fn owner_code(owner: Option<u32>) -> nat {
    match owner {
        None => 0,
        Some(index) => (index + 1) as nat,
    }
}

/// The owner of a brick at `pos`: a packed integer from the version that
/// has owners on, and nobody before that.
pub open spec fn decode_owner(bits: Seq<bool>, pos: int, layout: BrickLayout) -> Option<
    (Option<u32>, int),
> {
    if layout.version.at_least_spec(Version::AddedOwnerData) {
        next(decode_packed(bits, pos), |code: nat, end: int| Some((owner_of_code(code), end)))
    } else {
        Some((None, pos))
    }
}

/// A brick of a file from before there were owners has none, and one from
/// before materials were indices has the second material unless the flag
/// of its material is set.
pub proof fn lemma_brick_gates(bits: Seq<bool>, pos: int, layout: BrickLayout)
    ensures
        layout.version.number() < 3 ==> decode_owner(bits, pos, layout) == Some(
            (None::<u32>, pos),
        ),
        layout.version.number() < 7 && decode_bit(bits, pos) == Some((false, pos + 1))
            ==> decode_material(bits, pos, layout) == Some((1u32, pos + 1)),
        decode_brick(bits, pos, layout) matches Some((brick, _)) ==> (layout.version.number() < 3
            ==> brick.owner_index is None),
{
}

/// Where a brick is and what it is shaped like: the index of its asset, its
/// size, its position and its packed orientation, in this order.
pub open spec fn decode_shape(bits: Seq<bool>, pos: int, layout: BrickLayout) -> Option<
    ((u32, (u32, u32, u32), (i32, i32, i32), nat), int),
> {
    next(
        decode_int(bits, pos, index_bound(layout.asset_count)),
        |asset: nat, p1: int|
            next(
                decode_size(bits, p1),
                |size: (u32, u32, u32), p2: int|
                    next(
                        decode_signed3(bits, p2),
                        |at: (int, int, int), p3: int|
                            next(
                                decode_int(bits, p3, 24),
                                |orientation: nat, p4: int|
                                    Some(
                                        (
                                            (
                                                asset as u32,
                                                size,
                                                (at.0 as i32, at.1 as i32, at.2 as i32),
                                                orientation,
                                            ),
                                            p4,
                                        ),
                                    ),
                            ),
                    ),
            ),
    )
}

/// How a brick behaves and what it looks like: whether it collides, whether
/// it is visible, its material, its color and its owner, in this order.
pub open spec fn decode_look(bits: Seq<bool>, pos: int, layout: BrickLayout) -> Option<
    ((bool, bool, u32, ColorMode, Option<u32>), int),
> {
    next(
        decode_bit(bits, pos),
        |collision: bool, p1: int|
            next(
                decode_bit(bits, p1),
                |visibility: bool, p2: int|
                    next(
                        decode_material(bits, p2, layout),
                        |material: u32, p3: int|
                            next(
                                decode_color(bits, p3, layout),
                                |color: ColorMode, p4: int|
                                    next(
                                        decode_owner(bits, p4, layout),
                                        |owner: Option<u32>, p5: int|
                                            Some(
                                                (
                                                    (collision, visibility, material, color, owner),
                                                    p5,
                                                ),
                                            ),
                                    ),
                            ),
                    ),
            ),
    )
}

/// The brick that the stream holds at `pos`.
pub open spec fn decode_brick(bits: Seq<bool>, pos: int, layout: BrickLayout) -> Option<
    (Brick, int),
> {
    next(
        decode_shape(bits, pos, layout),
        |shape: (u32, (u32, u32, u32), (i32, i32, i32), nat), p1: int|
            next(
                decode_look(bits, p1, layout),
                |look: (bool, bool, u32, ColorMode, Option<u32>), p2: int|
                    Some(
                        (
                            Brick {
                                asset_name_index: shape.0,
                                size: shape.1,
                                position: shape.2,
                                direction: Direction::of_index(shape.3 / 4),
                                rotation: Rotation::of_index(shape.3),
                                collision: look.0,
                                visibility: look.1,
                                material_index: look.2,
                                color: look.3,
                                owner_index: look.4,
                            },
                            p2,
                        ),
                    ),
            ),
    )
}

/// Whether `layout` is that of a file of the newest version.
pub open spec fn is_newest(layout: BrickLayout) -> bool {
    layout.version == Version::RenamedComponentDescriptors
}

/// Whether the encoder takes this brick: the file is of the newest version,
/// the indices of the brick are below the bounds they are written under,
/// and its position and owner can be counted.
pub open spec fn brick_ok(brick: Brick, layout: BrickLayout) -> bool {
    &&& is_newest(layout)
    &&& brick.asset_name_index < index_bound(layout.asset_count)
    &&& brick.position.0 != i32::MIN
    &&& brick.position.1 != i32::MIN
    &&& brick.position.2 != i32::MIN
    &&& brick.material_index < index_bound(layout.material_count)
    &&& (brick.color matches ColorMode::Palette(index) ==> index < layout.color_count)
    &&& brick.owner_index != Some(u32::MAX)
}

/// The bits of the size of a brick.
pub open spec fn size_bits(size: (u32, u32, u32)) -> Seq<bool> {
    if size == (0u32, 0u32, 0u32) {
        seq![false]
    } else {
        seq![true] + packed3_bits((size.0 as nat, size.1 as nat, size.2 as nat))
    }
}

/// The bits of the color of a brick.
pub open spec fn color_bits(color: ColorMode, layout: BrickLayout) -> Seq<bool> {
    match color {
        ColorMode::Palette(index) => seq![false] + int_bits(
            index as nat,
            layout.color_count as nat,
        ),
        ColorMode::Custom(c) => seq![true] + low_bits(c.0 as nat, 32),
    }
}

/// The bits of where a brick is and what it is shaped like.
pub open spec fn shape_bits(brick: Brick, layout: BrickLayout) -> Seq<bool> {
    int_bits(brick.asset_name_index as nat, index_bound(layout.asset_count)) + size_bits(
        brick.size,
    ) + signed3_bits((brick.position.0 as int, brick.position.1 as int, brick.position.2 as int))
        + int_bits(orientation_of(brick.direction, brick.rotation), 24)
}

/// The bits of how a brick behaves and what it looks like, in a file of the
/// newest version.
pub open spec fn look_bits(brick: Brick, layout: BrickLayout) -> Seq<bool> {
    seq![brick.collision, brick.visibility] + int_bits(
        brick.material_index as nat,
        index_bound(layout.material_count),
    ) + color_bits(brick.color, layout) + packed_bits(owner_code(brick.owner_index))
}

/// The bits of a brick in a file of the newest version.
pub open spec fn brick_bits(brick: Brick, layout: BrickLayout) -> Seq<bool> {
    shape_bits(brick, layout) + look_bits(brick, layout)
}

/// The shape of a brick that the encoder takes is read back from its bits
/// as it was.
pub proof fn lemma_decode_shape(bits: Seq<bool>, pos: int, brick: Brick, layout: BrickLayout)
    requires
        brick_ok(brick, layout),
        holds_at(bits, pos, shape_bits(brick, layout)),
    ensures
        decode_shape(bits, pos, layout) == Some(
            (
                (
                    brick.asset_name_index,
                    brick.size,
                    brick.position,
                    orientation_of(brick.direction, brick.rotation),
                ),
                pos + shape_bits(brick, layout).len(),
            ),
        ),
{
    lemma2_to64();
    let asset = int_bits(brick.asset_name_index as nat, index_bound(layout.asset_count));
    let size = size_bits(brick.size);
    let at = (brick.position.0 as int, brick.position.1 as int, brick.position.2 as int);
    let position = signed3_bits(at);
    let turn = orientation_of(brick.direction, brick.rotation);
    let orientation = int_bits(turn, 24);
    let p1 = pos + asset.len();
    let p2 = p1 + size.len();
    let p3 = p2 + position.len();
    lemma_holds_at_split(bits, pos, asset + size + position, orientation);
    lemma_holds_at_split(bits, pos, asset + size, position);
    lemma_holds_at_split(bits, pos, asset, size);
    lemma_decode_int(bits, pos, brick.asset_name_index as nat, index_bound(layout.asset_count));
    assert(decode_size(bits, p1) == Some((brick.size, p2))) by {
        assert(bits[p1] == bits.subrange(p1, p1 + size.len())[0]);
        if brick.size != (0u32, 0u32, 0u32) {
            let triple = (brick.size.0 as nat, brick.size.1 as nat, brick.size.2 as nat);
            lemma_holds_at_split(bits, p1, seq![true], packed3_bits(triple));
            lemma_decode_packed3(bits, p1 + 1, triple);
        }
    }
    lemma_decode_signed3(bits, p2, at);
    lemma_orientation_bijection(brick.direction, brick.rotation);
    lemma_decode_int(bits, p3, turn, 24);
}

/// The look of a brick that the encoder takes is read back from its bits as
/// it was.
pub proof fn lemma_decode_look(bits: Seq<bool>, pos: int, brick: Brick, layout: BrickLayout)
    requires
        brick_ok(brick, layout),
        holds_at(bits, pos, look_bits(brick, layout)),
    ensures
        decode_look(bits, pos, layout) == Some(
            (
                (
                    brick.collision,
                    brick.visibility,
                    brick.material_index,
                    brick.color,
                    brick.owner_index,
                ),
                pos + look_bits(brick, layout).len(),
            ),
        ),
{
    lemma2_to64();
    let flags = seq![brick.collision, brick.visibility];
    let material = int_bits(brick.material_index as nat, index_bound(layout.material_count));
    let color = color_bits(brick.color, layout);
    let owner = packed_bits(owner_code(brick.owner_index));
    let p2 = pos + 2;
    let p3 = p2 + material.len();
    let p4 = p3 + color.len();
    lemma_holds_at_split(bits, pos, flags + material + color, owner);
    lemma_holds_at_split(bits, pos, flags + material, color);
    lemma_holds_at_split(bits, pos, flags, material);
    assert(bits[pos] == bits.subrange(pos, pos + 2)[0]);
    assert(bits[pos + 1] == bits.subrange(pos, pos + 2)[1]);
    lemma_decode_int(bits, p2, brick.material_index as nat, index_bound(layout.material_count));
    assert(decode_color(bits, p3, layout) == Some((brick.color, p4))) by {
        assert(bits[p3] == bits.subrange(p3, p3 + color.len())[0]);
        match brick.color {
            ColorMode::Palette(index) => {
                let tail = int_bits(index as nat, layout.color_count as nat);
                lemma_holds_at_split(bits, p3, seq![false], tail);
                lemma_decode_int(bits, p3 + 1, index as nat, layout.color_count as nat);
            },
            ColorMode::Custom(c) => {
                let tail = low_bits(c.0 as nat, 32);
                lemma_low_bits_len(c.0 as nat, 32);
                lemma_holds_at_split(bits, p3, seq![true], tail);
                lemma_decode_bits(bits, p3 + 1, c.0 as nat, 32);
            },
        }
    }
    lemma_decode_packed(bits, p4, owner_code(brick.owner_index));
}

/// A brick that the encoder takes is read back from its bits as it was.
pub proof fn lemma_decode_brick(bits: Seq<bool>, pos: int, brick: Brick, layout: BrickLayout)
    requires
        brick_ok(brick, layout),
        holds_at(bits, pos, brick_bits(brick, layout)),
    ensures
        decode_brick(bits, pos, layout) == Some((brick, pos + brick_bits(brick, layout).len())),
{
    lemma_holds_at_split(bits, pos, shape_bits(brick, layout), look_bits(brick, layout));
    lemma_decode_shape(bits, pos, brick, layout);
    lemma_decode_look(bits, pos + shape_bits(brick, layout).len(), brick, layout);
    lemma_orientation_bijection(brick.direction, brick.rotation);
}

/// The bound that an index into a table of `count` entries is written
/// under.
pub fn bound_of(count: u32) -> (bound: u32)
    ensures
        bound == index_bound(count),
        bound >= 2,
{
    if count < 2 {
        2
    } else {
        count
    }
}

/// Reads the brick at the position of `reader`. Where the stream ends
/// within the brick, the reader stays where it was.
pub fn read_brick(reader: &mut BitReader, layout: BrickLayout) -> (result: Result<Brick, Error>)
    ensures
        match result {
            Ok(brick) => {
                &&& decode_brick(old(reader).bits(), old(reader).pos(), layout) == Some(
                    (brick, final(reader).pos()),
                )
                &&& final(reader).moved(old(reader), final(reader).pos())
            },
            Err(e) => {
                &&& e == eof()
                &&& decode_brick(old(reader).bits(), old(reader).pos(), layout) is None
                &&& final(reader).moved(old(reader), old(reader).pos())
            },
        },
{
    let at = reader.position();
    let result = read_fields(reader, layout);
    if result.is_err() {
        reader.rewind(at);
    }
    result
}

/// Reads the fields of the brick at the position of `reader`, one after the
/// other.
fn read_fields(reader: &mut BitReader, layout: BrickLayout) -> (result: Result<Brick, Error>)
    ensures
        final(reader).bits() == old(reader).bits(),
        final(reader).bytes() == old(reader).bytes(),
        match result {
            Ok(brick) => decode_brick(old(reader).bits(), old(reader).pos(), layout) == Some(
                (brick, final(reader).pos()),
            ) && 0 <= final(reader).pos() <= final(reader).bits().len(),
            Err(e) => e == eof() && decode_brick(old(reader).bits(), old(reader).pos(), layout)
                is None,
        },
{
    let asset_name_index = reader.read_int(bound_of(layout.asset_count))?;
    let size = if reader.read_bit()? {
        reader.read_positive_int_vector_packed()?
    } else {
        (0, 0, 0)
    };
    let position = reader.read_int_vector_packed()?;
    let orientation = reader.read_int(24)?;
    let (direction, rotation) = split_orientation(orientation as u8);
    let collision = reader.read_bit()?;
    let visibility = reader.read_bit()?;
    let material_index = if layout.version.at_least(
        Version::AddedGameVersionAndHostAndOwnerDataAndImprovedMaterials,
    ) {
        reader.read_int(bound_of(layout.material_count))?
    } else if reader.read_bit()? {
        reader.read_int_packed()?
    } else {
        1
    };
    let color = if reader.read_bit()? {
        proof {
            lemma2_to64();
        }
        ColorMode::Custom(Color(reader.read_value(32)? as u32))
    } else {
        ColorMode::Palette(reader.read_int(layout.color_count)?)
    };
    let owner_code: u32 = if layout.version.at_least(Version::AddedOwnerData) {
        reader.read_int_packed()?
    } else {
        0
    };
    let owner_index = if owner_code == 0 {
        None
    } else {
        Some(owner_code - 1)
    };
    Ok(
        Brick {
            asset_name_index,
            size,
            position,
            direction,
            rotation,
            collision,
            visibility,
            material_index,
            color,
            owner_index,
        },
    )
}

/// Writes where a brick is and what it is shaped like.
fn write_shape(writer: &mut BitWriter, brick: &Brick, layout: BrickLayout)
    requires
        brick_ok(*brick, layout),
    ensures
        final(writer)@ == old(writer)@ + shape_bits(*brick, layout),
{
    let ghost before = writer@;
    let _ = writer.write_int(brick.asset_name_index, bound_of(layout.asset_count));
    let ghost sized_at = writer@;
    let sized = brick.size.0 != 0 || brick.size.1 != 0 || brick.size.2 != 0;
    if writer.write_bit(sized) {
        writer.write_positive_int_vector_packed(brick.size);
    }
    assert(writer@ =~= sized_at + size_bits(brick.size));
    let _ = writer.write_int_vector_packed(brick.position);
    let orientation = combine_orientation(brick.direction, brick.rotation);
    let _ = writer.write_int(orientation as u32, 24);
    assert(writer@ =~= before + shape_bits(*brick, layout));
}

/// Writes how a brick behaves and what it looks like.
fn write_look(writer: &mut BitWriter, brick: &Brick, layout: BrickLayout)
    requires
        brick_ok(*brick, layout),
    ensures
        final(writer)@ == old(writer)@ + look_bits(*brick, layout),
{
    let ghost before = writer@;
    writer.write_bit(brick.collision);
    writer.write_bit(brick.visibility);
    assert(writer@ =~= before + seq![brick.collision, brick.visibility]);
    let _ = writer.write_int(brick.material_index, bound_of(layout.material_count));
    let ghost colored = writer@;
    match brick.color {
        ColorMode::Palette(index) => {
            writer.write_bit(false);
            if layout.color_count >= 2 {
                let _ = writer.write_int(index, layout.color_count);
            } else {
                assert(int_bits(index as nat, layout.color_count as nat) =~= Seq::<bool>::empty());
            }
        },
        ColorMode::Custom(c) => {
            writer.write_bit(true);
            writer.write_value(c.0 as u64, 32);
        },
    }
    assert(writer@ =~= colored + color_bits(brick.color, layout));
    let code: u32 = match brick.owner_index {
        None => 0,
        Some(index) => index + 1,
    };
    writer.write_int_packed(code);
    assert(writer@ =~= before + look_bits(*brick, layout));
}

/// Whether the encoder takes this brick.
pub fn check_brick(brick: &Brick, layout: BrickLayout) -> (ok: bool)
    ensures
        ok == brick_ok(*brick, layout),
{
    let palette_ok = match brick.color {
        ColorMode::Palette(index) => index < layout.color_count,
        ColorMode::Custom(_) => true,
    };
    let owner_ok = match brick.owner_index {
        Some(index) => index != u32::MAX,
        None => true,
    };
    layout.version.to_u16() == 8 && brick.asset_name_index < bound_of(layout.asset_count)
        && brick.position.0 != i32::MIN
        && brick.position.1 != i32::MIN && brick.position.2 != i32::MIN && brick.material_index
        < bound_of(layout.material_count) && palette_ok && owner_ok
}

/// Writes a brick as a file of the newest version holds it. A brick that
/// the encoder does not take is refused, and nothing is written.
pub fn write_brick(writer: &mut BitWriter, brick: &Brick, layout: BrickLayout) -> (result: Result<
    (),
    Error,
>)
    ensures
        brick_ok(*brick, layout) ==> result is Ok && final(writer)@ == old(writer)@ + brick_bits(
            *brick,
            layout,
        ),
        !brick_ok(*brick, layout) ==> result == Err::<(), Error>(Error::InvalidInput)
            && final(writer)@ == old(writer)@,
{
    let ghost before = writer@;
    if !check_brick(brick, layout) {
        return Err(Error::InvalidInput);
    }
    write_shape(writer, brick, layout);
    write_look(writer, brick, layout);
    assert(writer@ =~= before + brick_bits(*brick, layout));
    Ok(())
}

/// The next `count` bricks of the stream, each from the next byte on, or
/// nothing where the stream ends too early.
pub open spec fn decode_bricks(bits: Seq<bool>, pos: int, count: nat, layout: BrickLayout)
    -> Option<Seq<Brick>>
    decreases count,
{
    if count == 0 {
        Some(Seq::empty())
    } else {
        match decode_brick(bits, pos + padding(pos as nat), layout) {
            None => None,
            Some((first, end)) => match decode_bricks(bits, end, (count - 1) as nat, layout) {
                None => None,
                Some(rest) => Some(seq![first] + rest),
            },
        }
    }
}

/// The bits of bricks in a row that start `start` bits into their stream:
/// before each brick as many clear bits as bring it to a byte.
pub open spec fn bricks_bits(start: nat, bricks: Seq<Brick>, layout: BrickLayout) -> Seq<bool>
    decreases bricks.len(),
{
    if bricks.len() == 0 {
        Seq::empty()
    } else {
        let first = zero_bits(padding(start)) + brick_bits(bricks[0], layout);
        first + bricks_bits(start + first.len(), bricks.skip(1), layout)
    }
}

/// Whether the encoder takes every one of these bricks.
pub open spec fn bricks_ok(bricks: Seq<Brick>, layout: BrickLayout) -> bool {
    forall|i: int| 0 <= i < bricks.len() ==> brick_ok(#[trigger] bricks[i], layout)
}

/// Bricks that the encoder takes are read back from their bits as they
/// were.
pub proof fn lemma_decode_bricks(bits: Seq<bool>, pos: int, bricks: Seq<Brick>, layout: BrickLayout)
    requires
        bricks_ok(bricks, layout),
        holds_at(bits, pos, bricks_bits(pos as nat, bricks, layout)),
    ensures
        decode_bricks(bits, pos, bricks.len(), layout) == Some(bricks),
    decreases bricks.len(),
{
    if bricks.len() > 0 {
        let pad = zero_bits(padding(pos as nat));
        let first = pad + brick_bits(bricks[0], layout);
        let rest = bricks.skip(1);
        lemma_holds_at_split(
            bits,
            pos,
            first,
            bricks_bits((pos + first.len()) as nat, rest, layout),
        );
        lemma_holds_at_split(bits, pos, pad, brick_bits(bricks[0], layout));
        assert(brick_ok(bricks[0], layout));
        lemma_decode_brick(bits, pos + padding(pos as nat), bricks[0], layout);
        assert(bricks_ok(rest, layout)) by {
            assert forall|i: int| 0 <= i < rest.len() implies brick_ok(
                #[trigger] rest[i],
                layout,
            ) by {
                assert(rest[i] == bricks[i + 1]);
            }
        }
        lemma_decode_bricks(bits, pos + first.len(), rest, layout);
        assert(seq![bricks[0]] + rest =~= bricks);
    } else {
        assert(bricks =~= Seq::<Brick>::empty());
    }
}

/// The data of the section that holds these bricks: their bits from the
/// start of the section on, in whole bytes. A section cannot be empty, so
/// no bricks make one clear byte.
pub open spec fn brick_stream(bricks: Seq<Brick>, layout: BrickLayout) -> Seq<u8> {
    let bits = bricks_bits(0, bricks, layout);
    if bits.len() == 0 {
        seq![0u8]
    } else {
        bits_bytes(bits)
    }
}

/// Bricks that the encoder takes are read back from the section that holds
/// them as they were.
pub proof fn lemma_decode_brick_stream(bricks: Seq<Brick>, layout: BrickLayout)
    requires
        bricks_ok(bricks, layout),
    ensures
        decode_bricks(bytes_bits(brick_stream(bricks, layout)), 0, bricks.len(), layout) == Some(
            bricks,
        ),
        brick_stream(bricks, layout).len() > 0,
{
    let bits = bricks_bits(0, bricks, layout);
    if bits.len() == 0 {
        if bricks.len() > 0 {
            let first = zero_bits(padding(0)) + brick_bits(bricks[0], layout);
            assert(brick_bits(bricks[0], layout).len() >= 2);
            assert(bits.len() >= first.len());
        }
        assert(bricks =~= Seq::<Brick>::empty());
    } else {
        lemma_bits_of_bytes(bits);
        let all = bytes_bits(bits_bytes(bits));
        assert(all.subrange(0, bits.len() as int) =~= bits);
        lemma_decode_bricks(all, 0, bricks, layout);
    }
}

/// One more brick behind others adds its clear bits and its own bits.
pub proof fn lemma_bricks_bits_push(
    start: nat,
    bricks: Seq<Brick>,
    last: Brick,
    layout: BrickLayout,
)
    ensures
        bricks_bits(start, bricks.push(last), layout) == bricks_bits(start, bricks, layout)
            + zero_bits(padding(start + bricks_bits(start, bricks, layout).len())) + brick_bits(
            last,
            layout,
        ),
    decreases bricks.len(),
{
    let whole = bricks.push(last);
    if bricks.len() == 0 {
        assert(whole.skip(1) =~= Seq::<Brick>::empty());
        assert(whole[0] == last);
        let first = zero_bits(padding(start)) + brick_bits(last, layout);
        assert(bricks_bits(start + first.len(), whole.skip(1), layout) =~= Seq::<bool>::empty());
        assert(bricks_bits(start, whole, layout) == first + bricks_bits(
            start + first.len(),
            whole.skip(1),
            layout,
        ));
        assert(bricks_bits(start, whole, layout) =~= zero_bits(padding(start)) + brick_bits(
            last,
            layout,
        ));
        assert(bricks_bits(start, bricks, layout) =~= Seq::<bool>::empty());
        assert(bricks_bits(start, whole, layout) =~= bricks_bits(start, bricks, layout)
            + zero_bits(padding(start + bricks_bits(start, bricks, layout).len())) + brick_bits(
            last,
            layout,
        ));
    } else {
        let first = zero_bits(padding(start)) + brick_bits(bricks[0], layout);
        lemma_bricks_bits_push(start + first.len(), bricks.skip(1), last, layout);
        assert(whole.skip(1) =~= bricks.skip(1).push(last));
        assert(whole[0] == bricks[0]);
        let tail = bricks_bits(start + first.len(), bricks.skip(1), layout);
        assert(bricks_bits(start, bricks, layout) == first + tail);
        assert(bricks_bits(start, whole, layout) =~= bricks_bits(start, bricks, layout)
            + zero_bits(padding(start + bricks_bits(start, bricks, layout).len())) + brick_bits(
            last,
            layout,
        ));
    }
}

/// Every brick starts at a byte: in the bits of bricks in a row that start
/// at a byte, the last brick lies behind a whole number of bytes.
pub proof fn lemma_brick_starts_at_byte(bricks: Seq<Brick>, last: Brick, layout: BrickLayout)
    ensures
        ({
            let before = bricks_bits(0, bricks, layout);
            let gap = zero_bits(padding(before.len()));
            &&& bricks_bits(0, bricks.push(last), layout) == before + gap + brick_bits(last, layout)
            &&& (before + gap).len() % 8 == 0
        }),
{
    lemma_bricks_bits_push(0, bricks, last, layout);
    crate::bits::lemma_padding_aligns(bricks_bits(0, bricks, layout).len());
}

/// Packs bricks into the data of their section, as a file of the newest
/// version holds them. Where the encoder does not take one of the bricks,
/// nothing is packed.
pub fn write_bricks(bricks: &Vec<Brick>, layout: BrickLayout) -> (result: Result<Vec<u8>, Error>)
    ensures
        bricks_ok(bricks@, layout) ==> (result matches Ok(data) && data@ == brick_stream(
            bricks@,
            layout,
        )),
        !bricks_ok(bricks@, layout) ==> result == Err::<Vec<u8>, Error>(Error::InvalidInput),
{
    let mut writer = BitWriter::new(Vec::new());
    let mut index: usize = 0;
    assert(bytes_bits(Seq::<u8>::empty()) =~= Seq::<bool>::empty());
    assert(bricks@.subrange(0, 0) =~= Seq::<Brick>::empty());
    while index < bricks.len()
        invariant
            index <= bricks@.len(),
            writer@ == bricks_bits(0, bricks@.subrange(0, index as int), layout),
            bricks_ok(bricks@.subrange(0, index as int), layout),
        decreases bricks@.len() - index,
    {
        let ghost done = bricks@.subrange(0, index as int);
        proof {
            lemma_bricks_bits_push(0, done, bricks@[index as int], layout);
            assert(done.push(bricks@[index as int]) =~= bricks@.subrange(0, index + 1));
        }
        if !check_brick(&bricks[index], layout) {
            return Err(Error::InvalidInput);
        }
        writer.byte_align();
        let _ = write_brick(&mut writer, &bricks[index], layout);
        index = index + 1;
        assert(bricks_ok(bricks@.subrange(0, index as int), layout)) by {
            assert forall|i: int| 0 <= i < index implies brick_ok(
                #[trigger] bricks@.subrange(0, index as int)[i],
                layout,
            ) by {
                if i < index - 1 {
                    assert(done[i] == bricks@[i]);
                }
            }
        }
    }
    assert(bricks@.subrange(0, bricks@.len() as int) =~= bricks@);
    let ghost bits = writer@;
    let mut data = writer.finish();
    if data.len() == 0 {
        proof {
            lemma_bits_of_bytes(bits);
        }
        data.push(0);
        assert(data@ =~= seq![0u8]);
    } else {
        assert(bits.len() > 0);
    }
    Ok(data)
}

} // verus!
