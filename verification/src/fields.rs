//! The values that the headers of a save file are made of: identifiers,
//! times, users and tables.

use crate::error::Error;
use crate::save::{BrickOwner, BrickOwnerModel, Color, Timestamp, User, UserModel, Uuid};
use crate::text::{lemma_parse_string, parse_string, read_string, string_bytes, write_string};
use crate::wire::{
    append, le_bytes, lemma_le_bytes_len, lemma_lies_at_split, lemma_parse_int, lemma_parse_uint,
    lies_at, parse_int, parse_uint, read_i64, read_u32, then, twos, write_i64, write_u32,
};
use vstd::arithmetic::power2::{lemma2_to64, lemma2_to64_rest};
use vstd::prelude::*;

verus! {

/// The identifier made of four 32-bit words, the first one the most
/// significant.
pub open spec fn uuid_of_words(a: nat, b: nat, c: nat, d: nat) -> nat {
    a * 0x1_0000_0000_0000_0000_0000_0000 + b * 0x1_0000_0000_0000_0000 + c * 0x1_0000_0000 + d
}

/// The bytes of an identifier in a file: its four 32-bit words, the most
/// significant word first, each word least significant byte first.
pub open spec fn uuid_bytes(id: Uuid) -> Seq<u8> {
    le_bytes((id.0 / 0x1_0000_0000_0000_0000_0000_0000) as nat, 4) + le_bytes(
        ((id.0 / 0x1_0000_0000_0000_0000) % 0x1_0000_0000) as nat,
        4,
    ) + le_bytes(((id.0 / 0x1_0000_0000) % 0x1_0000_0000) as nat, 4) + le_bytes(
        (id.0 % 0x1_0000_0000) as nat,
        4,
    )
}

/// The identifier that the input holds at `pos`.
pub open spec fn parse_uuid(input: Seq<u8>, pos: int) -> Result<(Uuid, int), Error> {
    then(
        parse_uint(input, pos, 4),
        |a: nat, p1: int|
            then(
                parse_uint(input, p1, 4),
                |b: nat, p2: int|
                    then(
                        parse_uint(input, p2, 4),
                        |c: nat, p3: int|
                            then(
                                parse_uint(input, p3, 4),
                                |d: nat, p4: int| Ok((Uuid(uuid_of_words(a, b, c, d) as u128), p4)),
                            ),
                    ),
            ),
    )
}

/// Reads an identifier.
pub fn read_uuid(input: &[u8], pos: usize) -> (result: Result<(Uuid, usize), Error>)
    ensures
        match result {
            Ok((id, next)) => parse_uuid(input@, pos as int) == Ok::<(Uuid, int), Error>(
                (id, next as int),
            ),
            Err(e) => parse_uuid(input@, pos as int) == Err::<(Uuid, int), Error>(e),
        },
{
    let (a, p1) = read_u32(input, pos)?;
    let (b, p2) = read_u32(input, p1)?;
    let (c, p3) = read_u32(input, p2)?;
    let (d, p4) = read_u32(input, p3)?;
    let value: u128 = (a as u128) * 0x1_0000_0000_0000_0000_0000_0000 + (b as u128)
        * 0x1_0000_0000_0000_0000 + (c as u128) * 0x1_0000_0000 + d as u128;
    Ok((Uuid(value), p4))
}

/// An identifier is the one made of its four words.
proof fn lemma_uuid_words(id: Uuid)
    ensures
        uuid_of_words(
            (id.0 / 0x1_0000_0000_0000_0000_0000_0000) as nat,
            ((id.0 / 0x1_0000_0000_0000_0000) % 0x1_0000_0000) as nat,
            ((id.0 / 0x1_0000_0000) % 0x1_0000_0000) as nat,
            (id.0 % 0x1_0000_0000) as nat,
        ) == id.0,
        id.0 / 0x1_0000_0000_0000_0000_0000_0000 < 0x1_0000_0000,
{
    let v: u128 = id.0;
    assert((v / 0x1_0000_0000_0000_0000_0000_0000) * 0x1_0000_0000_0000_0000_0000_0000 + ((v
        / 0x1_0000_0000_0000_0000) % 0x1_0000_0000) * 0x1_0000_0000_0000_0000 + ((v
        / 0x1_0000_0000) % 0x1_0000_0000) * 0x1_0000_0000 + v % 0x1_0000_0000 == v && v
        / 0x1_0000_0000_0000_0000_0000_0000 < 0x1_0000_0000) by (bit_vector);
}

/// An identifier is read back from its bytes as it was.
pub proof fn lemma_parse_uuid(input: Seq<u8>, pos: int, id: Uuid)
    requires
        lies_at(input, pos, uuid_bytes(id)),
    ensures
        uuid_bytes(id).len() == 16,
        parse_uuid(input, pos) == Ok::<(Uuid, int), Error>((id, pos + 16)),
{
    lemma2_to64();
    lemma_uuid_words(id);
    let a = (id.0 / 0x1_0000_0000_0000_0000_0000_0000) as nat;
    let b = ((id.0 / 0x1_0000_0000_0000_0000) % 0x1_0000_0000) as nat;
    let c = ((id.0 / 0x1_0000_0000) % 0x1_0000_0000) as nat;
    let d = (id.0 % 0x1_0000_0000) as nat;
    lemma_le_bytes_len(a, 4);
    lemma_le_bytes_len(b, 4);
    lemma_le_bytes_len(c, 4);
    lemma_le_bytes_len(d, 4);
    lemma_lies_at_split(
        input,
        pos,
        le_bytes(a, 4) + le_bytes(b, 4) + le_bytes(c, 4),
        le_bytes(d, 4),
    );
    lemma_lies_at_split(input, pos, le_bytes(a, 4) + le_bytes(b, 4), le_bytes(c, 4));
    lemma_lies_at_split(input, pos, le_bytes(a, 4), le_bytes(b, 4));
    lemma_parse_uint(input, pos, a, 4);
    lemma_parse_uint(input, pos + 4, b, 4);
    lemma_parse_uint(input, pos + 8, c, 4);
    lemma_parse_uint(input, pos + 12, d, 4);
}

/// Appends an identifier.
pub fn write_uuid(out: &mut Vec<u8>, id: &Uuid)
    ensures
        final(out)@ == old(out)@ + uuid_bytes(*id),
{
    let ghost before = out@;
    let v: u128 = id.0;
    write_u32(out, (v / 0x1_0000_0000_0000_0000_0000_0000) as u32);
    write_u32(out, ((v / 0x1_0000_0000_0000_0000) % 0x1_0000_0000) as u32);
    write_u32(out, ((v / 0x1_0000_0000) % 0x1_0000_0000) as u32);
    write_u32(out, (v % 0x1_0000_0000) as u32);
    assert(out@ =~= before + uuid_bytes(*id));
}

/// The time that the input holds at `pos`: a signed 64-bit count of ticks
/// of 100 ns since the epoch.
pub open spec fn parse_datetime(input: Seq<u8>, pos: int) -> Result<(Timestamp, int), Error> {
    then(parse_int(input, pos, 8), |ticks: int, next: int| Ok((Timestamp::of_ticks(ticks), next)))
}

/// The bytes of a time in a file: its tick count in 64 bits.
pub open spec fn datetime_bytes(time: Timestamp) -> Seq<u8> {
    le_bytes(twos(time.ticks(), 64), 8)
}

/// Reads a time.
pub fn read_datetime(input: &[u8], pos: usize) -> (result: Result<(Timestamp, usize), Error>)
    ensures
        match result {
            Ok((time, next)) => parse_datetime(input@, pos as int) == Ok::<(Timestamp, int), Error>(
                (time, next as int),
            ) && time.wf(),
            Err(e) => parse_datetime(input@, pos as int) == Err::<(Timestamp, int), Error>(e),
        },
{
    let (ticks, next) = read_i64(input, pos)?;
    Ok((Timestamp::from_ticks(ticks), next))
}

/// Appends a time. A time before the epoch, or too late for its ticks to be
/// counted, is written as the epoch.
pub fn write_date_time(out: &mut Vec<u8>, time: Timestamp)
    ensures
        final(out)@ == old(out)@ + datetime_bytes(time),
{
    write_i64(out, time.to_ticks())
}

/// A time is read back from its bytes as the time of its tick count.
pub proof fn lemma_parse_datetime(input: Seq<u8>, pos: int, time: Timestamp)
    requires
        lies_at(input, pos, datetime_bytes(time)),
    ensures
        datetime_bytes(time).len() == 8,
        parse_datetime(input, pos) == Ok::<(Timestamp, int), Error>(
            (Timestamp::of_ticks(time.ticks()), pos + 8),
        ),
{
    lemma2_to64();
    lemma2_to64_rest();
    lemma_le_bytes_len(twos(time.ticks(), 64), 8);
    lemma_parse_int(input, pos, time.ticks(), 8);
}

/// The user that the input holds at `pos`: an identifier and then a name.
pub open spec fn parse_user(input: Seq<u8>, pos: int) -> Result<(UserModel, int), Error> {
    then(
        parse_uuid(input, pos),
        |id: Uuid, p: int|
            then(
                parse_string(input, p),
                |name: Seq<char>, next: int| Ok((UserModel { id, name }, next)),
            ),
    )
}

/// The owner that the input holds at `pos`: a user, and from the version
/// that counts them on, the number of their bricks.
pub open spec fn parse_owner(input: Seq<u8>, pos: int, counted: bool) -> Result<
    (BrickOwnerModel, int),
    Error,
> {
    then(
        parse_user(input, pos),
        |user: UserModel, p: int|
            if counted {
                then(
                    parse_uint(input, p, 4),
                    |count: nat, next: int|
                        Ok((BrickOwnerModel { user, brick_count: count as u32 }, next)),
                )
            } else {
                Ok((BrickOwnerModel { user, brick_count: 0 }, p))
            },
    )
}

/// The color that the input holds at `pos`.
pub open spec fn parse_color(input: Seq<u8>, pos: int) -> Result<(Color, int), Error> {
    then(parse_uint(input, pos, 4), |value: nat, next: int| Ok((Color(value as u32), next)))
}

/// The bytes of an owner in a file, where they can be written.
pub open spec fn owner_bytes(owner: BrickOwnerModel) -> Result<Seq<u8>, Error> {
    match string_bytes(owner.user.name) {
        Ok(name) => Ok(uuid_bytes(owner.user.id) + name + le_bytes(owner.brick_count as nat, 4)),
        Err(e) => Err(e),
    }
}

/// Reads a user.
pub fn read_user(input: &[u8], pos: usize) -> (result: Result<(User, usize), Error>)
    ensures
        match result {
            Ok((user, next)) => parse_user(input@, pos as int) == Ok::<(UserModel, int), Error>(
                (user@, next as int),
            ),
            Err(e) => parse_user(input@, pos as int) == Err::<(UserModel, int), Error>(e),
        },
{
    let (id, p) = read_uuid(input, pos)?;
    let (name, next) = read_string(input, p)?;
    Ok((User { id, name }, next))
}

/// Reads an owner.
pub fn read_owner(input: &[u8], pos: usize, counted: bool) -> (result: Result<
    (BrickOwner, usize),
    Error,
>)
    ensures
        match result {
            Ok((owner, next)) => parse_owner(input@, pos as int, counted) == Ok::<
                (BrickOwnerModel, int),
                Error,
            >((owner@, next as int)),
            Err(e) => parse_owner(input@, pos as int, counted) == Err::<
                (BrickOwnerModel, int),
                Error,
            >(e),
        },
{
    let (user, p) = read_user(input, pos)?;
    if counted {
        let (brick_count, next) = read_u32(input, p)?;
        Ok((BrickOwner { user, brick_count }, next))
    } else {
        Ok((BrickOwner { user, brick_count: 0 }, p))
    }
}

/// Appends an owner: their identifier, their name and the number of their
/// bricks. Nothing is appended where the name cannot be written.
pub fn write_owner(out: &mut Vec<u8>, owner: &BrickOwner) -> (result: Result<(), Error>)
    ensures
        match owner_bytes(owner@) {
            Ok(bytes) => result is Ok && final(out)@ == old(out)@ + bytes,
            Err(e) => result == Err::<(), Error>(e) && final(out)@ == old(out)@,
        },
{
    let ghost before = out@;
    let mut name: Vec<u8> = Vec::new();
    write_string(&mut name, owner.user.name.as_str())?;
    write_uuid(out, &owner.user.id);
    append(out, &name);
    write_u32(out, owner.brick_count);
    assert(name@ =~= string_bytes(owner@.user.name)->Ok_0);
    assert(out@ =~= before + owner_bytes(owner@)->Ok_0);
    Ok(())
}

/// An owner that can be written is read back from its bytes as it was.
pub proof fn lemma_parse_owner(input: Seq<u8>, pos: int, owner: BrickOwnerModel)
    requires
        owner_bytes(owner) is Ok,
        lies_at(input, pos, owner_bytes(owner)->Ok_0),
    ensures
        parse_owner(input, pos, true) == Ok::<(BrickOwnerModel, int), Error>(
            (owner, pos + owner_bytes(owner)->Ok_0.len()),
        ),
{
    lemma2_to64();
    let id = uuid_bytes(owner.user.id);
    let name = string_bytes(owner.user.name)->Ok_0;
    let count = le_bytes(owner.brick_count as nat, 4);
    lemma_le_bytes_len(owner.brick_count as nat, 4);
    lemma_lies_at_split(input, pos, id + name, count);
    lemma_lies_at_split(input, pos, id, name);
    lemma_parse_uuid(input, pos, owner.user.id);
    lemma_parse_string(input, pos + 16, owner.user.name);
    lemma_parse_uint(input, pos + 16 + name.len(), owner.brick_count as nat, 4);
}

/// `count` items in a row, each read by `item`.
pub open spec fn parse_items<T>(
    input: Seq<u8>,
    pos: int,
    count: nat,
    item: spec_fn(Seq<u8>, int) -> Result<(T, int), Error>,
) -> Result<(Seq<T>, int), Error>
    decreases count,
{
    if count == 0 {
        Ok((Seq::empty(), pos))
    } else {
        match item(input, pos) {
            Err(e) => Err(e),
            Ok((first, next)) => match parse_items(input, next, (count - 1) as nat, item) {
                Err(e) => Err(e),
                Ok((rest, end)) => Ok((seq![first] + rest, end)),
            },
        }
    }
}

/// The table that the input holds at `pos`: a signed 32-bit count, and then
/// that many items. A negative count announces no items.
pub open spec fn parse_table<T>(
    input: Seq<u8>,
    pos: int,
    item: spec_fn(Seq<u8>, int) -> Result<(T, int), Error>,
) -> Result<(Seq<T>, int), Error> {
    match parse_int(input, pos, 4) {
        Err(e) => Err(e),
        Ok((count, start)) => parse_items(
            input,
            start,
            if count < 0 {
                0
            } else {
                count as nat
            },
            item,
        ),
    }
}

/// What is read once `done` is read and `more` comes of the rest.
pub open spec fn after<T>(done: Seq<T>, more: Result<(Seq<T>, int), Error>) -> Result<
    (Seq<T>, int),
    Error,
> {
    match more {
        Ok((rest, end)) => Ok((done + rest, end)),
        Err(e) => Err(e),
    }
}

/// Reading items one after the other is reading the first ones and then the
/// rest.
pub proof fn lemma_parse_items_step<T>(
    input: Seq<u8>,
    pos: int,
    count: nat,
    item: spec_fn(Seq<u8>, int) -> Result<(T, int), Error>,
    done: Seq<T>,
)
    requires
        count > 0,
    ensures
        after(done, parse_items(input, pos, count, item)) == match item(input, pos) {
            Err(e) => Err(e),
            Ok((first, next)) => after(
                done.push(first),
                parse_items(input, next, (count - 1) as nat, item),
            ),
        },
{
    match item(input, pos) {
        Err(e) => {},
        Ok((first, next)) => {
            match parse_items(input, next, (count - 1) as nat, item) {
                Err(e) => {},
                Ok((rest, end)) => {
                    assert(done + (seq![first] + rest) =~= done.push(first) + rest);
                },
            }
        },
    }
}

/// The bytes of items in a row, each written by `bytes`.
pub open spec fn items_bytes<T>(items: Seq<T>, bytes: spec_fn(T) -> Seq<u8>) -> Seq<u8>
    decreases items.len(),
{
    if items.len() == 0 {
        Seq::empty()
    } else {
        bytes(items[0]) + items_bytes(items.skip(1), bytes)
    }
}

/// The bytes of a table: its count and its items.
pub open spec fn table_bytes<T>(items: Seq<T>, bytes: spec_fn(T) -> Seq<u8>) -> Seq<u8> {
    le_bytes(twos(items.len() as int, 32), 4) + items_bytes(items, bytes)
}

/// The bytes of items and one more are those of the items and then those of
/// that one.
pub proof fn lemma_items_bytes_push<T>(items: Seq<T>, last: T, bytes: spec_fn(T) -> Seq<u8>)
    ensures
        items_bytes(items.push(last), bytes) == items_bytes(items, bytes) + bytes(last),
    decreases items.len(),
{
    if items.len() == 0 {
        assert(items.push(last).skip(1) =~= Seq::<T>::empty());
        assert(items_bytes(items.push(last).skip(1), bytes) =~= Seq::<u8>::empty());
        assert(items_bytes(items.push(last), bytes) =~= bytes(last));
        assert(items_bytes(items, bytes) + bytes(last) =~= bytes(last));
    } else {
        lemma_items_bytes_push(items.skip(1), last, bytes);
        assert(items.push(last).skip(1) =~= items.skip(1).push(last));
        assert(items_bytes(items.push(last), bytes) =~= items_bytes(items, bytes) + bytes(last));
    }
}

/// Whether `item` reads each of `items` back from what `bytes` makes of it,
/// wherever that lies.
pub open spec fn reads_back<T>(
    items: Seq<T>,
    item: spec_fn(Seq<u8>, int) -> Result<(T, int), Error>,
    bytes: spec_fn(T) -> Seq<u8>,
) -> bool {
    forall|input: Seq<u8>, pos: int, k: int|
        0 <= k < items.len() && #[trigger] lies_at(input, pos, bytes(items[k])) ==> item(input, pos)
            == Ok::<(T, int), Error>((items[k], pos + bytes(items[k]).len()))
}

/// Items that are each read back from their bytes are read back from their
/// bytes in a row.
pub proof fn lemma_parse_items<T>(
    input: Seq<u8>,
    pos: int,
    items: Seq<T>,
    item: spec_fn(Seq<u8>, int) -> Result<(T, int), Error>,
    bytes: spec_fn(T) -> Seq<u8>,
)
    requires
        reads_back(items, item, bytes),
        lies_at(input, pos, items_bytes(items, bytes)),
    ensures
        parse_items(input, pos, items.len(), item) == Ok::<(Seq<T>, int), Error>(
            (items, pos + items_bytes(items, bytes).len()),
        ),
    decreases items.len(),
{
    if items.len() > 0 {
        let first = bytes(items[0]);
        let rest = items.skip(1);
        lemma_lies_at_split(input, pos, first, items_bytes(rest, bytes));
        assert(lies_at(input, pos, bytes(items[0])));
        assert(reads_back(rest, item, bytes)) by {
            assert forall|i: Seq<u8>, p: int, k: int|
                0 <= k < rest.len() && #[trigger] lies_at(i, p, bytes(rest[k])) implies item(i, p)
                    == Ok::<(T, int), Error>((rest[k], p + bytes(rest[k]).len())) by {
                assert(rest[k] == items[k + 1]);
                assert(lies_at(i, p, bytes(items[k + 1])));
            }
        }
        lemma_parse_items(input, pos + first.len(), rest, item, bytes);
        assert(seq![items[0]] + rest =~= items);
        assert(item(input, pos) == Ok::<(T, int), Error>((items[0], pos + first.len())));
        assert(rest.len() == items.len() - 1);
        assert(items_bytes(items, bytes).len() == first.len() + items_bytes(rest, bytes).len());
    } else {
        assert(items =~= Seq::<T>::empty());
    }
}

/// A table of items that are each read back from their bytes is read back
/// from its bytes as it was.
pub proof fn lemma_parse_table<T>(
    input: Seq<u8>,
    pos: int,
    items: Seq<T>,
    item: spec_fn(Seq<u8>, int) -> Result<(T, int), Error>,
    bytes: spec_fn(T) -> Seq<u8>,
)
    requires
        items.len() <= i32::MAX,
        reads_back(items, item, bytes),
        lies_at(input, pos, table_bytes(items, bytes)),
    ensures
        parse_table(input, pos, item) == Ok::<(Seq<T>, int), Error>(
            (items, pos + table_bytes(items, bytes).len()),
        ),
{
    lemma2_to64();
    let count = le_bytes(twos(items.len() as int, 32), 4);
    lemma_le_bytes_len(twos(items.len() as int, 32), 4);
    lemma_lies_at_split(input, pos, count, items_bytes(items, bytes));
    lemma_parse_int(input, pos, items.len() as int, 4);
    lemma_parse_items(input, pos + 4, items, item, bytes);
}

} // verus!
