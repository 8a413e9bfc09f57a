//! The catalog of the components section.
//!
//! The section holds a count and then, for each kind of component, a name,
//! the length of its payload in bits, and the payload. The payloads are
//! passed over: the catalog says what is there and where.

use crate::bit_reader::eof;
use crate::bits::padding;
use crate::error::{Error, IoError};
use crate::save::Version;
use crate::text::{parse_string, read_string, string_push};
use crate::wire::{parse_int, parse_uint, read_i32, read_u32, then};
use vstd::prelude::*;

verus! {

/// One kind of component: its name, and where in the section its payload
/// lies, counted in bits.
#[derive(Debug, Clone, PartialEq, Eq)]
pub struct ComponentEntry {
    pub name: String,
    pub data_len: u32,
    pub data_pos: u64,
}

/// What a `ComponentEntry` holds.
pub struct ComponentEntryModel {
    pub name: Seq<char>,
    pub data_len: u32,
    pub data_pos: u64,
}

impl View for ComponentEntry {
    type V = ComponentEntryModel;

    open spec fn view(&self) -> ComponentEntryModel {
        ComponentEntryModel { name: self.name@, data_len: self.data_len, data_pos: self.data_pos }
    }
}

/// What a table of entries holds.
pub open spec fn entries(table: Seq<ComponentEntry>) -> Seq<ComponentEntryModel> {
    Seq::new(table.len(), |i: int| table[i]@)
}

/// The components that a file holds, without their payloads.
#[derive(Debug, Clone, PartialEq, Eq)]
pub struct ComponentCatalog {
    pub entries: Vec<ComponentEntry>,
}

impl View for ComponentCatalog {
    type V = Seq<ComponentEntryModel>;

    open spec fn view(&self) -> Seq<ComponentEntryModel> {
        entries(self.entries@)
    }
}

impl ComponentCatalog {
    /// A catalog of nothing.
    pub fn empty() -> (catalog: ComponentCatalog)
        ensures
            catalog@ == Seq::<ComponentEntryModel>::empty(),
    {
        let catalog = ComponentCatalog { entries: Vec::new() };
        assert(catalog@ =~= Seq::<ComponentEntryModel>::empty());
        catalog
    }

    /// The number of kinds of components.
    pub fn len(&self) -> (count: usize)
        ensures
            count == self@.len(),
    {
        self.entries.len()
    }

    /// The name of the kind numbered `index`.
    pub fn name(&self, index: usize) -> (name: &str)
        requires
            index < self@.len(),
        ensures
            name@ == self@[index as int].name,
    {
        self.entries[index].name.as_str()
    }

    /// The names of all kinds, in the order of the file.
    pub fn names(&self) -> (names: Vec<String>)
        ensures
            names@.len() == self@.len(),
            forall|i: int| 0 <= i < names@.len() ==> names@[i]@ == self@[i].name,
    {
        let mut names: Vec<String> = Vec::new();
        let mut index: usize = 0;
        while index < self.entries.len()
            invariant
                index <= self.entries@.len(),
                names@.len() == index,
                forall|i: int| 0 <= i < index ==> names@[i]@ == self@[i].name,
            decreases self.entries@.len() - index,
        {
            names.push(self.entries[index].name.clone());
            index = index + 1;
        }
        names
    }
}

/// A name in which every `BTD` has become `BCD`, going from the left.
pub open spec fn rename_descriptor(name: Seq<char>) -> Seq<char>
    decreases name.len(),
{
    if name.len() >= 3 && name[0] == 'B' && name[1] == 'T' && name[2] == 'D' {
        seq!['B', 'C', 'D'] + rename_descriptor(name.skip(3))
    } else if name.len() > 0 {
        seq![name[0]] + rename_descriptor(name.skip(1))
    } else {
        Seq::empty()
    }
}

/// Whether the names of components in a file of `version` still say `BTD`
/// where later versions say `BCD`.
pub open spec fn has_old_names(version: Version) -> bool {
    !version.at_least_spec(Version::RenamedComponentDescriptors)
}

/// The entry that the section holds at the bit `pos`: from the next byte
/// on, a name and the length of a payload in bits. The payload follows, and
/// has to lie within the section.
pub open spec fn parse_entry(data: Seq<u8>, pos: int, version: Version) -> Result<
    (ComponentEntryModel, int),
    Error,
> {
    then(
        parse_string(data, (pos + padding(pos as nat)) / 8),
        |name: Seq<char>, p1: int|
            then(
                parse_uint(data, p1, 4),
                |data_len: nat, p2: int|
                    if 8 * p2 + data_len <= 8 * data.len() {
                        Ok(
                            (
                                ComponentEntryModel {
                                    name: if has_old_names(version) {
                                        rename_descriptor(name)
                                    } else {
                                        name
                                    },
                                    data_len: data_len as u32,
                                    data_pos: (8 * p2) as u64,
                                },
                                8 * p2 + data_len,
                            ),
                        )
                    } else {
                        Err(eof())
                    },
            ),
    )
}

/// The next `count` entries of the section, from the bit `pos` on.
pub open spec fn parse_entries(data: Seq<u8>, pos: int, count: nat, version: Version) -> Result<
    Seq<ComponentEntryModel>,
    Error,
>
    decreases count,
{
    if count == 0 {
        Ok(Seq::empty())
    } else {
        match parse_entry(data, pos, version) {
            Err(e) => Err(e),
            Ok((first, next)) => match parse_entries(data, next, (count - 1) as nat, version) {
                Err(e) => Err(e),
                Ok(rest) => Ok(seq![first] + rest),
            },
        }
    }
}

/// The catalog that the data of the components section holds: a signed
/// 32-bit count, and that many entries. A negative count announces none.
/// Data that is longer than any section is refused.
pub open spec fn parse_components(data: Seq<u8>, version: Version) -> Result<
    Seq<ComponentEntryModel>,
    Error,
> {
    if data.len() > i32::MAX {
        Err(Error::InvalidInput)
    } else {
        match parse_int(data, 0, 4) {
            Err(e) => Err(e),
            Ok((count, start)) => parse_entries(
                data,
                8 * start,
                if count < 0 {
                    0
                } else {
                    count as nat
                },
                version,
            ),
        }
    }
}

/// What is read once `done` is read and `more` comes of the rest.
pub open spec fn entries_after(
    done: Seq<ComponentEntryModel>,
    more: Result<Seq<ComponentEntryModel>, Error>,
) -> Result<Seq<ComponentEntryModel>, Error> {
    match more {
        Ok(rest) => Ok(done + rest),
        Err(e) => Err(e),
    }
}

/// Copies a name, with every `BTD` in it become `BCD`.
pub fn renamed(name: &str) -> (out: String)
    ensures
        out@ == rename_descriptor(name@),
{
    broadcast use vstd::string::group_string_axioms;

    let mut chars: Vec<char> = Vec::new();
    for c in it: name.chars()
        invariant
            it.seq() == name@,
            chars@ == name@.subrange(0, it.index()),
    {
        chars.push(c);
        assert(chars@ =~= name@.subrange(0, it.index() + 1));
    }
    assert(chars@ =~= name@);
    let mut out = String::new();
    let mut index: usize = 0;
    assert(chars@.skip(0) =~= chars@);
    assert(out@ + rename_descriptor(chars@.skip(0)) =~= rename_descriptor(chars@));
    while index < chars.len()
        invariant
            index <= chars@.len(),
            out@ + rename_descriptor(chars@.skip(index as int)) == rename_descriptor(chars@),
        decreases chars@.len() - index,
    {
        let ghost before = out@;
        let ghost left = chars@.skip(index as int);
        if chars.len() - index >= 3 && chars[index] == 'B' && chars[index + 1] == 'T' && chars[index
            + 2] == 'D' {
            string_push(&mut out, 'B');
            string_push(&mut out, 'C');
            string_push(&mut out, 'D');
            assert(left.skip(3) =~= chars@.skip(index + 3));
            assert(out@ =~= before + seq!['B', 'C', 'D']);
            assert(before + (seq!['B', 'C', 'D'] + rename_descriptor(left.skip(3))) =~= out@
                + rename_descriptor(left.skip(3)));
            index = index + 3;
        } else {
            string_push(&mut out, chars[index]);
            assert(left.skip(1) =~= chars@.skip(index + 1));
            assert(out@ =~= before + seq![left[0]]);
            assert(before + (seq![left[0]] + rename_descriptor(left.skip(1))) =~= out@
                + rename_descriptor(left.skip(1)));
            index = index + 1;
        }
    }
    assert(out@ + Seq::<char>::empty() =~= out@);
    out
}

/// Reads the entry at the bit `pos`, and says at which bit its payload
/// ends.
fn read_entry(data: &[u8], pos: u64, version: Version) -> (result: Result<
    (ComponentEntry, u64),
    Error,
>)
    requires
        data@.len() <= i32::MAX,
        pos <= 8 * data@.len(),
    ensures
        match result {
            Ok((entry, next)) => parse_entry(data@, pos as int, version) == Ok::<
                (ComponentEntryModel, int),
                Error,
            >((entry@, next as int)) && next <= 8 * data@.len(),
            Err(e) => parse_entry(data@, pos as int, version) == Err::<
                (ComponentEntryModel, int),
                Error,
            >(e),
        },
{
    let byte: usize = ((pos + 7) / 8) as usize;
    assert(byte == (pos + padding(pos as nat)) / 8);
    let (name, p1) = read_string(data, byte)?;
    let (data_len, p2) = read_u32(data, p1)?;
    let data_pos: u64 = 8 * (p2 as u64);
    if data_len as u64 > 8 * (data.len() as u64) - data_pos {
        return Err(Error::Io(IoError::UnexpectedEof));
    }
    let name = if !version.at_least(Version::RenamedComponentDescriptors) {
        renamed(name.as_str())
    } else {
        name
    };
    Ok((ComponentEntry { name, data_len, data_pos }, data_pos + data_len as u64))
}

/// Reads the catalog out of the data of the components section.
pub fn read_components(data: &[u8], version: Version) -> (result: Result<ComponentCatalog, Error>)
    ensures
        match result {
            Ok(catalog) => parse_components(data@, version) == Ok::<
                Seq<ComponentEntryModel>,
                Error,
            >(catalog@),
            Err(e) => parse_components(data@, version) == Err::<Seq<ComponentEntryModel>, Error>(e),
        },
{
    if data.len() > 0x7fff_ffff {
        return Err(Error::InvalidInput);
    }
    let (count, start) = read_i32(data, 0)?;
    let total: usize = if count < 0 {
        0
    } else {
        count as usize
    };
    let ghost whole = parse_components(data@, version);
    let mut table: Vec<ComponentEntry> = Vec::new();
    let mut pos: u64 = 8 * (start as u64);
    let mut index: usize = 0;
    assert(entries(table@) =~= Seq::<ComponentEntryModel>::empty());
    assert(whole == entries_after(
        entries(table@),
        parse_entries(data@, pos as int, total as nat, version),
    )) by {
        match parse_entries(data@, pos as int, total as nat, version) {
            Ok(rest) => {
                assert(entries(table@) + rest =~= rest);
            },
            Err(e) => {},
        }
    }
    while index < total
        invariant
            index <= total,
            data@.len() <= i32::MAX,
            pos <= 8 * data@.len(),
            whole == parse_components(data@, version),
            whole == entries_after(
                entries(table@),
                parse_entries(data@, pos as int, (total - index) as nat, version),
            ),
        decreases total - index,
    {
        let ghost done = entries(table@);
        let (entry, next) = read_entry(data, pos, version)?;
        proof {
            match parse_entries(data@, next as int, (total - index - 1) as nat, version) {
                Err(e) => {},
                Ok(rest) => {
                    assert(done + (seq![entry@] + rest) =~= done.push(entry@) + rest);
                },
            }
        }
        table.push(entry);
        assert(entries(table@) =~= done.push(entry@));
        pos = next;
        index = index + 1;
    }
    assert(entries(table@) + Seq::<ComponentEntryModel>::empty() =~= entries(table@));
    Ok(ComponentCatalog { entries: table })
}

} // verus!
