//! The tables of a layer: where an entry lies, and which id it gets.
//!
//! A layer keeps two tables, one of files and one of attributes. Each begins
//! with a header, after which the entries follow one another. An entry is
//! named by its distance from the end of the header, plus one, so that no
//! entry has the id zero.

use vstd::prelude::*;

verus! {

/// The version of the layout of a layer.
#[derive(Clone, Copy, Debug, PartialEq, Eq, Structural)]
pub enum LayerFsVersion {
    V0,
}

/// The header of the table of files.
#[derive(Clone, Copy, Debug, PartialEq, Eq, Structural)]
pub struct FileTableHeader {
    pub version: LayerFsVersion,
}

/// The header of the table of attributes.
#[derive(Clone, Copy, Debug, PartialEq, Eq, Structural)]
pub struct AttributesTableHeader {
    pub version: LayerFsVersion,
}

impl FileTableHeader {
    /// The header that a new table gets.
    pub fn new() -> (h: Self)
        ensures
            h.version == LayerFsVersion::V0,
    {
        FileTableHeader { version: LayerFsVersion::V0 }
    }
}

impl AttributesTableHeader {
    /// The header that a new table gets.
    pub fn new() -> (h: Self)
        ensures
            h.version == LayerFsVersion::V0,
    {
        AttributesTableHeader { version: LayerFsVersion::V0 }
    }
}

/// The name of a file: the layer it belongs to, and where its entry lies in
/// the table of files of that layer.
#[derive(Clone, Copy, Debug, PartialEq, Eq, Structural, Hash)]
pub struct FileId {
    pub layer: u32,
    pub offset: u32,
}

/// The position in the table, counted from the start of the file that holds
/// it, of the entry with id `offset`.
pub open spec fn spec_entry_position(table_start: u64, offset: u64) -> int {
    table_start + offset - 1
}

/// The id of the entry at `position`.
pub open spec fn spec_entry_id(table_start: u64, position: u64) -> int {
    position - table_start + 1
}

/// The position of the entry with id `offset` in a table whose entries start
/// at `table_start`. There is none for the id zero, nor beyond what a position
/// can hold.
pub fn entry_position(table_start: u64, offset: u64) -> (p: Option<u64>)
    ensures
        p == if offset >= 1 && spec_entry_position(table_start, offset) <= u64::MAX {
            Some(spec_entry_position(table_start, offset) as u64)
        } else {
            None
        },
{
    if offset == 0 {
        None
    } else {
        table_start.checked_add(offset - 1)
    }
}

/// The id of the attributes that are written at `position` in a table whose
/// entries start at `table_start`. There is none for a position inside the
/// header, nor beyond what an id can hold.
pub fn next_attributes_id(table_start: u64, position: u64) -> (id: Option<u64>)
    ensures
        id == if position >= table_start && spec_entry_id(table_start, position) <= u64::MAX {
            Some(spec_entry_id(table_start, position) as u64)
        } else {
            None
        },
{
    if position < table_start {
        None
    } else {
        (position - table_start).checked_add(1)
    }
}

/// The id of the file whose entry is written at `position` in the table of
/// `layer`, whose entries start at `table_start`. There is none for a
/// position inside the header, nor beyond what the id of a file can hold.
pub fn next_file_id(layer: u32, table_start: u64, position: u64) -> (id: Option<FileId>)
    ensures
        id == if position >= table_start && spec_entry_id(table_start, position) <= u32::MAX {
            Some(FileId { layer, offset: spec_entry_id(table_start, position) as u32 })
        } else {
            None
        },
{
    if position < table_start {
        None
    } else {
        let distance = position - table_start;
        if distance >= 0xffff_ffff {
            None
        } else {
            Some(FileId { layer, offset: (distance + 1) as u32 })
        }
    }
}

/// The position of the entry of the file `id`, which must be a file of
/// `layer`.
pub fn file_position(layer: u32, table_start: u64, id: FileId) -> (p: Option<u64>)
    ensures
        p == if id.layer == layer && id.offset >= 1 && spec_entry_position(
            table_start,
            id.offset as u64,
        ) <= u64::MAX {
            Some(spec_entry_position(table_start, id.offset as u64) as u64)
        } else {
            None
        },
{
    if id.layer != layer {
        None
    } else {
        entry_position(table_start, id.offset as u64)
    }
}

/// An entry is found again under the id it was given: the id that is handed
/// out for a position leads back to that position, and is never zero.
pub proof fn law_id_leads_back(table_start: u64, position: u64)
    requires
        position >= table_start,
        spec_entry_id(table_start, position) <= u64::MAX,
    ensures
        spec_entry_id(table_start, position) >= 1,
        spec_entry_position(table_start, spec_entry_id(table_start, position) as u64) == position,
{
}

/// Two entries at different positions get different ids.
pub proof fn law_ids_differ(table_start: u64, a: u64, b: u64)
    requires
        a >= table_start,
        b >= table_start,
        a != b,
    ensures
        spec_entry_id(table_start, a) != spec_entry_id(table_start, b),
{
}

} // verus!
