//! Byte-level specification of the on-disk format.
//!
//! Every decode operation of [`crate::reader::DatabaseReader`] is specified
//! against the functions in this module: for each record shape there is a
//! spec-level decoder over the raw byte store, and an encoding function used
//! to state the round-trip laws.  All multi-byte integers are little-endian;
//! offsets stored inside an index table are relative to the table's own
//! start (the "anchor").
//!
//! Record shapes:
//! - cluster header, 50 bytes: `"BTAG"` magic, version, cluster index,
//!   index-table offset, text encoding, database size, last name index,
//!   next cluster;
//! - index-table header, 40 bytes: table size, names size and offset, tags
//!   size and offset, next page offset;
//! - name entry: name id (8), string length (2), UTF-8 bytes;
//! - tag-index entry: tag id (8), name id (8), depth (8), ancestor path
//!   (8 x depth), record offset (8);
//! - tag-data record: 40-byte header, parent block, payload discriminant
//!   (1), payload size (8), payload bytes;
//! - address entry, 16 bytes: name id (8), address (8).

use vstd::bytes::*;
use vstd::prelude::*;
use vstd::utf8::*;

use crate::records::AddressEntry;
use crate::records::AddressListView;
use crate::records::ClusterMetadata;
use crate::records::DatabaseReadErrorKind;
use crate::records::IndexTable;
use crate::records::NameIndexView;
use crate::records::TagDataView;
use crate::records::TagIndexView;
use crate::records::TagTypeView;

verus! {

/// The four magic bytes `"BTAG"` that open every cluster header.
pub open spec fn spec_magic() -> Seq<u8> {
    seq![66u8, 84u8, 65u8, 71u8]
}

/// The 50-byte encoding of a cluster header.
pub open spec fn spec_cluster_header_bytes(c: ClusterMetadata) -> Seq<u8> {
    spec_magic() + spec_u32_to_le_bytes(c.version) + spec_u64_to_le_bytes(c.cluster_index)
        + spec_u64_to_le_bytes(c.index_table_offset) + spec_u16_to_le_bytes(c.text_encoding)
        + spec_u64_to_le_bytes(c.database_size) + spec_u64_to_le_bytes(c.last_name_index)
        + spec_u64_to_le_bytes(c.next_cluster)
}

/// Field extraction from a 50-byte cluster-header block.
pub open spec fn spec_cluster_fields(b: Seq<u8>) -> ClusterMetadata
    recommends
        b.len() == 50,
{
    ClusterMetadata {
        version: spec_u32_from_le_bytes(b.subrange(4, 8)),
        cluster_index: spec_u64_from_le_bytes(b.subrange(8, 16)),
        index_table_offset: spec_u64_from_le_bytes(b.subrange(16, 24)),
        text_encoding: spec_u16_from_le_bytes(b.subrange(24, 26)),
        database_size: spec_u64_from_le_bytes(b.subrange(26, 34)),
        last_name_index: spec_u64_from_le_bytes(b.subrange(34, 42)),
        next_cluster: spec_u64_from_le_bytes(b.subrange(42, 50)),
    }
}

/// Decoding a cluster header at an absolute offset of the store `s`.
/// A block that does not fit in the store, or whose first four bytes are not
/// the magic, fails with the cluster-validity error; the remaining 46 bytes
/// are interpreted only when the magic matches.
pub open spec fn spec_read_cluster(s: Seq<u8>, offset: u64) -> Result<
    ClusterMetadata,
    DatabaseReadErrorKind,
> {
    if offset + 50 > s.len() {
        Err(DatabaseReadErrorKind::ClusterValidity)
    } else if s.subrange(offset as int, offset + 4) != spec_magic() {
        Err(DatabaseReadErrorKind::ClusterValidity)
    } else {
        Ok(spec_cluster_fields(s.subrange(offset as int, offset + 50)))
    }
}

/// The 40-byte encoding of an index-table header.
pub open spec fn spec_index_table_bytes(t: IndexTable) -> Seq<u8> {
    spec_u64_to_le_bytes(t.index_table_size) + spec_u32_to_le_bytes(t.index_table_names_size)
        + spec_u64_to_le_bytes(t.index_table_names_offset) + spec_u32_to_le_bytes(
        t.index_table_tags_size,
    ) + spec_u64_to_le_bytes(t.index_table_tags_offset) + spec_u64_to_le_bytes(
        t.index_table_next_page_offset,
    )
}

/// Field extraction from a 40-byte index-table block.
pub open spec fn spec_index_table_fields(b: Seq<u8>) -> IndexTable
    recommends
        b.len() == 40,
{
    IndexTable {
        index_table_size: spec_u64_from_le_bytes(b.subrange(0, 8)),
        index_table_names_size: spec_u32_from_le_bytes(b.subrange(8, 12)),
        index_table_names_offset: spec_u64_from_le_bytes(b.subrange(12, 20)),
        index_table_tags_size: spec_u32_from_le_bytes(b.subrange(20, 24)),
        index_table_tags_offset: spec_u64_from_le_bytes(b.subrange(24, 32)),
        index_table_next_page_offset: spec_u64_from_le_bytes(b.subrange(32, 40)),
    }
}

/// Decoding an index-table header at an absolute offset of the store.
pub open spec fn spec_read_index_table(s: Seq<u8>, offset: u64) -> Result<
    IndexTable,
    DatabaseReadErrorKind,
> {
    if offset + 40 > s.len() {
        Err(DatabaseReadErrorKind::IndexTableValidity)
    } else {
        Ok(spec_index_table_fields(s.subrange(offset as int, offset + 40)))
    }
}

/// The encoding of one name entry: id, string length, UTF-8 bytes.
pub open spec fn spec_name_entry_bytes(n: NameIndexView) -> Seq<u8>
    recommends
        encode_utf8(n.name_string).len() == n.name_string_size,
{
    spec_u64_to_le_bytes(n.name) + spec_u16_to_le_bytes(n.name_string_size) + encode_utf8(
        n.name_string,
    )
}

/// Walk of a names block: starting at `pos`, decode self-describing entries
/// until exactly `remaining` bytes are consumed.  An entry that reads past
/// the end of the store is an I/O failure, a string that is not UTF-8 a
/// string-validity failure, and a final entry that overruns the declared
/// block size a structural validity failure.
pub open spec fn spec_names_walk(s: Seq<u8>, pos: int, remaining: int) -> Result<
    Seq<NameIndexView>,
    DatabaseReadErrorKind,
>
    decreases remaining,
{
    if remaining <= 0 {
        Ok(Seq::empty())
    } else if pos + 10 > s.len() {
        Err(DatabaseReadErrorKind::IOError)
    } else {
        let id = spec_u64_from_le_bytes(s.subrange(pos, pos + 8));
        let len = spec_u16_from_le_bytes(s.subrange(pos + 8, pos + 10));
        if pos + 10 + len > s.len() {
            Err(DatabaseReadErrorKind::IOError)
        } else {
            let sb = s.subrange(pos + 10, pos + 10 + len);
            if !valid_utf8(sb) {
                Err(DatabaseReadErrorKind::StringValidity)
            } else if remaining - 10 - len < 0 {
                Err(DatabaseReadErrorKind::IndexTableValidity)
            } else {
                match spec_names_walk(s, pos + 10 + len, remaining - 10 - len) {
                    Ok(rest) => Ok(
                        seq![
                            NameIndexView {
                                name: id,
                                name_string_size: len,
                                name_string: decode_utf8(sb),
                            },
                        ] + rest,
                    ),
                    Err(e) => Err(e),
                }
            }
        }
    }
}

/// The ancestor-name path of a tag-index entry: `depth` 8-byte values.
pub open spec fn spec_path_seq(s: Seq<u8>, pos: int, depth: int) -> Seq<u64> {
    Seq::new(depth as nat, |j: int| spec_u64_from_le_bytes(s.subrange(pos + 8 * j, pos + 8 * j + 8)))
}

/// The concatenated little-endian encoding of a sequence of 8-byte values.
pub open spec fn spec_path_bytes(path: Seq<u64>) -> Seq<u8>
    decreases path.len(),
{
    if path.len() == 0 {
        Seq::empty()
    } else {
        spec_path_bytes(path.drop_last()) + spec_u64_to_le_bytes(path.last())
    }
}

/// The concatenated 16-byte encoding of a sequence of address entries.
pub open spec fn spec_entries_bytes(entries: Seq<AddressEntry>) -> Seq<u8>
    decreases entries.len(),
{
    if entries.len() == 0 {
        Seq::empty()
    } else {
        spec_entries_bytes(entries.drop_last()) + spec_address_entry_bytes(entries.last())
    }
}

/// The encoding of one tag-index entry.
pub open spec fn spec_tag_index_bytes(t: TagIndexView) -> Seq<u8>
    recommends
        t.full_path.len() == t.depth,
{
    spec_u64_to_le_bytes(t.tag_id) + spec_u64_to_le_bytes(t.name) + spec_u64_to_le_bytes(t.depth)
        + spec_path_bytes(t.full_path) + spec_u64_to_le_bytes(t.offset)
}

/// Walk of a tag-index block: entries are variably sized (24 fixed bytes, the
/// ancestor path, 8 bytes of record offset), so the block is walked entry by
/// entry until exactly `remaining` bytes are consumed.  The entry count is
/// implied by the declared block size; an entry that overruns it is a
/// structural validity failure.
pub open spec fn spec_tags_walk(s: Seq<u8>, pos: int, remaining: int) -> Result<
    Seq<TagIndexView>,
    DatabaseReadErrorKind,
>
    decreases remaining,
{
    if remaining <= 0 {
        Ok(Seq::empty())
    } else if pos + 24 > s.len() {
        Err(DatabaseReadErrorKind::IOError)
    } else {
        let tag_id = spec_u64_from_le_bytes(s.subrange(pos, pos + 8));
        let name = spec_u64_from_le_bytes(s.subrange(pos + 8, pos + 16));
        let depth = spec_u64_from_le_bytes(s.subrange(pos + 16, pos + 24));
        if pos + 32 + 8 * depth > s.len() {
            Err(DatabaseReadErrorKind::IOError)
        } else {
            let entry = TagIndexView {
                tag_id,
                name,
                depth,
                full_path: spec_path_seq(s, pos + 24, depth as int),
                offset: spec_u64_from_le_bytes(
                    s.subrange(pos + 24 + 8 * depth, pos + 32 + 8 * depth),
                ),
            };
            if remaining - 32 - 8 * depth < 0 {
                Err(DatabaseReadErrorKind::IndexTableValidity)
            } else {
                match spec_tags_walk(s, pos + 32 + 8 * depth, remaining - 32 - 8 * depth) {
                    Ok(rest) => Ok(seq![entry] + rest),
                    Err(e) => Err(e),
                }
            }
        }
    }
}

/// One 16-byte address entry at `pos`: name id, then address.
pub open spec fn spec_address_entry_at(s: Seq<u8>, pos: int) -> AddressEntry {
    AddressEntry {
        name: spec_u64_from_le_bytes(s.subrange(pos, pos + 8)),
        address: spec_u64_from_le_bytes(s.subrange(pos + 8, pos + 16)),
    }
}

/// `count` consecutive address entries starting at `pos`.
pub open spec fn spec_address_entries(s: Seq<u8>, pos: int, count: int) -> Seq<AddressEntry> {
    Seq::new(count as nat, |i: int| spec_address_entry_at(s, pos + 16 * i))
}

/// The 16-byte encoding of one address entry.
pub open spec fn spec_address_entry_bytes(e: AddressEntry) -> Seq<u8> {
    spec_u64_to_le_bytes(e.name) + spec_u64_to_le_bytes(e.address)
}

/// Decoding a tag-data payload from its discriminant byte and payload bytes.
/// Numeric and address payloads decode from the leading bytes; an address
/// list is a leading 8-byte count followed by that many 16-byte entries;
/// text is the whole payload as UTF-8.  Payloads too short for their shape
/// are an I/O failure, text that is not UTF-8 a string-validity failure, and
/// an unknown discriminant a structural validity failure.
pub open spec fn spec_payload(ty: u8, b: Seq<u8>) -> Result<TagTypeView, DatabaseReadErrorKind> {
    if ty == 0 {
        if b.len() < 8 {
            Err(DatabaseReadErrorKind::IOError)
        } else {
            Ok(TagTypeView::Integer(spec_u64_from_le_bytes(b.subrange(0, 8))))
        }
    } else if ty == 1 {
        if b.len() < 4 {
            Err(DatabaseReadErrorKind::IOError)
        } else {
            Ok(TagTypeView::Float(spec_u32_from_le_bytes(b.subrange(0, 4))))
        }
    } else if ty == 2 {
        if b.len() < 8 {
            Err(DatabaseReadErrorKind::IOError)
        } else {
            Ok(TagTypeView::Double(spec_u64_from_le_bytes(b.subrange(0, 8))))
        }
    } else if ty == 3 {
        if b.len() < 16 {
            Err(DatabaseReadErrorKind::IOError)
        } else {
            Ok(TagTypeView::AddressEntry(spec_address_entry_at(b, 0)))
        }
    } else if ty == 4 {
        if b.len() < 8 {
            Err(DatabaseReadErrorKind::IOError)
        } else {
            let count = spec_u64_from_le_bytes(b.subrange(0, 8));
            if 8 + 16 * count > b.len() {
                Err(DatabaseReadErrorKind::IOError)
            } else {
                Ok(
                    TagTypeView::AddressList(
                        AddressListView {
                            address_count: count,
                            array: spec_address_entries(b, 8, count as int),
                        },
                    ),
                )
            }
        }
    } else if ty == 5 {
        if valid_utf8(b) {
            Ok(TagTypeView::Text(decode_utf8(b)))
        } else {
            Err(DatabaseReadErrorKind::StringValidity)
        }
    } else {
        Err(DatabaseReadErrorKind::IndexTableValidity)
    }
}

/// Decoding a tag-data record at address `offset`, interpreted through the
/// anchor: the record starts at `anchor + offset`.  The 40-byte header is
/// read, the parent block of `tag_parents_size` bytes is skipped (parents
/// are populated by a separate pass), then the discriminant byte, the
/// payload size, and the payload follow.  The returned record carries an
/// empty parent placeholder whose count equals the depth.
pub open spec fn spec_read_tag_data(s: Seq<u8>, anchor: int, offset: u64) -> Result<
    TagDataView<TagTypeView>,
    DatabaseReadErrorKind,
> {
    let start = anchor + offset;
    if start + 40 > s.len() {
        Err(DatabaseReadErrorKind::IOError)
    } else {
        let tag_id = spec_u64_from_le_bytes(s.subrange(start, start + 8));
        let tag_total_size = spec_u64_from_le_bytes(s.subrange(start + 8, start + 16));
        let tag_name = spec_u64_from_le_bytes(s.subrange(start + 16, start + 24));
        let tag_depth = spec_u64_from_le_bytes(s.subrange(start + 24, start + 32));
        let tag_parents_size = spec_u64_from_le_bytes(s.subrange(start + 32, start + 40));
        let p1 = start + 40 + tag_parents_size;
        if p1 + 9 > s.len() {
            Err(DatabaseReadErrorKind::IOError)
        } else {
            let ty = s[p1];
            let size = spec_u64_from_le_bytes(s.subrange(p1 + 1, p1 + 9));
            if p1 + 9 + size > s.len() {
                Err(DatabaseReadErrorKind::IOError)
            } else {
                match spec_payload(ty, s.subrange(p1 + 9, p1 + 9 + size)) {
                    Ok(payload) => Ok(
                        TagDataView {
                            tag_id,
                            tag_total_size,
                            tag_name,
                            tag_depth,
                            tag_parents_size,
                            tag_parents: AddressListView {
                                address_count: tag_depth,
                                array: Seq::empty(),
                            },
                            tag_data_type: ty,
                            tag_data_size: size,
                            tag_data: payload,
                        },
                    ),
                    Err(e) => Err(e),
                }
            }
        }
    }
}

/// The discriminant byte under which a payload variant is stored, if it has
/// one: `ValueReference` and `Char` payloads have no on-disk discriminant.
pub open spec fn spec_payload_code(t: TagTypeView) -> Option<u8> {
    match t {
        TagTypeView::Integer(_) => Some(0u8),
        TagTypeView::Float(_) => Some(1u8),
        TagTypeView::Double(_) => Some(2u8),
        TagTypeView::AddressEntry(_) => Some(3u8),
        TagTypeView::AddressList(_) => Some(4u8),
        TagTypeView::Text(_) => Some(5u8),
        TagTypeView::ValueReference(_) => None,
        TagTypeView::Char(_) => None,
    }
}

/// The payload bytes of each payload variant.
pub open spec fn spec_payload_bytes(t: TagTypeView) -> Seq<u8> {
    match t {
        TagTypeView::Integer(v) => spec_u64_to_le_bytes(v),
        TagTypeView::Float(v) => spec_u32_to_le_bytes(v),
        TagTypeView::Double(v) => spec_u64_to_le_bytes(v),
        TagTypeView::AddressEntry(e) => spec_address_entry_bytes(e),
        TagTypeView::AddressList(l) => spec_u64_to_le_bytes(l.address_count) + spec_entries_bytes(
            l.array,
        ),
        TagTypeView::Text(cs) => encode_utf8(cs),
        TagTypeView::ValueReference(v) => spec_u64_to_le_bytes(v.address),
        TagTypeView::Char(cs) => encode_utf8(cs),
    }
}

/// The full encoding of a tag-data record: the 40-byte header, the parent
/// block, the payload discriminant and size, and the payload bytes.
pub open spec fn spec_tag_data_bytes(d: TagDataView<TagTypeView>) -> Seq<u8> {
    spec_u64_to_le_bytes(d.tag_id) + spec_u64_to_le_bytes(d.tag_total_size) + spec_u64_to_le_bytes(
        d.tag_name,
    ) + spec_u64_to_le_bytes(d.tag_depth) + spec_u64_to_le_bytes(d.tag_parents_size)
        + spec_entries_bytes(d.tag_parents.array) + seq![d.tag_data_type] + spec_u64_to_le_bytes(
        d.tag_data_size,
    ) + spec_payload_bytes(d.tag_data)
}

/// Reading the parent block of the record at `offset`: `count` 16-byte
/// address entries that immediately follow the record's 40-byte header.
pub open spec fn spec_read_parent_entries(s: Seq<u8>, anchor: int, offset: u64, count: u64) -> Result<
    Seq<AddressEntry>,
    DatabaseReadErrorKind,
> {
    let start = anchor + offset + 40;
    if start + 16 * count > s.len() {
        Err(DatabaseReadErrorKind::IOError)
    } else {
        Ok(spec_address_entries(s, start, count as int))
    }
}

} // verus!
