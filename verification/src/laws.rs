//! The format's laws, proved once over the specification functions of
//! [`crate::layout`]: encoding a record and decoding it from any store that
//! holds its bytes reproduces the record's fields exactly; a cluster header
//! without the magic is rejected without interpreting the rest; a names
//! block truncated by even one byte fails with the I/O error.
//!
//! Because every decode operation of the reader is specified exactly
//! against the same functions, these laws carry over to the executable
//! decoders unchanged.

use vstd::bytes::*;
use vstd::prelude::*;
use vstd::utf8::*;

use crate::layout::spec_address_entry_bytes;
use crate::layout::spec_cluster_fields;
use crate::layout::spec_cluster_header_bytes;
use crate::layout::spec_entries_bytes;
use crate::layout::spec_index_table_bytes;
use crate::layout::spec_index_table_fields;
use crate::layout::spec_magic;
use crate::layout::spec_name_entry_bytes;
use crate::layout::spec_names_walk;
use crate::layout::spec_path_bytes;
use crate::layout::spec_path_seq;
use crate::layout::spec_payload;
use crate::layout::spec_payload_bytes;
use crate::layout::spec_payload_code;
use crate::layout::spec_read_cluster;
use crate::layout::spec_read_index_table;
use crate::layout::spec_read_parent_entries;
use crate::layout::spec_read_tag_data;
use crate::layout::spec_tag_data_bytes;
use crate::layout::spec_tag_index_bytes;
use crate::layout::spec_tags_walk;
use crate::records::AddressEntry;
use crate::records::AddressListView;
use crate::records::ClusterMetadata;
use crate::records::DatabaseReadErrorKind;
use crate::records::IndexTable;
use crate::records::NameIndexView;
use crate::records::TagDataView;
use crate::records::TagIndexView;
use crate::records::TagTypeView;

verus! {

/// The path encoding is eight bytes per value, and each value's bytes stand
/// at their position.
proof fn lemma_path_bytes_parts(path: Seq<u64>)
    ensures
        spec_path_bytes(path).len() == 8 * path.len(),
        forall|j: int|
            0 <= j < path.len() ==> #[trigger] spec_path_bytes(path).subrange(8 * j, 8 * j + 8)
                == spec_u64_to_le_bytes(path[j]),
    decreases path.len(),
{
    lemma_auto_spec_u64_to_from_le_bytes();
    if path.len() > 0 {
        let dl = path.drop_last();
        lemma_path_bytes_parts(dl);
        assert forall|j: int|
            0 <= j < path.len() implies #[trigger] spec_path_bytes(path).subrange(
            8 * j,
            8 * j + 8,
        ) == spec_u64_to_le_bytes(path[j]) by {
            if j < path.len() - 1 {
                assert(spec_path_bytes(path).subrange(8 * j, 8 * j + 8) =~= spec_path_bytes(
                    dl,
                ).subrange(8 * j, 8 * j + 8));
                assert(dl[j] == path[j]);
            } else {
                assert(spec_path_bytes(path).subrange(8 * j, 8 * j + 8)
                    =~= spec_u64_to_le_bytes(path.last()));
            }
        }
    }
}

/// The entries encoding is sixteen bytes per entry, and each entry's bytes
/// stand at their position.
proof fn lemma_entries_bytes_parts(entries: Seq<AddressEntry>)
    ensures
        spec_entries_bytes(entries).len() == 16 * entries.len(),
        forall|i: int|
            0 <= i < entries.len() ==> #[trigger] spec_entries_bytes(entries).subrange(
                16 * i,
                16 * i + 16,
            ) == spec_address_entry_bytes(entries[i]),
    decreases entries.len(),
{
    lemma_auto_spec_u64_to_from_le_bytes();
    if entries.len() > 0 {
        let dl = entries.drop_last();
        lemma_entries_bytes_parts(dl);
        assert forall|i: int|
            0 <= i < entries.len() implies #[trigger] spec_entries_bytes(entries).subrange(
            16 * i,
            16 * i + 16,
        ) == spec_address_entry_bytes(entries[i]) by {
            if i < entries.len() - 1 {
                assert(spec_entries_bytes(entries).subrange(16 * i, 16 * i + 16)
                    =~= spec_entries_bytes(dl).subrange(16 * i, 16 * i + 16));
                assert(dl[i] == entries[i]);
            } else {
                assert(spec_entries_bytes(entries).subrange(16 * i, 16 * i + 16)
                    =~= spec_address_entry_bytes(entries.last()));
            }
        }
    }
}

/// Round trip of a cluster header: a store that holds the encoding of `c`
/// at `offset` decodes to exactly `c`.
pub proof fn lemma_cluster_round_trip(s: Seq<u8>, offset: u64, c: ClusterMetadata)
    requires
        offset + 50 <= s.len(),
        s.subrange(offset as int, offset + 50) == spec_cluster_header_bytes(c),
    ensures
        spec_read_cluster(s, offset) == Ok::<ClusterMetadata, DatabaseReadErrorKind>(c),
{
    lemma_auto_spec_u64_to_from_le_bytes();
    lemma_auto_spec_u32_to_from_le_bytes();
    lemma_auto_spec_u16_to_from_le_bytes();
    let b = s.subrange(offset as int, offset + 50);
    assert(s.subrange(offset as int, offset + 4) =~= b.subrange(0, 4));
    assert(b.subrange(0, 4) =~= spec_magic());
    assert(b.subrange(4, 8) =~= spec_u32_to_le_bytes(c.version));
    assert(b.subrange(8, 16) =~= spec_u64_to_le_bytes(c.cluster_index));
    assert(b.subrange(16, 24) =~= spec_u64_to_le_bytes(c.index_table_offset));
    assert(b.subrange(24, 26) =~= spec_u16_to_le_bytes(c.text_encoding));
    assert(b.subrange(26, 34) =~= spec_u64_to_le_bytes(c.database_size));
    assert(b.subrange(34, 42) =~= spec_u64_to_le_bytes(c.last_name_index));
    assert(b.subrange(42, 50) =~= spec_u64_to_le_bytes(c.next_cluster));
    assert(spec_cluster_fields(b) == c);
}

/// The magic check: a 50-byte block whose first four bytes are not `"BTAG"`
/// fails with the cluster-validity error, whatever the other 46 bytes hold.
pub proof fn lemma_cluster_magic_check(s: Seq<u8>, offset: u64)
    requires
        offset + 50 <= s.len(),
        s.subrange(offset as int, offset + 4) != spec_magic(),
    ensures
        spec_read_cluster(s, offset) == Err::<ClusterMetadata, DatabaseReadErrorKind>(
            DatabaseReadErrorKind::ClusterValidity,
        ),
{
}

/// Round trip of an index-table header.
pub proof fn lemma_index_table_round_trip(s: Seq<u8>, offset: u64, t: IndexTable)
    requires
        offset + 40 <= s.len(),
        s.subrange(offset as int, offset + 40) == spec_index_table_bytes(t),
    ensures
        spec_read_index_table(s, offset) == Ok::<IndexTable, DatabaseReadErrorKind>(t),
{
    lemma_auto_spec_u64_to_from_le_bytes();
    lemma_auto_spec_u32_to_from_le_bytes();
    let b = s.subrange(offset as int, offset + 40);
    assert(b.subrange(0, 8) =~= spec_u64_to_le_bytes(t.index_table_size));
    assert(b.subrange(8, 12) =~= spec_u32_to_le_bytes(t.index_table_names_size));
    assert(b.subrange(12, 20) =~= spec_u64_to_le_bytes(t.index_table_names_offset));
    assert(b.subrange(20, 24) =~= spec_u32_to_le_bytes(t.index_table_tags_size));
    assert(b.subrange(24, 32) =~= spec_u64_to_le_bytes(t.index_table_tags_offset));
    assert(b.subrange(32, 40) =~= spec_u64_to_le_bytes(t.index_table_next_page_offset));
    assert(spec_index_table_fields(b) == t);
}

/// Round trip of one name entry: a names block of exactly this entry's size
/// decodes to exactly this entry.
pub proof fn lemma_name_entry_round_trip(s: Seq<u8>, pos: int, n: NameIndexView)
    requires
        pos >= 0,
        n.name_string_size == encode_utf8(n.name_string).len(),
        pos + 10 + n.name_string_size <= s.len(),
        s.subrange(pos, pos + 10 + n.name_string_size) == spec_name_entry_bytes(n),
    ensures
        spec_names_walk(s, pos, 10 + n.name_string_size) == Ok::<
            Seq<NameIndexView>,
            DatabaseReadErrorKind,
        >(seq![n]),
{
    lemma_auto_spec_u64_to_from_le_bytes();
    lemma_auto_spec_u16_to_from_le_bytes();
    broadcast use encode_utf8_valid_utf8, encode_utf8_decode_utf8;

    let sz = n.name_string_size as int;
    let b = s.subrange(pos, pos + 10 + sz);
    assert(s.subrange(pos, pos + 8) =~= b.subrange(0, 8));
    assert(b.subrange(0, 8) =~= spec_u64_to_le_bytes(n.name));
    assert(s.subrange(pos + 8, pos + 10) =~= b.subrange(8, 10));
    assert(b.subrange(8, 10) =~= spec_u16_to_le_bytes(n.name_string_size));
    assert(s.subrange(pos + 10, pos + 10 + sz) =~= b.subrange(10, 10 + sz));
    assert(b.subrange(10, 10 + sz) =~= encode_utf8(n.name_string));
    let rest = spec_names_walk(s, pos + 10 + sz, 0);
    assert(rest == Ok::<Seq<NameIndexView>, DatabaseReadErrorKind>(Seq::empty()));
    assert(seq![n] + Seq::<NameIndexView>::empty() =~= seq![n]);
}

/// Truncation of a names block: if a walk of the block succeeds on the full
/// store, then on any store cut off before the block's end the walk fails
/// with the I/O error, never with a partial result.
pub proof fn lemma_names_truncation(s: Seq<u8>, pos: int, remaining: int, cut: int)
    requires
        pos >= 0,
        remaining > 0,
        spec_names_walk(s, pos, remaining) is Ok,
        0 <= cut < pos + remaining,
        cut <= s.len(),
    ensures
        spec_names_walk(s.take(cut), pos, remaining) == Err::<
            Seq<NameIndexView>,
            DatabaseReadErrorKind,
        >(DatabaseReadErrorKind::IOError),
    decreases remaining,
{
    let st = s.take(cut);
    if pos + 10 > cut {
        assert(spec_names_walk(st, pos, remaining) == Err::<
            Seq<NameIndexView>,
            DatabaseReadErrorKind,
        >(DatabaseReadErrorKind::IOError));
    } else {
        assert(st.subrange(pos, pos + 8) =~= s.subrange(pos, pos + 8));
        assert(st.subrange(pos + 8, pos + 10) =~= s.subrange(pos + 8, pos + 10));
        let len = spec_u16_from_le_bytes(s.subrange(pos + 8, pos + 10)) as int;
        assert(pos + 10 + len <= s.len());
        if pos + 10 + len > cut {
            assert(spec_names_walk(st, pos, remaining) == Err::<
                Seq<NameIndexView>,
                DatabaseReadErrorKind,
            >(DatabaseReadErrorKind::IOError));
        } else {
            assert(st.subrange(pos + 10, pos + 10 + len) =~= s.subrange(pos + 10, pos + 10 + len));
            assert(valid_utf8(s.subrange(pos + 10, pos + 10 + len)));
            assert(remaining - 10 - len > 0) by {
                if remaining - 10 - len == 0 {
                    assert(pos + remaining == pos + 10 + len);
                    assert(cut < pos + 10 + len);
                }
            }
            lemma_names_truncation(s, pos + 10 + len, remaining - 10 - len, cut);
        }
    }
}

/// Round trip of one tag-index entry: a tags block of exactly this entry's
/// size decodes to exactly this entry.
pub proof fn lemma_tag_index_round_trip(s: Seq<u8>, pos: int, t: TagIndexView)
    requires
        pos >= 0,
        t.full_path.len() == t.depth,
        pos + 32 + 8 * t.depth <= s.len(),
        s.subrange(pos, pos + 32 + 8 * t.depth) == spec_tag_index_bytes(t),
    ensures
        spec_tags_walk(s, pos, 32 + 8 * t.depth) == Ok::<Seq<TagIndexView>, DatabaseReadErrorKind>(
            seq![t],
        ),
{
    lemma_auto_spec_u64_to_from_le_bytes();
    lemma_path_bytes_parts(t.full_path);
    let d = t.depth as int;
    let b = s.subrange(pos, pos + 32 + 8 * d);
    assert(s.subrange(pos, pos + 8) =~= b.subrange(0, 8));
    assert(b.subrange(0, 8) =~= spec_u64_to_le_bytes(t.tag_id));
    assert(s.subrange(pos + 8, pos + 16) =~= b.subrange(8, 16));
    assert(b.subrange(8, 16) =~= spec_u64_to_le_bytes(t.name));
    assert(s.subrange(pos + 16, pos + 24) =~= b.subrange(16, 24));
    assert(b.subrange(16, 24) =~= spec_u64_to_le_bytes(t.depth));
    assert(s.subrange(pos + 24 + 8 * d, pos + 32 + 8 * d) =~= b.subrange(24 + 8 * d, 32 + 8 * d));
    assert(b.subrange(24 + 8 * d, 32 + 8 * d) =~= spec_u64_to_le_bytes(t.offset));
    assert(b.subrange(24, 24 + 8 * d) =~= spec_path_bytes(t.full_path));
    assert forall|j: int| 0 <= j < d implies #[trigger] spec_path_seq(s, pos + 24, d)[j]
        == t.full_path[j] by {
        assert(s.subrange(pos + 24 + 8 * j, pos + 24 + 8 * j + 8) =~= b.subrange(
            24,
            24 + 8 * d,
        ).subrange(8 * j, 8 * j + 8));
        assert(b.subrange(24, 24 + 8 * d).subrange(8 * j, 8 * j + 8) == spec_path_bytes(
            t.full_path,
        ).subrange(8 * j, 8 * j + 8));
    }
    assert(spec_path_seq(s, pos + 24, d) =~= t.full_path);
    let rest = spec_tags_walk(s, pos + 32 + 8 * d, 0);
    assert(rest == Ok::<Seq<TagIndexView>, DatabaseReadErrorKind>(Seq::empty()));
    let decoded = TagIndexView {
        tag_id: t.tag_id,
        name: t.name,
        depth: t.depth,
        full_path: spec_path_seq(s, pos + 24, d),
        offset: t.offset,
    };
    assert(decoded == t);
    assert(seq![t] + Seq::<TagIndexView>::empty() =~= seq![t]);
}

/// Round trip of a parent block: a store holding the encodings of `entries`
/// right after the record header at `offset` reads back exactly `entries`.
pub proof fn lemma_parents_round_trip(s: Seq<u8>, anchor: int, offset: u64, entries: Seq<
    AddressEntry,
>)
    requires
        anchor >= 0,
        entries.len() <= u64::MAX,
        anchor + offset + 40 + 16 * entries.len() <= s.len(),
        s.subrange(anchor + offset + 40, anchor + offset + 40 + 16 * entries.len())
            == spec_entries_bytes(entries),
    ensures
        spec_read_parent_entries(s, anchor, offset, entries.len() as u64) == Ok::<
            Seq<AddressEntry>,
            DatabaseReadErrorKind,
        >(entries),
{
    lemma_auto_spec_u64_to_from_le_bytes();
    lemma_entries_bytes_parts(entries);
    let start = anchor + offset + 40;
    let n = entries.len() as int;
    assert forall|i: int| 0 <= i < n implies #[trigger] crate::layout::spec_address_entries(
        s,
        start,
        n,
    )[i] == entries[i] by {
        assert(s.subrange(start + 16 * i, start + 16 * i + 16) =~= spec_entries_bytes(
            entries,
        ).subrange(16 * i, 16 * i + 16));
        assert(s.subrange(start + 16 * i, start + 16 * i + 8) =~= s.subrange(
            start + 16 * i,
            start + 16 * i + 16,
        ).subrange(0, 8));
        assert(s.subrange(start + 16 * i + 8, start + 16 * i + 16) =~= s.subrange(
            start + 16 * i,
            start + 16 * i + 16,
        ).subrange(8, 16));
        assert(spec_address_entry_bytes(entries[i]).subrange(0, 8) =~= spec_u64_to_le_bytes(
            entries[i].name,
        ));
        assert(spec_address_entry_bytes(entries[i]).subrange(8, 16) =~= spec_u64_to_le_bytes(
            entries[i].address,
        ));
    }
    assert(crate::layout::spec_address_entries(s, start, n) =~= entries);
}

/// Round trip of a payload: decoding a payload variant's own bytes under its
/// own discriminant yields the variant back.
pub proof fn lemma_payload_round_trip(t: TagTypeView)
    requires
        spec_payload_code(t) is Some,
        t matches TagTypeView::AddressList(l) ==> l.address_count == l.array.len(),
    ensures
        spec_payload(spec_payload_code(t)->0, spec_payload_bytes(t)) == Ok::<
            TagTypeView,
            DatabaseReadErrorKind,
        >(t),
{
    lemma_auto_spec_u64_to_from_le_bytes();
    lemma_auto_spec_u32_to_from_le_bytes();
    broadcast use encode_utf8_valid_utf8, encode_utf8_decode_utf8;

    let b = spec_payload_bytes(t);
    match t {
        TagTypeView::Integer(v) => {
            assert(b.subrange(0, 8) =~= spec_u64_to_le_bytes(v));
        },
        TagTypeView::Float(v) => {
            assert(b.subrange(0, 4) =~= spec_u32_to_le_bytes(v));
        },
        TagTypeView::Double(v) => {
            assert(b.subrange(0, 8) =~= spec_u64_to_le_bytes(v));
        },
        TagTypeView::AddressEntry(e) => {
            assert(b.subrange(0, 8) =~= spec_u64_to_le_bytes(e.name));
            assert(b.subrange(8, 16) =~= spec_u64_to_le_bytes(e.address));
        },
        TagTypeView::AddressList(l) => {
            lemma_entries_bytes_parts(l.array);
            assert(b.subrange(0, 8) =~= spec_u64_to_le_bytes(l.address_count));
            let n = l.array.len() as int;
            assert forall|i: int| 0 <= i < n implies #[trigger] crate::layout::spec_address_entries(
                b,
                8,
                n,
            )[i] == l.array[i] by {
                assert(b.subrange(8 + 16 * i, 8 + 16 * i + 16) =~= spec_entries_bytes(
                    l.array,
                ).subrange(16 * i, 16 * i + 16));
                assert(b.subrange(8 + 16 * i, 8 + 16 * i + 8) =~= b.subrange(
                    8 + 16 * i,
                    8 + 16 * i + 16,
                ).subrange(0, 8));
                assert(b.subrange(8 + 16 * i + 8, 8 + 16 * i + 16) =~= b.subrange(
                    8 + 16 * i,
                    8 + 16 * i + 16,
                ).subrange(8, 16));
                assert(spec_address_entry_bytes(l.array[i]).subrange(0, 8)
                    =~= spec_u64_to_le_bytes(l.array[i].name));
                assert(spec_address_entry_bytes(l.array[i]).subrange(8, 16)
                    =~= spec_u64_to_le_bytes(l.array[i].address));
            }
            assert(crate::layout::spec_address_entries(b, 8, n) =~= l.array);
        },
        TagTypeView::Text(cs) => {
            assert(valid_utf8(b));
            assert(decode_utf8(b) == cs);
        },
        TagTypeView::ValueReference(_) => {
            assert(false);
        },
        TagTypeView::Char(_) => {
            assert(false);
        },
    }
}

/// Round trip of a tag-data record: a store holding the record's encoding at
/// address `offset` decodes to the record, with the parent placeholder (the
/// empty list counted at the record's depth) in place of the parent array,
/// which a parents pass reads back separately.
pub proof fn lemma_tag_data_round_trip(s: Seq<u8>, anchor: int, offset: u64, d: TagDataView<
    TagTypeView,
>)
    requires
        anchor >= 0,
        d.tag_parents_size == 16 * d.tag_parents.array.len(),
        spec_payload_code(d.tag_data) == Some(d.tag_data_type),
        d.tag_data_size == spec_payload_bytes(d.tag_data).len(),
        d.tag_data matches TagTypeView::AddressList(l) ==> l.address_count == l.array.len(),
        anchor + offset + spec_tag_data_bytes(d).len() <= s.len(),
        s.subrange(anchor + offset, anchor + offset + spec_tag_data_bytes(d).len())
            == spec_tag_data_bytes(d),
    ensures
        spec_read_tag_data(s, anchor, offset) == Ok::<
            TagDataView<TagTypeView>,
            DatabaseReadErrorKind,
        >(
            TagDataView {
                tag_id: d.tag_id,
                tag_total_size: d.tag_total_size,
                tag_name: d.tag_name,
                tag_depth: d.tag_depth,
                tag_parents_size: d.tag_parents_size,
                tag_parents: AddressListView {
                    address_count: d.tag_depth,
                    array: Seq::empty(),
                },
                tag_data_type: d.tag_data_type,
                tag_data_size: d.tag_data_size,
                tag_data: d.tag_data,
            },
        ),
{
    lemma_auto_spec_u64_to_from_le_bytes();
    lemma_entries_bytes_parts(d.tag_parents.array);
    let start = anchor + offset;
    let b = spec_tag_data_bytes(d);
    let psize = d.tag_parents_size as int;
    let dsize = d.tag_data_size as int;
    assert(b.len() == 49 + psize + dsize);
    assert(s.subrange(start, start + 8) =~= b.subrange(0, 8));
    assert(b.subrange(0, 8) =~= spec_u64_to_le_bytes(d.tag_id));
    assert(s.subrange(start + 8, start + 16) =~= b.subrange(8, 16));
    assert(b.subrange(8, 16) =~= spec_u64_to_le_bytes(d.tag_total_size));
    assert(s.subrange(start + 16, start + 24) =~= b.subrange(16, 24));
    assert(b.subrange(16, 24) =~= spec_u64_to_le_bytes(d.tag_name));
    assert(s.subrange(start + 24, start + 32) =~= b.subrange(24, 32));
    assert(b.subrange(24, 32) =~= spec_u64_to_le_bytes(d.tag_depth));
    assert(s.subrange(start + 32, start + 40) =~= b.subrange(32, 40));
    assert(b.subrange(32, 40) =~= spec_u64_to_le_bytes(d.tag_parents_size));
    let p1 = start + 40 + psize;
    assert(s[p1] == b[40 + psize]);
    assert(b[40 + psize] == d.tag_data_type);
    assert(s.subrange(p1 + 1, p1 + 9) =~= b.subrange(41 + psize, 49 + psize));
    assert(b.subrange(41 + psize, 49 + psize) =~= spec_u64_to_le_bytes(d.tag_data_size));
    assert(s.subrange(p1 + 9, p1 + 9 + dsize) =~= b.subrange(49 + psize, 49 + psize + dsize));
    assert(b.subrange(49 + psize, 49 + psize + dsize) =~= spec_payload_bytes(d.tag_data));
    lemma_payload_round_trip(d.tag_data);
}

} // verus!
