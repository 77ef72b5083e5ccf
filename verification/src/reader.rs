//! The database reader: a cursor over one in-memory byte store together with
//! the coordinate anchor of the most recently read index table, and the
//! decode operations for every record shape of the format.
//!
//! All offsets stored inside an index table (names offset, tags offset,
//! per-record addresses) are relative to the start of the index table that
//! was read last; the reader keeps that start as an explicit anchor and
//! computes every absolute position as `anchor + relative offset`.  The
//! anchor is re-set exactly once per index-table read, and stored relative
//! offsets must not be carried across an index-table reload.
//!
//! Every decode operation is specified exactly against the corresponding
//! specification function of [`crate::layout`].

use vstd::bytes::u16_from_le_bytes;
use vstd::bytes::u32_from_le_bytes;
use vstd::bytes::u64_from_le_bytes;
use vstd::bytes::spec_u16_from_le_bytes;
use vstd::bytes::spec_u32_from_le_bytes;
use vstd::bytes::spec_u64_from_le_bytes;
use vstd::prelude::*;
use vstd::slice::slice_subrange;
use vstd::utf8::decode_utf8;
use vstd::utf8::valid_utf8;

use crate::layout::spec_address_entries;
use crate::layout::spec_magic;
use crate::layout::spec_names_walk;
use crate::layout::spec_path_seq;
use crate::layout::spec_payload;
use crate::layout::spec_read_cluster;
use crate::layout::spec_read_index_table;
use crate::layout::spec_read_parent_entries;
use crate::layout::spec_read_tag_data;
use crate::layout::spec_tags_walk;
use crate::records::AddressEntry;
use crate::records::AddressList;
use crate::records::ClusterMetadata;
use crate::records::DataIndexTable;
use crate::records::DatabaseReadErrorKind;
use crate::records::IndexTable;
use crate::records::NameIndex;
use crate::records::NameIndexView;
use crate::records::NamesIndexTable;
use crate::records::TagData;
use crate::records::TagIndex;
use crate::records::TagIndexView;
use crate::records::TagType;

verus! {

/// Relies on `String::from_utf8`: it succeeds exactly when the bytes are
/// valid UTF-8, and then returns the string whose characters are their
/// decoding (`vstd::utf8` gives UTF-8 validity and decoding their
/// mathematical definitions).
#[verifier::external_body]
fn string_from_utf8(bytes: Vec<u8>) -> (r: Option<String>)
    ensures
        (r is Some) <==> valid_utf8(bytes@),
        r is Some ==> r->0@ == decode_utf8(bytes@),
{
    match String::from_utf8(bytes) {
        Ok(s) => Some(s),
        Err(_) => None,
    }
}

/// The names-table walk an index table asks for: its names block starts at
/// `anchor + names offset` and spans `names size` bytes.
pub open spec fn spec_names_result(s: Seq<u8>, anchor: int, t: IndexTable) -> Result<
    Seq<NameIndexView>,
    DatabaseReadErrorKind,
> {
    spec_names_walk(
        s,
        anchor + t.index_table_names_offset,
        t.index_table_names_size as int,
    )
}

/// The tag-table walk an index table asks for: its tags block starts at
/// `anchor + tags offset` and spans `tags size` bytes.
pub open spec fn spec_tags_result(s: Seq<u8>, anchor: int, t: IndexTable) -> Result<
    Seq<TagIndexView>,
    DatabaseReadErrorKind,
> {
    spec_tags_walk(
        s,
        anchor + t.index_table_tags_offset,
        t.index_table_tags_size as int,
    )
}

/// A sequential reader over one byte store.  `data` is the complete cluster
/// file; `current_index_table_offset` is the coordinate anchor: the absolute
/// start of the index table read last, to which all stored relative offsets
/// refer.
pub struct DatabaseReader {
    pub data: Vec<u8>,
    pub current_index_table_offset: u64,
}

impl DatabaseReader {
    /// A reader over `data`, anchored at the start of the store until an
    /// index table is read.
    pub fn new(data: Vec<u8>) -> (r: Self)
        ensures
            r.data == data,
            r.current_index_table_offset == 0u64,
    {
        DatabaseReader { data, current_index_table_offset: 0 }
    }

    /// Little-endian decoding of an 8-byte slice.  The slice must be exactly
    /// the field's width; the values always come from fixed offsets of an
    /// already length-checked block.
    pub fn read_u64_from_slice(slice: &[u8]) -> (r: u64)
        requires
            slice@.len() == 8,
        ensures
            r == spec_u64_from_le_bytes(slice@),
    {
        u64_from_le_bytes(slice)
    }

    /// Little-endian decoding of a 4-byte slice.
    pub fn read_u32_from_slice(slice: &[u8]) -> (r: u32)
        requires
            slice@.len() == 4,
        ensures
            r == spec_u32_from_le_bytes(slice@),
    {
        u32_from_le_bytes(slice)
    }

    /// Little-endian decoding of a 2-byte slice.
    pub fn read_u16_from_slice(slice: &[u8]) -> (r: u16)
        requires
            slice@.len() == 2,
        ensures
            r == spec_u16_from_le_bytes(slice@),
    {
        u16_from_le_bytes(slice)
    }

    /// Read exactly `n` bytes starting at absolute position `pos`; a read
    /// past the end of the store is an I/O failure.
    fn read_at(&self, pos: u128, n: usize) -> (r: Result<Vec<u8>, DatabaseReadErrorKind>)
        ensures
            (r is Ok) <==> pos + n <= self.data@.len(),
            r is Ok ==> r->Ok_0@ == self.data@.subrange(pos as int, pos as int + n),
            r is Err ==> r == Err::<Vec<u8>, DatabaseReadErrorKind>(DatabaseReadErrorKind::IOError),
    {
        let len: usize = self.data.len();
        if pos > len as u128 || n as u128 > len as u128 - pos {
            return Err(DatabaseReadErrorKind::IOError);
        }
        let start: usize = pos as usize;
        let mut out: Vec<u8> = Vec::new();
        let mut i: usize = 0;
        while i < n
            invariant
                i <= n,
                start == pos,
                start + n <= self.data@.len(),
                self.data@.len() <= usize::MAX,
                out@ == self.data@.subrange(start as int, start as int + i),
            decreases n - i,
        {
            proof {
                assert(self.data@.subrange(start as int, start as int + i + 1) =~= self.data@
                    .subrange(start as int, start as int + i).push(
                    self.data@[start as int + i],
                ));
            }
            let b: u8 = self.data[start + i];
            out.push(b);
            i = i + 1;
        }
        Ok(out)
    }

    /// Little-endian u64 at offset `i` of a block.
    fn read_u64_at(buf: &Vec<u8>, i: usize) -> (r: u64)
        requires
            i + 8 <= buf@.len(),
        ensures
            r == spec_u64_from_le_bytes(buf@.subrange(i as int, i as int + 8)),
    {
        let _block_len: usize = buf.len();
        Self::read_u64_from_slice(slice_subrange(buf.as_slice(), i, i + 8))
    }

    /// Little-endian u32 at offset `i` of a block.
    fn read_u32_at(buf: &Vec<u8>, i: usize) -> (r: u32)
        requires
            i + 4 <= buf@.len(),
        ensures
            r == spec_u32_from_le_bytes(buf@.subrange(i as int, i as int + 4)),
    {
        let _block_len: usize = buf.len();
        Self::read_u32_from_slice(slice_subrange(buf.as_slice(), i, i + 4))
    }

    /// Little-endian u16 at offset `i` of a block.
    fn read_u16_at(buf: &Vec<u8>, i: usize) -> (r: u16)
        requires
            i + 2 <= buf@.len(),
        ensures
            r == spec_u16_from_le_bytes(buf@.subrange(i as int, i as int + 2)),
    {
        let _block_len: usize = buf.len();
        Self::read_u16_from_slice(slice_subrange(buf.as_slice(), i, i + 2))
    }

    /// Decode the cluster header at the absolute offset `cluster_offset`.
    /// The 50-byte block must lie inside the store and open with the magic
    /// `"BTAG"`; otherwise the cluster-validity error is returned and the
    /// remaining bytes are not interpreted.
    pub fn read_cluster(&self, cluster_offset: u64) -> (r: Result<
        ClusterMetadata,
        DatabaseReadErrorKind,
    >)
        ensures
            r == spec_read_cluster(self.data@, cluster_offset),
    {
        let block = match self.read_at(cluster_offset as u128, 50) {
            Ok(b) => b,
            Err(_) => {
                return Err(DatabaseReadErrorKind::ClusterValidity);
            },
        };
        let ghost whole = self.data@.subrange(cluster_offset as int, cluster_offset + 50);
        proof {
            assert(block@ == whole);
            assert(self.data@.subrange(cluster_offset as int, cluster_offset + 4) =~= whole
                .subrange(0, 4));
        }
        if !(block[0] == 66 && block[1] == 84 && block[2] == 65 && block[3] == 71) {
            proof {
                let sub = self.data@.subrange(cluster_offset as int, cluster_offset + 4);
                if sub == spec_magic() {
                    assert(sub[0] == 66 && sub[1] == 84 && sub[2] == 65 && sub[3] == 71);
                }
            }
            return Err(DatabaseReadErrorKind::ClusterValidity);
        }
        proof {
            assert(self.data@.subrange(cluster_offset as int, cluster_offset + 4)
                =~= spec_magic());
        }
        let version: u32 = Self::read_u32_at(&block, 4);
        let cluster_index: u64 = Self::read_u64_at(&block, 8);
        let index_table_offset: u64 = Self::read_u64_at(&block, 16);
        let text_encoding: u16 = Self::read_u16_at(&block, 24);
        let database_size: u64 = Self::read_u64_at(&block, 26);
        let last_name_index: u64 = Self::read_u64_at(&block, 34);
        let next_cluster: u64 = Self::read_u64_at(&block, 42);
        Ok(
            ClusterMetadata {
                version,
                cluster_index,
                index_table_offset,
                text_encoding,
                database_size,
                last_name_index,
                next_cluster,
            },
        )
    }

    /// Decode the index-table header at the absolute offset
    /// `index_table_offset`.  On success the reader is re-anchored: the
    /// table's start becomes the base of all stored relative offsets, until
    /// the next index-table read.
    pub fn read_index_table(&mut self, index_table_offset: u64) -> (r: Result<
        IndexTable,
        DatabaseReadErrorKind,
    >)
        ensures
            r == spec_read_index_table(old(self).data@, index_table_offset),
            final(self).data == old(self).data,
            r is Ok ==> final(self).current_index_table_offset == index_table_offset,
            r is Err ==> final(self).current_index_table_offset == old(
                self,
            ).current_index_table_offset,
    {
        let block = match self.read_at(index_table_offset as u128, 40) {
            Ok(b) => b,
            Err(_) => {
                return Err(DatabaseReadErrorKind::IndexTableValidity);
            },
        };
        let index_table_size: u64 = Self::read_u64_at(&block, 0);
        let index_table_names_size: u32 = Self::read_u32_at(&block, 8);
        let index_table_names_offset: u64 = Self::read_u64_at(&block, 12);
        let index_table_tags_size: u32 = Self::read_u32_at(&block, 20);
        let index_table_tags_offset: u64 = Self::read_u64_at(&block, 24);
        let index_table_next_page_offset: u64 = Self::read_u64_at(&block, 32);
        self.current_index_table_offset = index_table_offset;
        Ok(
            IndexTable {
                index_table_size,
                index_table_names_size,
                index_table_names_offset,
                index_table_tags_size,
                index_table_tags_offset,
                index_table_next_page_offset,
            },
        )
    }

    /// Decode the names table that `index_table` describes: self-describing
    /// entries starting at the table's relative names offset, walked until
    /// exactly the declared names size is consumed.
    pub fn read_names_index(&self, index_table: IndexTable) -> (r: Result<
        NamesIndexTable,
        DatabaseReadErrorKind,
    >)
        ensures
            (r is Ok) == (spec_names_result(
                self.data@,
                self.current_index_table_offset as int,
                index_table,
            ) is Ok),
            r is Ok ==> r->Ok_0@ == spec_names_result(
                self.data@,
                self.current_index_table_offset as int,
                index_table,
            )->Ok_0,
            r is Err ==> r->Err_0 == spec_names_result(
                self.data@,
                self.current_index_table_offset as int,
                index_table,
            )->Err_0,
    {
        let ghost s = self.data@;
        let ghost start0 = self.current_index_table_offset + index_table.index_table_names_offset;
        let size: u32 = index_table.index_table_names_size;
        let base: u128 = self.current_index_table_offset as u128
            + index_table.index_table_names_offset as u128;
        let mut names: Vec<NameIndex> = Vec::new();
        let mut consumed: u64 = 0;
        while consumed < size as u64
            invariant
                consumed <= size,
                base == start0,
                s == self.data@,
                size == index_table.index_table_names_size,
                start0 == self.current_index_table_offset
                    + index_table.index_table_names_offset,
                spec_names_walk(s, start0 as int, size as int) == (match spec_names_walk(
                    s,
                    start0 + consumed,
                    size - consumed,
                ) {
                    Ok(rest) => Ok::<_, DatabaseReadErrorKind>(
                        names@.map_values(|n: NameIndex| n@) + rest,
                    ),
                    Err(e) => Err::<Seq<NameIndexView>, _>(e),
                }),
            decreases size - consumed,
        {
            let ghost p_old = start0 + consumed;
            let ghost rem_old = size - consumed;
            let pos: u128 = base + consumed as u128;
            let head = match self.read_at(pos, 10) {
                Ok(b) => b,
                Err(e) => {
                    proof {
                        assert(spec_names_walk(s, p_old, rem_old) == Err::<
                            Seq<NameIndexView>,
                            _,
                        >(DatabaseReadErrorKind::IOError));
                    }
                    return Err(e);
                },
            };
            let name: u64 = Self::read_u64_at(&head, 0);
            let name_string_size: u16 = Self::read_u16_at(&head, 8);
            proof {
                assert(head@.subrange(0, 8) =~= s.subrange(p_old, p_old + 8));
                assert(head@.subrange(8, 10) =~= s.subrange(p_old + 8, p_old + 10));
            }
            let string_bytes = match self.read_at(pos + 10, name_string_size as usize) {
                Ok(b) => b,
                Err(e) => {
                    proof {
                        assert(spec_names_walk(s, p_old, rem_old) == Err::<
                            Seq<NameIndexView>,
                            _,
                        >(DatabaseReadErrorKind::IOError));
                    }
                    return Err(e);
                },
            };
            let ghost sb = string_bytes@;
            proof {
                assert(sb =~= s.subrange(p_old + 10, p_old + 10 + name_string_size));
            }
            let name_string = match string_from_utf8(string_bytes) {
                Some(v) => v,
                None => {
                    proof {
                        assert(spec_names_walk(s, p_old, rem_old) == Err::<
                            Seq<NameIndexView>,
                            _,
                        >(DatabaseReadErrorKind::StringValidity));
                    }
                    return Err(DatabaseReadErrorKind::StringValidity);
                },
            };
            if 10 + name_string_size as u64 > size as u64 - consumed {
                proof {
                    assert(spec_names_walk(s, p_old, rem_old) == Err::<Seq<NameIndexView>, _>(
                        DatabaseReadErrorKind::IndexTableValidity,
                    ));
                }
                return Err(DatabaseReadErrorKind::IndexTableValidity);
            }
            let ghost names_old = names@;
            names.push(NameIndex { name, name_string_size, name_string });
            consumed = consumed + 10 + name_string_size as u64;
            proof {
                let nv = NameIndexView {
                    name,
                    name_string_size,
                    name_string: decode_utf8(sb),
                };
                let w_new = spec_names_walk(
                    s,
                    p_old + 10 + name_string_size,
                    rem_old - 10 - name_string_size,
                );
                assert(spec_names_walk(s, p_old, rem_old) == (match w_new {
                    Ok(rest) => Ok::<_, DatabaseReadErrorKind>(seq![nv] + rest),
                    Err(e) => Err::<Seq<NameIndexView>, _>(e),
                }));
                assert(names@ =~= names_old.push(NameIndex { name, name_string_size, name_string }));
                assert(names@.map_values(|n: NameIndex| n@) =~= names_old.map_values(
                    |n: NameIndex| n@,
                ).push(nv));
                if w_new is Ok {
                    let rest = w_new->Ok_0;
                    assert(names_old.map_values(|n: NameIndex| n@) + (seq![nv] + rest)
                        =~= names@.map_values(|n: NameIndex| n@) + rest);
                }
            }
        }
        proof {
            assert(spec_names_walk(s, start0 + consumed, size - consumed) == Ok::<
                Seq<NameIndexView>,
                DatabaseReadErrorKind,
            >(Seq::empty()));
            assert(names@.map_values(|n: NameIndex| n@) + Seq::<NameIndexView>::empty()
                =~= names@.map_values(|n: NameIndex| n@));
        }
        Ok(NamesIndexTable { names })
    }

    /// Decode the tag-index table that `index_table` describes.  Entries are
    /// variably sized, so the entry count is implied by the declared block
    /// size: the block is walked entry by entry until exactly that many
    /// bytes are consumed.
    pub fn read_tags_index(&self, index_table: IndexTable) -> (r: Result<
        DataIndexTable,
        DatabaseReadErrorKind,
    >)
        ensures
            (r is Ok) == (spec_tags_result(
                self.data@,
                self.current_index_table_offset as int,
                index_table,
            ) is Ok),
            r is Ok ==> r->Ok_0.tags@.map_values(|t: TagIndex| t@) == spec_tags_result(
                self.data@,
                self.current_index_table_offset as int,
                index_table,
            )->Ok_0,
            r is Err ==> r->Err_0 == spec_tags_result(
                self.data@,
                self.current_index_table_offset as int,
                index_table,
            )->Err_0,
    {
        let ghost s = self.data@;
        let ghost start0 = self.current_index_table_offset + index_table.index_table_tags_offset;
        let size: u32 = index_table.index_table_tags_size;
        let base: u128 = self.current_index_table_offset as u128
            + index_table.index_table_tags_offset as u128;
        let mut tags: Vec<TagIndex> = Vec::new();
        let mut consumed: u64 = 0;
        while consumed < size as u64
            invariant
                consumed <= size,
                base == start0,
                s == self.data@,
                size == index_table.index_table_tags_size,
                start0 == self.current_index_table_offset + index_table.index_table_tags_offset,
                spec_tags_walk(s, start0 as int, size as int) == (match spec_tags_walk(
                    s,
                    start0 + consumed,
                    size - consumed,
                ) {
                    Ok(rest) => Ok::<_, DatabaseReadErrorKind>(
                        tags@.map_values(|t: TagIndex| t@) + rest,
                    ),
                    Err(e) => Err::<Seq<TagIndexView>, _>(e),
                }),
            decreases size - consumed,
        {
            let ghost p_old = start0 + consumed;
            let ghost rem_old = size - consumed;
            let pos: u128 = base + consumed as u128;
            let head = match self.read_at(pos, 24) {
                Ok(b) => b,
                Err(e) => {
                    proof {
                        assert(spec_tags_walk(s, p_old, rem_old) == Err::<Seq<TagIndexView>, _>(
                            DatabaseReadErrorKind::IOError,
                        ));
                    }
                    return Err(e);
                },
            };
            let tag_id: u64 = Self::read_u64_at(&head, 0);
            let name: u64 = Self::read_u64_at(&head, 8);
            let depth: u64 = Self::read_u64_at(&head, 16);
            proof {
                assert(head@.subrange(0, 8) =~= s.subrange(p_old, p_old + 8));
                assert(head@.subrange(8, 16) =~= s.subrange(p_old + 8, p_old + 16));
                assert(head@.subrange(16, 24) =~= s.subrange(p_old + 16, p_old + 24));
            }
            // The rest of the entry: the ancestor path, then the record
            // offset.
            let len: usize = self.data.len();
            let tail_pos: u128 = pos + 24;
            if tail_pos > len as u128 || 8 * (depth as u128) + 8 > len as u128 - tail_pos {
                proof {
                    assert(spec_tags_walk(s, p_old, rem_old) == Err::<Seq<TagIndexView>, _>(
                        DatabaseReadErrorKind::IOError,
                    ));
                }
                return Err(DatabaseReadErrorKind::IOError);
            }
            let mut full_path: Vec<u64> = Vec::new();
            let mut j: u64 = 0;
            while j < depth
                invariant
                    j <= depth,
                    s == self.data@,
                    tail_pos == start0 + consumed + 24,
                    start0 == self.current_index_table_offset
                        + index_table.index_table_tags_offset,
                    consumed <= u32::MAX,
                    tail_pos + 8 * (depth as int) + 8 <= s.len(),
                    s.len() <= usize::MAX,
                    full_path@.len() == j,
                    forall|k: int| 0 <= k < j ==> full_path@[k] == spec_path_seq(
                        s,
                        start0 + consumed + 24,
                        depth as int,
                    )[k],
                decreases depth - j,
            {
                let word = match self.read_at(tail_pos + 8 * (j as u128), 8) {
                    Ok(b) => b,
                    Err(_) => {
                        proof {
                            assert(false);
                        }
                        return Err(DatabaseReadErrorKind::IOError);
                    },
                };
                let v: u64 = Self::read_u64_at(&word, 0);
                proof {
                    assert(word@.subrange(0, 8) =~= word@);
                }
                full_path.push(v);
                j = j + 1;
            }
            proof {
                assert(full_path@ =~= spec_path_seq(s, start0 + consumed + 24, depth as int));
            }
            let off_word = match self.read_at(tail_pos + 8 * (depth as u128), 8) {
                Ok(b) => b,
                Err(_) => {
                    proof {
                        assert(false);
                    }
                    return Err(DatabaseReadErrorKind::IOError);
                },
            };
            let offset: u64 = Self::read_u64_at(&off_word, 0);
            proof {
                assert(off_word@.subrange(0, 8) =~= off_word@);
                assert(off_word@ =~= s.subrange(
                    p_old + 24 + 8 * depth,
                    p_old + 32 + 8 * depth,
                ));
            }
            if 32 + 8 * (depth as u128) > (size as u64 - consumed) as u128 {
                proof {
                    assert(spec_tags_walk(s, p_old, rem_old) == Err::<Seq<TagIndexView>, _>(
                        DatabaseReadErrorKind::IndexTableValidity,
                    ));
                }
                return Err(DatabaseReadErrorKind::IndexTableValidity);
            }
            let ghost tags_old = tags@;
            tags.push(TagIndex { tag_id, name, depth, full_path, offset });
            consumed = consumed + 32 + 8 * depth;
            proof {
                let tv = TagIndexView {
                    tag_id,
                    name,
                    depth,
                    full_path: spec_path_seq(s, p_old + 24, depth as int),
                    offset,
                };
                let w_new = spec_tags_walk(
                    s,
                    p_old + 32 + 8 * depth,
                    rem_old - 32 - 8 * depth,
                );
                assert(spec_tags_walk(s, p_old, rem_old) == (match w_new {
                    Ok(rest) => Ok::<_, DatabaseReadErrorKind>(seq![tv] + rest),
                    Err(e) => Err::<Seq<TagIndexView>, _>(e),
                }));
                assert(tags@.map_values(|t: TagIndex| t@) =~= tags_old.map_values(
                    |t: TagIndex| t@,
                ).push(tags@.last()@));
                assert(tags@.last()@ == tv);
                if w_new is Ok {
                    let rest = w_new->Ok_0;
                    assert(tags_old.map_values(|t: TagIndex| t@) + (seq![tv] + rest)
                        =~= tags@.map_values(|t: TagIndex| t@) + rest);
                }
            }
        }
        proof {
            assert(spec_tags_walk(s, start0 + consumed, size - consumed) == Ok::<
                Seq<TagIndexView>,
                DatabaseReadErrorKind,
            >(Seq::empty()));
            assert(tags@.map_values(|t: TagIndex| t@) + Seq::<TagIndexView>::empty()
                =~= tags@.map_values(|t: TagIndex| t@));
        }
        Ok(DataIndexTable { tags })
    }

    /// Decode the payload of a tag-data record from its discriminant byte
    /// and payload bytes.
    fn parse_payload(ty: u8, buf: Vec<u8>) -> (r: Result<TagType, DatabaseReadErrorKind>)
        ensures
            (r is Ok) == (spec_payload(ty, buf@) is Ok),
            r is Ok ==> r->Ok_0@ == spec_payload(ty, buf@)->Ok_0,
            r is Err ==> r->Err_0 == spec_payload(ty, buf@)->Err_0,
    {
        if ty == 0 {
            if buf.len() < 8 {
                Err(DatabaseReadErrorKind::IOError)
            } else {
                Ok(TagType::Integer(Self::read_u64_at(&buf, 0)))
            }
        } else if ty == 1 {
            if buf.len() < 4 {
                Err(DatabaseReadErrorKind::IOError)
            } else {
                Ok(TagType::Float(Self::read_u32_at(&buf, 0)))
            }
        } else if ty == 2 {
            if buf.len() < 8 {
                Err(DatabaseReadErrorKind::IOError)
            } else {
                Ok(TagType::Double(Self::read_u64_at(&buf, 0)))
            }
        } else if ty == 3 {
            if buf.len() < 16 {
                Err(DatabaseReadErrorKind::IOError)
            } else {
                Ok(
                    TagType::AddressEntry(
                        AddressEntry {
                            name: Self::read_u64_at(&buf, 0),
                            address: Self::read_u64_at(&buf, 8),
                        },
                    ),
                )
            }
        } else if ty == 4 {
            if buf.len() < 8 {
                return Err(DatabaseReadErrorKind::IOError);
            }
            let count: u64 = Self::read_u64_at(&buf, 0);
            if 16 * (count as u128) > buf.len() as u128 - 8 {
                return Err(DatabaseReadErrorKind::IOError);
            }
            let mut entries: Vec<AddressEntry> = Vec::new();
            let n: usize = count as usize;
            let mut i: usize = 0;
            while i < n
                invariant
                    i <= n,
                    n == count,
                    8 + 16 * (n as int) <= buf@.len(),
                    buf@.len() <= usize::MAX,
                    entries@.len() == i,
                    forall|k: int| 0 <= k < i ==> entries@[k] == spec_address_entries(
                        buf@,
                        8,
                        count as int,
                    )[k],
                decreases n - i,
            {
                let name: u64 = Self::read_u64_at(&buf, 8 + 16 * i);
                let address: u64 = Self::read_u64_at(&buf, 8 + 16 * i + 8);
                entries.push(AddressEntry { name, address });
                i = i + 1;
            }
            proof {
                assert(entries@ =~= spec_address_entries(buf@, 8, count as int));
            }
            Ok(TagType::AddressList(AddressList { address_count: count, array: entries }))
        } else if ty == 5 {
            match string_from_utf8(buf) {
                Some(s) => Ok(TagType::Text(s)),
                None => Err(DatabaseReadErrorKind::StringValidity),
            }
        } else {
            Err(DatabaseReadErrorKind::IndexTableValidity)
        }
    }

    /// Decode the tag-data record at address `offset`, interpreted through
    /// the current anchor.  The parent block is skipped: the returned record
    /// carries an empty parent placeholder whose count equals the depth, to
    /// be filled by [`Self::read_parents`].
    pub fn read_tag_data(&self, offset: u64) -> (r: Result<
        TagData<TagType>,
        DatabaseReadErrorKind,
    >)
        ensures
            (r is Ok) == (spec_read_tag_data(
                self.data@,
                self.current_index_table_offset as int,
                offset,
            ) is Ok),
            r is Ok ==> r->Ok_0@ == spec_read_tag_data(
                self.data@,
                self.current_index_table_offset as int,
                offset,
            )->Ok_0,
            r is Err ==> r->Err_0 == spec_read_tag_data(
                self.data@,
                self.current_index_table_offset as int,
                offset,
            )->Err_0,
    {
        let ghost s = self.data@;
        let ghost start = self.current_index_table_offset + offset;
        let pos: u128 = self.current_index_table_offset as u128 + offset as u128;
        let head = match self.read_at(pos, 40) {
            Ok(b) => b,
            Err(e) => {
                return Err(e);
            },
        };
        let tag_id: u64 = Self::read_u64_at(&head, 0);
        let tag_total_size: u64 = Self::read_u64_at(&head, 8);
        let tag_name: u64 = Self::read_u64_at(&head, 16);
        let tag_depth: u64 = Self::read_u64_at(&head, 24);
        let tag_parents_size: u64 = Self::read_u64_at(&head, 32);
        proof {
            assert(head@.subrange(0, 8) =~= s.subrange(start as int, start + 8));
            assert(head@.subrange(8, 16) =~= s.subrange(start + 8, start + 16));
            assert(head@.subrange(16, 24) =~= s.subrange(start + 16, start + 24));
            assert(head@.subrange(24, 32) =~= s.subrange(start + 24, start + 32));
            assert(head@.subrange(32, 40) =~= s.subrange(start + 32, start + 40));
        }
        let p1: u128 = pos + 40 + tag_parents_size as u128;
        let tail = match self.read_at(p1, 9) {
            Ok(b) => b,
            Err(e) => {
                return Err(e);
            },
        };
        let tag_data_type: u8 = tail[0];
        let tag_data_size: u64 = Self::read_u64_at(&tail, 1);
        proof {
            assert(tail@.subrange(1, 9) =~= s.subrange(
                start + 40 + tag_parents_size + 1,
                start + 40 + tag_parents_size + 9,
            ));
            assert(tail@[0] == s[start + 40 + tag_parents_size]);
        }
        let len: usize = self.data.len();
        if tag_data_size as u128 > len as u128 - (p1 + 9) {
            return Err(DatabaseReadErrorKind::IOError);
        }
        let payload = match self.read_at(p1 + 9, tag_data_size as usize) {
            Ok(b) => b,
            Err(_) => {
                proof {
                    assert(false);
                }
                return Err(DatabaseReadErrorKind::IOError);
            },
        };
        let tag_data = match Self::parse_payload(tag_data_type, payload) {
            Ok(v) => v,
            Err(e) => {
                return Err(e);
            },
        };
        Ok(
            TagData {
                tag_id,
                tag_total_size,
                tag_name,
                tag_depth,
                tag_parents_size,
                tag_parents: AddressList { address_count: tag_depth, array: Vec::new() },
                tag_data_type,
                tag_data_size,
                tag_data,
            },
        )
    }

    /// Read `count` parent entries of the record at address `offset`: the
    /// 16-byte pairs immediately after the record's 40-byte header.
    pub fn read_parent_entries(&self, offset: u64, count: u64) -> (r: Result<
        Vec<AddressEntry>,
        DatabaseReadErrorKind,
    >)
        ensures
            (r is Ok) == (spec_read_parent_entries(
                self.data@,
                self.current_index_table_offset as int,
                offset,
                count,
            ) is Ok),
            r is Ok ==> r->Ok_0@ == spec_read_parent_entries(
                self.data@,
                self.current_index_table_offset as int,
                offset,
                count,
            )->Ok_0,
            r is Err ==> r == Err::<Vec<AddressEntry>, DatabaseReadErrorKind>(
                DatabaseReadErrorKind::IOError,
            ),
    {
        let ghost s = self.data@;
        let ghost start = self.current_index_table_offset + offset + 40;
        let base: u128 = self.current_index_table_offset as u128 + offset as u128 + 40;
        let len: usize = self.data.len();
        if base > len as u128 || 16 * (count as u128) > len as u128 - base {
            return Err(DatabaseReadErrorKind::IOError);
        }
        let mut entries: Vec<AddressEntry> = Vec::new();
        let mut i: u64 = 0;
        while i < count
            invariant
                i <= count,
                s == self.data@,
                base == start,
                start + 16 * (count as int) <= s.len(),
                s.len() <= usize::MAX,
                entries@.len() == i,
                forall|k: int| 0 <= k < i ==> entries@[k] == spec_address_entries(
                    s,
                    start as int,
                    count as int,
                )[k],
            decreases count - i,
        {
            let pair = match self.read_at(base + 16 * (i as u128), 16) {
                Ok(b) => b,
                Err(_) => {
                    proof {
                        assert(false);
                    }
                    return Err(DatabaseReadErrorKind::IOError);
                },
            };
            let name: u64 = Self::read_u64_at(&pair, 0);
            let address: u64 = Self::read_u64_at(&pair, 8);
            proof {
                assert(pair@.subrange(0, 8) =~= s.subrange(
                    start + 16 * (i as int),
                    start + 16 * (i as int) + 8,
                ));
                assert(pair@.subrange(8, 16) =~= s.subrange(
                    start + 16 * (i as int) + 8,
                    start + 16 * (i as int) + 16,
                ));
            }
            entries.push(AddressEntry { name, address });
            i = i + 1;
        }
        proof {
            assert(entries@ =~= spec_address_entries(s, start as int, count as int));
        }
        Ok(entries)
    }

    /// Populate the parent list of a previously decoded record: read
    /// `tag_data.tag_depth` address entries from the parent block of the
    /// record that `tag_index` points to, and append them to the record's
    /// parent array.
    pub fn read_parents(&self, tag_index: &TagIndex, tag_data: &mut TagData<TagType>) -> (r:
        Result<(), DatabaseReadErrorKind>)
        ensures
            (r is Ok) == (spec_read_parent_entries(
                self.data@,
                self.current_index_table_offset as int,
                tag_index.offset,
                old(tag_data).tag_depth,
            ) is Ok),
            r is Ok ==> final(tag_data).tag_parents.array@ == old(tag_data).tag_parents.array@
                + spec_read_parent_entries(
                self.data@,
                self.current_index_table_offset as int,
                tag_index.offset,
                old(tag_data).tag_depth,
            )->Ok_0,
            r is Ok ==> final(tag_data).tag_parents.address_count == old(
                tag_data,
            ).tag_parents.address_count,
            r is Ok && old(tag_data).tag_parents.array@.len() == 0 ==> final(tag_data)
                .tag_parents.array@.len() == old(tag_data).tag_depth,
            final(tag_data).tag_id == old(tag_data).tag_id,
            final(tag_data).tag_total_size == old(tag_data).tag_total_size,
            final(tag_data).tag_name == old(tag_data).tag_name,
            final(tag_data).tag_depth == old(tag_data).tag_depth,
            final(tag_data).tag_parents_size == old(tag_data).tag_parents_size,
            final(tag_data).tag_data_type == old(tag_data).tag_data_type,
            final(tag_data).tag_data_size == old(tag_data).tag_data_size,
            final(tag_data).tag_data == old(tag_data).tag_data,
            r is Err ==> *final(tag_data) == *old(tag_data) && r == Err::<(), DatabaseReadErrorKind>(
                DatabaseReadErrorKind::IOError,
            ),
    {
        let entries = match self.read_parent_entries(tag_index.offset, tag_data.tag_depth) {
            Ok(v) => v,
            Err(e) => {
                return Err(e);
            },
        };
        let n: usize = entries.len();
        let mut k: usize = 0;
        while k < n
            invariant
                k <= n,
                n == entries@.len(),
                tag_data.tag_id == old(tag_data).tag_id,
                tag_data.tag_total_size == old(tag_data).tag_total_size,
                tag_data.tag_name == old(tag_data).tag_name,
                tag_data.tag_depth == old(tag_data).tag_depth,
                tag_data.tag_parents_size == old(tag_data).tag_parents_size,
                tag_data.tag_data_type == old(tag_data).tag_data_type,
                tag_data.tag_data_size == old(tag_data).tag_data_size,
                tag_data.tag_data == old(tag_data).tag_data,
                tag_data.tag_parents.address_count == old(tag_data).tag_parents.address_count,
                tag_data.tag_parents.array@ == old(tag_data).tag_parents.array@
                    + entries@.subrange(0, k as int),
            decreases n - k,
        {
            let e: AddressEntry = entries[k];
            tag_data.tag_parents.array.push(e);
            proof {
                assert(entries@.subrange(0, k + 1) =~= entries@.subrange(0, k as int).push(
                    entries@[k as int],
                ));
            }
            k = k + 1;
        }
        proof {
            assert(entries@.subrange(0, n as int) =~= entries@);
        }
        Ok(())
    }
}

} // verus!
