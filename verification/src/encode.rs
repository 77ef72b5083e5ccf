//! Byte-exact encoders for the record shapes of the format, each proved to
//! produce exactly the encoding that [`crate::layout`] specifies.  They
//! exist so that stores can be written as well as read, and they anchor the
//! round-trip laws in [`crate::laws`].

use vstd::bytes::*;
use vstd::prelude::*;
use vstd::string::StrSliceExecFns;

use crate::layout::spec_cluster_header_bytes;
use crate::layout::spec_entries_bytes;
use crate::layout::spec_index_table_bytes;
use crate::layout::spec_magic;
use crate::layout::spec_name_entry_bytes;
use crate::layout::spec_path_bytes;
use crate::layout::spec_payload_bytes;
use crate::layout::spec_tag_data_bytes;
use crate::layout::spec_tag_index_bytes;
use crate::records::AddressEntry;
use crate::records::ClusterMetadata;
use crate::records::IndexTable;
use crate::records::NameIndex;
use crate::records::TagData;
use crate::records::TagIndex;
use crate::records::TagType;

verus! {

/// Append one byte vector to another.
fn append_bytes(out: &mut Vec<u8>, src: &Vec<u8>)
    ensures
        final(out)@ == old(out)@ + src@,
{
    let n: usize = src.len();
    let mut i: usize = 0;
    while i < n
        invariant
            i <= n,
            n == src@.len(),
            out@ == old(out)@ + src@.subrange(0, i as int),
        decreases n - i,
    {
        let b: u8 = src[i];
        out.push(b);
        proof {
            assert(src@.subrange(0, i + 1) =~= src@.subrange(0, i as int).push(src@[i as int]));
        }
        i = i + 1;
    }
    proof {
        assert(src@.subrange(0, n as int) =~= src@);
    }
}

/// Append the little-endian encoding of a 64-bit value.
fn append_u64(out: &mut Vec<u8>, v: u64)
    ensures
        final(out)@ == old(out)@ + spec_u64_to_le_bytes(v),
{
    let bytes = u64_to_le_bytes(v);
    append_bytes(out, &bytes);
}

/// Append the little-endian encoding of a 32-bit value.
fn append_u32(out: &mut Vec<u8>, v: u32)
    ensures
        final(out)@ == old(out)@ + spec_u32_to_le_bytes(v),
{
    let bytes = u32_to_le_bytes(v);
    append_bytes(out, &bytes);
}

/// Append the little-endian encoding of a 16-bit value.
fn append_u16(out: &mut Vec<u8>, v: u16)
    ensures
        final(out)@ == old(out)@ + spec_u16_to_le_bytes(v),
{
    let bytes = u16_to_le_bytes(v);
    append_bytes(out, &bytes);
}

/// Encode a cluster header: the magic, then the seven fields in order.
pub fn encode_cluster_header(c: &ClusterMetadata) -> (r: Vec<u8>)
    ensures
        r@ == spec_cluster_header_bytes(*c),
{
    let mut out: Vec<u8> = Vec::new();
    out.push(66);
    out.push(84);
    out.push(65);
    out.push(71);
    proof {
        assert(out@ =~= spec_magic());
    }
    append_u32(&mut out, c.version);
    append_u64(&mut out, c.cluster_index);
    append_u64(&mut out, c.index_table_offset);
    append_u16(&mut out, c.text_encoding);
    append_u64(&mut out, c.database_size);
    append_u64(&mut out, c.last_name_index);
    append_u64(&mut out, c.next_cluster);
    out
}

/// Encode an index-table header: the six fields in order.
pub fn encode_index_table(t: &IndexTable) -> (r: Vec<u8>)
    ensures
        r@ == spec_index_table_bytes(*t),
{
    let mut out: Vec<u8> = Vec::new();
    append_u64(&mut out, t.index_table_size);
    proof {
        assert(Seq::<u8>::empty() + spec_u64_to_le_bytes(t.index_table_size)
            =~= spec_u64_to_le_bytes(t.index_table_size));
    }
    append_u32(&mut out, t.index_table_names_size);
    append_u64(&mut out, t.index_table_names_offset);
    append_u32(&mut out, t.index_table_tags_size);
    append_u64(&mut out, t.index_table_tags_offset);
    append_u64(&mut out, t.index_table_next_page_offset);
    out
}

/// Encode one name entry: the name id, the string length, the UTF-8 bytes.
pub fn encode_name_entry(n: &NameIndex) -> (r: Vec<u8>)
    ensures
        r@ == spec_name_entry_bytes(n@),
{
    let mut out: Vec<u8> = Vec::new();
    append_u64(&mut out, n.name);
    proof {
        assert(Seq::<u8>::empty() + spec_u64_to_le_bytes(n.name) =~= spec_u64_to_le_bytes(
            n.name,
        ));
    }
    append_u16(&mut out, n.name_string_size);
    let sb = n.name_string.as_str().as_bytes_vec();
    append_bytes(&mut out, &sb);
    out
}

/// Encode one address entry: the name id, then the address.
pub fn encode_address_entry(e: &AddressEntry) -> (r: Vec<u8>)
    ensures
        r@ == crate::layout::spec_address_entry_bytes(*e),
{
    let mut out: Vec<u8> = Vec::new();
    append_u64(&mut out, e.name);
    proof {
        assert(Seq::<u8>::empty() + spec_u64_to_le_bytes(e.name) =~= spec_u64_to_le_bytes(
            e.name,
        ));
    }
    append_u64(&mut out, e.address);
    out
}

/// Append the concatenated encodings of a slice of address entries.
fn append_entries(out: &mut Vec<u8>, entries: &Vec<AddressEntry>)
    ensures
        final(out)@ == old(out)@ + spec_entries_bytes(entries@),
{
    let n: usize = entries.len();
    let mut k: usize = 0;
    while k < n
        invariant
            k <= n,
            n == entries@.len(),
            out@ == old(out)@ + spec_entries_bytes(entries@.subrange(0, k as int)),
        decreases n - k,
    {
        let e: AddressEntry = entries[k];
        append_u64(out, e.name);
        append_u64(out, e.address);
        proof {
            let taken = entries@.subrange(0, k + 1);
            assert(taken.drop_last() =~= entries@.subrange(0, k as int));
            assert(taken.last() == entries@[k as int]);
            assert(out@ =~= old(out)@ + spec_entries_bytes(taken));
        }
        k = k + 1;
    }
    proof {
        assert(entries@.subrange(0, n as int) =~= entries@);
    }
}

/// Encode one tag-index entry: the 24-byte fixed header, the ancestor path,
/// then the record offset.
pub fn encode_tag_index(t: &TagIndex) -> (r: Vec<u8>)
    ensures
        r@ == spec_tag_index_bytes(t@),
{
    let mut out: Vec<u8> = Vec::new();
    append_u64(&mut out, t.tag_id);
    proof {
        assert(Seq::<u8>::empty() + spec_u64_to_le_bytes(t.tag_id) =~= spec_u64_to_le_bytes(
            t.tag_id,
        ));
    }
    append_u64(&mut out, t.name);
    append_u64(&mut out, t.depth);
    let ghost head = out@;
    let n: usize = t.full_path.len();
    let mut j: usize = 0;
    while j < n
        invariant
            j <= n,
            n == t.full_path@.len(),
            out@ == head + spec_path_bytes(t.full_path@.subrange(0, j as int)),
        decreases n - j,
    {
        let v: u64 = t.full_path[j];
        append_u64(&mut out, v);
        proof {
            let taken = t.full_path@.subrange(0, j + 1);
            assert(taken.drop_last() =~= t.full_path@.subrange(0, j as int));
            assert(taken.last() == t.full_path@[j as int]);
            assert(out@ =~= head + spec_path_bytes(taken));
        }
        j = j + 1;
    }
    proof {
        assert(t.full_path@.subrange(0, n as int) =~= t.full_path@);
    }
    append_u64(&mut out, t.offset);
    out
}

/// Encode a full tag-data record: the 40-byte header, the parent entries,
/// the payload discriminant and size fields as stored in the record, then
/// the payload bytes of the record's payload variant.
pub fn encode_tag_data(d: &TagData<TagType>) -> (r: Vec<u8>)
    ensures
        r@ == spec_tag_data_bytes(d@),
{
    let mut out: Vec<u8> = Vec::new();
    append_u64(&mut out, d.tag_id);
    proof {
        assert(Seq::<u8>::empty() + spec_u64_to_le_bytes(d.tag_id) =~= spec_u64_to_le_bytes(
            d.tag_id,
        ));
    }
    append_u64(&mut out, d.tag_total_size);
    append_u64(&mut out, d.tag_name);
    append_u64(&mut out, d.tag_depth);
    append_u64(&mut out, d.tag_parents_size);
    append_entries(&mut out, &d.tag_parents.array);
    out.push(d.tag_data_type);
    proof {
        let ghost pre = out@.drop_last();
        assert(out@ =~= pre + seq![d.tag_data_type]);
    }
    append_u64(&mut out, d.tag_data_size);
    match &d.tag_data {
        TagType::Integer(v) => {
            append_u64(&mut out, *v);
        },
        TagType::Float(v) => {
            append_u32(&mut out, *v);
        },
        TagType::Double(v) => {
            append_u64(&mut out, *v);
        },
        TagType::AddressEntry(e) => {
            append_u64(&mut out, e.name);
            append_u64(&mut out, e.address);
            proof {
                assert(out@ =~= spec_tag_data_bytes(d@));
            }
        },
        TagType::AddressList(l) => {
            append_u64(&mut out, l.address_count);
            append_entries(&mut out, &l.array);
            proof {
                assert(out@ =~= spec_tag_data_bytes(d@));
            }
        },
        TagType::ValueReference(v) => {
            append_u64(&mut out, v.address);
        },
        TagType::Text(s) => {
            let sb = s.as_str().as_bytes_vec();
            append_bytes(&mut out, &sb);
        },
        TagType::Char(s) => {
            let sb = s.as_str().as_bytes_vec();
            append_bytes(&mut out, &sb);
        },
    }
    out
}

} // verus!
