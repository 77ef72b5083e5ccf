//! Data model of the tag-graph store: the decoded forms of the five on-disk
//! record shapes, the address types used by parent lists and queries, and the
//! error kinds that decoding can report.
//!
//! Types that own heap data (`String`, `Vec`) carry a mathematical view
//! (`...View`) over `Seq`, so that contracts can speak about their contents.

use vstd::prelude::*;
use vstd::std_specs::cmp::PartialEqSpec;

verus! {

/// Error kinds reported by decode operations, one per failure class:
/// a malformed cluster header, a cluster version the caller does not accept,
/// a text encoding the caller does not accept, a structurally invalid index
/// table or record, text that is not valid UTF-8, and a read outside the
/// bounds of the byte store.
#[derive(Clone, Copy, Debug, PartialEq, Eq, Structural)]
pub enum DatabaseReadErrorKind {
    ClusterValidity,
    ClusterIncompatibleVersion,
    UnsupportedTextEncoding,
    IndexTableValidity,
    StringValidity,
    IOError,
}

/// Metadata of one cluster, decoded from its fixed 50-byte header.
#[derive(Clone, Copy, Debug, PartialEq, Eq, Structural)]
pub struct ClusterMetadata {
    pub version: u32,
    pub cluster_index: u64,
    pub index_table_offset: u64,
    pub text_encoding: u16,
    pub database_size: u64,
    pub last_name_index: u64,
    pub next_cluster: u64,
}

impl ClusterMetadata {
    pub fn new(
        version: u32,
        cluster_index: u64,
        index_table_offset: u64,
        text_encoding: u16,
        database_size: u64,
        last_name_index: u64,
        next_cluster: u64,
    ) -> (r: Self)
        ensures
            r == (ClusterMetadata {
                version,
                cluster_index,
                index_table_offset,
                text_encoding,
                database_size,
                last_name_index,
                next_cluster,
            }),
    {
        ClusterMetadata {
            version,
            cluster_index,
            index_table_offset,
            text_encoding,
            database_size,
            last_name_index,
            next_cluster,
        }
    }

    /// Compatibility check that the decoder itself does not enforce: the
    /// caller states which format version and which text encoding it
    /// supports, and gets the matching error kind when the cluster differs.
    pub fn validate(&self, supported_version: u32, supported_encoding: u16) -> (r: Result<
        (),
        DatabaseReadErrorKind,
    >)
        ensures
            self.version != supported_version ==> r == Err::<(), DatabaseReadErrorKind>(
                DatabaseReadErrorKind::ClusterIncompatibleVersion,
            ),
            self.version == supported_version && self.text_encoding != supported_encoding ==> r
                == Err::<(), DatabaseReadErrorKind>(
                DatabaseReadErrorKind::UnsupportedTextEncoding,
            ),
            self.version == supported_version && self.text_encoding == supported_encoding ==> r
                == Ok::<(), DatabaseReadErrorKind>(()),
    {
        if self.version != supported_version {
            Err(DatabaseReadErrorKind::ClusterIncompatibleVersion)
        } else if self.text_encoding != supported_encoding {
            Err(DatabaseReadErrorKind::UnsupportedTextEncoding)
        } else {
            Ok(())
        }
    }
}

/// Header of one index-table page.  All offsets stored inside an index table
/// are relative to the table's own start, never absolute file positions.
#[derive(Clone, Copy, Debug, PartialEq, Eq, Structural)]
pub struct IndexTable {
    pub index_table_size: u64,
    pub index_table_names_size: u32,
    pub index_table_names_offset: u64,
    pub index_table_tags_size: u32,
    pub index_table_tags_offset: u64,
    pub index_table_next_page_offset: u64,
}

impl IndexTable {
    pub fn new(
        index_table_size: u64,
        index_table_names_size: u32,
        index_table_names_offset: u64,
        index_table_tags_size: u32,
        index_table_tags_offset: u64,
        index_table_next_page_offset: u64,
    ) -> (r: Self)
        ensures
            r == (IndexTable {
                index_table_size,
                index_table_names_size,
                index_table_names_offset,
                index_table_tags_size,
                index_table_tags_offset,
                index_table_next_page_offset,
            }),
    {
        IndexTable {
            index_table_size,
            index_table_names_size,
            index_table_names_offset,
            index_table_tags_size,
            index_table_tags_offset,
            index_table_next_page_offset,
        }
    }
}

/// One entry of the name table: a numeric name identifier bound to a UTF-8
/// string.
#[derive(Clone, Debug)]
pub struct NameIndex {
    pub name: u64,
    pub name_string_size: u16,
    pub name_string: String,
}

/// Mathematical view of a [`NameIndex`].
pub struct NameIndexView {
    pub name: u64,
    pub name_string_size: u16,
    pub name_string: Seq<char>,
}

impl View for NameIndex {
    type V = NameIndexView;

    open spec fn view(&self) -> NameIndexView {
        NameIndexView {
            name: self.name,
            name_string_size: self.name_string_size,
            name_string: self.name_string@,
        }
    }
}

impl NameIndex {
    pub fn new(name: u64, name_string_size: u16, name_string: String) -> (r: Self)
        ensures
            r.name == name,
            r.name_string_size == name_string_size,
            r.name_string == name_string,
    {
        NameIndex { name, name_string_size, name_string }
    }
}

/// One entry of the tag-index table: where a tag's full data record lives,
/// and the ancestor-name path recorded beside it.
#[derive(Clone, Debug)]
pub struct TagIndex {
    pub tag_id: u64,
    pub name: u64,
    pub depth: u64,
    pub full_path: Vec<u64>,
    pub offset: u64,
}

/// Mathematical view of a [`TagIndex`].
pub struct TagIndexView {
    pub tag_id: u64,
    pub name: u64,
    pub depth: u64,
    pub full_path: Seq<u64>,
    pub offset: u64,
}

impl View for TagIndex {
    type V = TagIndexView;

    open spec fn view(&self) -> TagIndexView {
        TagIndexView {
            tag_id: self.tag_id,
            name: self.name,
            depth: self.depth,
            full_path: self.full_path@,
            offset: self.offset,
        }
    }
}

impl TagIndex {
    pub fn new(tag_id: u64, name: u64, depth: u64, full_path: Vec<u64>, offset: u64) -> (r: Self)
        ensures
            r.tag_id == tag_id,
            r.name == name,
            r.depth == depth,
            r.full_path == full_path,
            r.offset == offset,
    {
        TagIndex { tag_id, name, depth, full_path, offset }
    }
}

/// The decoded name table of one index-table page.
#[derive(Clone, Debug)]
pub struct NamesIndexTable {
    pub names: Vec<NameIndex>,
}

impl View for NamesIndexTable {
    type V = Seq<NameIndexView>;

    open spec fn view(&self) -> Seq<NameIndexView> {
        self.names@.map_values(|n: NameIndex| n@)
    }
}

impl NamesIndexTable {
    pub fn new(names: Vec<NameIndex>) -> (r: Self)
        ensures
            r.names == names,
    {
        NamesIndexTable { names }
    }
}

/// A decoded tag-index table.
#[derive(Clone, Debug)]
pub struct TagIndexTable {
    pub tags: Vec<TagIndex>,
}

impl TagIndexTable {
    pub fn new(tags: Vec<TagIndex>) -> (r: Self)
        ensures
            r.tags == tags,
    {
        TagIndexTable { tags }
    }
}

/// The tag-index table decoded from one index-table page, as the reader
/// returns it.
#[derive(Clone, Debug)]
pub struct DataIndexTable {
    pub tags: Vec<TagIndex>,
}

/// A reference to a tag or value at a byte offset, tagged with the name under
/// which it was stored.  Addresses are relative to the current index-table
/// anchor.
#[derive(Clone, Copy, Debug, PartialEq, Eq, Structural)]
pub struct AddressEntry {
    pub name: u64,
    pub address: u64,
}

/// An ordered list of [`AddressEntry`] together with an explicit count.
#[derive(Clone, Debug)]
pub struct AddressList {
    pub address_count: u64,
    pub array: Vec<AddressEntry>,
}

/// Mathematical view of an [`AddressList`].
pub struct AddressListView {
    pub address_count: u64,
    pub array: Seq<AddressEntry>,
}

impl View for AddressList {
    type V = AddressListView;

    open spec fn view(&self) -> AddressListView {
        AddressListView { address_count: self.address_count, array: self.array@ }
    }
}

impl PartialEq for AddressList {
    /// Two lists are equal exactly when their counts match and their entry
    /// arrays match element for element, including length.
    fn eq(&self, other: &Self) -> (r: bool) {
        if self.address_count != other.address_count {
            return false;
        }
        if self.array.len() != other.array.len() {
            return false;
        }
        let n: usize = self.array.len();
        let mut i: usize = 0;
        while i < n
            invariant
                0 <= i <= n,
                n == self.array@.len(),
                n == other.array@.len(),
                forall|j: int| 0 <= j < i ==> self.array@[j] == other.array@[j],
            decreases n - i,
        {
            if self.array[i] != other.array[i] {
                return false;
            }
            i = i + 1;
        }
        proof {
            assert(self.array@ =~= other.array@);
        }
        true
    }
}

impl vstd::std_specs::cmp::PartialEqSpecImpl for AddressList {
    open spec fn obeys_eq_spec() -> bool {
        true
    }

    open spec fn eq_spec(&self, other: &Self) -> bool {
        self.address_count == other.address_count && self.array@ == other.array@
    }
}

/// Equality law for address lists: `a == b` holds exactly when the counts
/// match and every entry pairs up positionally, length included.  A list with
/// a trailing unmatched entry compares unequal even when the counts agree.
pub proof fn lemma_address_list_equality(a: &AddressList, b: &AddressList)
    ensures
        a.eq_spec(b) <==> (a.address_count
            == b.address_count && a.array@.len() == b.array@.len() && (forall|j: int|
            0 <= j < a.array@.len() ==> a.array@[j] == b.array@[j])),
{
    if a.address_count == b.address_count && a.array@.len() == b.array@.len() && (forall|j: int|
        0 <= j < a.array@.len() ==> a.array@[j] == b.array@[j]) {
        assert(a.array@ =~= b.array@);
    }
}

/// A bare pointer to a value elsewhere in the byte store; unlike an
/// [`AddressEntry`] it carries no name.
#[derive(Clone, Copy, Debug, PartialEq, Eq, Structural)]
pub struct ValueReference {
    pub address: u64,
}

/// The payload of a tag-data record.  The on-disk discriminant byte selects
/// the variant: 0 integer, 1 single-precision float, 2 double-precision
/// float, 3 address entry, 4 address list, 5 UTF-8 text; every other value is
/// rejected.  The two float variants hold the little-endian bit patterns
/// unchanged, so that the store's logic stays within integer arithmetic; the
/// surrounding application converts them to floating point where it needs to.
/// `ValueReference` and `Char` have no on-disk discriminant of their own.
#[derive(Clone, Debug)]
pub enum TagType {
    AddressEntry(AddressEntry),
    AddressList(AddressList),
    ValueReference(ValueReference),
    Integer(u64),
    Float(u32),
    Double(u64),
    Text(String),
    Char(String),
}

/// Mathematical view of a [`TagType`].
pub enum TagTypeView {
    AddressEntry(AddressEntry),
    AddressList(AddressListView),
    ValueReference(ValueReference),
    Integer(u64),
    Float(u32),
    Double(u64),
    Text(Seq<char>),
    Char(Seq<char>),
}

impl View for TagType {
    type V = TagTypeView;

    open spec fn view(&self) -> TagTypeView {
        match self {
            TagType::AddressEntry(e) => TagTypeView::AddressEntry(*e),
            TagType::AddressList(l) => TagTypeView::AddressList(l@),
            TagType::ValueReference(v) => TagTypeView::ValueReference(*v),
            TagType::Integer(v) => TagTypeView::Integer(*v),
            TagType::Float(v) => TagTypeView::Float(*v),
            TagType::Double(v) => TagTypeView::Double(*v),
            TagType::Text(s) => TagTypeView::Text(s@),
            TagType::Char(s) => TagTypeView::Char(s@),
        }
    }
}

/// A fully decoded tag-data record.  `tag_parents` starts out as an empty
/// placeholder whose count equals `tag_depth`; a separate read-parents pass
/// fills the entries in.  In a well-formed record `tag_parents_size` equals
/// sixteen times `tag_depth`.
#[derive(Clone, Debug)]
pub struct TagData<T> {
    pub tag_id: u64,
    pub tag_total_size: u64,
    pub tag_name: u64,
    pub tag_depth: u64,
    pub tag_parents_size: u64,
    pub tag_parents: AddressList,
    pub tag_data_type: u8,
    pub tag_data_size: u64,
    pub tag_data: T,
}

/// Mathematical view of a [`TagData`], generic over the payload's view.
pub struct TagDataView<TV> {
    pub tag_id: u64,
    pub tag_total_size: u64,
    pub tag_name: u64,
    pub tag_depth: u64,
    pub tag_parents_size: u64,
    pub tag_parents: AddressListView,
    pub tag_data_type: u8,
    pub tag_data_size: u64,
    pub tag_data: TV,
}

impl<T: View> View for TagData<T> {
    type V = TagDataView<T::V>;

    open spec fn view(&self) -> TagDataView<T::V> {
        TagDataView {
            tag_id: self.tag_id,
            tag_total_size: self.tag_total_size,
            tag_name: self.tag_name,
            tag_depth: self.tag_depth,
            tag_parents_size: self.tag_parents_size,
            tag_parents: self.tag_parents@,
            tag_data_type: self.tag_data_type,
            tag_data_size: self.tag_data_size,
            tag_data: self.tag_data@,
        }
    }
}

impl<T> TagData<T> {
    pub fn new(
        tag_id: u64,
        tag_total_size: u64,
        tag_name: u64,
        tag_depth: u64,
        tag_parents_size: u64,
        tag_parents: AddressList,
        tag_data_type: u8,
        tag_data_size: u64,
        tag_data: T,
    ) -> (r: Self)
        ensures
            r.tag_id == tag_id,
            r.tag_total_size == tag_total_size,
            r.tag_name == tag_name,
            r.tag_depth == tag_depth,
            r.tag_parents_size == tag_parents_size,
            r.tag_parents == tag_parents,
            r.tag_data_type == tag_data_type,
            r.tag_data_size == tag_data_size,
            r.tag_data == tag_data,
    {
        TagData {
            tag_id,
            tag_total_size,
            tag_name,
            tag_depth,
            tag_parents_size,
            tag_parents,
            tag_data_type,
            tag_data_size,
            tag_data,
        }
    }
}

} // verus!
