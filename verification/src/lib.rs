//! Reader and query engine for a cluster-based, hierarchical binary tag
//! database ("tag-graph store").
//!
//! The library decodes the five record shapes of the on-disk format (cluster
//! header, index-table header, name table, tag-index table, tag-data record)
//! from an in-memory byte store, and answers upstream queries by walking the
//! parent-address lists embedded in tag-data records.  Opening files and
//! caching decoded tables belong to the surrounding application, which hands
//! the raw bytes to [`reader::DatabaseReader`].

pub mod encode;
pub mod laws;
pub mod layout;
pub mod query;
pub mod reader;
pub mod records;

pub use query::IntegerEquals;
pub use query::QueryEntry;
pub use query::SearchResult;
pub use query::TagNameEquals;
pub use query::TagPredicate;
pub use reader::DatabaseReader;
pub use records::AddressEntry;
pub use records::AddressList;
pub use records::AddressListView;
pub use records::ClusterMetadata;
pub use records::DataIndexTable;
pub use records::DatabaseReadErrorKind;
pub use records::IndexTable;
pub use records::NameIndex;
pub use records::NameIndexView;
pub use records::NamesIndexTable;
pub use records::TagData;
pub use records::TagDataView;
pub use records::TagIndex;
pub use records::TagIndexTable;
pub use records::TagIndexView;
pub use records::TagType;
pub use records::TagTypeView;
pub use records::ValueReference;
