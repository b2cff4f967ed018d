//! Source-provenance metadata for smart contracts: a two-field record, the
//! capability through which a contract exposes it, and a line scanner that
//! finds the repository link declared in a build manifest.
pub mod manifest;
pub mod metadata;

pub use manifest::repository_link_in;
pub use manifest::repository_link_or_empty;
pub use metadata::ContractSourceMetadata;
pub use metadata::TContractSourceMetadata;
