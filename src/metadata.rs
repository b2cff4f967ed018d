//! The metadata record and the capability that exposes it.
use vstd::prelude::*;

verus! {

/// Where a deployed contract's code comes from: a version (for instance the
/// commit hash it was built from) and a link to its public repository.
#[derive(Debug)]
pub struct ContractSourceMetadata {
    /// A version; it may be the hash of the commit the contract was built from.
    pub version: String,
    /// A link to the public repository of the contract.
    pub link: String,
}

impl View for ContractSourceMetadata {
    type V = (Seq<char>, Seq<char>);

    /// The version and the link, in that order.
    open spec fn view(&self) -> (Seq<char>, Seq<char>) {
        (self.version@, self.link@)
    }
}

impl ContractSourceMetadata {
    /// A record holding exactly the given version and link.
    pub fn new(version: String, link: String) -> (r: ContractSourceMetadata)
        ensures
            r.version@ == version@,
            r.link@ == link@,
    {
        ContractSourceMetadata { version, link }
    }

    /// The version, as it was given.
    pub fn version(&self) -> (r: &str)
        ensures
            r@ == self.version@,
    {
        self.version.as_str()
    }

    /// The link, as it was given.
    pub fn link(&self) -> (r: &str)
        ensures
            r@ == self.link@,
    {
        self.link.as_str()
    }
}

impl PartialEq for ContractSourceMetadata {
    fn eq(&self, other: &ContractSourceMetadata) -> (r: bool)
        ensures
            r == (self@ == other@),
    {
        self.version == other.version && self.link == other.link
    }
}

impl vstd::std_specs::cmp::PartialEqSpecImpl for ContractSourceMetadata {
    open spec fn obeys_eq_spec() -> bool {
        true
    }

    open spec fn eq_spec(&self, other: &ContractSourceMetadata) -> bool {
        self@ == other@
    }
}

impl Eq for ContractSourceMetadata {
}

/// The capability of a contract to describe its own source: off-chain tools
/// call `contract_source_metadata` on any contract without knowing its inner
/// structure.
pub trait TContractSourceMetadata {
    /// The version and link that the implementer describes itself with: fixed
    /// by the implementer's own value, as a build-time constant would be.
    spec fn source_metadata(&self) -> (Seq<char>, Seq<char>);

    /// The record describing this contract's deployed version and source link.
    fn contract_source_metadata(&self) -> (r: ContractSourceMetadata)
        ensures
            r@ == self.source_metadata(),
    ;
}

/// A record describes itself: it answers with a copy of its own fields.
impl TContractSourceMetadata for ContractSourceMetadata {
    open spec fn source_metadata(&self) -> (Seq<char>, Seq<char>) {
        self@
    }

    fn contract_source_metadata(&self) -> (r: ContractSourceMetadata) {
        ContractSourceMetadata { version: self.version.clone(), link: self.link.clone() }
    }
}

/// Asking the same contract twice for its source metadata, with nothing
/// changed in between, gives equal records.
pub proof fn lemma_source_metadata_deterministic<T: TContractSourceMetadata>(
    contract: &T,
    first: ContractSourceMetadata,
    second: ContractSourceMetadata,
)
    requires
        first@ == contract.source_metadata(),
        second@ == contract.source_metadata(),
    ensures
        first@ == second@,
{
}

} // verus!
