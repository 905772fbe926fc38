//! The os-info data model: the identity block this crate reads from an
//! `os-info.json` document, as plain strings.

use vstd::prelude::*;

verus! {

/// The identity block of an os-info document.
pub struct OsInfoIdentity {
    /// Current OS id, e.g. `aerynos`.
    pub id: String,

    /// Machine-readable name.
    pub name: String,

    /// Human-readable display name.
    pub display: String,

    /// Prior ids under which this OS was known; used during cleanup to
    /// locate artefacts installed under an earlier identity.
    pub former_identities: Vec<String>,
}

/// The parts of an os-info document that boot management needs.
pub struct OsInfo {
    /// The identity block.
    pub identity: OsInfoIdentity,
}

impl Clone for OsInfoIdentity {
    /// An exact copy; the run of former identities keeps its order.
    fn clone(&self) -> (r: Self)
        ensures
            r.id == self.id,
            r.name == self.name,
            r.display == self.display,
            r.former_identities@ == self.former_identities@,
    {
        OsInfoIdentity {
            id: self.id.clone(),
            name: self.name.clone(),
            display: self.display.clone(),
            former_identities: crate::kernel::clone_string_vec(&self.former_identities),
        }
    }
}

impl Clone for OsInfo {
    /// An exact copy; the run of former identities keeps its order.
    fn clone(&self) -> (r: Self)
        ensures
            r.identity.id == self.identity.id,
            r.identity.name == self.identity.name,
            r.identity.display == self.identity.display,
            r.identity.former_identities@ == self.identity.former_identities@,
    {
        OsInfo { identity: self.identity.clone() }
    }
}

} // verus!
