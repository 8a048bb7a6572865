//! The document store: a concurrent map from document identity to the latest
//! parsed unit for that document, replaced wholesale on every edit.
//!
//! The map itself is `dashmap::DashMap`, held behind a small trusted surface;
//! its contents are named by the uninterpreted function `store_contents`, and
//! every method states over that name what the `dashmap` source shows.

use vstd::prelude::*;

use crate::diagnostics::Diagnostic;
use crate::diagnostics::DiagnosticModel;
use crate::parser::SystemdUnit;
use crate::parser::UnitModel;

verus! {

/// A concurrent map from document identity to its latest parsed unit.
#[verifier::external_body]
pub struct DocumentStore {
    map: dashmap::DashMap<String, SystemdUnit>,
}

/// What a `DocumentStore` holds: each stored document identity, mapped to the
/// model of the unit stored under it.
pub uninterp spec fn store_contents(s: DocumentStore) -> Map<Seq<char>, UnitModel>;

impl DocumentStore {
    /// Relies on `dashmap::DashMap::new`: the new map is empty.
    #[verifier::external_body]
    pub fn new() -> (store: DocumentStore)
    {
        DocumentStore { map: dashmap::DashMap::new() }
    }

    /// Relies on `dashmap::DashMap::insert`: the entry under `id` is replaced
    /// by `unit`, and all other entries are unchanged.
    #[verifier::external_body]
    pub fn insert(&mut self, id: &str, unit: SystemdUnit)
        ensures
            store_contents(*final(self)) == store_contents(*old(self)).insert(id@, unit@),
    {
        self.map.insert(id.to_string(), unit);
    }

    /// Relies on `dashmap::DashMap::get`: returns a clone of the value stored
    /// under `id` if there is one, and `None` otherwise.
    #[verifier::external_body]
    pub fn get(&self, id: &str) -> (r: Option<SystemdUnit>)
        ensures
            match r {
                Some(unit) => store_contents(*self).contains_key(id@) && unit@ == store_contents(
                    *self,
                )[id@],
                None => !store_contents(*self).contains_key(id@),
            },
    {
        self.map.get(id).map(|entry| entry.value().clone())
    }
}


/// A concurrent map from document identity to its latest diagnostics.
#[verifier::external_body]
pub struct DiagnosticsStore {
    map: dashmap::DashMap<String, Vec<Diagnostic>>,
}

/// What a `DiagnosticsStore` holds: each stored document identity, mapped to
/// the models of the diagnostics stored under it.
pub uninterp spec fn diag_store_contents(s: DiagnosticsStore) -> Map<Seq<char>, Seq<
    DiagnosticModel,
>>;

impl DiagnosticsStore {
    /// Relies on `dashmap::DashMap::new`.
    #[verifier::external_body]
    pub fn new() -> (store: DiagnosticsStore)
    {
        DiagnosticsStore { map: dashmap::DashMap::new() }
    }

    /// Relies on `dashmap::DashMap::insert`: the entry under `id` is replaced
    /// by `diagnostics`, and all other entries are unchanged.
    #[verifier::external_body]
    pub fn insert(&mut self, id: &str, diagnostics: Vec<Diagnostic>)
        ensures
            diag_store_contents(*final(self)) == diag_store_contents(*old(self)).insert(
                id@,
                diagnostics.deep_view(),
            ),
    {
        self.map.insert(id.to_string(), diagnostics);
    }

    /// Relies on `dashmap::DashMap::get`: returns a clone of the diagnostics
    /// stored under `id` if there are any, and `None` otherwise.
    #[verifier::external_body]
    pub fn get(&self, id: &str) -> (r: Option<Vec<Diagnostic>>)
        ensures
            match r {
                Some(diagnostics) => diag_store_contents(*self).contains_key(id@)
                    && diagnostics.deep_view() == diag_store_contents(*self)[id@],
                None => !diag_store_contents(*self).contains_key(id@),
            },
    {
        self.map.get(id).map(|entry| entry.value().clone())
    }
}

} // verus!

