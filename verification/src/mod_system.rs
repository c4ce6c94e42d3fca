//! Descriptions of loadable content packages.

use vstd::prelude::*;

verus! {

/// Lifecycle of a loaded package.
#[derive(Debug, Clone, PartialEq)]
pub enum ModState {
    Unloaded,
    Loaded,
    Active,
    Error(String),
}

/// Identification of a package.
#[derive(Debug, Clone)]
pub struct ModMetadata {
    pub id: String,
    pub name: String,
    pub version: String,
    pub author: String,
    pub description: Option<String>,
    pub license: Option<String>,
    pub homepage: Option<String>,
}

/// Where a package's code starts.
#[derive(Debug, Clone)]
pub struct ModEntrypoints {
    pub gameplay: Option<String>,
    pub ui: Option<String>,
    pub services: Vec<(String, String)>,
}

/// What files a package ships.
#[derive(Debug, Clone)]
pub struct ModResources {
    pub scripts: Vec<String>,
    pub assets: Vec<String>,
    pub configs: Vec<String>,
}

/// The API version a package declares when its manifest names none.
pub fn default_api_version() -> (s: String)
    ensures
        s@ == "1.0"@,
{
    String::from_str("1.0")
}

/// The package registry.
#[derive(Debug)]
pub struct Registry {
    entries: Vec<String>,
}

impl Registry {
    /// The registered identifiers, in registration order.
    pub closed spec fn spec_entries(&self) -> Seq<Seq<char>> {
        Seq::new(
            self.entries@.len(),
            |i: int|
                if 0 <= i < self.entries@.len() {
                    self.entries@[i]@
                } else {
                    Seq::empty()
                },
        )
    }

    /// An empty registry.
    pub fn new() -> (r: Registry)
        ensures
            r.spec_entries().len() == 0,
    {
        Registry { entries: Vec::new() }
    }
}

} // verus!
