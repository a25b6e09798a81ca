use vstd::prelude::*;

verus! {

/// Build configuration: the book's display name, the installation-unique
/// corpus id that guards cross-reference tokens, the source content root,
/// and a secondary language path that is parsed but not yet consumed.
pub struct ColeusConfig {
    pub name: String,
    pub id: String,
    pub path: String,
    pub lang_path: String,
}

} // verus!
