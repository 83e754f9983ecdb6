//! Logical resource identity.
//!
//! A [`ResourceKey`] names a cached resource: a numbered project document or
//! a path-addressed asset.  Equality is structural; the mathematical model of
//! a key is [`KeyModel`].

use vstd::prelude::*;

verus! {

/// The mathematical model of a key: an integer document number or a path as
/// a sequence of characters.
pub enum KeyModel {
    DocumentId(int),
    AssetPath(Seq<char>),
}

/// A discriminated resource identity, unique within its category.
#[derive(Debug)]
pub enum ResourceKey {
    /// A project document, addressed by its number.
    DocumentId(u32),
    /// An asset, addressed by its path inside the project tree.
    AssetPath(String),
}

impl View for ResourceKey {
    type V = KeyModel;

    open spec fn view(&self) -> KeyModel {
        match self {
            ResourceKey::DocumentId(n) => KeyModel::DocumentId(*n as int),
            ResourceKey::AssetPath(p) => KeyModel::AssetPath(p@),
        }
    }
}

impl ResourceKey {
    /// Structural equality of two keys.
    pub fn key_eq(&self, other: &ResourceKey) -> (r: bool)
        ensures
            r == (self@ == other@),
    {
        match (self, other) {
            (ResourceKey::DocumentId(a), ResourceKey::DocumentId(b)) => a == b,
            (ResourceKey::AssetPath(a), ResourceKey::AssetPath(b)) => *a == *b,
            _ => false,
        }
    }

    /// An owned copy of the key, equal to the original.
    pub fn duplicate(&self) -> (r: ResourceKey)
        ensures
            r@ == self@,
    {
        match self {
            ResourceKey::DocumentId(n) => ResourceKey::DocumentId(*n),
            ResourceKey::AssetPath(p) => ResourceKey::AssetPath(p.clone()),
        }
    }
}

} // verus!
