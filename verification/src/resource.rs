//! Decoded in-memory representations of project data, and the decode step
//! that turns raw backend bytes into them.
//!
//! Decoding happens exactly once per cache entry, at the moment a load
//! completes; a decode failure never yields a partially populated value.

use vstd::prelude::*;

use crate::errors::{CacheError, FormatError};
use crate::keys::KeyModel;
use crate::keys::ResourceKey;

verus! {

/// A mutable project document: a numbered record with a tileset reference
/// and an opaque body.
#[derive(Debug)]
pub struct Document {
    pub id: u32,
    pub tileset_id: u32,
    pub body: Vec<u8>,
}

/// The mathematical model of a document.
pub struct DocumentModel {
    pub id: int,
    pub tileset_id: int,
    pub body: Seq<u8>,
}

impl View for Document {
    type V = DocumentModel;

    open spec fn view(&self) -> DocumentModel {
        DocumentModel { id: self.id as int, tileset_id: self.tileset_id as int, body: self.body@ }
    }
}

/// A decoded resource value owned by the cache.
#[derive(Debug)]
pub enum Resource {
    /// A decoded, editable project document.
    Document(Document),
    /// Raw asset bytes (image or audio payload), kept as loaded.
    Asset(Vec<u8>),
}

/// The mathematical model of a resource value.
pub enum ResourceModel {
    Document(DocumentModel),
    Asset(Seq<u8>),
}

impl View for Resource {
    type V = ResourceModel;

    open spec fn view(&self) -> ResourceModel {
        match self {
            Resource::Document(d) => ResourceModel::Document(d@),
            Resource::Asset(b) => ResourceModel::Asset(b@),
        }
    }
}

/// An in-place edit of a cached document.
#[derive(Debug)]
pub enum Edit {
    SetTilesetId(u32),
    SetBody(Vec<u8>),
}

/// The mathematical model of an edit.
pub enum EditModel {
    SetTilesetId(int),
    SetBody(Seq<u8>),
}

impl View for Edit {
    type V = EditModel;

    open spec fn view(&self) -> EditModel {
        match self {
            Edit::SetTilesetId(t) => EditModel::SetTilesetId(*t as int),
            Edit::SetBody(b) => EditModel::SetBody(b@),
        }
    }
}

/// The value of four bytes read as a little-endian 32-bit integer.
pub open spec fn le_u32(b0: u8, b1: u8, b2: u8, b3: u8) -> int {
    b0 + 256 * b1 + 65536 * b2 + 16777216 * b3
}

/// How many leading bytes a document payload must carry: two little-endian
/// 32-bit fields, the document id and its tileset reference.
pub const DOCUMENT_HEADER_LEN: usize = 8;

/// What decoding a document payload yields: the two header fields and the
/// remaining body, or `Truncated` when the header does not fit.
pub open spec fn spec_decode_document(bytes: Seq<u8>) -> Result<DocumentModel, FormatError> {
    if bytes.len() < DOCUMENT_HEADER_LEN {
        Err(FormatError::Truncated)
    } else {
        Ok(
            DocumentModel {
                id: le_u32(bytes[0], bytes[1], bytes[2], bytes[3]),
                tileset_id: le_u32(bytes[4], bytes[5], bytes[6], bytes[7]),
                body: bytes.subrange(DOCUMENT_HEADER_LEN as int, bytes.len() as int),
            },
        )
    }
}

/// What decoding yields for a given key category: document keys carry a
/// document payload; asset keys keep their bytes, which must be non-empty.
pub open spec fn spec_decode(key: KeyModel, bytes: Seq<u8>) -> Result<ResourceModel, FormatError> {
    match key {
        KeyModel::DocumentId(_) => match spec_decode_document(bytes) {
            Ok(d) => Ok(ResourceModel::Document(d)),
            Err(e) => Err(e),
        },
        KeyModel::AssetPath(_) => if bytes.len() == 0 {
            Err(FormatError::Empty)
        } else {
            Ok(ResourceModel::Asset(bytes))
        },
    }
}

/// Reads the little-endian 32-bit integer at `off`.
pub fn read_le_u32(bytes: &Vec<u8>, off: usize) -> (r: u32)
    requires
        off + 4 <= bytes@.len(),
    ensures
        r == le_u32(bytes@[off as int], bytes@[off + 1], bytes@[off + 2], bytes@[off + 3]),
{
    let n = bytes.len();
    proof {
        assert(off + 4 <= n);
    }
    (bytes[off] as u32) + 256 * (bytes[off + 1] as u32) + 65536 * (bytes[off + 2] as u32)
        + 16777216 * (bytes[off + 3] as u32)
}

/// Converts raw backend bytes to the typed representation for `key`'s
/// category, exactly as [`spec_decode`] states.
pub fn decode_resource(key: &ResourceKey, bytes: Vec<u8>) -> (r: Result<Resource, FormatError>)
    ensures
        match spec_decode(key@, bytes@) {
            Ok(m) => r matches Ok(v) && v@ == m,
            Err(e) => r matches Err(a) && a == e,
        },
{
    match key {
        ResourceKey::DocumentId(_) => {
            if bytes.len() < DOCUMENT_HEADER_LEN {
                Err(FormatError::Truncated)
            } else {
                let id = read_le_u32(&bytes, 0);
                let tileset_id = read_le_u32(&bytes, 4);
                let mut rest = bytes;
                let body = rest.split_off(DOCUMENT_HEADER_LEN);
                Ok(Resource::Document(Document { id, tileset_id, body }))
            }
        },
        ResourceKey::AssetPath(_) => {
            if bytes.len() == 0 {
                Err(FormatError::Empty)
            } else {
                Ok(Resource::Asset(bytes))
            }
        },
    }
}

/// What an edit makes of a resource value: document edits replace the named
/// field; any edit against a raw asset is refused unchanged.
pub open spec fn spec_apply_edit(v: ResourceModel, e: EditModel) -> Result<
    ResourceModel,
    CacheError,
> {
    match v {
        ResourceModel::Document(d) => match e {
            EditModel::SetTilesetId(t) => Ok(
                ResourceModel::Document(DocumentModel { tileset_id: t, ..d }),
            ),
            EditModel::SetBody(b) => Ok(ResourceModel::Document(DocumentModel { body: b, ..d })),
        },
        ResourceModel::Asset(_) => Err(CacheError::WrongKind),
    }
}

impl Resource {
    /// Applies `edit` in place; on failure the value is left untouched.
    pub fn apply(&mut self, edit: Edit) -> (r: Result<(), CacheError>)
        ensures
            match spec_apply_edit(old(self)@, edit@) {
                Ok(m) => r matches Ok(u) && final(self)@ == m,
                Err(e) => r matches Err(a) && a == e && final(self)@ == old(self)@,
            },
    {
        match self {
            Resource::Document(d) => {
                match edit {
                    Edit::SetTilesetId(t) => {
                        d.tileset_id = t;
                    },
                    Edit::SetBody(b) => {
                        d.body = b;
                    },
                }
                Ok(())
            },
            Resource::Asset(_) => Err(CacheError::WrongKind),
        }
    }
}

} // verus!
