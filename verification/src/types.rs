//! The document record of the key-value blob store, and the
//! request/response records of its service surface.
//!
//! Document components are 64-bit binary IEEE-754 bit patterns, carried
//! as `u64`; the unverified edge converts on the way in and out.

use vstd::prelude::*;
use std::collections::HashMap;

verus! {

/// A keyed vector document. `vector` holds binary64 bit patterns.
#[derive(Debug, Clone, PartialEq)]
pub struct VectorDocument {
    pub key: String,
    pub vector: Vec<u64>,
    pub metadata: Option<HashMap<String, String>>,
}

/// Request to store a document.
#[derive(Debug)]
pub struct StoreVectorRequest {
    pub key: String,
    pub vector: Vec<u64>,
    pub metadata: Option<HashMap<String, String>>,
}

/// Request to retrieve a document by key.
#[derive(Debug)]
pub struct RetrieveVectorRequest {
    pub key: String,
}

/// Request to replace a document.
#[derive(Debug)]
pub struct UpdateVectorRequest {
    pub key: String,
    pub vector: Vec<u64>,
    pub metadata: Option<HashMap<String, String>>,
}

/// Request to delete a document by key.
#[derive(Debug)]
pub struct DeleteDocumentRequest {
    pub key: String,
}

/// Request to find the documents whose key contains a query string.
#[derive(Debug)]
pub struct SearchDocumentsRequest {
    pub query: String,
}

/// Outcome of storing a document.
#[derive(Debug)]
pub struct StoreVectorResponse {
    pub success: bool,
    pub message: String,
}

/// Outcome of retrieving a document.
#[derive(Debug)]
pub struct RetrieveVectorResponse {
    pub success: bool,
    pub vector: Option<VectorDocument>,
    pub message: String,
}

/// Outcome of replacing a document.
#[derive(Debug)]
pub struct UpdateVectorResponse {
    pub success: bool,
    pub message: String,
}

/// Outcome of deleting a document.
#[derive(Debug)]
pub struct DeleteDocumentResponse {
    pub success: bool,
    pub message: String,
}

/// Outcome of a key search.
#[derive(Debug)]
pub struct SearchDocumentsResponse {
    pub success: bool,
    pub results: Vec<VectorDocument>,
    pub message: String,
}

} // verus!
