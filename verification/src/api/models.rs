//! Requests and responses of the index API, and the server configuration.

use vstd::prelude::*;

verus! {

/// Declares an index.
#[derive(Debug)]
pub struct CreateIndexRequest {
    pub name: String,
    pub config: IndexConfigRequest,
}

/// Index settings asked for at declaration; each may be left to its default.
#[derive(Debug)]
pub struct IndexConfigRequest {
    pub nbits: Option<usize>,
    pub batch_size: Option<usize>,
    pub seed: Option<u64>,
    pub start_from_scratch: Option<usize>,
    pub max_documents: Option<usize>,
}

impl Default for IndexConfigRequest {
    fn default() -> (r: Self)
        ensures
            r.nbits is None,
            r.batch_size is None,
            r.seed is None,
            r.start_from_scratch is None,
            r.max_documents is None,
    {
        IndexConfigRequest {
            nbits: None,
            batch_size: None,
            seed: None,
            start_from_scratch: None,
            max_documents: None,
        }
    }
}

#[derive(Debug)]
pub struct CreateIndexResponse {
    pub name: String,
    pub config: IndexConfigStored,
    pub message: String,
}

/// The settings of an index as stored beside it.
#[derive(Clone, Copy, Debug, PartialEq, Eq)]
pub struct IndexConfigStored {
    pub nbits: usize,
    pub batch_size: usize,
    pub seed: Option<u64>,
    pub start_from_scratch: usize,
    pub max_documents: Option<usize>,
}

/// Value of `start_from_scratch` when a stored index configuration omits it.
pub fn default_start_from_scratch() -> (n: usize)
    ensures
        n == 999,
{
    999
}

#[derive(Debug)]
pub struct AddDocumentsResponse {
    pub documents_added: usize,
    pub total_documents: usize,
    pub start_id: usize,
}

#[derive(Debug)]
pub struct CheckMetadataRequest {
    pub document_ids: Vec<i64>,
}

#[derive(Debug)]
pub struct CheckMetadataResponse {
    pub existing_ids: Vec<i64>,
    pub missing_ids: Vec<i64>,
    pub existing_count: usize,
    pub missing_count: usize,
}

#[derive(Debug)]
pub struct QueryMetadataResponse {
    pub document_ids: Vec<i64>,
    pub count: usize,
}

#[derive(Debug)]
pub struct MetadataCountResponse {
    pub count: usize,
    pub has_metadata: bool,
}

#[derive(Debug)]
pub struct UpdateMetadataResponse {
    pub updated: usize,
}

#[derive(Debug)]
pub struct DeleteDocumentsResponse {
    pub deleted: usize,
    pub remaining: usize,
}

#[derive(Debug)]
pub struct DeleteIndexResponse {
    pub deleted: bool,
    pub name: String,
}

#[derive(Debug)]
pub struct UpdateIndexResponse {
    pub name: String,
    pub created: bool,
    pub documents_added: usize,
    pub total_documents: usize,
    pub num_embeddings: usize,
    pub num_partitions: usize,
    pub dimension: usize,
}

#[derive(Debug)]
pub struct UpdateIndexConfigRequest {
    pub max_documents: Option<usize>,
}

#[derive(Debug)]
pub struct UpdateIndexConfigResponse {
    pub name: String,
    pub config: IndexConfigStored,
    pub message: String,
}

/// Configuration of the API server.
#[derive(Debug)]
pub struct ApiConfig {
    /// Directory that holds one subdirectory per index.
    pub index_dir: String,
    pub default_top_k: usize,
}

impl Default for ApiConfig {
    fn default() -> (r: Self)
        ensures
            r.index_dir@ == "./indices"@,
            r.default_top_k == 10,
    {
        broadcast use vstd::string::group_string_axioms;

        ApiConfig { index_dir: "./indices".to_string(), default_top_k: 10 }
    }
}

} // verus!
