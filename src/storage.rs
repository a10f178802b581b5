//! The backing store of the two caches: a key-value interface over JSON
//! texts in four namespaces, a store that always misses, and the file
//! layout of a store on disk.
use vstd::prelude::*;
use crate::cache::{GraphCacheKey, sha256_hex_of};

verus! {

/// A failure of the backing store.
#[derive(Debug, Clone)]
pub struct StorageError {
    pub message: String,
}

/// A key-value store of JSON texts: raw PDFs, extractor outputs,
/// preprocessor outputs and graphs.
pub trait DocumentStorage {
    fn get_pdf(&self, hash: &str) -> Result<Option<Vec<u8>>, StorageError>;

    fn store_pdf(&self, hash: &str, data: &[u8]) -> Result<(), StorageError>;

    fn get_tika_output(&self, pdf_hash: &str) -> Result<Option<String>, StorageError>;

    fn store_tika_output(&self, pdf_hash: &str, json: &str) -> Result<(), StorageError>;

    fn get_preprocessor_output(&self, pdf_hash: &str) -> Result<Option<String>, StorageError>;

    fn store_preprocessor_output(&self, pdf_hash: &str, json: &str) -> Result<(), StorageError>;

    fn get_graph_output(&self, cache_key: &GraphCacheKey) -> Result<Option<String>, StorageError>;

    fn store_graph_output(&self, cache_key: &GraphCacheKey, json: &str) -> Result<(), StorageError>;
}

/// A store that holds nothing: every read misses (`Ok(None)`), every write
/// succeeds (`Ok(())`).
pub struct NoOpStorage;

impl NoOpStorage {
    pub fn new() -> (r: NoOpStorage) {
        NoOpStorage
    }
}

impl DocumentStorage for NoOpStorage {
    fn get_pdf(&self, hash: &str) -> (r: Result<Option<Vec<u8>>, StorageError>)
        ensures
            r matches Ok(None),
    {
        Ok(None)
    }

    fn store_pdf(&self, hash: &str, data: &[u8]) -> (r: Result<(), StorageError>)
        ensures
            r is Ok,
    {
        Ok(())
    }

    fn get_tika_output(&self, pdf_hash: &str) -> (r: Result<Option<String>, StorageError>)
        ensures
            r matches Ok(None),
    {
        Ok(None)
    }

    fn store_tika_output(&self, pdf_hash: &str, json: &str) -> (r: Result<(), StorageError>)
        ensures
            r is Ok,
    {
        Ok(())
    }

    fn get_preprocessor_output(&self, pdf_hash: &str) -> (r: Result<Option<String>, StorageError>)
        ensures
            r matches Ok(None),
    {
        Ok(None)
    }

    fn store_preprocessor_output(&self, pdf_hash: &str, json: &str) -> (r: Result<(), StorageError>)
        ensures
            r is Ok,
    {
        Ok(())
    }

    fn get_graph_output(&self, cache_key: &GraphCacheKey) -> (r: Result<Option<String>, StorageError>)
        ensures
            r matches Ok(None),
    {
        Ok(None)
    }

    fn store_graph_output(&self, cache_key: &GraphCacheKey, json: &str) -> (r: Result<(), StorageError>)
        ensures
            r is Ok,
    {
        Ok(())
    }
}

/// The file layout of a store rooted at `cache_dir`:
/// `pdfs/<hash>.pdf`, `tika/<hash>.json`, `preprocessor/<hash>.json`,
/// `graph/<key hash>.json`.
#[derive(Debug, Clone)]
pub struct FileStorage {
    pub cache_dir: String,
}

fn entry_path(dir: &str, space: &str, name: &str, ext: &str) -> (r: String)
    ensures
        r@ == dir@ + "/"@ + space@ + "/"@ + name@ + ext@,
{
    let mut s = String::from_str(dir);
    s.append("/");
    s.append(space);
    s.append("/");
    s.append(name);
    s.append(ext);
    s
}

impl FileStorage {
    pub fn new(cache_dir: &str) -> (r: FileStorage)
        ensures
            r.cache_dir@ == cache_dir@,
    {
        FileStorage { cache_dir: String::from_str(cache_dir) }
    }

    pub fn pdf_path(&self, hash: &str) -> (r: String)
        ensures
            r@ == self.cache_dir@ + "/"@ + "pdfs"@ + "/"@ + hash@ + ".pdf"@,
    {
        entry_path(self.cache_dir.as_str(), "pdfs", hash, ".pdf")
    }

    pub fn tika_path(&self, hash: &str) -> (r: String)
        ensures
            r@ == self.cache_dir@ + "/"@ + "tika"@ + "/"@ + hash@ + ".json"@,
    {
        entry_path(self.cache_dir.as_str(), "tika", hash, ".json")
    }

    pub fn preprocessor_path(&self, hash: &str) -> (r: String)
        ensures
            r@ == self.cache_dir@ + "/"@ + "preprocessor"@ + "/"@ + hash@ + ".json"@,
    {
        entry_path(self.cache_dir.as_str(), "preprocessor", hash, ".json")
    }

    pub fn graph_path(&self, cache_key: &GraphCacheKey) -> (r: String)
        ensures
            r@ == self.cache_dir@ + "/"@ + "graph"@ + "/"@ + sha256_hex_of(cache_key.spec_key_bytes()) + ".json"@,
    {
        let h = cache_key.to_cache_hash();
        entry_path(self.cache_dir.as_str(), "graph", h.as_str(), ".json")
    }
}

} // verus!
