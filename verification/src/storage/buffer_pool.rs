//! The page cache: an in-memory mapping from page identifiers to resident
//! pages, with a side table mapping page identifiers to backing file paths.
//!
//! The cache's only job is to materialize a page from its backing bytes and
//! keep it resident; it performs no eviction, write-back or pinning.  The
//! disk read itself happens outside the library: a caller looks the path up
//! with `get_path`, obtains the raw bytes, and hands them to `install_page`.

use crate::storage::page::page_wf;
use crate::storage::page::Page;
use std::collections::HashMap;
use vstd::prelude::*;

verus! {

broadcast use vstd::std_specs::hash::group_hash_axioms;

/// The failures the page cache can report.
#[derive(Debug, PartialEq, Eq, Structural)]
pub enum BufferPoolError {
    /// No backing path was registered for the page id.
    PageNotFound,
    /// The backing bytes could not be read or are not a valid page image.
    IoError,
}

/// The buffer pool: resident pages and the paths that back them.
pub struct BufferPool {
    page_paths: HashMap<u32, String>,
    pages: HashMap<u32, Page>,
}

impl BufferPool {
    /// The registered backing paths, by page id.
    pub closed spec fn paths(&self) -> Map<u32, String> {
        self.page_paths@
    }

    /// The resident pages, by page id.
    pub closed spec fn resident(&self) -> Map<u32, Page> {
        self.pages@
    }

    /// Every resident page is a well-formed page image.
    pub open spec fn wf(&self) -> bool {
        forall|id: u32|
            self.resident().contains_key(id) ==> page_wf((#[trigger] self.resident()[id])@)
    }

    /// An empty pool: no paths registered, no pages resident.
    pub fn new() -> (pool: BufferPool)
        ensures
            pool.wf(),
            pool.paths() == Map::<u32, String>::empty(),
            pool.resident() == Map::<u32, Page>::empty(),
    {
        BufferPool { page_paths: HashMap::new(), pages: HashMap::new() }
    }

    /// Register the backing path for a page id.  Idempotent; the last
    /// registration wins.
    pub fn add_page_path(&mut self, page_id: u32, path: String)
        requires
            old(self).wf(),
        ensures
            final(self).wf(),
            final(self).paths() == old(self).paths().insert(page_id, path),
            final(self).resident() == old(self).resident(),
    {
        self.page_paths.insert(page_id, path);
        proof {
            assert forall|id: u32| self.resident().contains_key(id) implies page_wf(
                (#[trigger] self.resident()[id])@,
            ) by {
                assert(old(self).resident().contains_key(id));
            }
        }
    }

    /// Look up the backing path registered for a page id.
    pub fn get_path(&self, page_id: u32) -> (r: Option<&String>)
        ensures
            match r {
                Some(path) => self.paths().contains_key(page_id) && *path
                    == self.paths()[page_id as u32],
                None => !self.paths().contains_key(page_id),
            },
    {
        self.page_paths.get(&page_id)
    }

    /// Look up the resident page for a page id.
    pub fn get_page(&self, page_id: u32) -> (r: Option<&Page>)
        requires
            self.wf(),
        ensures
            match r {
                Some(page) => {
                    &&& self.resident().contains_key(page_id)
                    &&& *page == self.resident()[page_id]
                    &&& page.wf()
                },
                None => !self.resident().contains_key(page_id),
            },
    {
        self.pages.get(&page_id)
    }

    /// Materialize a page from its backing bytes and cache it.
    ///
    /// Fails with `PageNotFound` when no path was registered for the id,
    /// and with `IoError` when the bytes are not a valid page image; in
    /// both cases the pool is unchanged.  On success the page built from
    /// the bytes replaces any previously resident page under that id, and a
    /// reference to it is returned.
    pub fn install_page(&mut self, page_id: u32, bytes: Vec<u8>) -> (r: Result<
        &Page,
        BufferPoolError,
    >)
        requires
            old(self).wf(),
        ensures
            final(self).wf(),
            final(self).paths() == old(self).paths(),
            match r {
                Ok(page) => {
                    &&& old(self).paths().contains_key(page_id)
                    &&& page_wf(bytes@)
                    &&& page@ == bytes@
                    &&& final(self).resident().contains_key(page_id)
                    &&& final(self).resident()[page_id]@ == bytes@
                    &&& final(self).resident() == old(self).resident().insert(
                        page_id,
                        final(self).resident()[page_id],
                    )
                },
                Err(e) => {
                    &&& final(self).resident() == old(self).resident()
                    &&& if e is PageNotFound {
                        !old(self).paths().contains_key(page_id)
                    } else {
                        old(self).paths().contains_key(page_id) && !page_wf(bytes@)
                    }
                },
            },
    {
        if !self.page_paths.contains_key(&page_id) {
            return Err(BufferPoolError::PageNotFound);
        }
        let page = match Page::from_bytes(bytes) {
            Some(p) => p,
            None => {
                return Err(BufferPoolError::IoError);
            },
        };
        self.pages.insert(page_id, page);
        proof {
            assert forall|id: u32| self.resident().contains_key(id) implies page_wf(
                (#[trigger] self.resident()[id])@,
            ) by {
                if id != page_id {
                    assert(old(self).resident().contains_key(id));
                    assert(self.resident()[id] == old(self).resident()[id]);
                }
            }
        }
        match self.pages.get(&page_id) {
            Some(p) => Ok(p),
            None => {
                proof {
                    assert(false);
                }
                Err(BufferPoolError::IoError)
            },
        }
    }
}

} // verus!
