//! Paging through the release listing: which page to ask for next, what to do
//! with the page that came back, and when to stop.

use vstd::prelude::*;
use crate::json::{copy_value, document_of, items_of, parse_document};
use crate::request::{request_for, Request};

verus! {

/// How many records a full page holds.
pub const PAGE_SIZE: usize = 100;

/// Why a response could not be taken as a page.
#[derive(Debug, Clone, Copy, PartialEq, Eq, Structural)]
pub enum PageError {
    /// The body of the response is not JSON.
    NotJson,
}

/// The records of the page that a document holds: the items of an array, and
/// none for any other document.
pub open spec fn page_items(document: serde_json::Value) -> Seq<serde_json::Value> {
    match items_of(document) {
        Some(items) => items,
        None => Seq::empty(),
    }
}

/// The page that is due after a page of `count` records came back for page
/// `page`: the following page where that page was full, and no other page
/// where it was not.
pub open spec fn page_after(page: u64, count: nat) -> int {
    if count < PAGE_SIZE {
        page as int
    } else {
        page + 1
    }
}

/// The state of a walk through the pages of the listing.
pub struct Pager {
    page: u64,
    records: Vec<serde_json::Value>,
    done: bool,
}

impl Pager {
    /// The number of the page to ask for next.
    pub closed spec fn page(&self) -> u64 {
        self.page
    }

    /// The records gathered so far.
    pub closed spec fn records(&self) -> Seq<serde_json::Value> {
        self.records@
    }

    /// Whether the last page has been seen.
    pub closed spec fn done(&self) -> bool {
        self.done
    }

    /// Pages count from 1, and every page before the next one was full.
    pub closed spec fn wf(&self) -> bool {
        self.page >= 1 && (self.page - 1) * PAGE_SIZE <= self.records@.len()
    }

    /// A walk that has seen nothing yet and starts at page 1.
    pub fn new() -> (r: Pager)
        ensures
            r.wf(),
            r.page() == 1,
            r.records() == Seq::<serde_json::Value>::empty(),
            !r.done(),
    {
        Pager { page: 1, records: Vec::new(), done: false }
    }

    /// The page to ask for, or `None` once the last page has been seen.
    pub fn next_page(&self) -> (r: Option<u64>)
        ensures
            r == if self.done() {
                None
            } else {
                Some(self.page())
            },
    {
        if self.done {
            None
        } else {
            Some(self.page)
        }
    }

    /// The request to make next with an access token: that for the page
    /// that is due, or `None` once the last page has been seen.
    pub fn next_request(&self, token: &str) -> (r: Option<Request>)
        ensures
            r is None <==> self.done(),
            r matches Some(request) ==> request.is_for(self.page(), token@),
    {
        if self.done {
            None
        } else {
            Some(request_for(self.page, token))
        }
    }

    /// Whether the last page has been seen.
    pub fn is_done(&self) -> (r: bool)
        ensures
            r == self.done(),
    {
        self.done
    }

    /// How many records have been gathered.
    pub fn count(&self) -> (r: usize)
        ensures
            r == self.records().len(),
    {
        self.records.len()
    }

    /// Hands out the records gathered.
    pub fn into_records(self) -> (r: Vec<serde_json::Value>)
        ensures
            r@ == self.records(),
    {
        self.records
    }

    /// Takes the records of one page. A page that is not full is the last
    /// one; after a full page the next page is due.
    pub fn accept(&mut self, items: Vec<serde_json::Value>)
        requires
            old(self).wf(),
        ensures
            final(self).wf(),
            final(self).records() == old(self).records() + items@,
            final(self).done() == (items@.len() < PAGE_SIZE),
            final(self).page() == page_after(old(self).page(), items@.len()),
    {
        let mut items = items;
        let held = self.records.len();
        if items.len() < PAGE_SIZE {
            self.done = true;
        } else {
            // A full page lies behind every page but the first, so the page
            // number stays far below the limit of its type.
            assert(self.page - 1 <= held);
            self.done = false;
            self.page = self.page + 1;
        }
        self.records.append(&mut items);
    }

    /// Takes the page that a document holds. A document that is no array
    /// counts as an empty page.
    pub fn accept_document(&mut self, document: &serde_json::Value)
        requires
            old(self).wf(),
        ensures
            final(self).wf(),
            final(self).records() == old(self).records() + page_items(*document),
            final(self).done() == (page_items(*document).len() < PAGE_SIZE),
            final(self).page() == page_after(old(self).page(), page_items(*document).len()),
    {
        let mut items: Vec<serde_json::Value> = Vec::new();
        match document.as_array() {
            Some(found) => {
                let mut i: usize = 0;
                while i < found.len()
                    invariant
                        i <= found@.len(),
                        items@ == found@.take(i as int),
                    decreases found@.len() - i,
                {
                    items.push(copy_value(&found[i]));
                    assert(items@ =~= found@.take(i + 1));
                    i += 1;
                }
                assert(found@.take(i as int) =~= found@);
            },
            None => {},
        }
        self.accept(items);
    }

    /// Takes the page that the body of a response holds. A body that is not
    /// JSON is refused, and the walk stays as it was.
    pub fn accept_body(&mut self, body: &[u8]) -> (r: Result<(), PageError>)
        requires
            old(self).wf(),
        ensures
            final(self).wf(),
            match document_of(body@) {
                Some(document) => {
                    &&& r == Ok::<(), PageError>(())
                    &&& final(self).records() == old(self).records() + page_items(document)
                    &&& final(self).done() == (page_items(document).len() < PAGE_SIZE)
                    &&& final(self).page() == page_after(old(self).page(), page_items(document).len())
                },
                None => r == Err::<(), PageError>(PageError::NotJson) && *final(self) == *old(self),
            },
    {
        match parse_document(body) {
            Ok(document) => {
                self.accept_document(&document);
                Ok(())
            },
            Err(_) => Err(PageError::NotJson),
        }
    }
}

} // verus!
