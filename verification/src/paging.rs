//! Paging through a provider's listing.

use vstd::prelude::*;

use crate::provider::OrgRepo;

verus! {

/// Page size for the listings that come in pages. It is GitLab's maximum, and
/// Gitea honours whatever it's given, so paging until a short page arrives is the
/// fewest round trips the tools allow and the loop that ends reliably.
pub const PAGE_SIZE: u32 = 100;

/// A listing being paged through: what came so far, and the page to ask for next.
#[derive(Debug)]
pub struct Listing {
    pub repos: Vec<OrgRepo>,
    pub page: u32,
    pub done: bool,
}

impl Listing {
    pub fn new() -> (r: Self)
        ensures
            r.repos@.len() == 0,
            r.page == 1,
            !r.done,
    {
        Listing { repos: Vec::new(), page: 1, done: false }
    }

    /// Take in a page. A page that is not full is the last one.
    pub fn take_page(self, page_repos: Vec<OrgRepo>) -> (r: Self)
        ensures
            r.repos@ == self.repos@ + page_repos@,
            r.done == (page_repos@.len() < PAGE_SIZE),
            r.page == (if page_repos@.len() < PAGE_SIZE {
                self.page as int
            } else {
                crate::number::wrap32(self.page + 1)
            }),
    {
        let mut listing = self;
        let mut more = page_repos;
        let last_page = more.len() < PAGE_SIZE as usize;
        listing.repos.append(&mut more);
        listing.done = last_page;
        if !last_page {
            listing.page = crate::number::add32(listing.page, 1);
        }
        listing
    }
}

} // verus!
