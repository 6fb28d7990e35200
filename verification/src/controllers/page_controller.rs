//! The page store's data shapes: what gets written for each crawled page,
//! and how the records read back become pages again. The store calls
//! themselves happen outside the library.

use vstd::prelude::*;
use crate::pages::page::{from_hash_spec, page_wf, records_page, Page, PageError, PageRecord};
use crate::utils::constants::{key_of, page_prefix, store_key};

verus! {

/// One page's write: the store key it lives under — also the reference
/// pushed to the indexer queue — and its field record.
pub struct PageSaveEntry {
    pub page_key: String,
    pub record: PageRecord,
}

/// Computes the write for every page of a round: key `page_data:<url>` and
/// the page's full record.
pub fn page_save_entries(pages: &Vec<Page>) -> (r: Vec<PageSaveEntry>)
    requires
        forall|i: int| 0 <= i < pages@.len() ==> page_wf(#[trigger] pages@[i]),
    ensures
        r@.len() == pages@.len(),
        forall|i: int|
            0 <= i < r@.len() ==> (#[trigger] r@[i]).page_key@ == key_of(
                "page_data"@,
                pages@[i].normalized_url@,
            ) && records_page(r@[i].record, pages@[i]),
{
    let mut r: Vec<PageSaveEntry> = Vec::new();
    let n = pages.len();
    let mut i: usize = 0;
    while i < n
        invariant
            n == pages@.len(),
            i <= n,
            r@.len() == i,
            forall|j: int| 0 <= j < pages@.len() ==> page_wf(#[trigger] pages@[j]),
            forall|j: int|
                0 <= j < i ==> (#[trigger] r@[j]).page_key@ == key_of(
                    "page_data"@,
                    pages@[j].normalized_url@,
                ) && records_page(r@[j].record, pages@[j]),
        decreases n - i,
    {
        let page = &pages[i];
        let entry = PageSaveEntry {
            page_key: store_key(page_prefix(), page.normalized_url.as_str()),
            record: page.to_hash(),
        };
        r.push(entry);
        i += 1;
    }
    r
}

/// Decodes the records read back from the page store; any record that
/// fails to decode fails the whole read, as its error.
pub fn collect_pages(records: &Vec<PageRecord>) -> (r: Result<Vec<Page>, PageError>)
    ensures
        r is Ok <==> (forall|i: int|
            0 <= i < records@.len() ==> (#[trigger] from_hash_spec(records@[i])) is Ok),
        r matches Ok(v) ==> v@.len() == records@.len() && (forall|i: int|
            0 <= i < v@.len() ==> Ok::<Page, PageError>(#[trigger] v@[i]) == from_hash_spec(
                records@[i],
            )),
{
    let mut v: Vec<Page> = Vec::new();
    let n = records.len();
    let mut i: usize = 0;
    while i < n
        invariant
            n == records@.len(),
            i <= n,
            v@.len() == i,
            forall|j: int| 0 <= j < i ==> (#[trigger] from_hash_spec(records@[j])) is Ok,
            forall|j: int|
                0 <= j < i ==> Ok::<Page, PageError>(#[trigger] v@[j]) == from_hash_spec(
                    records@[j],
                ),
        decreases n - i,
    {
        match Page::from_hash(&records[i]) {
            Ok(page) => {
                v.push(page);
            },
            Err(e) => {
                return Err(e);
            },
        }
        i += 1;
    }
    Ok(v)
}

} // verus!
