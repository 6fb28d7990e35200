//! The image store's data shapes: one record per discovered image, plus
//! the page's reverse-lookup set entry. The store calls themselves happen
//! outside the library.

use vstd::prelude::*;
use crate::pages::image::Image;
use crate::utils::constants::{image_prefix, key_of, page_images_prefix, store_key};

verus! {

/// One image's write: its record under `image_data:<source>`, with the
/// page and alt fields, and its membership in `page_images:<page>`.
pub struct ImageSaveEntry {
    pub image_key: String,
    pub page_url: String,
    pub alt: String,
    pub page_images_key: String,
    pub source_url: String,
}

/// Computes the write for every image of a round.
pub fn image_save_entries(images: &Vec<Image>) -> (r: Vec<ImageSaveEntry>)
    ensures
        r@.len() == images@.len(),
        forall|i: int|
            0 <= i < r@.len() ==> {
                let e = #[trigger] r@[i];
                &&& e.image_key@ == key_of("image_data"@, images@[i].normalized_source_url@)
                &&& e.page_url == images@[i].normalized_page_url
                &&& e.alt == images@[i].alt
                &&& e.page_images_key@ == key_of(
                    "page_images"@,
                    images@[i].normalized_page_url@,
                )
                &&& e.source_url == images@[i].normalized_source_url
            },
{
    let mut r: Vec<ImageSaveEntry> = Vec::new();
    let n = images.len();
    let mut i: usize = 0;
    while i < n
        invariant
            n == images@.len(),
            i <= n,
            r@.len() == i,
            forall|j: int|
                0 <= j < i ==> {
                    let e = #[trigger] r@[j];
                    &&& e.image_key@ == key_of(
                        "image_data"@,
                        images@[j].normalized_source_url@,
                    )
                    &&& e.page_url == images@[j].normalized_page_url
                    &&& e.alt == images@[j].alt
                    &&& e.page_images_key@ == key_of(
                        "page_images"@,
                        images@[j].normalized_page_url@,
                    )
                    &&& e.source_url == images@[j].normalized_source_url
                },
        decreases n - i,
    {
        let image = &images[i];
        let entry = ImageSaveEntry {
            image_key: store_key(image_prefix(), image.normalized_source_url.as_str()),
            page_url: image.normalized_page_url.clone(),
            alt: image.alt.clone(),
            page_images_key: store_key(page_images_prefix(), image.normalized_page_url.as_str()),
            source_url: image.normalized_source_url.clone(),
        };
        r.push(entry);
        i += 1;
    }
    r
}

} // verus!
