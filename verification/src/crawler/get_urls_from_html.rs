//! Link and image extraction: the HTML parser hands over raw `href` and
//! `src` attributes, and the verified logic filters malformed candidates,
//! resolves them against the page's URL, deduplicates links, and keys
//! images by their normalized source URL.

use vstd::prelude::*;
use vstd::string::StrSliceExecFns;
use crate::pages::image::ImageSource;
use crate::utils::normalize_url::{normalize_url, normalize_url_spec};
use crate::utils::url_parts::{parse_url, url_parse_ok};

verus! {

/// The `href` attributes of the document's `a[href]` elements, in document
/// order.
pub uninterp spec fn anchor_hrefs_of(html: Seq<char>) -> Seq<Seq<char>>;

/// The `src` and `alt` attributes of the document's `img[src]` elements,
/// in document order.
pub uninterp spec fn img_entries_of(html: Seq<char>) -> Seq<(Seq<char>, Option<Seq<char>>)>;

/// The absolute URL a reference resolves to against a base URL, if the
/// base parses and the reference joins onto it.
pub uninterp spec fn join_of(base: Seq<char>, href: Seq<char>) -> Option<Seq<char>>;

/// Relies on scraper's `Html::parse_document`, `select` with the `a[href]`
/// selector, and `attr`: the matched attributes are a function of the
/// document text alone, in document order.
#[verifier::external_body]
fn extract_anchor_hrefs(html: &str) -> (r: Vec<String>)
    ensures
        r.deep_view() == anchor_hrefs_of(html@),
{
    let doc = scraper::Html::parse_document(html);
    let sel = scraper::Selector::parse("a[href]").unwrap();
    doc.select(&sel).filter_map(|e| e.value().attr("href").map(|h| h.to_string())).collect()
}

/// Relies on scraper's `Html::parse_document`, `select` with the
/// `img[src]` selector, and `attr`: the matched attributes are a function
/// of the document text alone, in document order.
#[verifier::external_body]
fn extract_image_sources(html: &str) -> (r: Vec<ImageSource>)
    ensures
        r@.len() == img_entries_of(html@).len(),
        forall|i: int|
            0 <= i < r@.len() ==> (#[trigger] r@[i]).src@ == img_entries_of(html@)[i].0
                && r@[i].alt.deep_view() == img_entries_of(html@)[i].1,
{
    let doc = scraper::Html::parse_document(html);
    let sel = scraper::Selector::parse("img[src]").unwrap();
    doc.select(&sel).filter_map(
        |e|
            e.value().attr("src").map(
                |s|
                    ImageSource {
                        src: s.to_string(),
                        alt: e.value().attr("alt").map(|a| a.to_string()),
                    },
            ),
    ).collect()
}

/// Relies on `url::Url::parse` and `Url::join`: resolution of a reference
/// against a base is a function of the two strings alone.
#[verifier::external_body]
fn join_url(base: &str, href: &str) -> (r: Option<String>)
    ensures
        r.deep_view() == join_of(base@, href@),
{
    match url::Url::parse(base) {
        Ok(b) => match b.join(href) {
            Ok(u) => Some(String::from(u)),
            Err(_) => None,
        },
        Err(_) => None,
    }
}

/// A character an attribute may contain and still be a URL candidate:
/// printable ASCII other than `<`, `>`, `"` and the space.
pub open spec fn href_ok_char(c: char) -> bool {
    '!' <= c && c <= '~' && c != '<' && c != '>' && c != '"'
}

/// The attribute holds no markup, quote, space or non-ASCII character.
pub open spec fn href_clean(h: Seq<char>) -> bool {
    forall|i: int| 0 <= i < h.len() ==> href_ok_char(#[trigger] h[i])
}

/// The link a clean `href` contributes against the base, if it resolves.
pub open spec fn link_of(base: Seq<char>, href: Seq<char>) -> Option<Seq<char>> {
    if !href_clean(href) {
        None
    } else {
        join_of(base, href)
    }
}

/// Every resolved link of a batch of `href`s, in order, duplicates kept.
pub open spec fn joined_links(base: Seq<char>, hrefs: Seq<Seq<char>>) -> Seq<Seq<char>>
    decreases hrefs.len(),
{
    if hrefs.len() == 0 {
        Seq::empty()
    } else {
        joined_links(base, hrefs.drop_last()) + (match link_of(base, hrefs.last()) {
            Some(u) => seq![u],
            None => Seq::empty(),
        })
    }
}

/// A sequence with later duplicates dropped: each element keeps its first
/// position.
pub open spec fn dedup_first(s: Seq<Seq<char>>) -> Seq<Seq<char>>
    decreases s.len(),
{
    if s.len() == 0 {
        s
    } else {
        let rest = dedup_first(s.drop_last());
        if s.drop_last().contains(s.last()) {
            rest
        } else {
            rest.push(s.last())
        }
    }
}

/// Deduplication keeps exactly the elements of the original.
pub proof fn lemma_dedup_first_contains(s: Seq<Seq<char>>, x: Seq<char>)
    ensures
        dedup_first(s).contains(x) <==> s.contains(x),
    decreases s.len(),
{
    if s.len() > 0 {
        let d = s.drop_last();
        lemma_dedup_first_contains(d, x);
        assert(s.contains(x) <==> d.contains(x) || x == s.last()) by {
            if s.contains(x) {
                let i = choose|i: int| 0 <= i < s.len() && s[i] == x;
                if i < s.len() - 1 {
                    assert(d[i] == x);
                }
            }
            if d.contains(x) {
                let i = choose|i: int| 0 <= i < d.len() && d[i] == x;
                assert(s[i] == x);
            }
            if x == s.last() {
                assert(s[s.len() - 1] == x);
            }
        }
        let rest = dedup_first(d);
        if !d.contains(s.last()) {
            assert(dedup_first(s) == rest.push(s.last()));
            assert(rest.push(s.last()).contains(x) <==> rest.contains(x) || x == s.last()) by {
                if rest.push(s.last()).contains(x) {
                    let i = choose|i: int|
                        0 <= i < rest.push(s.last()).len() && rest.push(s.last())[i] == x;
                    if i < rest.len() {
                        assert(rest[i] == x);
                    }
                }
                if rest.contains(x) {
                    let i = choose|i: int| 0 <= i < rest.len() && rest[i] == x;
                    assert(rest.push(s.last())[i] == x);
                }
                if x == s.last() {
                    assert(rest.push(s.last())[rest.len() as int] == x);
                }
            }
        }
    }
}


/// The image key a `src` attribute contributes: clean, resolved against
/// the base, and normalized.
pub open spec fn img_key(base: Seq<char>, src: Seq<char>) -> Option<Seq<char>> {
    if !href_clean(src) {
        None
    } else {
        match join_of(base, src) {
            None => None,
            Some(u) => match normalize_url_spec(u) {
                Ok(n) => Some(n),
                Err(_) => None,
            },
        }
    }
}

/// The discovered images as a map: each normalized source URL to the alt
/// text of its last occurrence in the document.
pub open spec fn image_map_spec(
    base: Seq<char>,
    entries: Seq<(Seq<char>, Option<Seq<char>>)>,
) -> Map<Seq<char>, Option<Seq<char>>>
    decreases entries.len(),
{
    if entries.len() == 0 {
        Map::empty()
    } else {
        let m = image_map_spec(base, entries.drop_last());
        match img_key(base, entries.last().0) {
            Some(k) => m.insert(k, entries.last().1),
            None => m,
        }
    }
}

/// Why extraction can fail as a whole: the page's own URL does not parse,
/// so nothing can be resolved against it.
#[derive(Debug, Clone, Copy, PartialEq, Eq, Structural)]
pub enum ExtractError {
    BadBaseUrl,
}

/// The executable side of [`href_clean`].
fn href_is_clean(h: &str) -> (r: bool)
    ensures
        r == href_clean(h@),
{
    if !h.is_ascii() {
        proof {
            let i = choose|i: int| !(0 <= i < h@.len() ==> '\0' <= #[trigger] h@[i] <= '\u{7f}');
            assert(!href_ok_char(h@[i]));
        }
        return false;
    }
    let n = h.unicode_len();
    let mut i: usize = 0;
    while i < n
        invariant
            h.is_ascii(),
            n == h@.len(),
            i <= n,
            forall|j: int| 0 <= j < i ==> href_ok_char(#[trigger] h@[j]),
        decreases n - i,
    {
        let b = h.get_ascii(i);
        if b <= 32 || b >= 127 || b == 60 || b == 62 || b == 34 {
            return false;
        }
        i += 1;
    }
    true
}

fn vec_contains_string(v: &Vec<String>, x: &String) -> (r: bool)
    ensures
        r == v.deep_view().contains(x@),
{
    let n = v.len();
    let mut i: usize = 0;
    while i < n
        invariant
            n == v@.len(),
            i <= n,
            forall|j: int| 0 <= j < i ==> v.deep_view()[j] != x@,
        decreases n - i,
    {
        if v[i].eq(x) {
            proof {
                assert(v.deep_view()[i as int] == x@);
            }
            return true;
        }
        i += 1;
    }
    false
}

/// Extracts from a page's HTML the outbound links (absolute, filtered,
/// deduplicated, in first-seen order) and the images (keyed by normalized
/// source URL, the last occurrence's alt text winning), resolving both
/// against the page's own URL. Fails only when that URL does not parse.
pub fn get_urls_from_html(html_body: &str, raw_url: &str) -> (r: Result<
    (Vec<String>, Vec<ImageSource>),
    ExtractError,
>)
    ensures
        r is Err <==> !url_parse_ok(raw_url@),
        r matches Ok(p) ==> p.0.deep_view() == dedup_first(
            joined_links(raw_url@, anchor_hrefs_of(html_body@)),
        ),
        r matches Ok(p) ==> {
            let m = image_map_spec(raw_url@, img_entries_of(html_body@));
            &&& (forall|j: int, l: int|
                0 <= j < p.1@.len() && 0 <= l < p.1@.len() && j != l ==> (#[trigger] p.1@[j]).src@
                    != (#[trigger] p.1@[l]).src@)
            &&& (forall|j: int|
                0 <= j < p.1@.len() ==> m.dom().contains((#[trigger] p.1@[j]).src@)
                    && p.1@[j].alt.deep_view() == m[p.1@[j].src@])
            &&& (forall|k: Seq<char>| #[trigger]
                m.dom().contains(k) ==> exists|j: int|
                    0 <= j < p.1@.len() && (#[trigger] p.1@[j]).src@ == k)
        },
{
    if parse_url(raw_url).is_none() {
        return Err(ExtractError::BadBaseUrl);
    }
    let hrefs = extract_anchor_hrefs(html_body);
    let ghost hrefs_v = hrefs.deep_view();
    let mut links: Vec<String> = Vec::new();
    let n = hrefs.len();
    let mut i: usize = 0;
    while i < n
        invariant
            n == hrefs@.len(),
            hrefs_v == hrefs.deep_view(),
            hrefs_v.len() == n,
            i <= n,
            links.deep_view() == dedup_first(
                joined_links(raw_url@, hrefs_v.subrange(0, i as int)),
            ),
        decreases n - i,
    {
        let ghost prefix = hrefs_v.subrange(0, i as int);
        let ghost prefix2 = hrefs_v.subrange(0, i + 1);
        proof {
            assert(prefix2.drop_last() =~= prefix);
            assert(prefix2.last() == hrefs_v[i as int]);
            assert(hrefs.deep_view()[i as int] == hrefs@[i as int]@);
        }
        let href = &hrefs[i];
        if href_is_clean(href.as_str()) {
            match join_url(raw_url, href.as_str()) {
                Some(u) => {
                    proof {
                        assert(link_of(raw_url@, hrefs_v[i as int]) == Some(u@));
                        assert(joined_links(raw_url@, prefix2) =~= joined_links(
                            raw_url@,
                            prefix,
                        ).push(u@));
                        lemma_dedup_first_contains(joined_links(raw_url@, prefix), u@);
                        assert(joined_links(raw_url@, prefix2).drop_last() =~= joined_links(
                            raw_url@,
                            prefix,
                        ));
                    }
                    if !vec_contains_string(&links, &u) {
                        let ghost before = links.deep_view();
                        links.push(u);
                        proof {
                            assert(links.deep_view() =~= before.push(
                                joined_links(raw_url@, prefix2).last(),
                            ));
                        }
                    }
                },
                None => {
                    proof {
                        assert(link_of(raw_url@, hrefs_v[i as int]) is None);
                        assert(joined_links(raw_url@, prefix2) =~= joined_links(raw_url@, prefix));
                    }
                },
            }
        } else {
            proof {
                assert(link_of(raw_url@, hrefs_v[i as int]) is None);
                assert(joined_links(raw_url@, prefix2) =~= joined_links(raw_url@, prefix));
            }
        }
        i += 1;
    }
    proof {
        assert(hrefs_v.subrange(0, n as int) =~= hrefs_v);
    }
    let img_entries = extract_image_sources(html_body);
    let ghost entries_v = img_entries_of(html_body@);
    let mut images: Vec<ImageSource> = Vec::new();
    let m = img_entries.len();
    let mut j: usize = 0;
    while j < m
        invariant
            m == img_entries@.len(),
            entries_v == img_entries_of(html_body@),
            entries_v.len() == m,
            j <= m,
            forall|a: int|
                0 <= a < m ==> (#[trigger] img_entries@[a]).src@ == entries_v[a].0
                    && img_entries@[a].alt.deep_view() == entries_v[a].1,
            forall|a: int, b: int|
                0 <= a < images@.len() && 0 <= b < images@.len() && a != b ==> (
                #[trigger] images@[a]).src@ != (#[trigger] images@[b]).src@,
            forall|a: int|
                0 <= a < images@.len() ==> image_map_spec(
                    raw_url@,
                    entries_v.subrange(0, j as int),
                ).dom().contains((#[trigger] images@[a]).src@) && images@[a].alt.deep_view()
                    == image_map_spec(raw_url@, entries_v.subrange(0, j as int))[images@[a].src@],
            forall|k: Seq<char>| #[trigger]
                image_map_spec(raw_url@, entries_v.subrange(0, j as int)).dom().contains(k)
                    ==> exists|a: int| 0 <= a < images@.len() && (#[trigger] images@[a]).src@ == k,
        decreases m - j,
    {
        let ghost eprefix = entries_v.subrange(0, j as int);
        let ghost eprefix2 = entries_v.subrange(0, j + 1);
        proof {
            assert(eprefix2.drop_last() =~= eprefix);
            assert(eprefix2.last() == entries_v[j as int]);
        }
        let entry = &img_entries[j];
        if href_is_clean(entry.src.as_str()) {
            match join_url(raw_url, entry.src.as_str()) {
                Some(u) => {
                    match normalize_url(u.as_str()) {
                        Ok(norm) => {
                            proof {
                                assert(img_key(raw_url@, entries_v[j as int].0) == Some(norm@));
                                assert(image_map_spec(raw_url@, eprefix2) == image_map_spec(
                                    raw_url@,
                                    eprefix,
                                ).insert(norm@, entries_v[j as int].1));
                            }
                            let alt = match &entry.alt {
                                Some(a) => Some(a.clone()),
                                None => None,
                            };
                            let record = ImageSource { src: norm, alt };
                            proof {
                                assert(record.alt.deep_view() == entries_v[j as int].1);
                            }
                            let ghost k = record.src@;
                            let mut idx_opt: Option<usize> = None;
                            let ilen = images.len();
                            let mut a: usize = 0;
                            while a < ilen && idx_opt.is_none()
                                invariant
                                    ilen == images@.len(),
                                    a <= ilen,
                                    k == record.src@,
                                    idx_opt is None ==> forall|b: int|
                                        0 <= b < a ==> (#[trigger] images@[b]).src@ != k,
                                    idx_opt matches Some(x) ==> x < ilen && images@[
                                        x as int
                                    ].src@ == k,
                                decreases ilen - a + (if idx_opt is None {
                                    1int
                                } else {
                                    0int
                                }),
                            {
                                if images[a].src.eq(&record.src) {
                                    idx_opt = Some(a);
                                } else {
                                    a += 1;
                                }
                            }
                            let ghost imgs_before = images@;
                            let ghost map2 = image_map_spec(raw_url@, eprefix2);
                            match idx_opt {
                                Some(idx) => {
                                    images[idx] = record;
                                    proof {
                                        assert(images@ =~= imgs_before.update(
                                            idx as int,
                                            images@[idx as int],
                                        ));
                                        assert(images@[idx as int].src@ == k);
                                        assert(map2.dom() =~= image_map_spec(
                                            raw_url@,
                                            eprefix,
                                        ).dom().insert(k));
                                        assert forall|k2: Seq<char>| #[trigger]
                                            map2.dom().contains(k2) implies exists|b: int|
                                            0 <= b < images@.len() && (#[trigger] images@[b]).src@
                                                == k2 by {
                                            if k2 == k {
                                                assert(images@[idx as int].src@ == k2);
                                            } else {
                                                let b = choose|b: int|
                                                    0 <= b < imgs_before.len() && (
                                                    #[trigger] imgs_before[b]).src@ == k2;
                                                assert(images@[b].src@ == k2);
                                            }
                                        }
                                    }
                                },
                                None => {
                                    images.push(record);
                                    proof {
                                        assert(images@ =~= imgs_before.push(
                                            images@[imgs_before.len() as int],
                                        ));
                                        assert(images@[imgs_before.len() as int].src@ == k);
                                        assert(map2.dom() =~= image_map_spec(
                                            raw_url@,
                                            eprefix,
                                        ).dom().insert(k));
                                        assert forall|k2: Seq<char>| #[trigger]
                                            map2.dom().contains(k2) implies exists|b: int|
                                            0 <= b < images@.len() && (#[trigger] images@[b]).src@
                                                == k2 by {
                                            if k2 == k {
                                                assert(images@[imgs_before.len() as int].src@
                                                    == k2);
                                            } else {
                                                let b = choose|b: int|
                                                    0 <= b < imgs_before.len() && (
                                                    #[trigger] imgs_before[b]).src@ == k2;
                                                assert(images@[b].src@ == k2);
                                            }
                                        }
                                    }
                                },
                            }
                        },
                        Err(_) => {
                            proof {
                                assert(img_key(raw_url@, entries_v[j as int].0) is None);
                                assert(image_map_spec(raw_url@, eprefix2) == image_map_spec(
                                    raw_url@,
                                    eprefix,
                                ));
                            }
                        },
                    }
                },
                None => {
                    proof {
                        assert(img_key(raw_url@, entries_v[j as int].0) is None);
                        assert(image_map_spec(raw_url@, eprefix2) == image_map_spec(
                            raw_url@,
                            eprefix,
                        ));
                    }
                },
            }
        } else {
            proof {
                assert(img_key(raw_url@, entries_v[j as int].0) is None);
                assert(image_map_spec(raw_url@, eprefix2) == image_map_spec(raw_url@, eprefix));
            }
        }
        j += 1;
    }
    proof {
        assert(entries_v.subrange(0, m as int) =~= entries_v);
    }
    Ok((links, images))
}

} // verus!
