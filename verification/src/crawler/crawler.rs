//! The link-graph accumulator: one round's pages, outlinks, backlinks and
//! images, gated by the crawl-size limit. Every operation states exactly
//! what it does to the accumulator's maps, and well-formedness — including
//! the capacity bound on the page count — is preserved by all of them.

use vstd::prelude::*;
use crate::pages::image::{Image, ImageSource};
use crate::pages::page::{page_wf, Page};
use crate::pages::page_node::PageNode;
use crate::crawler::graph::{
    find_node, has_node, lemma_node_index_unique, lemma_nodes_map_no_self, lemma_nodes_map_push,
    lemma_nodes_map_update, node_links, node_urls, nodes_map, nodes_wf,
};
use crate::utils::is_valid_url::{is_valid_url, is_valid_url_spec};
use crate::utils::normalize_url::{normalize_url, normalize_url_spec};

verus! {

/// Why a page was not recorded: already present this round, or the round
/// has reached its size limit.
#[derive(Debug, Clone, Copy, PartialEq, Eq, Structural)]
pub enum AddPageError {
    Duplicate,
    Capacity,
}

/// One round's accumulated state, handed out by
/// [`CrawlerConfig::drain_and_clear`] for persistence.
pub struct CrawlerRoundState {
    pub pages: Vec<Page>,
    pub outlinks: Vec<PageNode>,
    pub backlinks: Vec<PageNode>,
    pub images: Vec<Image>,
}

/// The shared accumulator. The collections are reachable only through the
/// operations below; callers in need of the data take the whole round state
/// out with [`CrawlerConfig::drain_and_clear`].
pub struct CrawlerConfig {
    pages: Vec<Page>,
    outlinks: Vec<PageNode>,
    backlinks: Vec<PageNode>,
    images: Vec<Image>,
    max_pages: usize,
    max_concurrency: usize,
}

/// The page key a discovered link contributes, if it passes the syntactic
/// filter and normalizes.
pub open spec fn link_target(l: Seq<char>) -> Option<Seq<char>> {
    if !is_valid_url_spec(l) {
        None
    } else {
        match normalize_url_spec(l) {
            Ok(t) => Some(t),
            Err(_) => None,
        }
    }
}

/// The page keys that a batch of discovered links adds to the graph for a
/// page `cur`: every target of a link in the batch, minus `cur` itself.
pub open spec fn accepted_targets(cur: Seq<char>, links: Seq<Seq<char>>) -> Set<Seq<char>> {
    Set::new(
        |t: Seq<char>|
            t != cur && exists|i: int|
                0 <= i < links.len() && link_target(#[trigger] links[i]) == Some(t),
    )
}

/// What a batch of links from `cur` does to the two graph sides: the
/// source page's outlink set gains the accepted targets, each accepted
/// target's backlink set gains the source, and every other entry stays.
pub open spec fn graphs_updated(
    o: CrawlerConfig,
    n: CrawlerConfig,
    cur: Seq<char>,
    links: Seq<Seq<char>>,
) -> bool {
    let acc = accepted_targets(cur, links);
    &&& n.outlinks_map() == o.outlinks_map().insert(
        cur,
        (if o.outlinks_map().dom().contains(cur) {
            o.outlinks_map()[cur]
        } else {
            Set::empty()
        }).union(acc),
    )
    &&& n.backlinks_map().dom() == o.backlinks_map().dom().union(acc)
    &&& (forall|k: Seq<char>| #[trigger]
        acc.contains(k) ==> n.backlinks_map()[k] == (if o.backlinks_map().dom().contains(k) {
            o.backlinks_map()[k]
        } else {
            Set::empty()
        }).insert(cur))
    &&& (forall|k: Seq<char>|
        o.backlinks_map().dom().contains(k) && !acc.contains(k) ==> n.backlinks_map()[k]
            == o.backlinks_map()[k])
}

/// Everything [`CrawlerConfig::update_links`] does: the graph moves as
/// [`graphs_updated`] says, and nothing else does.
pub open spec fn update_links_post(
    o: CrawlerConfig,
    n: CrawlerConfig,
    cur: Seq<char>,
    links: Seq<Seq<char>>,
) -> bool {
    &&& n.pages_view() == o.pages_view()
    &&& n.images_view() == o.images_view()
    &&& n.spec_max_pages() == o.spec_max_pages()
    &&& n.spec_max_concurrency() == o.spec_max_concurrency()
    &&& graphs_updated(o, n, cur, links)
}

impl CrawlerConfig {
    pub closed spec fn pages_view(&self) -> Seq<Page> {
        self.pages@
    }

    pub closed spec fn outlinks_nodes(&self) -> Seq<PageNode> {
        self.outlinks@
    }

    pub closed spec fn backlinks_nodes(&self) -> Seq<PageNode> {
        self.backlinks@
    }

    pub closed spec fn images_view(&self) -> Seq<Image> {
        self.images@
    }

    pub closed spec fn spec_max_pages(&self) -> nat {
        self.max_pages as nat
    }

    pub closed spec fn spec_max_concurrency(&self) -> nat {
        self.max_concurrency as nat
    }

    /// The outlinks side of the graph, as a map from page key to link set.
    pub open spec fn outlinks_map(&self) -> Map<Seq<char>, Set<Seq<char>>> {
        nodes_map(self.outlinks_nodes())
    }

    /// The backlinks side of the graph, as a map from page key to link set.
    pub open spec fn backlinks_map(&self) -> Map<Seq<char>, Set<Seq<char>>> {
        nodes_map(self.backlinks_nodes())
    }

    /// The keys of the pages recorded this round, in insertion order.
    pub open spec fn page_urls(&self) -> Seq<Seq<char>> {
        self.pages_view().map_values(|p: Page| p.normalized_url@)
    }

    pub open spec fn has_page(&self, k: Seq<char>) -> bool {
        self.page_urls().contains(k)
    }

    /// The accumulator's invariant: page keys unique, the page count within
    /// the round's limit, every page's timestamp in range, and both graph
    /// sides well-formed (unique keys, deduplicated link sets, no
    /// self-links).
    pub open spec fn wf(&self) -> bool {
        &&& self.page_urls().no_duplicates()
        &&& self.pages_view().len() <= self.spec_max_pages()
        &&& (forall|i: int|
            0 <= i < self.pages_view().len() ==> page_wf(#[trigger] self.pages_view()[i]))
        &&& nodes_wf(self.outlinks_nodes())
        &&& nodes_wf(self.backlinks_nodes())
    }

    pub fn new(max_pages: usize, max_concurrency: usize) -> (r: CrawlerConfig)
        ensures
            r.wf(),
            r.pages_view() == Seq::<Page>::empty(),
            r.outlinks_nodes() == Seq::<PageNode>::empty(),
            r.backlinks_nodes() == Seq::<PageNode>::empty(),
            r.images_view() == Seq::<Image>::empty(),
            r.spec_max_pages() == max_pages as nat,
            r.spec_max_concurrency() == max_concurrency as nat,
    {
        let r = CrawlerConfig {
            pages: Vec::new(),
            outlinks: Vec::new(),
            backlinks: Vec::new(),
            images: Vec::new(),
            max_pages,
            max_concurrency,
        };
        proof {
            assert(r.page_urls() =~= Seq::<Seq<char>>::empty());
            assert(node_urls(r.outlinks_nodes()) =~= Seq::<Seq<char>>::empty());
            assert(node_urls(r.backlinks_nodes()) =~= Seq::<Seq<char>>::empty());
        }
        r
    }

    pub fn len_pages(&self) -> (r: usize)
        ensures
            r == self.pages_view().len(),
    {
        self.pages.len()
    }

    pub fn max_pages_reached(&self) -> (r: bool)
        ensures
            r == (self.pages_view().len() >= self.spec_max_pages()),
    {
        self.pages.len() >= self.max_pages
    }

    /// Records a freshly crawled page, unless its key is already present
    /// (`Duplicate`) or the round is full (`Capacity`). This is the only
    /// gate on the crawl-size limit: under it, the page count can never
    /// pass `max_pages`.
    pub fn add_page(&mut self, page: Page) -> (r: Result<(), AddPageError>)
        requires
            old(self).wf(),
            page_wf(page),
        ensures
            final(self).wf(),
            final(self).spec_max_pages() == old(self).spec_max_pages(),
            final(self).spec_max_concurrency() == old(self).spec_max_concurrency(),
            final(self).outlinks_nodes() == old(self).outlinks_nodes(),
            final(self).backlinks_nodes() == old(self).backlinks_nodes(),
            final(self).images_view() == old(self).images_view(),
            match r {
                Ok(()) => !old(self).has_page(page.normalized_url@) && old(self).pages_view().len() < old(self).spec_max_pages() && final(self).pages_view()
                    == old(self).pages_view().push(page),
                Err(AddPageError::Duplicate) => old(self).has_page(page.normalized_url@) && final(self).pages_view() == old(self).pages_view(),
                Err(AddPageError::Capacity) => !old(self).has_page(page.normalized_url@) && old(self).pages_view().len() >= old(self).spec_max_pages() && final(self).pages_view()
                    == old(self).pages_view(),
            },
    {
        let n = self.pages.len();
        let mut i: usize = 0;
        while i < n
            invariant
                *self == *old(self),
                old(self).wf(),
                n == self.pages@.len(),
                i <= n,
                forall|j: int| 0 <= j < i ==> (#[trigger] self.pages@[j]).normalized_url@
                    != page.normalized_url@,
            decreases n - i,
        {
            if self.pages[i].normalized_url.eq(&page.normalized_url) {
                proof {
                    assert(self.page_urls()[i as int] == page.normalized_url@);
                }
                return Err(AddPageError::Duplicate);
            }
            i += 1;
        }
        proof {
            assert forall|j: int|
                0 <= j < self.page_urls().len() implies self.page_urls()[j]
                != page.normalized_url@ by {
                assert(self.page_urls()[j] == self.pages@[j].normalized_url@);
            }
            assert(!self.has_page(page.normalized_url@));
        }
        if self.pages.len() >= self.max_pages {
            return Err(AddPageError::Capacity);
        }
        let ghost before = self.pages@;
        self.pages.push(page);
        proof {
            let urls_before = old(self).page_urls();
            let urls_now = self.page_urls();
            assert(urls_now =~= urls_before.push(page.normalized_url@));
            assert forall|a: int, b: int|
                0 <= a < urls_now.len() && 0 <= b < urls_now.len() && a != b implies urls_now[a]
                != urls_now[b] by {
                if a == urls_now.len() - 1 {
                    assert(urls_now[b] == urls_before[b]);
                } else if b == urls_now.len() - 1 {
                    assert(urls_now[a] == urls_before[a]);
                } else {
                    assert(urls_now[a] == urls_before[a]);
                    assert(urls_now[b] == urls_before[b]);
                }
            }
        }
        Ok(())
    }

    /// Appends one image record per discovered image, alt text defaulting
    /// to the empty string, leaving everything already recorded unchanged.
    pub fn add_images(&mut self, page_url: &str, image_map: &Vec<ImageSource>)
        requires
            old(self).wf(),
        ensures
            final(self).wf(),
            final(self).spec_max_pages() == old(self).spec_max_pages(),
            final(self).spec_max_concurrency() == old(self).spec_max_concurrency(),
            final(self).pages_view() == old(self).pages_view(),
            final(self).outlinks_nodes() == old(self).outlinks_nodes(),
            final(self).backlinks_nodes() == old(self).backlinks_nodes(),
            final(self).images_view().len() == old(self).images_view().len() + image_map@.len(),
            final(self).images_view().subrange(0, old(self).images_view().len() as int) == old(self).images_view(),
            forall|j: int|
                0 <= j < image_map@.len() ==> {
                    let img = #[trigger] final(self).images_view()[old(self).images_view().len() + j];
                    &&& img.normalized_page_url@ == page_url@
                    &&& img.normalized_source_url@ == image_map@[j].src@
                    &&& img.alt@ == (match image_map@[j].alt {
                        Some(a) => a@,
                        None => Seq::<char>::empty(),
                    })
                },
    {
        let ghost base = self.images@;
        let owned_url = page_url.to_owned();
        let n = image_map.len();
        let mut i: usize = 0;
        while i < n
            invariant
                n == image_map@.len(),
                i <= n,
                owned_url@ == page_url@,
                self.pages@ == old(self).pages@,
                self.outlinks@ == old(self).outlinks@,
                self.backlinks@ == old(self).backlinks@,
                self.max_pages == old(self).max_pages,
                self.max_concurrency == old(self).max_concurrency,
                base == old(self).images@,
                self.images@.len() == base.len() + i,
                self.images@.subrange(0, base.len() as int) == base,
                forall|j: int|
                    0 <= j < i ==> {
                        let img = #[trigger] self.images@[base.len() + j];
                        &&& img.normalized_page_url@ == page_url@
                        &&& img.normalized_source_url@ == image_map@[j].src@
                        &&& img.alt@ == (match image_map@[j].alt {
                            Some(a) => a@,
                            None => Seq::<char>::empty(),
                        })
                    },
            decreases n - i,
        {
            let entry = &image_map[i];
            let alt = match &entry.alt {
                Some(a) => a.clone(),
                None => String::new(),
            };
            let image = Image {
                normalized_page_url: owned_url.clone(),
                normalized_source_url: entry.src.clone(),
                alt,
            };
            let ghost prev = self.images@;
            self.images.push(image);
            proof {
                assert(self.images@.subrange(0, base.len() as int) =~= prev.subrange(
                    0,
                    base.len() as int,
                ));
            }
            i += 1;
        }
        proof {
            assert(self.images@.subrange(0, base.len() as int) =~= base);
        }
    }

    /// Validates, normalizes and records a batch of links discovered on
    /// `current_url`'s page: the page's outlink set gains the batch's
    /// accepted targets, and each accepted target's backlink set gains
    /// `current_url`. A link that fails validation or normalization, or
    /// that points back at `current_url`, is dropped. Both graph sides
    /// move in one call, so no caller sees one side updated without the
    /// other.
    pub fn update_links(&mut self, current_url: &str, outgoing_links: &Vec<String>)
        requires
            old(self).wf(),
        ensures
            final(self).wf(),
            update_links_post(
                *old(self),
                *final(self),
                current_url@,
                outgoing_links.deep_view(),
            ),
    {
        let ghost links = outgoing_links.deep_view();
        let ghost cur_v = current_url@;
        let ghost back0 = self.backlinks@;
        let ghost out0 = self.outlinks@;
        let ghost base = if nodes_map(out0).dom().contains(cur_v) {
            nodes_map(out0)[cur_v]
        } else {
            Set::<Seq<char>>::empty()
        };
        let cur = current_url.to_owned();
        // Make sure the source page's outlinks node exists, and remember
        // where it sits; the batch's targets are folded into it in place.
        let out_idx: usize = match find_node(&self.outlinks, &cur) {
            Some(i) => {
                proof {
                    lemma_node_index_unique(out0, i as int);
                    assert(has_node(out0, cur_v));
                    assert(nodes_map(out0).dom().contains(cur_v));
                    assert(node_links(out0, cur_v) == out0[i as int].link_set());
                    assert(nodes_map(out0).insert(cur_v, base) =~= nodes_map(out0));
                }
                i
            },
            None => {
                let fresh = PageNode::new(cur.clone());
                let ghost fresh_v = fresh;
                let i = self.outlinks.len();
                self.outlinks.push(fresh);
                proof {
                    assert(self.outlinks@ =~= out0.push(fresh_v));
                    lemma_nodes_map_push(out0, fresh_v);
                    assert(fresh_v.link_set() =~= Set::<Seq<char>>::empty());
                    assert(base =~= Set::<Seq<char>>::empty());
                    assert forall|j: int|
                        0 <= j < self.outlinks@.len() implies (#[trigger] self.outlinks@[j]).wf()
                        && !self.outlinks@[j].link_set().contains(
                        self.outlinks@[j].normalized_url@,
                    ) by {
                        if j < out0.len() {
                            assert(self.outlinks@[j] == out0[j]);
                        }
                    }
                }
                i
            },
        };
        proof {
            assert(accepted_targets(cur_v, links.subrange(0, 0)) =~= Set::<Seq<char>>::empty());
            assert(base.union(accepted_targets(cur_v, links.subrange(0, 0))) =~= base);
            assert(nodes_map(self.outlinks@) == nodes_map(out0).insert(
                cur_v,
                base.union(accepted_targets(cur_v, links.subrange(0, 0))),
            ));
        }
        let n = outgoing_links.len();
        let mut i: usize = 0;
        while i < n
            invariant
                n == outgoing_links@.len(),
                i <= n,
                links == outgoing_links.deep_view(),
                links.len() == n,
                cur_v == cur@,
                back0 == old(self).backlinks@,
                out0 == old(self).outlinks@,
                nodes_wf(back0),
                nodes_wf(out0),
                base == (if nodes_map(out0).dom().contains(cur_v) {
                    nodes_map(out0)[cur_v]
                } else {
                    Set::<Seq<char>>::empty()
                }),
                self.pages@ == old(self).pages@,
                self.images@ == old(self).images@,
                self.max_pages == old(self).max_pages,
                self.max_concurrency == old(self).max_concurrency,
                out_idx < self.outlinks@.len(),
                self.outlinks@[out_idx as int].normalized_url@ == cur_v,
                nodes_wf(self.outlinks@),
                nodes_map(self.outlinks@) == nodes_map(out0).insert(
                    cur_v,
                    base.union(accepted_targets(cur_v, links.subrange(0, i as int))),
                ),
                nodes_wf(self.backlinks@),
                nodes_map(self.backlinks@).dom() =~= nodes_map(back0).dom().union(
                    accepted_targets(cur_v, links.subrange(0, i as int)),
                ),
                forall|k: Seq<char>| #[trigger]
                    accepted_targets(cur_v, links.subrange(0, i as int)).contains(k)
                        ==> nodes_map(self.backlinks@)[k] == (if nodes_map(
                        back0,
                    ).dom().contains(k) {
                        nodes_map(back0)[k]
                    } else {
                        Set::empty()
                    }).insert(cur_v),
                forall|k: Seq<char>|
                    nodes_map(back0).dom().contains(k) && !accepted_targets(
                        cur_v,
                        links.subrange(0, i as int),
                    ).contains(k) ==> nodes_map(self.backlinks@)[k] == nodes_map(back0)[k],
            decreases n - i,
        {
            let ghost prefix = links.subrange(0, i as int);
            let ghost prefix2 = links.subrange(0, i + 1);
            proof {
                assert(outgoing_links.deep_view()[i as int] == outgoing_links@[i as int]@);
                lemma_accepted_step(cur_v, links, i as int);
            }
            let link = &outgoing_links[i];
            if !is_valid_url(link.as_str()) {
                proof {
                    assert(link_target(links[i as int]) is None);
                }
                i += 1;
                continue ;
            }
            let normalized = match normalize_url(link.as_str()) {
                Ok(u) => u,
                Err(_) => {
                    proof {
                        assert(link_target(links[i as int]) is None);
                    }
                    i += 1;
                    continue ;
                },
            };
            proof {
                assert(link_target(links[i as int]) == Some(normalized@));
            }
            if normalized.eq(&cur) {
                i += 1;
                continue ;
            }
            let ghost t = normalized@;
            proof {
                assert(accepted_targets(cur_v, prefix2) == accepted_targets(cur_v, prefix).insert(
                    t,
                ));
            }
            // Backlinks side: the target's node gains the source page.
            let ghost back_before = self.backlinks@;
            match find_node(&self.backlinks, &normalized) {
                Some(idx) => {
                    proof {
                        lemma_node_index_unique(back_before, idx as int);
                        assert(has_node(back_before, t));
                    }
                    self.backlinks[idx].append_link(cur.clone());
                    proof {
                        let updated = self.backlinks@[idx as int];
                        assert(self.backlinks@ =~= back_before.update(idx as int, updated));
                        assert(updated.normalized_url@ == t);
                        assert(updated.link_set() == back_before[idx as int].link_set().insert(
                            cur_v,
                        ));
                        lemma_nodes_map_update(back_before, idx as int, updated);
                        assert(node_links(back_before, t) == back_before[idx as int].link_set());
                        assert(nodes_map(back_before).dom().contains(t));
                        assert(nodes_map(self.backlinks@) == nodes_map(back_before).insert(
                            t,
                            updated.link_set(),
                        ));
                        // Well-formedness of every node after the update.
                        assert forall|j: int|
                            0 <= j < self.backlinks@.len() implies (#[trigger] self.backlinks@[j]).wf()
                            && !self.backlinks@[j].link_set().contains(
                            self.backlinks@[j].normalized_url@,
                        ) by {
                            if j == idx {
                                assert(!back_before[j].link_set().contains(t));
                            } else {
                                assert(self.backlinks@[j] == back_before[j]);
                            }
                        }
                        // The three backlink clauses, at i + 1.
                        assert(nodes_map(self.backlinks@).dom() =~= nodes_map(
                            back0,
                        ).dom().union(accepted_targets(cur_v, prefix2)));
                        assert forall|k: Seq<char>| #[trigger]
                            accepted_targets(cur_v, prefix2).contains(k) implies nodes_map(
                            self.backlinks@,
                        )[k] == (if nodes_map(back0).dom().contains(k) {
                            nodes_map(back0)[k]
                        } else {
                            Set::empty()
                        }).insert(cur_v) by {
                            if k == t {
                                if accepted_targets(cur_v, prefix).contains(t) {
                                    assert(nodes_map(back_before)[t] == (if nodes_map(
                                        back0,
                                    ).dom().contains(t) {
                                        nodes_map(back0)[t]
                                    } else {
                                        Set::empty()
                                    }).insert(cur_v));
                                    assert(nodes_map(back_before)[t].insert(cur_v)
                                        =~= nodes_map(back_before)[t]);
                                } else {
                                    assert(nodes_map(back0).dom().contains(t));
                                    assert(nodes_map(back_before)[t] == nodes_map(back0)[t]);
                                }
                            } else {
                                assert(accepted_targets(cur_v, prefix).contains(k));
                            }
                        }
                    }
                },
                None => {
                    let mut fresh = PageNode::new(normalized.clone());
                    fresh.append_link(cur.clone());
                    proof {
                        assert(fresh.link_set() =~= Set::<Seq<char>>::empty().insert(cur_v));
                        assert(!has_node(back_before, t));
                        assert(!nodes_map(back_before).dom().contains(t));
                        assert(!accepted_targets(cur_v, prefix).contains(t));
                        assert(!nodes_map(back0).dom().contains(t));
                        assert(fresh.wf());
                        assert(!fresh.link_set().contains(t));
                    }
                    let ghost fresh_v = fresh;
                    self.backlinks.push(fresh);
                    proof {
                        assert(self.backlinks@ =~= back_before.push(fresh_v));
                        lemma_nodes_map_push(back_before, fresh_v);
                        assert(nodes_map(self.backlinks@) == nodes_map(back_before).insert(
                            t,
                            fresh_v.link_set(),
                        ));
                        assert forall|j: int|
                            0 <= j < self.backlinks@.len() implies (#[trigger] self.backlinks@[j]).wf()
                            && !self.backlinks@[j].link_set().contains(
                            self.backlinks@[j].normalized_url@,
                        ) by {
                            if j < back_before.len() {
                                assert(self.backlinks@[j] == back_before[j]);
                            }
                        }
                        assert(nodes_map(self.backlinks@).dom() =~= nodes_map(
                            back0,
                        ).dom().union(accepted_targets(cur_v, prefix2)));
                        assert forall|k: Seq<char>| #[trigger]
                            accepted_targets(cur_v, prefix2).contains(k) implies nodes_map(
                            self.backlinks@,
                        )[k] == (if nodes_map(back0).dom().contains(k) {
                            nodes_map(back0)[k]
                        } else {
                            Set::empty()
                        }).insert(cur_v) by {
                            if k == t {
                                assert(nodes_map(self.backlinks@)[t] =~= Set::<
                                    Seq<char>,
                                >::empty().insert(cur_v));
                            } else {
                                assert(accepted_targets(cur_v, prefix).contains(k));
                            }
                        }
                    }
                },
            }
            // Outlinks side: the source's node gains the target in place.
            let ghost out_before_step = self.outlinks@;
            self.outlinks[out_idx].append_link(normalized);
            proof {
                let updated = self.outlinks@[out_idx as int];
                assert(self.outlinks@ =~= out_before_step.update(out_idx as int, updated));
                assert(updated.normalized_url@ == cur_v);
                assert(updated.link_set() == out_before_step[out_idx as int].link_set().insert(t));
                lemma_node_index_unique(out_before_step, out_idx as int);
                assert(node_links(out_before_step, cur_v) == out_before_step[
                    out_idx as int
                ].link_set());
                lemma_nodes_map_update(out_before_step, out_idx as int, updated);
                assert(nodes_map(out_before_step)[cur_v] == base.union(
                    accepted_targets(cur_v, prefix),
                ));
                assert(base.union(accepted_targets(cur_v, prefix)).insert(t) =~= base.union(
                    accepted_targets(cur_v, prefix2),
                ));
                assert(nodes_map(self.outlinks@) == nodes_map(out0).insert(
                    cur_v,
                    base.union(accepted_targets(cur_v, prefix2)),
                )) by {
                    assert(nodes_map(self.outlinks@) =~= nodes_map(out0).insert(
                        cur_v,
                        base.union(accepted_targets(cur_v, prefix2)),
                    ));
                }
                assert forall|j: int|
                    0 <= j < self.outlinks@.len() implies (#[trigger] self.outlinks@[j]).wf()
                    && !self.outlinks@[j].link_set().contains(
                    self.outlinks@[j].normalized_url@,
                ) by {
                    if j == out_idx {
                        assert(!out_before_step[j].link_set().contains(cur_v));
                    } else {
                        assert(self.outlinks@[j] == out_before_step[j]);
                    }
                }
            }
            i += 1;
        }
        proof {
            assert(links.subrange(0, n as int) =~= links);
        }
    }

    /// Atomically hands back the whole round state and resets the
    /// accumulator to empty; the size limit and concurrency setting stay.
    pub fn drain_and_clear(&mut self) -> (r: CrawlerRoundState)
        requires
            old(self).wf(),
        ensures
            final(self).wf(),
            final(self).spec_max_pages() == old(self).spec_max_pages(),
            final(self).spec_max_concurrency() == old(self).spec_max_concurrency(),
            final(self).pages_view() == Seq::<Page>::empty(),
            final(self).outlinks_nodes() == Seq::<PageNode>::empty(),
            final(self).backlinks_nodes() == Seq::<PageNode>::empty(),
            final(self).images_view() == Seq::<Image>::empty(),
            r.pages@ == old(self).pages_view(),
            r.outlinks@ == old(self).outlinks_nodes(),
            r.backlinks@ == old(self).backlinks_nodes(),
            r.images@ == old(self).images_view(),
    {
        let mut pages: Vec<Page> = Vec::new();
        let mut outlinks: Vec<PageNode> = Vec::new();
        let mut backlinks: Vec<PageNode> = Vec::new();
        let mut images: Vec<Image> = Vec::new();
        core::mem::swap(&mut pages, &mut self.pages);
        core::mem::swap(&mut outlinks, &mut self.outlinks);
        core::mem::swap(&mut backlinks, &mut self.backlinks);
        core::mem::swap(&mut images, &mut self.images);
        proof {
            assert(self.page_urls() =~= Seq::<Seq<char>>::empty());
            assert(node_urls(self.outlinks@) =~= Seq::<Seq<char>>::empty());
            assert(node_urls(self.backlinks@) =~= Seq::<Seq<char>>::empty());
        }
        CrawlerRoundState { pages, outlinks, backlinks, images }
    }
}

/// Accepting one more link grows the accepted-target set by that link's
/// target, or not at all.
proof fn lemma_accepted_step(cur: Seq<char>, links: Seq<Seq<char>>, i: int)
    requires
        0 <= i < links.len(),
    ensures
        link_target(links[i]) is None ==> accepted_targets(cur, links.subrange(0, i + 1))
            == accepted_targets(cur, links.subrange(0, i)),
        link_target(links[i]) == Some(cur) ==> accepted_targets(cur, links.subrange(0, i + 1))
            == accepted_targets(cur, links.subrange(0, i)),
        forall|t: Seq<char>|
            link_target(links[i]) == Some(t) && t != cur ==> accepted_targets(
                cur,
                links.subrange(0, i + 1),
            ) == accepted_targets(cur, links.subrange(0, i)).insert(t),
{
    let a = links.subrange(0, i);
    let b = links.subrange(0, i + 1);
    assert forall|t: Seq<char>|
        accepted_targets(cur, a).contains(t) implies accepted_targets(cur, b).contains(t) by {
        let j = choose|j: int| 0 <= j < a.len() && link_target(#[trigger] a[j]) == Some(t);
        assert(b[j] == a[j]);
        assert(link_target(b[j]) == Some(t));
    }
    assert forall|t: Seq<char>|
        accepted_targets(cur, b).contains(t) && link_target(links[i]) != Some(
            t,
        ) implies accepted_targets(cur, a).contains(t) by {
        let j = choose|j: int| 0 <= j < b.len() && link_target(#[trigger] b[j]) == Some(t);
        assert(j < i);
        assert(a[j] == b[j]);
    }
    if link_target(links[i]) is None {
        assert(accepted_targets(cur, b) =~= accepted_targets(cur, a));
    } else {
        let t0 = link_target(links[i]).unwrap();
        if t0 == cur {
            assert(accepted_targets(cur, b) =~= accepted_targets(cur, a));
        } else {
            assert(b[i] == links[i]);
            assert(accepted_targets(cur, b).contains(t0));
            assert(accepted_targets(cur, b) =~= accepted_targets(cur, a).insert(t0));
        }
    }
}

/// The capacity invariant: whatever sequence of insert attempts ran, a
/// well-formed accumulator never holds more pages than its limit.
pub proof fn lemma_capacity_invariant(c: CrawlerConfig)
    requires
        c.wf(),
    ensures
        c.pages_view().len() <= c.spec_max_pages(),
{
}

/// Graph consistency: after a batch of links from `cur` is recorded, every
/// link whose target `t` passed validation and normalization and differs
/// from `cur` appears in `cur`'s outlinks, with `cur` in `t`'s backlinks —
/// and neither side holds a self-link.
pub proof fn lemma_graph_consistency(
    o: CrawlerConfig,
    n: CrawlerConfig,
    cur: Seq<char>,
    links: Seq<Seq<char>>,
    i: int,
    t: Seq<char>,
)
    requires
        n.wf(),
        update_links_post(o, n, cur, links),
        0 <= i < links.len(),
        link_target(links[i]) == Some(t),
        t != cur,
    ensures
        n.outlinks_map().dom().contains(cur),
        n.outlinks_map()[cur].contains(t),
        n.backlinks_map().dom().contains(t),
        n.backlinks_map()[t].contains(cur),
        !n.outlinks_map()[cur].contains(cur),
        !n.backlinks_map()[t].contains(t),
{
    assert(accepted_targets(cur, links).contains(t));
    lemma_nodes_map_no_self(n.backlinks_nodes(), t);
    lemma_nodes_map_no_self(n.outlinks_nodes(), cur);
}

} // verus!
