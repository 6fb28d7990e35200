//! One node of the link graph: a page key and the set of page keys it is
//! linked with. The link list has set semantics: appending a link that is
//! already present changes nothing.

use vstd::prelude::*;

verus! {

/// A link-graph node. Two nodes exist per crawled URL: one collecting its
/// outlinks and one collecting its backlinks.
#[derive(Debug, Clone)]
pub struct PageNode {
    pub normalized_url: String,
    pub normalized_link_urls: Vec<String>,
}

impl PageNode {
    /// The links recorded so far, in insertion order.
    pub open spec fn links_view(&self) -> Seq<Seq<char>> {
        self.normalized_link_urls.deep_view()
    }

    /// The links recorded so far, as a set.
    pub open spec fn link_set(&self) -> Set<Seq<char>> {
        self.links_view().to_set()
    }

    /// The link list never holds the same URL twice.
    pub open spec fn wf(&self) -> bool {
        self.links_view().no_duplicates()
    }

    pub fn new(normalized_url: String) -> (r: PageNode)
        ensures
            r.normalized_url == normalized_url,
            r.links_view() == Seq::<Seq<char>>::empty(),
            r.wf(),
    {
        let r = PageNode { normalized_url, normalized_link_urls: Vec::new() };
        proof {
            assert(r.links_view() =~= Seq::<Seq<char>>::empty());
        }
        r
    }

    /// Records a link, keeping set semantics.
    pub fn append_link(&mut self, new_normalized_link: String)
        ensures
            final(self).normalized_url == old(self).normalized_url,
            final(self).link_set() == old(self).link_set().insert(new_normalized_link@),
            final(self).links_view().len() <= old(self).links_view().len() + 1,
            old(self).wf() ==> final(self).wf(),
            old(self).link_set().contains(new_normalized_link@) ==> final(self).links_view()
                == old(self).links_view(),
    {
        let n = self.normalized_link_urls.len();
        let mut i: usize = 0;
        while i < n
            invariant
                n == self.normalized_link_urls.len(),
                i <= n,
                forall|j: int|
                    0 <= j < i ==> #[trigger] self.normalized_link_urls.deep_view()[j]
                        != new_normalized_link@,
            decreases n - i,
        {
            if self.normalized_link_urls[i].eq(&new_normalized_link) {
                proof {
                    assert(self.links_view()[i as int] == new_normalized_link@);
                    assert(self.links_view().contains(new_normalized_link@));
                    assert(final(self).link_set() =~= old(self).link_set().insert(
                        new_normalized_link@,
                    ));
                }
                return ;
            }
            i += 1;
        }
        proof {
            assert(!self.links_view().contains(new_normalized_link@));
        }
        let ghost before = self.normalized_link_urls.deep_view();
        self.normalized_link_urls.push(new_normalized_link);
        proof {
            let link = new_normalized_link@;
            let now = self.normalized_link_urls.deep_view();
            assert(now =~= before.push(link));
            assert(before == old(self).links_view());
            assert forall|e: Seq<char>| now.to_set().contains(e) implies old(self).link_set().insert(link).contains(e) by {
                let k = choose|k: int| 0 <= k < now.len() && now[k] == e;
                if k < before.len() {
                    assert(before[k] == e);
                } else {
                    assert(e == link);
                }
            }
            assert forall|e: Seq<char>|
                old(self).link_set().insert(link).contains(e) implies now.to_set().contains(
                e,
            ) by {
                if e == link {
                    assert(now[now.len() - 1] == e);
                } else {
                    let k = choose|k: int| 0 <= k < before.len() && before[k] == e;
                    assert(now[k] == e);
                }
            }
            assert(final(self).link_set() =~= old(self).link_set().insert(link));
            if old(self).wf() {
                assert forall|a: int, b: int|
                    0 <= a < now.len() && 0 <= b < now.len() && a != b implies now[a]
                    != now[b] by {
                    if a == now.len() - 1 {
                        assert(!before.contains(now[a]));
                        assert(before[b] == now[b]);
                    } else if b == now.len() - 1 {
                        assert(!before.contains(now[b]));
                        assert(before[a] == now[a]);
                    }
                }
            }
        }
    }

    /// Hands out a copy of the link list.
    pub fn get_links(&self) -> (r: Vec<String>)
        ensures
            r.deep_view() == self.links_view(),
    {
        let r = self.normalized_link_urls.clone();
        proof {
            assert(r.deep_view() =~= self.links_view());
        }
        r
    }
}

} // verus!
