//! The link store's data shapes: one set-membership write per recorded
//! link, on each side of the graph. The store calls themselves happen
//! outside the library.

use vstd::prelude::*;
use crate::pages::page_node::PageNode;
use crate::utils::constants::{backlinks_prefix, key_of, outlinks_prefix, store_key};

verus! {

/// One link's write: the graph-side set it belongs to and the member URL.
pub struct LinkSaveEntry {
    pub set_key: String,
    pub member: String,
}

/// The writes one node contributes: each of its links as a member of the
/// node's keyed set.
pub open spec fn node_entries(prefix: Seq<char>, node: PageNode) -> Seq<(Seq<char>, Seq<char>)> {
    Seq::new(
        node.links_view().len(),
        |j: int| (key_of(prefix, node.normalized_url@), node.links_view()[j]),
    )
}

/// The writes a whole graph side contributes, node by node.
pub open spec fn side_entries(prefix: Seq<char>, nodes: Seq<PageNode>) -> Seq<
    (Seq<char>, Seq<char>),
>
    decreases nodes.len(),
{
    if nodes.len() == 0 {
        Seq::empty()
    } else {
        side_entries(prefix, nodes.drop_last()) + node_entries(prefix, nodes.last())
    }
}

/// The pairs a vector of entries denotes.
pub open spec fn entries_view(r: Seq<LinkSaveEntry>) -> Seq<(Seq<char>, Seq<char>)> {
    r.map_values(|e: LinkSaveEntry| (e.set_key@, e.member@))
}

fn side_save_entries(prefix: &str, nodes: &Vec<PageNode>, out: &mut Vec<LinkSaveEntry>)
    ensures
        entries_view(final(out)@) == entries_view(old(out)@) + side_entries(prefix@, nodes@),
{
    let ghost base = entries_view(out@);
    let n = nodes.len();
    let mut i: usize = 0;
    while i < n
        invariant
            n == nodes@.len(),
            i <= n,
            base == entries_view(old(out)@),
            entries_view(out@) == base + side_entries(prefix@, nodes@.subrange(0, i as int)),
        decreases n - i,
    {
        let ghost nprefix = nodes@.subrange(0, i as int);
        let ghost nprefix2 = nodes@.subrange(0, i + 1);
        proof {
            assert(nprefix2.drop_last() =~= nprefix);
            assert(nprefix2.last() == nodes@[i as int]);
        }
        let node = &nodes[i];
        let set_key = store_key(prefix, node.normalized_url.as_str());
        let links = node.get_links();
        let m = links.len();
        let mut j: usize = 0;
        while j < m
            invariant
                m == links@.len(),
                links.deep_view() == nodes@[i as int].links_view(),
                i < n,
                n == nodes@.len(),
                j <= m,
                set_key@ == key_of(prefix@, nodes@[i as int].normalized_url@),
                base + side_entries(prefix@, nodes@.subrange(0, i as int)) + node_entries(
                    prefix@,
                    nodes@[i as int],
                ).subrange(0, j as int) == entries_view(out@),
            decreases m - j,
        {
            let entry = LinkSaveEntry { set_key: set_key.clone(), member: links[j].clone() };
            let ghost before = entries_view(out@);
            out.push(entry);
            proof {
                assert(links.deep_view()[j as int] == links@[j as int]@);
                assert(entries_view(out@) =~= before.push(
                    (key_of(prefix@, nodes@[i as int].normalized_url@), links@[j as int]@),
                ));
                assert(node_entries(prefix@, nodes@[i as int]).subrange(0, j + 1) =~= node_entries(
                    prefix@,
                    nodes@[i as int],
                ).subrange(0, j as int).push(node_entries(prefix@, nodes@[i as int])[j as int]));
                assert(entries_view(out@) =~= base + side_entries(
                    prefix@,
                    nodes@.subrange(0, i as int),
                ) + node_entries(prefix@, nodes@[i as int]).subrange(0, j + 1));
            }
            j += 1;
        }
        proof {
            assert(node_entries(prefix@, nodes@[i as int]).subrange(0, m as int) =~= node_entries(
                prefix@,
                nodes@[i as int],
            ));
            assert(base + side_entries(prefix@, nprefix2) =~= base + side_entries(
                prefix@,
                nprefix,
            ) + node_entries(prefix@, nodes@[i as int]));
        }
        i += 1;
    }
    proof {
        assert(nodes@.subrange(0, n as int) =~= nodes@);
    }
}

/// Computes the writes for a round's whole link graph: every backlink as a
/// member of its page's `backlinks:<url>` set, then every outlink as a
/// member of its page's `outlinks:<url>` set.
pub fn link_save_entries(backlinks: &Vec<PageNode>, outlinks: &Vec<PageNode>) -> (r: Vec<
    LinkSaveEntry,
>)
    ensures
        entries_view(r@) == side_entries("backlinks"@, backlinks@) + side_entries(
            "outlinks"@,
            outlinks@,
        ),
{
    let mut r: Vec<LinkSaveEntry> = Vec::new();
    proof {
        assert(entries_view(r@) =~= Seq::<(Seq<char>, Seq<char>)>::empty());
    }
    side_save_entries(backlinks_prefix(), backlinks, &mut r);
    side_save_entries(outlinks_prefix(), outlinks, &mut r);
    proof {
        assert(Seq::<(Seq<char>, Seq<char>)>::empty() + side_entries("backlinks"@, backlinks@)
            =~= side_entries("backlinks"@, backlinks@));
    }
    r
}

} // verus!
