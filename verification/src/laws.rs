//! Connectivity of the finished graph: in a well-formed graph whose edges
//! form no cycle, every vertex has an outbound path to the root anchor. The
//! build gives every workspace vertex at least one outgoing edge (its
//! internal dependencies, or the fallback edge to the root anchor), which is
//! exactly what the proof needs.

use vstd::prelude::*;

use crate::bytes::{spec_find, spec_rfind, AT, CARET, COLON, STAR, TILDE};
use crate::classify::{
    proto_file, proto_link, proto_npm, proto_workspace, spec_is_internal, spec_matches,
    spec_protocol, spec_remainder, spec_target_name, spec_workspace_alias,
};
use crate::digraph::{graph_edges, graph_nodes};
use crate::graph::{edge_from, edge_in, PackageGraph};
use crate::manifest::PackageInfo;
use crate::name::{NameKey, PackageName};
use crate::semver::semver_decision;
use crate::table::{spec_table_contains, spec_table_find};
use vstd::relations::injective;
use vstd::set_lib::{lemma_int_range, lemma_len_subset, set_int_range};

verus! {

/// A walk through a graph of `n` vertices: at least one vertex, all inside
/// the graph, each consecutive pair joined by an edge.
pub open spec fn is_path(edges: Seq<(usize, usize)>, n: nat, p: Seq<usize>) -> bool {
    &&& p.len() >= 1
    &&& forall|i: int| 0 <= i < p.len() ==> (#[trigger] p[i]) < n
    &&& forall|i: int| 0 <= i < p.len() - 1 ==> edge_in(edges, #[trigger] p[i], p[i + 1])
}

/// Vertex `v` has an outbound path to vertex `r`.
pub open spec fn reaches(edges: Seq<(usize, usize)>, n: nat, v: usize, r: usize) -> bool {
    exists|p: Seq<usize>| #[trigger] is_path(edges, n, p) && p.first() == v && p.last() == r
}

/// No walk returns to its starting vertex.
pub open spec fn acyclic(edges: Seq<(usize, usize)>, n: nat) -> bool {
    forall|p: Seq<usize>| #[trigger] is_path(edges, n, p) && p.len() >= 2 ==> p.first() != p.last()
}

/// A sequence of distinct vertex indices below `n` has at most `n` entries.
proof fn lemma_distinct_bounded(p: Seq<usize>, n: nat)
    requires
        p.no_duplicates(),
        forall|i: int| 0 <= i < p.len() ==> (#[trigger] p[i]) < n,
    ensures
        p.len() <= n,
{
    let f = |v: usize| v as int;
    let q = p.map_values(f);
    assert(injective(f)) by {
        assert forall|x1: usize, x2: usize| #[trigger] f(x1) == #[trigger] f(x2) implies x1
            == x2 by {}
    }
    p.lemma_no_duplicates_injective(f);
    q.unique_seq_to_set();
    assert(q.to_set().subset_of(set_int_range(0, n as int))) by {
        assert forall|x: int| q.to_set().contains(x) implies set_int_range(
            0,
            n as int,
        ).contains(x) by {
            let i = choose|i: int| 0 <= i < q.len() && q[i] == x;
            assert(p[i] < n);
        }
    }
    lemma_int_range(0, n as int);
    lemma_len_subset(q.to_set(), set_int_range(0, n as int));
}

/// Extends a duplicate-free walk until it hits `r`: since every other vertex
/// has an outgoing edge and no walk can revisit a vertex, a longest walk can
/// only end at `r`.
proof fn lemma_path_to_root(edges: Seq<(usize, usize)>, n: nat, r: usize, p: Seq<usize>)
    requires
        r < n,
        is_path(edges, n, p),
        p.no_duplicates(),
        acyclic(edges, n),
        forall|k: int| 0 <= k < edges.len() ==> (#[trigger] edges[k]).0 < n && edges[k].1 < n,
        forall|v: usize| v < n && v != r ==> edge_from(edges, v),
    ensures
        reaches(edges, n, p.first(), r),
    decreases n - p.len(),
{
    lemma_distinct_bounded(p, n);
    let last = p.last();
    if last == r {
        assert(is_path(edges, n, p) && p.first() == p.first() && p.last() == r);
    } else {
        assert(edge_from(edges, last));
        let k = choose|k: int| 0 <= k < edges.len() && (#[trigger] edges[k]).0 == last;
        let w = edges[k].1;
        assert(edge_in(edges, last, w)) by {
            assert(edges[k] == (last, w));
        }
        if p.contains(w) {
            let j = choose|j: int| 0 <= j < p.len() && p[j] == w;
            let c = p.subrange(j, p.len() as int).push(w);
            assert(c.len() >= 2);
            assert(is_path(edges, n, c)) by {
                assert forall|i: int| 0 <= i < c.len() implies (#[trigger] c[i]) < n by {
                    if i < c.len() - 1 {
                        assert(c[i] == p[j + i]);
                    }
                }
                assert forall|i: int| 0 <= i < c.len() - 1 implies edge_in(
                    edges,
                    #[trigger] c[i],
                    c[i + 1],
                ) by {
                    if i < c.len() - 2 {
                        assert(c[i] == p[j + i] && c[i + 1] == p[j + i + 1]);
                    } else {
                        assert(c[i] == p[p.len() - 1] && c[i + 1] == w);
                    }
                }
            }
            assert(c.first() == w && c.last() == w);
            assert(false);
        }
        let p2 = p.push(w);
        assert(is_path(edges, n, p2)) by {
            assert forall|i: int| 0 <= i < p2.len() - 1 implies edge_in(
                edges,
                #[trigger] p2[i],
                p2[i + 1],
            ) by {
                if i < p.len() - 1 {
                    assert(p2[i] == p[i] && p2[i + 1] == p[i + 1]);
                } else {
                    assert(p2[i] == last && p2[i + 1] == w);
                }
            }
        }
        assert(p2.no_duplicates()) by {
            assert forall|i1: int, i2: int| 0 <= i1 < i2 < p2.len() implies p2[i1] != p2[i2] by {
                if i2 < p.len() {
                    assert(p2[i1] == p[i1] && p2[i2] == p[i2]);
                } else {
                    assert(p2[i2] == w && p2[i1] == p[i1]);
                    assert(!p.contains(w));
                }
            }
        }
        lemma_distinct_bounded(p2, n);
        lemma_path_to_root(edges, n, r, p2);
        assert(p2.first() == p.first());
    }
}

/// Connectivity law: in a well-formed package graph whose edges form no
/// cycle, every vertex — in particular every workspace — has an outbound
/// path to the root anchor at index 0. (With a cycle among workspaces the
/// build adds no fallback edge to the root for its members, and such a cycle
/// can indeed be unreachable from the root, so the law takes acyclicity as
/// its hypothesis.)
pub proof fn lemma_workspaces_reach_root<L>(g: &PackageGraph<L>, v: usize)
    requires
        g.wf(),
        acyclic(graph_edges(g.graph), graph_nodes(g.graph).len()),
        v < graph_nodes(g.graph).len(),
    ensures
        reaches(graph_edges(g.graph), graph_nodes(g.graph).len(), v, 0),
{
    let edges = graph_edges(g.graph);
    let n = graph_nodes(g.graph).len();
    let p = seq![v];
    assert(is_path(edges, n, p));
    assert(p.no_duplicates());
    assert forall|u: usize| u < n && u != 0 implies edge_from(edges, u) by {}
    lemma_path_to_root(edges, n, 0, p);
    assert(p.first() == v);
}

/// Classifier round-trip law: for a specifier with no protocol override — no
/// protocol at all, or `npm:` — whose remainder is not the bare `*`, and a
/// target workspace in the table, classification is exactly semver
/// satisfaction whenever both the remainder and the workspace's declared
/// version parse: satisfied means internal, not satisfied means external.
pub proof fn lemma_semver_round_trip(
    entries: Seq<(PackageName, PackageInfo)>,
    root: Seq<Seq<u8>>,
    cwd: Seq<Seq<u8>>,
    name: Seq<u8>,
    version: Seq<u8>,
    j: int,
    b: bool,
)
    requires
        spec_protocol(version) is None || spec_protocol(version) == Some(proto_npm()),
        spec_remainder(version) != seq![STAR],
        spec_table_find(entries, NameKey::Other(spec_target_name(name, version))) == Some(j),
        0 <= j < entries.len(),
        semver_decision(spec_remainder(version), entries[j].1.spec_version_or_default()) == Some(
            b,
        ),
    ensures
        spec_is_internal(entries, root, cwd, name, version) == (if b {
            Some(NameKey::Other(spec_target_name(name, version)))
        } else {
            None::<NameKey>
        }),
{
    assert(proto_npm() != proto_workspace()) by {
        assert(proto_npm().len() != proto_workspace().len());
    }
    assert(proto_npm() != proto_file()) by {
        assert(proto_npm().len() != proto_file().len());
    }
    assert(proto_npm() != proto_link()) by {
        assert(proto_npm().len() != proto_link().len());
    }
}

/// Alias law: a `workspace:<alias>@<range>` specifier with `<range>` one of
/// `*`, `^`, `~` resolves to the aliased workspace — not to the dependency's
/// declared name — whenever a workspace of that name is in the table, and it
/// does so without consulting the target's declared version.
pub proof fn lemma_workspace_alias(
    entries: Seq<(PackageName, PackageInfo)>,
    root: Seq<Seq<u8>>,
    cwd: Seq<Seq<u8>>,
    name: Seq<u8>,
    alias: Seq<u8>,
    range: u8,
)
    requires
        range == STAR || range == CARET || range == TILDE,
        !alias.contains(COLON),
        spec_table_contains(entries, NameKey::Other(alias)),
    ensures
        spec_is_internal(
            entries,
            root,
            cwd,
            name,
            proto_workspace() + seq![COLON] + alias + seq![AT, range],
        ) == Some(NameKey::Other(alias)),
{
    let version = proto_workspace() + seq![COLON] + alias + seq![AT, range];
    crate::bytes::lemma_spec_find(version, COLON);
    assert(version[9] == COLON);
    assert forall|i: int| 0 <= i < 9 implies version[i] != COLON by {
        assert(version[i] == proto_workspace()[i]);
    }
    let fi = spec_find(version, COLON)->0;
    assert(spec_find(version, COLON) is Some);
    assert(fi == 9) by {
        if fi < 9 {
            assert(version[fi] != COLON);
        }
        if fi > 9 {
            assert(version[9] != COLON);
        }
    }
    assert(spec_protocol(version) == Some(version.subrange(0, 9)));
    assert(version.subrange(0, 9) =~= proto_workspace());
    let rem = spec_remainder(version);
    assert(rem =~= alias + seq![AT, range]);
    crate::bytes::lemma_spec_rfind(rem, AT);
    let a = alias.len() as int;
    assert(rem[a] == AT);
    assert(rem[a + 1] == range);
    let ri = spec_rfind(rem, AT)->0;
    assert(spec_rfind(rem, AT) is Some);
    assert(ri == a) by {
        if ri < a {
            assert(rem[a] != AT);
        }
        if ri > a {
            assert(ri == a + 1);
            assert(rem[a + 1] == AT);
        }
    }
    assert(spec_workspace_alias(version) == Some(rem.subrange(0, a)));
    assert(rem.subrange(0, a) =~= alias);
    assert(spec_target_name(name, version) == alias);
    crate::table::lemma_spec_table_find(entries, NameKey::Other(alias));
    assert(spec_matches(
        spec_protocol(version),
        rem,
        entries[spec_table_find(entries, NameKey::Other(alias))->0].1.spec_version_or_default(),
        cwd,
        root,
    ));
}

} // verus!
