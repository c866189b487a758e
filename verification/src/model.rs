//! The mathematical model of the graph: a sequence of payloads, one per node,
//! and the sequence of links in the order in which they were made.

use vstd::prelude::*;

verus! {

/// A directed link between two nodes, each named by its position.
pub struct Link {
    pub source: int,
    pub target: int,
}

/// What a graph is: node `i` carries `payloads[i]`, and `links` lists the
/// edges, oldest first.
pub struct GraphModel<T> {
    pub payloads: Seq<T>,
    pub links: Seq<Link>,
}

/// Every link joins two distinct nodes among the first `n`, and no link occurs twice.
pub open spec fn links_valid(links: Seq<Link>, n: nat) -> bool {
    &&& forall|j: int|
        0 <= j < links.len() ==> {
            &&& 0 <= (#[trigger] links[j]).source < n
            &&& 0 <= links[j].target < n
            &&& links[j].source != links[j].target
        }
    &&& links.no_duplicates()
}

/// The position of the latest link before `upto` that leaves `s`.
pub open spec fn latest_below(links: Seq<Link>, upto: int, s: int) -> Option<int>
    decreases upto,
{
    if upto <= 0 || upto > links.len() {
        None
    } else if links[upto - 1].source == s {
        Some(upto - 1)
    } else {
        latest_below(links, upto - 1, s)
    }
}

/// The targets of the links before `upto` that leave `s`, latest link first.
pub open spec fn targets_below(links: Seq<Link>, upto: int, s: int) -> Seq<int>
    decreases upto,
{
    if upto <= 0 || upto > links.len() {
        Seq::empty()
    } else if links[upto - 1].source == s {
        seq![links[upto - 1].target] + targets_below(links, upto - 1, s)
    } else {
        targets_below(links, upto - 1, s)
    }
}

/// Some link arrives at `t`.
pub open spec fn targeted(links: Seq<Link>, t: int) -> bool {
    exists|j: int| 0 <= j < links.len() && (#[trigger] links[j]).target == t
}

/// The nodes below `k` at which no link arrives, in ascending order.
pub open spec fn roots_below(links: Seq<Link>, k: int) -> Seq<int>
    decreases k,
{
    if k <= 0 {
        Seq::empty()
    } else if targeted(links, k - 1) {
        roots_below(links, k - 1)
    } else {
        roots_below(links, k - 1).push(k - 1)
    }
}

/// Depth-first discovery of the nodes that lead to `origin`.
///
/// The links are scanned from position `i` for those that arrive at `current`.
/// A source that is neither `origin` nor in `seen` is recorded and its own
/// incoming links are scanned, from the first, before the scan for `current`
/// goes on. `fuel` bounds the depth of the descent; as many units as the
/// graph has nodes are never used up.
pub open spec fn visit(
    links: Seq<Link>,
    origin: int,
    fuel: nat,
    current: int,
    i: int,
    seen: Seq<int>,
) -> Seq<int>
    decreases fuel, links.len() - i,
{
    if i < 0 || i >= links.len() {
        seen
    } else if links[i].target == current && links[i].source != origin && !seen.contains(
        links[i].source,
    ) && fuel > 0 {
        let deeper = visit(
            links,
            origin,
            (fuel - 1) as nat,
            links[i].source,
            0,
            seen.push(links[i].source),
        );
        visit(links, origin, fuel, current, i + 1, deeper)
    } else {
        visit(links, origin, fuel, current, i + 1, seen)
    }
}

/// What holds of the nodes discovered on the way to `origin`: none occurs
/// twice, each is one of the first `n` nodes, and none is `origin`.
pub open spec fn seen_valid(seen: Seq<int>, n: nat, origin: int) -> bool {
    &&& seen.no_duplicates()
    &&& forall|k: int| 0 <= k < seen.len() ==> 0 <= #[trigger] seen[k] < n && seen[k] != origin
}

/// A link leads from the node at position `k` of `p` to the next.
pub open spec fn is_step(links: Seq<Link>, p: Seq<int>, k: int) -> bool {
    links.contains(Link { source: p[k], target: p[k + 1] })
}

/// `p` walks along links: it names at least two nodes, and a link leads from
/// each to the next.
pub open spec fn is_walk(links: Seq<Link>, p: Seq<int>) -> bool {
    &&& p.len() >= 2
    &&& forall|k: int| 0 <= k < p.len() - 1 ==> #[trigger] is_step(links, p, k)
}

/// A walk of one link or more leads from `a` to `b`.
pub open spec fn walk_joins(links: Seq<Link>, a: int, b: int) -> bool {
    exists|p: Seq<int>| is_walk(links, p) && p.first() == a && p.last() == b
}

impl<T> GraphModel<T> {
    /// The graph without nodes.
    pub open spec fn empty() -> Self {
        GraphModel { payloads: Seq::empty(), links: Seq::empty() }
    }

    /// The number of nodes.
    pub open spec fn node_count(self) -> nat {
        self.payloads.len()
    }

    /// Every link joins two distinct nodes of the graph, and no link occurs
    /// twice.
    pub open spec fn well_formed(self) -> bool {
        links_valid(self.links, self.node_count())
    }

    /// A link leads from `s` to `t`.
    pub open spec fn has_link(self, s: int, t: int) -> bool {
        self.links.contains(Link { source: s, target: t })
    }

    /// A link from `s` to `t` may be added: the graph has two nodes or more,
    /// `s` and `t` are two of them, and no link joins them in that direction.
    pub open spec fn can_link(self, s: int, t: int) -> bool {
        &&& self.node_count() >= 2
        &&& s != t
        &&& 0 <= s < self.node_count()
        &&& 0 <= t < self.node_count()
        &&& !self.has_link(s, t)
    }

    /// The graph with one more node, which carries `data` and has no links.
    pub open spec fn with_node(self, data: T) -> Self {
        GraphModel { payloads: self.payloads.push(data), links: self.links }
    }

    /// The graph in which node `i` carries `data` instead of its payload.
    pub open spec fn with_payload(self, i: int, data: T) -> Self {
        GraphModel { payloads: self.payloads.update(i, data), links: self.links }
    }

    /// The graph with one more link, from `s` to `t`.
    pub open spec fn with_link(self, s: int, t: int) -> Self {
        GraphModel { payloads: self.payloads, links: self.links.push(Link { source: s, target: t }) }
    }

    /// The direct successors of `s`: the targets of its links, latest link first.
    pub open spec fn successors(self, s: int) -> Seq<int> {
        targets_below(self.links, self.links.len() as int, s)
    }

    /// `i` is a node at which no link arrives.
    pub open spec fn is_root(self, i: int) -> bool {
        0 <= i < self.node_count() && !targeted(self.links, i)
    }

    /// The roots, in ascending order.
    pub open spec fn roots(self) -> Seq<int> {
        roots_below(self.links, self.node_count() as int)
    }

    /// The nodes that lead to `origin`, in the order in which a depth-first
    /// descent along incoming links discovers them.
    pub open spec fn ancestors(self, origin: int) -> Seq<int> {
        visit(self.links, origin, self.node_count(), origin, 0, Seq::empty())
    }

    /// A walk of one link or more leads from `a` to `b`.
    pub open spec fn reaches(self, a: int, b: int) -> bool {
        walk_joins(self.links, a, b)
    }
}

} // verus!
