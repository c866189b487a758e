//! What holds of every well-formed graph model: which nodes the queries
//! name, and what growth does to them.

use crate::model::{
    is_step, is_walk, latest_below, links_valid, roots_below, seen_valid, targeted,
    targets_below, visit, walk_joins, GraphModel, Link,
};
use vstd::prelude::*;
use vstd::set_lib::{lemma_int_range, lemma_len_subset, set_int_range};

verus! {

/// `found` begins with `seen`.
pub open spec fn begins_with(found: Seq<int>, seen: Seq<int>) -> bool {
    &&& seen.len() <= found.len()
    &&& forall|k: int| 0 <= k < seen.len() ==> #[trigger] found[k] == seen[k]
}

/// Every link from position `from` on that arrives at `x` leaves `origin` or
/// a node of `found`.
pub open spec fn parents_within(
    links: Seq<Link>,
    origin: int,
    found: Seq<int>,
    x: int,
    from: int,
) -> bool {
    forall|j: int|
        from <= j < links.len() && (#[trigger] links[j]).target == x ==> links[j].source == origin
            || found.contains(links[j].source)
}

/// `latest_below` looks only at the links before `upto`.
pub proof fn lemma_latest_below_prefix(a: Seq<Link>, b: Seq<Link>, upto: int, s: int)
    requires
        upto <= a.len(),
        upto <= b.len(),
        forall|j: int| 0 <= j < upto ==> a[j] == b[j],
    ensures
        latest_below(a, upto, s) == latest_below(b, upto, s),
    decreases upto,
{
    if upto > 0 && a[upto - 1].source != s {
        lemma_latest_below_prefix(a, b, upto - 1, s);
    }
}

/// The latest link that leaves `s`, if there is one, lies before `upto` and leaves `s`.
pub proof fn lemma_latest_below_bounds(links: Seq<Link>, upto: int, s: int)
    ensures
        latest_below(links, upto, s) matches Some(j) ==> 0 <= j < upto && j < links.len()
            && links[j].source == s,
    decreases upto,
{
    if 0 < upto <= links.len() && links[upto - 1].source != s {
        lemma_latest_below_bounds(links, upto - 1, s);
    }
}

/// A sequence of distinct nodes among the first `n` has `n` members at most.
pub proof fn lemma_distinct_nodes_are_few(q: Seq<int>, n: nat)
    requires
        q.no_duplicates(),
        forall|k: int| 0 <= k < q.len() ==> 0 <= #[trigger] q[k] < n,
    ensures
        q.len() <= n,
{
    q.unique_seq_to_set();
    lemma_int_range(0, n as int);
    assert(q.to_set().subset_of(set_int_range(0, n as int)));
    lemma_len_subset(q.to_set(), set_int_range(0, n as int));
}

/// While a node other than `origin` is still to be discovered, fewer than
/// `n - 1` nodes have been.
pub proof fn lemma_seen_leaves_room(seen: Seq<int>, n: nat, origin: int, fresh: int)
    requires
        seen_valid(seen, n, origin),
        0 <= origin < n,
        0 <= fresh < n,
        fresh != origin,
        !seen.contains(fresh),
    ensures
        seen.len() + 2 <= n,
        seen_valid(seen.push(fresh), n, origin),
{
    let q = seen.push(fresh).push(origin);
    assert forall|a: int, b: int| 0 <= a < q.len() && 0 <= b < q.len() && a != b implies q[a]
        != q[b] by {
        if a < seen.len() && b < seen.len() {
        } else if a < seen.len() {
            assert(seen.contains(seen[a]));
        } else if b < seen.len() {
            assert(seen.contains(seen[b]));
        }
    }
    lemma_distinct_nodes_are_few(q, n);
    assert forall|a: int, b: int|
        0 <= a < seen.push(fresh).len() && 0 <= b < seen.push(fresh).len() && a != b implies seen.push(
        fresh,
    )[a] != seen.push(fresh)[b] by {
        assert(q[a] != q[b]);
    }
}

/// `targets_below` looks only at the links before `upto`.
pub proof fn lemma_targets_below_prefix(a: Seq<Link>, b: Seq<Link>, upto: int, s: int)
    requires
        upto <= a.len(),
        upto <= b.len(),
        forall|j: int| 0 <= j < upto ==> a[j] == b[j],
    ensures
        targets_below(a, upto, s) == targets_below(b, upto, s),
    decreases upto,
{
    if upto > 0 {
        lemma_targets_below_prefix(a, b, upto - 1, s);
    }
}

/// A link that arrives at `t` takes `t` from the roots below `k` and leaves
/// the others in place.
pub proof fn lemma_roots_below_lose(links: Seq<Link>, extra: Link, k: int)
    requires
        0 <= k,
    ensures
        roots_below(links.push(extra), k) == roots_below(links, k).filter(
            |i: int| i != extra.target,
        ),
    decreases k,
{
    let grown = links.push(extra);
    let keep = |i: int| i != extra.target;
    if k > 0 {
        lemma_roots_below_lose(links, extra, k - 1);
        let rest = roots_below(links, k - 1);
        if targeted(links, k - 1) {
            let j = choose|j: int| 0 <= j < links.len() && (#[trigger] links[j]).target == k - 1;
            assert(grown[j].target == k - 1);
        } else {
            let all = rest.push(k - 1);
            assert(roots_below(links, k) == all);
            reveal(Seq::filter);
            assert(all.drop_last() =~= rest);
            assert(all.last() == k - 1);
            if extra.target == k - 1 {
                assert(grown[links.len() as int].target == k - 1);
            } else {
                if targeted(grown, k - 1) {
                    let j = choose|j: int|
                        0 <= j < grown.len() && (#[trigger] grown[j]).target == k - 1;
                    assert(links[j].target == k - 1);
                }
            }
        }
    } else {
        reveal(Seq::filter);
    }
}

/// The targets of `s` before `upto` are the targets of the links that leave
/// `s` there.
pub proof fn lemma_targets_below_contains(links: Seq<Link>, upto: int, s: int, t: int)
    requires
        0 <= upto <= links.len(),
    ensures
        targets_below(links, upto, s).contains(t) <==> exists|j: int|
            0 <= j < upto && #[trigger] links[j] == (Link { source: s, target: t }),
    decreases upto,
{
    if upto > 0 {
        lemma_targets_below_contains(links, upto - 1, s, t);
        let rest = targets_below(links, upto - 1, s);
        let all = targets_below(links, upto, s);
        let last = links[upto - 1];
        if last.source == s {
            assert(all == seq![last.target] + rest);
            if all.contains(t) {
                let k = choose|k: int| 0 <= k < all.len() && all[k] == t;
                if k == 0 {
                    assert(links[upto - 1] == (Link { source: s, target: t }));
                } else {
                    assert(rest[k - 1] == t);
                    assert(rest.contains(t));
                }
            }
            if exists|j: int| 0 <= j < upto && #[trigger] links[j] == (Link { source: s, target: t }) {
                let j = choose|j: int|
                    0 <= j < upto && #[trigger] links[j] == (Link { source: s, target: t });
                if j == upto - 1 {
                    assert(all[0] == t);
                } else {
                    assert(rest.contains(t));
                    let k = choose|k: int| 0 <= k < rest.len() && rest[k] == t;
                    assert(all[k + 1] == t);
                }
            }
        } else {
            if exists|j: int| 0 <= j < upto && #[trigger] links[j] == (Link { source: s, target: t }) {
                let j = choose|j: int|
                    0 <= j < upto && #[trigger] links[j] == (Link { source: s, target: t });
                assert(j != upto - 1);
            }
        }
    }
}

/// The roots below `k` are the nodes below `k` at which no link arrives, and
/// they ascend.
pub proof fn lemma_roots_below(links: Seq<Link>, k: int)
    requires
        0 <= k,
    ensures
        forall|i: int| #[trigger]
            roots_below(links, k).contains(i) <==> 0 <= i < k && !targeted(links, i),
        forall|a: int, b: int|
            0 <= a < b < roots_below(links, k).len() ==> roots_below(links, k)[a] < roots_below(
                links,
                k,
            )[b],
        forall|a: int|
            0 <= a < roots_below(links, k).len() ==> 0 <= #[trigger] roots_below(links, k)[a] < k,
    decreases k,
{
    if k > 0 {
        lemma_roots_below(links, k - 1);
        let rest = roots_below(links, k - 1);
        let all = roots_below(links, k);
        if !targeted(links, k - 1) {
            assert(all == rest.push(k - 1));
            assert(all[rest.len() as int] == k - 1);
            assert forall|i: int| #[trigger] all.contains(i) <==> 0 <= i < k && !targeted(links, i) by {
                if all.contains(i) {
                    let a = choose|a: int| 0 <= a < all.len() && all[a] == i;
                    if a < rest.len() {
                        assert(rest[a] == i);
                        assert(rest.contains(i));
                    }
                }
                if 0 <= i < k - 1 && !targeted(links, i) {
                    assert(rest.contains(i));
                    let a = choose|a: int| 0 <= a < rest.len() && rest[a] == i;
                    assert(all[a] == i);
                }
            }
        }
    }
}

/// What is found in a prefix is found in the whole.
proof fn lemma_prefix_contains(a: Seq<int>, b: Seq<int>, x: int)
    requires
        begins_with(b, a),
        a.contains(x),
    ensures
        b.contains(x),
{
    let k = choose|k: int| 0 <= k < a.len() && a[k] == x;
    assert(b[k] == x);
}

/// A walk that is followed by one more link is a walk.
proof fn lemma_walk_extends(links: Seq<Link>, p: Seq<int>, next: int)
    requires
        is_walk(links, p),
        links.contains((Link { source: p.last(), target: next })),
    ensures
        is_walk(links, p.push(next)),
        p.push(next).first() == p.first(),
        p.push(next).last() == next,
{
    let q = p.push(next);
    assert forall|k: int| 0 <= k < q.len() - 1 implies #[trigger] is_step(links, q, k) by {
        if k < p.len() - 1 {
            assert(is_step(links, p, k));
            assert(q[k] == p[k]);
            assert(q[k + 1] == p[k + 1]);
        }
    }
}

/// A link is a walk between its ends.
proof fn lemma_link_is_walk(links: Seq<Link>, s: int, t: int)
    requires
        links.contains((Link { source: s, target: t })),
    ensures
        walk_joins(links, s, t),
{
    let p = seq![s, t];
    assert(is_step(links, p, 0));
    assert(is_walk(links, p));
    assert(p.first() == s && p.last() == t);
}

/// What the depth-first descent yields.
///
/// It keeps what was seen before, in place, and what it adds is valid. Each
/// node that it adds reaches `current`, and all that lead to such a node by
/// one link are found in the end; so are those that lead to `current` by a
/// link from position `i` on.
pub proof fn lemma_visit(
    links: Seq<Link>,
    n: nat,
    origin: int,
    fuel: nat,
    current: int,
    i: int,
    seen: Seq<int>,
)
    requires
        links_valid(links, n),
        0 <= origin < n,
        0 <= i <= links.len(),
        seen_valid(seen, n, origin),
        fuel + seen.len() + 1 >= n,
    ensures
        ({
            let found = visit(links, origin, fuel, current, i, seen);
            &&& seen_valid(found, n, origin)
            &&& begins_with(found, seen)
            &&& parents_within(links, origin, found, current, i)
            &&& forall|x: int|
                found.contains(x) && !seen.contains(x) ==> #[trigger] parents_within(
                    links,
                    origin,
                    found,
                    x,
                    0,
                )
            &&& forall|x: int|
                found.contains(x) && !seen.contains(x) ==> #[trigger] walk_joins(links, x, current)
        }),
    decreases fuel, links.len() - i,
{
    let found = visit(links, origin, fuel, current, i, seen);
    if i < links.len() {
        let s = links[i].source;
        if links[i].target == current && s != origin && !seen.contains(s) {
            lemma_seen_leaves_room(seen, n, origin, s);
            let first = seen.push(s);
            lemma_visit(links, n, origin, (fuel - 1) as nat, s, 0, first);
            let deeper = visit(links, origin, (fuel - 1) as nat, s, 0, first);
            lemma_visit(links, n, origin, fuel, current, i + 1, deeper);
            assert(found == visit(links, origin, fuel, current, i + 1, deeper));
            assert(first[seen.len() as int] == s);
            assert(first.contains(s));
            lemma_prefix_contains(first, deeper, s);
            lemma_prefix_contains(deeper, found, s);
            assert(links.contains(links[i]));
            assert forall|j: int|
                i <= j < links.len() && (#[trigger] links[j]).target == current implies links[j].source
                == origin || found.contains(links[j].source) by {
                if j == i {
                } else {
                    assert(parents_within(links, origin, found, current, i + 1));
                }
            }
            assert forall|x: int| found.contains(x) && !seen.contains(x) implies #[trigger] parents_within(
                links,
                origin,
                found,
                x,
                0,
            ) && walk_joins(links, x, current) by {
                if deeper.contains(x) {
                    if x == s {
                        assert(parents_within(links, origin, deeper, s, 0));
                        lemma_link_is_walk(links, s, current);
                    } else {
                        assert(!first.contains(x)) by {
                            if first.contains(x) {
                                let k = choose|k: int| 0 <= k < first.len() && first[k] == x;
                                assert(k < seen.len());
                                assert(seen[k] == x);
                            }
                        }
                        assert(parents_within(links, origin, deeper, x, 0));
                        assert(walk_joins(links, x, s));
                        let p = choose|p: Seq<int>|
                            is_walk(links, p) && p.first() == x && p.last() == s;
                        lemma_walk_extends(links, p, current);
                    }
                    assert forall|j: int|
                        0 <= j < links.len() && (#[trigger] links[j]).target == x implies links[j].source
                        == origin || found.contains(links[j].source) by {
                        if links[j].source != origin {
                            lemma_prefix_contains(deeper, found, links[j].source);
                        }
                    }
                } else {
                    assert(parents_within(links, origin, found, x, 0));
                    assert(walk_joins(links, x, current));
                }
            }
            assert forall|x: int| found.contains(x) && !seen.contains(x) implies #[trigger] walk_joins(
                links,
                x,
                current,
            ) by {
                assert(parents_within(links, origin, found, x, 0));
            }
        } else {
            lemma_visit(links, n, origin, fuel, current, i + 1, seen);
            assert forall|j: int|
                i <= j < links.len() && (#[trigger] links[j]).target == current implies links[j].source
                == origin || found.contains(links[j].source) by {
                if j == i {
                    if s != origin {
                        lemma_prefix_contains(seen, found, s);
                    }
                } else {
                    assert(parents_within(links, origin, found, current, i + 1));
                }
            }
        }
    }
}

/// The descent does not depend on the fuel, as long as there is one unit for
/// each node that is neither `origin` nor seen already.
pub proof fn lemma_visit_fuel(
    links: Seq<Link>,
    n: nat,
    origin: int,
    fuel: nat,
    other: nat,
    current: int,
    i: int,
    seen: Seq<int>,
)
    requires
        links_valid(links, n),
        0 <= origin < n,
        0 <= i <= links.len(),
        seen_valid(seen, n, origin),
        fuel + seen.len() + 1 >= n,
        other + seen.len() + 1 >= n,
    ensures
        visit(links, origin, fuel, current, i, seen) == visit(links, origin, other, current, i, seen),
    decreases fuel, links.len() - i,
{
    if i < links.len() {
        let s = links[i].source;
        if links[i].target == current && s != origin && !seen.contains(s) {
            lemma_seen_leaves_room(seen, n, origin, s);
            let first = seen.push(s);
            lemma_visit_fuel(
                links,
                n,
                origin,
                (fuel - 1) as nat,
                (other - 1) as nat,
                s,
                0,
                first,
            );
            lemma_visit(links, n, origin, (fuel - 1) as nat, s, 0, first);
            let deeper = visit(links, origin, (fuel - 1) as nat, s, 0, first);
            lemma_visit_fuel(links, n, origin, fuel, other, current, i + 1, deeper);
        } else {
            lemma_visit_fuel(links, n, origin, fuel, other, current, i + 1, seen);
        }
    }
}

/// A walk that ends at `origin` stays within `origin` and `found`, where all
/// that lead by one link to `origin` or to a node of `found` are among them.
proof fn lemma_walk_stays_within(
    links: Seq<Link>,
    origin: int,
    found: Seq<int>,
    p: Seq<int>,
    k: int,
)
    requires
        is_walk(links, p),
        p.last() == origin,
        parents_within(links, origin, found, origin, 0),
        forall|x: int| found.contains(x) ==> #[trigger] parents_within(links, origin, found, x, 0),
        0 <= k < p.len(),
    ensures
        p[k] == origin || found.contains(p[k]),
    decreases p.len() - k,
{
    if k < p.len() - 1 {
        lemma_walk_stays_within(links, origin, found, p, k + 1);
        let link = Link { source: p[k], target: p[k + 1] };
        assert(is_step(links, p, k));
        let j = choose|j: int| 0 <= j < links.len() && links[j] == link;
        assert(parents_within(links, origin, found, p[k + 1], 0));
        assert(links[j].target == p[k + 1]);
    }
}

impl<T> GraphModel<T> {
    /// A new node leaves the graph well formed.
    pub proof fn lemma_with_node_is_well_formed(self, data: T)
        requires
            self.well_formed(),
        ensures
            self.with_node(data).well_formed(),
    {
    }

    /// A link that may be added leaves the graph well formed.
    pub proof fn lemma_with_link_is_well_formed(self, s: int, t: int)
        requires
            self.well_formed(),
            self.can_link(s, t),
        ensures
            self.with_link(s, t).well_formed(),
    {
        let link = Link { source: s, target: t };
        let grown = self.links.push(link);
        assert forall|a: int, b: int| 0 <= a < grown.len() && 0 <= b < grown.len() && a != b implies grown[a]
            != grown[b] by {
            if a < self.links.len() && b < self.links.len() {
            } else if a < self.links.len() {
                assert(self.links[a] != link);
            } else {
                assert(self.links[b] != link);
            }
        }
    }

    /// A new link puts its target before the other successors of its source,
    /// and leaves the successors of every other node as they were.
    pub proof fn lemma_new_link_comes_first(self, s: int, t: int, other: int)
        requires
            other != s,
        ensures
            self.with_link(s, t).successors(s) == seq![t] + self.successors(s),
            self.with_link(s, t).successors(other) == self.successors(other),
    {
        let grown = self.with_link(s, t).links;
        let upto = self.links.len() as int;
        lemma_targets_below_prefix(self.links, grown, upto, s);
        lemma_targets_below_prefix(self.links, grown, upto, other);
    }

    /// A new node changes the successors of no node.
    pub proof fn lemma_new_node_keeps_successors(self, data: T, s: int)
        ensures
            self.with_node(data).successors(s) == self.successors(s),
    {
    }

    /// A new node is the last of the roots.
    pub proof fn lemma_new_node_is_last_root(self, data: T)
        requires
            self.well_formed(),
        ensures
            self.with_node(data).roots() == self.roots().push(self.node_count() as int),
    {
        let n = self.node_count() as int;
        if targeted(self.links, n) {
            let j = choose|j: int|
                0 <= j < self.links.len() && (#[trigger] self.links[j]).target == n;
        }
    }

    /// A new link takes its target from the roots and leaves the other
    /// roots in place.
    pub proof fn lemma_new_link_takes_root(self, s: int, t: int)
        ensures
            self.with_link(s, t).roots() == self.roots().filter(|i: int| i != t),
    {
        lemma_roots_below_lose(
            self.links,
            Link { source: s, target: t },
            self.node_count() as int,
        );
    }

    /// The successors of `s` are the targets of the links that leave `s`.
    pub proof fn lemma_successors_are_link_targets(self, s: int, t: int)
        ensures
            self.successors(s).contains(t) <==> self.has_link(s, t),
    {
        lemma_targets_below_contains(self.links, self.links.len() as int, s, t);
    }

    /// The roots are the nodes at which no link arrives, each once and in
    /// ascending order.
    pub proof fn lemma_roots_are_untargeted(self)
        ensures
            forall|i: int| #[trigger] self.roots().contains(i) <==> self.is_root(i),
            forall|a: int, b: int|
                0 <= a < b < self.roots().len() ==> self.roots()[a] < self.roots()[b],
    {
        lemma_roots_below(self.links, self.node_count() as int);
    }

    /// The graph without nodes has no roots.
    pub proof fn lemma_empty_has_no_roots()
        ensures
            Self::empty().roots() == Seq::<int>::empty(),
    {
    }

    /// The ancestors of `origin` are distinct nodes of the graph, and
    /// `origin` is not among them.
    pub proof fn lemma_ancestors_are_distinct(self, origin: int)
        requires
            self.well_formed(),
            0 <= origin < self.node_count(),
        ensures
            seen_valid(self.ancestors(origin), self.node_count(), origin),
    {
        lemma_visit(
            self.links,
            self.node_count(),
            origin,
            self.node_count(),
            origin,
            0,
            Seq::empty(),
        );
    }

    /// The ancestors of `origin` are the nodes other than `origin` from
    /// which a walk leads to it.
    pub proof fn lemma_ancestors_are_those_that_reach(self, origin: int, x: int)
        requires
            self.well_formed(),
            0 <= origin < self.node_count(),
        ensures
            self.ancestors(origin).contains(x) <==> x != origin && self.reaches(x, origin),
    {
        let found = self.ancestors(origin);
        lemma_visit(
            self.links,
            self.node_count(),
            origin,
            self.node_count(),
            origin,
            0,
            Seq::empty(),
        );
        assert forall|y: int| found.contains(y) implies #[trigger] parents_within(
            self.links,
            origin,
            found,
            y,
            0,
        ) by {
            assert(!Seq::<int>::empty().contains(y));
        }
        if found.contains(x) {
            assert(!Seq::<int>::empty().contains(x));
            assert(walk_joins(self.links, x, origin));
            let k = choose|k: int| 0 <= k < found.len() && found[k] == x;
            assert(found[k] != origin);
        }
        if x != origin && self.reaches(x, origin) {
            let p = choose|p: Seq<int>|
                is_walk(self.links, p) && p.first() == x && p.last() == origin;
            lemma_walk_stays_within(self.links, origin, found, p, 0);
        }
    }

    /// Each link shows from both of its ends: its target is a successor of
    /// its source, and its source an ancestor of its target.
    pub proof fn lemma_link_shows_at_both_ends(self, s: int, t: int)
        requires
            self.well_formed(),
            self.has_link(s, t),
        ensures
            self.successors(s).contains(t),
            self.ancestors(t).contains(s),
    {
        self.lemma_successors_are_link_targets(s, t);
        let link = Link { source: s, target: t };
        let j = choose|j: int| 0 <= j < self.links.len() && self.links[j] == link;
        assert(self.links[j].source != self.links[j].target);
        lemma_link_is_walk(self.links, s, t);
        self.lemma_ancestors_are_those_that_reach(t, s);
    }

    /// A link that was added stays, whatever is added after it.
    pub proof fn lemma_links_stay(self, s: int, t: int)
        requires
            self.has_link(s, t),
        ensures
            forall|data: T| #[trigger] self.with_node(data).has_link(s, t),
            forall|a: int, b: int| #[trigger] self.with_link(a, b).has_link(s, t),
    {
        let link = Link { source: s, target: t };
        let j = choose|j: int| 0 <= j < self.links.len() && self.links[j] == link;
        assert forall|a: int, b: int| #[trigger] self.with_link(a, b).has_link(s, t) by {
            assert(self.with_link(a, b).links[j] == link);
        }
    }

    /// A link cannot be added twice: once it is there, it may not be added.
    pub proof fn lemma_link_is_not_repeated(self, s: int, t: int)
        requires
            self.can_link(s, t),
        ensures
            !self.with_link(s, t).can_link(s, t),
    {
        let grown = self.with_link(s, t);
        assert(grown.links[self.links.len() as int] == (Link { source: s, target: t }));
    }

    /// No node can be linked to itself.
    pub proof fn lemma_no_self_link(self, x: int)
        ensures
            !self.can_link(x, x),
    {
    }
}

} // verus!
