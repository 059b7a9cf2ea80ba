//! Cluster chains, as the file allocation table links them.
//!
//! The functions of this module say what a chain is over the sectors that
//! the cache holds, by sector number. The cache only grows, and what these
//! functions have found in a cache they find in every cache that has grown
//! from it.

use crate::bytes::le_u32_at;
use crate::vfat::cluster::Cluster;
use crate::vfat::fat::{status_of, Status};
use crate::vfat::geometry::Geometry;
use vstd::prelude::*;

verus! {

/// The number of clusters after which a chain is given up. An entry that
/// links to a next cluster names one of fewer than 2^28 clusters, so a chain
/// that is longer than this has come by some cluster twice and has no end.
pub const MAX_CHAIN_CLUSTERS: u32 = 0x1000_0000;

/// What the table and the cache say of one cluster of a chain.
pub enum Step {
    /// The cluster belongs to the chain, its data is cached, and the chain
    /// goes on with this cluster.
    Next(Cluster),
    /// The cluster is the last of its chain, and its data is cached.
    Last,
    /// The table entry of the cluster is free, reserved or bad.
    Broken,
    /// The cache does not hold the table entry of the cluster, or not all of
    /// its data.
    Unread,
}

/// What following a cluster chain through the cached sectors comes to.
pub enum Walk {
    /// The chain ends in an end-of-chain entry; these are its clusters in order.
    Chain(Seq<Cluster>),
    /// The chain runs into an entry that is free, reserved or bad, or it
    /// goes on for more than `MAX_CHAIN_CLUSTERS` clusters.
    Broken,
    /// The chain leads to a sector that the cache does not hold.
    Unread,
}

/// What reading a cluster chain through the cached sectors gives.
pub enum Contents {
    /// The chain has an end; these are the bytes of its clusters in order.
    Bytes(Seq<u8>),
    /// The chain runs into an entry that is free, reserved or bad, or has no end.
    Broken,
    /// The chain leads to a sector that the cache does not hold.
    Unread,
}

impl Walk {
    /// The walk that starts with the clusters `head` and goes on as `self`.
    pub open spec fn after(self, head: Seq<Cluster>) -> Walk {
        match self {
            Walk::Chain(rest) => Walk::Chain(head + rest),
            w => w,
        }
    }
}

/// The number of the sector that lies `i` sectors after sector `first`.
pub open spec fn sector_at(first: int, i: int) -> u64 {
    (first + i) as u64
}

/// The cache `s` holds the `count` sectors from sector `first` on.
pub open spec fn run_cached(s: Map<u64, Seq<u8>>, first: int, count: int) -> bool {
    forall|i: int| 0 <= i < count ==> s.contains_key(#[trigger] sector_at(first, i))
}

/// The bytes of the `count` sectors from sector `first` on, one after another.
pub open spec fn run_bytes(s: Map<u64, Seq<u8>>, first: int, count: int) -> Seq<u8>
    decreases count,
{
    if count <= 0 {
        Seq::<u8>::empty()
    } else {
        run_bytes(s, first, count - 1) + s[sector_at(first, count - 1)]
    }
}

/// The cache holds the sector with the table entry of cluster `c`.
pub open spec fn fat_cached(s: Map<u64, Seq<u8>>, g: Geometry, c: Cluster) -> bool {
    s.contains_key(g.fat_sector(c) as u64)
}

/// The table entry of cluster `c`.
pub open spec fn fat_value(s: Map<u64, Seq<u8>>, g: Geometry, c: Cluster) -> u32 {
    le_u32_at(s[g.fat_sector(c) as u64], g.fat_offset(c))
}

/// The cache holds every sector of cluster `c`.
pub open spec fn cluster_cached(s: Map<u64, Seq<u8>>, g: Geometry, c: Cluster) -> bool {
    run_cached(s, g.first_sector(c), g.sectors_per_cluster as int)
}

/// The bytes of cluster `c`.
pub open spec fn cluster_data(s: Map<u64, Seq<u8>>, g: Geometry, c: Cluster) -> Seq<u8> {
    run_bytes(s, g.first_sector(c), g.sectors_per_cluster as int)
}

/// The bytes of the clusters `chain`, one cluster after another.
pub open spec fn chain_bytes(s: Map<u64, Seq<u8>>, g: Geometry, chain: Seq<Cluster>) -> Seq<u8>
    decreases chain.len(),
{
    if chain.len() == 0 {
        Seq::<u8>::empty()
    } else {
        chain_bytes(s, g, chain.drop_last()) + cluster_data(s, g, chain.last())
    }
}

/// What the table and the cache say of cluster `c`. The table entry is
/// looked at first and the data second.
pub open spec fn step(s: Map<u64, Seq<u8>>, g: Geometry, c: Cluster) -> Step {
    if !fat_cached(s, g, c) {
        Step::Unread
    } else {
        match status_of(fat_value(s, g, c)) {
            Status::Data(next) => if cluster_cached(s, g, c) {
                Step::Next(next)
            } else {
                Step::Unread
            },
            Status::Eoc(_) => if cluster_cached(s, g, c) {
                Step::Last
            } else {
                Step::Unread
            },
            _ => Step::Broken,
        }
    }
}

/// Follows the chain that starts at cluster `c` for at most `fuel` clusters.
/// The walk stops at the first thing that is missing or wrong.
pub open spec fn walk(s: Map<u64, Seq<u8>>, g: Geometry, c: Cluster, fuel: nat) -> Walk
    decreases fuel,
{
    if fuel == 0 {
        Walk::Broken
    } else {
        match step(s, g, c) {
            Step::Next(next) => walk(s, g, next, (fuel - 1) as nat).after(seq![c]),
            Step::Last => Walk::Chain(seq![c]),
            Step::Broken => Walk::Broken,
            Step::Unread => Walk::Unread,
        }
    }
}

/// What reading the chain from cluster `start` through the cache `s` gives.
pub open spec fn contents_of(s: Map<u64, Seq<u8>>, g: Geometry, start: Cluster) -> Contents {
    match walk(s, g, start, MAX_CHAIN_CLUSTERS as nat) {
        Walk::Chain(chain) => Contents::Bytes(chain_bytes(s, g, chain)),
        Walk::Broken => Contents::Broken,
        Walk::Unread => Contents::Unread,
    }
}

/// What a chain has given stays what it is when the cache grows.
pub proof fn lemma_contents_stable(
    s: Map<u64, Seq<u8>>,
    t: Map<u64, Seq<u8>>,
    g: Geometry,
    start: Cluster,
)
    requires
        s.submap_of(t),
        !(contents_of(s, g, start) is Unread),
    ensures
        contents_of(t, g, start) == contents_of(s, g, start),
{
    lemma_walk_stable(s, t, g, start, MAX_CHAIN_CLUSTERS as nat);
}

/// The cluster that follows `visited[i]` on the way to `cursor`.
pub open spec fn successor(visited: Seq<Cluster>, cursor: Cluster, i: int) -> Cluster {
    if i + 1 < visited.len() {
        visited[i + 1]
    } else {
        cursor
    }
}

/// The cluster at which the way through `visited` to `cursor` starts.
pub open spec fn origin(visited: Seq<Cluster>, cursor: Cluster) -> Cluster {
    if visited.len() > 0 {
        visited[0]
    } else {
        cursor
    }
}

/// The clusters `visited` are linked in the table, each to the next and the
/// last of them to `cursor`, and the cache holds the data of each.
pub open spec fn linked(
    s: Map<u64, Seq<u8>>,
    g: Geometry,
    visited: Seq<Cluster>,
    cursor: Cluster,
) -> bool {
    forall|i: int|
        0 <= i < visited.len() ==> step(s, g, #[trigger] visited[i]) == Step::Next(
            successor(visited, cursor, i),
        )
}

/// A cache that has grown holds the same bytes for the sectors it held before.
pub proof fn lemma_run_bytes_stable(
    s: Map<u64, Seq<u8>>,
    t: Map<u64, Seq<u8>>,
    first: int,
    count: int,
)
    requires
        s.submap_of(t),
        run_cached(s, first, count),
    ensures
        run_cached(t, first, count),
        run_bytes(t, first, count) == run_bytes(s, first, count),
    decreases count,
{
    assert forall|i: int| 0 <= i < count implies t.contains_key(#[trigger] sector_at(first, i)) by {
        assert(s.dom().contains(sector_at(first, i)));
    }
    if count > 0 {
        lemma_run_bytes_stable(s, t, first, count - 1);
        let k = sector_at(first, count - 1);
        assert(s.dom().contains(k) && t.dom().contains(k));
    }
}

/// A run of sectors that all have `size` bytes has `count * size` bytes.
pub proof fn lemma_run_bytes_len(s: Map<u64, Seq<u8>>, first: int, count: int, size: int)
    requires
        0 <= count,
        run_cached(s, first, count),
        forall|n: u64| #[trigger] s.contains_key(n) ==> s[n].len() == size,
    ensures
        run_bytes(s, first, count).len() == count * size,
    decreases count,
{
    if count > 0 {
        lemma_run_bytes_len(s, first, count - 1, size);
        assert(s.contains_key(sector_at(first, count - 1)));
        assert((count - 1) * size + size == count * size) by (nonlinear_arith);
    } else {
        assert(count * size == 0) by (nonlinear_arith)
            requires
                count == 0,
        ;
    }
}

/// What the table and the cache say of a cluster stays what it is when the
/// cache grows, unless something was not cached; and so do the bytes of the
/// cluster.
pub proof fn lemma_step_stable(s: Map<u64, Seq<u8>>, t: Map<u64, Seq<u8>>, g: Geometry, c: Cluster)
    requires
        s.submap_of(t),
        !(step(s, g, c) is Unread),
    ensures
        step(t, g, c) == step(s, g, c),
        !(step(s, g, c) is Broken) ==> cluster_data(t, g, c) == cluster_data(s, g, c),
{
    let k = g.fat_sector(c) as u64;
    assert(s.dom().contains(k) && t.dom().contains(k));
    if !(step(s, g, c) is Broken) {
        lemma_run_bytes_stable(s, t, g.first_sector(c), g.sectors_per_cluster as int);
    }
}

/// A cache that has grown links the same clusters and holds the same bytes
/// for them.
pub proof fn lemma_linked_stable(
    s: Map<u64, Seq<u8>>,
    t: Map<u64, Seq<u8>>,
    g: Geometry,
    visited: Seq<Cluster>,
    cursor: Cluster,
)
    requires
        s.submap_of(t),
        linked(s, g, visited, cursor),
    ensures
        linked(t, g, visited, cursor),
        chain_bytes(t, g, visited) == chain_bytes(s, g, visited),
    decreases visited.len(),
{
    assert forall|i: int| 0 <= i < visited.len() implies step(t, g, #[trigger] visited[i])
        == Step::Next(successor(visited, cursor, i)) by {
        lemma_step_stable(s, t, g, visited[i]);
    }
    if visited.len() > 0 {
        let front = visited.drop_last();
        assert forall|i: int| 0 <= i < front.len() implies step(s, g, #[trigger] front[i])
            == Step::Next(successor(front, visited.last(), i)) by {
            assert(front[i] == visited[i]);
        }
        lemma_linked_stable(s, t, g, front, visited.last());
        lemma_step_stable(s, t, g, visited[visited.len() - 1]);
    }
}

/// The bytes of a chain whose clusters are all cached, in a cache whose
/// sectors all have the size of a sector of the volume, are as many as the
/// chain has clusters times the size of a cluster.
pub proof fn lemma_chain_bytes_len(s: Map<u64, Seq<u8>>, g: Geometry, chain: Seq<Cluster>)
    requires
        forall|i: int| 0 <= i < chain.len() ==> cluster_cached(s, g, #[trigger] chain[i]),
        forall|n: u64| #[trigger] s.contains_key(n) ==> s[n].len() == g.bytes_per_sector,
    ensures
        chain_bytes(s, g, chain).len() == chain.len() * g.cluster_bytes(),
    decreases chain.len(),
{
    if chain.len() > 0 {
        let front = chain.drop_last();
        assert forall|i: int| 0 <= i < front.len() implies cluster_cached(
            s,
            g,
            #[trigger] front[i],
        ) by {
            assert(front[i] == chain[i]);
        }
        lemma_chain_bytes_len(s, g, front);
        assert(cluster_cached(s, g, chain[chain.len() - 1]));
        lemma_run_bytes_len(
            s,
            g.first_sector(chain.last()),
            g.sectors_per_cluster as int,
            g.bytes_per_sector as int,
        );
        assert((chain.len() - 1) * g.cluster_bytes() + g.cluster_bytes() == chain.len()
            * g.cluster_bytes()) by (nonlinear_arith);
    } else {
        assert(chain.len() * g.cluster_bytes() == 0) by (nonlinear_arith)
            requires
                chain.len() == 0,
        ;
    }
}

/// A walk from the first of a run of linked clusters is the walk from the
/// cluster that the run leads to, with the run put before it.
pub proof fn lemma_walk_linked(
    s: Map<u64, Seq<u8>>,
    g: Geometry,
    visited: Seq<Cluster>,
    cursor: Cluster,
    fuel: nat,
)
    requires
        linked(s, g, visited, cursor),
        visited.len() <= fuel,
    ensures
        walk(s, g, origin(visited, cursor), fuel) == walk(
            s,
            g,
            cursor,
            (fuel - visited.len()) as nat,
        ).after(visited),
    decreases visited.len(),
{
    let tail_walk = walk(s, g, cursor, (fuel - visited.len()) as nat);
    if visited.len() == 0 {
        match tail_walk {
            Walk::Chain(rest) => {
                assert(visited + rest =~= rest);
            },
            _ => {},
        }
    } else {
        let rest = visited.drop_first();
        assert forall|i: int| 0 <= i < rest.len() implies step(s, g, #[trigger] rest[i])
            == Step::Next(successor(rest, cursor, i)) by {
            assert(rest[i] == visited[i + 1]);
        }
        lemma_walk_linked(s, g, rest, cursor, (fuel - 1) as nat);
        assert(step(s, g, visited[0]) == Step::Next(successor(visited, cursor, 0)));
        assert(successor(visited, cursor, 0) == origin(rest, cursor));
        match tail_walk {
            Walk::Chain(end) => {
                assert(seq![visited[0]] + (rest + end) =~= visited + end);
            },
            _ => {},
        }
    }
}

/// The bytes of a chain are the bytes of its first cluster and then those of
/// the rest.
pub proof fn lemma_chain_bytes_front(
    s: Map<u64, Seq<u8>>,
    g: Geometry,
    c: Cluster,
    rest: Seq<Cluster>,
)
    ensures
        chain_bytes(s, g, seq![c] + rest) == cluster_data(s, g, c) + chain_bytes(s, g, rest),
    decreases rest.len(),
{
    let whole = seq![c] + rest;
    if rest.len() == 0 {
        assert(whole.drop_last() =~= Seq::<Cluster>::empty());
        assert(chain_bytes(s, g, whole.drop_last()) =~= Seq::<u8>::empty());
        assert(chain_bytes(s, g, whole) =~= cluster_data(s, g, c));
        assert(chain_bytes(s, g, rest) =~= Seq::<u8>::empty());
        assert(cluster_data(s, g, c) + chain_bytes(s, g, rest) =~= cluster_data(s, g, c));
    } else {
        lemma_chain_bytes_front(s, g, c, rest.drop_last());
        assert(whole.drop_last() =~= seq![c] + rest.drop_last());
        assert(whole.last() == rest.last());
        assert((cluster_data(s, g, c) + chain_bytes(s, g, rest.drop_last())) + cluster_data(
            s,
            g,
            rest.last(),
        ) =~= cluster_data(s, g, c) + (chain_bytes(s, g, rest.drop_last()) + cluster_data(
            s,
            g,
            rest.last(),
        )));
    }
}

/// What a walk has found stays found when the cache grows: only a walk that
/// came to a sector that was not cached can come out differently.
pub proof fn lemma_walk_stable(
    s: Map<u64, Seq<u8>>,
    t: Map<u64, Seq<u8>>,
    g: Geometry,
    c: Cluster,
    fuel: nat,
)
    requires
        s.submap_of(t),
        !(walk(s, g, c, fuel) is Unread),
    ensures
        walk(t, g, c, fuel) == walk(s, g, c, fuel),
        walk(s, g, c, fuel) matches Walk::Chain(chain) ==> chain_bytes(t, g, chain) == chain_bytes(
            s,
            g,
            chain,
        ),
    decreases fuel,
{
    if fuel > 0 {
        lemma_step_stable(s, t, g, c);
        match step(s, g, c) {
            Step::Next(next) => {
                lemma_walk_stable(s, t, g, next, (fuel - 1) as nat);
                match walk(s, g, next, (fuel - 1) as nat) {
                    Walk::Chain(rest) => {
                        lemma_chain_bytes_front(s, g, c, rest);
                        lemma_chain_bytes_front(t, g, c, rest);
                    },
                    _ => {},
                }
            },
            Step::Last => {
                lemma_chain_bytes_front(s, g, c, Seq::<Cluster>::empty());
                lemma_chain_bytes_front(t, g, c, Seq::<Cluster>::empty());
                assert(seq![c] + Seq::<Cluster>::empty() =~= seq![c]);
            },
            _ => {},
        }
    }
}

/// A way through linked clusters that is as long as a chain may be is the
/// way of a chain that has no end.
pub proof fn lemma_walk_exhausted(
    s: Map<u64, Seq<u8>>,
    g: Geometry,
    visited: Seq<Cluster>,
    cursor: Cluster,
)
    requires
        linked(s, g, visited, cursor),
        visited.len() == MAX_CHAIN_CLUSTERS,
    ensures
        walk(s, g, origin(visited, cursor), MAX_CHAIN_CLUSTERS as nat) == Walk::Broken,
{
    lemma_walk_linked(s, g, visited, cursor, MAX_CHAIN_CLUSTERS as nat);
}

/// A way through linked clusters, in a cache that has since grown, goes on
/// by one cluster when the cursor is linked to a next one.
pub proof fn lemma_walk_extended(
    s: Map<u64, Seq<u8>>,
    t: Map<u64, Seq<u8>>,
    g: Geometry,
    visited: Seq<Cluster>,
    cursor: Cluster,
    next: Cluster,
)
    requires
        s.submap_of(t),
        linked(s, g, visited, cursor),
        step(t, g, cursor) == Step::Next(next),
    ensures
        linked(t, g, visited.push(cursor), next),
        origin(visited.push(cursor), next) == origin(visited, cursor),
        chain_bytes(t, g, visited.push(cursor)) == chain_bytes(s, g, visited) + cluster_data(
            t,
            g,
            cursor,
        ),
{
    lemma_linked_stable(s, t, g, visited, cursor);
    let longer = visited.push(cursor);
    assert forall|i: int| 0 <= i < longer.len() implies step(t, g, #[trigger] longer[i])
        == Step::Next(successor(longer, next, i)) by {
        if i < visited.len() {
            assert(longer[i] == visited[i]);
            assert(successor(longer, next, i) == successor(visited, cursor, i));
        }
    }
    assert(longer.drop_last() =~= visited);
}

/// A way through linked clusters, in a cache that has since grown, comes to
/// its end when the cursor is not linked to a next cluster: the walk from
/// the start is the chain that ends with the cursor, or the fault or gap
/// that the cursor shows.
pub proof fn lemma_walk_finished(
    s: Map<u64, Seq<u8>>,
    t: Map<u64, Seq<u8>>,
    g: Geometry,
    visited: Seq<Cluster>,
    cursor: Cluster,
)
    requires
        s.submap_of(t),
        linked(s, g, visited, cursor),
        visited.len() < MAX_CHAIN_CLUSTERS,
        !(step(t, g, cursor) is Next),
        forall|n: u64| #[trigger] t.contains_key(n) ==> t[n].len() == g.bytes_per_sector,
    ensures
        walk(t, g, origin(visited, cursor), MAX_CHAIN_CLUSTERS as nat) == (match step(
            t,
            g,
            cursor,
        ) {
            Step::Last => Walk::Chain(visited.push(cursor)),
            Step::Broken => Walk::Broken,
            _ => Walk::Unread,
        }),
        step(t, g, cursor) is Last ==> {
            &&& chain_bytes(t, g, visited.push(cursor)) == chain_bytes(s, g, visited)
                + cluster_data(t, g, cursor)
            &&& chain_bytes(t, g, visited.push(cursor)).len() == (visited.len() + 1)
                * g.cluster_bytes()
        },
{
    lemma_linked_stable(s, t, g, visited, cursor);
    lemma_walk_linked(t, g, visited, cursor, MAX_CHAIN_CLUSTERS as nat);
    let chain = visited.push(cursor);
    if step(t, g, cursor) is Last {
        assert(visited + seq![cursor] =~= chain);
        assert(chain.drop_last() =~= visited);
        assert forall|i: int| 0 <= i < chain.len() implies cluster_cached(
            t,
            g,
            #[trigger] chain[i],
        ) by {
            if i < visited.len() {
                assert(chain[i] == visited[i]);
                assert(step(t, g, visited[i]) is Next);
            }
        }
        lemma_chain_bytes_len(t, g, chain);
    }
}

/// The clusters of a chain are those that the table links: the chain starts
/// at the cluster the walk started from, the table entry of each cluster but
/// the last names the cluster after it, the entry of the last is an
/// end-of-chain mark, and the cache holds the data of every one of them.
pub proof fn lemma_chain_follows_links(
    s: Map<u64, Seq<u8>>,
    g: Geometry,
    start: Cluster,
    fuel: nat,
    chain: Seq<Cluster>,
)
    requires
        walk(s, g, start, fuel) == Walk::Chain(chain),
    ensures
        0 < chain.len() <= fuel,
        chain[0] == start,
        forall|i: int|
            0 <= i < chain.len() - 1 ==> status_of(fat_value(s, g, #[trigger] chain[i]))
                == Status::Data(chain[i + 1]),
        status_of(fat_value(s, g, chain.last())) is Eoc,
        forall|i: int|
            0 <= i < chain.len() ==> fat_cached(s, g, #[trigger] chain[i]) && cluster_cached(
                s,
                g,
                chain[i],
            ),
    decreases fuel,
{
    if fuel > 0 {
        match step(s, g, start) {
            Step::Next(next) => {
                let rest = walk(s, g, next, (fuel - 1) as nat)->Chain_0;
                lemma_chain_follows_links(s, g, next, (fuel - 1) as nat, rest);
                assert(chain =~= seq![start] + rest);
                assert forall|i: int| 0 <= i < chain.len() - 1 implies status_of(
                    fat_value(s, g, #[trigger] chain[i]),
                ) == Status::Data(chain[i + 1]) by {
                    if i > 0 {
                        assert(chain[i] == rest[i - 1]);
                    }
                }
                assert forall|i: int| 0 <= i < chain.len() implies fat_cached(
                    s,
                    g,
                    #[trigger] chain[i],
                ) && cluster_cached(s, g, chain[i]) by {
                    if i > 0 {
                        assert(chain[i] == rest[i - 1]);
                    }
                }
                assert(chain.last() == rest.last());
            },
            _ => {},
        }
    }
}

/// A chain that comes, by way of links that the cache holds, to a cluster
/// whose table entry is free, reserved or bad is broken: it is no chain,
/// however many clusters came before the fault.
pub proof fn lemma_fault_breaks_chain(
    s: Map<u64, Seq<u8>>,
    g: Geometry,
    visited: Seq<Cluster>,
    cursor: Cluster,
)
    requires
        linked(s, g, visited, cursor),
        visited.len() < MAX_CHAIN_CLUSTERS,
        fat_cached(s, g, cursor),
        !(status_of(fat_value(s, g, cursor)) is Data),
        !(status_of(fat_value(s, g, cursor)) is Eoc),
    ensures
        walk(s, g, origin(visited, cursor), MAX_CHAIN_CLUSTERS as nat) == Walk::Broken,
        contents_of(s, g, origin(visited, cursor)) == Contents::Broken,
{
    lemma_walk_linked(s, g, visited, cursor, MAX_CHAIN_CLUSTERS as nat);
}

/// A way through linked clusters that is as long as a chain may be has come
/// by some cluster twice: the chain goes round and has no end. So the limit
/// on the length of a chain cuts off no chain that ends.
pub proof fn lemma_long_way_repeats(
    s: Map<u64, Seq<u8>>,
    g: Geometry,
    visited: Seq<Cluster>,
    cursor: Cluster,
)
    requires
        linked(s, g, visited, cursor),
        visited.len() >= MAX_CHAIN_CLUSTERS,
    ensures
        exists|i: int, j: int| 0 <= i < j < visited.len() && visited[i] == visited[j],
{
    // Every cluster after the first is named by a table entry, and a table
    // entry names a cluster from 2 to 0x0FFF_FFEF.
    let named = Seq::new((visited.len() - 1) as nat, |k: int| visited[k + 1].0 as int);
    assert forall|k: int| 0 <= k < named.len() implies 2 <= #[trigger] named[k] < 0x0FFF_FFF0 by {
        assert(step(s, g, visited[k]) == Step::Next(successor(visited, cursor, k)));
    }
    if named.no_duplicates() {
        named.unique_seq_to_set();
        vstd::set_lib::lemma_int_range(2, 0x0FFF_FFF0);
        assert forall|n: int| named.to_set().contains(n) implies vstd::set_lib::set_int_range(
            2,
            0x0FFF_FFF0,
        ).contains(n) by {
            let k = choose|k: int| 0 <= k < named.len() && named[k] == n;
            assert(2 <= named[k] < 0x0FFF_FFF0);
        }
        vstd::set_lib::lemma_len_subset(
            named.to_set(),
            vstd::set_lib::set_int_range(2, 0x0FFF_FFF0),
        );
        assert(false);
    }
    let (a, b) = choose|a: int, b: int|
        0 <= a < named.len() && 0 <= b < named.len() && a != b && named[a] == named[b];
    if a < b {
        assert(visited[a + 1] == visited[b + 1]);
    } else {
        assert(visited[b + 1] == visited[a + 1]);
    }
}

} // verus!
