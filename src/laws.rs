use vstd::prelude::*;
use crate::edges::{quad, with_edge};
use crate::key::{edge_key_view, Dir, KeyView, ThingView};
use crate::txn::{count_key, Transaction};

verus! {

/// After an edge from `l` to `r` through `rid` is stored, its four adjacency
/// entries are present, and every entry present was present before or is one
/// of the four: no other entry was created.
pub proof fn lemma_quad_invariant(
    a: Transaction,
    b: Transaction,
    ns: Seq<char>,
    db: Seq<char>,
    l: ThingView,
    rid: ThingView,
    r: ThingView,
)
    requires
        with_edge(a, b, ns, db, l, rid, r),
    ensures
        b.entries().contains(edge_key_view(ns, db, l, Dir::Out, rid)),
        b.entries().contains(edge_key_view(ns, db, rid, Dir::In, l)),
        b.entries().contains(edge_key_view(ns, db, rid, Dir::Out, r)),
        b.entries().contains(edge_key_view(ns, db, r, Dir::In, rid)),
        forall|k: KeyView|
            b.entries().contains(k) && !a.entries().contains(k) ==> k == edge_key_view(
                ns,
                db,
                l,
                Dir::Out,
                rid,
            ) || k == edge_key_view(ns, db, rid, Dir::In, l) || k == edge_key_view(
                ns,
                db,
                rid,
                Dir::Out,
                r,
            ) || k == edge_key_view(ns, db, r, Dir::In, rid),
{
}

/// After `n` edges are stored one after the other through the same relation
/// record, starting from a graph count of 0, its graph count is `n`.
pub proof fn lemma_count_consistency(
    txs: Seq<Transaction>,
    ns: Seq<char>,
    db: Seq<char>,
    ls: Seq<ThingView>,
    rid: ThingView,
    rs: Seq<ThingView>,
)
    requires
        txs.len() >= 1,
        ls.len() == txs.len() - 1,
        rs.len() == txs.len() - 1,
        txs[0].count_of(count_key(ns, db, rid)) == 0,
        forall|i: int| 0 <= i < txs.len() - 1 ==> with_edge(txs[i], txs[i + 1], ns, db, ls[i], rid, rs[i]),
    ensures
        txs.last().count_of(count_key(ns, db, rid)) == txs.len() - 1,
    decreases txs.len(),
{
    if txs.len() > 1 {
        let n = txs.len() - 1;
        lemma_count_consistency(txs.take(n), ns, db, ls.take(n - 1), rid, rs.take(n - 1));
        assert(with_edge(txs[n - 1], txs[n], ns, db, ls[n - 1], rid, rs[n - 1]));
    }
}

/// Storing the same edge twice in one transaction adds no adjacency entry the
/// second time, but adds one to the graph count each time: the count goes up
/// by two.
pub proof fn lemma_double_relate(
    a: Transaction,
    b: Transaction,
    c: Transaction,
    ns: Seq<char>,
    db: Seq<char>,
    l: ThingView,
    rid: ThingView,
    r: ThingView,
)
    requires
        with_edge(a, b, ns, db, l, rid, r),
        with_edge(b, c, ns, db, l, rid, r),
    ensures
        c.entries() == b.entries(),
        c.count_of(count_key(ns, db, rid)) == a.count_of(count_key(ns, db, rid)) + 2,
{
    assert(c.entries() =~= b.entries());
}

} // verus!
