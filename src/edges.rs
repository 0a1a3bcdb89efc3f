use vstd::prelude::*;
use crate::doc::{DefineTable, Document, Object, Options, Relation, TableType, Value, ValueView, Workable};
use crate::err::Error;
use crate::key::{edge_key, edge_key_view, thing_key, thing_key_view, Dir, KeyView, Thing, ThingView};
use crate::txn::{count_key, CountKey, Transaction};

verus! {

/// Name of the field that marks a record as an edge.
pub open spec fn edge_field() -> Seq<char> {
    seq!['_', '_']
}

/// Name of the field that holds the record an edge leaves.
pub open spec fn in_field() -> Seq<char> {
    seq!['i', 'n']
}

/// Name of the field that holds the record an edge enters.
pub open spec fn out_field() -> Seq<char> {
    seq!['o', 'u', 't']
}

/// The four adjacency entries of the edge from `l` to `r` through the
/// relation record `rid`.
pub open spec fn quad(
    ns: Seq<char>,
    db: Seq<char>,
    l: ThingView,
    rid: ThingView,
    r: ThingView,
) -> Set<KeyView> {
    set![
        edge_key_view(ns, db, l, Dir::Out, rid),
        edge_key_view(ns, db, rid, Dir::In, l),
        edge_key_view(ns, db, rid, Dir::Out, r),
        edge_key_view(ns, db, r, Dir::In, rid),
    ]
}

/// Whether the table asks both endpoints of an edge to be stored records.
pub open spec fn is_enforced(tb: DefineTable) -> bool {
    tb.kind == TableType::Relation(Relation { enforced: true })
}

/// The endpoint that enforcement reports missing, the left one first.
pub open spec fn missing_endpoint(
    entries: Set<KeyView>,
    ns: Seq<char>,
    db: Seq<char>,
    l: ThingView,
    r: ThingView,
) -> Option<ThingView> {
    if !entries.contains(thing_key_view(ns, db, l)) {
        Some(l)
    } else if !entries.contains(thing_key_view(ns, db, r)) {
        Some(r)
    } else {
        None
    }
}

/// Both transactions hold the same keys and the same graph counts.
pub open spec fn same_store(a: Transaction, b: Transaction) -> bool {
    &&& a.wf()
    &&& a.entries() == b.entries()
    &&& a.is_writable() == b.is_writable()
    &&& forall|k: CountKey| a.count_of(k) == b.count_of(k)
}

/// `b` holds the keys of `a` and the four adjacency entries of an edge, and
/// the graph counts of `a`.
pub open spec fn with_quad(
    a: Transaction,
    b: Transaction,
    ns: Seq<char>,
    db: Seq<char>,
    l: ThingView,
    rid: ThingView,
    r: ThingView,
) -> bool {
    &&& b.wf()
    &&& b.entries() == a.entries().union(quad(ns, db, l, rid, r))
    &&& b.is_writable() == a.is_writable()
    &&& forall|k: CountKey| b.count_of(k) == a.count_of(k)
}

/// `b` holds the keys of `a` and the four adjacency entries of an edge, and
/// the graph count of the relation record `rid` is one more than in `a`.
pub open spec fn with_edge(
    a: Transaction,
    b: Transaction,
    ns: Seq<char>,
    db: Seq<char>,
    l: ThingView,
    rid: ThingView,
    r: ThingView,
) -> bool {
    &&& b.wf()
    &&& b.entries() == a.entries().union(quad(ns, db, l, rid, r))
    &&& b.is_writable() == a.is_writable()
    &&& b.count_of(count_key(ns, db, rid)) == a.count_of(count_key(ns, db, rid)) + 1
    &&& forall|k: CountKey| k != count_key(ns, db, rid) ==> b.count_of(k) == a.count_of(k)
}

/// `b` holds the fields of `a`, with the edge fields set for an edge from `l`
/// to `r`.
pub open spec fn projected(a: Object, b: Object, l: ThingView, r: ThingView) -> bool {
    &&& b.wf()
    &&& b.field(edge_field()) == Some(ValueView::Bool(true))
    &&& b.field(in_field()) == Some(ValueView::Thing(l))
    &&& b.field(out_field()) == Some(ValueView::Thing(r))
    &&& forall|name: Seq<char>|
        name != edge_field() && name != in_field() && name != out_field() ==> b.field(name)
            == a.field(name)
}

/// Checks that both endpoints of an edge are stored records, the left one
/// first. Reads only.
pub fn enforce_relation(tx: &Transaction, ns: &str, db: &str, l: &Thing, r: &Thing) -> (res: Result<
    (),
    Error,
>)
    ensures
        match missing_endpoint(tx.entries(), ns@, db@, l@, r@) {
            Some(t) => res matches Err(Error::EndpointNotFound(e)) && e@ == t,
            None => res is Ok,
        },
{
    let key = thing_key(ns, db, l);
    if !tx.has_key(&key) {
        return Err(Error::EndpointNotFound(l.duplicate()));
    }
    let key = thing_key(ns, db, r);
    if !tx.has_key(&key) {
        return Err(Error::EndpointNotFound(r.duplicate()));
    }
    Ok(())
}

/// Writes the four adjacency entries of the edge from `l` to `r` through the
/// relation record `rid`: left out, relation in, relation out, right in.
pub fn write_edges(tx: &mut Transaction, ns: &str, db: &str, l: &Thing, rid: &Thing, r: &Thing) -> (res:
    Result<(), Error>)
    requires
        old(tx).wf(),
    ensures
        old(tx).is_writable() ==> res is Ok && with_quad(*old(tx), *final(tx), ns@, db@, l@, rid@, r@),
        !old(tx).is_writable() ==> (res matches Err(Error::StorageFault)) && same_store(*final(tx), *old(tx)),
{
    let ghost (nv, dv) = (ns@, db@);
    let key = edge_key(ns, db, l, Dir::Out, rid);
    tx.set(key)?;
    let key = edge_key(ns, db, rid, Dir::In, l);
    let res = tx.set(key);
    assert(res is Ok);
    let key = edge_key(ns, db, rid, Dir::Out, r);
    let res = tx.set(key);
    assert(res is Ok);
    let key = edge_key(ns, db, r, Dir::In, rid);
    let res = tx.set(key);
    assert(res is Ok);
    assert(tx.entries() =~= old(tx).entries().union(quad(nv, dv, l@, rid@, r@)));
    Ok(())
}

/// Sets the edge fields of a relation record: the edge mark, and the two
/// endpoints.
pub fn project_edge(doc: &mut Object, l: &Thing, r: &Thing)
    requires
        old(doc).wf(),
    ensures
        projected(*old(doc), *final(doc), l@, r@),
{
    proof {
        reveal_strlit("__");
        reveal_strlit("in");
        reveal_strlit("out");
    }
    doc.put("__", Value::Bool(true));
    doc.put("in", Value::Thing(l.duplicate()));
    doc.put("out", Value::Thing(r.duplicate()));
    assert("__"@ =~= edge_field());
    assert("in"@ =~= in_field());
    assert("out"@ =~= out_field());
}

impl Document {
    /// Stores the edge that a relate mutation makes of this record: checks
    /// the endpoints where the table enforces them, writes the four adjacency
    /// entries, adds one to the record's graph count, and sets the edge fields
    /// of the record. A view table, or a mutation that relates nothing, leaves
    /// everything as it is. Each step runs only when the one before it
    /// succeeded; a failure is returned as it came.
    pub fn store_edges_data(&mut self, tx: &mut Transaction, opt: &Options, tb: &DefineTable) -> (res:
        Result<(), Error>)
        requires
            old(tx).wf(),
            old(self).current.wf(),
        ensures
            final(self).id == old(self).id,
            final(self).extras == old(self).extras,
            final(self).current.wf(),
            final(tx).wf(),
            ({
                if tb.drop || !(old(self).extras is Relate) {
                    &&& res is Ok
                    &&& same_store(*final(tx), *old(tx))
                    &&& final(self).current == old(self).current
                } else {
                    let l = old(self).extras->Relate_0@;
                    let r = old(self).extras->Relate_1@;
                    let rid = old(self).id@;
                    if opt.ns is None || opt.db is None {
                        &&& res matches Err(Error::MissingContext)
                        &&& same_store(*final(tx), *old(tx))
                        &&& final(self).current == old(self).current
                    } else {
                        let ns = opt.ns->Some_0@;
                        let db = opt.db->Some_0@;
                        let missing = missing_endpoint(old(tx).entries(), ns, db, l, r);
                        if is_enforced(*tb) && missing is Some {
                            &&& res matches Err(Error::EndpointNotFound(e)) && e@ == missing->Some_0
                            &&& same_store(*final(tx), *old(tx))
                            &&& final(self).current == old(self).current
                        } else if !old(tx).is_writable() {
                            &&& res matches Err(Error::StorageFault)
                            &&& same_store(*final(tx), *old(tx))
                            &&& final(self).current == old(self).current
                        } else if old(tx).count_of(count_key(ns, db, rid)) + 1 > i64::MAX {
                            &&& res matches Err(Error::StorageFault)
                            &&& with_quad(*old(tx), *final(tx), ns, db, l, rid, r)
                            &&& final(self).current == old(self).current
                        } else {
                            &&& res is Ok
                            &&& with_edge(*old(tx), *final(tx), ns, db, l, rid, r)
                            &&& projected(old(self).current, final(self).current, l, r)
                        }
                    }
                }
            }),
    {
        if tb.drop {
            return Ok(());
        }
        let rid = self.id.duplicate();
        let (l, r) = match &self.extras {
            Workable::Relate(l, r) => (l.duplicate(), r.duplicate()),
            Workable::Normal => {
                return Ok(());
            },
        };
        let ns = opt.ns()?;
        let db = opt.db()?;
        if matches!(tb.kind, TableType::Relation(Relation { enforced: true })) {
            enforce_relation(tx, ns, db, &l, &r)?;
        }
        write_edges(tx, ns, db, &l, &rid, &r)?;
        proof {
            tx.lemma_count_range(count_key(ns@, db@, rid@));
        }
        tx.modify_graph_count(ns, db, &rid, 1)?;
        project_edge(&mut self.current, &l, &r);
        Ok(())
    }
}

} // verus!
