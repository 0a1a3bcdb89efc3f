use vstd::prelude::*;
use vstd::std_specs::iter::IteratorSpec;

verus! {

/// Direction of an adjacency entry, seen from the record that owns it.
#[derive(Clone, Copy, Debug, PartialEq, Eq, Structural)]
pub enum Dir {
    /// The edge enters the record.
    In,
    /// The edge leaves the record.
    Out,
}

/// Identity of a stored record: its table and its id within that table.
#[derive(Clone, Debug)]
pub struct Thing {
    pub tb: String,
    pub id: String,
}

/// Mathematical value of a record identity.
pub struct ThingView {
    pub tb: Seq<char>,
    pub id: Seq<char>,
}

impl View for Thing {
    type V = ThingView;

    open spec fn view(&self) -> ThingView {
        ThingView { tb: self.tb@, id: self.id@ }
    }
}

impl Thing {
    pub fn new(tb: &str, id: &str) -> (r: Thing)
        ensures
            r.tb@ == tb@,
            r.id@ == id@,
    {
        Thing { tb: tb.to_owned(), id: id.to_owned() }
    }

    /// A copy of the identity, field for field.
    pub fn duplicate(&self) -> (r: Thing)
        ensures
            r == *self,
    {
        Thing { tb: self.tb.clone(), id: self.id.clone() }
    }

    /// Structural equality of two identities.
    pub fn same(&self, other: &Thing) -> (r: bool)
        ensures
            r == (self@ == other@),
    {
        self.tb == other.tb && self.id == other.id
    }
}

/// A key of the transactional store.
#[derive(Clone, Debug)]
pub enum Key {
    /// The existence key of a record.
    Thing { ns: String, db: String, tb: String, id: String },
    /// An adjacency entry: record `(tb, id)` is linked to `fk` in direction `dir`.
    Edge { ns: String, db: String, tb: String, id: String, dir: Dir, fk: Thing },
}

/// Mathematical value of a key.
pub enum KeyView {
    Thing { ns: Seq<char>, db: Seq<char>, tb: Seq<char>, id: Seq<char> },
    Edge { ns: Seq<char>, db: Seq<char>, tb: Seq<char>, id: Seq<char>, dir: Dir, fk: ThingView },
}

impl View for Key {
    type V = KeyView;

    open spec fn view(&self) -> KeyView {
        match self {
            Key::Thing { ns, db, tb, id } => KeyView::Thing { ns: ns@, db: db@, tb: tb@, id: id@ },
            Key::Edge { ns, db, tb, id, dir, fk } => KeyView::Edge {
                ns: ns@,
                db: db@,
                tb: tb@,
                id: id@,
                dir: *dir,
                fk: fk@,
            },
        }
    }
}

/// The existence key of record `t` in namespace `ns` and database `db`.
pub open spec fn thing_key_view(ns: Seq<char>, db: Seq<char>, t: ThingView) -> KeyView {
    KeyView::Thing { ns, db, tb: t.tb, id: t.id }
}

/// The adjacency entry of record `t` towards `fk` in direction `dir`.
pub open spec fn edge_key_view(
    ns: Seq<char>,
    db: Seq<char>,
    t: ThingView,
    dir: Dir,
    fk: ThingView,
) -> KeyView {
    KeyView::Edge { ns, db, tb: t.tb, id: t.id, dir, fk }
}

/// The bytes that every adjacency key of record `t` in direction `dir`
/// starts with: the start of a range scan over those entries.
pub fn edge_prefix(ns: &str, db: &str, t: &Thing, dir: Dir) -> (r: Vec<u8>)
    ensures
        r@ == edge_prefix_view(ns@, db@, t@, dir),
{
    let mut out: Vec<u8> = Vec::new();
    encode_str(&mut out, ns);
    encode_str(&mut out, db);
    encode_str(&mut out, t.tb.as_str());
    out.push(EDGE_TAG);
    encode_str(&mut out, t.id.as_str());
    out.push(dir.byte());
    assert(out@ =~= edge_prefix_view(ns@, db@, t@, dir));
    out
}

/// Builds the existence key of a record.
pub fn thing_key(ns: &str, db: &str, t: &Thing) -> (k: Key)
    ensures
        k@ == thing_key_view(ns@, db@, t@),
{
    Key::Thing { ns: ns.to_owned(), db: db.to_owned(), tb: t.tb.clone(), id: t.id.clone() }
}

/// Builds the adjacency key of record `t` towards `fk` in direction `dir`.
pub fn edge_key(ns: &str, db: &str, t: &Thing, dir: Dir, fk: &Thing) -> (k: Key)
    ensures
        k@ == edge_key_view(ns@, db@, t@, dir, fk@),
{
    Key::Edge {
        ns: ns.to_owned(),
        db: db.to_owned(),
        tb: t.tb.clone(),
        id: t.id.clone(),
        dir,
        fk: fk.duplicate(),
    }
}

/// Byte that marks a character in an encoded string.
pub const CHAR_MARK: u8 = 1;

/// Byte that ends an encoded string.
pub const STR_END: u8 = 0;

/// Byte that tags the existence key of a record.
pub const THING_TAG: u8 = 0x2a;

/// Byte that tags an adjacency key.
pub const EDGE_TAG: u8 = 0x7e;

/// The byte that encodes a direction.
pub open spec fn dir_byte(d: Dir) -> u8 {
    match d {
        Dir::In => 0x3c,
        Dir::Out => 0x3e,
    }
}

impl Dir {
    /// The byte that encodes the direction.
    pub fn byte(&self) -> (r: u8)
        ensures
            r == dir_byte(*self),
    {
        match self {
            Dir::In => 0x3c,
            Dir::Out => 0x3e,
        }
    }
}

/// A character as four bytes: a mark, then its scalar value in three bytes,
/// most significant first.
pub open spec fn enc_char(c: char) -> Seq<u8> {
    seq![CHAR_MARK, ((c as u32) >> 16u32) as u8, ((c as u32) >> 8u32) as u8, (c as u32) as u8]
}

/// A string as the encodings of its characters followed by an end byte. The
/// end byte is smaller than the mark of a character.
#[verifier::opaque]
pub open spec fn enc_str(s: Seq<char>) -> Seq<u8>
    decreases s.len(),
{
    if s.len() == 0 {
        seq![STR_END]
    } else {
        enc_char(s[0]) + enc_str(s.drop_first())
    }
}

/// The bytes that every adjacency key of record `t` in direction `dir`
/// starts with, and no other key.
pub open spec fn edge_prefix_view(ns: Seq<char>, db: Seq<char>, t: ThingView, dir: Dir) -> Seq<u8> {
    enc_str(ns) + (enc_str(db) + (enc_str(t.tb) + (seq![EDGE_TAG] + (enc_str(t.id) + seq![
        dir_byte(dir),
    ]))))
}

/// The byte encoding of a key.
pub open spec fn encode_view(k: KeyView) -> Seq<u8> {
    match k {
        KeyView::Thing { ns, db, tb, id } => enc_str(ns) + (enc_str(db) + (enc_str(tb) + (seq![
            THING_TAG,
        ] + enc_str(id)))),
        KeyView::Edge { ns, db, tb, id, dir, fk } => edge_prefix_view(
            ns,
            db,
            ThingView { tb, id },
            dir,
        ) + (enc_str(fk.tb) + enc_str(fk.id)),
    }
}

proof fn lemma_enc_char_injective(c: char, d: char)
    requires
        enc_char(c) == enc_char(d),
    ensures
        c == d,
{
    let x = c as u32;
    let y = d as u32;
    assert(enc_char(c)[1] == enc_char(d)[1]);
    assert(enc_char(c)[2] == enc_char(d)[2]);
    assert(enc_char(c)[3] == enc_char(d)[3]);
    assert(x == ((((x >> 16u32) as u8) as u32) << 16u32) | ((((x >> 8u32) as u8) as u32) << 8u32)
        | ((x as u8) as u32)) by (bit_vector)
        requires
            x < 0x110000,
    ;
    assert(y == ((((y >> 16u32) as u8) as u32) << 16u32) | ((((y >> 8u32) as u8) as u32) << 8u32)
        | ((y as u8) as u32)) by (bit_vector)
        requires
            y < 0x110000,
    ;
}

/// An encoded string ends where its end byte stands: what follows it is told
/// apart from the string.
pub proof fn lemma_enc_str_split(a: Seq<char>, b: Seq<char>, x: Seq<u8>, y: Seq<u8>)
    requires
        enc_str(a) + x == enc_str(b) + y,
    ensures
        a == b,
        x == y,
    decreases a.len(),
{
    reveal(enc_str);
    let l = enc_str(a) + x;
    let r = enc_str(b) + y;
    if a.len() == 0 {
        assert(l[0] == STR_END);
        if b.len() > 0 {
            assert(r[0] == CHAR_MARK);
        }
        assert(b =~= a);
        assert(x =~= l.skip(1));
        assert(y =~= r.skip(1));
    } else {
        assert(l[0] == CHAR_MARK);
        if b.len() == 0 {
            assert(r[0] == STR_END);
        }
        assert(l.take(4) =~= enc_char(a[0]));
        assert(r.take(4) =~= enc_char(b[0]));
        lemma_enc_char_injective(a[0], b[0]);
        assert(l.skip(4) =~= enc_str(a.drop_first()) + x);
        assert(r.skip(4) =~= enc_str(b.drop_first()) + y);
        lemma_enc_str_split(a.drop_first(), b.drop_first(), x, y);
        assert(a =~= seq![a[0]] + a.drop_first());
        assert(b =~= seq![b[0]] + b.drop_first());
    }
}

proof fn lemma_byte_split(t: u8, u: u8, x: Seq<u8>, y: Seq<u8>)
    requires
        seq![t] + x == seq![u] + y,
    ensures
        t == u,
        x == y,
{
    assert((seq![t] + x)[0] == t);
    assert((seq![u] + y)[0] == u);
    assert(x =~= (seq![t] + x).skip(1));
    assert(y =~= (seq![u] + y).skip(1));
}

/// The record part of two keys that agree from the start up to the tag byte
/// and the id.
proof fn lemma_record_parts(n1: Seq<char>, d1: Seq<char>, t1: Seq<char>, g1: u8, i1: Seq<char>, x: Seq<u8>, n2: Seq<char>, d2: Seq<char>, t2: Seq<char>, g2: u8, i2: Seq<char>, y: Seq<u8>)
    requires
        enc_str(n1) + (enc_str(d1) + (enc_str(t1) + (seq![g1] + (enc_str(i1) + x)))) == enc_str(n2) + (enc_str(d2) + (enc_str(t2) + (seq![g2] + (enc_str(i2) + y)))),
    ensures
        n1 == n2 && d1 == d2 && t1 == t2 && g1 == g2 && i1 == i2 && x == y,
{
    lemma_enc_str_split(n1, n2, enc_str(d1) + (enc_str(t1) + (seq![g1] + (enc_str(i1) + x))), enc_str(d2) + (enc_str(t2) + (seq![g2] + (enc_str(i2) + y))));
    lemma_enc_str_split(d1, d2, enc_str(t1) + (seq![g1] + (enc_str(i1) + x)), enc_str(t2) + (seq![g2] + (enc_str(i2) + y)));
    lemma_enc_str_split(t1, t2, seq![g1] + (enc_str(i1) + x), seq![g2] + (enc_str(i2) + y));
    lemma_byte_split(g1, g2, enc_str(i1) + x, enc_str(i2) + y);
    lemma_enc_str_split(i1, i2, x, y);
}

/// The encoding of an adjacency key, split after the id of its record.
proof fn lemma_edge_shape(k: KeyView)
    requires
        k is Edge,
    ensures
        encode_view(k) == enc_str(k->Edge_ns) + (enc_str(k->Edge_db) + (enc_str(k->Edge_tb) + (seq![EDGE_TAG] + (enc_str(k->Edge_id) + (seq![dir_byte(k->Edge_dir)] + (enc_str(k->Edge_fk.tb) + enc_str(k->Edge_fk.id))))))),
{
    assert(encode_view(k) =~= enc_str(k->Edge_ns) + (enc_str(k->Edge_db) + (enc_str(k->Edge_tb) + (seq![EDGE_TAG] + (enc_str(k->Edge_id) + (seq![dir_byte(k->Edge_dir)] + (enc_str(k->Edge_fk.tb) + enc_str(k->Edge_fk.id))))))));
}

/// The encoding of an existence key, split after the id of its record.
proof fn lemma_thing_shape(k: KeyView)
    requires
        k is Thing,
    ensures
        encode_view(k) == enc_str(k->Thing_ns) + (enc_str(k->Thing_db) + (enc_str(k->Thing_tb) + (seq![THING_TAG] + (enc_str(k->Thing_id) + Seq::<u8>::empty())))),
{
    assert(enc_str(k->Thing_id) + Seq::<u8>::empty() =~= enc_str(k->Thing_id));
}

/// Distinct keys have distinct encodings.
pub proof fn lemma_encode_injective(a: KeyView, b: KeyView)
    requires
        encode_view(a) == encode_view(b),
    ensures
        a == b,
{
    if a is Edge {
        lemma_edge_shape(a);
    } else {
        lemma_thing_shape(a);
    }
    if b is Edge {
        lemma_edge_shape(b);
    } else {
        lemma_thing_shape(b);
    }
    match (a, b) {
        (KeyView::Thing { ns: n1, db: d1, tb: t1, id: i1 }, KeyView::Thing { ns: n2, db: d2, tb: t2, id: i2 }) => {
            lemma_record_parts(n1, d1, t1, THING_TAG, i1, Seq::empty(), n2, d2, t2, THING_TAG, i2, Seq::empty());
        },
        (KeyView::Edge { ns: n1, db: d1, tb: t1, id: i1, dir: r1, fk: f1 }, KeyView::Edge { ns: n2, db: d2, tb: t2, id: i2, dir: r2, fk: f2 }) => {
            let rest1 = seq![dir_byte(r1)] + (enc_str(f1.tb) + enc_str(f1.id));
            let rest2 = seq![dir_byte(r2)] + (enc_str(f2.tb) + enc_str(f2.id));
            lemma_record_parts(n1, d1, t1, EDGE_TAG, i1, rest1, n2, d2, t2, EDGE_TAG, i2, rest2);
            lemma_byte_split(dir_byte(r1), dir_byte(r2), enc_str(f1.tb) + enc_str(f1.id), enc_str(f2.tb) + enc_str(f2.id));
            lemma_enc_str_split(f1.tb, f2.tb, enc_str(f1.id), enc_str(f2.id));
            assert(enc_str(f1.id) + Seq::<u8>::empty() =~= enc_str(f1.id));
            assert(enc_str(f2.id) + Seq::<u8>::empty() =~= enc_str(f2.id));
            lemma_enc_str_split(f1.id, f2.id, Seq::empty(), Seq::empty());
        },
        (KeyView::Thing { ns: n1, db: d1, tb: t1, id: i1 }, KeyView::Edge { ns: n2, db: d2, tb: t2, id: i2, dir: r2, fk: f2 }) => {
            let rest2 = seq![dir_byte(r2)] + (enc_str(f2.tb) + enc_str(f2.id));
            lemma_record_parts(n1, d1, t1, THING_TAG, i1, Seq::empty(), n2, d2, t2, EDGE_TAG, i2, rest2);
        },
        (KeyView::Edge { ns: n1, db: d1, tb: t1, id: i1, dir: r1, fk: f1 }, KeyView::Thing { ns: n2, db: d2, tb: t2, id: i2 }) => {
            let rest1 = seq![dir_byte(r1)] + (enc_str(f1.tb) + enc_str(f1.id));
            lemma_record_parts(n1, d1, t1, EDGE_TAG, i1, rest1, n2, d2, t2, THING_TAG, i2, Seq::empty());
        },
    }
}

proof fn lemma_edge_prefix_has(k: KeyView, ns: Seq<char>, db: Seq<char>, t: ThingView, dir: Dir)
    requires
        k is Edge && k->Edge_ns == ns && k->Edge_db == db && k->Edge_tb == t.tb && k->Edge_id == t.id
            && k->Edge_dir == dir,
    ensures
        edge_prefix_view(ns, db, t, dir).is_prefix_of(encode_view(k)),
{
    let p = edge_prefix_view(ns, db, t, dir);
    let e = encode_view(k);
    assert(e =~= p + (enc_str(k->Edge_fk.tb) + enc_str(k->Edge_fk.id)));
    assert(e.subrange(0, p.len() as int) =~= p);
}

proof fn lemma_edge_prefix_only(k: KeyView, ns: Seq<char>, db: Seq<char>, t: ThingView, dir: Dir)
    requires
        edge_prefix_view(ns, db, t, dir).is_prefix_of(encode_view(k)),
    ensures
        k is Edge && k->Edge_ns == ns && k->Edge_db == db && k->Edge_tb == t.tb && k->Edge_id == t.id
            && k->Edge_dir == dir,
{
    let p = edge_prefix_view(ns, db, t, dir);
    let e = encode_view(k);
    let z = e.skip(p.len() as int);
    assert(e =~= p + z);
    let front = seq![dir_byte(dir)] + z;
    assert(p + z =~= enc_str(ns) + (enc_str(db) + (enc_str(t.tb) + (seq![EDGE_TAG] + (enc_str(t.id)
        + front)))));
    match k {
        KeyView::Thing { ns: n2, db: d2, tb: t2, id: i2 } => {
            lemma_thing_shape(k);
            lemma_record_parts(ns, db, t.tb, EDGE_TAG, t.id, front, n2, d2, t2, THING_TAG, i2, Seq::empty());
        },
        KeyView::Edge { ns: n2, db: d2, tb: t2, id: i2, dir: r2, fk: f2 } => {
            lemma_edge_shape(k);
            let back = seq![dir_byte(r2)] + (enc_str(f2.tb) + enc_str(f2.id));
            lemma_record_parts(ns, db, t.tb, EDGE_TAG, t.id, front, n2, d2, t2, EDGE_TAG, i2, back);
            lemma_byte_split(dir_byte(dir), dir_byte(r2), z, enc_str(f2.tb) + enc_str(f2.id));
        },
    }
}

/// A key starts with the prefix of record `t` and direction `dir` exactly
/// when it is an adjacency key of that record in that direction. So these
/// keys lie together in byte order, apart from those of the other direction.
pub proof fn lemma_edge_prefix(k: KeyView, ns: Seq<char>, db: Seq<char>, t: ThingView, dir: Dir)
    ensures
        edge_prefix_view(ns, db, t, dir).is_prefix_of(encode_view(k)) <==> (k is Edge && k->Edge_ns
            == ns && k->Edge_db == db && k->Edge_tb == t.tb && k->Edge_id == t.id && k->Edge_dir
            == dir),
{
    if k is Edge && k->Edge_ns == ns && k->Edge_db == db && k->Edge_tb == t.tb && k->Edge_id == t.id
        && k->Edge_dir == dir {
        lemma_edge_prefix_has(k, ns, db, t, dir);
    }
    if edge_prefix_view(ns, db, t, dir).is_prefix_of(encode_view(k)) {
        lemma_edge_prefix_only(k, ns, db, t, dir);
    }
}

/// Appends the encoding of a string.
fn encode_str(out: &mut Vec<u8>, s: &str)
    ensures
        final(out)@ == old(out)@ + enc_str(s@),
{
    broadcast use vstd::string::axiom_spec_iter;

    assert(s@.skip(0) =~= s@);
    for c in it: s.chars()
        invariant
            it.seq() == s@,
            old(out)@ + enc_str(s@) == out@ + enc_str(it.seq().skip(it.index())),
    {
        proof {
            reveal(enc_str);
        }
        let ghost before = out@;
        let ghost i = it.index();
        let x = c as u32;
        out.push(CHAR_MARK);
        out.push((x >> 16u32) as u8);
        out.push((x >> 8u32) as u8);
        out.push(x as u8);
        assert(out@ =~= before + enc_char(c));
        assert(it.seq().skip(i).drop_first() =~= it.seq().skip(i + 1));
        assert(before + enc_str(it.seq().skip(i)) =~= out@ + enc_str(it.seq().skip(i + 1)));
    }
    proof {
        reveal(enc_str);
    }
    let ghost before = out@;
    out.push(STR_END);
    assert(s@.skip(s@.len() as int) =~= Seq::<char>::empty());
    assert(out@ =~= before + enc_str(Seq::<char>::empty()));
}

impl Key {
    /// The byte encoding of the key.
    pub fn encode(&self) -> (r: Vec<u8>)
        ensures
            r@ == encode_view(self@),
    {
        let mut out: Vec<u8> = Vec::new();
        match self {
            Key::Thing { ns, db, tb, id } => {
                encode_str(&mut out, ns.as_str());
                encode_str(&mut out, db.as_str());
                encode_str(&mut out, tb.as_str());
                out.push(THING_TAG);
                encode_str(&mut out, id.as_str());
            },
            Key::Edge { ns, db, tb, id, dir, fk } => {
                let p = edge_prefix(ns.as_str(), db.as_str(), &Thing { tb: tb.clone(), id: id.clone() }, *dir);
                out = p;
                encode_str(&mut out, fk.tb.as_str());
                encode_str(&mut out, fk.id.as_str());
            },
        }
        assert(out@ =~= encode_view(self@));
        out
    }

    /// Whether two keys are the same logical key.
    pub fn same(&self, other: &Key) -> (r: bool)
        ensures
            r == (self@ == other@),
    {
        match (self, other) {
            (
                Key::Thing { ns: n1, db: d1, tb: t1, id: i1 },
                Key::Thing { ns: n2, db: d2, tb: t2, id: i2 },
            ) => *n1 == *n2 && *d1 == *d2 && *t1 == *t2 && *i1 == *i2,
            (
                Key::Edge { ns: n1, db: d1, tb: t1, id: i1, dir: r1, fk: f1 },
                Key::Edge { ns: n2, db: d2, tb: t2, id: i2, dir: r2, fk: f2 },
            ) => *n1 == *n2 && *d1 == *d2 && *t1 == *t2 && *i1 == *i2 && *r1 == *r2 && f1.same(
                f2,
            ),
            _ => false,
        }
    }
}

} // verus!
