//! The document value model and the text tree, each with a mathematical view.
use vstd::prelude::*;

verus! {

broadcast use vstd::std_specs::vec::axiom_vec_decreases_to_view, vstd::std_specs::vec::axiom_vec_index_decreases;

/// The packed replication timestamp: seconds and a counter.
#[derive(Clone, Copy, Debug, PartialEq, Eq, Structural)]
pub struct Timestamp {
    pub time: u32,
    pub increment: u32,
}

/// A 12-byte object identifier.
#[derive(Clone, Copy, Debug, PartialEq, Eq)]
pub struct ObjectId {
    pub bytes: [u8; 12],
}

/// A document: named fields in order.
pub type Document = Vec<(String, Bson)>;

/// A document value. A `FloatingPoint` holds the IEEE-754 bits of a double;
/// a `UtcDatetime` holds milliseconds since the Unix epoch.
#[derive(Debug)]
pub enum Bson {
    Null,
    Boolean(bool),
    I32(i32),
    I64(i64),
    FloatingPoint(u64),
    String(String),
    Array(Vec<Bson>),
    Document(Vec<(String, Bson)>),
    Binary(u8, Vec<u8>),
    ObjectId(ObjectId),
    UtcDatetime(i64),
    TimeStamp(Timestamp),
    RegExp(String, String),
    JavaScriptCode(String),
    JavaScriptCodeWithScope(String, Vec<(String, Bson)>),
    Symbol(String),
}

/// The mathematical view of a `Bson`.
pub enum BsonView {
    Null,
    Boolean(bool),
    I32(i32),
    I64(i64),
    FloatingPoint(u64),
    String(Seq<char>),
    Array(Seq<BsonView>),
    Document(Seq<(Seq<char>, BsonView)>),
    Binary(u8, Seq<u8>),
    ObjectId(Seq<u8>),
    UtcDatetime(i64),
    TimeStamp(u32, u32),
    RegExp(Seq<char>, Seq<char>),
    JavaScriptCode(Seq<char>),
    JavaScriptCodeWithScope(Seq<char>, Seq<(Seq<char>, BsonView)>),
    Symbol(Seq<char>),
}

/// A node of the text tree. `F64` holds the IEEE-754 bits of a double.
#[derive(Debug)]
pub enum Yaml {
    Null,
    Bool(bool),
    I64(i64),
    F64(u64),
    String(String),
    Sequence(Vec<Yaml>),
    Mapping(Vec<(Yaml, Yaml)>),
}

/// The mathematical view of a `Yaml`.
pub enum YamlView {
    Null,
    Bool(bool),
    I64(i64),
    F64(u64),
    String(Seq<char>),
    Sequence(Seq<YamlView>),
    Mapping(Seq<(YamlView, YamlView)>),
}

impl Timestamp {
    /// The 64-bit packed form: time in the high half, increment in the low.
    pub open spec fn packed_view(&self) -> nat {
        self.time as nat * 0x1_0000_0000 + self.increment as nat
    }

    /// Packs the two halves into one 64-bit value, `(time << 32) | increment`.
    pub fn packed(&self) -> (r: u64)
        ensures
            r == self.packed_view(),
    {
        let t = self.time as u64;
        let i = self.increment as u64;
        let r = (t << 32u64) | i;
        assert(r == t * 0x1_0000_0000u64 + i) by (bit_vector)
            requires
                r == (t << 32u64) | i,
                t < 0x1_0000_0000u64,
                i < 0x1_0000_0000u64,
        ;
        r
    }

    /// Splits a packed 64-bit value into its two halves.
    pub fn from_packed(value: u64) -> (r: Timestamp)
        ensures
            r.packed_view() == value,
            r.time == value / 0x1_0000_0000,
            r.increment == value % 0x1_0000_0000,
    {
        let time = (value >> 32u64) as u32;
        let increment = (value & 0xFFFF_FFFFu64) as u32;
        assert(value >> 32u64 == value / 0x1_0000_0000u64) by (bit_vector);
        assert(value & 0xFFFF_FFFFu64 == value % 0x1_0000_0000u64) by (bit_vector);
        Timestamp { time, increment }
    }
}

impl Bson {
    pub open spec fn view(&self) -> BsonView
        decreases self,
    {
        match self {
            Bson::Null => BsonView::Null,
            Bson::Boolean(b) => BsonView::Boolean(*b),
            Bson::I32(i) => BsonView::I32(*i),
            Bson::I64(i) => BsonView::I64(*i),
            Bson::FloatingPoint(f) => BsonView::FloatingPoint(*f),
            Bson::String(s) => BsonView::String(s@),
            Bson::Array(a) => BsonView::Array(elems_view(a@)),
            Bson::Document(d) => BsonView::Document(entries_view(d@)),
            Bson::Binary(t, b) => BsonView::Binary(*t, b@),
            Bson::ObjectId(o) => BsonView::ObjectId(o.bytes@),
            Bson::UtcDatetime(ms) => BsonView::UtcDatetime(*ms),
            Bson::TimeStamp(ts) => BsonView::TimeStamp(ts.time, ts.increment),
            Bson::RegExp(p, o) => BsonView::RegExp(p@, o@),
            Bson::JavaScriptCode(c) => BsonView::JavaScriptCode(c@),
            Bson::JavaScriptCodeWithScope(c, s) => BsonView::JavaScriptCodeWithScope(
                c@,
                entries_view(s@),
            ),
            Bson::Symbol(s) => BsonView::Symbol(s@),
        }
    }
}

impl Yaml {
    pub open spec fn view(&self) -> YamlView
        decreases self,
    {
        match self {
            Yaml::Null => YamlView::Null,
            Yaml::Bool(b) => YamlView::Bool(*b),
            Yaml::I64(i) => YamlView::I64(*i),
            Yaml::F64(f) => YamlView::F64(*f),
            Yaml::String(s) => YamlView::String(s@),
            Yaml::Sequence(a) => YamlView::Sequence(nodes_view(a@)),
            Yaml::Mapping(m) => YamlView::Mapping(pairs_view(m@)),
        }
    }
}

/// The view of a sequence's nodes.
pub open spec fn nodes_view(a: Seq<Yaml>) -> Seq<YamlView>
    decreases a,
{
    Seq::new(a.len(), |i: int| if 0 <= i < a.len() { a[i].view() } else { YamlView::Null })
}

/// The view of a mapping's key/value pairs.
pub open spec fn pairs_view(m: Seq<(Yaml, Yaml)>) -> Seq<(YamlView, YamlView)>
    decreases m,
{
    Seq::new(
        m.len(),
        |i: int|
            if 0 <= i < m.len() {
                (m[i].0.view(), m[i].1.view())
            } else {
                (YamlView::Null, YamlView::Null)
            },
    )
}

/// Whether a value holds a `Symbol` anywhere.
pub open spec fn has_symbol(v: BsonView) -> bool
    decreases v,
{
    match v {
        BsonView::Symbol(_) => true,
        BsonView::Array(a) => exists|i: int| #![trigger a[i]] 0 <= i < a.len() && has_symbol(a[i]),
        BsonView::Document(d) => exists|i: int|
            #![trigger d[i]]
            0 <= i < d.len() && has_symbol(d[i].1),
        BsonView::JavaScriptCodeWithScope(_, d) => exists|i: int|
            #![trigger d[i]]
            0 <= i < d.len() && has_symbol(d[i].1),
        _ => false,
    }
}

/// The view of an array's elements.
pub open spec fn elems_view(a: Seq<Bson>) -> Seq<BsonView>
    decreases a,
{
    Seq::new(a.len(), |i: int| if 0 <= i < a.len() { a[i].view() } else { BsonView::Null })
}

/// The view of a document's entries.
pub open spec fn entries_view(d: Seq<(String, Bson)>) -> Seq<(Seq<char>, BsonView)>
    decreases d,
{
    Seq::new(
        d.len(),
        |i: int|
            if 0 <= i < d.len() {
                (d[i].0@, d[i].1.view())
            } else {
                (Seq::empty(), BsonView::Null)
            },
    )
}

/// Whether no two fields of a document share a name.
pub open spec fn fields_distinct(d: Seq<(Seq<char>, BsonView)>) -> bool {
    forall|a: int, b: int| 0 <= a < b < d.len() ==> #[trigger] d[a].0 != #[trigger] d[b].0
}

/// Sets field `k` to `v`: in its place where the document has it, else at
/// the end.
pub open spec fn put_field(d: Seq<(Seq<char>, BsonView)>, k: Seq<char>, v: BsonView) -> Seq<
    (Seq<char>, BsonView),
> {
    if exists|j: int| 0 <= j < d.len() && d[j].0 == k {
        d.update(choose|j: int| 0 <= j < d.len() && d[j].0 == k, (k, v))
    } else {
        d.push((k, v))
    }
}

/// The document that fields make when set one after another: a repeated
/// name keeps its first place and takes its last value.
pub open spec fn merge_fields(s: Seq<(Seq<char>, BsonView)>) -> Seq<(Seq<char>, BsonView)>
    decreases s.len(),
{
    if s.len() == 0 {
        Seq::empty()
    } else {
        put_field(merge_fields(s.drop_last()), s.last().0, s.last().1)
    }
}

/// Setting a field keeps the names distinct.
pub proof fn lemma_put_field_distinct(d: Seq<(Seq<char>, BsonView)>, k: Seq<char>, v: BsonView)
    requires
        fields_distinct(d),
    ensures
        fields_distinct(put_field(d, k, v)),
{
    if exists|j: int| 0 <= j < d.len() && d[j].0 == k {
        let j = choose|j: int| 0 <= j < d.len() && d[j].0 == k;
        let r = put_field(d, k, v);
        assert forall|a: int, b: int| 0 <= a < b < r.len() implies #[trigger] r[a].0
            != #[trigger] r[b].0 by {
            assert(r[a].0 == d[a].0 && r[b].0 == d[b].0);
        }
    } else {
        let r = put_field(d, k, v);
        assert forall|a: int, b: int| 0 <= a < b < r.len() implies #[trigger] r[a].0
            != #[trigger] r[b].0 by {
            if b == d.len() {
                assert(r[a].0 == d[a].0);
            } else {
                assert(r[a].0 == d[a].0 && r[b].0 == d[b].0);
            }
        }
    }
}

/// Merged fields have distinct names.
pub proof fn lemma_merge_distinct(s: Seq<(Seq<char>, BsonView)>)
    ensures
        fields_distinct(merge_fields(s)),
    decreases s.len(),
{
    if s.len() > 0 {
        lemma_merge_distinct(s.drop_last());
        lemma_put_field_distinct(merge_fields(s.drop_last()), s.last().0, s.last().1);
    }
}

/// Fields with distinct names merge to themselves.
pub proof fn lemma_merge_identity(s: Seq<(Seq<char>, BsonView)>)
    requires
        fields_distinct(s),
    ensures
        merge_fields(s) == s,
    decreases s.len(),
{
    if s.len() > 0 {
        let p = s.drop_last();
        assert(fields_distinct(p)) by {
            assert forall|a: int, b: int| 0 <= a < b < p.len() implies #[trigger] p[a].0
                != #[trigger] p[b].0 by {
                assert(p[a] == s[a] && p[b] == s[b]);
            }
        }
        lemma_merge_identity(p);
        assert(!(exists|j: int| 0 <= j < p.len() && p[j].0 == s.last().0)) by {
            if exists|j: int| 0 <= j < p.len() && p[j].0 == s.last().0 {
                let j = choose|j: int| 0 <= j < p.len() && p[j].0 == s.last().0;
                assert(s[j].0 == s[s.len() - 1].0);
            }
        }
        assert(p.push(s.last()) =~= s);
    }
}

} // verus!
