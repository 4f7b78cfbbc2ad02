//! Workspace records: ordered maps from keys to JSON values.
use vstd::prelude::*;

verus! {

/// A JSON value held by a workspace record.
#[derive(Debug, PartialEq)]
pub enum Value {
    Null,
    Bool(bool),
    Int(i64),
    Text(String),
    /// Any other JSON value (a float, an array, an object), kept as its JSON text.
    Raw(String),
}

/// The mathematical model of a `Value`.
pub enum ValueModel {
    Null,
    Bool(bool),
    Int(i64),
    Text(Seq<char>),
    Raw(Seq<char>),
}

impl View for Value {
    type V = ValueModel;

    open spec fn view(&self) -> ValueModel {
        match self {
            Value::Null => ValueModel::Null,
            Value::Bool(b) => ValueModel::Bool(*b),
            Value::Int(n) => ValueModel::Int(*n),
            Value::Text(s) => ValueModel::Text(s@),
            Value::Raw(s) => ValueModel::Raw(s@),
        }
    }
}

impl Value {
    /// A copy of this value.
    pub fn duplicate(&self) -> (r: Value)
        ensures
            r@ == self@,
    {
        match self {
            Value::Null => Value::Null,
            Value::Bool(b) => Value::Bool(*b),
            Value::Int(n) => Value::Int(*n),
            Value::Text(s) => Value::Text(s.clone()),
            Value::Raw(s) => Value::Raw(s.clone()),
        }
    }
}

/// The model of a record: its entries, in order, as (key, value) pairs.
pub type RecordModel = Seq<(Seq<char>, ValueModel)>;

/// Position of the first entry with key `k`, or -1 where there is none.
pub open spec fn key_index(m: RecordModel, k: Seq<char>) -> int
    decreases m.len(),
{
    if m.len() == 0 {
        -1
    } else if m[0].0 == k {
        0
    } else {
        let r = key_index(m.drop_first(), k);
        if r < 0 {
            -1
        } else {
            r + 1
        }
    }
}

/// The value stored under `k`, if any.
pub open spec fn lookup(m: RecordModel, k: Seq<char>) -> Option<ValueModel> {
    let i = key_index(m, k);
    if i >= 0 {
        Some(m[i].1)
    } else {
        None
    }
}

/// `m` with `k` bound to `v`: an existing entry is overwritten in place, a new
/// key is appended.
pub open spec fn put(m: RecordModel, k: Seq<char>, v: ValueModel) -> RecordModel {
    let i = key_index(m, k);
    if i >= 0 {
        m.update(i, (k, v))
    } else {
        m.push((k, v))
    }
}

/// No key occurs twice.
pub open spec fn keys_unique(m: RecordModel) -> bool {
    forall|i: int, j: int| 0 <= i < j < m.len() ==> m[i].0 != m[j].0
}

/// `base` with every entry of `over` put on top of it, in order: on a shared
/// key the value of `over` wins.
pub open spec fn merge_fields(base: RecordModel, over: RecordModel) -> RecordModel
    decreases over.len(),
{
    if over.len() == 0 {
        base
    } else {
        put(merge_fields(base, over.drop_last()), over.last().0, over.last().1)
    }
}

/// The key of a workspace's identifier.
pub open spec fn id_key() -> Seq<char> {
    seq!['i', 'd']
}

/// The identifier of a record: the integer stored under `id`, if that is an
/// integer.
pub open spec fn id_of(m: RecordModel) -> Option<i64> {
    match lookup(m, id_key()) {
        Some(ValueModel::Int(n)) => Some(n),
        _ => None,
    }
}

pub proof fn lemma_key_index_bounds(m: RecordModel, k: Seq<char>)
    ensures
        -1 <= key_index(m, k) < m.len(),
        key_index(m, k) >= 0 ==> m[key_index(m, k)].0 == k,
        key_index(m, k) < 0 ==> forall|j: int| 0 <= j < m.len() ==> m[j].0 != k,
        forall|j: int| 0 <= j < key_index(m, k) ==> m[j].0 != k,
    decreases m.len(),
{
    if m.len() > 0 && m[0].0 != k {
        lemma_key_index_bounds(m.drop_first(), k);
        assert forall|j: int| 1 <= j < m.len() implies m[j] == m.drop_first()[j - 1] by {}
    }
}

/// Records whose keys agree position by position find every key at the same
/// position.
pub proof fn lemma_key_index_same_keys(m1: RecordModel, m2: RecordModel, k: Seq<char>)
    requires
        m1.len() == m2.len(),
        forall|j: int| 0 <= j < m1.len() ==> m1[j].0 == m2[j].0,
    ensures
        key_index(m1, k) == key_index(m2, k),
    decreases m1.len(),
{
    if m1.len() > 0 {
        lemma_key_index_same_keys(m1.drop_first(), m2.drop_first(), k);
    }
}

/// Where a key is found after an entry is appended.
pub proof fn lemma_key_index_push(m: RecordModel, x: (Seq<char>, ValueModel), k: Seq<char>)
    ensures
        key_index(m.push(x), k) == if key_index(m, k) >= 0 {
            key_index(m, k)
        } else if x.0 == k {
            m.len() as int
        } else {
            -1
        },
    decreases m.len(),
{
    if m.len() > 0 {
        assert(m.push(x).drop_first() =~= m.drop_first().push(x));
        lemma_key_index_push(m.drop_first(), x, k);
    } else {
        assert(m.push(x).drop_first() =~= m);
    }
}

/// After `put(m, k, v)` the key `k` holds `v`, and every other key holds what
/// it held before.
pub proof fn lemma_lookup_put(m: RecordModel, k: Seq<char>, v: ValueModel, q: Seq<char>)
    ensures
        lookup(put(m, k, v), q) == if q == k {
            Some(v)
        } else {
            lookup(m, q)
        },
{
    lemma_key_index_bounds(m, k);
    lemma_key_index_bounds(m, q);
    let i = key_index(m, k);
    if i >= 0 {
        let m2 = m.update(i, (k, v));
        lemma_key_index_same_keys(m, m2, q);
    } else {
        lemma_key_index_push(m, (k, v), q);
    }
}

/// Binding a key to the value it already holds changes nothing.
pub proof fn lemma_put_same(m: RecordModel, k: Seq<char>, v: ValueModel)
    requires
        lookup(m, k) == Some(v),
    ensures
        put(m, k, v) == m,
{
    lemma_key_index_bounds(m, k);
    assert(put(m, k, v) =~= m);
}

/// In a record without repeated keys, a key that occurs at `j` is found at `j`.
pub proof fn lemma_key_index_unique(m: RecordModel, j: int)
    requires
        keys_unique(m),
        0 <= j < m.len(),
    ensures
        key_index(m, m[j].0) == j,
{
    lemma_key_index_bounds(m, m[j].0);
}

/// Merging: a key of `over` (a record without repeated keys) holds the value
/// it has in `over`; any other key holds what it has in `base`.
pub proof fn lemma_merge_over_wins(base: RecordModel, over: RecordModel, k: Seq<char>)
    requires
        keys_unique(over),
    ensures
        lookup(merge_fields(base, over), k) == match lookup(over, k) {
            Some(v) => Some(v),
            None => lookup(base, k),
        },
    decreases over.len(),
{
    if over.len() > 0 {
        let rest = over.drop_last();
        let x = over.last();
        assert(over =~= rest.push(x));
        lemma_merge_over_wins(base, rest, k);
        lemma_lookup_put(merge_fields(base, rest), x.0, x.1, k);
        lemma_key_index_push(rest, x, k);
        lemma_key_index_bounds(rest, k);
        if x.0 == k {
            lemma_key_index_unique(over, over.len() - 1);
        }
    }
}

/// A workspace record: an ordered map from keys to JSON values.
#[derive(Debug, PartialEq)]
pub struct Record {
    pub fields: Vec<(String, Value)>,
}

impl View for Record {
    type V = RecordModel;

    open spec fn view(&self) -> RecordModel {
        self.fields@.map_values(|f: (String, Value)| (f.0@, f.1@))
    }
}

impl Record {
    /// A record without entries.
    pub fn new() -> (r: Record)
        ensures
            r@ == Seq::<(Seq<char>, ValueModel)>::empty(),
    {
        let r = Record { fields: Vec::new() };
        assert(r@ =~= Seq::<(Seq<char>, ValueModel)>::empty());
        r
    }

    /// Position of the first entry with key `k`.
    pub fn find(&self, k: &String) -> (r: Option<usize>)
        ensures
            match r {
                Some(i) => key_index(self@, k@) == i as int && i < self@.len(),
                None => key_index(self@, k@) < 0,
            },
    {
        proof {
            lemma_key_index_bounds(self@, k@);
        }
        let n = self.fields.len();
        let mut i: usize = 0;
        assert(self@.subrange(0, n as int) =~= self@);
        while i < n
            invariant
                n == self.fields@.len(),
                0 <= i <= n,
                key_index(self@, k@) == {
                    let r = key_index(self@.subrange(i as int, n as int), k@);
                    if r < 0 {
                        -1
                    } else {
                        r + i
                    }
                },
            decreases n - i,
        {
            assert(self@.subrange(i as int, n as int).drop_first() =~= self@.subrange(i + 1, n as int));
            if self.fields[i].0 == *k {
                return Some(i);
            }
            i = i + 1;
        }
        assert(self@.subrange(n as int, n as int).len() == 0);
        None
    }

    /// The value stored under `k`.
    pub fn get(&self, k: &String) -> (r: Option<&Value>)
        ensures
            match r {
                Some(v) => lookup(self@, k@) == Some(v@),
                None => lookup(self@, k@) is None,
            },
    {
        match self.find(k) {
            Some(i) => Some(&self.fields[i].1),
            None => None,
        }
    }

    /// Binds `k` to `v`, overwriting an existing entry in place or appending
    /// a new one.
    pub fn insert(&mut self, k: String, v: Value)
        ensures
            final(self)@ == put(old(self)@, k@, v@),
    {
        let ghost kv = k@;
        let ghost vv = v@;
        match self.find(&k) {
            Some(i) => {
                self.fields.set(i, (k, v));
                assert(self@ =~= put(old(self)@, kv, vv));
            },
            None => {
                self.fields.push((k, v));
                assert(self@ =~= put(old(self)@, kv, vv));
            },
        }
    }
}

} // verus!
