//! Reconciliation of a live workspace snapshot against an optional persistent
//! template.
use vstd::prelude::*;
use crate::record::{
    id_key, id_of, keys_unique, lemma_lookup_put, lemma_merge_over_wins, lemma_put_same, lookup,
    merge_fields, put, Record, RecordModel, Value, ValueModel,
};

verus! {

/// The models of a sequence of records.
pub open spec fn models(v: Seq<Record>) -> Seq<RecordModel> {
    v.map_values(|r: Record| r@)
}

/// Order on optional identifiers: `None` first, then ascending.
pub open spec fn opt_le(a: Option<i64>, b: Option<i64>) -> bool {
    match (a, b) {
        (None, _) => true,
        (Some(_), None) => false,
        (Some(x), Some(y)) => x <= y,
    }
}

/// Sort order on records: records without an integer `id` come first, the
/// others ascend by `id`.
pub open spec fn id_le(a: RecordModel, b: RecordModel) -> bool {
    opt_le(id_of(a), id_of(b))
}

/// `x` put into the sorted `s` after every record that sorts at or before it.
pub open spec fn insert_sorted(s: Seq<RecordModel>, x: RecordModel) -> Seq<RecordModel>
    decreases s.len(),
{
    if s.len() == 0 {
        seq![x]
    } else if id_le(s.last(), x) {
        s.push(x)
    } else {
        insert_sorted(s.drop_last(), x).push(s.last())
    }
}

/// The stable sort of `s` by `id_le`.
pub open spec fn sort_by_id(s: Seq<RecordModel>) -> Seq<RecordModel>
    decreases s.len(),
{
    if s.len() == 0 {
        s
    } else {
        insert_sorted(sort_by_id(s.drop_last()), s.last())
    }
}

pub open spec fn num_key() -> Seq<char> {
    seq!['n', 'u', 'm']
}

pub open spec fn focused_key() -> Seq<char> {
    seq!['f', 'o', 'c', 'u', 's', 'e', 'd']
}

pub open spec fn active_key() -> Seq<char> {
    seq!['a', 'c', 't', 'i', 'v', 'e']
}

/// A live record with `num` and `focused` set; one without an integer `id`
/// is left as it is.
pub open spec fn annotate_live(m: RecordModel, active_id: i64) -> RecordModel {
    match id_of(m) {
        Some(n) => put(
            put(m, num_key(), ValueModel::Int(n)),
            focused_key(),
            ValueModel::Bool(n == active_id),
        ),
        None => m,
    }
}

/// Live mode: the snapshot sorted by `id`, each record annotated.
pub open spec fn reconcile_live(live: Seq<RecordModel>, active_id: i64) -> Seq<RecordModel> {
    sort_by_id(live).map_values(|m: RecordModel| annotate_live(m, active_id))
}

/// Position of the first record of `s` whose `id` is `p`, or -1.
pub open spec fn id_index(s: Seq<RecordModel>, p: i64) -> int
    decreases s.len(),
{
    if s.len() == 0 {
        -1
    } else if id_of(s[0]) == Some(p) {
        0
    } else {
        let r = id_index(s.drop_first(), p);
        if r < 0 {
            -1
        } else {
            r + 1
        }
    }
}

/// A template entry merged with its live counterpart and annotated; `None`
/// for an entry without an integer `id`.
pub open spec fn persistent_entry(sorted_live: Seq<RecordModel>, t: RecordModel, active_id: i64) -> Option<RecordModel> {
    match id_of(t) {
        Some(p) => {
            let i = id_index(sorted_live, p);
            let merged = if i >= 0 {
                merge_fields(t, sorted_live[i])
            } else {
                t
            };
            Some(
                put(
                    put(put(merged, num_key(), ValueModel::Int(p)), active_key(), ValueModel::Bool(i >= 0)),
                    focused_key(),
                    ValueModel::Bool(p == active_id),
                ),
            )
        },
        None => None,
    }
}

/// Persistent mode over the template entries, against the sorted live snapshot.
pub open spec fn persistent_entries(sorted_live: Seq<RecordModel>, tpl: Seq<RecordModel>, active_id: i64) -> Seq<RecordModel>
    decreases tpl.len(),
{
    if tpl.len() == 0 {
        Seq::empty()
    } else {
        let rest = persistent_entries(sorted_live, tpl.drop_last(), active_id);
        match persistent_entry(sorted_live, tpl.last(), active_id) {
            Some(e) => rest.push(e),
            None => rest,
        }
    }
}

/// Persistent mode: the template in its order, merged with the live snapshot.
pub open spec fn reconcile_persistent(live: Seq<RecordModel>, tpl: Seq<RecordModel>, active_id: i64) -> Seq<RecordModel> {
    persistent_entries(sort_by_id(live), tpl, active_id)
}

/// The reconciled view in either mode.
pub open spec fn reconcile_view(live: Seq<RecordModel>, tpl: Option<Seq<RecordModel>>, active_id: i64) -> Seq<RecordModel> {
    match tpl {
        Some(t) => reconcile_persistent(live, t, active_id),
        None => reconcile_live(live, active_id),
    }
}

/// Every record sorts at or before every later one.
pub open spec fn sorted_by_id(s: Seq<RecordModel>) -> bool {
    forall|i: int, j: int| 0 <= i < j < s.len() ==> id_le(#[trigger] s[i], #[trigger] s[j])
}

/// Every record of `s` sorts at or before `t`.
pub open spec fn all_at_or_before(s: Seq<RecordModel>, t: RecordModel) -> bool {
    forall|i: int| 0 <= i < s.len() ==> id_le(#[trigger] s[i], t)
}

proof fn lemma_insert_sorted_bound(s: Seq<RecordModel>, x: RecordModel, t: RecordModel)
    requires
        all_at_or_before(s, t),
        id_le(x, t),
    ensures
        all_at_or_before(insert_sorted(s, x), t),
        insert_sorted(s, x).len() == s.len() + 1,
    decreases s.len(),
{
    if s.len() > 0 && !id_le(s.last(), x) {
        lemma_insert_sorted_bound(s.drop_last(), x, t);
    }
}

proof fn lemma_insert_sorted_sorted(s: Seq<RecordModel>, x: RecordModel)
    requires
        sorted_by_id(s),
    ensures
        sorted_by_id(insert_sorted(s, x)),
        insert_sorted(s, x).len() == s.len() + 1,
    decreases s.len(),
{
    if s.len() > 0 {
        if id_le(s.last(), x) {
            assert(forall|i: int| 0 <= i < s.len() ==> id_le(#[trigger] s[i], s.last()));
        } else {
            let r = s.drop_last();
            lemma_insert_sorted_sorted(r, x);
            assert(all_at_or_before(r, s.last()));
            lemma_insert_sorted_bound(r, x, s.last());
        }
    }
}

/// The sort orders its result and keeps its length.
pub proof fn lemma_sort_by_id_sorted(s: Seq<RecordModel>)
    ensures
        sorted_by_id(sort_by_id(s)),
        sort_by_id(s).len() == s.len(),
    decreases s.len(),
{
    if s.len() > 0 {
        lemma_sort_by_id_sorted(s.drop_last());
        lemma_insert_sorted_sorted(sort_by_id(s.drop_last()), s.last());
    }
}

/// Sorting a sorted sequence changes nothing.
pub proof fn lemma_sort_by_id_of_sorted(s: Seq<RecordModel>)
    requires
        sorted_by_id(s),
    ensures
        sort_by_id(s) == s,
    decreases s.len(),
{
    if s.len() > 0 {
        let r = s.drop_last();
        assert(sorted_by_id(r));
        lemma_sort_by_id_of_sorted(r);
        assert(r.push(s.last()) =~= s);
    }
}

proof fn lemma_annotation_keys()
    ensures
        num_key() != id_key(),
        focused_key() != id_key(),
        active_key() != id_key(),
        num_key() != focused_key(),
        active_key() != focused_key(),
        num_key() != active_key(),
{
    assert(num_key().len() != id_key().len());
    assert(focused_key().len() != id_key().len());
    assert(active_key().len() != id_key().len());
    assert(num_key().len() != focused_key().len());
    assert(active_key().len() != focused_key().len());
    assert(num_key().len() != active_key().len());
}

/// Annotation keeps the identifier and is idempotent.
proof fn lemma_annotate_live(m: RecordModel, active_id: i64)
    ensures
        id_of(annotate_live(m, active_id)) == id_of(m),
        annotate_live(annotate_live(m, active_id), active_id) == annotate_live(m, active_id),
{
    lemma_annotation_keys();
    match id_of(m) {
        Some(n) => {
            let a = put(m, num_key(), ValueModel::Int(n));
            let b = put(a, focused_key(), ValueModel::Bool(n == active_id));
            lemma_lookup_put(m, num_key(), ValueModel::Int(n), id_key());
            lemma_lookup_put(a, focused_key(), ValueModel::Bool(n == active_id), id_key());
            lemma_lookup_put(m, num_key(), ValueModel::Int(n), num_key());
            lemma_lookup_put(a, focused_key(), ValueModel::Bool(n == active_id), num_key());
            lemma_lookup_put(a, focused_key(), ValueModel::Bool(n == active_id), focused_key());
            lemma_put_same(b, num_key(), ValueModel::Int(n));
            lemma_put_same(b, focused_key(), ValueModel::Bool(n == active_id));
        },
        None => {},
    }
}

/// Live mode orders its output by identifier: records without an integer
/// `id` first, the others ascending by `id`.
pub proof fn lemma_live_sorted(live: Seq<RecordModel>, active_id: i64)
    ensures
        sorted_by_id(reconcile_live(live, active_id)),
        reconcile_live(live, active_id).len() == live.len(),
        forall|i: int, j: int|
            0 <= i < j < live.len() ==> match (
                id_of(#[trigger] reconcile_live(live, active_id)[i]),
                id_of(#[trigger] reconcile_live(live, active_id)[j]),
            ) {
                (Some(a), Some(b)) => a <= b,
                (Some(_), None) => false,
                _ => true,
            },
{
    let s = sort_by_id(live);
    lemma_sort_by_id_sorted(live);
    let out = reconcile_live(live, active_id);
    assert forall|i: int| 0 <= i < out.len() implies id_of(#[trigger] out[i]) == id_of(s[i]) by {
        lemma_annotate_live(s[i], active_id);
    }
    assert forall|i: int, j: int| 0 <= i < j < out.len() implies id_le(#[trigger] out[i], #[trigger] out[j]) by {
        assert(id_le(s[i], s[j]));
    }
}

/// Live mode is idempotent: reconciling its own output again, against the
/// same active workspace, gives that output back.
pub proof fn lemma_live_idempotent(live: Seq<RecordModel>, active_id: i64)
    ensures
        reconcile_live(reconcile_live(live, active_id), active_id) == reconcile_live(live, active_id),
{
    let out = reconcile_live(live, active_id);
    lemma_live_sorted(live, active_id);
    lemma_sort_by_id_of_sorted(out);
    assert forall|i: int| 0 <= i < out.len() implies annotate_live(#[trigger] out[i], active_id) == out[i] by {
        lemma_annotate_live(sort_by_id(live)[i], active_id);
    }
    assert(reconcile_live(out, active_id) =~= out);
}

/// Reconciliation is deterministic: equal snapshots, templates and active
/// workspaces give equal views and the same JSON text.
pub proof fn lemma_reconcile_deterministic(
    live1: Seq<RecordModel>,
    live2: Seq<RecordModel>,
    tpl1: Option<Seq<RecordModel>>,
    tpl2: Option<Seq<RecordModel>>,
    active_id: i64,
)
    requires
        live1 == live2,
        tpl1 == tpl2,
    ensures
        reconcile_view(live1, tpl1, active_id) == reconcile_view(live2, tpl2, active_id),
        crate::render::view_text(reconcile_view(live1, tpl1, active_id)) == crate::render::view_text(
            reconcile_view(live2, tpl2, active_id),
        ),
{
}

/// The template entries that have an integer `id`, in template order.
pub open spec fn with_ids(tpl: Seq<RecordModel>) -> Seq<RecordModel>
    decreases tpl.len(),
{
    if tpl.len() == 0 {
        tpl
    } else if id_of(tpl.last()) is Some {
        with_ids(tpl.drop_last()).push(tpl.last())
    } else {
        with_ids(tpl.drop_last())
    }
}

/// Persistent mode yields one entry per template entry with an integer `id`,
/// in template order: the i-th output entry is that template entry merged and
/// annotated, and carries its `id`.
pub proof fn lemma_persistent_shape(live: Seq<RecordModel>, tpl: Seq<RecordModel>, active_id: i64)
    requires
        forall|i: int| 0 <= i < live.len() ==> keys_unique(#[trigger] live[i]),
    ensures
        reconcile_persistent(live, tpl, active_id).len() == with_ids(tpl).len(),
        forall|i: int|
            0 <= i < with_ids(tpl).len() ==> Some(#[trigger] reconcile_persistent(live, tpl, active_id)[i])
                == persistent_entry(sort_by_id(live), with_ids(tpl)[i], active_id),
        forall|i: int|
            0 <= i < with_ids(tpl).len() ==> id_of(#[trigger] reconcile_persistent(live, tpl, active_id)[i])
                == id_of(with_ids(tpl)[i]),
    decreases tpl.len(),
{
    let sl = sort_by_id(live);
    lemma_sort_by_id_members(live);
    if tpl.len() > 0 {
        lemma_persistent_shape(live, tpl.drop_last(), active_id);
        let t = tpl.last();
        if id_of(t) is Some {
            lemma_persistent_entry_id(sl, t, active_id);
        }
    }
}

proof fn lemma_insert_sorted_members(s: Seq<RecordModel>, x: RecordModel)
    requires
        forall|i: int| 0 <= i < s.len() ==> keys_unique(#[trigger] s[i]),
        keys_unique(x),
    ensures
        forall|i: int| 0 <= i < insert_sorted(s, x).len() ==> keys_unique(#[trigger] insert_sorted(s, x)[i]),
    decreases s.len(),
{
    if s.len() > 0 {
        assert(keys_unique(s[s.len() - 1]));
        if !id_le(s.last(), x) {
            assert(forall|i: int| 0 <= i < s.drop_last().len() ==> s.drop_last()[i] == s[i]);
            lemma_insert_sorted_members(s.drop_last(), x);
            let r = insert_sorted(s.drop_last(), x);
            assert(forall|i: int| 0 <= i < r.len() ==> r.push(s.last())[i] == r[i]);
        }
    }
}

/// Sorting keeps records whose keys are all distinct.
proof fn lemma_sort_by_id_members(s: Seq<RecordModel>)
    ensures
        (forall|i: int| 0 <= i < s.len() ==> keys_unique(#[trigger] s[i])) ==> (forall|i: int|
            0 <= i < sort_by_id(s).len() ==> keys_unique(#[trigger] sort_by_id(s)[i])),
    decreases s.len(),
{
    if s.len() > 0 {
        lemma_sort_by_id_members(s.drop_last());
        if forall|i: int| 0 <= i < s.len() ==> keys_unique(#[trigger] s[i]) {
            assert(forall|i: int| 0 <= i < s.drop_last().len() ==> s.drop_last()[i] == s[i]);
            assert(keys_unique(s[s.len() - 1]));
            lemma_insert_sorted_members(sort_by_id(s.drop_last()), s.last());
        }
    }
}

proof fn lemma_id_index_bounds(s: Seq<RecordModel>, p: i64)
    ensures
        -1 <= id_index(s, p) < s.len(),
        id_index(s, p) >= 0 ==> id_of(s[id_index(s, p)]) == Some(p),
    decreases s.len(),
{
    if s.len() > 0 && id_of(s[0]) != Some(p) {
        lemma_id_index_bounds(s.drop_first(), p);
    }
}

proof fn lemma_persistent_entry_id(sorted_live: Seq<RecordModel>, t: RecordModel, active_id: i64)
    requires
        forall|i: int| 0 <= i < sorted_live.len() ==> keys_unique(#[trigger] sorted_live[i]),
        id_of(t) is Some,
    ensures
        id_of(persistent_entry(sorted_live, t, active_id)->Some_0) == id_of(t),
{
    lemma_annotation_keys();
    lemma_id_index_bounds(sorted_live, id_of(t)->Some_0);
    lemma_persistent_entry_fields(sorted_live, t, active_id, id_key());
}

/// The entry that persistent mode makes of a template entry with `id` `p`:
/// the fields of its first live counterpart win over the template's, `num`
/// is `p`, `active` says whether a counterpart was found, and `focused`
/// whether `p` is the active workspace.
pub proof fn lemma_persistent_entry_fields(sorted_live: Seq<RecordModel>, t: RecordModel, active_id: i64, k: Seq<char>)
    requires
        forall|i: int| 0 <= i < sorted_live.len() ==> keys_unique(#[trigger] sorted_live[i]),
        id_of(t) is Some,
    ensures
        ({
            let p = id_of(t)->Some_0;
            let i = id_index(sorted_live, p);
            let e = persistent_entry(sorted_live, t, active_id)->Some_0;
            &&& lookup(e, num_key()) == Some(ValueModel::Int(p))
            &&& lookup(e, active_key()) == Some(ValueModel::Bool(i >= 0))
            &&& lookup(e, focused_key()) == Some(ValueModel::Bool(p == active_id))
            &&& (k != num_key() && k != active_key() && k != focused_key()) ==> lookup(e, k) == if i >= 0 {
                match lookup(sorted_live[i], k) {
                    Some(v) => Some(v),
                    None => lookup(t, k),
                }
            } else {
                lookup(t, k)
            }
        }),
{
    lemma_annotation_keys();
    let p = id_of(t)->Some_0;
    lemma_id_index_bounds(sorted_live, p);
    let i = id_index(sorted_live, p);
    let merged = if i >= 0 {
        merge_fields(t, sorted_live[i])
    } else {
        t
    };
    if i >= 0 {
        lemma_merge_over_wins(t, sorted_live[i], k);
    }
    let a = put(merged, num_key(), ValueModel::Int(p));
    let b = put(a, active_key(), ValueModel::Bool(i >= 0));
    lemma_lookup_put(merged, num_key(), ValueModel::Int(p), k);
    lemma_lookup_put(a, active_key(), ValueModel::Bool(i >= 0), k);
    lemma_lookup_put(b, focused_key(), ValueModel::Bool(p == active_id), k);
    lemma_lookup_put(merged, num_key(), ValueModel::Int(p), num_key());
    lemma_lookup_put(a, active_key(), ValueModel::Bool(i >= 0), num_key());
    lemma_lookup_put(b, focused_key(), ValueModel::Bool(p == active_id), num_key());
    lemma_lookup_put(a, active_key(), ValueModel::Bool(i >= 0), active_key());
    lemma_lookup_put(b, focused_key(), ValueModel::Bool(p == active_id), active_key());
    lemma_lookup_put(b, focused_key(), ValueModel::Bool(p == active_id), focused_key());
}

/// Owned string of a key literal.
fn key(s: &str) -> (r: String)
    ensures
        r@ == s@,
{
    String::from_str(s)
}

impl Record {
    /// A copy of this record.
    pub fn duplicate(&self) -> (r: Record)
        ensures
            r@ == self@,
    {
        let mut r = Record::new();
        let n = self.fields.len();
        let mut i: usize = 0;
        while i < n
            invariant
                n == self.fields@.len(),
                0 <= i <= n,
                r@ =~= self@.subrange(0, i as int),
            decreases n - i,
        {
            let k = self.fields[i].0.clone();
            let v = self.fields[i].1.duplicate();
            assert(r@.len() == i);
            assert(r.fields@.len() == i);
            r.fields.push((k, v));
            assert(r@ =~= self@.subrange(0, i + 1));
            i = i + 1;
        }
        assert(r@ =~= self@);
        r
    }

    /// The workspace identifier: the integer under `id`, if it is one.
    pub fn id(&self) -> (r: Option<i64>)
        ensures
            r == id_of(self@),
    {
        let k = key("id");
        proof {
            reveal_strlit("id");
        }
        assert(k@ =~= id_key());
        match self.get(&k) {
            Some(Value::Int(n)) => Some(*n),
            _ => None,
        }
    }
}

/// Whether identifier `a` sorts at or before `b`.
fn ids_in_order(a: Option<i64>, b: Option<i64>) -> (r: bool)
    ensures
        r == opt_le(a, b),
{
    match (a, b) {
        (None, _) => true,
        (Some(_), None) => false,
        (Some(x), Some(y)) => x <= y,
    }
}

/// Puts `x` into the sorted `v` after every record that sorts at or before it.
fn insert_by_id(v: &mut Vec<Record>, x: Record)
    ensures
        models(final(v)@) == insert_sorted(models(old(v)@), x@),
{
    let xid = x.id();
    let ghost s = models(v@);
    let n = v.len();
    let mut j: usize = n;
    let mut placed = false;
    assert(s.subrange(j as int, n as int) =~= Seq::<RecordModel>::empty());
    assert(s.subrange(0, j as int) =~= s);
    while j > 0 && !placed
        invariant
            v@ == old(v)@,
            xid == id_of(x@),
            s == models(v@),
            n == v@.len(),
            0 <= j <= n,
            insert_sorted(s, x@) == insert_sorted(s.subrange(0, j as int), x@) + s.subrange(j as int, n as int),
            placed ==> j > 0 && id_le(s[j - 1], x@),
        decreases j + (if placed { 0int } else { 1int }),
    {
        let prev = v[j - 1].id();
        assert(s[j - 1] == v@[j - 1]@);
        if ids_in_order(prev, xid) {
            placed = true;
        } else {
            let ghost t = s.subrange(0, j as int);
            assert(t.drop_last() =~= s.subrange(0, j - 1));
            assert(t.last() == s[j - 1]);
            assert(insert_sorted(t, x@) == insert_sorted(t.drop_last(), x@).push(t.last()));
            assert(insert_sorted(t.drop_last(), x@).push(t.last()) + s.subrange(j as int, n as int)
                =~= insert_sorted(s.subrange(0, j - 1), x@) + s.subrange(j - 1, n as int));
            j = j - 1;
        }
    }
    let ghost t = s.subrange(0, j as int);
    if j > 0 {
        assert(t.last() == s[j - 1]);
        assert(insert_sorted(t, x@) == t.push(x@));
    } else {
        assert(insert_sorted(t, x@) == seq![x@]);
    }
    v.insert(j, x);
    assert(models(v@) =~= insert_sorted(s, x@));
}

/// The records of `live`, copied and stably sorted by `id_le`.
pub fn sort_records(live: &Vec<Record>) -> (r: Vec<Record>)
    ensures
        models(r@) == sort_by_id(models(live@)),
{
    let ghost s = models(live@);
    let mut out: Vec<Record> = Vec::new();
    let n = live.len();
    let mut i: usize = 0;
    assert(models(out@) =~= sort_by_id(s.subrange(0, 0)));
    while i < n
        invariant
            s == models(live@),
            n == live@.len(),
            0 <= i <= n,
            models(out@) == sort_by_id(s.subrange(0, i as int)),
        decreases n - i,
    {
        let x = live[i].duplicate();
        assert(s.subrange(0, i + 1).drop_last() =~= s.subrange(0, i as int));
        insert_by_id(&mut out, x);
        i = i + 1;
    }
    assert(s.subrange(0, n as int) =~= s);
    out
}

/// Sets `num` and `focused` on a record with an integer `id`.
fn annotate_live_exec(r: &mut Record, active_id: i64)
    ensures
        final(r)@ == annotate_live(old(r)@, active_id),
{
    match r.id() {
        Some(n) => {
            let k = key("num");
            proof {
                reveal_strlit("num");
            }
            assert(k@ =~= num_key());
            r.insert(k, Value::Int(n));
            let k = key("focused");
            proof {
                reveal_strlit("focused");
            }
            assert(k@ =~= focused_key());
            r.insert(k, Value::Bool(n == active_id));
        },
        None => {},
    }
}

/// Puts every entry of `over` on `base`, in order: on a shared key the value
/// of `over` wins.
pub fn merge_into(base: &mut Record, over: &Record)
    ensures
        final(base)@ == merge_fields(old(base)@, over@),
{
    let n = over.fields.len();
    let mut i: usize = 0;
    assert(over@.subrange(0, 0).len() == 0);
    while i < n
        invariant
            n == over.fields@.len(),
            0 <= i <= n,
            base@ == merge_fields(old(base)@, over@.subrange(0, i as int)),
        decreases n - i,
    {
        let k = over.fields[i].0.clone();
        let v = over.fields[i].1.duplicate();
        let ghost pre = over@.subrange(0, i + 1);
        assert(pre.drop_last() =~= over@.subrange(0, i as int));
        assert(pre.last() == over@[i as int]);
        base.insert(k, v);
        i = i + 1;
    }
    assert(over@.subrange(0, n as int) =~= over@);
}

/// Position of the first record of `s` whose `id` is `p`.
fn position_of_id(s: &Vec<Record>, p: i64) -> (r: Option<usize>)
    ensures
        match r {
            Some(i) => id_index(models(s@), p) == i as int && i < s@.len(),
            None => id_index(models(s@), p) < 0,
        },
{
    let ghost m = models(s@);
    let n = s.len();
    let mut i: usize = 0;
    assert(m.subrange(0, n as int) =~= m);
    while i < n
        invariant
            m == models(s@),
            n == s@.len(),
            0 <= i <= n,
            id_index(m, p) == {
                let r = id_index(m.subrange(i as int, n as int), p);
                if r < 0 {
                    -1
                } else {
                    r + i
                }
            },
        decreases n - i,
    {
        assert(m.subrange(i as int, n as int).drop_first() =~= m.subrange(i + 1, n as int));
        assert(m.subrange(i as int, n as int)[0] == s@[i as int]@);
        if s[i].id() == Some(p) {
            return Some(i);
        }
        i = i + 1;
    }
    assert(m.subrange(n as int, n as int).len() == 0);
    None
}

/// Live mode: the snapshot sorted by `id`, with `num` and `focused` set on
/// each record that has an integer `id`.
pub fn live_view(live: &Vec<Record>, active_id: i64) -> (r: Vec<Record>)
    ensures
        models(r@) == reconcile_live(models(live@), active_id),
{
    let sorted = sort_records(live);
    let ghost target = reconcile_live(models(live@), active_id);
    let mut out: Vec<Record> = Vec::new();
    let n = sorted.len();
    let mut i: usize = 0;
    while i < n
        invariant
            n == sorted@.len(),
            models(sorted@) == sort_by_id(models(live@)),
            target == reconcile_live(models(live@), active_id),
            target.len() == n,
            0 <= i <= n,
            models(out@) =~= target.subrange(0, i as int),
        decreases n - i,
    {
        let mut rec = sorted[i].duplicate();
        annotate_live_exec(&mut rec, active_id);
        assert(models(sorted@)[i as int] == sorted@[i as int]@);
        assert(target[i as int] == annotate_live(models(sorted@)[i as int], active_id));
        assert(models(out@).len() == i);
        assert(out@.len() == i);
        out.push(rec);
        assert(models(out@) =~= target.subrange(0, i + 1));
        i = i + 1;
    }
    out
}

/// Persistent mode: each template entry with an integer `id`, in template
/// order, merged with the first live record of that `id` (whose values win)
/// and given `num`, `active` and `focused`.
pub fn persistent_view(live: &Vec<Record>, template: &Vec<Record>, active_id: i64) -> (r: Vec<Record>)
    ensures
        models(r@) == reconcile_persistent(models(live@), models(template@), active_id),
{
    let sorted = sort_records(live);
    let ghost sl = models(sorted@);
    let ghost tpl = models(template@);
    let mut out: Vec<Record> = Vec::new();
    let n = template.len();
    let mut i: usize = 0;
    assert(tpl.subrange(0, 0).len() == 0);
    while i < n
        invariant
            n == template@.len(),
            tpl == models(template@),
            sl == models(sorted@),
            sl == sort_by_id(models(live@)),
            0 <= i <= n,
            models(out@) == persistent_entries(sl, tpl.subrange(0, i as int), active_id),
        decreases n - i,
    {
        let ghost pre = tpl.subrange(0, i + 1);
        assert(pre.drop_last() =~= tpl.subrange(0, i as int));
        assert(pre.last() == template@[i as int]@);
        match template[i].id() {
            Some(p) => {
                let mut m = template[i].duplicate();
                let found = position_of_id(&sorted, p);
                match found {
                    Some(j) => {
                        assert(sl[j as int] == sorted@[j as int]@);
                        merge_into(&mut m, &sorted[j]);
                    },
                    None => {},
                }
                let k = key("num");
                proof {
                    reveal_strlit("num");
                }
                assert(k@ =~= num_key());
                m.insert(k, Value::Int(p));
                let k = key("active");
                proof {
                    reveal_strlit("active");
                }
                assert(k@ =~= active_key());
                m.insert(k, Value::Bool(found.is_some()));
                let k = key("focused");
                proof {
                    reveal_strlit("focused");
                }
                assert(k@ =~= focused_key());
                m.insert(k, Value::Bool(p == active_id));
                out.push(m);
                assert(models(out@) =~= persistent_entries(sl, pre, active_id));
            },
            None => {},
        }
        i = i + 1;
    }
    assert(tpl.subrange(0, n as int) =~= tpl);
    out
}

/// One reconciliation pass: persistent mode where a template is given, live
/// mode otherwise.
pub fn reconcile(live: &Vec<Record>, template: Option<&Vec<Record>>, active_id: i64) -> (r: Vec<Record>)
    ensures
        models(r@) == reconcile_view(
            models(live@),
            match template {
                Some(t) => Some(models(t@)),
                None => None,
            },
            active_id,
        ),
{
    match template {
        Some(t) => persistent_view(live, t, active_id),
        None => live_view(live, active_id),
    }
}

} // verus!
