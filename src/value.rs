//! Semantic values and their mathematical model.
use vstd::prelude::*;

verus! {

/// A runtime value of the language.
#[derive(Debug)]
pub enum Value {
    Number(i64),
    Boolean(bool),
    String(Vec<char>),
    Pair(Box<Value>, Box<Value>),
    List(Vec<Value>),
    /// Key/value entries with distinct keys, in the order keys first arrived.
    Mapping(Vec<(Value, Value)>),
}

/// The mathematical model of a `Value`.
pub enum ValueModel {
    Number(i64),
    Boolean(bool),
    Str(Seq<char>),
    Pair(Box<ValueModel>, Box<ValueModel>),
    List(Seq<ValueModel>),
    Mapping(Seq<(ValueModel, ValueModel)>),
}

/// Why a graph does not read back as a value.
#[derive(Debug, Clone, Copy, PartialEq, Eq, Structural)]
pub enum ValueError {
    /// A bare element stands where a functional group is required.
    BareElement,
    /// A functional group of a kind that this position does not allow.
    UnexpectedGroup,
    /// A head has not the number of neighbours its group requires.
    WrongNeighbourCount,
    /// A neighbour holds no molecule.
    MissingNode,
}

pub open spec fn value_model(v: Value) -> ValueModel
    decreases v, 0nat,
{
    match v {
        Value::Number(n) => ValueModel::Number(n),
        Value::Boolean(b) => ValueModel::Boolean(b),
        Value::String(s) => ValueModel::Str(s@),
        Value::Pair(a, b) => ValueModel::Pair(Box::new(value_model(*a)), Box::new(value_model(*b))),
        Value::List(xs) => ValueModel::List(models_upto(xs@, xs@.len() as nat)),
        Value::Mapping(es) => ValueModel::Mapping(entry_models_upto(es@, es@.len() as nat)),
    }
}

/// The models of the first `n` values of `s`.
pub open spec fn models_upto(s: Seq<Value>, n: nat) -> Seq<ValueModel>
    decreases s, n,
{
    if n == 0 || n > s.len() {
        Seq::empty()
    } else {
        models_upto(s, (n - 1) as nat).push(value_model(s[n - 1]))
    }
}

/// The models of the first `n` entries of `s`.
pub open spec fn entry_models_upto(s: Seq<(Value, Value)>, n: nat) -> Seq<(ValueModel, ValueModel)>
    decreases s, n,
{
    if n == 0 || n > s.len() {
        Seq::empty()
    } else {
        entry_models_upto(s, (n - 1) as nat).push(
            (value_model(s[n - 1].0), value_model(s[n - 1].1)),
        )
    }
}

/// The position of the first entry of `m` whose key is `k`, or -1.
pub open spec fn key_pos(m: Seq<(ValueModel, ValueModel)>, k: ValueModel) -> int
    decreases m.len(),
{
    if m.len() == 0 {
        -1
    } else {
        let p = key_pos(m.drop_last(), k);
        if p >= 0 {
            p
        } else if m.last().0 == k {
            m.len() - 1
        } else {
            -1
        }
    }
}

/// `key_pos` finds the first entry with the key, and -1 when none has it.
pub proof fn lemma_key_pos(m: Seq<(ValueModel, ValueModel)>, k: ValueModel)
    ensures
        -1 <= key_pos(m, k) < m.len(),
        key_pos(m, k) >= 0 ==> m[key_pos(m, k)].0 == k,
        forall|i: int| 0 <= i < m.len() && (key_pos(m, k) < 0 || i < key_pos(m, k)) ==> #[trigger] m[i].0 != k,
    decreases m.len(),
{
    if m.len() > 0 {
        lemma_key_pos(m.drop_last(), k);
        assert forall|i: int| 0 <= i < m.len() && (key_pos(m, k) < 0 || i < key_pos(m, k)) implies #[trigger] m[i].0 != k by {
            if i < m.len() - 1 {
                assert(m.drop_last()[i] == m[i]);
            }
        }
    }
}

/// Inserts `(k, v)` into map entries: replaces the first entry with an equal
/// key, or appends a new entry.
pub open spec fn entries_insert(m: Seq<(ValueModel, ValueModel)>, k: ValueModel, v: ValueModel) -> Seq<(ValueModel, ValueModel)> {
    if key_pos(m, k) >= 0 {
        m.update(key_pos(m, k), (k, v))
    } else {
        m.push((k, v))
    }
}

/// No two entries share a key.
pub open spec fn keys_distinct(m: Seq<(ValueModel, ValueModel)>) -> bool {
    forall|i: int, j: int| 0 <= i < m.len() && 0 <= j < m.len() && i != j ==> m[i].0 != m[j].0
}

/// Whether every value of `vals` is a pair.
pub open spec fn all_pairs(vals: Seq<ValueModel>) -> bool {
    forall|i: int| 0 <= i < vals.len() ==> (#[trigger] vals[i]) is Pair
}

/// The map built by inserting the first `n` pairs of `vals` in order (a later
/// pair wins over an earlier one with an equal key); other values are skipped.
pub open spec fn pairs_to_entries(vals: Seq<ValueModel>, n: nat) -> Seq<(ValueModel, ValueModel)>
    decreases n,
{
    if n == 0 || n > vals.len() {
        Seq::empty()
    } else {
        match vals[n - 1] {
            ValueModel::Pair(k, v) => entries_insert(pairs_to_entries(vals, (n - 1) as nat), *k, *v),
            _ => pairs_to_entries(vals, (n - 1) as nat),
        }
    }
}

/// A sequence of values read as a map when all of them are pairs, else as a
/// list.
pub open spec fn list_or_mapping(vals: Seq<ValueModel>) -> ValueModel {
    if all_pairs(vals) {
        ValueModel::Mapping(pairs_to_entries(vals, vals.len()))
    } else {
        ValueModel::List(vals)
    }
}

/// A value that its encoding reads back as itself: lists are non-empty and
/// not made of pairs only (those read back as maps), map keys are distinct,
/// and so on inside.
pub open spec fn canonical(v: ValueModel) -> bool
    decreases v,
{
    match v {
        ValueModel::Pair(a, b) => canonical(*a) && canonical(*b),
        ValueModel::List(xs) => xs.len() > 0 && !all_pairs(xs) && forall|i: int|
            0 <= i < xs.len() ==> canonical(#[trigger] xs[i]),
        ValueModel::Mapping(es) => keys_distinct(es) && (forall|i: int|
            0 <= i < es.len() ==> canonical(#[trigger] es[i].0)) && (forall|i: int|
            0 <= i < es.len() ==> canonical(#[trigger] es[i].1)),
        _ => true,
    }
}

/// Inserting pairs with distinct keys in order builds exactly those entries.
pub proof fn lemma_pairs_to_entries_distinct(ws: Seq<ValueModel>, es: Seq<(ValueModel, ValueModel)>, n: nat)
    requires
        ws.len() == es.len(),
        n <= ws.len(),
        keys_distinct(es),
        forall|i: int| 0 <= i < ws.len() ==> #[trigger] ws[i] == ValueModel::Pair(Box::new(es[i].0), Box::new(es[i].1)),
    ensures
        pairs_to_entries(ws, n) == es.take(n as int),
    decreases n,
{
    if n == 0 {
        assert(es.take(0) =~= Seq::<(ValueModel, ValueModel)>::empty());
    } else {
        lemma_pairs_to_entries_distinct(ws, es, (n - 1) as nat);
        let prev = es.take(n - 1);
        let k = es[n - 1].0;
        assert(ws[n - 1] == ValueModel::Pair(Box::new(es[n - 1].0), Box::new(es[n - 1].1)));
        lemma_key_pos(prev, k);
        assert(key_pos(prev, k) < 0) by {
            if key_pos(prev, k) >= 0 {
                let i = key_pos(prev, k);
                assert(prev[i].0 == k);
                assert(es[i].0 == es[n - 1].0);
            }
        }
        assert(es.take(n as int) =~= prev.push(es[n - 1]));
    }
}

/// The entries `m` with the first `n` entries of `es` inserted in order.
pub open spec fn entries_merge(m: Seq<(ValueModel, ValueModel)>, es: Seq<(ValueModel, ValueModel)>, n: nat) -> Seq<(ValueModel, ValueModel)>
    decreases n,
{
    if n == 0 || n > es.len() {
        m
    } else {
        let prev = entries_merge(m, es, (n - 1) as nat);
        entries_insert(prev, es[n - 1].0, es[n - 1].1)
    }
}

/// The sum of two values of one kind: numbers add, booleans combine with
/// `and`, strings and lists are concatenated, pairs add member by member, and
/// maps take the entries of `b` over those of `a`. None for values of
/// different kinds, or for a number out of the `i64` range.
pub open spec fn value_add(a: ValueModel, b: ValueModel) -> Option<ValueModel>
    decreases a,
{
    match a {
        ValueModel::Number(l) => match b {
            ValueModel::Number(r) => if i64::MIN <= l + r <= i64::MAX {
                Some(ValueModel::Number((l + r) as i64))
            } else {
                None
            },
            _ => None,
        },
        ValueModel::Boolean(l) => match b {
            ValueModel::Boolean(r) => Some(ValueModel::Boolean(l && r)),
            _ => None,
        },
        ValueModel::Str(l) => match b {
            ValueModel::Str(r) => Some(ValueModel::Str(l + r)),
            _ => None,
        },
        ValueModel::Pair(la, lb) => match b {
            ValueModel::Pair(ra, rb) => match value_add(*la, *ra) {
                Some(x) => match value_add(*lb, *rb) {
                    Some(y) => Some(ValueModel::Pair(Box::new(x), Box::new(y))),
                    None => None,
                },
                None => None,
            },
            _ => None,
        },
        ValueModel::List(l) => match b {
            ValueModel::List(r) => Some(ValueModel::List(l + r)),
            _ => None,
        },
        ValueModel::Mapping(l) => match b {
            ValueModel::Mapping(r) => Some(ValueModel::Mapping(entries_merge(l, r, r.len()))),
            _ => None,
        },
    }
}

/// The model of a valuation result.
pub open spec fn result_model(r: Result<Value, ValueError>) -> Result<ValueModel, ValueError> {
    match r {
        Ok(v) => Ok(value_model(v)),
        Err(e) => Err(e),
    }
}

pub proof fn lemma_models_upto(s: Seq<Value>, n: nat)
    requires
        n <= s.len(),
    ensures
        models_upto(s, n).len() == n,
        forall|i: int| 0 <= i < n ==> #[trigger] models_upto(s, n)[i] == value_model(s[i]),
    decreases n,
{
    if n > 0 {
        lemma_models_upto(s, (n - 1) as nat);
    }
}

pub proof fn lemma_entry_models_upto(s: Seq<(Value, Value)>, n: nat)
    requires
        n <= s.len(),
    ensures
        entry_models_upto(s, n).len() == n,
        forall|i: int| 0 <= i < n ==> #[trigger] entry_models_upto(s, n)[i] == (value_model(s[i].0), value_model(s[i].1)),
    decreases n,
{
    if n > 0 {
        lemma_entry_models_upto(s, (n - 1) as nat);
    }
}

/// Deep equality of two values.
#[verifier::loop_isolation(false)]
pub fn value_eq(a: &Value, b: &Value) -> (r: bool)
    ensures
        r == (a@ == b@),
    decreases a,
{
    match (a, b) {
        (Value::Number(x), Value::Number(y)) => *x == *y,
        (Value::Boolean(x), Value::Boolean(y)) => *x == *y,
        (Value::String(x), Value::String(y)) => {
            if x.len() != y.len() {
                proof { assert(x@.len() != y@.len()); }
                return false;
            }
            let mut i: usize = 0;
            while i < x.len()
                invariant
                    x@.len() == y@.len(),
                    0 <= i <= x@.len(),
                    forall|j: int| 0 <= j < i ==> x@[j] == y@[j],
                decreases x@.len() - i,
            {
                if x[i] != y[i] {
                    return false;
                }
                i = i + 1;
            }
            proof { assert(x@ =~= y@); }
            true
        },
        (Value::Pair(x1, x2), Value::Pair(y1, y2)) => {
            let first = value_eq(x1, y1);
            if !first {
                return false;
            }
            value_eq(x2, y2)
        },
        (Value::List(xs), Value::List(ys)) => {
            proof {
                lemma_models_upto(xs@, xs@.len());
                lemma_models_upto(ys@, ys@.len());
            }
            if xs.len() != ys.len() {
                proof { assert(models_upto(xs@, xs@.len()).len() != models_upto(ys@, ys@.len()).len()); }
                return false;
            }
            let mut i: usize = 0;
            while i < xs.len()
                invariant
                    xs@.len() == ys@.len(),
                    0 <= i <= xs@.len(),
                    forall|j: int| 0 <= j < i ==> value_model(xs@[j]) == value_model(ys@[j]),
                decreases xs@.len() - i,
            {
                proof { assert(decreases_to!(xs => xs@[i as int])); }
                if !value_eq(&xs[i], &ys[i]) {
                    proof {
                        assert(models_upto(xs@, xs@.len())[i as int] != models_upto(ys@, ys@.len())[i as int]);
                    }
                    return false;
                }
                i = i + 1;
            }
            proof {
                assert(models_upto(xs@, xs@.len()) =~= models_upto(ys@, ys@.len()));
            }
            true
        },
        (Value::Mapping(xs), Value::Mapping(ys)) => {
            proof {
                lemma_entry_models_upto(xs@, xs@.len());
                lemma_entry_models_upto(ys@, ys@.len());
            }
            if xs.len() != ys.len() {
                proof { assert(entry_models_upto(xs@, xs@.len()).len() != entry_models_upto(ys@, ys@.len()).len()); }
                return false;
            }
            let mut i: usize = 0;
            while i < xs.len()
                invariant
                    xs@.len() == ys@.len(),
                    0 <= i <= xs@.len(),
                    forall|j: int| 0 <= j < i ==> value_model(xs@[j].0) == value_model(ys@[j].0) && value_model(xs@[j].1) == value_model(ys@[j].1),
                decreases xs@.len() - i,
            {
                proof { assert(decreases_to!(xs => xs@[i as int])); }
                let same = value_eq(&xs[i].0, &ys[i].0) && value_eq(&xs[i].1, &ys[i].1);
                if !same {
                    proof {
                        assert(entry_models_upto(xs@, xs@.len())[i as int] != entry_models_upto(ys@, ys@.len())[i as int]);
                    }
                    return false;
                }
                i = i + 1;
            }
            proof {
                assert(entry_models_upto(xs@, xs@.len()) =~= entry_models_upto(ys@, ys@.len()));
            }
            true
        },
        _ => false,
    }
}

/// The model of map entries.
pub open spec fn entries_model(es: Seq<(Value, Value)>) -> Seq<(ValueModel, ValueModel)> {
    entry_models_upto(es, es.len())
}

/// Inserts `(k, v)` into map entries: replaces the first entry with an equal
/// key, or appends a new entry. Distinct keys stay distinct.
pub fn insert_entry(entries: &mut Vec<(Value, Value)>, k: Value, v: Value)
    ensures
        entries_model(final(entries)@) == entries_insert(entries_model(old(entries)@), k@, v@),
        keys_distinct(entries_model(old(entries)@)) ==> keys_distinct(entries_model(final(entries)@)),
{
    let ghost m0 = entries_model(entries@);
    proof {
        lemma_entry_models_upto(entries@, entries@.len());
        lemma_key_pos(m0, k@);
    }
    let mut j: usize = 0;
    while j < entries.len()
        invariant
            entries@ == old(entries)@,
            m0 == entries_model(entries@),
            m0.len() == entries@.len(),
            0 <= j <= entries@.len(),
            forall|i: int| 0 <= i < j ==> m0[i].0 != k@,
            forall|i: int| 0 <= i < entries@.len() ==> #[trigger] m0[i] == (value_model(entries@[i].0), value_model(entries@[i].1)),
            -1 <= key_pos(m0, k@) < m0.len(),
            key_pos(m0, k@) >= 0 ==> m0[key_pos(m0, k@)].0 == k@,
            forall|i: int| 0 <= i < m0.len() && (key_pos(m0, k@) < 0 || i < key_pos(m0, k@)) ==> #[trigger] m0[i].0 != k@,
        decreases entries@.len() - j,
    {
        if value_eq(&entries[j].0, &k) {
            let ghost old_entries = entries@;
            entries[j] = (k, v);
            proof {
                assert(m0[j as int].0 == k@);
                assert(key_pos(m0, k@) == j);
                lemma_entry_models_upto(entries@, entries@.len());
                assert(entries@ == old_entries.update(j as int, (k, v)));
                assert(entries_model(entries@) =~= m0.update(j as int, (k@, v@)));
            }
            return;
        }
        j = j + 1;
    }
    entries.push((k, v));
    proof {
        assert(key_pos(m0, k@) < 0) by {
            if key_pos(m0, k@) >= 0 {
                assert(m0[key_pos(m0, k@)].0 == k@);
            }
        }
        lemma_entry_models_upto(entries@, entries@.len());
        assert(entries_model(entries@) =~= m0.push((k@, v@)));
        let m1 = m0.push((k@, v@));
        if keys_distinct(m0) {
            assert forall|a: int, b: int| 0 <= a < m1.len() && 0 <= b < m1.len() && a != b implies m1[a].0 != m1[b].0 by {
                if a < m0.len() && b < m0.len() {
                } else if a == m0.len() {
                    assert(m0[b].0 != k@);
                } else {
                    assert(m0[a].0 != k@);
                }
            }
        }
    }
}

/// Reads values as a map when every one of them is a pair, else as a list.
#[verifier::loop_isolation(false)]
pub fn list_or_mapping_of(vals: Vec<Value>) -> (r: Value)
    ensures
        r@ == list_or_mapping(models_upto(vals@, vals@.len())),
{
    let ghost vms = models_upto(vals@, vals@.len());
    proof { lemma_models_upto(vals@, vals@.len()); }
    let mut i: usize = 0;
    while i < vals.len()
        invariant
            0 <= i <= vals@.len(),
            forall|j: int| 0 <= j < i ==> (#[trigger] vms[j]) is Pair,
        decreases vals@.len() - i,
    {
        if !matches!(vals[i], Value::Pair(_, _)) {
            proof { assert(!(vms[i as int] is Pair)); }
            return Value::List(vals);
        }
        i = i + 1;
    }
    proof { assert(all_pairs(vms)); }
    let mut entries: Vec<(Value, Value)> = Vec::new();
    let mut rest = vals;
    let ghost all = rest@;
    let mut n: usize = 0;
    proof {
        assert(entries_model(entries@) =~= pairs_to_entries(vms, 0));
    }
    while rest.len() > 0
        invariant
            0 <= n <= all.len(),
            rest@ == all.skip(n as int),
            entries_model(entries@) == pairs_to_entries(vms, n as nat),
            keys_distinct(entries_model(entries@)),
        decreases rest@.len(),
    {
        let item = rest.remove(0);
        proof { assert(item == all[n as int]); }
        match item {
            Value::Pair(k, x) => {
                proof { assert(vms[n as int] == ValueModel::Pair(Box::new(value_model(*k)), Box::new(value_model(*x)))); }
                insert_entry(&mut entries, *k, *x);
            },
            _ => {
                proof { assert(vms[n as int] is Pair); }
            },
        }
        proof { assert(rest@ =~= all.skip(n + 1)); }
        n = n + 1;
    }
    Value::Mapping(entries)
}

impl Value {
    /// The sum of two values of one kind (see `value_add`).
    #[verifier::loop_isolation(false)]
    pub fn add(self, rhs: Value) -> (r: Option<Value>)
        ensures
            match r {
                Some(x) => value_add(self@, rhs@) == Some(x@),
                None => value_add(self@, rhs@) is None,
            },
        decreases self,
    {
        let ghost a = self@;
        let ghost b = rhs@;
        match (self, rhs) {
            (Value::Number(l), Value::Number(r)) => match l.checked_add(r) {
                Some(x) => Some(Value::Number(x)),
                None => None,
            },
            (Value::Boolean(l), Value::Boolean(r)) => Some(Value::Boolean(l && r)),
            (Value::String(l), Value::String(r)) => {
                let mut l = l;
                let mut r = r;
                l.append(&mut r);
                Some(Value::String(l))
            },
            (Value::Pair(la, lb), Value::Pair(ra, rb)) => {
                let x = match (*la).add(*ra) {
                    Some(x) => x,
                    None => return None,
                };
                let y = match (*lb).add(*rb) {
                    Some(y) => y,
                    None => return None,
                };
                Some(Value::Pair(Box::new(x), Box::new(y)))
            },
            (Value::List(l), Value::List(r)) => {
                let ghost l0 = l@;
                let ghost r0 = r@;
                let mut l = l;
                let mut r = r;
                l.append(&mut r);
                proof {
                    lemma_models_upto(l0, l0.len());
                    lemma_models_upto(r0, r0.len());
                    lemma_models_upto(l@, l@.len());
                    assert(models_upto(l@, l@.len()) =~= models_upto(l0, l0.len()) + models_upto(r0, r0.len()));
                }
                Some(Value::List(l))
            },
            (Value::Mapping(l), Value::Mapping(r)) => {
                let ghost lm = entries_model(l@);
                let ghost rm = entries_model(r@);
                let ghost r0 = r@;
                proof {
                    lemma_entry_models_upto(r@, r@.len());
                }
                let mut l = l;
                let len = r.len();
                let mut rest = r;
                let mut i: usize = 0;
                while rest.len() > 0
                    invariant
                        0 <= i <= r0.len(),
                        r0.len() == len,
                        i + rest@.len() == r0.len(),
                        rest@ == r0.skip(i as int),
                        rm.len() == r0.len(),
                        forall|j: int| 0 <= j < r0.len() ==> #[trigger] rm[j] == (value_model(r0[j].0), value_model(r0[j].1)),
                        entries_model(l@) == entries_merge(lm, rm, i as nat),
                    decreases rest@.len(),
                {
                    let (k, v) = rest.remove(0);
                    proof {
                        assert(rest@ =~= r0.skip(i + 1));
                    }
                    insert_entry(&mut l, k, v);
                    i = i + 1;
                }
                Some(Value::Mapping(l))
            },
            _ => None,
        }
    }
}

impl View for Value {
    type V = ValueModel;

    open spec fn view(&self) -> ValueModel {
        value_model(*self)
    }
}

} // verus!
