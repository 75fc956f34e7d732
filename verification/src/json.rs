//! JSON value trees.
//!
//! Documents are decoded from and encoded into this structural form. A
//! [`JsonValue`] is an opaque JSON-like structure: string, number, boolean,
//! null, array, or nested mapping. Numbers are carried as their decimal
//! text, so the tree holds plain values only. Object fields are kept in
//! strictly ascending key order, mirroring the ordered maps the underlying
//! parser produces.

use vstd::prelude::*;

verus! {

broadcast use vstd::std_specs::vec::group_vec_axioms;

/// Spec-level JSON tree: the mathematical model of a [`JsonValue`].
pub enum JsonSpec {
    Null,
    Bool(bool),
    Num(Seq<char>),
    Str(Seq<char>),
    Arr(Seq<JsonSpec>),
    Obj(Seq<(Seq<char>, JsonSpec)>),
}

/// One field of a JSON object.
#[derive(Debug, PartialEq, Eq)]
pub struct JsonField {
    pub key: String,
    pub value: JsonValue,
}

/// One JSON value: null, boolean, number (as its decimal text), string,
/// array, or object held as a list of key/value fields.
#[derive(Debug, PartialEq, Eq)]
pub enum JsonValue {
    Null,
    Bool(bool),
    Num(String),
    Str(String),
    Arr(Vec<JsonValue>),
    Obj(Vec<JsonField>),
}

impl JsonValue {
    /// The mathematical model of this value.
    pub open spec fn model(self) -> JsonSpec
        decreases self,
    {
        match self {
            JsonValue::Null => JsonSpec::Null,
            JsonValue::Bool(b) => JsonSpec::Bool(b),
            JsonValue::Num(s) => JsonSpec::Num(s@),
            JsonValue::Str(s) => JsonSpec::Str(s@),
            JsonValue::Arr(a) => JsonSpec::Arr(arr_model(a@)),
            JsonValue::Obj(o) => JsonSpec::Obj(obj_model(o@)),
        }
    }
}

/// The model of an array's element list. The range guard keeps the
/// recursion visibly within the sequence.
pub open spec fn arr_model(s: Seq<JsonValue>) -> Seq<JsonSpec>
    decreases s,
{
    Seq::new(
        s.len(),
        |i: int|
            if 0 <= i < s.len() {
                s[i].model()
            } else {
                JsonSpec::Null
            },
    )
}

/// The model of an object's field list. The range guard keeps the
/// recursion visibly within the sequence.
pub open spec fn obj_model(o: Seq<JsonField>) -> Seq<(Seq<char>, JsonSpec)>
    decreases o,
{
    Seq::new(
        o.len(),
        |i: int|
            if 0 <= i < o.len() {
                (o[i].key@, o[i].value.model())
            } else {
                (Seq::empty(), JsonSpec::Null)
            },
    )
}

/// Lexicographic order on strings, by unicode scalar value.
pub open spec fn str_lt(a: Seq<char>, b: Seq<char>) -> bool
    decreases a.len(),
{
    if b.len() == 0 {
        false
    } else if a.len() == 0 {
        true
    } else if a[0] != b[0] {
        (a[0] as int) < (b[0] as int)
    } else {
        str_lt(a.skip(1), b.skip(1))
    }
}

/// The fields of an object stand in strictly ascending key order.
pub open spec fn obj_sorted(o: Seq<(Seq<char>, JsonSpec)>) -> bool {
    forall|i: int, j: int|
        0 <= i < j < o.len() ==> str_lt(#[trigger] o[i].0, #[trigger] o[j].0)
}

/// Well-formed tree: every object, at every depth, is strictly sorted by
/// key (so keys are unique as well).
pub open spec fn wf_json(j: JsonSpec) -> bool
    decreases j,
{
    match j {
        JsonSpec::Arr(a) => forall|i: int| 0 <= i < a.len() ==> wf_json(#[trigger] a[i]),
        JsonSpec::Obj(o) => obj_sorted(o) && forall|i: int|
            0 <= i < o.len() ==> wf_json(#[trigger] o[i].1),
        _ => true,
    }
}

/// The value of the first field named `k`, if any.
pub open spec fn obj_get(o: Seq<(Seq<char>, JsonSpec)>, k: Seq<char>) -> Option<JsonSpec>
    decreases o.len(),
{
    if o.len() == 0 {
        None
    } else if o[0].0 == k {
        Some(o[0].1)
    } else {
        obj_get(o.skip(1), k)
    }
}

/// The field list without any field named `k`.
pub open spec fn obj_remove(
    o: Seq<(Seq<char>, JsonSpec)>,
    k: Seq<char>,
) -> Seq<(Seq<char>, JsonSpec)>
    decreases o.len(),
{
    if o.len() == 0 {
        o
    } else if o[0].0 == k {
        obj_remove(o.skip(1), k)
    } else {
        seq![o[0]] + obj_remove(o.skip(1), k)
    }
}

/// The field list with `k` bound to `v`, inserted at its sorted place
/// (replacing an existing binding of `k`).
pub open spec fn obj_insert(
    o: Seq<(Seq<char>, JsonSpec)>,
    k: Seq<char>,
    v: JsonSpec,
) -> Seq<(Seq<char>, JsonSpec)>
    decreases o.len(),
{
    if o.len() == 0 {
        seq![(k, v)]
    } else if str_lt(k, o[0].0) {
        seq![(k, v)] + o
    } else if k == o[0].0 {
        seq![(k, v)] + o.skip(1)
    } else {
        seq![o[0]] + obj_insert(o.skip(1), k, v)
    }
}

pub proof fn lemma_str_lt_irrefl(a: Seq<char>)
    ensures
        !str_lt(a, a),
    decreases a.len(),
{
    if a.len() > 0 {
        lemma_str_lt_irrefl(a.skip(1));
    }
}

pub proof fn lemma_str_lt_asym(a: Seq<char>, b: Seq<char>)
    requires
        str_lt(a, b),
    ensures
        !str_lt(b, a),
        a != b,
    decreases a.len(),
{
    lemma_str_lt_irrefl(a);
    if a.len() > 0 && b.len() > 0 && a[0] == b[0] {
        lemma_str_lt_asym(a.skip(1), b.skip(1));
        if a == b {
            assert(a.skip(1) == b.skip(1));
        }
    }
}

pub proof fn lemma_str_lt_connected(a: Seq<char>, b: Seq<char>)
    requires
        a != b,
    ensures
        str_lt(a, b) || str_lt(b, a),
    decreases a.len(),
{
    if a.len() == 0 && b.len() == 0 {
        assert(a =~= b);
    } else if a.len() > 0 && b.len() > 0 && a[0] == b[0] {
        if a.skip(1) == b.skip(1) {
            assert(a =~= seq![a[0]] + a.skip(1));
            assert(b =~= seq![b[0]] + b.skip(1));
            assert(a == b);
        }
        lemma_str_lt_connected(a.skip(1), b.skip(1));
    } else if a.len() > 0 && b.len() > 0 {
        assert((a[0] as int) != (b[0] as int));
    }
}

/// Prefix-equal strings compare as their tails do.
pub proof fn lemma_str_lt_skip(a: Seq<char>, b: Seq<char>, i: int)
    requires
        0 <= i <= a.len(),
        i <= b.len(),
        forall|j: int| 0 <= j < i ==> a[j] == b[j],
    ensures
        str_lt(a, b) == str_lt(a.skip(i), b.skip(i)),
    decreases i,
{
    if i > 0 {
        assert(a[0] == b[0]);
        assert(forall|j: int| 0 <= j < i - 1 ==> a.skip(1)[j] == b.skip(1)[j]);
        lemma_str_lt_skip(a.skip(1), b.skip(1), i - 1);
        assert(a.skip(1).skip(i - 1) =~= a.skip(i));
        assert(b.skip(1).skip(i - 1) =~= b.skip(i));
    } else {
        assert(a.skip(0) =~= a);
        assert(b.skip(0) =~= b);
    }
}

/// A present key names some field of the object.
pub proof fn lemma_get_some_index(o: Seq<(Seq<char>, JsonSpec)>, k: Seq<char>)
    requires
        obj_get(o, k) is Some,
    ensures
        exists|i: int| 0 <= i < o.len() && o[i].0 == k && o[i].1 == obj_get(o, k)->Some_0,
    decreases o.len(),
{
    if o.len() > 0 && o[0].0 != k {
        lemma_get_some_index(o.skip(1), k);
        let i = choose|i: int|
            0 <= i < o.skip(1).len() && o.skip(1)[i].0 == k
                && o.skip(1)[i].1 == obj_get(o.skip(1), k)->Some_0;
        assert(o[i + 1].0 == k && o[i + 1].1 == obj_get(o, k)->Some_0);
    }
}

/// A key below every field name is absent.
pub proof fn lemma_get_none_below(o: Seq<(Seq<char>, JsonSpec)>, k: Seq<char>)
    requires
        forall|i: int| 0 <= i < o.len() ==> str_lt(k, #[trigger] o[i].0),
    ensures
        obj_get(o, k) is None,
{
    if obj_get(o, k) is Some {
        lemma_get_some_index(o, k);
        let i = choose|i: int| 0 <= i < o.len() && o[i].0 == k;
        lemma_str_lt_irrefl(k);
    }
}

/// Removing an absent key leaves the object unchanged.
pub proof fn lemma_remove_absent(o: Seq<(Seq<char>, JsonSpec)>, k: Seq<char>)
    requires
        obj_get(o, k) is None,
    ensures
        obj_remove(o, k) == o,
    decreases o.len(),
{
    if o.len() > 0 {
        lemma_remove_absent(o.skip(1), k);
        assert(seq![o[0]] + o.skip(1) =~= o);
    }
}

/// Removing one key does not touch the binding of another.
pub proof fn lemma_remove_preserves_get(
    o: Seq<(Seq<char>, JsonSpec)>,
    k: Seq<char>,
    k2: Seq<char>,
)
    requires
        k2 != k,
    ensures
        obj_get(obj_remove(o, k), k2) == obj_get(o, k2),
    decreases o.len(),
{
    if o.len() > 0 {
        lemma_remove_preserves_get(o.skip(1), k, k2);
        if o[0].0 != k {
            let r = seq![o[0]] + obj_remove(o.skip(1), k);
            assert(r.skip(1) =~= obj_remove(o.skip(1), k));
        }
    }
}

/// Removal keeps any strict lower bound on the object's keys.
pub proof fn lemma_remove_lower(o: Seq<(Seq<char>, JsonSpec)>, k: Seq<char>, x: Seq<char>)
    requires
        forall|i: int| 0 <= i < o.len() ==> str_lt(x, #[trigger] o[i].0),
    ensures
        forall|i: int|
            0 <= i < obj_remove(o, k).len() ==> str_lt(x, #[trigger] obj_remove(o, k)[i].0),
    decreases o.len(),
{
    if o.len() > 0 {
        assert(forall|i: int| 0 <= i < o.skip(1).len() ==> str_lt(x, #[trigger] o.skip(1)[i].0));
        lemma_remove_lower(o.skip(1), k, x);
        if o[0].0 != k {
            let r = seq![o[0]] + obj_remove(o.skip(1), k);
            assert(forall|i: int| 1 <= i < r.len() ==> r[i] == obj_remove(o.skip(1), k)[i - 1]);
        }
    }
}

/// Removal keeps the object sorted.
pub proof fn lemma_remove_sorted(o: Seq<(Seq<char>, JsonSpec)>, k: Seq<char>)
    requires
        obj_sorted(o),
    ensures
        obj_sorted(obj_remove(o, k)),
    decreases o.len(),
{
    if o.len() > 0 {
        assert(obj_sorted(o.skip(1))) by {
            assert(forall|i: int, j: int|
                0 <= i < j < o.skip(1).len() ==> str_lt(
                    #[trigger] o.skip(1)[i].0,
                    #[trigger] o.skip(1)[j].0,
                ));
        }
        lemma_remove_sorted(o.skip(1), k);
        if o[0].0 != k {
            assert(forall|i: int| 0 <= i < o.skip(1).len() ==> str_lt(o[0].0, #[trigger] o.skip(1)[i].0));
            lemma_remove_lower(o.skip(1), k, o[0].0);
            let r = seq![o[0]] + obj_remove(o.skip(1), k);
            assert(forall|i: int| 1 <= i < r.len() ==> r[i] == obj_remove(o.skip(1), k)[i - 1]);
            assert(obj_sorted(r));
        }
    }
}

/// On a sorted object, putting back a removed binding restores the object.
pub proof fn lemma_insert_remove(o: Seq<(Seq<char>, JsonSpec)>, k: Seq<char>)
    requires
        obj_sorted(o),
        obj_get(o, k) is Some,
    ensures
        obj_insert(obj_remove(o, k), k, obj_get(o, k)->Some_0) == o,
    decreases o.len(),
{
    let v = obj_get(o, k)->Some_0;
    assert(obj_sorted(o.skip(1))) by {
        assert(forall|i: int, j: int|
            0 <= i < j < o.skip(1).len() ==> str_lt(
                #[trigger] o.skip(1)[i].0,
                #[trigger] o.skip(1)[j].0,
            ));
    }
    if o[0].0 == k {
        // All later keys lie strictly above k, so k is absent from the tail.
        assert(forall|i: int| 0 <= i < o.skip(1).len() ==> str_lt(k, #[trigger] o.skip(1)[i].0));
        lemma_get_none_below(o.skip(1), k);
        lemma_remove_absent(o.skip(1), k);
        if o.skip(1).len() == 0 {
            assert(obj_insert(obj_remove(o, k), k, v) =~= o);
        } else {
            assert(str_lt(k, o.skip(1)[0].0));
            assert(obj_insert(obj_remove(o, k), k, v) =~= o);
        }
    } else {
        lemma_get_some_index(o, k);
        let i = choose|i: int| 0 <= i < o.len() && o[i].0 == k;
        assert(i >= 1);
        assert(str_lt(o[0].0, k));
        lemma_str_lt_asym(o[0].0, k);
        lemma_insert_remove(o.skip(1), k);
        let r = seq![o[0]] + obj_remove(o.skip(1), k);
        assert(obj_remove(o, k) == r);
        assert(r.len() > 0 && r[0] == o[0]);
        assert(r.skip(1) =~= obj_remove(o.skip(1), k));
        assert(obj_insert(r, k, v) == seq![o[0]] + obj_insert(obj_remove(o.skip(1), k), k, v));
        assert(seq![o[0]] + o.skip(1) =~= o);
    }
}

/// Structural equality on strings, checked character by character.
pub fn str_eq(a: &str, b: &str) -> (r: bool)
    ensures
        r == (a@ == b@),
{
    let na = a.unicode_len();
    let nb = b.unicode_len();
    if na != nb {
        return false;
    }
    let mut i: usize = 0;
    while i < na
        invariant
            na == a@.len(),
            na == b@.len(),
            0 <= i <= na,
            forall|j: int| 0 <= j < i ==> a@[j] == b@[j],
        decreases na - i,
    {
        if a.get_char(i) != b.get_char(i) {
            return false;
        }
        i += 1;
    }
    proof {
        assert(a@ =~= b@);
    }
    true
}

/// Lexicographic comparison on strings, matching [`str_lt`].
pub fn str_less(a: &str, b: &str) -> (r: bool)
    ensures
        r == str_lt(a@, b@),
{
    let na = a.unicode_len();
    let nb = b.unicode_len();
    let n = if na < nb {
        na
    } else {
        nb
    };
    let mut i: usize = 0;
    while i < n
        invariant
            na == a@.len(),
            nb == b@.len(),
            n == if na < nb { na } else { nb },
            0 <= i <= n,
            forall|j: int| 0 <= j < i ==> a@[j] == b@[j],
        decreases n - i,
    {
        let ca = a.get_char(i);
        let cb = b.get_char(i);
        if ca != cb {
            proof {
                lemma_str_lt_skip(a@, b@, i as int);
            }
            return (ca as u32) < (cb as u32);
        }
        i += 1;
    }
    proof {
        lemma_str_lt_skip(a@, b@, n as int);
    }
    na < nb
}

/// Restriction of [`obj_get`] to a suffix: fields named differently up to
/// `i` do not affect the lookup.
pub proof fn lemma_get_after(m: Seq<(Seq<char>, JsonSpec)>, k: Seq<char>, i: int)
    requires
        0 <= i <= m.len(),
        forall|j: int| 0 <= j < i ==> (#[trigger] m[j].0) != k,
    ensures
        obj_get(m, k) == obj_get(m.skip(i), k),
    decreases i,
{
    if i > 0 {
        assert(forall|j: int| 0 <= j < i - 1 ==> (#[trigger] m.skip(1)[j].0) != k);
        lemma_get_after(m.skip(1), k, i - 1);
        assert(m.skip(1).skip(i - 1) =~= m.skip(i));
    } else {
        assert(m.skip(0) =~= m);
    }
}

/// Removing a key from a field list extended by one field.
pub proof fn lemma_remove_snoc(m: Seq<(Seq<char>, JsonSpec)>, p: (Seq<char>, JsonSpec), k: Seq<char>)
    ensures
        obj_remove(m.push(p), k) == if p.0 == k {
            obj_remove(m, k)
        } else {
            obj_remove(m, k).push(p)
        },
    decreases m.len(),
{
    if m.len() == 0 {
        assert(m.push(p)[0] == p);
        assert(m.push(p).skip(1) =~= m);
        if p.0 != k {
            assert(seq![p] + obj_remove(m, k) =~= obj_remove(m, k).push(p));
        }
    } else {
        assert(m.push(p)[0] == m[0]);
        assert(m.push(p).skip(1) =~= m.skip(1).push(p));
        lemma_remove_snoc(m.skip(1), p, k);
        if m[0].0 != k {
            if p.0 == k {
                assert(obj_remove(m.push(p), k) == seq![m[0]] + obj_remove(m.skip(1), k));
            } else {
                assert(seq![m[0]] + obj_remove(m.skip(1), k).push(p) =~= (seq![m[0]] + obj_remove(
                    m.skip(1),
                    k,
                )).push(p));
            }
        }
    }
}

/// Where the sorted insertion of `k` lands, given the scan that found its
/// place: before index `i` every key is below `k`, and at `i` (if any) the
/// key is not below `k`.
pub proof fn lemma_insert_at(m: Seq<(Seq<char>, JsonSpec)>, k: Seq<char>, v: JsonSpec, i: int)
    requires
        0 <= i <= m.len(),
        forall|j: int| 0 <= j < i ==> str_lt(#[trigger] m[j].0, k),
        i < m.len() ==> !str_lt(m[i].0, k),
    ensures
        obj_insert(m, k, v) == if i < m.len() && m[i].0 == k {
            m.take(i).push((k, v)) + m.skip(i + 1)
        } else {
            m.take(i).push((k, v)) + m.skip(i)
        },
    decreases i, m.len(),
{
    if i == 0 {
        if m.len() == 0 {
            assert(obj_insert(m, k, v) =~= m.take(0).push((k, v)) + m.skip(0));
        } else if m[0].0 == k {
            assert(obj_insert(m, k, v) =~= m.take(0).push((k, v)) + m.skip(1));
        } else {
            lemma_str_lt_connected(k, m[0].0);
            assert(str_lt(k, m[0].0));
            assert(obj_insert(m, k, v) =~= m.take(0).push((k, v)) + m.skip(0));
        }
    } else {
        assert(str_lt(m[0].0, k));
        lemma_str_lt_asym(m[0].0, k);
        assert(forall|j: int| 0 <= j < i - 1 ==> str_lt(#[trigger] m.skip(1)[j].0, k));
        lemma_insert_at(m.skip(1), k, v, i - 1);
        assert(obj_insert(m, k, v) == seq![m[0]] + obj_insert(m.skip(1), k, v));
        assert(m.skip(1).take(i - 1) =~= m.take(i).skip(1));
        if i < m.len() && m[i].0 == k {
            assert(m.skip(1)[i - 1] == m[i]);
            assert(m.skip(1).skip(i) =~= m.skip(i + 1));
            assert(seq![m[0]] + (m.skip(1).take(i - 1).push((k, v)) + m.skip(1).skip(i)) =~= m.take(
                i,
            ).push((k, v)) + m.skip(i + 1));
        } else {
            assert(m.skip(1).skip(i - 1) =~= m.skip(i));
            assert(seq![m[0]] + (m.skip(1).take(i - 1).push((k, v)) + m.skip(1).skip(i - 1))
                =~= m.take(i).push((k, v)) + m.skip(i));
        }
    }
}

/// Deep copy of a value, with the same model.
#[verifier::loop_isolation(false)]
pub fn json_dup(v: &JsonValue) -> (r: JsonValue)
    ensures
        r.model() == v.model(),
    decreases v.model(),
{
    match v {
        JsonValue::Null => JsonValue::Null,
        JsonValue::Bool(b) => JsonValue::Bool(*b),
        JsonValue::Num(s) => JsonValue::Num(s.clone()),
        JsonValue::Str(s) => JsonValue::Str(s.clone()),
        JsonValue::Arr(a) => {
            let mut out: Vec<JsonValue> = Vec::new();
            let mut i: usize = 0;
            while i < a.len()
                invariant
                    0 <= i <= a.len(),
                    out@.len() == i,
                    forall|j: int| 0 <= j < i ==> out@[j].model() == a@[j].model(),
                decreases a.len() - i,
            {
                proof {
                    let ghost m = v.model();
                    assert(decreases_to!(m => m->Arr_0));
                    assert(decreases_to!(m->Arr_0 => m->Arr_0[i as int]));
                    assert(m->Arr_0[i as int] == a@[i as int].model());
                }
                out.push(json_dup(&a[i]));
                i += 1;
            }
            proof {
                assert(arr_model(out@) =~= arr_model(a@));
            }
            JsonValue::Arr(out)
        },
        JsonValue::Obj(o) => {
            let mut out: Vec<JsonField> = Vec::new();
            let mut i: usize = 0;
            while i < o.len()
                invariant
                    0 <= i <= o.len(),
                    out@.len() == i,
                    forall|j: int| 0 <= j < i ==> out@[j].key@ == o@[j].key@
                        && out@[j].value.model() == o@[j].value.model(),
                decreases o.len() - i,
            {
                let f = &o[i];
                proof {
                    let ghost m = v.model();
                    assert(decreases_to!(m => m->Obj_0));
                    assert(decreases_to!(m->Obj_0 => m->Obj_0[i as int]));
                    assert(decreases_to!(m->Obj_0[i as int] => m->Obj_0[i as int].1));
                    assert(m->Obj_0[i as int].1 == o@[i as int].value.model());
                }
                out.push(JsonField { key: f.key.clone(), value: json_dup(&f.value) });
                i += 1;
            }
            proof {
                assert(obj_model(out@) =~= obj_model(o@));
            }
            JsonValue::Obj(out)
        },
    }
}

/// Look up the field named `k`.
pub fn obj_find<'a>(o: &'a Vec<JsonField>, k: &str) -> (r: Option<&'a JsonValue>)
    ensures
        match r {
            Some(v) => obj_get(obj_model(o@), k@) == Some(v.model()),
            None => obj_get(obj_model(o@), k@) is None,
        },
{
    let ghost m = obj_model(o@);
    let mut i: usize = 0;
    while i < o.len()
        invariant
            0 <= i <= o.len(),
            m == obj_model(o@),
            forall|j: int| 0 <= j < i ==> (#[trigger] m[j].0) != k@,
        decreases o.len() - i,
    {
        if str_eq(o[i].key.as_str(), k) {
            proof {
                lemma_get_after(m, k@, i as int);
                assert(m.skip(i as int)[0] == m[i as int]);
            }
            return Some(&o[i].value);
        }
        i += 1;
    }
    proof {
        lemma_get_after(m, k@, o.len() as int);
        assert(m.skip(o.len() as int) =~= Seq::empty());
    }
    None
}

/// A copy of the field list without any field named `k`.
pub fn obj_without(o: &Vec<JsonField>, k: &str) -> (r: Vec<JsonField>)
    ensures
        obj_model(r@) == obj_remove(obj_model(o@), k@),
{
    let ghost m = obj_model(o@);
    let mut out: Vec<JsonField> = Vec::new();
    let mut i: usize = 0;
    while i < o.len()
        invariant
            0 <= i <= o.len(),
            m == obj_model(o@),
            obj_model(out@) == obj_remove(m.take(i as int), k@),
        decreases o.len() - i,
    {
        proof {
            assert(m.take(i as int).push(m[i as int]) =~= m.take(i as int + 1));
            lemma_remove_snoc(m.take(i as int), m[i as int], k@);
        }
        let f = &o[i];
        if !str_eq(f.key.as_str(), k) {
            let ghost before = obj_model(out@);
            out.push(JsonField { key: f.key.clone(), value: json_dup(&f.value) });
            proof {
                assert(obj_model(out@) =~= before.push(m[i as int]));
            }
        }
        i += 1;
    }
    proof {
        assert(m.take(o.len() as int) =~= m);
    }
    out
}

/// A copy of the field list with `k` bound to `v` at its sorted place.
pub fn obj_with(o: &Vec<JsonField>, k: &str, v: JsonValue) -> (r: Vec<JsonField>)
    ensures
        obj_model(r@) == obj_insert(obj_model(o@), k@, v.model()),
{
    let ghost m = obj_model(o@);
    let mut i: usize = 0;
    while i < o.len() && str_less(o[i].key.as_str(), k)
        invariant
            0 <= i <= o.len(),
            m == obj_model(o@),
            forall|j: int| 0 <= j < i ==> str_lt(#[trigger] m[j].0, k@),
        decreases o.len() - i,
    {
        i += 1;
    }
    let replaces = i < o.len() && str_eq(o[i].key.as_str(), k);
    proof {
        lemma_insert_at(m, k@, v.model(), i as int);
    }
    let mut out: Vec<JsonField> = Vec::new();
    let mut j: usize = 0;
    while j < i
        invariant
            0 <= j <= i <= o.len(),
            m == obj_model(o@),
            obj_model(out@) == m.take(j as int),
        decreases i - j,
    {
        let f = &o[j];
        let ghost before = obj_model(out@);
        out.push(JsonField { key: f.key.clone(), value: json_dup(&f.value) });
        proof {
            assert(obj_model(out@) =~= before.push(m[j as int]));
            assert(m.take(j as int).push(m[j as int]) =~= m.take(j as int + 1));
        }
        j += 1;
    }
    let ghost kv = (k@, v.model());
    let ghost head = m.take(i as int).push(kv);
    out.push(JsonField { key: k.to_owned(), value: v });
    proof {
        assert(obj_model(out@) =~= head);
    }
    let mut j: usize = if replaces {
        i + 1
    } else {
        i
    };
    while j < o.len()
        invariant
            0 <= j <= o.len(),
            m == obj_model(o@),
            replaces ==> i < o.len() && i + 1 <= j,
            !replaces ==> i <= j,
            i <= o.len(),
            head == m.take(i as int).push(kv),
            obj_model(out@) == head + m.subrange(if replaces { i as int + 1 } else { i as int }, j as int),
        decreases o.len() - j,
    {
        let ghost start: int = if replaces { i as int + 1 } else { i as int };
        let f = &o[j];
        let ghost before = obj_model(out@);
        out.push(JsonField { key: f.key.clone(), value: json_dup(&f.value) });
        proof {
            assert(obj_model(out@) =~= before.push(m[j as int]));
            assert(m.subrange(start, j as int).push(m[j as int]) =~= m.subrange(start, j as int + 1));
            assert(before.push(m[j as int]) =~= head + m.subrange(start, j as int + 1));
        }
        j += 1;
    }
    proof {
        if replaces {
            assert(m.subrange(i as int + 1, o.len() as int) =~= m.skip(i as int + 1));
        } else {
            assert(m.subrange(i as int, o.len() as int) =~= m.skip(i as int));
        }
    }
    out
}

/// Well-formedness reaches every field value of a well-formed object.
pub proof fn lemma_wf_get(o: Seq<(Seq<char>, JsonSpec)>, k: Seq<char>)
    requires
        wf_json(JsonSpec::Obj(o)),
        obj_get(o, k) is Some,
    ensures
        wf_json(obj_get(o, k)->Some_0),
{
    lemma_get_some_index(o, k);
}

/// Some field of `o` is named `x`.
pub open spec fn in_keys(o: Seq<(Seq<char>, JsonSpec)>, x: Seq<char>) -> bool {
    exists|i: int| 0 <= i < o.len() && o[i].0 == x
}


/// After removal, the removed key is gone.
pub proof fn lemma_remove_gone(o: Seq<(Seq<char>, JsonSpec)>, k: Seq<char>)
    ensures
        obj_get(obj_remove(o, k), k) is None,
    decreases o.len(),
{
    if o.len() > 0 {
        lemma_remove_gone(o.skip(1), k);
        if o[0].0 != k {
            let r = seq![o[0]] + obj_remove(o.skip(1), k);
            assert(r.skip(1) =~= obj_remove(o.skip(1), k));
        }
    }
}

/// Removal never adds a field name.
pub proof fn lemma_remove_keys_subset(o: Seq<(Seq<char>, JsonSpec)>, k: Seq<char>)
    ensures
        forall|j: int|
            0 <= j < obj_remove(o, k).len() ==> in_keys(o, #[trigger] obj_remove(o, k)[j].0),
    decreases o.len(),
{
    if o.len() > 0 {
        lemma_remove_keys_subset(o.skip(1), k);
        let rr = obj_remove(o.skip(1), k);
        assert forall|j: int| 0 <= j < obj_remove(o, k).len() implies in_keys(
            o,
            #[trigger] obj_remove(o, k)[j].0,
        ) by {
            if o[0].0 == k {
                assert(in_keys(o.skip(1), obj_remove(o, k)[j].0));
                let i = choose|i: int|
                    0 <= i < o.skip(1).len() && o.skip(1)[i].0 == obj_remove(o, k)[j].0;
                assert(o[i + 1].0 == obj_remove(o, k)[j].0);
            } else {
                let r = seq![o[0]] + rr;
                assert(obj_remove(o, k) == r);
                if j == 0 {
                    assert(o[0].0 == r[0].0);
                } else {
                    assert(r[j] == rr[j - 1]);
                    assert(in_keys(o.skip(1), rr[j - 1].0));
                    let i = choose|i: int| 0 <= i < o.skip(1).len() && o.skip(1)[i].0 == rr[j - 1].0;
                    assert(o[i + 1].0 == rr[j - 1].0);
                }
            }
        }
    }
}

/// Copy of a field list, with the same model.
pub fn obj_dup(o: &Vec<JsonField>) -> (r: Vec<JsonField>)
    ensures
        obj_model(r@) == obj_model(o@),
{
    let mut out: Vec<JsonField> = Vec::new();
    let mut i: usize = 0;
    while i < o.len()
        invariant
            0 <= i <= o@.len(),
            out@.len() == i,
            forall|j: int| 0 <= j < i ==> out@[j].key@ == o@[j].key@ && out@[j].value.model()
                == o@[j].value.model(),
        decreases o@.len() - i,
    {
        let f = &o[i];
        out.push(JsonField { key: f.key.clone(), value: json_dup(&f.value) });
        i += 1;
    }
    proof {
        assert(obj_model(out@) =~= obj_model(o@));
    }
    out
}

} // verus!
