//! A JSON value model that the protocol logic builds and inspects.

use vstd::prelude::*;

use crate::text::{chars_of, text_lt, text_order, TextOrder};

verus! {

/// A JSON number, as the wire format distinguishes it.
#[derive(Clone, Copy, Debug, PartialEq, Eq)]
pub enum JsonNumber {
    /// A non-negative integer.
    PosInt(u64),
    /// A negative integer.
    NegInt(i64),
    /// A floating-point number, held as the IEEE-754 bits of an `f64`.
    FloatBits(u64),
}

/// A JSON value.
#[derive(Debug, PartialEq)]
pub enum JsonValue {
    Null,
    Bool(bool),
    Number(JsonNumber),
    String(String),
    Array(Vec<JsonValue>),
    /// An object, as its entries in order. Keys are unique in objects read
    /// from JSON text (see [`unique_keys`]) and setting a key keeps them so
    /// (`lemma_view_insert_unique`); where a key repeats, lookups take its
    /// first entry.
    Object(Vec<(String, JsonValue)>),
}

/// The mathematical model of a [`JsonValue`].
pub enum JsonView {
    Null,
    Bool(bool),
    Number(JsonNumber),
    Str(Seq<char>),
    Array(Seq<JsonView>),
    Object(Seq<(Seq<char>, JsonView)>),
}

/// The model of a JSON value, read recursively.
pub open spec fn json_view(value: &JsonValue) -> JsonView
    decreases value,
{
    match value {
        JsonValue::Null => JsonView::Null,
        JsonValue::Bool(b) => JsonView::Bool(*b),
        JsonValue::Number(n) => JsonView::Number(*n),
        JsonValue::String(s) => JsonView::Str(s@),
        JsonValue::Array(v) => JsonView::Array(
            Seq::new(v@.len(), |i: int| if 0 <= i < v@.len() { json_view(&v@[i]) } else { JsonView::Null }),
        ),
        JsonValue::Object(v) => JsonView::Object(
            Seq::new(v@.len(), |i: int| if 0 <= i < v@.len() { (v@[i].0@, json_view(&v@[i].1)) } else { (Seq::empty(), JsonView::Null) }),
        ),
    }
}

impl View for JsonValue {
    type V = JsonView;

    open spec fn view(&self) -> JsonView {
        json_view(self)
    }
}


/// Index of the first entry whose key is `k`, or -1.
pub open spec fn key_index(es: Seq<(String, JsonValue)>, k: Seq<char>) -> int
    decreases es.len(),
{
    if es.len() == 0 {
        -1
    } else if es[0].0@ == k {
        0
    } else {
        let r = key_index(es.drop_first(), k);
        if r < 0 {
            -1
        } else {
            r + 1
        }
    }
}

/// Some entry of `es` has key `k`.
pub open spec fn has_key(es: Seq<(String, JsonValue)>, k: Seq<char>) -> bool {
    exists|i: int| 0 <= i < es.len() && #[trigger] es[i].0@ == k
}

/// Where a new key `k` goes: before the first entry whose key comes after
/// `k` in key order, or at the end. In entries sorted by key (as objects
/// read from JSON text are) this keeps them sorted.
pub open spec fn insert_position(es: Seq<(String, JsonValue)>, k: Seq<char>) -> int
    decreases es.len(),
{
    if es.len() == 0 {
        0
    } else if text_lt(k, es[0].0@) {
        0
    } else {
        insert_position(es.drop_first(), k) + 1
    }
}

/// The entries after `k` is set to `v`: the first entry with key `k` is
/// replaced, or a new entry goes in at the key's [`insert_position`].
pub open spec fn entries_insert(es: Seq<(String, JsonValue)>, k: String, v: JsonValue) -> Seq<(String, JsonValue)> {
    let i = key_index(es, k@);
    if i >= 0 {
        es.update(i, (k, v))
    } else {
        es.insert(insert_position(es, k@), (k, v))
    }
}

/// The entries after `k` is set to `v` unless some entry has that key; a
/// new entry goes in at the key's [`insert_position`].
pub open spec fn entries_insert_absent(es: Seq<(String, JsonValue)>, k: String, v: JsonValue) -> Seq<(String, JsonValue)> {
    if has_key(es, k@) {
        es
    } else {
        es.insert(insert_position(es, k@), (k, v))
    }
}

proof fn lemma_insert_position_at(es: Seq<(String, JsonValue)>, k: Seq<char>, p: int)
    requires
        0 <= p <= es.len(),
        forall|j: int| 0 <= j < p ==> !text_lt(k, #[trigger] es[j].0@),
        p == es.len() || text_lt(k, es[p].0@),
    ensures
        insert_position(es, k) == p,
    decreases p,
{
    if p > 0 {
        let t = es.drop_first();
        assert forall|j: int| 0 <= j < p - 1 implies !text_lt(k, #[trigger] t[j].0@) by {
            assert(t[j] == es[j + 1]);
        }
        if p < es.len() {
            assert(t[p - 1] == es[p]);
        }
        assert(!text_lt(k, es[0].0@));
        lemma_insert_position_at(t, k, p - 1);
    }
}

/// Position at which a new key `k` goes among the entries.
pub fn find_insert_position(es: &Vec<(String, JsonValue)>, k: &String) -> (r: usize)
    ensures
        r == insert_position(es@, k@),
        r <= es@.len(),
{
    let kc = chars_of(k.as_str());
    let n = es.len();
    let mut i: usize = 0;
    while i < n
        invariant
            0 <= i <= n,
            n == es@.len(),
            kc@ == k@,
            forall|j: int| 0 <= j < i ==> !text_lt(k@, #[trigger] es@[j].0@),
        decreases n - i,
    {
        let ec = chars_of(es[i].0.as_str());
        match text_order(&kc, &ec) {
            TextOrder::Before => {
                proof {
                    lemma_insert_position_at(es@, k@, i as int);
                }
                return i;
            },
            _ => {},
        }
        i = i + 1;
    }
    proof {
        lemma_insert_position_at(es@, k@, n as int);
    }
    n
}

proof fn lemma_key_index_found(es: Seq<(String, JsonValue)>, k: Seq<char>, i: int)
    requires
        0 <= i < es.len(),
        es[i].0@ == k,
        forall|j: int| 0 <= j < i ==> #[trigger] es[j].0@ != k,
    ensures
        key_index(es, k) == i,
    decreases i,
{
    if i > 0 {
        let t = es.drop_first();
        assert forall|j: int| 0 <= j < i - 1 implies #[trigger] t[j].0@ != k by {
            assert(t[j] == es[j + 1]);
        }
        lemma_key_index_found(t, k, i - 1);
    }
}

proof fn lemma_key_index_absent(es: Seq<(String, JsonValue)>, k: Seq<char>)
    requires
        forall|j: int| 0 <= j < es.len() ==> #[trigger] es[j].0@ != k,
    ensures
        key_index(es, k) == -1,
    decreases es.len(),
{
    if es.len() > 0 {
        let t = es.drop_first();
        assert forall|j: int| 0 <= j < t.len() implies #[trigger] t[j].0@ != k by {
            assert(t[j] == es[j + 1]);
        }
        lemma_key_index_absent(t, k);
    }
}

/// The key index is -1 exactly when no entry has the key.
pub proof fn lemma_key_index_has_key(es: Seq<(String, JsonValue)>, k: Seq<char>)
    ensures
        (key_index(es, k) >= 0) == has_key(es, k),
        key_index(es, k) >= 0 ==> key_index(es, k) < es.len() && es[key_index(es, k)].0@ == k,
    decreases es.len(),
{
    if es.len() > 0 {
        let t = es.drop_first();
        lemma_key_index_has_key(t, k);
        if es[0].0@ != k && has_key(es, k) {
            let i = choose|i: int| 0 <= i < es.len() && #[trigger] es[i].0@ == k;
            assert(t[i - 1] == es[i]);
        }
        if has_key(t, k) {
            let i = choose|i: int| 0 <= i < t.len() && #[trigger] t[i].0@ == k;
            assert(t[i] == es[i + 1]);
        }
    }
}

/// Position of the first entry with key `k`.
pub fn find_key(es: &Vec<(String, JsonValue)>, k: &String) -> (r: Option<usize>)
    ensures
        r matches Some(i) ==> i == key_index(es@, k@) && i < es@.len() && es@[i as int].0@ == k@,
        r is None <==> key_index(es@, k@) == -1,
        r is None <==> !has_key(es@, k@),
{
    let n = es.len();
    let mut i: usize = 0;
    while i < n
        invariant
            0 <= i <= n,
            n == es@.len(),
            forall|j: int| 0 <= j < i ==> #[trigger] es@[j].0@ != k@,
        decreases n - i,
    {
        if crate::text::text_eq(&es[i].0, k) {
            proof {
                lemma_key_index_found(es@, k@, i as int);
                lemma_key_index_has_key(es@, k@);
            }
            return Some(i);
        }
        i = i + 1;
    }
    proof {
        lemma_key_index_absent(es@, k@);
        lemma_key_index_has_key(es@, k@);
    }
    None
}

/// Sets key `k` to `v`, replacing the value of the first entry that has the
/// key, or inserting a new entry at the key's position.
pub fn object_insert(es: &mut Vec<(String, JsonValue)>, k: String, v: JsonValue)
    ensures
        final(es)@ == entries_insert(old(es)@, k, v),
{
    match find_key(es, &k) {
        Some(i) => {
            es.set(i, (k, v));
        },
        None => {
            let p = find_insert_position(es, &k);
            es.insert(p, (k, v));
        },
    }
}

/// Sets key `k` to `v` unless an entry already has the key; a new entry goes
/// in at the key's position.
pub fn object_insert_absent(es: &mut Vec<(String, JsonValue)>, k: String, v: JsonValue)
    ensures
        final(es)@ == entries_insert_absent(old(es)@, k, v),
{
    match find_key(es, &k) {
        Some(_) => {},
        None => {
            let p = find_insert_position(es, &k);
            es.insert(p, (k, v));
        },
    }
}

proof fn lemma_array_item_decreases(x: JsonValue, i: int)
    requires
        x is Array,
        0 <= i < x->Array_0@.len(),
    ensures
        decreases_to!(x => x->Array_0@[i]),
{
    let v = x->Array_0;
    assert(decreases_to!(x => v));
    assert(decreases_to!(v => v@));
    assert(decreases_to!(v@ => v@[i]));
}

proof fn lemma_object_item_decreases(x: JsonValue, i: int)
    requires
        x is Object,
        0 <= i < x->Object_0@.len(),
    ensures
        decreases_to!(x => x->Object_0@[i].1),
{
    let v = x->Object_0;
    assert(decreases_to!(x => v));
    assert(decreases_to!(v => v@));
    assert(decreases_to!(v@ => v@[i]));
    assert(decreases_to!(v@[i] => v@[i].1));
}

impl JsonValue {
    /// A copy of the value with the same model.
    pub fn deep_clone(&self) -> (r: JsonValue)
        ensures
            r@ == self@,
        decreases self,
    {
        match self {
            JsonValue::Null => JsonValue::Null,
            JsonValue::Bool(b) => JsonValue::Bool(*b),
            JsonValue::Number(n) => JsonValue::Number(*n),
            JsonValue::String(s) => JsonValue::String(s.clone()),
            JsonValue::Array(v) => {
                let mut out: Vec<JsonValue> = Vec::new();
                let n = v.len();
                for i in 0..n
                    invariant
                        n == v@.len(),
                        *self == JsonValue::Array(*v),
                        out@.len() == i,
                        forall|j: int| 0 <= j < i ==> #[trigger] out@[j]@ == v@[j]@,
                {
                    proof {
                        lemma_array_item_decreases(*self, i as int);
                    }
                    out.push(v[i].deep_clone());
                }
                let r = JsonValue::Array(out);
                proof {
                    assert forall|j: int| 0 <= j < n implies r@->Array_0[j] == self@->Array_0[j] by {
                        assert(out@[j]@ == v@[j]@);
                    }
                    assert(r@->Array_0 =~= self@->Array_0);
                }
                r
            },
            JsonValue::Object(v) => {
                let mut out: Vec<(String, JsonValue)> = Vec::new();
                let n = v.len();
                for i in 0..n
                    invariant
                        n == v@.len(),
                        *self == JsonValue::Object(*v),
                        out@.len() == i,
                        forall|j: int| 0 <= j < i ==> (#[trigger] out@[j]).0@ == v@[j].0@ && out@[j].1@ == v@[j].1@,
                {
                    proof {
                        lemma_object_item_decreases(*self, i as int);
                    }
                    let k = v[i].0.clone();
                    let x = v[i].1.deep_clone();
                    out.push((k, x));
                }
                let r = JsonValue::Object(out);
                proof {
                    assert(r@->Object_0 =~= self@->Object_0);
                }
                r
            },
        }
    }
}

impl Clone for JsonValue {
    fn clone(&self) -> (r: Self)
        ensures
            r@ == self@,
    {
        self.deep_clone()
    }
}


/// The model of a sequence of object entries.
pub open spec fn entries_view(es: Seq<(String, JsonValue)>) -> Seq<(Seq<char>, JsonView)> {
    Seq::new(es.len(), |i: int| if 0 <= i < es.len() { (es[i].0@, es[i].1@) } else { (Seq::empty(), JsonView::Null) })
}

/// Some entry of a modelled object has key `k`.
pub open spec fn view_has_key(es: Seq<(Seq<char>, JsonView)>, k: Seq<char>) -> bool {
    exists|i: int| 0 <= i < es.len() && #[trigger] es[i].0 == k
}

/// The model of an object value is the model of its entries.
pub proof fn lemma_object_view(v: Vec<(String, JsonValue)>)
    ensures
        JsonValue::Object(v)@ == JsonView::Object(entries_view(v@)),
{
    assert(JsonValue::Object(v)@->Object_0 =~= entries_view(v@));
}

/// Appending an entry appends its model.
pub proof fn lemma_entries_view_push(es: Seq<(String, JsonValue)>, e: (String, JsonValue))
    ensures
        entries_view(es.push(e)) == entries_view(es).push((e.0@, e.1@)),
{
    assert(entries_view(es.push(e)) =~= entries_view(es).push((e.0@, e.1@)));
}

/// A key is present exactly when it is present in the model.
pub proof fn lemma_entries_view_has_key(es: Seq<(String, JsonValue)>, k: Seq<char>)
    ensures
        has_key(es, k) == view_has_key(entries_view(es), k),
{
    if has_key(es, k) {
        let i = choose|i: int| 0 <= i < es.len() && #[trigger] es[i].0@ == k;
        assert(entries_view(es)[i].0 == k);
    }
    if view_has_key(entries_view(es), k) {
        let i = choose|i: int| 0 <= i < entries_view(es).len() && #[trigger] entries_view(es)[i].0 == k;
        assert(es[i].0@ == k);
    }
}

/// Replacing an entry replaces its model.
pub proof fn lemma_entries_view_update(es: Seq<(String, JsonValue)>, i: int, e: (String, JsonValue))
    requires
        0 <= i < es.len(),
    ensures
        entries_view(es.update(i, e)) == entries_view(es).update(i, (e.0@, e.1@)),
{
    assert(entries_view(es.update(i, e)) =~= entries_view(es).update(i, (e.0@, e.1@)));
}

/// The JSON number that an `i64` serializes to.
pub open spec fn int_number(n: i64) -> JsonNumber {
    if n < 0 {
        JsonNumber::NegInt(n)
    } else {
        JsonNumber::PosInt(n as u64)
    }
}

/// The JSON number of an `i64`, as `serde_json` represents it.
pub fn number_from_i64(n: i64) -> (r: JsonNumber)
    ensures
        r == int_number(n),
{
    if n < 0 {
        JsonNumber::NegInt(n)
    } else {
        JsonNumber::PosInt(n as u64)
    }
}


/// Index of the first modelled entry whose key is `k`, or -1.
pub open spec fn view_key_index(es: Seq<(Seq<char>, JsonView)>, k: Seq<char>) -> int
    decreases es.len(),
{
    if es.len() == 0 {
        -1
    } else if es[0].0 == k {
        0
    } else {
        let r = view_key_index(es.drop_first(), k);
        if r < 0 {
            -1
        } else {
            r + 1
        }
    }
}

/// Where a new key `k` goes in a modelled object: before the first entry
/// whose key comes after `k`, or at the end.
pub open spec fn view_insert_position(es: Seq<(Seq<char>, JsonView)>, k: Seq<char>) -> int
    decreases es.len(),
{
    if es.len() == 0 {
        0
    } else if text_lt(k, es[0].0) {
        0
    } else {
        view_insert_position(es.drop_first(), k) + 1
    }
}

/// A modelled object after `k` is set to `v`: the first entry with key `k`
/// is replaced, or a new entry goes in at the key's position.
pub open spec fn view_insert(es: Seq<(Seq<char>, JsonView)>, k: Seq<char>, v: JsonView) -> Seq<(Seq<char>, JsonView)> {
    let i = view_key_index(es, k);
    if i >= 0 {
        es.update(i, (k, v))
    } else {
        es.insert(view_insert_position(es, k), (k, v))
    }
}

/// A modelled object after `k` is set to `v` unless it has the key.
pub open spec fn view_insert_absent(es: Seq<(Seq<char>, JsonView)>, k: Seq<char>, v: JsonView) -> Seq<(Seq<char>, JsonView)> {
    if view_has_key(es, k) {
        es
    } else {
        es.insert(view_insert_position(es, k), (k, v))
    }
}

/// The insert position of entries is that of their model.
pub proof fn lemma_entries_view_insert_position(es: Seq<(String, JsonValue)>, k: Seq<char>)
    ensures
        insert_position(es, k) == view_insert_position(entries_view(es), k),
        0 <= insert_position(es, k) <= es.len(),
    decreases es.len(),
{
    if es.len() > 0 {
        assert(entries_view(es.drop_first()) =~= entries_view(es).drop_first());
        lemma_entries_view_insert_position(es.drop_first(), k);
    }
}

/// Inserting an entry inserts its model.
pub proof fn lemma_entries_view_insert_at(es: Seq<(String, JsonValue)>, p: int, e: (String, JsonValue))
    requires
        0 <= p <= es.len(),
    ensures
        entries_view(es.insert(p, e)) == entries_view(es).insert(p, (e.0@, e.1@)),
{
    assert(entries_view(es.insert(p, e)) =~= entries_view(es).insert(p, (e.0@, e.1@)));
}

/// Setting an absent key in the entries sets it in their model.
pub proof fn lemma_entries_view_insert_absent(es: Seq<(String, JsonValue)>, k: String, v: JsonValue)
    ensures
        entries_view(entries_insert_absent(es, k, v)) == view_insert_absent(entries_view(es), k@, v@),
{
    lemma_entries_view_has_key(es, k@);
    lemma_entries_view_insert_position(es, k@);
    if !has_key(es, k@) {
        lemma_entries_view_insert_at(es, insert_position(es, k@), (k, v));
    }
}

/// The key index of entries is the key index of their model.
pub proof fn lemma_entries_view_key_index(es: Seq<(String, JsonValue)>, k: Seq<char>)
    ensures
        key_index(es, k) == view_key_index(entries_view(es), k),
    decreases es.len(),
{
    if es.len() > 0 {
        assert(entries_view(es.drop_first()) =~= entries_view(es).drop_first());
        lemma_entries_view_key_index(es.drop_first(), k);
    }
}

/// Setting a key in the entries sets it in their model.
pub proof fn lemma_entries_view_insert(es: Seq<(String, JsonValue)>, k: String, v: JsonValue)
    ensures
        entries_view(entries_insert(es, k, v)) == view_insert(entries_view(es), k@, v@),
{
    lemma_entries_view_key_index(es, k@);
    lemma_key_index_has_key(es, k@);
    let i = key_index(es, k@);
    if i >= 0 {
        lemma_entries_view_update(es, i, (k, v));
    } else {
        lemma_entries_view_insert_position(es, k@);
        lemma_entries_view_insert_at(es, insert_position(es, k@), (k, v));
    }
}

/// The key index is the first position holding the key, or -1 when none does.
pub proof fn lemma_view_key_index(es: Seq<(Seq<char>, JsonView)>, k: Seq<char>)
    ensures
        -1 <= view_key_index(es, k) < es.len(),
        view_key_index(es, k) >= 0 ==> es[view_key_index(es, k)].0 == k,
        forall|j: int| 0 <= j < es.len() && (view_key_index(es, k) < 0 || j < view_key_index(es, k))
            ==> #[trigger] es[j].0 != k,
    decreases es.len(),
{
    if es.len() > 0 {
        let t = es.drop_first();
        lemma_view_key_index(t, k);
        assert forall|j: int| 0 <= j < es.len() && (view_key_index(es, k) < 0 || j < view_key_index(es, k))
            implies #[trigger] es[j].0 != k by {
            if j > 0 {
                assert(es[j] == t[j - 1]);
            }
        }
    }
}

proof fn lemma_view_key_index_at(es: Seq<(Seq<char>, JsonView)>, k: Seq<char>, i: int)
    requires
        0 <= i < es.len(),
        es[i].0 == k,
        forall|j: int| 0 <= j < i ==> #[trigger] es[j].0 != k,
    ensures
        view_key_index(es, k) == i,
{
    lemma_view_key_index(es, k);
    let r = view_key_index(es, k);
    if r < 0 || r > i {
        assert(es[i].0 != k);
    } else if r < i {
        assert(es[r].0 != k);
    }
}

proof fn lemma_view_insert_position_bounds(es: Seq<(Seq<char>, JsonView)>, k: Seq<char>)
    ensures
        0 <= view_insert_position(es, k) <= es.len(),
    decreases es.len(),
{
    if es.len() > 0 {
        lemma_view_insert_position_bounds(es.drop_first(), k);
    }
}

/// After a key is set, the entry holding it comes first among those with
/// that key, and no earlier entry has the key.
proof fn lemma_view_insert_located(es: Seq<(Seq<char>, JsonView)>, k: Seq<char>, v: JsonView)
    ensures
        ({
            let es1 = view_insert(es, k, v);
            let i = view_key_index(es1, k);
            i >= 0 && es1[i] == (k, v) && (view_key_index(es, k) >= 0 ==> i == view_key_index(es, k))
        }),
{
    lemma_view_key_index(es, k);
    let i = view_key_index(es, k);
    let es1 = view_insert(es, k, v);
    if i >= 0 {
        assert forall|j: int| 0 <= j < i implies #[trigger] es1[j].0 != k by {
            assert(es1[j] == es[j]);
            assert(es[j].0 != k);
        }
        lemma_view_key_index_at(es1, k, i);
    } else {
        lemma_view_insert_position_bounds(es, k);
        let p = view_insert_position(es, k);
        assert forall|j: int| 0 <= j < p implies #[trigger] es1[j].0 != k by {
            assert(es1[j] == es[j]);
            assert(es[j].0 != k);
        }
        assert(es1[p] == (k, v));
        lemma_view_key_index_at(es1, k, p);
    }
}

/// Setting a key twice to the same value is the same as setting it once.
pub proof fn lemma_view_insert_idempotent(es: Seq<(Seq<char>, JsonView)>, k: Seq<char>, v: JsonView)
    ensures
        view_insert(view_insert(es, k, v), k, v) == view_insert(es, k, v),
{
    lemma_view_insert_located(es, k, v);
    let es1 = view_insert(es, k, v);
    lemma_view_key_index(es1, k);
    let i = view_key_index(es1, k);
    assert(es1.update(i, (k, v)) =~= es1);
}

/// After a key is set, looking it up finds the value it was set to.
pub proof fn lemma_view_insert_finds(es: Seq<(Seq<char>, JsonView)>, k: Seq<char>, v: JsonView)
    ensures
        view_key_index(view_insert(es, k, v), k) >= 0,
        view_insert(es, k, v)[view_key_index(view_insert(es, k, v), k)] == (k, v),
{
    lemma_view_insert_located(es, k, v);
}

/// Setting a key keeps every entry that has another key, and setting an
/// absent key keeps every entry.
pub proof fn lemma_view_insert_keeps_others(es: Seq<(Seq<char>, JsonView)>, k: Seq<char>, v: JsonView)
    ensures
        forall|j: int| 0 <= j < es.len() && es[j].0 != k ==> view_insert(es, k, v).contains(#[trigger] es[j]),
        forall|j: int| 0 <= j < es.len() ==> view_insert_absent(es, k, v).contains(#[trigger] es[j]),
        view_has_key(view_insert_absent(es, k, v), k),
{
    lemma_view_key_index(es, k);
    lemma_view_insert_position_bounds(es, k);
    let i = view_key_index(es, k);
    let p = view_insert_position(es, k);
    let es1 = view_insert(es, k, v);
    let es2 = view_insert_absent(es, k, v);
    assert forall|j: int| 0 <= j < es.len() && es[j].0 != k implies es1.contains(#[trigger] es[j]) by {
        if i >= 0 {
            assert(es1[j] == es[j]);
        } else if j < p {
            assert(es1[j] == es[j]);
        } else {
            assert(es1[j + 1] == es[j]);
        }
    }
    assert forall|j: int| 0 <= j < es.len() implies es2.contains(#[trigger] es[j]) by {
        if view_has_key(es, k) {
            assert(es2[j] == es[j]);
        } else if j < p {
            assert(es2[j] == es[j]);
        } else {
            assert(es2[j + 1] == es[j]);
        }
    }
    if !view_has_key(es, k) {
        assert(es2[p].0 == k);
    }
}

/// No two entries of a modelled object share a key.
pub open spec fn unique_keys(es: Seq<(Seq<char>, JsonView)>) -> bool {
    forall|i: int, j: int| 0 <= i < j < es.len() ==> #[trigger] es[i].0 != #[trigger] es[j].0
}

/// Setting a key, whether or not it was present, keeps keys unique.
pub proof fn lemma_view_insert_unique(es: Seq<(Seq<char>, JsonView)>, k: Seq<char>, v: JsonView)
    requires
        unique_keys(es),
    ensures
        unique_keys(view_insert(es, k, v)),
        unique_keys(view_insert_absent(es, k, v)),
{
    lemma_view_key_index(es, k);
    lemma_view_insert_position_bounds(es, k);
    let i = view_key_index(es, k);
    let p = view_insert_position(es, k);
    let es1 = view_insert(es, k, v);
    if i >= 0 {
        assert forall|a: int, b: int| 0 <= a < b < es1.len() implies #[trigger] es1[a].0 != #[trigger] es1[b].0 by {
            assert(es[a].0 != es[b].0);
            if a == i {
                assert(es1[a].0 == es[a].0);
            }
            if b == i {
                assert(es1[b].0 == es[b].0);
            }
        }
    } else {
        assert forall|a: int, b: int| 0 <= a < b < es1.len() implies #[trigger] es1[a].0 != #[trigger] es1[b].0 by {
            let a0 = if a < p { a } else { a - 1 };
            let b0 = if b < p { b } else { b - 1 };
            if a == p {
                assert(es1[b] == es[b0]);
                assert(es[b0].0 != k);
            } else if b == p {
                assert(es1[a] == es[a0]);
                assert(es[a0].0 != k);
            } else {
                assert(es1[a] == es[a0]);
                assert(es1[b] == es[b0]);
                assert(es[a0].0 != es[b0].0);
            }
        }
    }
    if !view_has_key(es, k) {
        assert forall|j: int| 0 <= j < es.len() implies #[trigger] es[j].0 != k by {
            if es[j].0 == k {
                assert(view_has_key(es, k));
            }
        }
        assert(i < 0);
        assert(view_insert_absent(es, k, v) == es1);
    }
}

} // verus!
