//! Dynamic values: null, booleans, integers, floating-point numbers, strings,
//! arrays and objects.
//!
//! A floating-point number is held as the 64 bits of its IEEE 754 double. The
//! library compares such numbers and tests them for zero on the bits; it asks
//! its caller for their arithmetic and their text.
//! An object holds its entries ordered by key, each key once.

use vstd::prelude::*;
use crate::text::{same_bytes, is_ascii_digit};

verus! {

#[derive(Debug, PartialEq)]
pub enum PomlValue {
    Null,
    Bool(bool),
    Int(i64),
    /// The bits of a double.
    Float(u64),
    String(Vec<u8>),
    Array(Vec<PomlValue>),
    Object(Vec<(Vec<u8>, PomlValue)>),
}

/// The mathematical value of a `PomlValue`.
pub ghost enum ValueView {
    Null,
    Bool(bool),
    Int(i64),
    Float(u64),
    String(Seq<u8>),
    Array(Seq<ValueView>),
    Object(Seq<(Seq<u8>, ValueView)>),
}

/// Named values: the entries of an object or of a scope.
pub type Entries = Seq<(Seq<u8>, ValueView)>;

pub open spec fn value_view(v: &PomlValue) -> ValueView
    decreases v,
{
    match v {
        PomlValue::Null => ValueView::Null,
        PomlValue::Bool(b) => ValueView::Bool(*b),
        PomlValue::Int(i) => ValueView::Int(*i),
        PomlValue::Float(f) => ValueView::Float(*f),
        PomlValue::String(s) => ValueView::String(s@),
        PomlValue::Array(a) => ValueView::Array(
            Seq::new(
                a.len() as nat,
                |i: int|
                    if 0 <= i < a.len() {
                        value_view(&a[i])
                    } else {
                        ValueView::Null
                    },
            ),
        ),
        PomlValue::Object(o) => ValueView::Object(
            Seq::new(
                o.len() as nat,
                |i: int|
                    if 0 <= i < o.len() {
                        (o[i].0@, value_view(&o[i].1))
                    } else {
                        (Seq::empty(), ValueView::Null)
                    },
            ),
        ),
    }
}

impl View for PomlValue {
    type V = ValueView;

    open spec fn view(&self) -> ValueView {
        value_view(self)
    }
}

/// The values of a list of values.
pub open spec fn values_view(values: Seq<PomlValue>) -> Seq<ValueView> {
    Seq::new(values.len(), |i: int| values[i]@)
}

/// The values of a list of entries.
pub open spec fn entries_view(entries: Seq<(Vec<u8>, PomlValue)>) -> Entries {
    Seq::new(entries.len(), |i: int| (entries[i].0@, entries[i].1@))
}

pub proof fn lemma_array_view(a: Vec<PomlValue>)
    ensures
        PomlValue::Array(a)@ == ValueView::Array(values_view(a@)),
{
    assert(PomlValue::Array(a)@->Array_0 =~= values_view(a@));
}

pub proof fn lemma_object_view(o: Vec<(Vec<u8>, PomlValue)>)
    ensures
        PomlValue::Object(o)@ == ValueView::Object(entries_view(o@)),
{
    assert(PomlValue::Object(o)@->Object_0 =~= entries_view(o@));
}

// ---------------------------------------------------------------------------
// Floating-point numbers on their bits
// ---------------------------------------------------------------------------

/// The bits of a double without its sign.
pub open spec fn float_magnitude(bits: u64) -> u64 {
    bits & 0x7fff_ffff_ffff_ffff
}

/// Whether the sign bit of a double is set.
pub open spec fn float_negative(bits: u64) -> bool {
    bits & 0x8000_0000_0000_0000 != 0
}

/// Not a number: every exponent bit set and a fraction that is not zero.
pub open spec fn float_is_nan(bits: u64) -> bool {
    float_magnitude(bits) > 0x7ff0_0000_0000_0000
}

/// Neither infinite nor not a number: some exponent bit is clear.
pub open spec fn float_is_finite(bits: u64) -> bool {
    float_magnitude(bits) < 0x7ff0_0000_0000_0000
}

/// Positive or negative zero.
pub open spec fn float_is_zero(bits: u64) -> bool {
    float_magnitude(bits) == 0
}

/// The place of a double that is a number in the order of all such doubles:
/// its magnitude bits, negated under a set sign. Both zeros have place 0.
pub open spec fn float_rank(bits: u64) -> int {
    if float_negative(bits) {
        -(float_magnitude(bits) as int)
    } else {
        float_magnitude(bits) as int
    }
}

/// `a < b` on doubles: false where either is not a number.
pub open spec fn float_less(a: u64, b: u64) -> bool {
    !float_is_nan(a) && !float_is_nan(b) && float_rank(a) < float_rank(b)
}

/// `a == b` on doubles: false where either is not a number; the two zeros
/// are equal.
pub open spec fn float_same(a: u64, b: u64) -> bool {
    !float_is_nan(a) && !float_is_nan(b) && float_rank(a) == float_rank(b)
}

/// The bits of 1.0.
pub const FLOAT_ONE: u64 = 0x3ff0_0000_0000_0000;

/// The bits of 0.0.
pub const FLOAT_ZERO: u64 = 0;

pub fn is_finite_float(bits: u64) -> (r: bool)
    ensures
        r == float_is_finite(bits),
{
    (bits & 0x7fff_ffff_ffff_ffff) < 0x7ff0_0000_0000_0000
}

pub fn is_zero_float(bits: u64) -> (r: bool)
    ensures
        r == float_is_zero(bits),
{
    (bits & 0x7fff_ffff_ffff_ffff) == 0
}

pub fn less_float(a: u64, b: u64) -> (r: bool)
    ensures
        r == float_less(a, b),
{
    let ma = a & 0x7fff_ffff_ffff_ffff;
    let mb = b & 0x7fff_ffff_ffff_ffff;
    if ma > 0x7ff0_0000_0000_0000 || mb > 0x7ff0_0000_0000_0000 {
        return false;
    }
    let na = a & 0x8000_0000_0000_0000 != 0;
    let nb = b & 0x8000_0000_0000_0000 != 0;
    if na && nb {
        ma > mb
    } else if na {
        ma != 0 || mb != 0
    } else if nb {
        false
    } else {
        ma < mb
    }
}

pub fn same_float(a: u64, b: u64) -> (r: bool)
    ensures
        r == float_same(a, b),
{
    let ma = a & 0x7fff_ffff_ffff_ffff;
    let mb = b & 0x7fff_ffff_ffff_ffff;
    if ma > 0x7ff0_0000_0000_0000 || mb > 0x7ff0_0000_0000_0000 {
        return false;
    }
    let na = a & 0x8000_0000_0000_0000 != 0;
    let nb = b & 0x8000_0000_0000_0000 != 0;
    if na == nb {
        ma == mb
    } else {
        ma == 0 && mb == 0
    }
}

// ---------------------------------------------------------------------------
// Equality
// ---------------------------------------------------------------------------

/// Structural equality of two values. Floating-point numbers are equal as
/// numbers where `numeric` is set (the two zeros are equal), and as bits where
/// it is not.
pub open spec fn value_matches(a: ValueView, b: ValueView, numeric: bool) -> bool
    decreases a,
{
    match (a, b) {
        (ValueView::Null, ValueView::Null) => true,
        (ValueView::Bool(x), ValueView::Bool(y)) => x == y,
        (ValueView::Int(x), ValueView::Int(y)) => x == y,
        (ValueView::Float(x), ValueView::Float(y)) => if numeric {
            float_same(x, y)
        } else {
            x == y
        },
        (ValueView::String(x), ValueView::String(y)) => x == y,
        (ValueView::Array(x), ValueView::Array(y)) => x.len() == y.len() && forall|i: int|
            0 <= i < x.len() ==> value_matches(#[trigger] x[i], y[i], numeric),
        (ValueView::Object(x), ValueView::Object(y)) => x.len() == y.len() && forall|i: int|
            0 <= i < x.len() ==> (#[trigger] x[i]).0 == y[i].0 && value_matches(
                x[i].1,
                y[i].1,
                numeric,
            ),
        _ => false,
    }
}

/// Whether two values are equal; see `value_matches`.
pub fn values_match(a: &PomlValue, b: &PomlValue, numeric: bool) -> (r: bool)
    ensures
        r == value_matches(a@, b@, numeric),
    decreases a,
{
    match (a, b) {
        (PomlValue::Null, PomlValue::Null) => true,
        (PomlValue::Bool(x), PomlValue::Bool(y)) => *x == *y,
        (PomlValue::Int(x), PomlValue::Int(y)) => *x == *y,
        (PomlValue::Float(x), PomlValue::Float(y)) => if numeric {
            same_float(*x, *y)
        } else {
            *x == *y
        },
        (PomlValue::String(x), PomlValue::String(y)) => same_bytes(x.as_slice(), y.as_slice()),
        (PomlValue::Array(x), PomlValue::Array(y)) => {
            if x.len() != y.len() {
                return false;
            }
            let mut i: usize = 0;
            while i < x.len()
                invariant
                    i <= x.len(),
                    x.len() == y.len(),
                    a == PomlValue::Array(*x),
                    b == PomlValue::Array(*y),
                    forall|k: int|
                        0 <= k < i ==> value_matches(
                            #[trigger] a@->Array_0[k],
                            b@->Array_0[k],
                            numeric,
                        ),
                decreases x.len() - i,
            {
                if !values_match(&x[i], &y[i], numeric) {
                    assert(!value_matches(a@->Array_0[i as int], b@->Array_0[i as int], numeric));
                    return false;
                }
                i = i + 1;
            }
            true
        },
        (PomlValue::Object(x), PomlValue::Object(y)) => {
            if x.len() != y.len() {
                return false;
            }
            let mut i: usize = 0;
            while i < x.len()
                invariant
                    i <= x.len(),
                    x.len() == y.len(),
                    a == PomlValue::Object(*x),
                    b == PomlValue::Object(*y),
                    forall|k: int|
                        0 <= k < i ==> (#[trigger] a@->Object_0[k]).0 == b@->Object_0[k].0
                            && value_matches(a@->Object_0[k].1, b@->Object_0[k].1, numeric),
                decreases x.len() - i,
            {
                if !same_bytes(x[i].0.as_slice(), y[i].0.as_slice()) {
                    assert(a@->Object_0[i as int].0 != b@->Object_0[i as int].0);
                    return false;
                }
                if !values_match(&x[i].1, &y[i].1, numeric) {
                    assert(!value_matches(
                        a@->Object_0[i as int].1,
                        b@->Object_0[i as int].1,
                        numeric,
                    ));
                    return false;
                }
                i = i + 1;
            }
            true
        },
        _ => false,
    }
}

/// A copy of a byte string.
pub fn clone_bytes(b: &Vec<u8>) -> (r: Vec<u8>)
    ensures
        r@ == b@,
{
    let mut out: Vec<u8> = Vec::new();
    let mut i: usize = 0;
    while i < b.len()
        invariant
            i <= b.len(),
            out@ == b@.subrange(0, i as int),
        decreases b.len() - i,
    {
        out.push(b[i]);
        proof {
            assert(out@ =~= b@.subrange(0, i as int + 1));
        }
        i = i + 1;
    }
    proof {
        assert(b@.subrange(0, b.len() as int) =~= b@);
    }
    out
}

/// A deep copy of a value.
pub fn clone_value(v: &PomlValue) -> (r: PomlValue)
    ensures
        r@ == v@,
    decreases v,
{
    match v {
        PomlValue::Null => PomlValue::Null,
        PomlValue::Bool(b) => PomlValue::Bool(*b),
        PomlValue::Int(i) => PomlValue::Int(*i),
        PomlValue::Float(f) => PomlValue::Float(*f),
        PomlValue::String(s) => PomlValue::String(clone_bytes(s)),
        PomlValue::Array(a) => {
            let mut out: Vec<PomlValue> = Vec::new();
            let mut i: usize = 0;
            while i < a.len()
                invariant
                    i <= a.len(),
                    v is Array && v->Array_0 == *a,
                    out@.len() == i,
                    forall|k: int| 0 <= k < i ==> (#[trigger] out@[k])@ == a@[k]@,
                decreases a.len() - i,
            {
                let item = clone_value(&a[i]);
                out.push(item);
                i = i + 1;
            }
            proof {
                assert(values_view(out@) =~= values_view(a@));
                lemma_array_view(out);
                lemma_array_view(*a);
            }
            PomlValue::Array(out)
        },
        PomlValue::Object(o) => {
            let mut out: Vec<(Vec<u8>, PomlValue)> = Vec::new();
            let mut i: usize = 0;
            while i < o.len()
                invariant
                    i <= o.len(),
                    v is Object && v->Object_0 == *o,
                    out@.len() == i,
                    forall|k: int|
                        0 <= k < i ==> (#[trigger] out@[k]).0@ == o@[k].0@ && out@[k].1@
                            == o@[k].1@,
                decreases o.len() - i,
            {
                let key = clone_bytes(&o[i].0);
                let item = clone_value(&o[i].1);
                out.push((key, item));
                i = i + 1;
            }
            proof {
                assert(entries_view(out@) =~= entries_view(o@));
                lemma_object_view(out);
                lemma_object_view(*o);
            }
            PomlValue::Object(out)
        },
    }
}

impl Clone for PomlValue {
    fn clone(&self) -> (r: Self)
        ensures
            r@ == self@,
    {
        clone_value(self)
    }
}

// ---------------------------------------------------------------------------
// Named values
// ---------------------------------------------------------------------------

/// Byte strings in lexicographic order: whether `a` comes before `b`.
pub open spec fn bytes_less(a: Seq<u8>, b: Seq<u8>) -> bool
    decreases a.len(),
{
    if b.len() == 0 {
        false
    } else if a.len() == 0 {
        true
    } else if a[0] != b[0] {
        a[0] < b[0]
    } else {
        bytes_less(a.drop_first(), b.drop_first())
    }
}

/// The index of the first entry with the given key, at or after `from`; the
/// number of entries where there is none.
pub open spec fn entry_index(entries: Entries, key: Seq<u8>, from: int) -> int
    decreases entries.len() - from,
{
    if !(0 <= from < entries.len()) {
        entries.len() as int
    } else if entries[from].0 == key {
        from
    } else {
        entry_index(entries, key, from + 1)
    }
}

/// The value of the first entry with the given key.
pub open spec fn lookup_entry(entries: Entries, key: Seq<u8>) -> Option<ValueView> {
    let i = entry_index(entries, key, 0);
    if i < entries.len() {
        Some(entries[i].1)
    } else {
        None
    }
}

/// The index of the first entry, at or after `from`, whose key does not come
/// before the given key; the number of entries where there is none.
pub open spec fn entry_slot(entries: Entries, key: Seq<u8>, from: int) -> int
    decreases entries.len() - from,
{
    if !(0 <= from < entries.len()) {
        entries.len() as int
    } else if !bytes_less(entries[from].0, key) {
        from
    } else {
        entry_slot(entries, key, from + 1)
    }
}

/// The entries with `key` bound to `value`: in place of the entry at the
/// key's slot where that entry has the key, and before it where it has not.
/// Entries that are ordered by key stay so, and hold the key once.
pub open spec fn insert_entry(entries: Entries, key: Seq<u8>, value: ValueView) -> Entries {
    let slot = entry_slot(entries, key, 0);
    if slot < entries.len() && entries[slot].0 == key {
        entries.update(slot, (key, value))
    } else {
        entries.insert(slot, (key, value))
    }
}

/// No byte string comes before itself.
pub proof fn lemma_bytes_less_irreflexive(a: Seq<u8>)
    ensures
        !bytes_less(a, a),
    decreases a.len(),
{
    if a.len() > 0 {
        lemma_bytes_less_irreflexive(a.drop_first());
    }
}

/// Of two byte strings that differ, one comes before the other.
pub proof fn lemma_bytes_less_total(a: Seq<u8>, b: Seq<u8>)
    ensures
        bytes_less(a, b) || bytes_less(b, a) || a == b,
        !(bytes_less(a, b) && bytes_less(b, a)),
    decreases a.len(),
{
    if a.len() == 0 || b.len() == 0 {
        if a.len() == 0 && b.len() == 0 {
            assert(a =~= b);
        }
    } else if a[0] == b[0] {
        lemma_bytes_less_total(a.drop_first(), b.drop_first());
        if a.drop_first() == b.drop_first() {
            assert(a.len() == b.len());
            assert forall|k: int| 0 <= k < a.len() implies a[k] == b[k] by {
                if k > 0 {
                    assert(a.drop_first()[k - 1] == a[k]);
                    assert(b.drop_first()[k - 1] == b[k]);
                }
            }
            assert(a =~= b);
        }
    }
}

/// The order of byte strings is transitive.
pub proof fn lemma_bytes_less_transitive(a: Seq<u8>, b: Seq<u8>, c: Seq<u8>)
    requires
        bytes_less(a, b),
        bytes_less(b, c),
    ensures
        bytes_less(a, c),
    decreases a.len(),
{
    if a.len() > 0 && b.len() > 0 && c.len() > 0 {
        if a[0] == b[0] && b[0] == c[0] {
            lemma_bytes_less_transitive(a.drop_first(), b.drop_first(), c.drop_first());
        }
    }
}

/// The keys of the entries increase strictly: the entries are ordered by
/// key, and no key occurs twice.
pub open spec fn entries_ordered(entries: Entries) -> bool {
    forall|i: int, j: int|
        0 <= i < j < entries.len() ==> bytes_less(
            (#[trigger] entries[i]).0,
            (#[trigger] entries[j]).0,
        )
}

/// Below its slot every key comes before the given key, and the key at the
/// slot does not.
pub proof fn lemma_entry_slot(entries: Entries, key: Seq<u8>, from: int)
    requires
        0 <= from <= entries.len(),
    ensures
        from <= entry_slot(entries, key, from) <= entries.len(),
        forall|k: int|
            from <= k < entry_slot(entries, key, from) ==> bytes_less(
                (#[trigger] entries[k]).0,
                key,
            ),
        entry_slot(entries, key, from) < entries.len() ==> !bytes_less(
            entries[entry_slot(entries, key, from)].0,
            key,
        ),
    decreases entries.len() - from,
{
    if from < entries.len() && bytes_less(entries[from].0, key) {
        lemma_entry_slot(entries, key, from + 1);
    }
}

/// A binding keeps ordered entries ordered, and the bound key then stands
/// for the bound value.
pub proof fn lemma_insert_keeps_order(entries: Entries, key: Seq<u8>, value: ValueView)
    requires
        entries_ordered(entries),
    ensures
        entries_ordered(insert_entry(entries, key, value)),
        lookup_entry(insert_entry(entries, key, value), key) == Some(value),
{
    let slot = entry_slot(entries, key, 0);
    let after = insert_entry(entries, key, value);
    lemma_entry_slot(entries, key, 0);
    let replaced = slot < entries.len() && entries[slot].0 == key;
    if !replaced && slot < entries.len() {
        lemma_bytes_less_total(entries[slot].0, key);
    }
    assert forall|i: int, j: int| 0 <= i < j < after.len() implies bytes_less(
        (#[trigger] after[i]).0,
        (#[trigger] after[j]).0,
    ) by {
        if replaced {
            assert(after[i].0 == entries[i].0);
            assert(after[j].0 == entries[j].0);
        } else {
            let before_i = if i < slot {
                i
            } else {
                i - 1
            };
            let before_j = if j < slot {
                j
            } else {
                j - 1
            };
            if i == slot {
                assert(after[j] == entries[j - 1]);
                if j - 1 > slot {
                    assert(bytes_less(entries[slot].0, entries[j - 1].0));
                    lemma_bytes_less_transitive(key, entries[slot].0, entries[j - 1].0);
                }
            } else if j == slot {
                assert(after[i] == entries[i]);
            } else {
                assert(after[i] == entries[before_i]);
                assert(after[j] == entries[before_j]);
            }
        }
    }
    assert(after[slot].0 == key);
    lemma_lookup_ordered(after, key, slot, 0);
}

/// In ordered entries a key is found where it stands.
pub proof fn lemma_lookup_ordered(entries: Entries, key: Seq<u8>, at: int, from: int)
    requires
        entries_ordered(entries),
        0 <= from <= at < entries.len(),
        entries[at].0 == key,
    ensures
        entry_index(entries, key, from) == at,
    decreases at - from,
{
    if from < at {
        assert(bytes_less(entries[from].0, entries[at].0));
        lemma_bytes_less_irreflexive(key);
        lemma_lookup_ordered(entries, key, at, from + 1);
    }
}

/// Whether `a` comes before `b` in lexicographic order.
pub fn less_bytes(a: &[u8], b: &[u8]) -> (r: bool)
    ensures
        r == bytes_less(a@, b@),
{
    let mut i: usize = 0;
    proof {
        assert(a@.skip(0) =~= a@);
        assert(b@.skip(0) =~= b@);
    }
    while i < a.len() && i < b.len() && a[i] == b[i]
        invariant
            i <= a.len(),
            i <= b.len(),
            bytes_less(a@, b@) == bytes_less(a@.skip(i as int), b@.skip(i as int)),
        decreases a.len() - i,
    {
        proof {
            assert(a@.skip(i as int).drop_first() =~= a@.skip(i as int + 1));
            assert(b@.skip(i as int).drop_first() =~= b@.skip(i as int + 1));
        }
        i = i + 1;
    }
    if i >= b.len() {
        false
    } else if i >= a.len() {
        true
    } else {
        a[i] < b[i]
    }
}

/// The first entry with the given key.
pub fn find_entry<'a>(entries: &'a Vec<(Vec<u8>, PomlValue)>, key: &[u8]) -> (r: Option<&'a PomlValue>)
    ensures
        match r {
            Some(v) => lookup_entry(entries_view(entries@), key@) == Some(v@),
            None => lookup_entry(entries_view(entries@), key@) is None,
        },
{
    let ghost model = entries_view(entries@);
    let mut i: usize = 0;
    while i < entries.len()
        invariant
            i <= entries.len(),
            model == entries_view(entries@),
            entry_index(model, key@, 0) == entry_index(model, key@, i as int),
        decreases entries.len() - i,
    {
        if same_bytes(entries[i].0.as_slice(), key) {
            return Some(&entries[i].1);
        }
        i = i + 1;
    }
    None
}

/// Binds `key` to `value`; see `insert_entry`.
pub fn put_entry(entries: &mut Vec<(Vec<u8>, PomlValue)>, key: Vec<u8>, value: PomlValue)
    ensures
        entries_view(final(entries)@) == insert_entry(entries_view(old(entries)@), key@, value@),
{
    let ghost model = entries_view(entries@);
    let mut i: usize = 0;
    while i < entries.len() && less_bytes(entries[i].0.as_slice(), key.as_slice())
        invariant
            i <= entries.len(),
            entries@ == old(entries)@,
            model == entries_view(entries@),
            entry_slot(model, key@, 0) == entry_slot(model, key@, i as int),
        decreases entries.len() - i,
    {
        i = i + 1;
    }
    if i < entries.len() && same_bytes(entries[i].0.as_slice(), key.as_slice()) {
        entries.set(i, (key, value));
        proof {
            assert(entries_view(entries@) =~= model.update(i as int, (key@, value@)));
        }
    } else {
        entries.insert(i, (key, value));
        proof {
            assert(entries_view(entries@) =~= model.insert(i as int, (key@, value@)));
        }
    }
}

// ---------------------------------------------------------------------------
// Integers from text
// ---------------------------------------------------------------------------

/// The number that a run of ASCII digits denotes; `None` where a byte is no
/// digit.
pub open spec fn digits_value(s: Seq<u8>) -> Option<nat>
    decreases s.len(),
{
    if s.len() == 0 {
        Some(0nat)
    } else if !is_ascii_digit(s.last()) {
        None
    } else {
        match digits_value(s.drop_last()) {
            None => None,
            Some(high) => Some((high * 10 + (s.last() - 48)) as nat),
        }
    }
}

/// The 64-bit integer that a text denotes: an optional `+` or `-`, then one
/// or more ASCII digits. `None` for any other text and for a number outside
/// the 64-bit range.
pub open spec fn parse_int(s: Seq<u8>) -> Option<i64> {
    if s.len() == 0 {
        None
    } else {
        let signed = s[0] == '-' as u8 || s[0] == '+' as u8;
        let digits = if signed {
            s.drop_first()
        } else {
            s
        };
        if digits.len() == 0 {
            None
        } else {
            match digits_value(digits) {
                None => None,
                Some(n) => {
                    let value = if s[0] == '-' as u8 {
                        -(n as int)
                    } else {
                        n as int
                    };
                    if i64::MIN <= value <= i64::MAX {
                        Some(value as i64)
                    } else {
                        None
                    }
                },
            }
        }
    }
}

pub proof fn lemma_digits_value_prefix(s: Seq<u8>, n: int)
    requires
        0 <= n <= s.len(),
        digits_value(s.subrange(0, n)) is None,
    ensures
        digits_value(s) is None,
    decreases s.len() - n,
{
    if n < s.len() {
        assert(s.subrange(0, n + 1).drop_last() =~= s.subrange(0, n));
        lemma_digits_value_prefix(s, n + 1);
    } else {
        assert(s.subrange(0, n) =~= s);
    }
}

pub proof fn lemma_digits_value_grows(s: Seq<u8>, n: int)
    requires
        0 <= n <= s.len(),
        digits_value(s.subrange(0, n)) is Some,
        digits_value(s) is Some,
    ensures
        digits_value(s.subrange(0, n))->Some_0 <= digits_value(s)->Some_0,
    decreases s.len() - n,
{
    if n < s.len() {
        assert(s.subrange(0, n + 1).drop_last() =~= s.subrange(0, n));
        if digits_value(s.subrange(0, n + 1)) is None {
            lemma_digits_value_prefix(s, n + 1);
        } else {
            lemma_digits_value_grows(s, n + 1);
        }
    } else {
        assert(s.subrange(0, n) =~= s);
    }
}

/// Reads a 64-bit integer; see `parse_int`.
#[verifier::loop_isolation(false)]
pub fn parse_int_bytes(s: &[u8]) -> (r: Option<i64>)
    ensures
        r == parse_int(s@),
{
    if s.len() == 0 {
        return None;
    }
    let negative = s[0] == '-' as u8;
    let start: usize = if negative || s[0] == '+' as u8 {
        1
    } else {
        0
    };
    if start == s.len() {
        return None;
    }
    let ghost digits = s@.subrange(start as int, s@.len() as int);
    proof {
        if start == 1 {
            assert(digits =~= s@.drop_first());
        } else {
            assert(digits =~= s@);
        }
        assert(digits.subrange(0, 0) =~= Seq::<u8>::empty());
    }
    // the magnitude, at most 2^63
    let limit: u64 = 9223372036854775808u64;
    let mut total: u64 = 0;
    let mut i: usize = start;
    while i < s.len()
        invariant
            start <= i <= s.len(),
            digits_value(digits.subrange(0, i - start)) == Some(total as nat),
            total <= limit,
        decreases s.len() - i,
    {
        let b = s[i];
        proof {
            assert(digits.subrange(0, i - start + 1).drop_last() =~= digits.subrange(
                0,
                i - start,
            ));
            assert(digits.subrange(0, i - start + 1).last() == b);
        }
        if !(48 <= b && b <= 57) {
            proof {
                lemma_digits_value_prefix(digits, i - start + 1);
            }
            return None;
        }
        let d = (b - 48) as u64;
        if total > (limit - d) / 10 {
            proof {
                let next = digits_value(digits.subrange(0, i - start + 1));
                assert(next->Some_0 == total * 10 + d);
                assert(total * 10 + d > limit) by (nonlinear_arith)
                    requires
                        total > (limit - d) / 10,
                        d <= 9,
                        limit == 9223372036854775808u64,
                ;
                if digits_value(digits) is Some {
                    lemma_digits_value_grows(digits, i - start + 1);
                }
            }
            return None;
        }
        assert(total * 10 + d <= limit) by (nonlinear_arith)
            requires
                total <= (limit - d) / 10,
                d <= 9,
                limit == 9223372036854775808u64,
        ;
        total = total * 10 + d;
        i = i + 1;
    }
    proof {
        assert(digits.subrange(0, s.len() - start) =~= digits);
    }
    if negative {
        if total == limit {
            Some(i64::MIN)
        } else {
            Some(-(total as i64))
        }
    } else if total == limit {
        None
    } else {
        Some(total as i64)
    }
}

} // verus!
