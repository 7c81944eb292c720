//! The record data model: tagged values, ordered key/value objects, and the
//! plan types that a parsed pipeline expression is made of.
//!
//! An `Object` is an ordered mapping from byte-string keys to `Value`s. The
//! keys are kept unique and in strict lexicographic order, so the entry
//! sequence of an object is canonical for its map. Text is handled as UTF-8
//! bytes throughout the crate.

use vstd::prelude::*;

use crate::order::{bytes_eq, bytes_lt, lemma_lex_trichotomy, lex_lt};

verus! {

/// Mathematical view of a `Number`.
pub enum NumberV {
    /// A fixed integer number.
    Fixed(int),
    /// A symbolic (deferred) numeric string.
    Dynamic(Seq<u8>),
}

/// Mathematical view of a `Value`.
pub enum ValueV {
    Null,
    Bool(bool),
    Number(NumberV),
    Binary(Seq<u8>),
    Text(Seq<u8>),
}

/// A number: either a fixed integer or a symbolic numeric string that a
/// downstream engine may evaluate.
pub enum Number {
    Fixed(i128),
    Dynamic(Vec<u8>),
}

impl View for Number {
    type V = NumberV;

    open spec fn view(&self) -> NumberV {
        match self {
            Number::Fixed(n) => NumberV::Fixed(*n as int),
            Number::Dynamic(s) => NumberV::Dynamic(s@),
        }
    }
}

/// Raw bytes; base64-encoded on the JSON wire.
pub struct Binary(pub Vec<u8>);

impl View for Binary {
    type V = Seq<u8>;

    open spec fn view(&self) -> Seq<u8> {
        self.0@
    }
}

/// A dynamic, tagged value.
///
/// `Binary` and `String` are distinct wire forms; a string may be promoted to
/// binary when a consumer requests the bytes view of a string-valued field.
pub enum Value {
    Null,
    Bool(bool),
    Number(Number),
    Binary(Binary),
    String(Vec<u8>),
}

impl View for Value {
    type V = ValueV;

    open spec fn view(&self) -> ValueV {
        match self {
            Value::Null => ValueV::Null,
            Value::Bool(b) => ValueV::Bool(*b),
            Value::Number(n) => ValueV::Number(n@),
            Value::Binary(b) => ValueV::Binary(b@),
            Value::String(s) => ValueV::Text(s@),
        }
    }
}

impl Number {
    /// A structural copy whose view equals this one's.
    pub fn duplicate(&self) -> (r: Number)
        ensures
            r@ == self@,
    {
        match self {
            Number::Fixed(n) => Number::Fixed(*n),
            Number::Dynamic(s) => Number::Dynamic(clone_bytes(s)),
        }
    }
}

impl Value {
    /// A structural copy whose view equals this one's.
    pub fn duplicate(&self) -> (r: Value)
        ensures
            r@ == self@,
    {
        match self {
            Value::Null => Value::Null,
            Value::Bool(b) => Value::Bool(*b),
            Value::Number(n) => Value::Number(n.duplicate()),
            Value::Binary(b) => Value::Binary(Binary(clone_bytes(&b.0))),
            Value::String(s) => Value::String(clone_bytes(s)),
        }
    }
}

/// Copies a byte vector.
pub fn clone_bytes(v: &Vec<u8>) -> (r: Vec<u8>)
    ensures
        r@ == v@,
{
    let mut r: Vec<u8> = Vec::new();
    let mut i: usize = 0;
    while i < v.len()
        invariant
            0 <= i <= v.len(),
            r@ == v@.take(i as int),
        decreases v.len() - i,
    {
        r.push(v[i]);
        proof {
            assert(v@.take(i + 1 as int) =~= v@.take(i as int).push(v@[i as int]));
        }
        i = i + 1;
    }
    proof {
        assert(v@.take(v@.len() as int) =~= v@);
    }
    r
}

/// The keys of an entry sequence are in strict lexicographic order.
pub open spec fn entries_sorted(s: Seq<(Seq<u8>, ValueV)>) -> bool {
    forall|i: int, j: int| 0 <= i < j < s.len() ==> lex_lt(#[trigger] s[i].0, #[trigger] s[j].0)
}

/// No two entries share a key.
pub open spec fn keys_unique(s: Seq<(Seq<u8>, ValueV)>) -> bool {
    forall|i: int, j: int| 0 <= i < j < s.len() ==> (#[trigger] s[i].0) != (#[trigger] s[j].0)
}

/// The map that an entry sequence denotes; a later entry overrides an
/// earlier one with the same key.
pub open spec fn seq_to_map(s: Seq<(Seq<u8>, ValueV)>) -> Map<Seq<u8>, ValueV>
    decreases s.len(),
{
    if s.len() == 0 {
        Map::empty()
    } else {
        seq_to_map(s.drop_last()).insert(s.last().0, s.last().1)
    }
}

pub proof fn lemma_sorted_implies_unique(s: Seq<(Seq<u8>, ValueV)>)
    requires
        entries_sorted(s),
    ensures
        keys_unique(s),
{
    assert forall|i: int, j: int| 0 <= i < j < s.len() implies (#[trigger] s[i].0) != (
    #[trigger] s[j].0) by {
        lemma_lex_trichotomy(s[i].0, s[j].0);
    }
}

/// A key is in the map exactly when some entry carries it.
pub proof fn lemma_map_contains(s: Seq<(Seq<u8>, ValueV)>, k: Seq<u8>)
    ensures
        seq_to_map(s).contains_key(k) <==> exists|i: int| 0 <= i < s.len() && (#[trigger] s[i].0)
            == k,
    decreases s.len(),
{
    if s.len() > 0 {
        lemma_map_contains(s.drop_last(), k);
        if s.last().0 == k {
            assert(s[s.len() - 1].0 == k);
        } else if seq_to_map(s).contains_key(k) {
            let i = choose|i: int| 0 <= i < s.drop_last().len() && (#[trigger] s.drop_last()[i].0)
                == k;
            assert(s[i].0 == k);
        } else {
            if exists|i: int| 0 <= i < s.len() && (#[trigger] s[i].0) == k {
                let i = choose|i: int| 0 <= i < s.len() && (#[trigger] s[i].0) == k;
                assert(i < s.len() - 1);
                assert(s.drop_last()[i].0 == k);
            }
        }
    }
}

/// With unique keys, each entry gives the map's value at its key.
pub proof fn lemma_map_index(s: Seq<(Seq<u8>, ValueV)>, i: int)
    requires
        keys_unique(s),
        0 <= i < s.len(),
    ensures
        seq_to_map(s).contains_key(s[i].0),
        seq_to_map(s)[s[i].0] == s[i].1,
    decreases s.len(),
{
    if i == s.len() - 1 {
        assert(s.last() == s[i]);
    } else {
        assert(keys_unique(s.drop_last())) by {
            assert(forall|a: int, b: int|
                0 <= a < b < s.drop_last().len() ==> (#[trigger] s.drop_last()[a].0) != (
                #[trigger] s.drop_last()[b].0));
        }
        lemma_map_index(s.drop_last(), i);
        assert(s.drop_last()[i] == s[i]);
        assert(s[i].0 != s.last().0);
    }
}

/// Overwriting the value at an existing key updates the denoted map.
proof fn lemma_two_maps_equal(
    s0: Seq<(Seq<u8>, ValueV)>,
    s1: Seq<(Seq<u8>, ValueV)>,
    i: int,
    k: Seq<u8>,
    v: ValueV,
)
    requires
        keys_unique(s0),
        keys_unique(s1),
        0 <= i < s0.len(),
        s1 == s0.update(i, (k, v)),
        s0[i].0 == k,
    ensures
        seq_to_map(s1) == seq_to_map(s0).insert(k, v),
{
    let m1 = seq_to_map(s1);
    let m2 = seq_to_map(s0).insert(k, v);
    assert(m1 =~= m2) by {
        assert forall|q: Seq<u8>| #[trigger] m1.contains_key(q) implies m2.contains_key(q) by {
            lemma_map_contains(s1, q);
            let j = choose|j: int| 0 <= j < s1.len() && (#[trigger] s1[j].0) == q;
            assert(s0[j].0 == q);
            lemma_map_contains(s0, q);
        }
        assert forall|q: Seq<u8>| #[trigger] m2.contains_key(q) implies m1.contains_key(q) by {
            lemma_map_contains(s0, q);
            lemma_map_contains(s1, q);
            if q == k {
                assert(s1[i].0 == q);
            } else {
                let j = choose|j: int| 0 <= j < s0.len() && (#[trigger] s0[j].0) == q;
                assert(s1[j].0 == q);
            }
        }
        assert forall|q: Seq<u8>| m1.contains_key(q) && m2.contains_key(q) implies #[trigger] m1[q]
            == #[trigger] m2[q] by {
            lemma_map_contains(s1, q);
            let j = choose|j: int| 0 <= j < s1.len() && (#[trigger] s1[j].0) == q;
            lemma_map_index(s1, j);
            if q == k {
                assert(j == i) by {
                    if j != i {
                        assert(s1[i].0 == k);
                    }
                }
            } else {
                assert(j != i);
                assert(s0[j].0 == q);
                lemma_map_index(s0, j);
            }
        }
    }
}

/// Inserting an entry with a fresh key inserts into the denoted map.
proof fn lemma_inserted_map_equal(
    s0: Seq<(Seq<u8>, ValueV)>,
    s1: Seq<(Seq<u8>, ValueV)>,
    i: int,
    k: Seq<u8>,
    v: ValueV,
)
    requires
        keys_unique(s0),
        keys_unique(s1),
        0 <= i <= s0.len(),
        s1 == s0.insert(i, (k, v)),
        forall|j: int| 0 <= j < s0.len() ==> (#[trigger] s0[j].0) != k,
    ensures
        seq_to_map(s1) == seq_to_map(s0).insert(k, v),
{
    let m1 = seq_to_map(s1);
    let m2 = seq_to_map(s0).insert(k, v);
    assert(s1.len() == s0.len() + 1);
    assert(s1[i] == (k, v));
    assert(m1 =~= m2) by {
        assert forall|q: Seq<u8>| #[trigger] m1.contains_key(q) implies m2.contains_key(q) by {
            lemma_map_contains(s1, q);
            let j = choose|j: int| 0 <= j < s1.len() && (#[trigger] s1[j].0) == q;
            if j == i {
                assert(q == k);
            } else if j < i {
                assert(s0[j].0 == q);
                lemma_map_contains(s0, q);
            } else {
                assert(s0[j - 1].0 == q);
                lemma_map_contains(s0, q);
            }
        }
        assert forall|q: Seq<u8>| #[trigger] m2.contains_key(q) implies m1.contains_key(q) by {
            lemma_map_contains(s0, q);
            lemma_map_contains(s1, q);
            if q == k {
                assert(s1[i].0 == q);
            } else {
                let j = choose|j: int| 0 <= j < s0.len() && (#[trigger] s0[j].0) == q;
                if j < i {
                    assert(s1[j].0 == q);
                } else {
                    assert(s1[j + 1].0 == q);
                }
            }
        }
        assert forall|q: Seq<u8>| m1.contains_key(q) && m2.contains_key(q) implies #[trigger] m1[q]
            == #[trigger] m2[q] by {
            lemma_map_contains(s1, q);
            let j = choose|j: int| 0 <= j < s1.len() && (#[trigger] s1[j].0) == q;
            lemma_map_index(s1, j);
            if q == k {
                assert(j == i) by {
                    if j != i {
                        assert(s1[i].0 == k);
                    }
                }
            } else {
                assert(j != i);
                if j < i {
                    assert(s0[j].0 == q);
                    lemma_map_index(s0, j);
                } else {
                    assert(s0[j - 1].0 == q);
                    lemma_map_index(s0, j - 1);
                }
            }
        }
    }
}

/// An ordered mapping from byte-string keys to values. Keys are unique and
/// kept in lexicographic order, so the entry sequence is canonical.
pub struct Object {
    entries: Vec<(Vec<u8>, Value)>,
}

impl View for Object {
    type V = Seq<(Seq<u8>, ValueV)>;

    closed spec fn view(&self) -> Seq<(Seq<u8>, ValueV)> {
        self.entries@.map_values(|kv: (Vec<u8>, Value)| (kv.0@, kv.1@))
    }
}

impl Object {
    /// The ordering invariant: sorted entries, hence unique keys.
    pub open spec fn wf(&self) -> bool {
        entries_sorted(self@)
    }

    /// The key/value map this object denotes.
    pub open spec fn as_map(&self) -> Map<Seq<u8>, ValueV> {
        seq_to_map(self@)
    }

    /// The empty object.
    pub fn new() -> (r: Object)
        ensures
            r@ == Seq::<(Seq<u8>, ValueV)>::empty(),
            r.wf(),
    {
        let r = Object { entries: Vec::new() };
        proof {
            assert(r@ =~= Seq::<(Seq<u8>, ValueV)>::empty());
        }
        r
    }

    pub fn len(&self) -> (r: usize)
        ensures
            r == self@.len(),
    {
        self.entries.len()
    }

    pub fn is_empty(&self) -> (r: bool)
        ensures
            r == (self@.len() == 0),
    {
        self.entries.len() == 0
    }

    /// The key of the entry at a position.
    pub fn key_at(&self, i: usize) -> (r: &Vec<u8>)
        requires
            i < self@.len(),
        ensures
            r@ == self@[i as int].0,
    {
        &self.entries[i].0
    }

    /// The value of the entry at a position.
    pub fn value_at(&self, i: usize) -> (r: &Value)
        requires
            i < self@.len(),
        ensures
            r@ == self@[i as int].1,
    {
        &self.entries[i].1
    }

    /// The position holding a key, if any.
    pub fn index_of(&self, key: &Vec<u8>) -> (r: Option<usize>)
        ensures
            match r {
                Some(i) => i < self@.len() && self@[i as int].0 == key@,
                None => forall|i: int| 0 <= i < self@.len() ==> (#[trigger] self@[i].0) != key@,
            },
    {
        let mut i: usize = 0;
        while i < self.entries.len()
            invariant
                0 <= i <= self@.len(),
                self@.len() == self.entries@.len(),
                forall|j: int| 0 <= j < i ==> (#[trigger] self@[j].0) != key@,
            decreases self.entries.len() - i,
        {
            if bytes_eq(&self.entries[i].0, key) {
                return Some(i);
            }
            i = i + 1;
        }
        None
    }

    /// A structural copy whose view equals this one's.
    pub fn duplicate(&self) -> (r: Object)
        ensures
            r@ == self@,
    {
        let mut entries: Vec<(Vec<u8>, Value)> = Vec::new();
        let mut i: usize = 0;
        while i < self.entries.len()
            invariant
                0 <= i <= self.entries@.len(),
                entries@.len() == i,
                forall|j: int|
                    0 <= j < i ==> (#[trigger] entries@[j]).0@ == self@[j].0 && entries@[j].1@
                        == self@[j].1,
                self@.len() == self.entries@.len(),
            decreases self.entries.len() - i,
        {
            let k = clone_bytes(&self.entries[i].0);
            let v = self.entries[i].1.duplicate();
            entries.push((k, v));
            i = i + 1;
        }
        let r = Object { entries };
        proof {
            assert(r@ =~= self@);
        }
        r
    }

    /// Inserts a key/value binding, returning the value previously bound to
    /// the key, if any. Keys stay sorted; inserting a key greater than every
    /// present key appends the entry.
    pub fn insert(&mut self, key: Vec<u8>, value: Value) -> (prev: Option<Value>)
        requires
            old(self).wf(),
        ensures
            final(self).wf(),
            final(self).as_map() == old(self).as_map().insert(key@, value@),
            match prev {
                Some(v) => old(self).as_map().contains_key(key@) && v@ == old(self).as_map()[key@]
                    && final(self)@.len() == old(self)@.len(),
                None => !old(self).as_map().contains_key(key@)
                    && final(self)@.len() == old(self)@.len() + 1,
            },
            (forall|i: int| 0 <= i < old(self)@.len() ==> lex_lt(#[trigger] old(self)@[i].0, key@))
                ==> final(self)@ == old(self)@.push((key@, value@)),
    {
        proof {
            lemma_sorted_implies_unique(self@);
            lemma_map_contains(self@, key@);
        }
        let ghost s0 = self@;
        let mut i: usize = 0;
        while i < self.entries.len() && bytes_lt(&self.entries[i].0, &key)
            invariant
                0 <= i <= self.entries@.len(),
                self@ == s0,
                self@.len() == self.entries@.len(),
                forall|j: int| 0 <= j < i ==> lex_lt(#[trigger] self@[j].0, key@),
            decreases self.entries.len() - i,
        {
            i = i + 1;
        }
        let found = i < self.entries.len() && bytes_eq(&self.entries[i].0, &key);
        proof {
            if i < s0.len() {
                lemma_lex_trichotomy(s0[i as int].0, key@);
            }
        }
        if found {
            let old_entry = self.entries.remove(i);
            self.entries.insert(i, (key, value));
            proof {
                let s1 = self@;
                assert(s1 =~= s0.update(i as int, (key@, value@)));
                assert(s0[i as int].0 == key@);
                assert(entries_sorted(s1)) by {
                    assert forall|a: int, b: int| 0 <= a < b < s1.len() implies lex_lt(
                        #[trigger] s1[a].0,
                        #[trigger] s1[b].0,
                    ) by {
                        assert(s1[a].0 == s0[a].0);
                        assert(s1[b].0 == s0[b].0);
                    }
                }
                lemma_sorted_implies_unique(s1);
                lemma_map_index(s0, i as int);
                assert(seq_to_map(s1) =~= seq_to_map(s0).insert(key@, value@)) by {
                    lemma_two_maps_equal(s0, s1, i as int, key@, value@);
                }
            }
            Some(old_entry.1)
        } else {
            self.entries.insert(i, (key, value));
            proof {
                let s1 = self@;
                assert(s1 =~= s0.insert(i as int, (key@, value@)));
                assert forall|j: int| i <= j < s0.len() implies lex_lt(
                    key@,
                    #[trigger] s0[j].0,
                ) by {
                    assert(lex_lt(key@, s0[i as int].0));
                    if j > i {
                        crate::order::lemma_lex_transitive(key@, s0[i as int].0, s0[j].0);
                    }
                }
                assert(entries_sorted(s1)) by {
                    assert forall|a: int, b: int| 0 <= a < b < s1.len() implies lex_lt(
                        #[trigger] s1[a].0,
                        #[trigger] s1[b].0,
                    ) by {
                        if a < i && b < i {
                            assert(s1[a] == s0[a] && s1[b] == s0[b]);
                        } else if a < i && b == i {
                            assert(s1[a] == s0[a]);
                        } else if a < i && b > i {
                            assert(s1[a] == s0[a] && s1[b] == s0[b - 1]);
                        } else if a == i {
                            assert(s1[b] == s0[b - 1]);
                        } else {
                            assert(s1[a] == s0[a - 1] && s1[b] == s0[b - 1]);
                        }
                    }
                }
                lemma_sorted_implies_unique(s1);
                assert forall|j: int| 0 <= j < s0.len() implies (#[trigger] s0[j].0) != key@ by {
                    if j < i {
                        lemma_lex_trichotomy(s0[j].0, key@);
                    } else {
                        lemma_lex_trichotomy(key@, s0[j].0);
                    }
                }
                assert(seq_to_map(s1) =~= seq_to_map(s0).insert(key@, value@)) by {
                    lemma_inserted_map_equal(s0, s1, i as int, key@, value@);
                }
                if forall|j: int| 0 <= j < s0.len() ==> lex_lt(#[trigger] s0[j].0, key@) {
                    assert(i == s0.len()) by {
                        if i < s0.len() {
                            assert(lex_lt(s0[i as int].0, key@));
                        }
                    }
                    assert(s1 =~= s0.push((key@, value@)));
                }
            }
            None
        }
    }

    /// Moves every entry of `other` into `self`; an entry of `other` wins
    /// over an entry of `self` with the same key. Merging into an empty
    /// object reproduces `other` exactly.
    pub fn append(&mut self, mut other: Object)
        requires
            old(self).wf(),
            other.wf(),
        ensures
            final(self).wf(),
            final(self).as_map() == old(self).as_map().union_prefer_right(other.as_map()),
            old(self)@.len() == 0 ==> final(self)@ == other@,
    {
        let ghost m0 = self.as_map();
        let ghost orig = other@;
        let ghost s0 = self@;
        let ghost mut k: int = 0;
        proof {
            assert(orig.take(0) =~= Seq::<(Seq<u8>, ValueV)>::empty());
            assert(self.as_map() =~= m0.union_prefer_right(seq_to_map(orig.take(0))));
            assert(other@ =~= orig.skip(0));
        }
        while other.entries.len() > 0
            invariant
                self.wf(),
                other.wf(),
                k + other@.len() == orig.len(),
                0 <= k <= orig.len(),
                other@ == orig.skip(k),
                self.as_map() == m0.union_prefer_right(seq_to_map(orig.take(k))),
                entries_sorted(orig),
                s0.len() == 0 ==> self@ == orig.take(k),
            decreases other@.len(),
        {
            let kv = other.entries.remove(0);
            proof {
                assert(other@ =~= orig.skip(k).drop_first());
                assert(orig.skip(k).drop_first() =~= orig.skip(k + 1));
                assert(orig.skip(k)[0] == orig[k]);
                assert(kv.0@ == orig[k].0 && kv.1@ == orig[k].1);
                if s0.len() == 0 {
                    assert forall|j: int| 0 <= j < self@.len() implies lex_lt(
                        #[trigger] self@[j].0,
                        kv.0@,
                    ) by {
                        assert(self@[j] == orig.take(k)[j]);
                        assert(orig[j] == orig.take(k)[j]);
                    }
                }
            }
            let ghost m_before = self.as_map();
            self.insert(kv.0, kv.1);
            proof {
                assert(seq_to_map(orig.take(k + 1)) =~= seq_to_map(
                    orig.take(k),
                ).insert(orig[k].0, orig[k].1)) by {
                    assert(orig.take(k + 1).drop_last() =~= orig.take(k));
                    assert(orig.take(k + 1).last() == orig[k]);
                }
                assert(self.as_map() =~= m0.union_prefer_right(
                    seq_to_map(orig.take(k + 1)),
                ));
                if s0.len() == 0 {
                    assert(self@ =~= orig.take(k + 1)) by {
                        assert(orig.take(k + 1) =~= orig.take(k).push(
                            orig[k],
                        ));
                    }
                }
            }
            proof {
                k = k + 1;
            }
        }
        proof {
            assert(orig.take(orig.len() as int) =~= orig);
            assert(other@.len() == 0);
        }
    }

    /// Read access by key.
    pub fn get(&self, key: &Vec<u8>) -> (r: Option<&Value>)
        requires
            self.wf(),
        ensures
            match r {
                Some(v) => self.as_map().contains_key(key@) && v@ == self.as_map()[key@],
                None => !self.as_map().contains_key(key@),
            },
    {
        proof {
            lemma_map_contains(self@, key@);
            lemma_sorted_implies_unique(self@);
        }
        match self.index_of(key) {
            Some(i) => {
                proof {
                    lemma_map_index(self@, i as int);
                }
                Some(&self.entries[i].1)
            },
            None => None,
        }
    }

}

/// Mathematical view of a `PlanKind`.
pub enum PlanKindV {
    Batch { name: Seq<u8> },
    Format { name: Seq<u8> },
    Func { model_name: Seq<u8>, func: Seq<u8> },
    Model { name: Seq<u8> },
    Sink { name: Seq<u8> },
    Src { name: Seq<u8> },
    Store { name: Seq<u8> },
    Stream { name: Seq<u8> },
}

/// The role tag of a plan element. `Batch` and `Stream` are edge kinds used
/// only inside the engine; the parser never produces them.
#[derive(Debug)]
pub enum PlanKind {
    Batch { name: Vec<u8> },
    Format { name: Vec<u8> },
    Func { model_name: Vec<u8>, func: Vec<u8> },
    Model { name: Vec<u8> },
    Sink { name: Vec<u8> },
    Src { name: Vec<u8> },
    Store { name: Vec<u8> },
    Stream { name: Vec<u8> },
}

impl View for PlanKind {
    type V = PlanKindV;

    open spec fn view(&self) -> PlanKindV {
        match self {
            PlanKind::Batch { name } => PlanKindV::Batch { name: name@ },
            PlanKind::Format { name } => PlanKindV::Format { name: name@ },
            PlanKind::Func { model_name, func } => PlanKindV::Func {
                model_name: model_name@,
                func: func@,
            },
            PlanKind::Model { name } => PlanKindV::Model { name: name@ },
            PlanKind::Sink { name } => PlanKindV::Sink { name: name@ },
            PlanKind::Src { name } => PlanKindV::Src { name: name@ },
            PlanKind::Store { name } => PlanKindV::Store { name: name@ },
            PlanKind::Stream { name } => PlanKindV::Stream { name: name@ },
        }
    }
}

/// The role tag alone, without the name.
#[derive(Copy, Clone, PartialEq, Eq, Structural, Debug)]
pub enum PlanType {
    Batch,
    Format,
    Func,
    Model,
    Sink,
    Src,
    Store,
    Stream,
}

impl PlanKind {
    /// The role tag of this kind.
    pub open spec fn spec_role(&self) -> PlanType {
        match self {
            PlanKind::Batch { .. } => PlanType::Batch,
            PlanKind::Format { .. } => PlanType::Format,
            PlanKind::Func { .. } => PlanType::Func,
            PlanKind::Model { .. } => PlanType::Model,
            PlanKind::Sink { .. } => PlanType::Sink,
            PlanKind::Src { .. } => PlanType::Src,
            PlanKind::Store { .. } => PlanType::Store,
            PlanKind::Stream { .. } => PlanType::Stream,
        }
    }

    /// The role tag of this kind.
    pub fn role(&self) -> (r: PlanType)
        ensures
            r == self.spec_role(),
    {
        match self {
            PlanKind::Batch { .. } => PlanType::Batch,
            PlanKind::Format { .. } => PlanType::Format,
            PlanKind::Func { .. } => PlanType::Func,
            PlanKind::Model { .. } => PlanType::Model,
            PlanKind::Sink { .. } => PlanType::Sink,
            PlanKind::Src { .. } => PlanType::Src,
            PlanKind::Store { .. } => PlanType::Store,
            PlanKind::Stream { .. } => PlanType::Stream,
        }
    }

    /// Structural equality of kinds.
    pub fn kind_eq(&self, other: &PlanKind) -> (r: bool)
        ensures
            r == (self@ == other@),
    {
        match (self, other) {
            (PlanKind::Batch { name: a }, PlanKind::Batch { name: b }) => bytes_eq(a, b),
            (PlanKind::Format { name: a }, PlanKind::Format { name: b }) => bytes_eq(a, b),
            (
                PlanKind::Func { model_name: a, func: c },
                PlanKind::Func { model_name: b, func: d },
            ) => bytes_eq(a, b) && bytes_eq(c, d),
            (PlanKind::Model { name: a }, PlanKind::Model { name: b }) => bytes_eq(a, b),
            (PlanKind::Sink { name: a }, PlanKind::Sink { name: b }) => bytes_eq(a, b),
            (PlanKind::Src { name: a }, PlanKind::Src { name: b }) => bytes_eq(a, b),
            (PlanKind::Store { name: a }, PlanKind::Store { name: b }) => bytes_eq(a, b),
            (PlanKind::Stream { name: a }, PlanKind::Stream { name: b }) => bytes_eq(a, b),
            _ => false,
        }
    }

    /// A structural copy whose view equals this one's.
    pub fn duplicate(&self) -> (r: PlanKind)
        ensures
            r@ == self@,
    {
        match self {
            PlanKind::Batch { name } => PlanKind::Batch { name: clone_bytes(name) },
            PlanKind::Format { name } => PlanKind::Format { name: clone_bytes(name) },
            PlanKind::Func { model_name, func } => PlanKind::Func {
                model_name: clone_bytes(model_name),
                func: clone_bytes(func),
            },
            PlanKind::Model { name } => PlanKind::Model { name: clone_bytes(name) },
            PlanKind::Sink { name } => PlanKind::Sink { name: clone_bytes(name) },
            PlanKind::Src { name } => PlanKind::Src { name: clone_bytes(name) },
            PlanKind::Store { name } => PlanKind::Store { name: clone_bytes(name) },
            PlanKind::Stream { name } => PlanKind::Stream { name: clone_bytes(name) },
        }
    }
}

impl PlanType {
    /// The canonical lower-case name of this role, as used in error texts.
    pub fn as_str(&self) -> (r: &'static str)
        ensures
            *self == PlanType::Batch ==> r@ == "batch"@,
            *self == PlanType::Format ==> r@ == "format"@,
            *self == PlanType::Func ==> r@ == "function"@,
            *self == PlanType::Model ==> r@ == "model"@,
            *self == PlanType::Sink ==> r@ == "sink"@,
            *self == PlanType::Src ==> r@ == "src"@,
            *self == PlanType::Store ==> r@ == "store"@,
            *self == PlanType::Stream ==> r@ == "stream"@,
    {
        match self {
            PlanType::Batch => "batch",
            PlanType::Format => "format",
            PlanType::Func => "function",
            PlanType::Model => "model",
            PlanType::Sink => "sink",
            PlanType::Src => "src",
            PlanType::Store => "store",
            PlanType::Stream => "stream",
        }
    }
}

/// Mathematical view of a `Plan`.
pub struct PlanV {
    pub kind: PlanKindV,
    pub args: Seq<(Seq<u8>, ValueV)>,
}

/// One parsed pipeline element: a kind and an argument object.
pub struct Plan {
    pub kind: PlanKind,
    pub args: Object,
}

impl View for Plan {
    type V = PlanV;

    open spec fn view(&self) -> PlanV {
        PlanV { kind: self.kind@, args: self.args@ }
    }
}

/// A single `key=value` argument, as the grammar yields it.
pub struct PlanArgument {
    pub key: Vec<u8>,
    pub value: Value,
}

} // verus!
