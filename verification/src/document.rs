//! The document model: an ordered mapping from field name to tagged value.
//!
//! A [`Document`] is the unit of data flowing through a pipeline.  Its
//! fields keep insertion order and its keys are unique.  Values are tagged:
//! text, integer, boolean, nested document, nested sequence, date, null or
//! binary.  Equality of documents is structural, which the mathematical
//! model below makes precise: a document is abstracted as a sequence of
//! (key, value) pairs over sequences and integers alone.

use vstd::prelude::*;

verus! {

broadcast use {vstd::seq::group_seq_axioms, vstd::std_specs::vec::group_vec_axioms};

/// The mathematical model of a tagged value: the same shape as [`Value`],
/// with every string as a `Seq<char>` and every vector as a `Seq`.
pub enum ValueModel {
    Text(Seq<char>),
    Int(i64),
    Boolean(bool),
    SubDoc(Seq<(Seq<char>, ValueModel)>),
    Sequence(Seq<ValueModel>),
    Date(i64),
    Null,
    Binary(Seq<u8>),
}

/// A tagged value held in one field of a [`Document`].
///
/// `Date` carries a timestamp in milliseconds; `Binary` carries raw bytes.
#[derive(Debug, PartialEq, Eq)]
pub enum Value {
    Text(String),
    Int(i64),
    Boolean(bool),
    SubDoc(Document),
    Sequence(Vec<Value>),
    Date(i64),
    Null,
    Binary(Vec<u8>),
}

/// An ordered field-name-to-value mapping with unique keys.
#[derive(Debug, PartialEq, Eq)]
pub struct Document {
    pub fields: Vec<(String, Value)>,
}

/// The model of a [`Value`].
pub open spec fn value_model(v: Value) -> ValueModel
    decreases v,
{
    match v {
        Value::Text(s) => ValueModel::Text(s@),
        Value::Int(i) => ValueModel::Int(i),
        Value::Boolean(b) => ValueModel::Boolean(b),
        Value::SubDoc(d) => ValueModel::SubDoc(fields_model(d.fields@)),
        Value::Sequence(xs) => ValueModel::Sequence(values_model(xs@)),
        Value::Date(t) => ValueModel::Date(t),
        Value::Null => ValueModel::Null,
        Value::Binary(bs) => ValueModel::Binary(bs@),
    }
}

/// The model of a list of values, element by element.
pub open spec fn values_model(xs: Seq<Value>) -> Seq<ValueModel>
    decreases xs,
{
    Seq::new(
        xs.len(),
        |i: int|
            if 0 <= i < xs.len() {
                value_model(xs[i])
            } else {
                ValueModel::Null
            },
    )
}

/// The model of a field list: each key as its characters, each value as its
/// model, in the same order.
pub open spec fn fields_model(fs: Seq<(String, Value)>) -> Seq<(Seq<char>, ValueModel)>
    decreases fs,
{
    Seq::new(
        fs.len(),
        |i: int|
            if 0 <= i < fs.len() {
                (fs[i].0@, value_model(fs[i].1))
            } else {
                (Seq::<char>::empty(), ValueModel::Null)
            },
    )
}

impl View for Value {
    type V = ValueModel;

    open spec fn view(&self) -> ValueModel {
        value_model(*self)
    }
}

impl View for Document {
    type V = Seq<(Seq<char>, ValueModel)>;

    open spec fn view(&self) -> Seq<(Seq<char>, ValueModel)> {
        fields_model(self.fields@)
    }
}

/// Keys are unique: no two distinct positions hold the same key.
pub open spec fn keys_unique(fs: Seq<(Seq<char>, ValueModel)>) -> bool {
    forall|i: int, j: int|
        0 <= i < fs.len() && 0 <= j < fs.len() && i != j ==> fs[i].0 != fs[j].0
}

/// The value stored under key `k`, looking from the front: the value of the
/// first field whose key is `k`, or `None` when no field has that key.
pub open spec fn model_get(fs: Seq<(Seq<char>, ValueModel)>, k: Seq<char>) -> Option<ValueModel>
    decreases fs.len(),
{
    if fs.len() == 0 {
        None
    } else if fs[0].0 == k {
        Some(fs[0].1)
    } else {
        model_get(fs.drop_first(), k)
    }
}

/// The field list with every field keyed `k` removed, other fields kept in
/// order.
pub open spec fn remove_key(fs: Seq<(Seq<char>, ValueModel)>, k: Seq<char>) -> Seq<
    (Seq<char>, ValueModel),
>
    decreases fs.len(),
{
    if fs.len() == 0 {
        Seq::empty()
    } else if fs[0].0 == k {
        remove_key(fs.drop_first(), k)
    } else {
        seq![fs[0]] + remove_key(fs.drop_first(), k)
    }
}

/// Appending one field on the right commutes with `remove_key`: the removed
/// key filters the new field out, any other key keeps it at the end.
pub proof fn lemma_remove_key_push(fs: Seq<(Seq<char>, ValueModel)>, k: Seq<char>, p: (Seq<char>, ValueModel))
    ensures
        remove_key(fs.push(p), k) == if p.0 == k {
            remove_key(fs, k)
        } else {
            remove_key(fs, k).push(p)
        },
    decreases fs.len(),
{
    if fs.len() == 0 {
        reveal_with_fuel(remove_key, 3);
        assert(fs.push(p).drop_first() =~= Seq::<(Seq<char>, ValueModel)>::empty());
        if p.0 == k {
            assert(remove_key(fs.push(p), k) =~= remove_key(fs, k));
        } else {
            assert(remove_key(fs.push(p), k) =~= remove_key(fs, k).push(p));
        }
    } else {
        assert(fs.push(p).drop_first() =~= fs.drop_first().push(p));
        lemma_remove_key_push(fs.drop_first(), k, p);
        if p.0 == k {
        } else {
            if fs[0].0 == k {
            } else {
                assert(seq![fs[0]] + remove_key(fs.drop_first(), k).push(p) =~= (seq![fs[0]]
                    + remove_key(fs.drop_first(), k)).push(p));
            }
        }
    }
}

/// After `remove_key(fs, k)` the key `k` is gone: looking it up yields `None`.
pub proof fn lemma_remove_key_gone(fs: Seq<(Seq<char>, ValueModel)>, k: Seq<char>)
    ensures
        model_get(remove_key(fs, k), k) is None,
        forall|i: int| 0 <= i < remove_key(fs, k).len() ==> remove_key(fs, k)[i].0 != k,
    decreases fs.len(),
{
    if fs.len() == 0 {
    } else {
        lemma_remove_key_gone(fs.drop_first(), k);
        if fs[0].0 == k {
        } else {
            let r = seq![fs[0]] + remove_key(fs.drop_first(), k);
            assert(r.drop_first() =~= remove_key(fs.drop_first(), k));
        }
    }
}

/// Removing a key that no field has leaves the field list unchanged.
pub proof fn lemma_remove_key_absent(fs: Seq<(Seq<char>, ValueModel)>, k: Seq<char>)
    requires
        forall|i: int| 0 <= i < fs.len() ==> fs[i].0 != k,
    ensures
        remove_key(fs, k) == fs,
    decreases fs.len(),
{
    if fs.len() == 0 {
        assert(remove_key(fs, k) =~= fs);
    } else {
        assert(forall|i: int|
            0 <= i < fs.drop_first().len() ==> fs.drop_first()[i].0 != k);
        lemma_remove_key_absent(fs.drop_first(), k);
        assert(seq![fs[0]] + fs.drop_first() =~= fs);
    }
}

/// Removing a field is idempotent: removing key `k` a second time changes
/// nothing.
pub proof fn lemma_remove_key_idempotent(fs: Seq<(Seq<char>, ValueModel)>, k: Seq<char>)
    ensures
        remove_key(remove_key(fs, k), k) == remove_key(fs, k),
{
    lemma_remove_key_gone(fs, k);
    lemma_remove_key_absent(remove_key(fs, k), k);
}

/// `remove_key` keeps every other key's first binding intact.
pub proof fn lemma_remove_key_other(fs: Seq<(Seq<char>, ValueModel)>, k: Seq<char>, k2: Seq<char>)
    requires
        k2 != k,
    ensures
        model_get(remove_key(fs, k), k2) == model_get(fs, k2),
    decreases fs.len(),
{
    if fs.len() == 0 {
    } else {
        lemma_remove_key_other(fs.drop_first(), k, k2);
        if fs[0].0 == k {
        } else {
            let r = seq![fs[0]] + remove_key(fs.drop_first(), k);
            assert(r.drop_first() =~= remove_key(fs.drop_first(), k));
        }
    }
}

/// `remove_key` preserves uniqueness of keys.
pub proof fn lemma_remove_key_unique(fs: Seq<(Seq<char>, ValueModel)>, k: Seq<char>)
    requires
        keys_unique(fs),
    ensures
        keys_unique(remove_key(fs, k)),
    decreases fs.len(),
{
    if fs.len() == 0 {
    } else {
        assert(keys_unique(fs.drop_first()));
        lemma_remove_key_unique(fs.drop_first(), k);
        if fs[0].0 == k {
        } else {
            lemma_remove_key_member(fs.drop_first(), k);
            let r = seq![fs[0]] + remove_key(fs.drop_first(), k);
            assert(r.drop_first() =~= remove_key(fs.drop_first(), k));
            assert forall|i: int, j: int|
                0 <= i < r.len() && 0 <= j < r.len() && i != j implies r[i].0 != r[j].0 by {
                if i > 0 && j > 0 {
                    assert(r[i] == remove_key(fs.drop_first(), k)[i - 1]);
                    assert(r[j] == remove_key(fs.drop_first(), k)[j - 1]);
                }
            }
        }
    }
}

/// Every field of `remove_key(fs, k)` is a field of `fs`.
pub proof fn lemma_remove_key_member(fs: Seq<(Seq<char>, ValueModel)>, k: Seq<char>)
    ensures
        forall|i: int|
            0 <= i < remove_key(fs, k).len() ==> exists|j: int|
                0 <= j < fs.len() && fs[j] == #[trigger] remove_key(fs, k)[i],
    decreases fs.len(),
{
    if fs.len() == 0 {
    } else {
        lemma_remove_key_member(fs.drop_first(), k);
        let rest = remove_key(fs.drop_first(), k);
        assert forall|i: int|
            0 <= i < remove_key(fs, k).len() implies exists|j: int|
            0 <= j < fs.len() && fs[j] == #[trigger] remove_key(fs, k)[i] by {
            if fs[0].0 == k {
                let j0 = choose|j: int| 0 <= j < fs.drop_first().len() && fs.drop_first()[j] == rest[i];
                assert(fs[j0 + 1] == remove_key(fs, k)[i]);
            } else {
                if i == 0 {
                    assert(fs[0] == remove_key(fs, k)[0]);
                } else {
                    assert(remove_key(fs, k)[i] == rest[i - 1]);
                    let j0 = choose|j: int|
                        0 <= j < fs.drop_first().len() && fs.drop_first()[j] == rest[i - 1];
                    assert(fs[j0 + 1] == remove_key(fs, k)[i]);
                }
            }
        }
    }
}

/// When a scan has ruled the key out of the first `i` fields, looking it up
/// in the whole list is the same as looking it up in the rest.
pub proof fn lemma_model_get_scan(fs: Seq<(Seq<char>, ValueModel)>, k: Seq<char>, i: int)
    requires
        0 <= i <= fs.len(),
        forall|j: int| 0 <= j < i ==> fs[j].0 != k,
    ensures
        model_get(fs, k) == model_get(fs.skip(i), k),
    decreases i,
{
    if i == 0 {
        assert(fs.skip(0) =~= fs);
    } else {
        lemma_model_get_scan(fs, k, i - 1);
        assert(fs.skip(i - 1).drop_first() =~= fs.skip(i));
        assert(fs.skip(i - 1)[0] == fs[i - 1]);
    }
}

impl Document {
    /// The invariant every document keeps: its keys are unique.
    pub open spec fn wf(&self) -> bool {
        keys_unique(self@)
    }

    /// A borrow of the value stored under `name`, or `None` when the
    /// document has no such field.
    pub fn get(&self, name: &str) -> (r: Option<&Value>)
        ensures
            match r {
                Some(v) => model_get(self@, name@) == Some(v@),
                None => model_get(self@, name@) is None,
            },
    {
        let key: String = name.to_owned();
        let ghost m = self@;
        let mut i: usize = 0;
        while i < self.fields.len()
            invariant
                0 <= i <= self.fields.len(),
                key@ == name@,
                m == self@,
                m.len() == self.fields.len(),
                forall|j: int| 0 <= j < i ==> m[j].0 != name@,
            decreases self.fields.len() - i,
        {
            if self.fields[i].0 == key {
                proof {
                    lemma_model_get_scan(m, name@, i as int);
                    assert(m.skip(i as int)[0] == m[i as int]);
                }
                return Some(&self.fields[i].1);
            }
            i += 1;
        }
        proof {
            lemma_model_get_scan(m, name@, m.len() as int);
            assert(m.skip(m.len() as int) =~= Seq::<(Seq<char>, ValueModel)>::empty());
        }
        None
    }

    /// Whether the document has a field named `name`.
    pub fn contains_key(&self, name: &str) -> (r: bool)
        ensures
            r == (model_get(self@, name@) is Some),
    {
        match self.get(name) {
            Some(_) => true,
            None => false,
        }
    }

    /// Removes every field named `name`, keeping the others in order.
    /// A document without such a field comes back unchanged.
    pub fn remove(&mut self, name: &str)
        ensures
            final(self)@ == remove_key(old(self)@, name@),
            old(self).wf() ==> final(self).wf(),
    {
        let key: String = name.to_owned();
        let ghost orig = self@;
        let mut rest: Vec<(String, Value)> = Vec::new();
        core::mem::swap(&mut rest, &mut self.fields);
        proof {
            assert(self@ =~= Seq::<(Seq<char>, ValueModel)>::empty());
            assert(fields_model(rest@) == orig);
            assert(orig.skip(0) =~= orig);
            assert(remove_key(orig.take(0), name@) =~= self@);
        }
        let ghost total = orig.len() as int;
        while rest.len() > 0
            invariant
                key@ == name@,
                total == orig.len(),
                rest.len() <= total,
                fields_model(rest@) =~= orig.skip(total - rest.len()),
                self@ == remove_key(orig.take(total - rest.len()), name@),
            decreases rest.len(),
        {
            let ghost k = total - rest.len() as int;
            let ghost r0 = rest@;
            let p = rest.remove(0);
            proof {
                assert(rest@ =~= r0.drop_first());
                assert forall|i: int| 0 <= i < rest@.len() implies fields_model(rest@)[i]
                    == orig.skip(k + 1)[i] by {
                    assert(fields_model(r0)[i + 1] == orig.skip(k)[i + 1]);
                }
                assert(fields_model(rest@) =~= orig.skip(k + 1));
                assert(p == r0[0]);
                assert(fields_model(r0)[0] == orig.skip(k)[0]);
                assert((p.0@, p.1@) == orig[k]);
                lemma_remove_key_push(orig.take(k), name@, orig[k]);
                assert(orig.take(k).push(orig[k]) =~= orig.take(k + 1));
            }
            if !(p.0 == key) {
                self.fields.push(p);
                proof {
                    assert(fields_model(self.fields@) =~= remove_key(
                        orig.take(k + 1),
                        name@,
                    ));
                }
            }
        }
        proof {
            assert(orig.take(total) =~= orig);
            if old(self).wf() {
                lemma_remove_key_unique(orig, name@);
            }
        }
    }

    /// Stores `value` under `name`: any field already named `name` is
    /// removed, and the new field is appended at the end.
    pub fn insert(&mut self, name: &str, value: Value)
        ensures
            final(self)@ == remove_key(old(self)@, name@).push((name@, value@)),
            old(self).wf() ==> final(self).wf(),
    {
        self.remove(name);
        let key: String = name.to_owned();
        let ghost before = self@;
        self.fields.push((key, value));
        proof {
            assert(self@ =~= before.push((name@, value@)));
            if old(self).wf() {
                lemma_remove_key_gone(old(self)@, name@);
                lemma_remove_key_unique(old(self)@, name@);
            }
        }
    }

    /// An empty document.
    pub fn new() -> (r: Document)
        ensures
            r@ == Seq::<(Seq<char>, ValueModel)>::empty(),
            r.wf(),
    {
        let fields: Vec<(String, Value)> = Vec::new();
        let r = Document { fields };
        proof {
            assert(r@ =~= Seq::<(Seq<char>, ValueModel)>::empty());
        }
        r
    }

    /// How many fields the document holds.
    pub fn len(&self) -> (n: usize)
        ensures
            n == self@.len(),
    {
        self.fields.len()
    }
}

} // verus!
