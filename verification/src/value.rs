//! The element values the container serializer walks.
//!
//! A host object reference carries no type of its own; the type classifier
//! resolves each reference to one kind of a fixed enumeration. `Value` is
//! that enumeration together with the plain data each kind's leaf serializer
//! reads: text as UTF-8 bytes, integers, booleans, null, pre-serialized JSON
//! fragments, and the three container shapes (list, tuple, mapping). Rich
//! host kinds whose rendering belongs to an external leaf serializer reach
//! this engine already rendered, as fragments.
//!
//! `ValueModel` is the mathematical model of a `Value`: the same tree over
//! `Seq` instead of `Vec`. All contracts speak of it through `@`.

use vstd::prelude::*;

verus! {

/// The mathematical model of a classified element value.
pub enum ValueModel {
    /// The JSON null.
    Null,
    /// A boolean.
    Bool(bool),
    /// A 64-bit signed integer.
    Int(int),
    /// Text, as UTF-8 bytes.
    Str(Seq<u8>),
    /// Text from a subtype of the host string type; serialized as `Str`.
    StrSubclass(Seq<u8>),
    /// A pre-serialized JSON value, inlined verbatim.
    Fragment(Seq<u8>),
    /// A mutable-length sequence container.
    List(Seq<ValueModel>),
    /// A fixed-length sequence container.
    Tuple(Seq<ValueModel>),
    /// A key/value container with text keys.
    Dict(Seq<(Seq<u8>, ValueModel)>),
}

/// A classified element value, as executable data.
pub enum Value {
    /// The JSON null.
    Null,
    /// A boolean.
    Bool(bool),
    /// A 64-bit signed integer.
    Int(i64),
    /// Text, as UTF-8 bytes.
    Str(Vec<u8>),
    /// Text from a subtype of the host string type; serialized as `Str`.
    StrSubclass(Vec<u8>),
    /// A pre-serialized JSON value, inlined verbatim.
    Fragment(Vec<u8>),
    /// A mutable-length sequence container.
    List(Vec<Value>),
    /// A fixed-length sequence container.
    Tuple(Vec<Value>),
    /// A key/value container with text keys.
    Dict(Vec<(Vec<u8>, Value)>),
}

/// The models of a sequence of values, in order.
pub open spec fn seq_model(es: Seq<Value>) -> Seq<ValueModel>
    decreases es,
{
    if es.len() == 0 {
        Seq::empty()
    } else {
        seq![es[0]@] + seq_model(es.drop_first())
    }
}

/// The models of a sequence of key/value entries, in order.
pub open spec fn entries_model(kvs: Seq<(Vec<u8>, Value)>) -> Seq<(Seq<u8>, ValueModel)>
    decreases kvs,
{
    if kvs.len() == 0 {
        Seq::empty()
    } else {
        seq![(kvs[0].0@, kvs[0].1@)] + entries_model(kvs.drop_first())
    }
}

impl View for Value {
    type V = ValueModel;

    open spec fn view(&self) -> ValueModel
        decreases self,
    {
        match self {
            Value::Null => ValueModel::Null,
            Value::Bool(b) => ValueModel::Bool(*b),
            Value::Int(i) => ValueModel::Int(*i as int),
            Value::Str(s) => ValueModel::Str(s@),
            Value::StrSubclass(s) => ValueModel::StrSubclass(s@),
            Value::Fragment(f) => ValueModel::Fragment(f@),
            Value::List(es) => ValueModel::List(seq_model(es@)),
            Value::Tuple(es) => ValueModel::Tuple(seq_model(es@)),
            Value::Dict(kvs) => ValueModel::Dict(entries_model(kvs@)),
        }
    }
}

/// `seq_model` maps the sequence pointwise: same length, the model of the
/// element at every index.
pub proof fn lemma_seq_model_index(es: Seq<Value>)
    ensures
        seq_model(es).len() == es.len(),
        forall|i: int| 0 <= i < es.len() ==> seq_model(es)[i] == #[trigger] es[i]@,
    decreases es,
{
    if es.len() > 0 {
        lemma_seq_model_index(es.drop_first());
        assert(seq_model(es) == seq![es[0]@] + seq_model(es.drop_first()));
        assert forall|i: int| 0 <= i < es.len() implies seq_model(es)[i] == #[trigger] es[i]@ by {
            if i > 0 {
                assert(es.drop_first()[i - 1] == es[i]);
                assert(seq_model(es)[i] == seq_model(es.drop_first())[i - 1]);
            }
        }
    }
}

/// `entries_model` maps the entries pointwise.
pub proof fn lemma_entries_model_index(kvs: Seq<(Vec<u8>, Value)>)
    ensures
        entries_model(kvs).len() == kvs.len(),
        forall|i: int|
            0 <= i < kvs.len() ==> entries_model(kvs)[i] == (#[trigger] kvs[i].0@, kvs[i].1@),
    decreases kvs,
{
    if kvs.len() > 0 {
        lemma_entries_model_index(kvs.drop_first());
        assert(entries_model(kvs) == seq![(kvs[0].0@, kvs[0].1@)] + entries_model(kvs.drop_first()));
        assert forall|i: int|
            0 <= i < kvs.len() implies entries_model(kvs)[i] == (
        #[trigger] kvs[i].0@,
        kvs[i].1@,
        ) by {
            if i > 0 {
                assert(kvs.drop_first()[i - 1] == kvs[i]);
                assert(entries_model(kvs)[i] == entries_model(kvs.drop_first())[i - 1]);
            }
        }
    }
}

/// Copies a byte vector.
fn clone_bytes(s: &Vec<u8>) -> (r: Vec<u8>)
    ensures
        r@ == s@,
{
    let mut r: Vec<u8> = Vec::new();
    let mut i: usize = 0;
    while i < s.len()
        invariant
            i <= s.len(),
            r@ == s@.take(i as int),
        decreases s.len() - i,
    {
        r.push(s[i]);
        proof {
            assert(s@.take(i + 1 as int) =~= s@.take(i as int).push(s@[i as int]));
        }
        i = i + 1;
    }
    proof {
        assert(s@.take(s@.len() as int) =~= s@);
    }
    r
}

/// Deep-copies the elements of a sequence container: the copy has the same
/// model, element by element.
pub(crate) fn clone_elems(es: &Vec<Value>) -> (r: Vec<Value>)
    ensures
        seq_model(r@) == seq_model(es@),
    decreases es,
{
    let mut r: Vec<Value> = Vec::new();
    let mut i: usize = 0;
    while i < es.len()
        invariant
            i <= es.len(),
            r@.len() == i,
            forall|j: int| 0 <= j < i ==> #[trigger] r@[j]@ == es@[j]@,
        decreases es.len() - i,
    {
        let e = es[i].clone();
        r.push(e);
        i = i + 1;
    }
    proof {
        lemma_seq_model_index(r@);
        lemma_seq_model_index(es@);
        assert forall|j: int| 0 <= j < es@.len() implies seq_model(r@)[j] == seq_model(es@)[j] by {
            assert(seq_model(r@)[j] == r@[j]@);
            assert(seq_model(es@)[j] == es@[j]@);
        }
        assert(seq_model(r@) =~= seq_model(es@));
    }
    r
}

/// Deep-copies the entries of a key/value container.
fn clone_entries(kvs: &Vec<(Vec<u8>, Value)>) -> (r: Vec<(Vec<u8>, Value)>)
    ensures
        entries_model(r@) == entries_model(kvs@),
    decreases kvs,
{
    let mut r: Vec<(Vec<u8>, Value)> = Vec::new();
    let mut i: usize = 0;
    while i < kvs.len()
        invariant
            i <= kvs.len(),
            r@.len() == i,
            forall|j: int|
                0 <= j < i ==> #[trigger] r@[j].0@ == kvs@[j].0@ && r@[j].1@ == kvs@[j].1@,
        decreases kvs.len() - i,
    {
        let k = clone_bytes(&kvs[i].0);
        let v = kvs[i].1.clone();
        r.push((k, v));
        i = i + 1;
    }
    proof {
        lemma_entries_model_index(r@);
        lemma_entries_model_index(kvs@);
        assert forall|j: int|
            0 <= j < kvs@.len() implies entries_model(r@)[j] == entries_model(kvs@)[j] by {
            assert(entries_model(r@)[j] == (r@[j].0@, r@[j].1@));
            assert(entries_model(kvs@)[j] == (kvs@[j].0@, kvs@[j].1@));
        }
        assert(entries_model(r@) =~= entries_model(kvs@));
    }
    r
}

impl Clone for Value {
    /// A deep copy with the same model.
    fn clone(&self) -> (r: Self)
        ensures
            r@ == self@,
        decreases self,
    {
        match self {
            Value::Null => Value::Null,
            Value::Bool(b) => Value::Bool(*b),
            Value::Int(i) => Value::Int(*i),
            Value::Str(s) => Value::Str(clone_bytes(s)),
            Value::StrSubclass(s) => Value::StrSubclass(clone_bytes(s)),
            Value::Fragment(f) => Value::Fragment(clone_bytes(f)),
            Value::List(es) => Value::List(clone_elems(es)),
            Value::Tuple(es) => Value::Tuple(clone_elems(es)),
            Value::Dict(kvs) => Value::Dict(clone_entries(kvs)),
        }
    }
}

} // verus!
