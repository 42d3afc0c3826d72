//! The recursive container-serialization engine: walks a sequence or
//! mapping container depth-first, dispatches every element on its
//! classified kind, and appends the container's JSON form to a
//! caller-owned byte sink.
//!
//! Construction descends: building a serializer for a container costs one
//! nesting level, and `serialize` rejects a container whose level is past
//! the configured limit before touching any element. A zero-length
//! container, nested at any level, is emitted by the fixed two-byte
//! shortcut without descending.

use vstd::prelude::*;
use crate::error::SerializeError;
use crate::state::SerializerState;
use crate::value::{Value, ValueModel, seq_model, entries_model, lemma_seq_model_index, lemma_entries_model_index};
use crate::json::{
    json_bytes, elems_bytes, entries_bytes, entry_bytes, string_bytes, elem_ok, elems_ok,
    entries_ok, lemma_elems_bytes_push, lemma_entries_bytes_push, lemma_elems_ok_iff,
    lemma_entries_ok_iff,
};
use crate::emit::{write_null, write_bool, write_int, write_string, write_verbatim};

verus! {

/// A sequence is a prefix of itself followed by anything.
proof fn lemma_append_is_prefix(a: Seq<u8>, b: Seq<u8>)
    ensures
        a.is_prefix_of(a + b),
{
    assert(a =~= (a + b).subrange(0, a.len() as int));
}

/// Being a prefix is transitive.
proof fn lemma_prefix_trans(a: Seq<u8>, b: Seq<u8>, c: Seq<u8>)
    requires
        a.is_prefix_of(b),
        b.is_prefix_of(c),
    ensures
        a.is_prefix_of(c),
{
    assert forall|i: int| 0 <= i < a.len() implies a[i] == c.subrange(0, a.len() as int)[i] by {
        assert(a[i] == b.subrange(0, a.len() as int)[i]);
        assert(b[i] == c.subrange(0, b.len() as int)[i]);
    }
    assert(a =~= c.subrange(0, a.len() as int));
}

/// The serializer for a zero-length sequence container: its whole output
/// is the fixed two-byte form, with no element access and no allocation.
pub struct ZeroListSerializer;

impl ZeroListSerializer {
    /// Builds the zero-length serializer.
    pub fn new() -> (s: Self) {
        ZeroListSerializer
    }

    /// Appends exactly the two bytes of the empty JSON array.
    pub fn serialize(&self, out: &mut Vec<u8>)
        ensures
            final(out)@ == old(out)@ + seq![0x5bu8, 0x5du8],
    {
        out.push(0x5b);
        out.push(0x5d);
        proof {
            assert(out@ =~= old(out)@ + seq![0x5bu8, 0x5du8]);
        }
    }
}

/// Serializes one already-classified element of a container sitting at
/// nesting level `state.depth`, appending exactly that element's JSON
/// form. A nested non-empty container costs one more level; if that level
/// is past the limit the walk fails before any of its elements is touched.
pub fn write_value(v: &Value, state: SerializerState, out: &mut Vec<u8>) -> (r: Result<
    (),
    SerializeError,
>)
    requires
        state.depth <= state.limit,
    ensures
        r is Ok <==> elem_ok(v@, state.depth as nat, state.limit as nat),
        r is Ok ==> final(out)@ == old(out)@ + json_bytes(v@),
        r is Err ==> r == Err::<(), SerializeError>(SerializeError::RecursionLimit),
        old(out)@.is_prefix_of(final(out)@),
    decreases v, 0int,
{
    match v {
        Value::Null => {
            write_null(out);
            proof {
                lemma_append_is_prefix(old(out)@, json_bytes(v@));
            }
            Ok(())
        },
        Value::Bool(b) => {
            write_bool(out, *b);
            proof {
                lemma_append_is_prefix(old(out)@, json_bytes(v@));
            }
            Ok(())
        },
        Value::Int(i) => {
            write_int(out, *i);
            proof {
                lemma_append_is_prefix(old(out)@, json_bytes(v@));
            }
            Ok(())
        },
        Value::Str(s) => {
            write_string(out, s);
            proof {
                lemma_append_is_prefix(old(out)@, json_bytes(v@));
            }
            Ok(())
        },
        Value::StrSubclass(s) => {
            write_string(out, s);
            proof {
                lemma_append_is_prefix(old(out)@, json_bytes(v@));
            }
            Ok(())
        },
        Value::Fragment(f) => {
            write_verbatim(out, f);
            proof {
                lemma_append_is_prefix(old(out)@, json_bytes(v@));
            }
            Ok(())
        },
        Value::List(es) => write_nested_seq(es, state, out, Ghost(v@)),
        Value::Tuple(es) => write_nested_seq(es, state, out, Ghost(v@)),
        Value::Dict(kvs) => {
            if kvs.len() == 0 {
                out.push(0x7b);
                out.push(0x7d);
                proof {
                    lemma_entries_model_index(kvs@);
                    assert(json_bytes(v@) =~= seq![0x7bu8, 0x7du8]);
                    assert(out@ =~= old(out)@ + json_bytes(v@));
                    lemma_append_is_prefix(old(out)@, json_bytes(v@));
                }
                Ok(())
            } else if state.depth >= state.limit {
                proof {
                    lemma_entries_model_index(kvs@);
                    assert(!elem_ok(v@, state.depth as nat, state.limit as nat));
                    assert(old(out)@ =~= out@.subrange(0, old(out)@.len() as int));
                }
                Err(SerializeError::RecursionLimit)
            } else {
                let st = state.copy_for_recursive_call();
                out.push(0x7b);
                let ghost pre = out@;
                proof {
                    assert(pre =~= old(out)@ + seq![0x7bu8]);
                    lemma_append_is_prefix(old(out)@, seq![0x7bu8]);
                    lemma_entries_model_index(kvs@);
                }
                let res = write_entries(kvs, st, out);
                match res {
                    Ok(()) => {
                        out.push(0x7d);
                        proof {
                            assert(out@ =~= old(out)@ + json_bytes(v@));
                            lemma_append_is_prefix(old(out)@, json_bytes(v@));
                        }
                        Ok(())
                    },
                    Err(e) => {
                        proof {
                            lemma_prefix_trans(old(out)@, pre, out@);
                        }
                        Err(e)
                    },
                }
            }
        },
    }
}

/// Serializes a non-scalar sequence element: the zero-length shortcut for
/// an empty one, otherwise one more nesting level. `model` is the model of
/// the whole element, a list or tuple whose elements are `es`'s.
fn write_nested_seq(es: &Vec<Value>, state: SerializerState, out: &mut Vec<u8>, model: Ghost<
    ValueModel,
>) -> (r: Result<(), SerializeError>)
    requires
        state.depth <= state.limit,
        model@ == ValueModel::List(seq_model(es@)) || model@ == ValueModel::Tuple(seq_model(es@)),
    ensures
        r is Ok <==> elem_ok(model@, state.depth as nat, state.limit as nat),
        r is Ok ==> final(out)@ == old(out)@ + json_bytes(model@),
        r is Err ==> r == Err::<(), SerializeError>(SerializeError::RecursionLimit),
        old(out)@.is_prefix_of(final(out)@),
    decreases es, 1int,
{
    if es.len() == 0 {
        ZeroListSerializer::new().serialize(out);
        proof {
            lemma_seq_model_index(es@);
            assert(json_bytes(model@) =~= seq![0x5bu8, 0x5du8]);
            assert(out@ =~= old(out)@ + json_bytes(model@));
            lemma_append_is_prefix(old(out)@, json_bytes(model@));
        }
        Ok(())
    } else if state.depth >= state.limit {
        proof {
            lemma_seq_model_index(es@);
            assert(!elem_ok(model@, state.depth as nat, state.limit as nat));
            assert(old(out)@ =~= out@.subrange(0, old(out)@.len() as int));
        }
        Err(SerializeError::RecursionLimit)
    } else {
        let st = state.copy_for_recursive_call();
        out.push(0x5b);
        let ghost pre = out@;
        proof {
            assert(pre =~= old(out)@ + seq![0x5bu8]);
            lemma_append_is_prefix(old(out)@, seq![0x5bu8]);
            lemma_seq_model_index(es@);
        }
        let res = write_elems(es, st, out);
        match res {
            Ok(()) => {
                out.push(0x5d);
                proof {
                    assert(out@ =~= old(out)@ + json_bytes(model@));
                    lemma_append_is_prefix(old(out)@, json_bytes(model@));
                }
                Ok(())
            },
            Err(e) => {
                proof {
                    lemma_prefix_trans(old(out)@, pre, out@);
                }
                Err(e)
            },
        }
    }
}

/// Serializes the elements of a sequence container sitting at nesting
/// level `state.depth`, in index order, separated by single commas. Fails
/// exactly when some element needs a level past the limit, and then
/// appends nothing after the failing point.
pub fn write_elems(items: &Vec<Value>, state: SerializerState, out: &mut Vec<u8>) -> (r: Result<
    (),
    SerializeError,
>)
    requires
        state.depth <= state.limit,
    ensures
        r is Ok <==> elems_ok(seq_model(items@), state.depth as nat, state.limit as nat),
        r is Ok ==> final(out)@ == old(out)@ + elems_bytes(seq_model(items@)),
        r is Err ==> r == Err::<(), SerializeError>(SerializeError::RecursionLimit),
        old(out)@.is_prefix_of(final(out)@),
    decreases items, 0int,
{
    proof {
        lemma_seq_model_index(items@);
    }
    let ghost m = seq_model(items@);
    let mut idx: usize = 0;
    while idx < items.len()
        invariant
            state.depth <= state.limit,
            idx <= items.len(),
            m == seq_model(items@),
            m.len() == items@.len(),
            forall|j: int| 0 <= j < items@.len() ==> m[j] == #[trigger] items@[j]@,
            forall|j: int|
                0 <= j < idx ==> elem_ok(#[trigger] m[j], state.depth as nat, state.limit as nat),
            out@ == old(out)@ + elems_bytes(m.take(idx as int)),
        decreases items.len() - idx,
    {
        proof {
            lemma_append_is_prefix(old(out)@, elems_bytes(m.take(idx as int)));
        }
        if idx > 0 {
            out.push(0x2c);
            proof {
                assert(out@ =~= old(out)@ + (elems_bytes(m.take(idx as int)) + seq![0x2cu8]));
                lemma_append_is_prefix(
                    old(out)@,
                    elems_bytes(m.take(idx as int)) + seq![0x2cu8],
                );
            }
        }
        let ghost pre = out@;
        let res = write_value(&items[idx], state, out);
        if let Err(e) = res {
            proof {
                assert(!elem_ok(m[idx as int], state.depth as nat, state.limit as nat));
                lemma_elems_ok_iff(m, state.depth as nat, state.limit as nat);
                assert(!elems_ok(m, state.depth as nat, state.limit as nat));
                lemma_prefix_trans(old(out)@, pre, out@);
            }
            return Err(e);
        }
        proof {
            lemma_elems_bytes_push(m.take(idx as int), m[idx as int]);
            assert(m.take(idx as int).push(m[idx as int]) =~= m.take(idx + 1 as int));
            assert(out@ =~= old(out)@ + elems_bytes(m.take(idx + 1 as int)));
        }
        idx = idx + 1;
    }
    proof {
        assert(m.take(items@.len() as int) =~= m);
        lemma_elems_ok_iff(m, state.depth as nat, state.limit as nat);
        lemma_append_is_prefix(old(out)@, elems_bytes(m));
    }
    Ok(())
}

/// Serializes the entries of a key/value container sitting at nesting
/// level `state.depth`, in order: each key as a JSON string, a colon, the
/// entry's value, entries separated by single commas.
pub fn write_entries(kvs: &Vec<(Vec<u8>, Value)>, state: SerializerState, out: &mut Vec<u8>) -> (r:
    Result<(), SerializeError>)
    requires
        state.depth <= state.limit,
    ensures
        r is Ok <==> entries_ok(entries_model(kvs@), state.depth as nat, state.limit as nat),
        r is Ok ==> final(out)@ == old(out)@ + entries_bytes(entries_model(kvs@)),
        r is Err ==> r == Err::<(), SerializeError>(SerializeError::RecursionLimit),
        old(out)@.is_prefix_of(final(out)@),
    decreases kvs, 0int,
{
    proof {
        lemma_entries_model_index(kvs@);
    }
    let ghost m = entries_model(kvs@);
    let mut idx: usize = 0;
    while idx < kvs.len()
        invariant
            state.depth <= state.limit,
            idx <= kvs.len(),
            m == entries_model(kvs@),
            m.len() == kvs@.len(),
            forall|j: int|
                0 <= j < kvs@.len() ==> m[j] == (#[trigger] kvs@[j].0@, kvs@[j].1@),
            forall|j: int|
                0 <= j < idx ==> elem_ok(
                    (#[trigger] m[j]).1,
                    state.depth as nat,
                    state.limit as nat,
                ),
            out@ == old(out)@ + entries_bytes(m.take(idx as int)),
        decreases kvs.len() - idx,
    {
        proof {
            lemma_append_is_prefix(old(out)@, entries_bytes(m.take(idx as int)));
        }
        if idx > 0 {
            out.push(0x2c);
            proof {
                assert(out@ =~= old(out)@ + (entries_bytes(m.take(idx as int)) + seq![0x2cu8]));
                lemma_append_is_prefix(
                    old(out)@,
                    entries_bytes(m.take(idx as int)) + seq![0x2cu8],
                );
            }
        }
        let ghost before_entry = out@;
        write_string(out, &kvs[idx].0);
        out.push(0x3a);
        proof {
            assert(out@ =~= before_entry + (string_bytes(kvs@[idx as int].0@) + seq![0x3au8]));
            lemma_append_is_prefix(before_entry, string_bytes(kvs@[idx as int].0@) + seq![0x3au8]);
            lemma_prefix_trans(old(out)@, before_entry, out@);
        }
        let ghost pre = out@;
        let res = write_value(&kvs[idx].1, state, out);
        if let Err(e) = res {
            proof {
                assert(!elem_ok(m[idx as int].1, state.depth as nat, state.limit as nat));
                lemma_entries_ok_iff(m, state.depth as nat, state.limit as nat);
                assert(!entries_ok(m, state.depth as nat, state.limit as nat));
                lemma_prefix_trans(old(out)@, pre, out@);
            }
            return Err(e);
        }
        proof {
            lemma_entries_bytes_push(m.take(idx as int), m[idx as int]);
            assert(m.take(idx as int).push(m[idx as int]) =~= m.take(idx + 1 as int));
            assert(entry_bytes(m[idx as int]) == string_bytes(kvs@[idx as int].0@) + seq![0x3au8]
                + json_bytes(m[idx as int].1));
            assert(out@ =~= old(out)@ + entries_bytes(m.take(idx + 1 as int)));
        }
        idx = idx + 1;
    }
    proof {
        assert(m.take(kvs@.len() as int) =~= m);
        lemma_entries_ok_iff(m, state.depth as nat, state.limit as nat);
        lemma_append_is_prefix(old(out)@, entries_bytes(m));
    }
    Ok(())
}

/// The serializer for one sequence container, of either concrete shape:
/// it holds an owned snapshot of the container's elements, taken at
/// construction, and the state whose depth already counts this
/// container's nesting level (recursion descends through the
/// constructor). Serializing appends the container's whole JSON array
/// form, or fails with the recursion-limit error before touching any
/// element when the level is past the limit.
///
/// Because the elements are snapshotted, mutating the source container
/// after construction cannot change what `serialize` emits: the output
/// always reflects the container as it was when the serializer was built.
/// Every snapshotted element is owned by the serializer and released with
/// it, on success and failure paths alike.
pub struct ListTupleSerializer {
    items: Vec<Value>,
    state: SerializerState,
}

impl ListTupleSerializer {
    /// The models of the snapshotted elements, in index order.
    pub closed spec fn elems(&self) -> Seq<ValueModel> {
        seq_model(self.items@)
    }

    /// The serializer's state; its depth counts this container's level.
    pub closed spec fn state_of(&self) -> SerializerState {
        self.state
    }

    /// Builds a serializer for a mutable-length container by snapshotting
    /// its elements under the source borrow.
    pub fn from_list(src: &Vec<Value>, state: SerializerState) -> (s: Self)
        requires
            state.depth < u32::MAX,
        ensures
            s.elems() == seq_model(src@),
            s.state_of().opts == state.opts,
            s.state_of().limit == state.limit,
            s.state_of().depth == state.depth + 1,
    {
        ListTupleSerializer {
            items: crate::value::clone_elems(src),
            state: state.copy_for_recursive_call(),
        }
    }

    /// Builds a serializer for a fixed-length container. The two shapes
    /// serialize identically; they differ only in how the host runtime
    /// stores their elements, which the snapshot normalizes away.
    pub fn from_tuple(src: &Vec<Value>, state: SerializerState) -> (s: Self)
        requires
            state.depth < u32::MAX,
        ensures
            s.elems() == seq_model(src@),
            s.state_of().opts == state.opts,
            s.state_of().limit == state.limit,
            s.state_of().depth == state.depth + 1,
    {
        ListTupleSerializer {
            items: crate::value::clone_elems(src),
            state: state.copy_for_recursive_call(),
        }
    }

    /// Appends the JSON array form of the snapshotted container to `out`.
    ///
    /// Succeeds exactly when this container's level is within the limit
    /// and every element serializes within it; then the output is the
    /// open bracket, the elements in index order separated by single
    /// commas, and the close bracket. When the level itself is past the
    /// limit, fails before writing anything. Any failure is the
    /// recursion-limit error, and the call only ever appends.
    pub fn serialize(&self, out: &mut Vec<u8>) -> (r: Result<(), SerializeError>)
        ensures
            r is Ok <==> (self.state_of().depth <= self.state_of().limit && elems_ok(
                self.elems(),
                self.state_of().depth as nat,
                self.state_of().limit as nat,
            )),
            r is Ok ==> final(out)@ == old(out)@ + seq![0x5bu8] + elems_bytes(self.elems())
                + seq![0x5du8],
            r is Err ==> r == Err::<(), SerializeError>(SerializeError::RecursionLimit),
            self.state_of().depth > self.state_of().limit ==> *final(out) == *old(out),
            old(out)@.is_prefix_of(final(out)@),
    {
        if self.state.recursion_limit() {
            proof {
                assert(old(out)@ =~= out@.subrange(0, old(out)@.len() as int));
            }
            return Err(SerializeError::RecursionLimit);
        }
        if self.items.len() == 0 {
            ZeroListSerializer::new().serialize(out);
            proof {
                lemma_seq_model_index(self.items@);
                assert(elems_bytes(self.elems()) == Seq::<u8>::empty());
                assert(out@ =~= old(out)@ + seq![0x5bu8] + elems_bytes(self.elems())
                    + seq![0x5du8]);
                lemma_append_is_prefix(old(out)@, seq![0x5bu8, 0x5du8]);
            }
            return Ok(());
        }
        out.push(0x5b);
        let ghost pre = out@;
        proof {
            assert(pre =~= old(out)@ + seq![0x5bu8]);
            lemma_append_is_prefix(old(out)@, seq![0x5bu8]);
        }
        let res = write_elems(&self.items, self.state, out);
        match res {
            Ok(()) => {
                out.push(0x5d);
                proof {
                    assert(out@ =~= old(out)@ + seq![0x5bu8] + elems_bytes(self.elems())
                        + seq![0x5du8]);
                    lemma_prefix_trans(old(out)@, pre, out@);
                }
                Ok(())
            },
            Err(e) => {
                proof {
                    lemma_prefix_trans(old(out)@, pre, out@);
                }
                Err(e)
            },
        }
    }
}

/// The exclusive-owner-mode serializer for one sequence container: a
/// borrowed, un-copied view straight over the container's backing
/// storage. No element is copied and no ownership changes hands, which is
/// correct only because the borrow rules guarantee the container cannot
/// be structurally mutated while this serializer exists — the same
/// guarantee the host runtime gives in that mode. Where concurrent
/// mutation is possible, use the snapshotting `ListTupleSerializer`
/// instead.
pub struct BorrowedListSerializer<'a> {
    items: &'a Vec<Value>,
    state: SerializerState,
}

impl<'a> BorrowedListSerializer<'a> {
    /// The models of the borrowed elements, in index order.
    pub closed spec fn elems(&self) -> Seq<ValueModel> {
        seq_model(self.items@)
    }

    /// The serializer's state; its depth counts this container's level.
    pub closed spec fn state_of(&self) -> SerializerState {
        self.state
    }

    /// Builds a serializer over a mutable-length container's storage.
    pub fn from_list(src: &'a Vec<Value>, state: SerializerState) -> (s: Self)
        requires
            state.depth < u32::MAX,
        ensures
            s.elems() == seq_model(src@),
            s.state_of().opts == state.opts,
            s.state_of().limit == state.limit,
            s.state_of().depth == state.depth + 1,
    {
        BorrowedListSerializer { items: src, state: state.copy_for_recursive_call() }
    }

    /// Builds a serializer over a fixed-length container's storage.
    pub fn from_tuple(src: &'a Vec<Value>, state: SerializerState) -> (s: Self)
        requires
            state.depth < u32::MAX,
        ensures
            s.elems() == seq_model(src@),
            s.state_of().opts == state.opts,
            s.state_of().limit == state.limit,
            s.state_of().depth == state.depth + 1,
    {
        BorrowedListSerializer { items: src, state: state.copy_for_recursive_call() }
    }

    /// Appends the JSON array form of the borrowed container to `out`,
    /// under the same contract as the snapshotting serializer.
    pub fn serialize(&self, out: &mut Vec<u8>) -> (r: Result<(), SerializeError>)
        ensures
            r is Ok <==> (self.state_of().depth <= self.state_of().limit && elems_ok(
                self.elems(),
                self.state_of().depth as nat,
                self.state_of().limit as nat,
            )),
            r is Ok ==> final(out)@ == old(out)@ + seq![0x5bu8] + elems_bytes(self.elems())
                + seq![0x5du8],
            r is Err ==> r == Err::<(), SerializeError>(SerializeError::RecursionLimit),
            self.state_of().depth > self.state_of().limit ==> *final(out) == *old(out),
            old(out)@.is_prefix_of(final(out)@),
    {
        if self.state.recursion_limit() {
            proof {
                assert(old(out)@ =~= out@.subrange(0, old(out)@.len() as int));
            }
            return Err(SerializeError::RecursionLimit);
        }
        if self.items.len() == 0 {
            ZeroListSerializer::new().serialize(out);
            proof {
                lemma_seq_model_index(self.items@);
                assert(elems_bytes(self.elems()) == Seq::<u8>::empty());
                assert(out@ =~= old(out)@ + seq![0x5bu8] + elems_bytes(self.elems())
                    + seq![0x5du8]);
                lemma_append_is_prefix(old(out)@, seq![0x5bu8, 0x5du8]);
            }
            return Ok(());
        }
        out.push(0x5b);
        let ghost pre = out@;
        proof {
            assert(pre =~= old(out)@ + seq![0x5bu8]);
            lemma_append_is_prefix(old(out)@, seq![0x5bu8]);
        }
        let res = write_elems(self.items, self.state, out);
        match res {
            Ok(()) => {
                out.push(0x5d);
                proof {
                    assert(out@ =~= old(out)@ + seq![0x5bu8] + elems_bytes(self.elems())
                        + seq![0x5du8]);
                    lemma_prefix_trans(old(out)@, pre, out@);
                }
                Ok(())
            },
            Err(e) => {
                proof {
                    lemma_prefix_trans(old(out)@, pre, out@);
                }
                Err(e)
            },
        }
    }
}

} // verus!
