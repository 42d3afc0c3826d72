//! The mathematical specification of the serializer's output and of its
//! success: which bytes a value's JSON form consists of, and when a walk
//! stays within the configured recursion limit.

use vstd::prelude::*;
use crate::value::ValueModel;

verus! {

/// The ASCII digit for one decimal digit value.
pub open spec fn dec_digit(d: nat) -> u8
    recommends
        d < 10,
{
    (0x30 + d) as u8
}

/// Decimal ASCII of a natural number, most significant digit first.
pub open spec fn dec_bytes(n: nat) -> Seq<u8>
    decreases n,
{
    if n < 10 {
        seq![dec_digit(n)]
    } else {
        dec_bytes(n / 10) + seq![dec_digit(n % 10)]
    }
}

/// Decimal ASCII of an integer, with a leading minus sign when negative.
pub open spec fn int_bytes(i: int) -> Seq<u8> {
    if i < 0 {
        seq![0x2du8] + dec_bytes((-i) as nat)
    } else {
        dec_bytes(i as nat)
    }
}

/// The ASCII hex digit, lower case, for a value below sixteen.
pub open spec fn hex_digit(d: nat) -> u8
    recommends
        d < 16,
{
    if d < 10 {
        (0x30 + d) as u8
    } else {
        (0x57 + d) as u8
    }
}

/// The JSON encoding of one byte of text: quote and backslash get a
/// two-byte escape, a control byte a six-byte unicode escape, and any
/// other byte passes through unchanged.
pub open spec fn escaped_byte(b: u8) -> Seq<u8> {
    if b == 0x22 {
        seq![0x5cu8, 0x22u8]
    } else if b == 0x5c {
        seq![0x5cu8, 0x5cu8]
    } else if b < 0x20 {
        seq![0x5cu8, 0x75u8, 0x30u8, 0x30u8, hex_digit((b / 16) as nat), hex_digit((b % 16) as nat)]
    } else {
        seq![b]
    }
}

/// The escaped form of a whole text, byte by byte.
pub open spec fn escaped_bytes(s: Seq<u8>) -> Seq<u8>
    decreases s.len(),
{
    if s.len() == 0 {
        Seq::empty()
    } else {
        escaped_byte(s[0]) + escaped_bytes(s.drop_first())
    }
}

/// The JSON string form of a text: the escaped bytes between two quotes.
pub open spec fn string_bytes(s: Seq<u8>) -> Seq<u8> {
    seq![0x22u8] + escaped_bytes(s) + seq![0x22u8]
}

/// The JSON bytes of one value.
pub open spec fn json_bytes(v: ValueModel) -> Seq<u8>
    decreases v,
{
    match v {
        ValueModel::Null => seq![0x6eu8, 0x75u8, 0x6cu8, 0x6cu8],
        ValueModel::Bool(b) => if b {
            seq![0x74u8, 0x72u8, 0x75u8, 0x65u8]
        } else {
            seq![0x66u8, 0x61u8, 0x6cu8, 0x73u8, 0x65u8]
        },
        ValueModel::Int(i) => int_bytes(i),
        ValueModel::Str(s) => string_bytes(s),
        ValueModel::StrSubclass(s) => string_bytes(s),
        ValueModel::Fragment(f) => f,
        ValueModel::List(es) => seq![0x5bu8] + elems_bytes(es) + seq![0x5du8],
        ValueModel::Tuple(es) => seq![0x5bu8] + elems_bytes(es) + seq![0x5du8],
        ValueModel::Dict(kvs) => seq![0x7bu8] + entries_bytes(kvs) + seq![0x7du8],
    }
}

/// The JSON bytes of a sequence container's elements, in index order,
/// separated by single commas: no leading, trailing or doubled comma.
pub open spec fn elems_bytes(es: Seq<ValueModel>) -> Seq<u8>
    decreases es,
{
    if es.len() == 0 {
        Seq::empty()
    } else if es.len() == 1 {
        json_bytes(es[0])
    } else {
        json_bytes(es[0]) + seq![0x2cu8] + elems_bytes(es.drop_first())
    }
}

/// The JSON bytes of one mapping entry: the key as a JSON string, a colon,
/// the value.
pub open spec fn entry_bytes(kv: (Seq<u8>, ValueModel)) -> Seq<u8>
    decreases kv,
{
    string_bytes(kv.0) + seq![0x3au8] + json_bytes(kv.1)
}

/// The JSON bytes of a mapping's entries, in order, separated by single
/// commas.
pub open spec fn entries_bytes(kvs: Seq<(Seq<u8>, ValueModel)>) -> Seq<u8>
    decreases kvs,
{
    if kvs.len() == 0 {
        Seq::empty()
    } else if kvs.len() == 1 {
        entry_bytes(kvs[0])
    } else {
        entry_bytes(kvs[0]) + seq![0x2cu8] + entries_bytes(kvs.drop_first())
    }
}

/// Whether one element of a container sitting at nesting level `level`
/// serializes within the recursion limit. A scalar never descends; an
/// empty nested container is emitted by the zero-length shortcut without
/// descending; a non-empty nested container needs one more level, which
/// must not pass `limit`.
pub open spec fn elem_ok(v: ValueModel, level: nat, limit: nat) -> bool
    decreases v,
{
    match v {
        ValueModel::List(es) => es.len() == 0 || (level + 1 <= limit && elems_ok(
            es,
            (level + 1) as nat,
            limit,
        )),
        ValueModel::Tuple(es) => es.len() == 0 || (level + 1 <= limit && elems_ok(
            es,
            (level + 1) as nat,
            limit,
        )),
        ValueModel::Dict(kvs) => kvs.len() == 0 || (level + 1 <= limit && entries_ok(
            kvs,
            (level + 1) as nat,
            limit,
        )),
        _ => true,
    }
}

/// Whether every element of a container at nesting level `level`
/// serializes within the recursion limit.
pub open spec fn elems_ok(es: Seq<ValueModel>, level: nat, limit: nat) -> bool
    decreases es,
{
    if es.len() == 0 {
        true
    } else {
        elem_ok(es[0], level, limit) && elems_ok(es.drop_first(), level, limit)
    }
}

/// Whether every entry value of a mapping at nesting level `level`
/// serializes within the recursion limit.
pub open spec fn entries_ok(kvs: Seq<(Seq<u8>, ValueModel)>, level: nat, limit: nat) -> bool
    decreases kvs,
{
    if kvs.len() == 0 {
        true
    } else {
        elem_ok(kvs[0].1, level, limit) && entries_ok(kvs.drop_first(), level, limit)
    }
}

/// Appending one element to a container appends that element's encoding,
/// after a separating comma when the container was not empty.
pub proof fn lemma_elems_bytes_push(es: Seq<ValueModel>, v: ValueModel)
    ensures
        es.len() == 0 ==> elems_bytes(es.push(v)) == json_bytes(v),
        es.len() > 0 ==> elems_bytes(es.push(v)) == elems_bytes(es) + seq![0x2cu8] + json_bytes(v),
    decreases es.len(),
{
    if es.len() == 0 {
        assert(es.push(v)[0] == v);
        assert(elems_bytes(es.push(v)) == json_bytes(v));
    } else {
        lemma_elems_bytes_push(es.drop_first(), v);
        assert(es.push(v).drop_first() =~= es.drop_first().push(v));
        assert(es.push(v)[0] == es[0]);
        assert(elems_bytes(es.push(v)) =~= elems_bytes(es) + seq![0x2cu8] + json_bytes(v));
    }
}

/// Appending one entry to a mapping appends that entry's encoding, after a
/// separating comma when the mapping was not empty.
pub proof fn lemma_entries_bytes_push(kvs: Seq<(Seq<u8>, ValueModel)>, kv: (Seq<u8>, ValueModel))
    ensures
        kvs.len() == 0 ==> entries_bytes(kvs.push(kv)) == entry_bytes(kv),
        kvs.len() > 0 ==> entries_bytes(kvs.push(kv)) == entries_bytes(kvs) + seq![0x2cu8]
            + entry_bytes(kv),
    decreases kvs.len(),
{
    if kvs.len() == 0 {
        assert(kvs.push(kv)[0] == kv);
        assert(entries_bytes(kvs.push(kv)) == entry_bytes(kv));
    } else {
        lemma_entries_bytes_push(kvs.drop_first(), kv);
        assert(kvs.push(kv).drop_first() =~= kvs.drop_first().push(kv));
        assert(kvs.push(kv)[0] == kvs[0]);
        assert(entries_bytes(kvs.push(kv)) =~= entries_bytes(kvs) + seq![0x2cu8] + entry_bytes(kv));
    }
}

/// Escaping a text one byte longer appends the escape of that byte.
pub proof fn lemma_escaped_bytes_push(s: Seq<u8>, b: u8)
    ensures
        escaped_bytes(s.push(b)) == escaped_bytes(s) + escaped_byte(b),
    decreases s.len(),
{
    if s.len() == 0 {
        assert(s.push(b)[0] == b);
        assert(s.push(b).drop_first() =~= s);
        assert(escaped_bytes(s.push(b)) =~= escaped_bytes(s) + escaped_byte(b));
    } else {
        lemma_escaped_bytes_push(s.drop_first(), b);
        assert(s.push(b).drop_first() =~= s.drop_first().push(b));
        assert(s.push(b)[0] == s[0]);
        assert(s.push(b).len() != 0);
        assert(escaped_bytes(s.push(b)) == escaped_byte(s[0]) + escaped_bytes(
            s.drop_first().push(b),
        ));
        assert(escaped_bytes(s.drop_first().push(b)) == escaped_bytes(s.drop_first())
            + escaped_byte(b));
        assert(escaped_bytes(s.push(b)) =~= escaped_bytes(s) + escaped_byte(b));
    }
}

/// A container's elements serialize within the limit exactly when each one
/// does.
pub proof fn lemma_elems_ok_iff(es: Seq<ValueModel>, level: nat, limit: nat)
    ensures
        elems_ok(es, level, limit) <==> (forall|i: int|
            0 <= i < es.len() ==> elem_ok(#[trigger] es[i], level, limit)),
    decreases es,
{
    if es.len() > 0 {
        lemma_elems_ok_iff(es.drop_first(), level, limit);
        if elems_ok(es, level, limit) {
            assert forall|i: int| 0 <= i < es.len() implies elem_ok(
                #[trigger] es[i],
                level,
                limit,
            ) by {
                if i > 0 {
                    assert(elem_ok(es.drop_first()[i - 1], level, limit));
                }
            }
        }
        if forall|i: int| 0 <= i < es.len() ==> elem_ok(#[trigger] es[i], level, limit) {
            assert forall|i: int| 0 <= i < es.drop_first().len() implies elem_ok(
                #[trigger] es.drop_first()[i],
                level,
                limit,
            ) by {
                assert(es.drop_first()[i] == es[i + 1]);
            }
            assert(elem_ok(es[0], level, limit));
        }
    }
}

/// A mapping's entry values serialize within the limit exactly when each
/// one does.
pub proof fn lemma_entries_ok_iff(kvs: Seq<(Seq<u8>, ValueModel)>, level: nat, limit: nat)
    ensures
        entries_ok(kvs, level, limit) <==> (forall|i: int|
            0 <= i < kvs.len() ==> elem_ok(#[trigger] kvs[i].1, level, limit)),
    decreases kvs,
{
    if kvs.len() > 0 {
        lemma_entries_ok_iff(kvs.drop_first(), level, limit);
        if entries_ok(kvs, level, limit) {
            assert forall|i: int| 0 <= i < kvs.len() implies elem_ok(
                #[trigger] kvs[i].1,
                level,
                limit,
            ) by {
                if i > 0 {
                    assert(elem_ok(kvs.drop_first()[i - 1].1, level, limit));
                }
            }
        }
        if forall|i: int| 0 <= i < kvs.len() ==> elem_ok(#[trigger] kvs[i].1, level, limit) {
            assert forall|i: int| 0 <= i < kvs.drop_first().len() implies elem_ok(
                #[trigger] kvs.drop_first()[i].1,
                level,
                limit,
            ) by {
                assert(kvs.drop_first()[i] == kvs[i + 1]);
            }
            assert(elem_ok(kvs[0].1, level, limit));
        }
    }
}

} // verus!
