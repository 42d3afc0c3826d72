//! Properties of the engine that relate several of its spec functions:
//! the empty-container form, the shape of a serialized container, which
//! containers of scalars always serialize, and the exact boundary of the
//! recursion limit.

use vstd::prelude::*;
use crate::value::ValueModel;
use crate::json::{
    json_bytes, elems_bytes, elem_ok, elems_ok, entries_ok, lemma_elems_ok_iff,
};

verus! {

/// A sequence container of length zero, of either concrete shape, encodes
/// to exactly the two bytes of the empty JSON array.
pub proof fn lemma_empty_container_bytes(v: ValueModel)
    requires
        (v matches ValueModel::List(es) && es.len() == 0) || (v matches ValueModel::Tuple(es)
            && es.len() == 0),
    ensures
        json_bytes(v) == seq![0x5bu8, 0x5du8],
{
    assert(json_bytes(v) =~= seq![0x5bu8, 0x5du8]);
}

/// Whether a value is a directly-supported scalar: one that is not itself
/// a container, so serializing it never descends.
pub open spec fn is_scalar(v: ValueModel) -> bool {
    match v {
        ValueModel::List(_) => false,
        ValueModel::Tuple(_) => false,
        ValueModel::Dict(_) => false,
        _ => true,
    }
}

/// A container holding only scalars serializes at every level within the
/// limit, whatever its length.
pub proof fn lemma_scalars_ok(es: Seq<ValueModel>, level: nat, limit: nat)
    requires
        forall|i: int| 0 <= i < es.len() ==> is_scalar(#[trigger] es[i]),
    ensures
        elems_ok(es, level, limit),
{
    lemma_elems_ok_iff(es, level, limit);
    assert forall|i: int| 0 <= i < es.len() implies elem_ok(#[trigger] es[i], level, limit) by {
        assert(is_scalar(es[i]));
    }
}

/// The comma-separated join of already-encoded parts: no comma before the
/// first part, one between neighbours, none after the last.
pub open spec fn comma_joined(parts: Seq<Seq<u8>>) -> Seq<u8>
    decreases parts.len(),
{
    if parts.len() == 0 {
        Seq::empty()
    } else if parts.len() == 1 {
        parts[0]
    } else {
        parts[0] + seq![0x2cu8] + comma_joined(parts.drop_first())
    }
}

/// A serialized container's element bytes are exactly the encodings of
/// its elements, one per element, in index order, joined by single
/// commas.
pub proof fn lemma_elems_bytes_is_join(es: Seq<ValueModel>)
    ensures
        elems_bytes(es) == comma_joined(es.map(|i: int, v: ValueModel| json_bytes(v))),
    decreases es.len(),
{
    let f = |i: int, v: ValueModel| json_bytes(v);
    if es.len() > 0 {
        lemma_elems_bytes_is_join(es.drop_first());
        assert(es.map(f).drop_first() =~= es.drop_first().map(f));
        assert(es.map(f)[0] == json_bytes(es[0]));
        if es.len() == 1 {
            assert(elems_bytes(es) == comma_joined(es.map(f)));
        } else {
            assert(comma_joined(es.map(f)) == es.map(f)[0] + seq![0x2cu8] + comma_joined(
                es.map(f).drop_first(),
            ));
        }
    } else {
        assert(es.map(f).len() == 0);
    }
}

/// How many levels below its own level a container element's walk may
/// descend: a scalar none, an empty nested container none (the
/// zero-length shortcut does not descend), a non-empty nested container
/// one more than its deepest element.
pub open spec fn elem_depth(v: ValueModel) -> nat
    decreases v, 0int,
{
    match v {
        ValueModel::List(es) => if es.len() == 0 {
            0
        } else {
            1 + elems_depth(es)
        },
        ValueModel::Tuple(es) => if es.len() == 0 {
            0
        } else {
            1 + elems_depth(es)
        },
        ValueModel::Dict(kvs) => if kvs.len() == 0 {
            0
        } else {
            1 + entries_depth(kvs)
        },
        _ => 0,
    }
}

/// The deepest descent any element of a sequence container requires.
pub open spec fn elems_depth(es: Seq<ValueModel>) -> nat
    decreases es, 1int,
{
    if es.len() == 0 {
        0
    } else if elem_depth(es[0]) >= elems_depth(es.drop_first()) {
        elem_depth(es[0])
    } else {
        elems_depth(es.drop_first())
    }
}

/// The deepest descent any entry value of a mapping requires.
pub open spec fn entries_depth(kvs: Seq<(Seq<u8>, ValueModel)>) -> nat
    decreases kvs, 1int,
{
    if kvs.len() == 0 {
        0
    } else if elem_depth(kvs[0].1) >= entries_depth(kvs.drop_first()) {
        elem_depth(kvs[0].1)
    } else {
        entries_depth(kvs.drop_first())
    }
}

/// One element serializes within the limit exactly when the levels it
/// descends to stay within it.
pub proof fn lemma_elem_ok_iff_depth(v: ValueModel, level: nat, limit: nat)
    requires
        level <= limit,
    ensures
        elem_ok(v, level, limit) <==> (elem_depth(v) == 0 || level + elem_depth(v) <= limit),
    decreases v, 0int,
{
    match v {
        ValueModel::List(es) => {
            if es.len() > 0 && level + 1 <= limit {
                lemma_elems_ok_iff_depth(es, (level + 1) as nat, limit);
            }
        },
        ValueModel::Tuple(es) => {
            if es.len() > 0 && level + 1 <= limit {
                lemma_elems_ok_iff_depth(es, (level + 1) as nat, limit);
            }
        },
        ValueModel::Dict(kvs) => {
            if kvs.len() > 0 && level + 1 <= limit {
                lemma_entries_ok_iff_depth(kvs, (level + 1) as nat, limit);
            }
        },
        _ => {},
    }
}

/// A sequence container's elements serialize within the limit exactly
/// when the deepest descent among them stays within it.
pub proof fn lemma_elems_ok_iff_depth(es: Seq<ValueModel>, level: nat, limit: nat)
    requires
        level <= limit,
    ensures
        elems_ok(es, level, limit) <==> (elems_depth(es) == 0 || level + elems_depth(es)
            <= limit),
    decreases es, 1int,
{
    if es.len() > 0 {
        lemma_elem_ok_iff_depth(es[0], level, limit);
        lemma_elems_ok_iff_depth(es.drop_first(), level, limit);
    }
}

/// A mapping's entry values serialize within the limit exactly when the
/// deepest descent among them stays within it.
pub proof fn lemma_entries_ok_iff_depth(kvs: Seq<(Seq<u8>, ValueModel)>, level: nat, limit: nat)
    requires
        level <= limit,
    ensures
        entries_ok(kvs, level, limit) <==> (entries_depth(kvs) == 0 || level + entries_depth(
            kvs,
        ) <= limit),
    decreases kvs, 1int,
{
    if kvs.len() > 0 {
        lemma_elem_ok_iff_depth(kvs[0].1, level, limit);
        lemma_entries_ok_iff_depth(kvs.drop_first(), level, limit);
    }
}

/// The recursion-limit boundary for a root container, which sits at
/// nesting level one: nesting to depth exactly the configured maximum
/// succeeds, while one level deeper fails, and an element walk never
/// fails for any other reason.
pub proof fn lemma_recursion_limit_boundary(es: Seq<ValueModel>, limit: nat)
    requires
        1 <= limit,
    ensures
        1 + elems_depth(es) <= limit ==> elems_ok(es, 1, limit),
        1 + elems_depth(es) > limit && elems_depth(es) > 0 ==> !elems_ok(es, 1, limit),
{
    lemma_elems_ok_iff_depth(es, 1, limit);
}

} // verus!
