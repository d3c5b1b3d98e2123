//! The three-level abstract-value lattice of the analysis, its meet
//! operator, the precision order, and the lattice laws.

use vstd::prelude::*;

verus! {

/// Abstract value of one register at one program point.
///
/// Precision order, high to low: `Unk` above `Const(c)` above `Nac`.
#[derive(Copy, Clone, PartialEq, Eq, Structural, Debug)]
pub enum Value {
    /// No information yet: the identity of `meet`, top of the lattice.
    Unk,
    /// Exactly this integer on every path observed so far.
    Const(i32),
    /// Differs across paths, or not known at compile time: absorbing.
    Nac,
}

/// Meet of two lattice values: the fact valid where the paths carrying
/// `x` and `y` join. Two equal constants stay that constant; `Unk` is
/// the identity; every other pairing is `Nac`.
pub open spec fn spec_meet(x: Value, y: Value) -> Value {
    match (x, y) {
        (Value::Const(a), Value::Const(b)) => if a == b {
            Value::Const(a)
        } else {
            Value::Nac
        },
        (v, Value::Unk) => v,
        (Value::Unk, v) => v,
        _ => Value::Nac,
    }
}

/// The precision order: `lat_le(x, y)` holds when `x` is at or below `y`,
/// that is, `x` carries the same fact as `y` or a strictly less precise one.
pub open spec fn lat_le(x: Value, y: Value) -> bool {
    match (x, y) {
        (_, Value::Unk) => true,
        (Value::Nac, _) => true,
        (Value::Const(a), Value::Const(b)) => a == b,
        _ => false,
    }
}

/// Height of a value in the lattice: `Unk` is 2, `Const` is 1, `Nac` is 0.
/// A strictly decreasing value loses at least one unit of rank, so no
/// register can strictly decrease more than twice.
pub open spec fn lat_rank(x: Value) -> nat {
    match x {
        Value::Unk => 2,
        Value::Const(_) => 1,
        Value::Nac => 0,
    }
}

/// Computes the meet of two abstract values.
pub fn meet(x: Value, y: Value) -> (r: Value)
    ensures
        r == spec_meet(x, y),
{
    match (x, y) {
        (Value::Const(a), Value::Const(b)) => if a == b {
            Value::Const(a)
        } else {
            Value::Nac
        },
        (v, Value::Unk) => v,
        (Value::Unk, v) => v,
        _ => Value::Nac,
    }
}

/// Law: meet is commutative.
pub proof fn lemma_meet_commutative(x: Value, y: Value)
    ensures
        spec_meet(x, y) == spec_meet(y, x),
{
}

/// Law: meet is associative.
pub proof fn lemma_meet_associative(x: Value, y: Value, z: Value)
    ensures
        spec_meet(spec_meet(x, y), z) == spec_meet(x, spec_meet(y, z)),
{
}

/// Law: meet is idempotent.
pub proof fn lemma_meet_idempotent(x: Value)
    ensures
        spec_meet(x, x) == x,
{
}

/// Law: `Unk` is the identity of meet.
pub proof fn lemma_meet_unk_identity(x: Value)
    ensures
        spec_meet(x, Value::Unk) == x,
        spec_meet(Value::Unk, x) == x,
{
}

/// Law: `Nac` absorbs under meet.
pub proof fn lemma_meet_nac_absorbing(x: Value)
    ensures
        spec_meet(x, Value::Nac) == Value::Nac,
        spec_meet(Value::Nac, x) == Value::Nac,
{
}

/// Law: the meet of two values sits at or below both, so taking a meet
/// never increases precision.
pub proof fn lemma_meet_lower(x: Value, y: Value)
    ensures
        lat_le(spec_meet(x, y), x),
        lat_le(spec_meet(x, y), y),
{
}

/// Law: meet is the greatest lower bound: anything below both `x` and `y`
/// is below their meet.
pub proof fn lemma_meet_greatest_lower(x: Value, y: Value, z: Value)
    requires
        lat_le(z, x),
        lat_le(z, y),
    ensures
        lat_le(z, spec_meet(x, y)),
{
}

/// The precision order is reflexive.
pub proof fn lemma_le_reflexive(x: Value)
    ensures
        lat_le(x, x),
{
}

/// The precision order is transitive.
pub proof fn lemma_le_transitive(x: Value, y: Value, z: Value)
    requires
        lat_le(x, y),
        lat_le(y, z),
    ensures
        lat_le(x, z),
{
}

/// The precision order is antisymmetric.
pub proof fn lemma_le_antisymmetric(x: Value, y: Value)
    requires
        lat_le(x, y),
        lat_le(y, x),
    ensures
        x == y,
{
}

/// Law: a strict decrease in the order strictly lowers the rank; with
/// ranks bounded by 2 this bounds every descending chain by length 3,
/// which is what makes the fixed-point iteration terminate.
pub proof fn lemma_le_rank(x: Value, y: Value)
    requires
        lat_le(x, y),
    ensures
        lat_rank(x) <= lat_rank(y),
        x != y ==> lat_rank(x) < lat_rank(y),
{
}

/// Pointwise precision order on whole state vectors.
pub open spec fn env_le(a: Seq<Value>, b: Seq<Value>) -> bool {
    &&& a.len() == b.len()
    &&& forall|i: int| 0 <= i < a.len() ==> lat_le(#[trigger] a[i], b[i])
}

/// The pointwise order on vectors is reflexive.
pub proof fn lemma_env_le_reflexive(a: Seq<Value>)
    ensures
        env_le(a, a),
{
}

/// The pointwise order on vectors is transitive.
pub proof fn lemma_env_le_transitive(a: Seq<Value>, b: Seq<Value>, c: Seq<Value>)
    requires
        env_le(a, b),
        env_le(b, c),
    ensures
        env_le(a, c),
{
    assert forall|i: int| 0 <= i < a.len() implies lat_le(#[trigger] a[i], c[i]) by {
        lemma_le_transitive(a[i], b[i], c[i]);
    }
}

/// Total rank of a state vector: the sum of its values' ranks.
pub open spec fn env_rank(a: Seq<Value>) -> nat
    decreases a.len(),
{
    if a.len() == 0 {
        0
    } else {
        lat_rank(a[0]) + env_rank(a.drop_first())
    }
}

/// A pointwise-lower vector has a rank no larger, and a strictly lower
/// one (lower somewhere) has a strictly smaller rank.
pub proof fn lemma_env_le_rank(a: Seq<Value>, b: Seq<Value>)
    requires
        env_le(a, b),
    ensures
        env_rank(a) <= env_rank(b),
        a != b ==> env_rank(a) < env_rank(b),
    decreases a.len(),
{
    if a.len() == 0 {
        assert(a =~= b);
    } else {
        assert(lat_le(a[0], b[0]));
        lemma_le_rank(a[0], b[0]);
        assert(env_le(a.drop_first(), b.drop_first())) by {
            assert forall|i: int| 0 <= i < a.drop_first().len() implies lat_le(
                #[trigger] a.drop_first()[i],
                b.drop_first()[i],
            ) by {
                assert(a.drop_first()[i] == a[i + 1]);
                assert(b.drop_first()[i] == b[i + 1]);
                assert(lat_le(a[i + 1], b[i + 1]));
            }
        }
        lemma_env_le_rank(a.drop_first(), b.drop_first());
        if a != b {
            if a[0] == b[0] {
                assert(a.drop_first() != b.drop_first()) by {
                    if a.drop_first() == b.drop_first() {
                        assert forall|i: int| 0 <= i < a.len() implies a[i] == b[i] by {
                            if i > 0 {
                                assert(a[i] == a.drop_first()[i - 1]);
                                assert(b[i] == b.drop_first()[i - 1]);
                            }
                        }
                        assert(a =~= b);
                    }
                }
            }
        }
    }
}

/// Pointwise precision order on the whole per-block table of vectors.
pub open spec fn flow_le(a: Seq<Seq<Value>>, b: Seq<Seq<Value>>) -> bool {
    &&& a.len() == b.len()
    &&& forall|i: int| 0 <= i < a.len() ==> env_le(#[trigger] a[i], b[i])
}

/// The pointwise order on tables is reflexive.
pub proof fn lemma_flow_le_reflexive(a: Seq<Seq<Value>>)
    ensures
        flow_le(a, a),
{
    assert forall|i: int| 0 <= i < a.len() implies env_le(#[trigger] a[i], a[i]) by {
        lemma_env_le_reflexive(a[i]);
    }
}

/// The pointwise order on tables is transitive.
pub proof fn lemma_flow_le_transitive(a: Seq<Seq<Value>>, b: Seq<Seq<Value>>, c: Seq<Seq<Value>>)
    requires
        flow_le(a, b),
        flow_le(b, c),
    ensures
        flow_le(a, c),
{
    assert forall|i: int| 0 <= i < a.len() implies env_le(#[trigger] a[i], c[i]) by {
        lemma_env_le_transitive(a[i], b[i], c[i]);
    }
}

/// Total rank of a per-block table: the sum of its rows' ranks.
pub open spec fn flow_rank(a: Seq<Seq<Value>>) -> nat
    decreases a.len(),
{
    if a.len() == 0 {
        0
    } else {
        env_rank(a[0]) + flow_rank(a.drop_first())
    }
}

/// Law: a pointwise-lower table has a rank no larger, and a strictly
/// lower one a strictly smaller rank. Together with `lemma_le_rank` this
/// is the measure that bounds the solver's iteration count.
pub proof fn lemma_flow_le_rank(a: Seq<Seq<Value>>, b: Seq<Seq<Value>>)
    requires
        flow_le(a, b),
    ensures
        flow_rank(a) <= flow_rank(b),
        a != b ==> flow_rank(a) < flow_rank(b),
    decreases a.len(),
{
    if a.len() == 0 {
        assert(a =~= b);
    } else {
        assert(env_le(a[0], b[0]));
        lemma_env_le_rank(a[0], b[0]);
        assert(flow_le(a.drop_first(), b.drop_first())) by {
            assert forall|i: int| 0 <= i < a.drop_first().len() implies env_le(
                #[trigger] a.drop_first()[i],
                b.drop_first()[i],
            ) by {
                assert(a.drop_first()[i] == a[i + 1]);
                assert(b.drop_first()[i] == b[i + 1]);
                assert(env_le(a[i + 1], b[i + 1]));
            }
        }
        lemma_flow_le_rank(a.drop_first(), b.drop_first());
        if a != b {
            if a[0] == b[0] {
                assert(a.drop_first() != b.drop_first()) by {
                    if a.drop_first() == b.drop_first() {
                        assert forall|i: int| 0 <= i < a.len() implies a[i] == b[i] by {
                            if i > 0 {
                                assert(a[i] == a.drop_first()[i - 1]);
                                assert(b[i] == b.drop_first()[i - 1]);
                            }
                        }
                        assert(a =~= b);
                    }
                }
            }
        }
    }
}

} // verus!
