use vstd::prelude::*;
use crate::model::{
    ShapeModel,
    common_shape,
    field_or_null,
    join_fields,
    join_stripped,
    lemma_join_stripped_unfold,
    model_is_nullable,
    model_make_nullable,
    model_make_non_nullable,
    null_join,
    stripped,
};

use crate::shape::{AnyShape, CollectionShape, RecordShape, Shape, shapes_model};
use vstd::std_specs::cmp::PartialEqSpec;

verus! {

/// A shape joined with itself is itself: csh(s, s) = s.
pub proof fn lemma_common_shape_reflexive(s: ShapeModel)
    ensures
        common_shape(s, s) == s,
{
}

/// `Bottom` is an identity on both sides: csh(Bottom, s) = csh(s, Bottom) = s.
pub proof fn lemma_common_shape_bottom_identity(s: ShapeModel)
    ensures
        common_shape(ShapeModel::Bottom, s) == s,
        common_shape(s, ShapeModel::Bottom) == s,
{
}

/// `Null` on either side makes the other shape nullable:
/// csh(Null, s) = csh(s, Null) = nullable(s), for every shape but `Bottom`
/// (which gives `Null`); both are `null_join(s)`.
pub proof fn lemma_common_shape_null(s: ShapeModel)
    ensures
        common_shape(ShapeModel::Null, s) == null_join(s),
        common_shape(s, ShapeModel::Null) == null_join(s),
        s != ShapeModel::Bottom ==> null_join(s) == model_make_nullable(s),
{
}

/// Two collections join into the collection of the join of their elements:
/// csh([a], [b]) = [csh(a, b)].
pub proof fn lemma_common_shape_collections(a: ShapeModel, b: ShapeModel)
    ensures
        common_shape(ShapeModel::Coll(Box::new(a)), ShapeModel::Coll(Box::new(b)))
            == ShapeModel::Coll(Box::new(common_shape(a, b))),
{
}

/// A union takes in any other shape but `Bottom` and `Null` at its end:
/// csh(any, s) = any + [s].
pub proof fn lemma_common_shape_any(shapes: Seq<ShapeModel>, s: ShapeModel)
    requires
        s != ShapeModel::Bottom,
        s != ShapeModel::Null,
        s != ShapeModel::Any(shapes),
    ensures
        common_shape(ShapeModel::Any(shapes), s) == ShapeModel::Any(shapes.push(s)),
{
}

/// A union on the right takes in any other shape but `Bottom`, `Null` and a
/// union at its end, unchanged and with its nullability:
/// csh(s, any) = any + [s], the mirror of `lemma_common_shape_any`.
pub proof fn lemma_common_shape_any_right(s: ShapeModel, shapes: Seq<ShapeModel>)
    requires
        s != ShapeModel::Bottom,
        s != ShapeModel::Null,
        !(s is Any),
    ensures
        common_shape(s, ShapeModel::Any(shapes)) == ShapeModel::Any(shapes.push(s)),
        common_shape(s, ShapeModel::Any(shapes))->Any_0.len() == shapes.len() + 1,
        common_shape(s, ShapeModel::Any(shapes))->Any_0.last() == s,
        model_is_nullable(common_shape(s, ShapeModel::Any(shapes))->Any_0.last())
            == model_is_nullable(s),
{
}

/// Two records join into the record of the fields of both, each the join of
/// its two sides, where a side that lacks the field counts as `Null`.
pub proof fn lemma_common_shape_record_fields(
    m1: Map<Seq<char>, ShapeModel>,
    m2: Map<Seq<char>, ShapeModel>,
)
    ensures
        common_shape(ShapeModel::Rec(m1), ShapeModel::Rec(m2)) is Rec,
        (common_shape(ShapeModel::Rec(m1), ShapeModel::Rec(m2))->Rec_0).dom() == m1.dom().union(
            m2.dom(),
        ),
        forall|k: Seq<char>|
            #![trigger (common_shape(ShapeModel::Rec(m1), ShapeModel::Rec(m2))->Rec_0)[k]]
            m1.contains_key(k) || m2.contains_key(k) ==> (common_shape(
                ShapeModel::Rec(m1),
                ShapeModel::Rec(m2),
            )->Rec_0)[k] == common_shape(field_or_null(m1, k), field_or_null(m2, k)),
{
    let r = common_shape(ShapeModel::Rec(m1), ShapeModel::Rec(m2));
    if m1 != m2 {
        assert(r == ShapeModel::Rec(join_fields(ShapeModel::Rec(m1), m2)));
        assert(r->Rec_0.dom() =~= m1.dom().union(m2.dom()));
        assert forall|k: Seq<char>| m1.contains_key(k) || m2.contains_key(k) implies (
        #[trigger] (r->Rec_0)[k]) == common_shape(field_or_null(m1, k), field_or_null(m2, k)) by {
            if !m1.contains_key(k) {
                lemma_common_shape_null(m2[k]);
            }
        }
    } else {
        assert(r->Rec_0.dom() =~= m1.dom().union(m2.dom()));
        assert forall|k: Seq<char>| m1.contains_key(k) || m2.contains_key(k) implies (
        #[trigger] (r->Rec_0)[k]) == common_shape(field_or_null(m1, k), field_or_null(m2, k)) by {
            lemma_common_shape_reflexive(m1[k]);
        }
    }
}

/// Two shapes of different kinds that no other rule joins give the union of
/// the two: csh(s1, s2) = any[s1, s2].
pub proof fn lemma_common_shape_any_rule(s1: ShapeModel, s2: ShapeModel)
    requires
        s1 != s2,
        !model_is_nullable(s1),
        !model_is_nullable(s2),
        s1 != ShapeModel::Bottom,
        s2 != ShapeModel::Bottom,
        !(s1 is Any),
        !(s2 is Any),
        !(s1 is Coll && s2 is Coll),
        !(s1 is Rec && s2 is Rec),
    ensures
        common_shape(s1, s2) == ShapeModel::Any(seq![s1, s2]),
{
}

/// The join is `Bottom` only when both shapes are.
pub proof fn lemma_common_shape_not_bottom(s1: ShapeModel, s2: ShapeModel)
    requires
        s1 != ShapeModel::Bottom || s2 != ShapeModel::Bottom,
    ensures
        common_shape(s1, s2) != ShapeModel::Bottom,
{
    lemma_last_rule(s1, s2);
}

/// Nullability is kept exactly: unless the join is a union, it is nullable
/// when either shape is, and only then.
pub proof fn lemma_common_shape_nullability(s1: ShapeModel, s2: ShapeModel)
    ensures
        !(common_shape(s1, s2) is Any) ==> (model_is_nullable(common_shape(s1, s2)) == (
        model_is_nullable(s1) || model_is_nullable(s2))),
{
    lemma_last_rule(s1, s2);
}

/// Where only the last rule of `common_shape` applies to a pair with a
/// nullable side, it makes a shape that is neither `Bottom` nor nullable
/// nullable, or gives a union.
proof fn lemma_last_rule(s1: ShapeModel, s2: ShapeModel)
    ensures
        ({
            let j = join_stripped(s1, s2);
            (s1 != s2 && !(s1 is Bottom) && !(s2 is Bottom) && !(s1 is Null) && !(s2 is Null)
                && !(s1 is Any) && !(s2 is Any) && !(s1 is Coll && s2 is Coll) && !(s1 is Rec
                && s2 is Rec) && (model_is_nullable(s1) || model_is_nullable(s2))) ==> {
                &&& common_shape(s1, s2) == model_make_nullable(j)
                &&& j != ShapeModel::Bottom
                &&& (j is Any || !model_is_nullable(j))
            }
        }),
{
    if s1 != s2 && !(s1 is Bottom) && !(s2 is Bottom) && !(s1 is Null) && !(s2 is Null) && !(
    s1 is Any) && !(s2 is Any) && !(s1 is Coll && s2 is Coll) && !(s1 is Rec && s2 is Rec) {
        if stripped(s1) != stripped(s2) {
            lemma_join_stripped_unfold(s1, s2);
        }
    }
}

/// A nullable shape joins as its non-nullable version does, and the join is
/// made nullable: csh(nullable(s1), s2) = nullable(csh(s1, s2)), for a second
/// shape that no earlier rule handles.
pub proof fn lemma_common_shape_nullable_left(s1: ShapeModel, s2: ShapeModel)
    requires
        model_is_nullable(s1),
        s1 != ShapeModel::Null,
        s2 != ShapeModel::Bottom,
        s2 != ShapeModel::Null,
        !(s2 is Any),
        s1 != s2,
    ensures
        common_shape(s1, s2) == model_make_nullable(
            common_shape(model_make_non_nullable(s1), s2),
        ),
{
    let a = model_make_non_nullable(s1);
    assert(stripped(s1) == a);
    if a != stripped(s2) {
        lemma_join_stripped_unfold(s1, s2);
        if model_is_nullable(s2) {
            lemma_join_stripped_unfold(a, s2);
        }
    }
}

/// The same rule with the nullable shape second:
/// csh(s1, nullable(s2)) = nullable(csh(s1, s2)), for a first shape that is
/// not nullable and that no earlier rule handles.
pub proof fn lemma_common_shape_nullable_right(s1: ShapeModel, s2: ShapeModel)
    requires
        model_is_nullable(s2),
        !model_is_nullable(s1),
        s2 != ShapeModel::Null,
        s1 != ShapeModel::Bottom,
        !(s1 is Any),
    ensures
        common_shape(s1, s2) == model_make_nullable(
            common_shape(s1, model_make_non_nullable(s2)),
        ),
{
    let b = model_make_non_nullable(s2);
    assert(stripped(s2) == b);
    if s1 != b {
        lemma_join_stripped_unfold(s1, s2);
    }
}

/// Making a shape nullable twice is making it nullable once.
pub proof fn lemma_make_nullable_idempotent(s: ShapeModel)
    ensures
        model_make_nullable(model_make_nullable(s)) == model_make_nullable(s),
        model_make_non_nullable(model_make_non_nullable(s)) == model_make_non_nullable(s),
{
}

/// Making a shape nullable gives a nullable shape, except for `Bottom` and
/// `Any`; making it non-nullable gives a non-nullable shape, except for
/// `Null`.
pub proof fn lemma_make_nullable_sets_nullability(s: ShapeModel)
    ensures
        s != ShapeModel::Bottom && !(s is Any) ==> model_is_nullable(model_make_nullable(s)),
        s != ShapeModel::Null ==> !model_is_nullable(model_make_non_nullable(s)),
{
}

/// Making a shape nullable and then non-nullable, or the other way round,
/// only keeps the last step: nullability is all that the two change.
pub proof fn lemma_nullability_round_trip(s: ShapeModel)
    ensures
        model_make_non_nullable(model_make_nullable(s)) == model_make_non_nullable(s),
        model_make_nullable(model_make_non_nullable(s)) == model_make_nullable(s),
        model_make_non_nullable(s) == stripped(s) || s == ShapeModel::Null,
{
}

/// Two collection shapes are equal exactly when their element shapes are.
pub proof fn lemma_collection_eq(c1: CollectionShape, c2: CollectionShape)
    ensures
        c1.eq_spec(&c2) <==> (*c1.base)@ == (*c2.base)@,
        Shape::Coll(c1).eq_spec(&Shape::Coll(c2)) <==> (*c1.base)@ == (*c2.base)@,
{
}

/// Two shapes are equal exactly when their models are: the same kind, with
/// equal payloads.
pub proof fn lemma_shape_eq(a: Shape, b: Shape)
    ensures
        a.eq_spec(&b) <==> a@ == b@,
{
}

/// Two records are equal exactly when they have the same fields, with equal
/// shapes.
pub proof fn lemma_record_eq(r1: RecordShape, r2: RecordShape)
    ensures
        r1.eq_spec(&r2) <==> (r1.field_map().dom() == r2.field_map().dom() && forall|k: Seq<char>|
            #[trigger] r1.field_map().contains_key(k) ==> r1.field_map()[k] == r2.field_map()[k]),
{
    if r1.field_map().dom() == r2.field_map().dom() && forall|k: Seq<char>|
        #[trigger] r1.field_map().contains_key(k) ==> r1.field_map()[k] == r2.field_map()[k] {
        assert(r1.field_map() =~= r2.field_map());
    }
}

/// Two unions are equal exactly when they hold equal shapes in the same order.
pub proof fn lemma_any_eq(a1: AnyShape, a2: AnyShape)
    ensures
        a1.eq_spec(&a2) <==> (a1.shapes@.len() == a2.shapes@.len() && forall|i: int|
            0 <= i < a1.shapes@.len() ==> (#[trigger] a1.shapes@[i])@ == a2.shapes@[i]@),
{
    if a1.shapes@.len() == a2.shapes@.len() && forall|i: int|
        0 <= i < a1.shapes@.len() ==> (#[trigger] a1.shapes@[i])@ == a2.shapes@[i]@ {
        assert forall|i: int| 0 <= i < a1.shapes@.len() implies shapes_model(a1.shapes@)[i]
            == shapes_model(a2.shapes@)[i] by {
            assert(a1.shapes@[i]@ == a2.shapes@[i]@);
        }
        assert(shapes_model(a1.shapes@) =~= shapes_model(a2.shapes@));
    }
    assert(shapes_model(a1.shapes@).len() == a1.shapes@.len());
    assert(shapes_model(a2.shapes@).len() == a2.shapes@.len());
    if a1.eq_spec(&a2) {
        assert forall|i: int| 0 <= i < a1.shapes@.len() implies (#[trigger] a1.shapes@[i])@
            == a2.shapes@[i]@ by {
            assert(shapes_model(a1.shapes@)[i] == shapes_model(a2.shapes@)[i]);
            assert(shapes_model(a1.shapes@)[i] == a1.shapes@[i]@);
            assert(shapes_model(a2.shapes@)[i] == a2.shapes@[i]@);
        }
    }
}

} // verus!
