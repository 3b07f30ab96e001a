use vstd::prelude::*;

verus! {

/// The mathematical value of a shape. Records are maps from field names to
/// shapes, so two records are equal when they have the same fields with equal
/// shapes, whatever order the fields were inserted in.
pub enum ShapeModel {
    Bottom,
    Any(Seq<ShapeModel>),
    Bool,
    Int,
    Float,
    Rec(Map<Seq<char>, ShapeModel>),
    Coll(Box<ShapeModel>),
    Str,
    Null,
    NullBool,
    NullInt,
    NullFloat,
    NullRec(Map<Seq<char>, ShapeModel>),
    NullColl(Box<ShapeModel>),
    NullStr,
}

/// Whether a shape admits `null`.
pub open spec fn model_is_nullable(s: ShapeModel) -> bool {
    match s {
        ShapeModel::Null
        | ShapeModel::NullBool
        | ShapeModel::NullInt
        | ShapeModel::NullFloat
        | ShapeModel::NullRec(_)
        | ShapeModel::NullColl(_)
        | ShapeModel::NullStr => true,
        _ => false,
    }
}

/// The nullable version of a shape (`Any` and the nullable shapes stay as they
/// are). It has no meaning on `Bottom`.
pub open spec fn model_make_nullable(s: ShapeModel) -> ShapeModel {
    match s {
        ShapeModel::Bool => ShapeModel::NullBool,
        ShapeModel::Int => ShapeModel::NullInt,
        ShapeModel::Float => ShapeModel::NullFloat,
        ShapeModel::Rec(m) => ShapeModel::NullRec(m),
        ShapeModel::Coll(c) => ShapeModel::NullColl(c),
        ShapeModel::Str => ShapeModel::NullStr,
        _ => s,
    }
}

/// The non-nullable version of a shape (`Any` and the non-nullable shapes stay
/// as they are). It has no meaning on `Bottom` and `Null`.
pub open spec fn model_make_non_nullable(s: ShapeModel) -> ShapeModel {
    match s {
        ShapeModel::NullBool => ShapeModel::Bool,
        ShapeModel::NullInt => ShapeModel::Int,
        ShapeModel::NullFloat => ShapeModel::Float,
        ShapeModel::NullRec(m) => ShapeModel::Rec(m),
        ShapeModel::NullColl(c) => ShapeModel::Coll(c),
        ShapeModel::NullStr => ShapeModel::Str,
        _ => s,
    }
}

/// A nullable shape without its nullability; other shapes stay as they are.
pub open spec fn stripped(s: ShapeModel) -> ShapeModel {
    if model_is_nullable(s) {
        model_make_non_nullable(s)
    } else {
        s
    }
}

/// The shape of a record's field, `Null` where the record lacks the field.
pub open spec fn field_or_null(m: Map<Seq<char>, ShapeModel>, k: Seq<char>) -> ShapeModel {
    if m.contains_key(k) {
        m[k]
    } else {
        ShapeModel::Null
    }
}

/// The join of two shapes that are neither `Bottom`, `Null` nor `Any`, once
/// both are stripped of nullability: equal shapes give themselves, two
/// collections and two records join as `common_shape` joins them, and any
/// other pair gives the union of the two stripped shapes.
pub open spec fn join_stripped(s1: ShapeModel, s2: ShapeModel) -> ShapeModel
    decreases s1, 1int,
{
    let a = stripped(s1);
    let b = stripped(s2);
    if a == b {
        a
    } else {
        match s1 {
            ShapeModel::Coll(c1) => match b {
                ShapeModel::Coll(c2) => ShapeModel::Coll(Box::new(common_shape(*c1, *c2))),
                _ => ShapeModel::Any(seq![a, b]),
            },
            ShapeModel::NullColl(c1) => match b {
                ShapeModel::Coll(c2) => ShapeModel::Coll(Box::new(common_shape(*c1, *c2))),
                _ => ShapeModel::Any(seq![a, b]),
            },
            ShapeModel::Rec(_) | ShapeModel::NullRec(_) => match b {
                ShapeModel::Rec(m2) => ShapeModel::Rec(join_fields(s1, m2)),
                _ => ShapeModel::Any(seq![a, b]),
            },
            _ => ShapeModel::Any(seq![a, b]),
        }
    }
}

/// The join of `Null` with a shape: `Null` where the shape is `Bottom` or
/// `Null`, the nullable version of the shape otherwise (see
/// `lemma_common_shape_null`).
pub open spec fn null_join(s: ShapeModel) -> ShapeModel {
    if s == ShapeModel::Bottom || s == ShapeModel::Null {
        ShapeModel::Null
    } else {
        model_make_nullable(s)
    }
}

/// The fields of the join of the record `s1` (nullable or not) with a record
/// whose fields are `m2`: every field of either record, each the join of its
/// two sides, where a side that lacks the field counts as `Null`. (A field of
/// `m2` alone is `null_join` of its shape, the join of `Null` with it.)
pub open spec fn join_fields(s1: ShapeModel, m2: Map<Seq<char>, ShapeModel>) -> Map<
    Seq<char>,
    ShapeModel,
>
    decreases s1, 0int,
{
    match s1 {
        ShapeModel::Rec(m1) => Map::new(
            |k: Seq<char>| m1.contains_key(k) || m2.contains_key(k),
            |k: Seq<char>|
                if m1.contains_key(k) {
                    common_shape(m1[k], field_or_null(m2, k))
                } else {
                    null_join(field_or_null(m2, k))
                },
        ),
        ShapeModel::NullRec(m1) => Map::new(
            |k: Seq<char>| m1.contains_key(k) || m2.contains_key(k),
            |k: Seq<char>|
                if m1.contains_key(k) {
                    common_shape(m1[k], field_or_null(m2, k))
                } else {
                    null_join(field_or_null(m2, k))
                },
        ),
        _ => Map::empty(),
    }
}

/// The common preferred shape of `s1` and `s2`, rule by rule:
/// equal shapes give themselves; `Bottom` gives the other shape; two
/// collections give the collection of the common shape of their elements;
/// `Null` makes the other shape nullable; `Any` takes the other shape in at
/// its end; two records give the record of the fields of both, each the
/// common shape of its two sides (a side that lacks the field counts as
/// `Null`); where one side is nullable, both are stripped of nullability,
/// joined, and the join is made nullable; any other pair gives the union
/// `Any` of the two shapes.
pub open spec fn common_shape(s1: ShapeModel, s2: ShapeModel) -> ShapeModel
    decreases s1, 2int,
{
    if s1 == s2 {
        s1
    } else {
        match (s1, s2) {
            (ShapeModel::Bottom, _) => s2,
            (_, ShapeModel::Bottom) => s1,
            (ShapeModel::Coll(c1), ShapeModel::Coll(c2)) => ShapeModel::Coll(
                Box::new(common_shape(*c1, *c2)),
            ),
            (ShapeModel::Null, _) => model_make_nullable(s2),
            (_, ShapeModel::Null) => model_make_nullable(s1),
            (ShapeModel::Any(a1), _) => ShapeModel::Any(a1.push(s2)),
            (_, ShapeModel::Any(a2)) => ShapeModel::Any(a2.push(s1)),
            (ShapeModel::Rec(_), ShapeModel::Rec(m2)) => ShapeModel::Rec(join_fields(s1, m2)),
            _ => if model_is_nullable(s1) || model_is_nullable(s2) {
                model_make_nullable(join_stripped(s1, s2))
            } else {
                ShapeModel::Any(seq![s1, s2])
            },
        }
    }
}

/// How `join_stripped` reads once both sides are stripped of nullability.
pub proof fn lemma_join_stripped_unfold(s1: ShapeModel, s2: ShapeModel)
    requires
        stripped(s1) != stripped(s2),
    ensures
        (stripped(s1) is Coll && stripped(s2) is Coll) ==> join_stripped(s1, s2)
            == ShapeModel::Coll(
            Box::new(common_shape(*(stripped(s1)->Coll_0), *(stripped(s2)->Coll_0))),
        ),
        (stripped(s1) is Rec && stripped(s2) is Rec) ==> join_stripped(s1, s2) == ShapeModel::Rec(
            join_fields(stripped(s1), stripped(s2)->Rec_0),
        ),
        !(stripped(s1) is Coll && stripped(s2) is Coll) && !(stripped(s1) is Rec && stripped(
            s2,
        ) is Rec) ==> join_stripped(s1, s2) == ShapeModel::Any(seq![stripped(s1), stripped(s2)]),
{
    if stripped(s1) is Rec && stripped(s2) is Rec {
        let m1 = stripped(s1)->Rec_0;
        let m2 = stripped(s2)->Rec_0;
        assert(s1 == ShapeModel::Rec(m1) || s1 == ShapeModel::NullRec(m1));
        assert(join_fields(s1, m2) =~= join_fields(stripped(s1), m2));
        assert(join_stripped(s1, s2) == ShapeModel::Rec(join_fields(s1, m2)));
    }
}

} // verus!
