use vstd::prelude::*;
use crate::model::{
    ShapeModel,
    common_shape,
    null_join,
    field_or_null,
    join_fields,
    lemma_join_stripped_unfold,
};
use crate::shape::{
    AnyShape,
    CollectionShape,
    RecordShape,
    Shape,
    shapes_model,
    lemma_payload_smaller,
    lemma_field_smaller,
};

verus! {

/// The union `a` with `s` added at its end.
fn new_any(a: &AnyShape, s: &Shape) -> (r: Shape)
    ensures
        r@ == ShapeModel::Any(shapes_model(a.shapes@).push(s@)),
{
    let mut shape_clones = a.clone().shapes;
    let ghost before = shape_clones@;
    assert(shapes_model(before) == shapes_model(a.shapes@));
    shape_clones.push(s.clone());
    proof {
        assert(shapes_model(shape_clones@) =~= shapes_model(before).push(s@)) by {
            assert(shape_clones@.drop_last() == before);
            assert forall|j: int| 0 <= j < before.len() implies shapes_model(shape_clones@)[j]
                == shapes_model(before)[j] by {
                assert(shape_clones@[j] == before[j]);
            }
        }
    }
    Shape::Any(AnyShape { shapes: shape_clones })
}

/// The join of `Null` with `s`: `Null` for `Bottom` and `Null`, the nullable
/// version of `s` otherwise.
fn join_with_null(s: &Shape) -> (r: Shape)
    ensures
        r@ == null_join(s@),
{
    match s {
        Shape::Bottom | Shape::Null => Shape::Null,
        _ => s.make_nullable(),
    }
}

/// The record of the fields of `r1` and of `r2`, each the join of its two
/// sides, where a side that lacks the field counts as `Null`.
fn join_records(r1: &RecordShape, r2: &RecordShape) -> (r: RecordShape)
    ensures
        r.field_map() == join_fields(ShapeModel::Rec(r1.field_map()), r2.field_map()),
    decreases r1.field_map(), 1int,
{
    let null = Shape::Null;
    let ghost m1 = r1.field_map();
    let ghost m2 = r2.field_map();
    let mut fields = RecordShape::new();
    let n = r1.len();
    for i in 0..n
        invariant
            n == r1.names().len(),
            m1 == r1.field_map(),
            m2 == r2.field_map(),
            null@ == ShapeModel::Null,
            r1.names().no_duplicates(),
            m1.dom() == r1.names().to_set(),
            fields.field_map() == Map::new(
                |k: Seq<char>| r1.names().take(i as int).contains(k),
                |k: Seq<char>| common_shape(m1[k], field_or_null(m2, k)),
            ),
    {
        let (name, v1) = r1.entry(i);
        let found = r2.get(name);
        let v2 = found.unwrap_or(&null);
        proof {
            match found {
                Some(w) => assert(v2@ == field_or_null(m2, name@)),
                None => assert(v2@ == field_or_null(m2, name@)),
            }
            lemma_field_smaller(*r1, name@);
        }
        let joined = common_preferred_shape(v1, v2);
        let ghost before = fields.field_map();
        fields.insert(name.clone(), joined);
        proof {
            lemma_take_push(r1.names(), i as int);
            assert forall|k: Seq<char>|
                #![trigger fields.field_map().contains_key(k)]
                fields.field_map().contains_key(k) == r1.names().take(i + 1).contains(k) && (
                fields.field_map().contains_key(k) ==> fields.field_map()[k] == common_shape(
                    m1[k],
                    field_or_null(m2, k),
                )) by {
                if k != name@ {
                    assert(before.contains_key(k) == r1.names().take(i as int).contains(k));
                }
            }
            assert(fields.field_map() =~= Map::new(
                |k: Seq<char>| r1.names().take(i + 1).contains(k),
                |k: Seq<char>| common_shape(m1[k], field_or_null(m2, k)),
            ));
        }
    }
    proof {
        assert(r1.names().take(n as int) =~= r1.names());
    }
    // The fields of `r2` that `r1` lacks join with `Null`.
    let n2 = r2.len();
    for j in 0..n2
        invariant
            n2 == r2.names().len(),
            m1 == r1.field_map(),
            m2 == r2.field_map(),
            r2.names().no_duplicates(),
            m1.dom() == r1.names().to_set(),
            m2.dom() == r2.names().to_set(),
            fields.field_map() == Map::new(
                |k: Seq<char>| m1.contains_key(k) || r2.names().take(j as int).contains(k),
                |k: Seq<char>|
                    if m1.contains_key(k) {
                        common_shape(m1[k], field_or_null(m2, k))
                    } else {
                        null_join(field_or_null(m2, k))
                    },
            ),
    {
        let (name, v2) = r2.entry(j);
        let ghost before = fields.field_map();
        if r1.get(name).is_none() {
            let joined = join_with_null(v2);
            fields.insert(name.clone(), joined);
        }
        proof {
            lemma_take_push(r2.names(), j as int);
            assert forall|k: Seq<char>|
                #![trigger fields.field_map().contains_key(k)]
                fields.field_map().contains_key(k) == (m1.contains_key(k) || r2.names().take(
                    j + 1,
                ).contains(k)) && (fields.field_map().contains_key(k)
                    ==> fields.field_map()[k] == (if m1.contains_key(k) {
                    common_shape(m1[k], field_or_null(m2, k))
                } else {
                    null_join(field_or_null(m2, k))
                })) by {
                if k != name@ {
                    assert(before.contains_key(k) == (m1.contains_key(k) || r2.names().take(
                        j as int,
                    ).contains(k)));
                }
            }
            assert(fields.field_map() =~= Map::new(
                |k: Seq<char>| m1.contains_key(k) || r2.names().take(j + 1).contains(k),
                |k: Seq<char>|
                    if m1.contains_key(k) {
                        common_shape(m1[k], field_or_null(m2, k))
                    } else {
                        null_join(field_or_null(m2, k))
                    },
            ));
        }
    }
    proof {
        assert(r2.names().take(n2 as int) =~= r2.names());
        assert(fields.field_map() =~= join_fields(ShapeModel::Rec(m1), m2));
    }
    fields
}

/// Taking one more element of a sequence adds that element.
proof fn lemma_take_push(s: Seq<Seq<char>>, i: int)
    requires
        0 <= i < s.len(),
    ensures
        s.take(i + 1) == s.take(i).push(s[i]),
        forall|k: Seq<char>| #[trigger]
            s.take(i + 1).contains(k) == (s.take(i).contains(k) || k == s[i]),
{
    let t0 = s.take(i);
    let t1 = s.take(i + 1);
    assert(t1 =~= t0.push(s[i]));
    assert forall|k: Seq<char>| #[trigger] t1.contains(k) == (t0.contains(k) || k == s[i]) by {
        if t0.contains(k) {
            let j = choose|j: int| 0 <= j < t0.len() && t0[j] == k;
            assert(t1[j] == k);
        }
        if t1.contains(k) && k != s[i] {
            let j = choose|j: int| 0 <= j < t1.len() && t1[j] == k;
            assert(t0[j] == k);
        }
        if k == s[i] {
            assert(t1[i] == k);
        }
    }
}

/// The common preferred shape of `s1` and `s2`: the shape that describes the
/// values of both, by the rules that `common_shape` states.
pub fn common_preferred_shape(s1: &Shape, s2: &Shape) -> (r: Shape)
    ensures
        r@ == common_shape(s1@, s2@),
    decreases s1@, 2int,
{
    proof {
        lemma_payload_smaller(*s1);
    }
    if s1 == s2 {
        return s1.clone();
    }
    match (s1, s2) {
        (Shape::Bottom, _) => s2.clone(),
        (_, Shape::Bottom) => s1.clone(),
        (Shape::Coll(c1), Shape::Coll(c2)) => Shape::Coll(
            CollectionShape { base: Box::new(common_preferred_shape(&c1.base, &c2.base)) },
        ),
        (Shape::Null, _) => s2.make_nullable(),
        (_, Shape::Null) => s1.make_nullable(),
        (Shape::Any(a1), _) => new_any(a1, s2),
        (_, Shape::Any(a2)) => new_any(a2, s1),
        (Shape::Rec(r1), Shape::Rec(r2)) => Shape::Rec(join_records(r1, r2)),
        _ => {
            if s1.is_nullable() || s2.is_nullable() {
                // One side is nullable: strip both, join them, and make the
                // join nullable. This is csh(nullable(s1), s2) =
                // nullable(csh(s1, s2)) applied to each nullable side in turn.
                let a = if s1.is_nullable() {
                    s1.make_non_nullable()
                } else {
                    s1.clone()
                };
                let b = if s2.is_nullable() {
                    s2.make_non_nullable()
                } else {
                    s2.clone()
                };
                let joined = if a == b {
                    a
                } else {
                    proof {
                        lemma_join_stripped_unfold(s1@, s2@);
                    }
                    match (&a, &b) {
                        (Shape::Coll(c1), Shape::Coll(c2)) => Shape::Coll(
                            CollectionShape {
                                base: Box::new(common_preferred_shape(&c1.base, &c2.base)),
                            },
                        ),
                        (Shape::Rec(r1), Shape::Rec(r2)) => Shape::Rec(join_records(r1, r2)),
                        _ => new_pair(&a, &b),
                    }
                };
                joined.make_nullable()
            } else {
                // The (any) rule: two shapes of different kinds.
                new_pair(s1, s2)
            }
        },
    }
}

/// The union of exactly `s1` and `s2`, in that order.
fn new_pair(s1: &Shape, s2: &Shape) -> (r: Shape)
    ensures
        r@ == ShapeModel::Any(seq![s1@, s2@]),
{
    let shapes = vec![s1.clone(), s2.clone()];
    assert(shapes_model(shapes@) =~= seq![s1@, s2@]);
    Shape::Any(AnyShape { shapes })
}

} // verus!
