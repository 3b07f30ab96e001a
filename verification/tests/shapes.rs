use shape_infer::{common_preferred_shape, AnyShape, CollectionShape, FuckOff, RecordShape, Shape};

fn record(fields: Vec<(&str, Shape)>) -> RecordShape {
    let mut r = RecordShape::new();
    for (name, shape) in fields {
        r.insert(name.to_string(), shape);
    }
    r
}

fn coll(base: Shape) -> Shape {
    Shape::Coll(CollectionShape { base: Box::new(base) })
}

fn any(shapes: Vec<Shape>) -> Shape {
    Shape::Any(AnyShape { shapes })
}

#[test]
fn make_nullable_each_kind() {
    assert!(Shape::Bool.make_nullable() == Shape::NullBool);
    assert!(Shape::Int.make_nullable() == Shape::NullInt);
    assert!(Shape::Float.make_nullable() == Shape::NullFloat);
    assert!(Shape::Str.make_nullable() == Shape::NullStr);
    assert!(Shape::Null.make_nullable() == Shape::Null);
    assert!(Shape::NullInt.make_nullable() == Shape::NullInt);
    let r = record(vec![("a", Shape::Int)]);
    assert!(Shape::Rec(r.clone()).make_nullable() == Shape::NullRec(r.clone()));
    assert!(coll(Shape::Str).make_nullable() == Shape::NullColl(CollectionShape { base: Box::new(Shape::Str) }));
    let a = any(vec![Shape::Int, Shape::Str]);
    assert!(a.make_nullable() == a);
}

#[test]
fn make_non_nullable_each_kind() {
    assert!(Shape::NullBool.make_non_nullable() == Shape::Bool);
    assert!(Shape::NullInt.make_non_nullable() == Shape::Int);
    assert!(Shape::NullFloat.make_non_nullable() == Shape::Float);
    assert!(Shape::NullStr.make_non_nullable() == Shape::Str);
    assert!(Shape::Int.make_non_nullable() == Shape::Int);
    let r = record(vec![("a", Shape::Int)]);
    assert!(Shape::NullRec(r.clone()).make_non_nullable() == Shape::Rec(r.clone()));
    let nc = Shape::NullColl(CollectionShape { base: Box::new(Shape::Bool) });
    assert!(nc.make_non_nullable() == coll(Shape::Bool));
}

#[test]
fn nullability_round_trip() {
    for s in vec![Shape::Bool, Shape::Int, Shape::Float, Shape::Str, coll(Shape::Int)] {
        assert!(s.make_nullable().make_non_nullable() == s);
        assert!(s.make_nullable().make_nullable() == s.make_nullable());
    }
}

#[test]
fn is_nullable_each_kind() {
    assert!(!Shape::Bottom.is_nullable());
    assert!(!Shape::Int.is_nullable());
    assert!(!any(vec![]).is_nullable());
    assert!(!coll(Shape::Int).is_nullable());
    assert!(Shape::Null.is_nullable());
    assert!(Shape::NullStr.is_nullable());
    assert!(Shape::NullRec(RecordShape::new()).is_nullable());
}

#[test]
fn vedant_is_five() {
    assert_eq!(CollectionShape::vedant(), 5);
}

#[test]
fn counting_message() {
    assert_eq!(3.fuck_off(), "Fuck off 3 times");
    assert_eq!(0.fuck_off(), "Fuck off 0 times");
    assert_eq!((-42).fuck_off(), "Fuck off -42 times");
    assert_eq!(1234567.fuck_off(), "Fuck off 1234567 times");
    assert_eq!(i32::MIN.fuck_off(), "Fuck off -2147483648 times");
    assert_eq!(i32::MAX.fuck_off(), "Fuck off 2147483647 times");
}

#[test]
fn records_compare_as_maps() {
    let r1 = record(vec![("a", Shape::Int), ("b", Shape::Str)]);
    let r2 = record(vec![("b", Shape::Str), ("a", Shape::Int)]);
    assert!(r1 == r2);
    assert!(Shape::Rec(r1.clone()) == Shape::Rec(r2.clone()));
    let r3 = record(vec![("a", Shape::Int), ("b", Shape::Bool)]);
    assert!(r1 != r3);
    let r4 = record(vec![("a", Shape::Int)]);
    assert!(r1 != r4);
    assert!(Shape::Rec(r1.clone()) != Shape::NullRec(r1.clone()));
}

#[test]
fn record_insert_replaces() {
    let mut r = record(vec![("a", Shape::Int)]);
    r.insert("a".to_string(), Shape::Str);
    assert_eq!(r.len(), 1);
    assert!(*r.get(&"a".to_string()).unwrap() == Shape::Str);
    assert!(r.get(&"b".to_string()).is_none());
}

#[test]
fn unions_compare_in_order() {
    assert!(any(vec![Shape::Int, Shape::Str]) == any(vec![Shape::Int, Shape::Str]));
    assert!(any(vec![Shape::Int, Shape::Str]) != any(vec![Shape::Str, Shape::Int]));
}

#[test]
fn csh_of_equal_shapes_is_the_shape() {
    let s = Shape::Rec(record(vec![("a", coll(Shape::NullInt)), ("b", any(vec![Shape::Str]))]));
    assert!(common_preferred_shape(&s, &s.clone()) == s);
    assert!(common_preferred_shape(&Shape::Bottom, &Shape::Bottom) == Shape::Bottom);
}

#[test]
fn csh_bottom_is_identity() {
    let s = coll(Shape::Float);
    assert!(common_preferred_shape(&Shape::Bottom, &s) == s);
    assert!(common_preferred_shape(&s, &Shape::Bottom) == s);
}

#[test]
fn csh_null_makes_nullable() {
    assert!(common_preferred_shape(&Shape::Null, &Shape::Int) == Shape::NullInt);
    assert!(common_preferred_shape(&Shape::Str, &Shape::Null) == Shape::NullStr);
    let a = any(vec![Shape::Int]);
    assert!(common_preferred_shape(&Shape::Null, &a) == a);
    let c = coll(Shape::Int);
    assert!(common_preferred_shape(&c, &Shape::Null) == c.make_nullable());
}

#[test]
fn csh_collections_join_elements() {
    let r = common_preferred_shape(&coll(Shape::Int), &coll(Shape::NullInt));
    assert!(r == coll(Shape::NullInt));
    let r = common_preferred_shape(&coll(Shape::Bottom), &coll(Shape::Str));
    assert!(r == coll(Shape::Str));
}

#[test]
fn csh_any_appends() {
    let a = any(vec![Shape::Int]);
    assert!(common_preferred_shape(&a, &Shape::Str) == any(vec![Shape::Int, Shape::Str]));
    assert!(common_preferred_shape(&Shape::Str, &a) == any(vec![Shape::Int, Shape::Str]));
    let b = any(vec![Shape::Bool]);
    assert!(common_preferred_shape(&a, &b) == any(vec![Shape::Int, any(vec![Shape::Bool])]));
}

#[test]
fn csh_records_join_all_fields() {
    let r1 = record(vec![("a", Shape::Int), ("b", Shape::Str)]);
    let r2 = record(vec![("a", Shape::NullInt), ("c", Shape::Bool)]);
    let expected = record(vec![("a", Shape::NullInt), ("b", Shape::NullStr), ("c", Shape::NullBool)]);
    let r = common_preferred_shape(&Shape::Rec(r1), &Shape::Rec(r2));
    assert!(r == Shape::Rec(expected));
}

#[test]
fn csh_record_field_only_in_second() {
    let r = common_preferred_shape(
        &Shape::Rec(RecordShape::new()),
        &Shape::Rec(record(vec![("z", Shape::Str), ("n", Shape::Null), ("b", Shape::Bottom)])),
    );
    let expected = record(vec![("z", Shape::NullStr), ("n", Shape::Null), ("b", Shape::Null)]);
    assert!(r == Shape::Rec(expected));
}

#[test]
fn csh_nullable_sides() {
    assert!(common_preferred_shape(&Shape::NullInt, &Shape::Int) == Shape::NullInt);
    assert!(common_preferred_shape(&Shape::Int, &Shape::NullInt) == Shape::NullInt);
    let r1 = record(vec![("a", Shape::Int)]);
    let r2 = record(vec![("a", Shape::Null), ("z", Shape::Str)]);
    let joined = record(vec![("a", Shape::NullInt), ("z", Shape::NullStr)]);
    let r = common_preferred_shape(&Shape::NullRec(r1.clone()), &Shape::Rec(r2.clone()));
    assert!(r == Shape::NullRec(joined.clone()));
    let r = common_preferred_shape(&Shape::NullRec(r1.clone()), &Shape::NullRec(r2));
    assert!(r == Shape::NullRec(joined));
    let c = common_preferred_shape(
        &Shape::NullColl(CollectionShape { base: Box::new(Shape::Int) }),
        &coll(Shape::Null),
    );
    assert!(c == Shape::NullColl(CollectionShape { base: Box::new(Shape::NullInt) }));
}

#[test]
fn csh_different_kinds_give_any() {
    assert!(common_preferred_shape(&Shape::Int, &Shape::Str) == any(vec![Shape::Int, Shape::Str]));
    assert!(common_preferred_shape(&Shape::Bool, &Shape::Float) == any(vec![Shape::Bool, Shape::Float]));
    let c = coll(Shape::Int);
    let r = Shape::Rec(record(vec![("a", Shape::Int)]));
    assert!(common_preferred_shape(&c, &r) == any(vec![coll(Shape::Int), r.clone()]));
    assert!(common_preferred_shape(&Shape::NullInt, &Shape::Str) == any(vec![Shape::Int, Shape::Str]));
    assert!(common_preferred_shape(&Shape::Int, &Shape::NullStr) == any(vec![Shape::Int, Shape::Str]));
    assert!(common_preferred_shape(&Shape::NullInt, &Shape::NullStr) == any(vec![Shape::Int, Shape::Str]));
}

#[test]
fn csh_record_fields_of_different_kinds() {
    let r1 = record(vec![("a", Shape::Int)]);
    let r2 = record(vec![("a", Shape::Str)]);
    let r = common_preferred_shape(&Shape::Rec(r1), &Shape::Rec(r2));
    assert!(r == Shape::Rec(record(vec![("a", any(vec![Shape::Int, Shape::Str]))])));
    let r = common_preferred_shape(&coll(Shape::Int), &coll(Shape::Bool));
    assert!(r == coll(any(vec![Shape::Int, Shape::Bool])));
}

#[test]
fn csh_nested() {
    let inner1 = Shape::Rec(record(vec![("x", Shape::Int)]));
    let inner2 = Shape::Rec(record(vec![("x", Shape::Null), ("y", Shape::Bool)]));
    let r = common_preferred_shape(&coll(inner1), &coll(inner2));
    assert!(r == coll(Shape::Rec(record(vec![("x", Shape::NullInt), ("y", Shape::NullBool)]))));
}
