use vstd::prelude::*;
use crate::model::{ShapeModel, model_is_nullable, model_make_nullable, model_make_non_nullable};

verus! {

/// A shape: the inferred type of a value.
#[derive(Debug)]
pub enum Shape {
    Bottom,
    Any(AnyShape),
    Bool,
    Int,
    Float,
    Rec(RecordShape),
    Coll(CollectionShape),
    Str,
    Null,
    NullBool,
    NullInt,
    NullFloat,
    NullRec(RecordShape),
    NullColl(CollectionShape),
    NullStr,
}

/// The union of several shapes, in the order they were met.
#[derive(Debug)]
pub struct AnyShape {
    pub shapes: Vec<Shape>,
}

/// A record: each field name maps to the shape of that field.
#[derive(Debug)]
pub struct RecordShape {
    fields: Vec<(String, Shape)>,
}

/// A collection whose elements all have the shape `base`.
#[derive(Debug)]
pub struct CollectionShape {
    pub base: Box<Shape>,
}

/// The model of a shape: the same kind, with the model of its payload.
pub open spec fn shape_model(s: Shape) -> ShapeModel
    decreases s,
{
    match s {
        Shape::Bottom => ShapeModel::Bottom,
        Shape::Any(a) => ShapeModel::Any(shapes_model(a.shapes@)),
        Shape::Bool => ShapeModel::Bool,
        Shape::Int => ShapeModel::Int,
        Shape::Float => ShapeModel::Float,
        Shape::Rec(r) => ShapeModel::Rec(r.field_map()),
        Shape::Coll(c) => ShapeModel::Coll(Box::new(shape_model(*c.base))),
        Shape::Str => ShapeModel::Str,
        Shape::Null => ShapeModel::Null,
        Shape::NullBool => ShapeModel::NullBool,
        Shape::NullInt => ShapeModel::NullInt,
        Shape::NullFloat => ShapeModel::NullFloat,
        Shape::NullRec(r) => ShapeModel::NullRec(r.field_map()),
        Shape::NullColl(c) => ShapeModel::NullColl(Box::new(shape_model(*c.base))),
        Shape::NullStr => ShapeModel::NullStr,
    }
}

/// The models of a list of shapes, in order.
pub open spec fn shapes_model(ss: Seq<Shape>) -> Seq<ShapeModel>
    decreases ss,
{
    Seq::new(ss.len(), |i: int| if 0 <= i < ss.len() { shape_model(ss[i]) } else { ShapeModel::Bottom })
}

/// The map from names to the models of their shapes that a list of fields
/// describes; a name that occurs twice takes its last shape.
pub open spec fn fields_model(fs: Seq<(String, Shape)>) -> Map<Seq<char>, ShapeModel>
    decreases fs,
{
    if fs.len() == 0 {
        Map::empty()
    } else {
        fields_model(fs.drop_last()).insert(fs.last().0@, shape_model(fs.last().1))
    }
}

/// The names of a list of fields, in order.
pub open spec fn names_of(fs: Seq<(String, Shape)>) -> Seq<Seq<char>> {
    fs.map_values(|p: (String, Shape)| p.0@)
}

impl RecordShape {
    /// The fields of the record, as a map from names to shapes.
    pub closed spec fn field_map(self) -> Map<Seq<char>, ShapeModel>
        decreases self,
    {
        fields_model(self.fields@)
    }

    /// The field names of the record, in the order in which they are visited.
    pub closed spec fn names(self) -> Seq<Seq<char>> {
        names_of(self.fields@)
    }

    /// No field name occurs twice.
    #[verifier::type_invariant]
    closed spec fn names_distinct(self) -> bool {
        names_of(self.fields@).no_duplicates()
    }
}

/// The names of a list of fields are the keys of its map.
proof fn lemma_fields_model_dom(fs: Seq<(String, Shape)>)
    ensures
        fields_model(fs).dom().finite(),
        fields_model(fs).dom() =~= names_of(fs).to_set(),
    decreases fs.len(),
{
    if fs.len() > 0 {
        lemma_fields_model_dom(fs.drop_last());
        assert(names_of(fs.drop_last()) =~= names_of(fs).drop_last());
        assert forall|k: Seq<char>|
            #[trigger] names_of(fs).to_set().contains(k) <==> fields_model(fs).dom().contains(k) by {
            if names_of(fs).contains(k) {
                let i = choose|i: int| 0 <= i < names_of(fs).len() && names_of(fs)[i] == k;
                if i < fs.len() - 1 {
                    assert(names_of(fs.drop_last())[i] == k);
                }
            }
            if fields_model(fs.drop_last()).dom().contains(k) {
                assert(names_of(fs.drop_last()).to_set().contains(k));
                let i = choose|i: int|
                    0 <= i < names_of(fs.drop_last()).len() && names_of(fs.drop_last())[i] == k;
                assert(names_of(fs)[i] == k);
            }
            if k == fs.last().0@ {
                assert(names_of(fs)[fs.len() - 1] == k);
            }
        }
    }
}

/// Where no name occurs twice, each field's shape is the map's value at its
/// name.
proof fn lemma_fields_model_at(fs: Seq<(String, Shape)>, i: int)
    requires
        names_of(fs).no_duplicates(),
        0 <= i < fs.len(),
    ensures
        fields_model(fs).contains_key(fs[i].0@),
        fields_model(fs)[fs[i].0@] == shape_model(fs[i].1),
    decreases fs.len(),
{
    lemma_fields_model_dom(fs);
    assert(names_of(fs)[i] == fs[i].0@);
    if i < fs.len() - 1 {
        let rest = fs.drop_last();
        assert(names_of(rest) =~= names_of(fs).drop_last());
        assert(names_of(fs)[fs.len() - 1] == fs.last().0@);
        lemma_fields_model_at(rest, i);
    }
}

/// Where no name occurs twice, the map has as many keys as the list has fields.
proof fn lemma_fields_model_len(fs: Seq<(String, Shape)>)
    requires
        names_of(fs).no_duplicates(),
    ensures
        fields_model(fs).len() == fs.len(),
{
    lemma_fields_model_dom(fs);
    names_of(fs).unique_seq_to_set();
}

/// Two lists of fields with the same names and shapes of the same models, in
/// the same order, describe the same map.
proof fn lemma_fields_model_same(fs: Seq<(String, Shape)>, gs: Seq<(String, Shape)>)
    requires
        fs.len() == gs.len(),
        forall|i: int|
            #![trigger fs[i], gs[i]]
            0 <= i < fs.len() ==> fs[i].0@ == gs[i].0@ && shape_model(fs[i].1) == shape_model(
                gs[i].1,
            ),
    ensures
        fields_model(fs) == fields_model(gs),
    decreases fs.len(),
{
    if fs.len() > 0 {
        lemma_fields_model_same(fs.drop_last(), gs.drop_last());
        assert(fs[fs.len() - 1].0@ == gs[gs.len() - 1].0@);
    }
}

impl View for Shape {
    type V = ShapeModel;

    open spec fn view(&self) -> ShapeModel {
        shape_model(*self)
    }
}

impl RecordShape {
    /// A record with no fields.
    pub fn new() -> (r: RecordShape)
        ensures
            r.field_map() == Map::<Seq<char>, ShapeModel>::empty(),
            r.names() == Seq::<Seq<char>>::empty(),
    {
        let r = RecordShape { fields: Vec::new() };
        assert(names_of(r.fields@) =~= Seq::<Seq<char>>::empty());
        assert(r.field_map() =~= Map::<Seq<char>, ShapeModel>::empty());
        r
    }

    /// The number of fields, with what every record keeps: its names are
    /// distinct and are exactly the keys of its field map.
    pub fn len(&self) -> (n: usize)
        ensures
            n == self.field_map().len(),
            n == self.names().len(),
            self.names().no_duplicates(),
            self.field_map().dom().finite(),
            self.field_map().dom() == self.names().to_set(),
    {
        proof {
            use_type_invariant(self);
            lemma_fields_model_dom(self.fields@);
            lemma_fields_model_len(self.fields@);
        }
        self.fields.len()
    }

    /// The name and the shape of the `i`-th field visited.
    pub fn entry(&self, i: usize) -> (e: (&String, &Shape))
        requires
            i < self.names().len(),
        ensures
            e.0@ == self.names()[i as int],
            self.field_map().contains_key(e.0@),
            e.1@ == self.field_map()[e.0@],
    {
        proof {
            use_type_invariant(self);
            lemma_fields_model_at(self.fields@, i as int);
        }
        let f = &self.fields[i];
        (&f.0, &f.1)
    }

    /// The shape of the field `name`, if the record has it.
    pub fn get(&self, name: &String) -> (r: Option<&Shape>)
        ensures
            match r {
                Some(s) => self.field_map().contains_key(name@) && s@ == self.field_map()[name@],
                None => !self.field_map().contains_key(name@),
            },
    {
        proof {
            use_type_invariant(self);
            lemma_fields_model_dom(self.fields@);
        }
        let n = self.fields.len();
        for i in 0..n
            invariant
                n == self.fields@.len(),
                names_of(self.fields@).no_duplicates(),
                forall|j: int| 0 <= j < i ==> #[trigger] self.fields@[j].0@ != name@,
        {
            if self.fields[i].0 == *name {
                proof {
                    lemma_fields_model_at(self.fields@, i as int);
                }
                return Some(&self.fields[i].1);
            }
        }
        proof {
            if self.field_map().contains_key(name@) {
                assert(names_of(self.fields@).to_set().contains(name@));
                let j = choose|j: int|
                    0 <= j < names_of(self.fields@).len() && names_of(self.fields@)[j] == name@;
                assert(self.fields@[j].0@ == name@);
            }
        }
        None
    }

    /// Sets the field `name` to `shape`, in place of its old shape if the
    /// record had the field already.
    pub fn insert(&mut self, name: String, shape: Shape)
        ensures
            final(self).field_map() == old(self).field_map().insert(name@, shape@),
    {
        proof {
            use_type_invariant(&*self);
        }
        let mut fields: Vec<(String, Shape)> = Vec::new();
        std::mem::swap(&mut fields, &mut self.fields);
        let ghost old_fields = fields@;
        proof {
            lemma_fields_model_dom(old_fields);
        }
        let n = fields.len();
        let mut found: usize = 0;
        while found < n && fields[found].0 != name
            invariant
                found <= n,
                n == fields@.len(),
                fields@ == old_fields,
                forall|j: int| 0 <= j < found ==> #[trigger] fields@[j].0@ != name@,
            decreases n - found,
        {
            found = found + 1;
        }
        if found < n {
            let ghost new_name = name@;
            let ghost new_model = shape@;
            fields.set(found, (name, shape));
            proof {
                assert(names_of(fields@) =~= names_of(old_fields));
                assert forall|k: Seq<char>|
                    #![trigger fields_model(fields@).contains_key(k)]
                    fields_model(fields@).contains_key(k) == fields_model(old_fields).insert(
                        new_name,
                        new_model,
                    ).contains_key(k)
                    && (fields_model(fields@).contains_key(k) ==> fields_model(fields@)[k]
                        == fields_model(old_fields).insert(new_name, new_model)[k]) by {
                    lemma_fields_model_dom(fields@);
                    assert(names_of(old_fields)[found as int] == new_name);
                    if fields_model(fields@).contains_key(k) {
                        assert(names_of(fields@).to_set().contains(k));
                        let j = choose|j: int|
                            0 <= j < names_of(fields@).len() && names_of(fields@)[j] == k;
                        assert(fields@[j].0@ == k);
                        lemma_fields_model_at(fields@, j);
                        lemma_fields_model_at(old_fields, j);
                    }
                }
                assert(fields_model(fields@) =~= fields_model(old_fields).insert(new_name, new_model));
            }
            self.fields = fields;
        } else {
            fields.push((name, shape));
            proof {
                assert(fields@.drop_last() =~= old_fields);
                assert(names_of(fields@) =~= names_of(old_fields).push(fields@.last().0@));
                assert(!names_of(old_fields).contains(fields@.last().0@)) by {
                    if names_of(old_fields).contains(fields@.last().0@) {
                        let j = choose|j: int|
                            0 <= j < names_of(old_fields).len() && names_of(old_fields)[j]
                                == fields@.last().0@;
                        assert(old_fields[j].0@ == fields@.last().0@);
                    }
                }
            }
            self.fields = fields;
        }
    }
}

/// A copy of `s`, with the same model.
fn copy_shape(s: &Shape) -> (r: Shape)
    ensures
        r@ == s@,
    decreases s@, 0int,
{
    proof {
        lemma_payload_smaller(*s);
    }
    match s {
        Shape::Bottom => Shape::Bottom,
        Shape::Any(a) => Shape::Any(copy_any(a)),
        Shape::Bool => Shape::Bool,
        Shape::Int => Shape::Int,
        Shape::Float => Shape::Float,
        Shape::Rec(r) => Shape::Rec(copy_record(r)),
        Shape::Coll(c) => Shape::Coll(copy_collection(c)),
        Shape::Str => Shape::Str,
        Shape::Null => Shape::Null,
        Shape::NullBool => Shape::NullBool,
        Shape::NullInt => Shape::NullInt,
        Shape::NullFloat => Shape::NullFloat,
        Shape::NullRec(r) => Shape::NullRec(copy_record(r)),
        Shape::NullColl(c) => Shape::NullColl(copy_collection(c)),
        Shape::NullStr => Shape::NullStr,
    }
}

/// The payload of a union, a record or a collection is smaller than the shape
/// that holds it.
pub proof fn lemma_payload_smaller(s: Shape)
    ensures
        s is Any ==> decreases_to!(s@ => shapes_model((s->Any_0).shapes@)),
        s is Rec ==> decreases_to!(s@ => (s->Rec_0).field_map()),
        s is NullRec ==> decreases_to!(s@ => (s->NullRec_0).field_map()),
        s is Coll ==> decreases_to!(s@ => (*(s->Coll_0).base)@),
        s is NullColl ==> decreases_to!(s@ => (*(s->NullColl_0).base)@),
{
    let m = s@;
    match s {
        Shape::Any(a) => {
            assert(decreases_to!(m => m->Any_0));
        },
        Shape::Rec(r) => {
            assert(decreases_to!(m => m->Rec_0));
        },
        Shape::NullRec(r) => {
            assert(decreases_to!(m => m->NullRec_0));
        },
        Shape::Coll(c) => {
            assert(decreases_to!(m => m->Coll_0));
        },
        Shape::NullColl(c) => {
            assert(decreases_to!(m => m->NullColl_0));
        },
        _ => {},
    }
}

/// A field of a record is smaller than the record's fields.
pub proof fn lemma_field_smaller(r: RecordShape, k: Seq<char>)
    requires
        r.field_map().contains_key(k),
    ensures
        decreases_to!(r.field_map() => r.field_map()[k]),
{
    broadcast use vstd::map::axiom_map_index_decreases_finite;

    lemma_fields_model_dom(r.fields@);
}

/// A copy of a collection shape.
fn copy_collection(c: &CollectionShape) -> (r: CollectionShape)
    ensures
        r.base@ == c.base@,
    decreases c.base@, 1int,
{
    CollectionShape { base: Box::new(copy_shape(&c.base)) }
}

/// A copy of a union.
fn copy_any(a: &AnyShape) -> (r: AnyShape)
    ensures
        shapes_model(r.shapes@) == shapes_model(a.shapes@),
    decreases shapes_model(a.shapes@), 1int,
{
    let n = a.shapes.len();
    let mut shapes: Vec<Shape> = Vec::new();
    for i in 0..n
        invariant
            n == a.shapes@.len(),
            shapes@.len() == i,
            forall|j: int| 0 <= j < i ==> #[trigger] shape_model(shapes@[j]) == shape_model(a.shapes@[j]),
    {
        proof {
            assert(shapes_model(a.shapes@)[i as int] == shape_model(a.shapes@[i as int]));
            assert(decreases_to!(shapes_model(a.shapes@) => shapes_model(a.shapes@)[i as int]));
        }
        shapes.push(copy_shape(&a.shapes[i]));
    }
    assert forall|j: int| 0 <= j < n implies shapes_model(shapes@)[j] == shapes_model(
        a.shapes@,
    )[j] by {
        assert(shape_model(shapes@[j]) == shape_model(a.shapes@[j]));
    }
    assert(shapes_model(shapes@) =~= shapes_model(a.shapes@));
    AnyShape { shapes }
}

/// A copy of a record.
fn copy_record(r: &RecordShape) -> (c: RecordShape)
    ensures
        c.field_map() == r.field_map(),
        c.names() == r.names(),
    decreases r.field_map(), 1int,
{
    proof {
        use_type_invariant(r);
    }
    let n = r.fields.len();
    let mut fields: Vec<(String, Shape)> = Vec::new();
    for i in 0..n
        invariant
            n == r.fields@.len(),
            names_of(r.fields@).no_duplicates(),
            fields@.len() == i,
            forall|j: int|
                #![trigger fields@[j], r.fields@[j]]
                0 <= j < i ==> fields@[j].0@ == r.fields@[j].0@ && shape_model(fields@[j].1)
                    == shape_model(r.fields@[j].1),
    {
        proof {
            lemma_fields_model_at(r.fields@, i as int);
            lemma_field_smaller(*r, r.fields@[i as int].0@);
        }
        let name = r.fields[i].0.clone();
        let value = copy_shape(&r.fields[i].1);
        fields.push((name, value));
    }
    proof {
        lemma_fields_model_same(fields@, r.fields@);
        assert(names_of(fields@) =~= names_of(r.fields@));
    }
    RecordShape { fields }
}

impl Clone for Shape {
    fn clone(&self) -> (r: Self)
        ensures
            r@ == self@,
    {
        copy_shape(self)
    }
}

impl Clone for AnyShape {
    fn clone(&self) -> (r: Self)
        ensures
            shapes_model(r.shapes@) == shapes_model(self.shapes@),
    {
        copy_any(self)
    }
}

impl Clone for RecordShape {
    fn clone(&self) -> (r: Self)
        ensures
            r.field_map() == self.field_map(),
            r.names() == self.names(),
    {
        copy_record(self)
    }
}

impl Clone for CollectionShape {
    fn clone(&self) -> (r: Self)
        ensures
            r.base@ == self.base@,
    {
        copy_collection(self)
    }
}

/// Whether two shapes are equal: of the same kind, with equal payloads.
/// Records are equal when they have the same fields with equal shapes;
/// unions when they hold equal shapes in the same order.
pub fn shapes_equal(a: &Shape, b: &Shape) -> (r: bool)
    ensures
        r == (a@ == b@),
    decreases a@, 0int,
{
    proof {
        lemma_payload_smaller(*a);
    }
    match (a, b) {
        (Shape::Any(x), Shape::Any(y)) => anys_equal(x, y),
        (Shape::Rec(x), Shape::Rec(y)) => records_equal(x, y),
        (Shape::NullRec(x), Shape::NullRec(y)) => records_equal(x, y),
        (Shape::Coll(x), Shape::Coll(y)) => shapes_equal(&x.base, &y.base),
        (Shape::NullColl(x), Shape::NullColl(y)) => shapes_equal(&x.base, &y.base),
        (Shape::Bottom, Shape::Bottom)
        | (Shape::Bool, Shape::Bool)
        | (Shape::Int, Shape::Int)
        | (Shape::Float, Shape::Float)
        | (Shape::Str, Shape::Str)
        | (Shape::Null, Shape::Null)
        | (Shape::NullBool, Shape::NullBool)
        | (Shape::NullInt, Shape::NullInt)
        | (Shape::NullFloat, Shape::NullFloat)
        | (Shape::NullStr, Shape::NullStr) => true,
        _ => false,
    }
}

/// Whether two unions hold equal shapes in the same order.
fn anys_equal(x: &AnyShape, y: &AnyShape) -> (r: bool)
    ensures
        r == (shapes_model(x.shapes@) == shapes_model(y.shapes@)),
    decreases shapes_model(x.shapes@), 1int,
{
    let n = x.shapes.len();
    if n != y.shapes.len() {
        assert(shapes_model(x.shapes@).len() != shapes_model(y.shapes@).len());
        return false;
    }
    for i in 0..n
        invariant
            n == x.shapes@.len(),
            n == y.shapes@.len(),
            forall|j: int|
                0 <= j < i ==> #[trigger] shape_model(x.shapes@[j]) == shape_model(y.shapes@[j]),
    {
        proof {
            assert(shapes_model(x.shapes@)[i as int] == shape_model(x.shapes@[i as int]));
            assert(decreases_to!(shapes_model(x.shapes@) => shapes_model(x.shapes@)[i as int]));
        }
        if !shapes_equal(&x.shapes[i], &y.shapes[i]) {
            assert(shapes_model(x.shapes@)[i as int] != shapes_model(y.shapes@)[i as int]);
            return false;
        }
    }
    assert forall|j: int| 0 <= j < n implies shapes_model(x.shapes@)[j] == shapes_model(
        y.shapes@,
    )[j] by {
        assert(shape_model(x.shapes@[j]) == shape_model(y.shapes@[j]));
    }
    assert(shapes_model(x.shapes@) =~= shapes_model(y.shapes@));
    true
}

/// Whether two records have the same fields, with equal shapes.
fn records_equal(x: &RecordShape, y: &RecordShape) -> (r: bool)
    ensures
        r == (x.field_map() == y.field_map()),
    decreases x.field_map(), 1int,
{
    let n = x.len();
    if n != y.len() {
        return false;
    }
    let ghost mx = x.field_map();
    let ghost my = y.field_map();
    for i in 0..n
        invariant
            n == x.names().len(),
            mx == x.field_map(),
            my == y.field_map(),
            forall|j: int|
                0 <= j < i ==> my.contains_key(#[trigger] x.names()[j]) && my[x.names()[j]]
                    == mx[x.names()[j]],
    {
        let (name, v) = x.entry(i);
        proof {
            lemma_field_smaller(*x, name@);
        }
        match y.get(name) {
            None => {
                return false;
            },
            Some(w) => {
                if !shapes_equal(v, w) {
                    return false;
                }
            },
        }
    }
    proof {
        assert forall|k: Seq<char>| mx.contains_key(k) implies #[trigger] my.contains_key(k) && my[k]
            == mx[k] by {
            assert(x.names().to_set().contains(k));
            let j = choose|j: int| 0 <= j < x.names().len() && x.names()[j] == k;
        }
        vstd::set_lib::lemma_subset_equality(mx.dom(), my.dom());
        assert(mx =~= my);
    }
    true
}

impl PartialEq for Shape {
    fn eq(&self, other: &Self) -> (r: bool) {
        shapes_equal(self, other)
    }
}

impl vstd::std_specs::cmp::PartialEqSpecImpl for Shape {
    open spec fn obeys_eq_spec() -> bool {
        true
    }

    open spec fn eq_spec(&self, other: &Self) -> bool {
        self@ == other@
    }
}

impl Eq for Shape {}

impl PartialEq for AnyShape {
    fn eq(&self, other: &Self) -> (r: bool) {
        anys_equal(self, other)
    }
}

impl vstd::std_specs::cmp::PartialEqSpecImpl for AnyShape {
    open spec fn obeys_eq_spec() -> bool {
        true
    }

    open spec fn eq_spec(&self, other: &Self) -> bool {
        shapes_model(self.shapes@) == shapes_model(other.shapes@)
    }
}

impl Eq for AnyShape {}

impl PartialEq for RecordShape {
    fn eq(&self, other: &Self) -> (r: bool) {
        records_equal(self, other)
    }
}

impl vstd::std_specs::cmp::PartialEqSpecImpl for RecordShape {
    open spec fn obeys_eq_spec() -> bool {
        true
    }

    open spec fn eq_spec(&self, other: &Self) -> bool {
        self.field_map() == other.field_map()
    }
}

impl Eq for RecordShape {}

impl PartialEq for CollectionShape {
    /// Two collections are equal when their element shapes are.
    fn eq(&self, other: &Self) -> (r: bool) {
        shapes_equal(&self.base, &other.base)
    }
}

impl vstd::std_specs::cmp::PartialEqSpecImpl for CollectionShape {
    open spec fn obeys_eq_spec() -> bool {
        true
    }

    open spec fn eq_spec(&self, other: &Self) -> bool {
        self.base@ == other.base@
    }
}

impl Eq for CollectionShape {}

impl Shape {
    /// The nullable version of this shape. `Any` and the shapes that are
    /// nullable already come back unchanged. `Bottom` has none.
    pub fn make_nullable(&self) -> (r: Self)
        requires
            self@ != ShapeModel::Bottom,
        ensures
            r@ == model_make_nullable(self@),
    {
        match self {
            Shape::Bottom => Shape::Bottom,
            Shape::Any(_) => self.clone(),
            Shape::Bool => Shape::NullBool,
            Shape::Int => Shape::NullInt,
            Shape::Float => Shape::NullFloat,
            Shape::Rec(r) => Shape::NullRec(r.clone()),
            Shape::Coll(c) => Shape::NullColl(c.clone()),
            Shape::Str => Shape::NullStr,
            Shape::Null
            | Shape::NullBool
            | Shape::NullInt
            | Shape::NullFloat
            | Shape::NullStr
            | Shape::NullRec(_)
            | Shape::NullColl(_) => self.clone(),
        }
    }

    /// The non-nullable version of this shape. `Any` and the shapes that are
    /// not nullable come back unchanged. `Bottom` and `Null` have none.
    pub fn make_non_nullable(&self) -> (r: Self)
        requires
            self@ != ShapeModel::Bottom,
            self@ != ShapeModel::Null,
        ensures
            r@ == model_make_non_nullable(self@),
    {
        match self {
            Shape::Bottom => Shape::Bottom,
            Shape::Null => Shape::Null,
            Shape::Any(_) => self.clone(),
            Shape::NullBool => Shape::Bool,
            Shape::NullInt => Shape::Int,
            Shape::NullFloat => Shape::Float,
            Shape::NullRec(r) => Shape::Rec(r.clone()),
            Shape::NullColl(c) => Shape::Coll(c.clone()),
            Shape::NullStr => Shape::Str,
            Shape::Bool | Shape::Int | Shape::Float | Shape::Str | Shape::Rec(_) | Shape::Coll(
                _,
            ) => self.clone(),
        }
    }

    /// Whether this shape admits `null`.
    pub fn is_nullable(&self) -> (r: bool)
        ensures
            r == model_is_nullable(self@),
    {
        match self {
            Shape::Bottom
            | Shape::Any(_)
            | Shape::Bool
            | Shape::Int
            | Shape::Float
            | Shape::Rec(_)
            | Shape::Coll(_)
            | Shape::Str => false,
            Shape::Null
            | Shape::NullBool
            | Shape::NullInt
            | Shape::NullFloat
            | Shape::NullStr
            | Shape::NullRec(_)
            | Shape::NullColl(_) => true,
        }
    }
}

impl CollectionShape {
    /// A constant of the collection type: five.
    pub fn vedant() -> (r: i32)
        ensures
            r == 5,
    {
        5
    }
}

} // verus!
