//! Model of the store's document representation.
//!
//! A document is an ordered sequence of named fields; a field value is one of
//! the value shapes the data-access layer actually inspects: the store's
//! native 12-byte object key, the generic binary wrapper that carries a
//! client-generated 128-bit key, and the plain scalar shapes that application
//! fields and filters use. A filter is itself a document: every filter field
//! must be present in a matching document with an equal value.

use vstd::prelude::*;

verus! {

/// A single field value of a document, filter, or update payload.
///
/// `ObjKey` is the store's native 12-byte key; `Binary` is the store's
/// generic binary wrapper (subtype tag plus bytes); `Other` stands for any
/// value shape the layer never inspects (two `Other` values compare equal,
/// which is sound here because the layer only ever produces `Other` as an
/// opaque placeholder for a store echo it cannot use).
pub enum Value {
    Null,
    Flag(bool),
    Int(i64),
    Text(String),
    ObjKey(Vec<u8>),
    Binary(u8, Vec<u8>),
    Other,
}

/// Mathematical view of a `Value`.
pub enum ValueView {
    Null,
    Flag(bool),
    Int(i64),
    Text(Seq<char>),
    ObjKey(Seq<u8>),
    Binary(u8, Seq<u8>),
    Other,
}

impl View for Value {
    type V = ValueView;

    open spec fn view(&self) -> ValueView {
        match self {
            Value::Null => ValueView::Null,
            Value::Flag(b) => ValueView::Flag(*b),
            Value::Int(i) => ValueView::Int(*i),
            Value::Text(s) => ValueView::Text(s@),
            Value::ObjKey(b) => ValueView::ObjKey(b@),
            Value::Binary(st, b) => ValueView::Binary(*st, b@),
            Value::Other => ValueView::Other,
        }
    }
}

/// One named field of a document.
pub struct Field {
    pub name: String,
    pub value: Value,
}

/// Mathematical view of a `Field`.
pub struct FieldView {
    pub name: Seq<char>,
    pub value: ValueView,
}

impl View for Field {
    type V = FieldView;

    open spec fn view(&self) -> FieldView {
        FieldView { name: self.name@, value: self.value@ }
    }
}

/// An ordered sequence of named fields: a document, a filter, or a partial
/// update payload.
pub struct Document {
    pub fields: Vec<Field>,
}

impl View for Document {
    type V = Seq<FieldView>;

    open spec fn view(&self) -> Seq<FieldView> {
        Seq::new(self.fields@.len(), |i: int| self.fields@[i]@)
    }
}

/// The value of the first field named `name`, if any.
pub open spec fn get_field(d: Seq<FieldView>, name: Seq<char>) -> Option<ValueView>
    decreases d.len(),
{
    if d.len() == 0 {
        None
    } else if d[0].name == name {
        Some(d[0].value)
    } else {
        get_field(d.skip(1), name)
    }
}

/// A document matches a filter when every filter field is present in the
/// document (first occurrence) with an equal value.
pub open spec fn doc_matches(d: Seq<FieldView>, filter: Seq<FieldView>) -> bool {
    forall|i: int|
        0 <= i < filter.len() ==> get_field(d, filter[i].name) == Some(#[trigger] filter[i].value)
}

/// Index of the first field named `name`; the length when no field has it.
pub open spec fn name_index(d: Seq<FieldView>, name: Seq<char>) -> int
    decreases d.len(),
{
    if d.len() == 0 {
        0
    } else if d[0].name == name {
        0
    } else {
        1 + name_index(d.skip(1), name)
    }
}

pub proof fn lemma_name_index(d: Seq<FieldView>, name: Seq<char>)
    ensures
        0 <= name_index(d, name) <= d.len(),
        name_index(d, name) < d.len() ==> d[name_index(d, name)].name == name,
        forall|j: int| 0 <= j < name_index(d, name) ==> d[j].name != name,
        (name_index(d, name) == d.len()) == (get_field(d, name) is None),
        name_index(d, name) < d.len() ==> get_field(d, name) == Some(
            d[name_index(d, name)].value,
        ),
    decreases d.len(),
{
    if d.len() == 0 {
    } else if d[0].name == name {
    } else {
        lemma_name_index(d.skip(1), name);
        assert forall|j: int| 0 <= j < name_index(d, name) implies d[j].name != name by {
            if j > 0 {
                assert(d.skip(1)[j - 1] == d[j]);
            }
        }
    }
}

pub proof fn lemma_get_field_push(d: Seq<FieldView>, f: FieldView)
    requires
        get_field(d, f.name) is None,
    ensures
        get_field(d.push(f), f.name) == Some(f.value),
    decreases d.len(),
{
    if d.len() == 0 {
        assert(d.push(f)[0] == f);
    } else {
        assert(d.push(f)[0] == d[0]);
        assert(d.push(f).skip(1) =~= d.skip(1).push(f));
        lemma_get_field_push(d.skip(1), f);
    }
}

/// Replace the value of the first field named `f.name`, or append `f` when no
/// field has that name: the field-merge step for one payload field.
pub open spec fn put_field(d: Seq<FieldView>, f: FieldView) -> Seq<FieldView>
    decreases d.len(),
{
    if d.len() == 0 {
        seq![f]
    } else if d[0].name == f.name {
        seq![f] + d.skip(1)
    } else {
        seq![d[0]] + put_field(d.skip(1), f)
    }
}

pub proof fn lemma_put_field_explicit(d: Seq<FieldView>, f: FieldView)
    ensures
        name_index(d, f.name) < d.len() ==> put_field(d, f) == d.update(name_index(d, f.name), f),
        name_index(d, f.name) == d.len() ==> put_field(d, f) == d.push(f),
    decreases d.len(),
{
    lemma_name_index(d, f.name);
    if d.len() == 0 {
        assert(put_field(d, f) =~= d.push(f));
    } else if d[0].name == f.name {
        assert(put_field(d, f) =~= d.update(0, f));
    } else {
        lemma_put_field_explicit(d.skip(1), f);
        lemma_name_index(d.skip(1), f.name);
        let i = name_index(d, f.name);
        if i < d.len() {
            assert(seq![d[0]] + d.skip(1).update(i - 1, f) =~= d.update(i, f));
        } else {
            assert(seq![d[0]] + d.skip(1).push(f) =~= d.push(f));
        }
    }
}

/// Merge every payload field into the document, left to right.
pub open spec fn set_fields(d: Seq<FieldView>, payload: Seq<FieldView>) -> Seq<FieldView>
    decreases payload.len(),
{
    if payload.len() == 0 {
        d
    } else {
        set_fields(put_field(d, payload[0]), payload.skip(1))
    }
}

pub proof fn lemma_put_field_preserves_other(d: Seq<FieldView>, f: FieldView, name: Seq<char>)
    requires
        f.name != name,
    ensures
        get_field(put_field(d, f), name) == get_field(d, name),
    decreases d.len(),
{
    let x = put_field(d, f);
    if d.len() == 0 {
        assert(x == seq![f]);
        assert(x[0] == f);
        assert(x.skip(1) =~= Seq::<FieldView>::empty());
        assert(get_field(x, name) == get_field(x.skip(1), name));
        assert(get_field(x.skip(1), name) is None);
    } else if d[0].name == f.name {
        assert(x == seq![f] + d.skip(1));
        assert(x[0] == f);
        assert(x.skip(1) =~= d.skip(1));
        assert(get_field(x, name) == get_field(x.skip(1), name));
        assert(get_field(d, name) == get_field(d.skip(1), name));
    } else {
        assert(x == seq![d[0]] + put_field(d.skip(1), f));
        assert(x[0] == d[0]);
        assert(x.skip(1) =~= put_field(d.skip(1), f));
        lemma_put_field_preserves_other(d.skip(1), f, name);
        if d[0].name == name {
            assert(get_field(x, name) == Some(d[0].value));
        } else {
            assert(get_field(x, name) == get_field(x.skip(1), name));
            assert(get_field(d, name) == get_field(d.skip(1), name));
        }
    }
}

/// A field merge reads back unchanged at every name the payload does not
/// carry — in particular, a payload without an identifier field preserves the
/// document's identity.
pub proof fn lemma_set_fields_preserves_other(d: Seq<FieldView>, p: Seq<FieldView>, name: Seq<char>)
    requires
        forall|i: int| 0 <= i < p.len() ==> (#[trigger] p[i].name) != name,
    ensures
        get_field(set_fields(d, p), name) == get_field(d, name),
    decreases p.len(),
{
    if p.len() == 0 {
    } else {
        lemma_put_field_preserves_other(d, p[0], name);
        assert forall|i: int| 0 <= i < p.skip(1).len() implies (#[trigger] p.skip(1)[i].name)
            != name by {
            assert(p.skip(1)[i] == p[i + 1]);
        }
        lemma_set_fields_preserves_other(put_field(d, p[0]), p.skip(1), name);
    }
}

pub proof fn lemma_set_fields_push(d: Seq<FieldView>, p: Seq<FieldView>, f: FieldView)
    ensures
        set_fields(d, p.push(f)) == put_field(set_fields(d, p), f),
    decreases p.len(),
{
    if p.len() == 0 {
        assert(p.push(f).skip(1) =~= Seq::<FieldView>::empty());
        assert(set_fields(d, p.push(f)) == set_fields(put_field(d, f), p.push(f).skip(1)));
    } else {
        assert(p.push(f)[0] == p[0]);
        assert(p.push(f).skip(1) =~= p.skip(1).push(f));
        lemma_set_fields_push(put_field(d, p[0]), p.skip(1), f);
    }
}

/// Byte-vector copy with a view-level contract.
pub fn clone_bytes(b: &Vec<u8>) -> (r: Vec<u8>)
    ensures
        r@ == b@,
{
    let mut out: Vec<u8> = Vec::new();
    let n = b.len();
    let mut i: usize = 0;
    while i < n
        invariant
            n == b@.len(),
            i <= n,
            out@ == b@.take(i as int),
        decreases n - i,
    {
        out.push(b[i]);
        proof {
            assert(out@ =~= b@.take(i as int + 1));
        }
        i += 1;
    }
    proof {
        assert(b@.take(n as int) =~= b@);
    }
    out
}

/// Byte-vector equality with a view-level contract.
pub fn eq_bytes(a: &Vec<u8>, b: &Vec<u8>) -> (r: bool)
    ensures
        r == (a@ == b@),
{
    if a.len() != b.len() {
        return false;
    }
    let n = a.len();
    let mut i: usize = 0;
    while i < n
        invariant
            n == a@.len(),
            a@.len() == b@.len(),
            i <= n,
            forall|j: int| 0 <= j < i ==> a@[j] == b@[j],
        decreases n - i,
    {
        if a[i] != b[i] {
            return false;
        }
        i += 1;
    }
    proof {
        assert(a@ =~= b@);
    }
    true
}

/// Value copy with a view-level contract.
pub fn clone_value(v: &Value) -> (r: Value)
    ensures
        r@ == v@,
{
    match v {
        Value::Null => Value::Null,
        Value::Flag(b) => Value::Flag(*b),
        Value::Int(i) => Value::Int(*i),
        Value::Text(s) => Value::Text(s.clone()),
        Value::ObjKey(b) => Value::ObjKey(clone_bytes(b)),
        Value::Binary(st, b) => Value::Binary(*st, clone_bytes(b)),
        Value::Other => Value::Other,
    }
}

/// Value equality at the view level.
pub fn value_eq(a: &Value, b: &Value) -> (r: bool)
    ensures
        r == (a@ == b@),
{
    match a {
        Value::Null => match b {
            Value::Null => true,
            _ => false,
        },
        Value::Flag(x) => match b {
            Value::Flag(y) => *x == *y,
            _ => false,
        },
        Value::Int(x) => match b {
            Value::Int(y) => *x == *y,
            _ => false,
        },
        Value::Text(x) => match b {
            Value::Text(y) => *x == *y,
            _ => false,
        },
        Value::ObjKey(x) => match b {
            Value::ObjKey(y) => eq_bytes(x, y),
            _ => false,
        },
        Value::Binary(sx, bx) => match b {
            Value::Binary(sy, by) => *sx == *sy && eq_bytes(bx, by),
            _ => false,
        },
        Value::Other => match b {
            Value::Other => true,
            _ => false,
        },
    }
}

/// Document equality at the view level.
pub fn doc_eq(a: &Document, b: &Document) -> (r: bool)
    ensures
        r == (a@ == b@),
{
    if a.fields.len() != b.fields.len() {
        return false;
    }
    let n = a.fields.len();
    let mut i: usize = 0;
    while i < n
        invariant
            n == a.fields@.len(),
            a@.len() == b@.len(),
            i <= n,
            forall|j: int| 0 <= j < i ==> a@[j] == b@[j],
        decreases n - i,
    {
        let same_name = a.fields[i].name == b.fields[i].name;
        let same_value = value_eq(&a.fields[i].value, &b.fields[i].value);
        if !same_name || !same_value {
            proof {
                assert(a@[i as int] != b@[i as int]);
            }
            return false;
        }
        proof {
            assert(a@[i as int] == b@[i as int]);
        }
        i += 1;
    }
    proof {
        assert(a@ =~= b@);
    }
    true
}

/// Field copy with a view-level contract.
pub fn clone_field(f: &Field) -> (r: Field)
    ensures
        r@ == f@,
{
    Field { name: f.name.clone(), value: clone_value(&f.value) }
}

/// Document copy with a view-level contract.
pub fn clone_doc(d: &Document) -> (r: Document)
    ensures
        r@ == d@,
{
    let mut fields: Vec<Field> = Vec::new();
    let n = d.fields.len();
    let mut i: usize = 0;
    while i < n
        invariant
            n == d.fields@.len(),
            i <= n,
            fields@.len() == i,
            forall|j: int| 0 <= j < i ==> fields@[j]@ == d@[j],
        decreases n - i,
    {
        fields.push(clone_field(&d.fields[i]));
        i += 1;
    }
    let r = Document { fields };
    proof {
        assert(r@ =~= d@);
    }
    r
}

/// Reference to the value of the first field named `name`, if any.
pub fn get_value<'a>(d: &'a Document, name: &String) -> (r: Option<&'a Value>)
    ensures
        match r {
            Some(v) => get_field(d@, name@) == Some(v@),
            None => get_field(d@, name@) is None,
        },
{
    let n = d.fields.len();
    let mut i: usize = 0;
    while i < n
        invariant
            n == d.fields@.len(),
            i <= n,
            forall|j: int| 0 <= j < i ==> d@[j].name != name@,
        decreases n - i,
    {
        if d.fields[i].name == *name {
            proof {
                assert(d@[i as int].name == name@);
                lemma_name_index(d@, name@);
                let ni = name_index(d@, name@);
                if ni < i as int {
                    assert(d@[ni].name != name@);
                } else if ni > i as int {
                    assert(d@[i as int].name != name@);
                }
                assert(ni == i as int);
            }
            return Some(&d.fields[i].value);
        }
        proof {
            assert(d@[i as int].name != name@);
        }
        i += 1;
    }
    proof {
        lemma_name_index(d@, name@);
        let ni = name_index(d@, name@);
        if ni < d@.len() {
            assert(d@[ni].name != name@);
        }
        assert(ni == d@.len());
    }
    None
}

/// Whether the document matches the filter.
pub fn matches_filter(d: &Document, filter: &Document) -> (r: bool)
    ensures
        r == doc_matches(d@, filter@),
{
    let n = filter.fields.len();
    let mut i: usize = 0;
    while i < n
        invariant
            n == filter.fields@.len(),
            i <= n,
            forall|j: int|
                0 <= j < i ==> get_field(d@, filter@[j].name) == Some(#[trigger] filter@[j].value),
        decreases n - i,
    {
        let f = &filter.fields[i];
        let hit = match get_value(d, &f.name) {
            Some(v) => value_eq(v, &f.value),
            None => false,
        };
        if !hit {
            proof {
                assert(get_field(d@, filter@[i as int].name) != Some(filter@[i as int].value));
            }
            return false;
        }
        i += 1;
    }
    true
}

/// Merge a partial payload into a document: each payload field, in order,
/// replaces the value of the first document field of the same name, or is
/// appended when the document has no such field.
pub fn apply_set_fields(d: &Document, payload: &Document) -> (r: Document)
    ensures
        r@ == set_fields(d@, payload@),
{
    let mut cur = clone_doc(d);
    let n = payload.fields.len();
    let mut i: usize = 0;
    while i < n
        invariant
            n == payload.fields@.len(),
            i <= n,
            cur@ == set_fields(d@, payload@.take(i as int)),
        decreases n - i,
    {
        let next = apply_put_field(&cur, &payload.fields[i]);
        proof {
            assert(payload@.take(i as int + 1) =~= payload@.take(i as int).push(
                payload@[i as int],
            ));
            lemma_set_fields_push(d@, payload@.take(i as int), payload@[i as int]);
        }
        cur = next;
        i += 1;
    }
    proof {
        assert(payload@.take(n as int) =~= payload@);
    }
    cur
}

/// One field-merge step: `put_field` made executable.
pub fn apply_put_field(d: &Document, f: &Field) -> (r: Document)
    ensures
        r@ == put_field(d@, f@),
{
    let mut out = clone_doc(d);
    let n = out.fields.len();
    let mut i: usize = 0;
    while i < n
        invariant
            n == out.fields@.len(),
            i <= n,
            out@ == d@,
            n == d@.len(),
            forall|j: int| 0 <= j < i ==> d@[j].name != f@.name,
        decreases n - i,
    {
        if out.fields[i].name == f.name {
            proof {
                assert(d@[i as int].name == f@.name);
                lemma_name_index(d@, f@.name);
                let ni = name_index(d@, f@.name);
                if ni < i as int {
                    assert(d@[ni].name != f@.name);
                } else if ni > i as int {
                    assert(d@[i as int].name != f@.name);
                }
                assert(ni == i as int);
                lemma_put_field_explicit(d@, f@);
            }
            out.fields[i] = clone_field(f);
            proof {
                assert(out@ =~= d@.update(i as int, f@));
            }
            return out;
        }
        proof {
            assert(d@[i as int] == out@[i as int]);
            assert(d@[i as int].name != f@.name);
        }
        i += 1;
    }
    proof {
        lemma_name_index(d@, f@.name);
        let ni = name_index(d@, f@.name);
        if ni < d@.len() {
            assert(d@[ni].name != f@.name);
        }
        assert(ni == d@.len());
        lemma_put_field_explicit(d@, f@);
    }
    out.fields.push(clone_field(f));
    proof {
        assert(out@ =~= d@.push(f@));
    }
    out
}

} // verus!
