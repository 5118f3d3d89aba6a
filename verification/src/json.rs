//! JSON values as the kernel reads and writes them: a plain tree with a
//! mathematical view, its canonical (key-sorted, compact) text, and the two
//! searches that keep credentials out of durable records.

use crate::digest::nibble_char;
use crate::text::{
    before, contains, decimal, decimal_text, ends, has_suffix, less, occurs, opt_view, same, signed,
    signed_text,
};
use vstd::prelude::*;
use vstd::string::*;

verus! {

/// A JSON value. Numbers are told apart the way readers of the kernel need them:
/// unsigned, negative, or anything else in its printed form.
#[derive(Debug)]
pub enum Json {
    Null,
    Bool(bool),
    Unsigned(u64),
    Negative(i64),
    Float(String),
    Text(String),
    Array(Vec<Json>),
    Object(Vec<(String, Json)>),
}

/// The mathematical form of a [`Json`] value.
pub ghost enum JsonView {
    Null,
    Bool(bool),
    Unsigned(nat),
    Negative(int),
    Float(Seq<char>),
    Text(Seq<char>),
    Array(Seq<JsonView>),
    Object(Seq<(Seq<char>, JsonView)>),
}

/// The mathematical form of a value.
pub open spec fn json_view(j: Json) -> JsonView
    decreases j,
{
    match j {
        Json::Null => JsonView::Null,
        Json::Bool(b) => JsonView::Bool(b),
        Json::Unsigned(n) => JsonView::Unsigned(n as nat),
        Json::Negative(n) => JsonView::Negative(n as int),
        Json::Float(t) => JsonView::Float(t@),
        Json::Text(s) => JsonView::Text(s@),
        Json::Array(v) => JsonView::Array(
            Seq::new(
                v@.len(),
                |i: int|
                    if 0 <= i < v@.len() {
                        json_view(v@[i])
                    } else {
                        JsonView::Null
                    },
            ),
        ),
        Json::Object(v) => JsonView::Object(
            Seq::new(
                v@.len(),
                |i: int|
                    if 0 <= i < v@.len() {
                        (v@[i].0@, json_view(v@[i].1))
                    } else {
                        (Seq::empty(), JsonView::Null)
                    },
            ),
        ),
    }
}

impl View for Json {
    type V = JsonView;

    open spec fn view(&self) -> JsonView {
        json_view(*self)
    }
}

/// The views of a list of values.
pub open spec fn items_view(v: Seq<Json>) -> Seq<JsonView> {
    v.map_values(|j: Json| j@)
}

/// The views of a list of fields.
pub open spec fn fields_view(v: Seq<(String, Json)>) -> Seq<(Seq<char>, JsonView)> {
    v.map_values(|f: (String, Json)| (f.0@, f.1@))
}

pub proof fn lemma_array_view(v: Vec<Json>)
    ensures
        Json::Array(v)@ == JsonView::Array(items_view(v@)),
{
    assert(Json::Array(v)@->Array_0 =~= items_view(v@));
}

pub proof fn lemma_object_view(v: Vec<(String, Json)>)
    ensures
        Json::Object(v)@ == JsonView::Object(fields_view(v@)),
{
    assert(Json::Object(v)@->Object_0 =~= fields_view(v@));
}

/// An array of the given values.
pub fn array(v: Vec<Json>) -> (r: Json)
    ensures
        r@ == JsonView::Array(items_view(v@)),
{
    proof {
        lemma_array_view(v);
    }
    Json::Array(v)
}

/// An object of the given fields.
pub fn object(v: Vec<(String, Json)>) -> (r: Json)
    ensures
        r@ == JsonView::Object(fields_view(v@)),
{
    proof {
        lemma_object_view(v);
    }
    Json::Object(v)
}

/// An empty list of fields.
pub fn fields() -> (r: Vec<(String, Json)>)
    ensures
        fields_view(r@) == Seq::<(Seq<char>, JsonView)>::empty(),
{
    let out: Vec<(String, Json)> = Vec::new();
    assert(fields_view(out@) =~= Seq::<(Seq<char>, JsonView)>::empty());
    out
}

/// Appends a field.
pub fn put(v: &mut Vec<(String, Json)>, name: &str, value: Json)
    ensures
        fields_view(final(v)@) == fields_view(old(v)@).push((name@, value@)),
{
    v.push((name.to_owned(), value));
    assert(fields_view(v@) =~= fields_view(old(v)@).push((name@, value@)));
}

/// An empty list of values.
pub fn items() -> (r: Vec<Json>)
    ensures
        items_view(r@) == Seq::<JsonView>::empty(),
{
    let out: Vec<Json> = Vec::new();
    assert(items_view(out@) =~= Seq::<JsonView>::empty());
    out
}

/// Appends a value.
pub fn push_item(v: &mut Vec<Json>, value: Json)
    ensures
        items_view(final(v)@) == items_view(old(v)@).push(value@),
{
    v.push(value);
    assert(items_view(v@) =~= items_view(old(v)@).push(value@));
}

/// A text value.
pub fn txt(s: &str) -> (r: Json)
    ensures
        r@ == JsonView::Text(s@),
{
    Json::Text(s.to_owned())
}

/// A text value, or null where there is none.
pub open spec fn opt_text_view(s: Option<Seq<char>>) -> JsonView {
    match s {
        Some(t) => JsonView::Text(t),
        None => JsonView::Null,
    }
}

/// A text, or null where there is none.
pub fn opt_txt(s: &Option<String>) -> (r: Json)
    ensures
        r@ == opt_text_view(opt_view(*s)),
{
    match s {
        Some(s) => txt(s.as_str()),
        None => Json::Null,
    }
}

/// A number value of either sign.
pub open spec fn signed_view(n: int) -> JsonView {
    if n < 0 {
        JsonView::Negative(n)
    } else {
        JsonView::Unsigned(n as nat)
    }
}

/// A number value of either sign.
pub fn number(n: i64) -> (r: Json)
    ensures
        r@ == signed_view(n as int),
{
    if n < 0 {
        Json::Negative(n)
    } else {
        Json::Unsigned(n as u64)
    }
}

/// The value of the first field named `key` among `fields`.
pub open spec fn field_in(fields: Seq<(Seq<char>, JsonView)>, key: Seq<char>) -> Option<JsonView>
    decreases fields.len(),
{
    if fields.len() == 0 {
        None
    } else if fields[0].0 == key {
        Some(fields[0].1)
    } else {
        field_in(fields.skip(1), key)
    }
}

/// The value of a field of an object; nothing for a value of another kind.
pub open spec fn field_of(v: JsonView, key: Seq<char>) -> Option<JsonView> {
    match v {
        JsonView::Object(fields) => field_in(fields, key),
        _ => None,
    }
}

/// The text a value holds, if it is a text.
pub open spec fn as_text_view(v: Option<JsonView>) -> Option<Seq<char>> {
    match v {
        Some(JsonView::Text(s)) => Some(s),
        _ => None,
    }
}

/// The unsigned number a value holds, if it is one.
pub open spec fn as_u64_view(v: Option<JsonView>) -> Option<nat> {
    match v {
        Some(JsonView::Unsigned(n)) => Some(n),
        _ => None,
    }
}

impl Json {
    /// The value of a field of an object.
    pub fn get(&self, key: &str) -> (r: Option<&Json>)
        ensures
            match r {
                Some(v) => field_of(self@, key@) == Some(v@),
                None => field_of(self@, key@) is None,
            },
    {
        match self {
            Json::Object(v) => {
                proof {
                    lemma_object_view(*v);
                }
                let mut i: usize = 0;
                assert(fields_view(v@).skip(0) =~= fields_view(v@));
                while i < v.len()
                    invariant
                        i <= v@.len(),
                        self@ == JsonView::Object(fields_view(v@)),
                        field_of(self@, key@) == field_in(fields_view(v@).skip(i as int), key@),
                    decreases v@.len() - i,
                {
                    let ghost rest = fields_view(v@).skip(i as int);
                    assert(rest[0] == (v@[i as int].0@, v@[i as int].1@));
                    assert(rest.skip(1) =~= fields_view(v@).skip(i + 1));
                    if same(v[i].0.as_str(), key) {
                        return Some(&v[i].1);
                    }
                    i = i + 1;
                }
                None
            },
            _ => None,
        }
    }

    /// The text this value holds, if it is a text.
    pub fn as_str(&self) -> (r: Option<&str>)
        ensures
            match r {
                Some(s) => as_text_view(Some(self@)) == Some(s@),
                None => as_text_view(Some(self@)) is None,
            },
    {
        match self {
            Json::Text(s) => Some(s.as_str()),
            _ => None,
        }
    }

    /// The unsigned number this value holds, if it is one.
    pub fn as_u64(&self) -> (r: Option<u64>)
        ensures
            match r {
                Some(n) => as_u64_view(Some(self@)) == Some(n as nat),
                None => as_u64_view(Some(self@)) is None,
            },
    {
        match self {
            Json::Unsigned(n) => Some(*n),
            _ => None,
        }
    }

    /// The text of a field of an object.
    pub fn get_str(&self, key: &str) -> (r: Option<&str>)
        ensures
            match r {
                Some(s) => as_text_view(field_of(self@, key@)) == Some(s@),
                None => as_text_view(field_of(self@, key@)) is None,
            },
    {
        match self.get(key) {
            Some(v) => v.as_str(),
            None => None,
        }
    }

    /// The unsigned number in a field of an object.
    pub fn get_u64(&self, key: &str) -> (r: Option<u64>)
        ensures
            match r {
                Some(n) => as_u64_view(field_of(self@, key@)) == Some(n as nat),
                None => as_u64_view(field_of(self@, key@)) is None,
            },
    {
        match self.get(key) {
            Some(v) => v.as_u64(),
            None => None,
        }
    }

    /// A copy of this value.
    pub fn copy(&self) -> (r: Json)
        ensures
            r@ == self@,
        decreases self,
    {
        match self {
            Json::Null => Json::Null,
            Json::Bool(b) => Json::Bool(*b),
            Json::Unsigned(n) => Json::Unsigned(*n),
            Json::Negative(n) => Json::Negative(*n),
            Json::Float(t) => Json::Float(t.clone()),
            Json::Text(s) => Json::Text(s.clone()),
            Json::Array(v) => {
                let mut out: Vec<Json> = Vec::new();
                let mut i: usize = 0;
                while i < v.len()
                    invariant
                        i <= v@.len(),
                        *self == Json::Array(*v),
                        items_view(out@) == items_view(v@).take(i as int),
                    decreases v@.len() - i,
                {
                    assert(decreases_to!(*self => self->Array_0));
                    let item: Json = v[i].copy();
                    push_item(&mut out, item);
                    assert(items_view(v@).take(i + 1) =~= items_view(v@).take(i as int).push(v@[i as int]@));
                    i = i + 1;
                }
                proof {
                    lemma_array_view(*v);
                    assert(items_view(v@).take(v@.len() as int) =~= items_view(v@));
                }
                array(out)
            },
            Json::Object(v) => {
                let mut out: Vec<(String, Json)> = fields();
                let mut i: usize = 0;
                while i < v.len()
                    invariant
                        i <= v@.len(),
                        *self == Json::Object(*v),
                        fields_view(out@) == fields_view(v@).take(i as int),
                    decreases v@.len() - i,
                {
                    assert(decreases_to!(*self => self->Object_0));
                    assert(decreases_to!(v@[i as int] => v@[i as int].1));
                    let item: Json = v[i].1.copy();
                    put(&mut out, v[i].0.as_str(), item);
                    assert(fields_view(v@).take(i + 1) =~= fields_view(v@).take(i as int).push(
                        (v@[i as int].0@, v@[i as int].1@),
                    ));
                    i = i + 1;
                }
                proof {
                    lemma_object_view(*v);
                    assert(fields_view(v@).take(v@.len() as int) =~= fields_view(v@));
                }
                object(out)
            },
        }
    }
}

/// `field` put into `sorted` behind every field whose name does not stand after
/// its own.
pub open spec fn insert_field(
    sorted: Seq<(Seq<char>, JsonView)>,
    field: (Seq<char>, JsonView),
) -> Seq<(Seq<char>, JsonView)>
    decreases sorted.len(),
{
    if sorted.len() == 0 || !before(field.0, sorted.last().0) {
        sorted.push(field)
    } else {
        insert_field(sorted.drop_last(), field).push(sorted.last())
    }
}

/// The fields in the order of their names.
pub open spec fn sort_fields(fields: Seq<(Seq<char>, JsonView)>) -> Seq<(Seq<char>, JsonView)>
    decreases fields.len(),
{
    if fields.len() == 0 {
        fields
    } else {
        insert_field(sort_fields(fields.drop_last()), fields.last())
    }
}

/// The value with the fields of every object in it in the order of their names.
pub open spec fn sorted_view(v: JsonView) -> JsonView
    decreases v,
{
    match v {
        JsonView::Array(items) => JsonView::Array(
            Seq::new(
                items.len(),
                |i: int|
                    if 0 <= i < items.len() {
                        sorted_view(items[i])
                    } else {
                        JsonView::Null
                    },
            ),
        ),
        JsonView::Object(fields) => JsonView::Object(sort_fields(sorted_values(fields))),
        other => other,
    }
}

/// The fields with every value sorted.
pub open spec fn sorted_values(fields: Seq<(Seq<char>, JsonView)>) -> Seq<(Seq<char>, JsonView)>
    decreases fields,
{
    Seq::new(
        fields.len(),
        |i: int|
            if 0 <= i < fields.len() {
                (fields[i].0, sorted_view(fields[i].1))
            } else {
                (Seq::empty(), JsonView::Null)
            },
    )
}

/// Where `insert_field` puts a field: behind `at` fields.
proof fn lemma_insert_position(
    sorted: Seq<(Seq<char>, JsonView)>,
    field: (Seq<char>, JsonView),
    at: int,
)
    requires
        0 <= at <= sorted.len(),
        forall|k: int| at <= k < sorted.len() ==> before(field.0, #[trigger] sorted[k].0),
        at > 0 ==> !before(field.0, sorted[at - 1].0),
    ensures
        insert_field(sorted, field) == sorted.insert(at, field),
    decreases sorted.len(),
{
    if at == sorted.len() {
        assert(sorted.insert(at, field) =~= sorted.push(field));
    } else {
        assert(before(field.0, sorted[sorted.len() - 1].0));
        assert forall|k: int| at <= k < sorted.drop_last().len() implies before(
            field.0,
            #[trigger] sorted.drop_last()[k].0,
        ) by {
            assert(before(field.0, sorted[k].0));
        }
        lemma_insert_position(sorted.drop_last(), field, at);
        assert(sorted.insert(at, field) =~= sorted.drop_last().insert(at, field).push(sorted.last()));
    }
}

fn insert_sorted(v: &mut Vec<(String, Json)>, name: &str, value: Json)
    ensures
        fields_view(final(v)@) == insert_field(fields_view(old(v)@), (name@, value@)),
{
    let ghost view = fields_view(v@);
    let mut at: usize = v.len();
    while at > 0 && less(name, v[at - 1].0.as_str())
        invariant
            at <= v@.len(),
            view == fields_view(v@),
            v@ == old(v)@,
            forall|k: int| at <= k < view.len() ==> before(name@, #[trigger] view[k].0),
        decreases at,
    {
        at = at - 1;
    }
    proof {
        if at > 0 {
            assert(view[at - 1].0 == v@[at - 1].0@);
        }
        lemma_insert_position(view, (name@, value@), at as int);
    }
    v.insert(at, (name.to_owned(), value));
    assert(fields_view(v@) =~= view.insert(at as int, (name@, value@)));
}

/// Whether no two fields have the same name.
pub open spec fn distinct_names(f: Seq<(Seq<char>, JsonView)>) -> bool {
    forall|i: int, j: int|
        0 <= i < j < f.len() ==> (#[trigger] f[i]).0 != (#[trigger] f[j]).0
}

/// The value of a field after another field was added behind it.
pub proof fn lemma_field_in_push(
    f: Seq<(Seq<char>, JsonView)>,
    x: (Seq<char>, JsonView),
    k: Seq<char>,
)
    ensures
        field_in(f.push(x), k) == (match field_in(f, k) {
            Some(v) => Some(v),
            None => if x.0 == k {
                Some(x.1)
            } else {
                None
            },
        }),
    decreases f.len(),
{
    if f.len() == 0 {
        assert(f.push(x).skip(1) =~= Seq::empty());
        reveal_with_fuel(field_in, 2);
    } else {
        assert(f.push(x).skip(1) =~= f.skip(1).push(x));
        lemma_field_in_push(f.skip(1), x, k);
    }
}

/// A field is found exactly where one has the name.
pub proof fn lemma_field_in(f: Seq<(Seq<char>, JsonView)>, k: Seq<char>)
    ensures
        field_in(f, k) is Some <==> exists|i: int| 0 <= i < f.len() && (#[trigger] f[i]).0 == k,
    decreases f.len(),
{
    if f.len() > 0 {
        lemma_field_in(f.skip(1), k);
        if f[0].0 != k {
            if field_in(f.skip(1), k) is Some {
                let i = choose|i: int| 0 <= i < f.skip(1).len() && (#[trigger] f.skip(1)[i]).0 == k;
                assert(f[i + 1].0 == k);
            }
            if exists|i: int| 0 <= i < f.len() && (#[trigger] f[i]).0 == k {
                let i = choose|i: int| 0 <= i < f.len() && (#[trigger] f[i]).0 == k;
                assert(f.skip(1)[i - 1].0 == k);
            }
        }
    }
}

proof fn lemma_insert_names(
    sorted: Seq<(Seq<char>, JsonView)>,
    x: (Seq<char>, JsonView),
    k: Seq<char>,
)
    ensures
        insert_field(sorted, x).len() == sorted.len() + 1,
        field_in(insert_field(sorted, x), k) is Some <==> (x.0 == k || field_in(sorted, k) is Some),
        x.0 != k ==> field_in(insert_field(sorted, x), k) == field_in(sorted, k),
        x.0 == k && field_in(sorted, k) is None ==> field_in(insert_field(sorted, x), k) == Some(
            x.1,
        ),
    decreases sorted.len(),
{
    if sorted.len() == 0 || !before(x.0, sorted.last().0) {
        lemma_field_in_push(sorted, x, k);
    } else {
        let init = sorted.drop_last();
        lemma_insert_names(init, x, k);
        lemma_field_in_push(insert_field(init, x), sorted.last(), k);
        lemma_field_in_push(init, sorted.last(), k);
        assert(sorted =~= init.push(sorted.last()));
    }
}

proof fn lemma_sort_names(f: Seq<(Seq<char>, JsonView)>, k: Seq<char>)
    ensures
        field_in(sort_fields(f), k) is Some <==> field_in(f, k) is Some,
        distinct_names(f) ==> field_in(sort_fields(f), k) == field_in(f, k),
    decreases f.len(),
{
    if f.len() > 0 {
        let init = f.drop_last();
        let x = f.last();
        lemma_sort_names(init, k);
        lemma_insert_names(sort_fields(init), x, k);
        lemma_field_in_push(init, x, k);
        assert(f =~= init.push(x));
        if distinct_names(f) {
            assert(distinct_names(init)) by {
                assert forall|i: int, j: int| 0 <= i < j < init.len() implies (
                #[trigger] init[i]).0 != (#[trigger] init[j]).0 by {
                    assert(f[i].0 != f[j].0);
                }
            }
            if x.0 == k {
                lemma_field_in(init, k);
                if field_in(init, k) is Some {
                    let i = choose|i: int| 0 <= i < init.len() && (#[trigger] init[i]).0 == k;
                    assert(f[i].0 != f[f.len() - 1].0);
                }
            }
        }
    }
}

proof fn lemma_sorted_values(f: Seq<(Seq<char>, JsonView)>, k: Seq<char>)
    ensures
        field_in(sorted_values(f), k) == (match field_in(f, k) {
            Some(v) => Some(sorted_view(v)),
            None => None,
        }),
        distinct_names(f) ==> distinct_names(sorted_values(f)),
    decreases f.len(),
{
    let s = sorted_values(f);
    if f.len() > 0 {
        lemma_sorted_values(f.skip(1), k);
        assert(s.skip(1) =~= sorted_values(f.skip(1)));
    }
    if distinct_names(f) {
        assert forall|i: int, j: int| 0 <= i < j < s.len() implies (#[trigger] s[i]).0 != (
        #[trigger] s[j]).0 by {
            assert(f[i].0 != f[j].0);
        }
    }
}

/// Sorting an object loses no field, adds none, and sorts each value in its place.
pub proof fn law_sorting_keeps_the_fields(f: Seq<(Seq<char>, JsonView)>, k: Seq<char>)
    ensures
        field_of(sorted_view(JsonView::Object(f)), k) is Some <==> field_in(f, k) is Some,
        distinct_names(f) ==> field_of(sorted_view(JsonView::Object(f)), k) == (match field_in(
            f,
            k,
        ) {
            Some(v) => Some(sorted_view(v)),
            None => None,
        }),
{
    lemma_sorted_values(f, k);
    lemma_sort_names(sorted_values(f), k);
}

/// The value with the fields of every object in it in the order of their names.
pub fn sorted_json(value: &Json) -> (r: Json)
    ensures
        r@ == sorted_view(value@),
    decreases value,
{
    match value {
        Json::Array(v) => {
            let mut out: Vec<Json> = items();
            let mut i: usize = 0;
            proof {
                lemma_array_view(*v);
            }
            let ghost all = sorted_view(value@)->Array_0;
            assert(all.take(0) =~= Seq::<JsonView>::empty());
            while i < v.len()
                invariant
                    i <= v@.len(),
                    *value == Json::Array(*v),
                    value@ == JsonView::Array(items_view(v@)),
                    all == sorted_view(value@)->Array_0,
                    all.len() == v@.len(),
                    items_view(out@) == all.take(i as int),
                decreases v@.len() - i,
            {
                assert(decreases_to!(*value => value->Array_0));
                let item: Json = sorted_json(&v[i]);
                push_item(&mut out, item);
                assert(all[i as int] == sorted_view(v@[i as int]@));
                assert(all.take(i + 1) =~= all.take(i as int).push(all[i as int]));
                i = i + 1;
            }
            assert(all.take(v@.len() as int) =~= all);
            array(out)
        },
        Json::Object(v) => {
            let mut out: Vec<(String, Json)> = fields();
            let mut i: usize = 0;
            proof {
                lemma_object_view(*v);
            }
            let ghost all = sorted_values(fields_view(v@));
            assert(all.take(0) =~= Seq::<(Seq<char>, JsonView)>::empty());
            while i < v.len()
                invariant
                    i <= v@.len(),
                    *value == Json::Object(*v),
                    all == sorted_values(fields_view(v@)),
                    all.len() == v@.len(),
                    fields_view(out@) == sort_fields(all.take(i as int)),
                decreases v@.len() - i,
            {
                assert(decreases_to!(*value => value->Object_0));
                assert(decreases_to!(v@[i as int] => v@[i as int].1));
                let item: Json = sorted_json(&v[i].1);
                insert_sorted(&mut out, v[i].0.as_str(), item);
                assert(all[i as int] == (v@[i as int].0@, sorted_view(v@[i as int].1@)));
                assert(all.take(i + 1).drop_last() =~= all.take(i as int));
                i = i + 1;
            }
            assert(all.take(v@.len() as int) =~= all);
            object(out)
        },
        other => other.copy(),
    }
}

/// A character as it stands in a JSON string: quotation marks, backslashes and control
/// characters are escaped, the five common ones by a letter, the others by their number.
pub open spec fn json_char(c: char) -> Seq<char> {
    if c == '"' || c == '\\' {
        seq!['\\', c]
    } else if c == '\u{8}' {
        seq!['\\', 'b']
    } else if c == '\t' {
        seq!['\\', 't']
    } else if c == '\n' {
        seq!['\\', 'n']
    } else if c == '\u{c}' {
        seq!['\\', 'f']
    } else if c == '\r' {
        seq!['\\', 'r']
    } else if c as int <= 31 {
        seq![
            '\\',
            'u',
            '0',
            '0',
            nibble_char(c as int / 16),
            nibble_char(c as int % 16),
        ]
    } else {
        seq![c]
    }
}

/// The characters of a text as they stand in a JSON string.
pub open spec fn json_chars(s: Seq<char>) -> Seq<char>
    decreases s.len(),
{
    if s.len() == 0 {
        seq![]
    } else {
        json_chars(s.drop_last()) + json_char(s.last())
    }
}

/// The quoted and escaped JSON form of a text.
pub open spec fn json_quoted(s: Seq<char>) -> Seq<char> {
    seq!['"'] + json_chars(s) + seq!['"']
}

/// `serde_json::to_string` on a string: the string between quotation marks, with
/// quotation marks, backslashes and the characters below the space escaped, and every
/// other character as it is. Printing a string into memory does not fail.
#[verifier::external_body]
fn quote(s: &str) -> (r: String)
    ensures
        r@ == json_quoted(s@),
{
    serde_json::to_string(s).unwrap_or_default()
}

/// The compact JSON text of a value, fields in the order they stand.
pub open spec fn json_text(v: JsonView) -> Seq<char>
    decreases v, 0nat,
{
    match v {
        JsonView::Null => "null"@,
        JsonView::Bool(b) => if b {
            "true"@
        } else {
            "false"@
        },
        JsonView::Unsigned(n) => decimal_text(n),
        JsonView::Negative(n) => signed_text(n),
        JsonView::Float(t) => t,
        JsonView::Text(s) => json_quoted(s),
        JsonView::Array(items) => "["@ + items_text(items, items.len()) + "]"@,
        JsonView::Object(fields) => "{"@ + fields_text(fields, fields.len()) + "}"@,
    }
}

/// The first `n` values, separated by commas.
pub open spec fn items_text(items: Seq<JsonView>, n: nat) -> Seq<char>
    decreases items, n,
{
    if n == 0 || n > items.len() {
        Seq::empty()
    } else {
        items_text(items, (n - 1) as nat) + comma(n) + json_text(items[n - 1])
    }
}

/// The first `n` fields, separated by commas.
pub open spec fn fields_text(fields: Seq<(Seq<char>, JsonView)>, n: nat) -> Seq<char>
    decreases fields, n,
{
    if n == 0 || n > fields.len() {
        Seq::empty()
    } else {
        fields_text(fields, (n - 1) as nat) + comma(n) + json_quoted(fields[n - 1].0) + ":"@
            + json_text(fields[n - 1].1)
    }
}

/// What stands before the `n`th entry of a list.
pub open spec fn comma(n: nat) -> Seq<char> {
    if n == 1 {
        Seq::empty()
    } else {
        ","@
    }
}

/// The compact JSON text of a value, fields in the order they stand.
pub fn to_text(value: &Json) -> (r: String)
    ensures
        r@ == json_text(value@),
    decreases value,
{
    match value {
        Json::Null => "null".to_owned(),
        Json::Bool(b) => if *b {
            "true".to_owned()
        } else {
            "false".to_owned()
        },
        Json::Unsigned(n) => decimal(*n),
        Json::Negative(n) => signed(*n),
        Json::Float(t) => t.clone(),
        Json::Text(s) => quote(s.as_str()),
        Json::Array(v) => {
            let mut body: String = String::new();
            let mut i: usize = 0;
            proof {
                lemma_array_view(*v);
            }
            let ghost all = items_view(v@);
            while i < v.len()
                invariant
                    i <= v@.len(),
                    *value == Json::Array(*v),
                    all == items_view(v@),
                    body@ == items_text(all, i as nat),
                decreases v@.len() - i,
            {
                assert(decreases_to!(*value => value->Array_0));
                let item: String = to_text(&v[i]);
                if i > 0 {
                    body.append(",");
                }
                body.append(item.as_str());
                assert(all[i as int] == v@[i as int]@);
                assert(body@ =~= items_text(all, (i + 1) as nat));
                i = i + 1;
            }
            let mut out: String = "[".to_owned();
            out.append(body.as_str());
            out.append("]");
            out
        },
        Json::Object(v) => {
            let mut body: String = String::new();
            let mut i: usize = 0;
            proof {
                lemma_object_view(*v);
            }
            let ghost all = fields_view(v@);
            while i < v.len()
                invariant
                    i <= v@.len(),
                    *value == Json::Object(*v),
                    all == fields_view(v@),
                    body@ == fields_text(all, i as nat),
                decreases v@.len() - i,
            {
                assert(decreases_to!(*value => value->Object_0));
                assert(decreases_to!(v@[i as int] => v@[i as int].1));
                let item: String = to_text(&v[i].1);
                if i > 0 {
                    body.append(",");
                }
                body.append(quote(v[i].0.as_str()).as_str());
                body.append(":");
                body.append(item.as_str());
                assert(all[i as int] == (v@[i as int].0@, v@[i as int].1@));
                assert(body@ =~= fields_text(all, (i + 1) as nat));
                i = i + 1;
            }
            let mut out: String = "{".to_owned();
            out.append(body.as_str());
            out.append("}");
            out
        },
    }
}

/// The canonical text of a value: compact, the fields of every object in order.
pub open spec fn canonical_text(v: JsonView) -> Seq<char> {
    json_text(sorted_view(v))
}

/// The canonical text of a value: compact, the fields of every object in order.
pub fn canonical_json(value: &Json) -> (r: String)
    ensures
        r@ == canonical_text(value@),
{
    to_text(&sorted_json(value))
}

/// Whether a text, or the name of a field, somewhere in the value holds `needle`.
pub open spec fn holds_text(v: JsonView, needle: Seq<char>) -> bool
    decreases v,
{
    match v {
        JsonView::Text(s) => occurs(needle, s),
        JsonView::Array(items) => exists|i: int|
            0 <= i < items.len() && holds_text(#[trigger] items[i], needle),
        JsonView::Object(fields) => exists|i: int|
            0 <= i < fields.len() && (occurs(needle, (#[trigger] fields[i]).0) || holds_text(
                fields[i].1,
                needle,
            )),
        _ => false,
    }
}

proof fn lemma_holds_item(items: Seq<JsonView>, i: int, needle: Seq<char>)
    requires
        0 <= i < items.len(),
        holds_text(items[i], needle),
    ensures
        holds_text(JsonView::Array(items), needle),
{
    reveal_with_fuel(holds_text, 2);
    let v = JsonView::Array(items);
    assert(holds_text(v->Array_0[i], needle));
}

proof fn lemma_holds_field(fields: Seq<(Seq<char>, JsonView)>, i: int, needle: Seq<char>)
    requires
        0 <= i < fields.len(),
        occurs(needle, fields[i].0) || holds_text(fields[i].1, needle),
    ensures
        holds_text(JsonView::Object(fields), needle),
{
    reveal_with_fuel(holds_text, 2);
    let v = JsonView::Object(fields);
    assert(v->Object_0[i] == fields[i]);
}

/// Whether a text, or the name of a field, somewhere in the value holds `needle`.
pub fn value_contains(value: &Json, needle: &str) -> (r: bool)
    ensures
        r == holds_text(value@, needle@),
    decreases value,
{
    match value {
        Json::Text(s) => contains(s.as_str(), needle),
        Json::Array(v) => {
            let mut i: usize = 0;
            proof {
                lemma_array_view(*v);
            }
            while i < v.len()
                invariant
                    i <= v@.len(),
                    *value == Json::Array(*v),
                    value@ == JsonView::Array(items_view(v@)),
                    forall|k: int| 0 <= k < i ==> !holds_text(#[trigger] items_view(v@)[k], needle@),
                decreases v@.len() - i,
            {
                assert(decreases_to!(*value => value->Array_0));
                assert(items_view(v@)[i as int] == v@[i as int]@);
                if value_contains(&v[i], needle) {
                    proof {
                        lemma_holds_item(items_view(v@), i as int, needle@);
                    }
                    return true;
                }
                i = i + 1;
            }
            false
        },
        Json::Object(v) => {
            let mut i: usize = 0;
            proof {
                lemma_object_view(*v);
            }
            while i < v.len()
                invariant
                    i <= v@.len(),
                    *value == Json::Object(*v),
                    value@ == JsonView::Object(fields_view(v@)),
                    forall|k: int|
                        0 <= k < i ==> !occurs(needle@, (#[trigger] fields_view(v@)[k]).0)
                            && !holds_text(fields_view(v@)[k].1, needle@),
                decreases v@.len() - i,
            {
                assert(decreases_to!(*value => value->Object_0));
                assert(decreases_to!(v@[i as int] => v@[i as int].1));
                assert(fields_view(v@)[i as int] == (v@[i as int].0@, v@[i as int].1@));
                if contains(v[i].0.as_str(), needle) || value_contains(&v[i].1, needle) {
                    proof {
                        lemma_holds_field(fields_view(v@), i as int, needle@);
                    }
                    return true;
                }
                i = i + 1;
            }
            false
        },
        _ => false,
    }
}

/// The lower-case form of a text, as std maps it.
pub uninterp spec fn lowercase_text(s: Seq<char>) -> Seq<char>;

/// `str::to_lowercase` of std: a function of the text alone.
#[verifier::external_body]
fn lowercase(s: &str) -> (r: String)
    ensures
        r@ == lowercase_text(s@),
{
    s.to_lowercase()
}

/// The text with `-`, space and `.` read as `_`.
pub open spec fn joined_text(s: Seq<char>) -> Seq<char> {
    s.map_values(|c: char| if c == '-' || c == ' ' || c == '.' { '_' } else { c })
}

/// The text with `-`, space and `.` read as `_`.
pub fn join_separators(s: &str) -> (r: String)
    ensures
        r@ == joined_text(s@),
{
    let all: Vec<char> = crate::text::chars_of(s);
    let mut out: String = String::new();
    let mut i: usize = 0;
    while i < all.len()
        invariant
            i <= all@.len(),
            out@ == joined_text(all@).take(i as int),
        decreases all@.len() - i,
    {
        let c: char = all[i];
        out.push(if c == '-' || c == ' ' || c == '.' { '_' } else { c });
        assert(joined_text(all@).take(i + 1) =~= joined_text(all@).take(i as int).push(
            joined_text(all@)[i as int],
        ));
        i = i + 1;
    }
    assert(joined_text(all@).take(all@.len() as int) =~= joined_text(all@));
    out
}

/// Whether a normalized field name announces a credential or a reusable
/// reference to one. `token` counts only as a whole word at the end, so that
/// `max_tokens` and `token_count` stay ordinary names.
pub open spec fn announces_credential(key: Seq<char>) -> bool {
    ||| occurs("secret"@, key)
    ||| occurs("password"@, key)
    ||| occurs("api_key"@, key)
    ||| occurs("apikey"@, key)
    ||| occurs("credential"@, key)
    ||| key == "token"@
    ||| key == "token_ref"@
    ||| ends("_token"@, key)
    ||| ends("_token_ref"@, key)
}

/// Whether a normalized field name announces a credential.
pub fn is_credential_name(key: &str) -> (r: bool)
    ensures
        r == announces_credential(key@),
{
    contains(key, "secret") || contains(key, "password") || contains(key, "api_key") || contains(
        key,
        "apikey",
    ) || contains(key, "credential") || same(key, "token") || same(key, "token_ref") || has_suffix(
        key,
        "_token",
    ) || has_suffix(key, "_token_ref")
}

/// Whether a field name, whatever its case and separators, announces a
/// credential.
pub open spec fn sensitive_name(key: Seq<char>) -> bool {
    announces_credential(joined_text(lowercase_text(key)))
}

/// Whether a field name, whatever its case and separators, announces a
/// credential.
pub fn is_sensitive_key(key: &str) -> (r: bool)
    ensures
        r == sensitive_name(key@),
{
    is_credential_name(join_separators(lowercase(key).as_str()).as_str())
}

/// Whether a field somewhere in the value has a name that announces a credential.
pub open spec fn has_sensitive(v: JsonView) -> bool
    decreases v,
{
    match v {
        JsonView::Array(items) => exists|i: int|
            0 <= i < items.len() && has_sensitive(#[trigger] items[i]),
        JsonView::Object(fields) => exists|i: int|
            0 <= i < fields.len() && (sensitive_name((#[trigger] fields[i]).0) || has_sensitive(
                fields[i].1,
            )),
        _ => false,
    }
}

proof fn lemma_sensitive_item(items: Seq<JsonView>, i: int)
    requires
        0 <= i < items.len(),
        has_sensitive(items[i]),
    ensures
        has_sensitive(JsonView::Array(items)),
{
    reveal_with_fuel(has_sensitive, 2);
    let v = JsonView::Array(items);
    assert(has_sensitive(v->Array_0[i]));
}

proof fn lemma_sensitive_field(fields: Seq<(Seq<char>, JsonView)>, i: int)
    requires
        0 <= i < fields.len(),
        sensitive_name(fields[i].0) || has_sensitive(fields[i].1),
    ensures
        has_sensitive(JsonView::Object(fields)),
{
    reveal_with_fuel(has_sensitive, 2);
    let v = JsonView::Object(fields);
    assert(v->Object_0[i] == fields[i]);
}

/// Whether a field somewhere in the value has a name that announces a credential.
pub fn value_has_sensitive_field(value: &Json) -> (r: bool)
    ensures
        r == has_sensitive(value@),
    decreases value,
{
    match value {
        Json::Array(v) => {
            let mut i: usize = 0;
            proof {
                lemma_array_view(*v);
            }
            while i < v.len()
                invariant
                    i <= v@.len(),
                    *value == Json::Array(*v),
                    value@ == JsonView::Array(items_view(v@)),
                    forall|k: int| 0 <= k < i ==> !has_sensitive(#[trigger] items_view(v@)[k]),
                decreases v@.len() - i,
            {
                assert(decreases_to!(*value => value->Array_0));
                assert(items_view(v@)[i as int] == v@[i as int]@);
                if value_has_sensitive_field(&v[i]) {
                    proof {
                        lemma_sensitive_item(items_view(v@), i as int);
                    }
                    return true;
                }
                i = i + 1;
            }
            false
        },
        Json::Object(v) => {
            let mut i: usize = 0;
            proof {
                lemma_object_view(*v);
            }
            while i < v.len()
                invariant
                    i <= v@.len(),
                    *value == Json::Object(*v),
                    value@ == JsonView::Object(fields_view(v@)),
                    forall|k: int|
                        0 <= k < i ==> !sensitive_name((#[trigger] fields_view(v@)[k]).0)
                            && !has_sensitive(fields_view(v@)[k].1),
                decreases v@.len() - i,
            {
                assert(decreases_to!(*value => value->Object_0));
                assert(decreases_to!(v@[i as int] => v@[i as int].1));
                assert(fields_view(v@)[i as int] == (v@[i as int].0@, v@[i as int].1@));
                if is_sensitive_key(v[i].0.as_str()) || value_has_sensitive_field(&v[i].1) {
                    proof {
                        lemma_sensitive_field(fields_view(v@), i as int);
                    }
                    return true;
                }
                i = i + 1;
            }
            false
        },
        _ => false,
    }
}

} // verus!
