//! JSON values.

use vstd::prelude::*;

use crate::text::{same_text, views};

verus! {

/// A JSON value. A number is a natural number, a negative integer, or the bits of a 64-bit
/// floating-point number.
pub enum Json {
    Null,
    Bool(bool),
    PosInt(u64),
    NegInt(i64),
    Float(u64),
    Text(String),
    List(Vec<Json>),
    Object(Vec<(String, Json)>),
}

/// What a `Json` stands for.
pub enum JsonView {
    Null,
    Bool(bool),
    PosInt(u64),
    NegInt(i64),
    Float(u64),
    Text(Seq<char>),
    List(Seq<JsonView>),
    Object(Seq<(Seq<char>, JsonView)>),
}

impl Json {
    /// What the value stands for.
    pub open spec fn tree(self) -> JsonView
        decreases self,
    {
        match self {
            Json::Null => JsonView::Null,
            Json::Bool(b) => JsonView::Bool(b),
            Json::PosInt(n) => JsonView::PosInt(n),
            Json::NegInt(n) => JsonView::NegInt(n),
            Json::Float(n) => JsonView::Float(n),
            Json::Text(s) => JsonView::Text(s@),
            Json::List(v) => JsonView::List(
                Seq::new(
                    v@.len(),
                    |i: int|
                        if 0 <= i < v@.len() {
                            v@[i].tree()
                        } else {
                            JsonView::Null
                        },
                ),
            ),
            Json::Object(v) => JsonView::Object(
                Seq::new(
                    v@.len(),
                    |i: int|
                        if 0 <= i < v@.len() {
                            (v@[i].0@, v@[i].1.tree())
                        } else {
                            (Seq::empty(), JsonView::Null)
                        },
                ),
            ),
        }
    }
}

impl View for Json {
    type V = JsonView;

    open spec fn view(&self) -> JsonView {
        self.tree()
    }
}

/// The views of a sequence of values.
pub open spec fn json_views(v: Seq<Json>) -> Seq<JsonView> {
    Seq::new(v.len(), |i: int| v[i]@)
}

/// The views of the fields of an object.
pub open spec fn field_views(v: Seq<(String, Json)>) -> Seq<(Seq<char>, JsonView)> {
    Seq::new(v.len(), |i: int| (v[i].0@, v[i].1@))
}

/// What a list stands for.
pub proof fn lemma_list_view(v: Vec<Json>)
    ensures
        Json::List(v)@ == JsonView::List(json_views(v@)),
{
    assert(Json::List(v).tree()->List_0 =~= json_views(v@));
}

/// What an object stands for.
pub proof fn lemma_object_view(v: Vec<(String, Json)>)
    ensures
        Json::Object(v)@ == JsonView::Object(field_views(v@)),
{
    assert(Json::Object(v).tree()->Object_0 =~= field_views(v@));
}

/// The value of the first of `fields` that is called `key`.
pub open spec fn field_of(fields: Seq<(Seq<char>, JsonView)>, key: Seq<char>) -> Option<JsonView>
    decreases fields.len(),
{
    if fields.len() == 0 {
        None
    } else if fields.first().0 == key {
        Some(fields.first().1)
    } else {
        field_of(fields.drop_first(), key)
    }
}

impl JsonView {
    /// The object without fields.
    pub open spec fn empty() -> JsonView {
        JsonView::Object(Seq::empty())
    }

    /// The object with one more field. A value that is no object becomes one with this field
    /// alone.
    pub open spec fn with(self, key: Seq<char>, value: JsonView) -> JsonView {
        match self {
            JsonView::Object(fields) => JsonView::Object(fields.push((key, value))),
            _ => JsonView::Object(seq![(key, value)]),
        }
    }

    /// The field of an object that is called `key`.
    pub open spec fn get(self, key: Seq<char>) -> Option<JsonView> {
        match self {
            JsonView::Object(fields) => field_of(fields, key),
            _ => None,
        }
    }

    /// The text of a string.
    pub open spec fn as_text(self) -> Option<Seq<char>> {
        match self {
            JsonView::Text(s) => Some(s),
            _ => None,
        }
    }

    /// The value of a natural number.
    pub open spec fn as_u64(self) -> Option<u64> {
        match self {
            JsonView::PosInt(n) => Some(n),
            _ => None,
        }
    }

    /// The text of the field called `key`, if that is a string.
    pub open spec fn text_field(self, key: Seq<char>) -> Option<Seq<char>> {
        match self.get(key) {
            Some(v) => v.as_text(),
            None => None,
        }
    }

    /// The value of the field called `key`, if that is a natural number.
    pub open spec fn u64_field(self, key: Seq<char>) -> Option<u64> {
        match self.get(key) {
            Some(v) => v.as_u64(),
            None => None,
        }
    }

    /// The texts among the elements of the field called `key`, none if that is no list.
    pub open spec fn texts_field(self, key: Seq<char>) -> Seq<Seq<char>> {
        match self.get(key) {
            Some(JsonView::List(elements)) => texts_among(elements),
            _ => Seq::empty(),
        }
    }
}

/// A field that is added is found by its key, unless one of that key is there already; the others
/// stay as they were.
pub proof fn law_get_after_with(object: JsonView, key: Seq<char>, value: JsonView, wanted: Seq<char>)
    requires
        object is Object,
    ensures
        object.with(key, value).get(wanted) == (if object.get(wanted) is Some {
            object.get(wanted)
        } else if key == wanted {
            Some(value)
        } else {
            None
        }),
{
    lemma_field_of_push(object->Object_0, key, value, wanted);
}

proof fn lemma_field_of_push(
    fields: Seq<(Seq<char>, JsonView)>,
    key: Seq<char>,
    value: JsonView,
    wanted: Seq<char>,
)
    ensures
        field_of(fields.push((key, value)), wanted) == (if field_of(fields, wanted) is Some {
            field_of(fields, wanted)
        } else if key == wanted {
            Some(value)
        } else {
            None
        }),
    decreases fields.len(),
{
    let more = fields.push((key, value));
    if fields.len() == 0 {
        reveal_with_fuel(field_of, 2);
    } else {
        assert(more.first() == fields.first());
        assert(more.drop_first() =~= fields.drop_first().push((key, value)));
        lemma_field_of_push(fields.drop_first(), key, value, wanted);
    }
}

/// The texts among `elements`.
pub open spec fn texts_among(elements: Seq<JsonView>) -> Seq<Seq<char>>
    decreases elements.len(),
{
    if elements.len() == 0 {
        Seq::empty()
    } else {
        let before = texts_among(elements.drop_last());
        match elements.last() {
            JsonView::Text(s) => before.push(s),
            _ => before,
        }
    }
}

/// The value that an option of a text is written as.
pub open spec fn text_or_null(text: Option<Seq<char>>) -> JsonView {
    match text {
        Some(s) => JsonView::Text(s),
        None => JsonView::Null,
    }
}

impl Json {
    /// The field of an object that is called `key`.
    pub fn get(&self, key: &str) -> (r: Option<&Json>)
        ensures
            match r {
                Some(v) => self@.get(key@) == Some(v@),
                None => self@.get(key@) is None,
            },
    {
        match self {
            Json::Object(fields) => {
                let n: usize = fields.len();
                let ghost all = field_views(fields@);
                proof {
                    lemma_object_view(*fields);
                    assert(all.skip(0) =~= all);
                }
                let mut i: usize = 0;
                while i < n
                    invariant
                        i <= n == fields@.len(),
                        all == field_views(fields@),
                        self@ == JsonView::Object(all),
                        field_of(all, key@) == field_of(all.skip(i as int), key@),
                    decreases n - i,
                {
                    let ghost rest = all.skip(i as int);
                    assert(rest.first() == (fields@[i as int].0@, fields@[i as int].1@));
                    assert(rest.drop_first() =~= all.skip(i + 1));
                    if same_text(fields[i].0.as_str(), key) {
                        return Some(&fields[i].1);
                    }
                    i = i + 1;
                }
                None
            },
            _ => None,
        }
    }

    /// The text of a string.
    pub fn as_text(&self) -> (r: Option<&String>)
        ensures
            match r {
                Some(s) => self@.as_text() == Some(s@),
                None => self@.as_text() is None,
            },
    {
        match self {
            Json::Text(s) => Some(s),
            _ => None,
        }
    }

    /// The text of the field called `key`, if that is a string.
    pub fn text_field(&self, key: &str) -> (r: Option<&String>)
        ensures
            match r {
                Some(s) => self@.text_field(key@) == Some(s@),
                None => self@.text_field(key@) is None,
            },
    {
        match self.get(key) {
            Some(v) => v.as_text(),
            None => None,
        }
    }

    /// The value of the field called `key`, if that is a natural number.
    pub fn u64_field(&self, key: &str) -> (r: Option<u64>)
        ensures
            r == self@.u64_field(key@),
    {
        match self.get(key) {
            Some(Json::PosInt(n)) => Some(*n),
            _ => None,
        }
    }

    /// The texts among the elements of the field called `key`, none if that is no list.
    pub fn texts_field(&self, key: &str) -> (r: Vec<String>)
        ensures
            views(r@) == self@.texts_field(key@),
    {
        let mut out: Vec<String> = Vec::new();
        assert(views(out@) =~= Seq::<Seq<char>>::empty());
        match self.get(key) {
            Some(Json::List(elements)) => {
                let n: usize = elements.len();
                let ghost all = json_views(elements@);
                proof {
                    lemma_list_view(*elements);
                }
                let mut i: usize = 0;
                assert(all.take(0) =~= Seq::<JsonView>::empty());
                while i < n
                    invariant
                        i <= n == elements@.len(),
                        all == json_views(elements@),
                        views(out@) == texts_among(all.take(i as int)),
                    decreases n - i,
                {
                    let ghost next = all.take(i + 1);
                    assert(next.drop_last() =~= all.take(i as int));
                    assert(next.last() == elements@[i as int]@);
                    match &elements[i] {
                        Json::Text(s) => {
                            let ghost before = out@;
                            out.push(s.clone());
                            assert(views(out@) =~= views(before).push(s@));
                        },
                        _ => {},
                    }
                    i = i + 1;
                }
                assert(all.take(n as int) =~= all);
            },
            _ => {},
        }
        out
    }

    /// Copies the value.
    pub fn copy(&self) -> (r: Json)
        ensures
            r@ == self@,
        decreases self,
    {
        match self {
            Json::Null => Json::Null,
            Json::Bool(b) => Json::Bool(*b),
            Json::PosInt(n) => Json::PosInt(*n),
            Json::NegInt(n) => Json::NegInt(*n),
            Json::Float(n) => Json::Float(*n),
            Json::Text(s) => Json::Text(s.clone()),
            Json::List(elements) => {
                let n: usize = elements.len();
                let mut out: Vec<Json> = Vec::new();
                let mut i: usize = 0;
                while i < n
                    invariant
                        i <= n == elements@.len(),
                        *self == Json::List(*elements),
                        out@.len() == i,
                        forall|j: int| 0 <= j < i ==> (#[trigger] out@[j])@ == elements@[j]@,
                    decreases n - i,
                {
                    assert(decreases_to!(*self => self->List_0@[i as int]));
                    out.push(elements[i].copy());
                    i = i + 1;
                }
                proof {
                    lemma_list_view(*elements);
                    lemma_list_view(out);
                    assert(json_views(out@) =~= json_views(elements@));
                }
                Json::List(out)
            },
            Json::Object(fields) => {
                let n: usize = fields.len();
                let mut out: Vec<(String, Json)> = Vec::new();
                let mut i: usize = 0;
                while i < n
                    invariant
                        i <= n == fields@.len(),
                        *self == Json::Object(*fields),
                        out@.len() == i,
                        forall|j: int|
                            0 <= j < i ==> (#[trigger] out@[j]).0@ == fields@[j].0@ && out@[j].1@
                                == fields@[j].1@,
                    decreases n - i,
                {
                    assert(decreases_to!(*self => self->Object_0@[i as int].1));
                    let field = &fields[i];
                    out.push((field.0.clone(), field.1.copy()));
                    i = i + 1;
                }
                proof {
                    lemma_object_view(*fields);
                    lemma_object_view(out);
                    assert(field_views(out@) =~= field_views(fields@));
                }
                Json::Object(out)
            },
        }
    }

    /// The value that a text is written as.
    pub fn text(s: &str) -> (r: Json)
        ensures
            r@ == JsonView::Text(s@),
    {
        Json::Text(s.to_string())
    }

    /// The value that an option of a text is written as.
    pub fn text_or_null(s: Option<String>) -> (r: Json)
        ensures
            r@ == text_or_null(
                match s {
                    Some(s) => Some(s@),
                    None => None,
                },
            ),
    {
        match s {
            Some(s) => Json::Text(s),
            None => Json::Null,
        }
    }

    /// The list of `elements`.
    pub fn list(elements: Vec<Json>) -> (r: Json)
        ensures
            r@ == JsonView::List(json_views(elements@)),
    {
        proof {
            lemma_list_view(elements);
        }
        Json::List(elements)
    }

    /// The object without fields.
    pub fn empty() -> (r: Json)
        ensures
            r@ == JsonView::empty(),
    {
        let fields: Vec<(String, Json)> = Vec::new();
        proof {
            lemma_object_view(fields);
            assert(field_views(fields@) =~= Seq::<(Seq<char>, JsonView)>::empty());
        }
        Json::Object(fields)
    }

    /// The object with one more field. A value that is no object becomes one with this field
    /// alone.
    pub fn with(self, key: &str, value: Json) -> (r: Json)
        ensures
            r@ == self@.with(key@, value@),
    {
        let ghost start = self@;
        let mut fields: Vec<(String, Json)> = match self {
            Json::Object(fields) => fields,
            _ => Vec::new(),
        };
        let ghost before = fields@;
        fields.push((key.to_string(), value));
        proof {
            lemma_object_view(fields);
            assert(field_views(fields@) =~= field_views(before).push((key@, value@)));
            if let JsonView::Object(f) = start {
                lemma_object_view(self->Object_0);
            } else {
                assert(field_views(before) =~= Seq::<(Seq<char>, JsonView)>::empty());
                assert(field_views(fields@) =~= seq![(key@, value@)]);
            }
        }
        Json::Object(fields)
    }
}

} // verus!
