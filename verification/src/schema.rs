//! The schemas of the arguments that tools take.

use vstd::prelude::*;

use crate::json::{json_views, Json, JsonView};
use crate::text::views;

verus! {

/// An argument of a simple type.
pub open spec fn property_view(kind: Seq<char>, description: Seq<char>) -> JsonView {
    JsonView::empty().with("type"@, JsonView::Text(kind)).with(
        "description"@,
        JsonView::Text(description),
    )
}

/// An argument that is a list of strings.
pub open spec fn strings_property_view(description: Seq<char>) -> JsonView {
    JsonView::empty().with("type"@, JsonView::Text("array"@)).with(
        "items"@,
        JsonView::empty().with("type"@, JsonView::Text("string"@)),
    ).with("description"@, JsonView::Text(description))
}

/// The schema with these properties, of which some are required.
pub open spec fn schema_view(properties: JsonView, required: Seq<Seq<char>>) -> JsonView {
    JsonView::empty().with("type"@, JsonView::Text("object"@)).with("properties"@, properties).with(
        "required"@,
        JsonView::List(Seq::new(required.len(), |i: int| JsonView::Text(required[i]))),
    )
}

/// An argument of a simple type.
pub fn property(kind: &str, description: &str) -> (r: Json)
    ensures
        r@ == property_view(kind@, description@),
{
    Json::empty().with("type", Json::text(kind)).with("description", Json::text(description))
}

/// An argument that is a list of strings.
pub fn strings_property(description: &str) -> (r: Json)
    ensures
        r@ == strings_property_view(description@),
{
    Json::empty().with("type", Json::text("array")).with(
        "items",
        Json::empty().with("type", Json::text("string")),
    ).with("description", Json::text(description))
}

/// The schema with these properties, of which some are required.
pub fn schema(properties: Json, required: &Vec<String>) -> (r: Json)
    ensures
        r@ == schema_view(properties@, views(required@)),
{
    let n: usize = required.len();
    let ghost names = views(required@);
    let ghost wanted = Seq::new(names.len(), |i: int| JsonView::Text(names[i]));
    let mut list: Vec<Json> = Vec::new();
    let mut i: usize = 0;
    while i < n
        invariant
            i <= n == required@.len(),
            names == views(required@),
            wanted == Seq::new(names.len(), |i: int| JsonView::Text(names[i])),
            json_views(list@) == wanted.take(i as int),
        decreases n - i,
    {
        let item = Json::text(required[i].as_str());
        let ghost before = list@;
        list.push(item);
        assert(json_views(list@) =~= json_views(before).push(item@));
        i = i + 1;
        assert(json_views(list@) =~= wanted.take(i as int));
    }
    assert(json_views(list@) =~= wanted);
    Json::empty().with("type", Json::text("object")).with("properties", properties).with(
        "required",
        Json::list(list),
    )
}

} // verus!
