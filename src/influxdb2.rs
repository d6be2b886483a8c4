//! What the time-series database sink writes for each value of a record.
use vstd::prelude::*;
use crate::fields::Field;

verus! {

/// Server address used where the configuration names none.
pub fn default_host() -> (r: String)
    ensures
        r@ == "http://localhost:8086"@,
{
    String::from_str("http://localhost:8086")
}

/// The tags of a field's data point: serial, group and name, and the unit
/// where the field has one.
pub open spec fn tags_of(serial: Seq<char>, field: Field) -> Seq<(Seq<char>, Seq<char>)> {
    let base = seq![("serial"@, serial), ("group"@, field.group@), ("name"@, field.name@)];
    if field.unit@.len() == 0 {
        base
    } else {
        base.push(("unit"@, field.unit@))
    }
}

/// Views of tag lists.
pub open spec fn tags_view(tags: Seq<(String, String)>) -> Seq<(Seq<char>, Seq<char>)> {
    tags.map_values(|t: (String, String)| (t.0@, t.1@))
}

/// Builds the tags of a field's data point.
pub fn point_tags(serial: &str, field: &Field) -> (r: Vec<(String, String)>)
    ensures
        tags_view(r@) == tags_of(serial@, *field),
{
    let mut tags: Vec<(String, String)> = Vec::new();
    tags.push((String::from_str("serial"), String::from_str(serial)));
    tags.push((String::from_str("group"), field.group.clone()));
    tags.push((String::from_str("name"), field.name.clone()));
    if !field.unit.as_str().is_empty() {
        tags.push((String::from_str("unit"), field.unit.clone()));
    }
    assert(tags_view(tags@) == tags_of(serial@, *field));
    tags
}

} // verus!
