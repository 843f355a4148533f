//! Taking JSON values apart: the members of an object by name, and what a
//! value holds where it is of the kind that is looked for.

use vstd::prelude::*;
use vstd::string::*;
use crate::json::value::{
    Json, JsonModel, MemberModel, lemma_array_view, lemma_object_view, lookup, member_models_of,
    models_of,
};

verus! {

/// The number of values in a value, itself included.
pub open spec fn size(j: JsonModel) -> nat
    decreases j, 0nat,
{
    match j {
        JsonModel::Array(items) => 1 + sizes_upto(items, items.len() as int),
        JsonModel::Object(members) => 1 + member_sizes_upto(members, members.len() as int),
        _ => 1,
    }
}

/// The number of values in the first `k` items.
pub open spec fn sizes_upto(items: Seq<JsonModel>, k: int) -> nat
    decreases items, k,
{
    if k <= 0 || k > items.len() {
        0
    } else {
        sizes_upto(items, k - 1) + size(items[k - 1])
    }
}

/// The number of values in the first `k` members.
pub open spec fn member_sizes_upto(members: Seq<MemberModel>, k: int) -> nat
    decreases members, k,
{
    if k <= 0 || k > members.len() {
        0
    } else {
        member_sizes_upto(members, k - 1) + size(members[k - 1].value)
    }
}

/// An item of an array is smaller than the array.
pub proof fn lemma_item_smaller(items: Seq<JsonModel>, i: int)
    requires
        0 <= i < items.len(),
    ensures
        size(items[i]) < size(JsonModel::Array(items)),
{
    lemma_item_within(items, items.len() as int, i);
}

proof fn lemma_item_within(items: Seq<JsonModel>, k: int, i: int)
    requires
        0 <= i < k <= items.len(),
    ensures
        size(items[i]) <= sizes_upto(items, k),
    decreases k,
{
    if i < k - 1 {
        lemma_item_within(items, k - 1, i);
    }
}

proof fn lemma_member_within(members: Seq<MemberModel>, k: int, i: int)
    requires
        0 <= i < k <= members.len(),
    ensures
        size(members[i].value) <= member_sizes_upto(members, k),
    decreases k,
{
    if i < k - 1 {
        lemma_member_within(members, k - 1, i);
    }
}

/// What `lookup` finds is the value of a member.
pub proof fn lemma_lookup_finds(members: Seq<MemberModel>, name: Seq<char>)
    requires
        lookup(members, name) is Some,
    ensures
        exists|i: int|
            0 <= i < members.len() && (#[trigger] members[i]).name == name && members[i].value
                == lookup(members, name)->0,
    decreases members.len(),
{
    if members.len() > 0 && members[0].name != name {
        let rest = members.skip(1);
        lemma_lookup_finds(rest, name);
        let i = choose|i: int|
            0 <= i < rest.len() && (#[trigger] rest[i]).name == name && rest[i].value == lookup(
                rest,
                name,
            )->0;
        assert(members[i + 1] == rest[i]);
    }
}

/// The value of a member is smaller than the object.
pub proof fn lemma_member_smaller(j: JsonModel, name: Seq<char>)
    requires
        j.get(name) is Some,
    ensures
        size(j.get(name)->0) < size(j),
{
    let members = j->Object_0;
    lemma_lookup_finds(members, name);
    let i = choose|i: int|
        0 <= i < members.len() && (#[trigger] members[i]).name == name && members[i].value
            == lookup(members, name)->0;
    lemma_member_within(members, members.len() as int, i);
}

/// A member is found under its name where no member before it has that
/// name.
pub proof fn lemma_lookup_at(members: Seq<MemberModel>, i: int)
    requires
        0 <= i < members.len(),
        forall|k: int| 0 <= k < i ==> (#[trigger] members[k]).name != members[i].name,
    ensures
        lookup(members, members[i].name) == Some(members[i].value),
    decreases i,
{
    if i > 0 {
        let rest = members.skip(1);
        assert(members[0].name != members[i].name);
        assert forall|k: int| 0 <= k < i - 1 implies (#[trigger] rest[k]).name != rest[i
            - 1].name by {
            assert(members[k + 1].name != members[i].name);
        }
        lemma_lookup_at(rest, i - 1);
    }
}

/// The text that a value holds, where it is one and holds text.
pub open spec fn text_of(j: Option<JsonModel>) -> Option<Seq<char>> {
    match j {
        Some(JsonModel::Text(t)) => Some(t),
        _ => None,
    }
}

/// The number that a value holds, where it is one and holds a number.
pub open spec fn number_of(j: Option<JsonModel>) -> Option<u64> {
    match j {
        Some(JsonModel::Number(n)) => Some(n),
        _ => None,
    }
}

/// The items that a value holds, where it is one and is an array.
pub open spec fn items_of(j: Option<JsonModel>) -> Option<Seq<JsonModel>> {
    match j {
        Some(JsonModel::Array(items)) => Some(items),
        _ => None,
    }
}

/// The value of the first member of `j` called `name`.
pub fn get<'a>(j: &'a Json, name: &str) -> (r: Option<&'a Json>)
    ensures
        match r {
            Some(value) => j@.get(name@) == Some(value@),
            None => j@.get(name@) is None,
        },
{
    match j {
        Json::Object(members) => {
            proof {
                lemma_object_view(*members);
            }
            let ghost models = member_models_of(members@);
            let key = String::from_str(name);
            let mut i: usize = 0;
            proof {
                assert(models.skip(0) =~= models);
            }
            while i < members.len()
                invariant
                    i <= members.len(),
                    key@ == name@,
                    models == member_models_of(members@),
                    j@ == JsonModel::Object(models),
                    lookup(models, name@) == lookup(models.skip(i as int), name@),
                decreases members.len() - i,
            {
                proof {
                    assert(models.skip(i as int)[0] == members@[i as int]@);
                    assert(models.skip(i as int).skip(1) =~= models.skip(i + 1));
                }
                if members[i].name == key {
                    return Some(&members[i].value);
                }
                i += 1;
            }
            None
        },
        _ => None,
    }
}

/// The text of the first member of `j` called `name`.
pub fn get_text<'a>(j: &'a Json, name: &str) -> (r: Option<&'a String>)
    ensures
        match r {
            Some(text) => text_of(j@.get(name@)) == Some(text@),
            None => text_of(j@.get(name@)) is None,
        },
{
    match get(j, name) {
        Some(Json::Text(text)) => Some(text),
        _ => None,
    }
}

/// The number of the first member of `j` called `name`.
pub fn get_number(j: &Json, name: &str) -> (r: Option<u64>)
    ensures
        r == number_of(j@.get(name@)),
{
    match get(j, name) {
        Some(Json::Number(n)) => Some(*n),
        _ => None,
    }
}

/// The items of the first member of `j` called `name`.
pub fn get_items<'a>(j: &'a Json, name: &str) -> (r: Option<&'a Vec<Json>>)
    ensures
        match r {
            Some(items) => j@.get(name@) == Some(JsonModel::Array(models_of(items@))),
            None => items_of(j@.get(name@)) is None,
        },
{
    match get(j, name) {
        Some(Json::Array(items)) => {
            proof {
                lemma_array_view(*items);
            }
            Some(items)
        },
        _ => None,
    }
}

} // verus!
