//! A JSON document tree, as consumed from the bundle configuration.
//!
//! The tree is the plain-value form of a parsed `config.json`: object
//! members keep their wire order, strings are Unicode text, and the
//! only numbers kept are the unsigned integers the configuration
//! subset uses.  A numeric value outside that range is kept as
//! `Other`, which no known field accepts.

use vstd::prelude::*;

verus! {

/// Mathematical model of a JSON tree.
#[verifier::ext_equal]
pub enum JsonV {
    Null,
    Bool(bool),
    Num(u64),
    Str(Seq<char>),
    Arr(Seq<JsonV>),
    Obj(Seq<(Seq<char>, JsonV)>),
    Other,
}

/// One member of a JSON object.
#[derive(Debug, PartialEq)]
pub struct JsonMember {
    pub key: String,
    pub val: Json,
}

/// A JSON tree.
#[derive(Debug, PartialEq)]
pub enum Json {
    Null,
    Bool(bool),
    Num(u64),
    Str(String),
    Arr(Vec<Json>),
    Obj(Vec<JsonMember>),
    Other,
}

/// The model of a JSON tree.
pub open spec fn json_view(j: Json) -> JsonV
    decreases j, 1int,
{
    match j {
        Json::Null => JsonV::Null,
        Json::Bool(b) => JsonV::Bool(b),
        Json::Num(n) => JsonV::Num(n),
        Json::Str(s) => JsonV::Str(s@),
        Json::Arr(a) => JsonV::Arr(arr_view(a@)),
        Json::Obj(m) => JsonV::Obj(members_view(m@)),
        Json::Other => JsonV::Other,
    }
}

/// The model of an array's element list.
pub open spec fn arr_view(a: Seq<Json>) -> Seq<JsonV>
    decreases a, 0int,
{
    if a.len() == 0 {
        Seq::empty()
    } else {
        arr_view(a.drop_last()).push(json_view(a.last()))
    }
}

/// The model of an object's member list.
pub open spec fn members_view(ms: Seq<JsonMember>) -> Seq<(Seq<char>, JsonV)>
    decreases ms, 0int,
{
    if ms.len() == 0 {
        Seq::empty()
    } else {
        members_view(ms.drop_last()).push((ms.last().key@, json_view(ms.last().val)))
    }
}

/// An array's model has one entry per element, in order.
pub proof fn lemma_arr_view_index(a: Seq<Json>)
    ensures
        arr_view(a).len() == a.len(),
        forall|i: int| 0 <= i < a.len() ==> arr_view(a)[i] == json_view(#[trigger] a[i]),
    decreases a.len(),
{
    if a.len() > 0 {
        lemma_arr_view_index(a.drop_last());
        assert forall|i: int| 0 <= i < a.len() implies arr_view(a)[i] == json_view(
            #[trigger] a[i],
        ) by {
            if i < a.len() - 1 {
                assert(a.drop_last()[i] == a[i]);
                assert(arr_view(a)[i] == arr_view(a.drop_last())[i]);
            } else {
                assert(a.last() == a[i]);
            }
        }
    }
}

/// An object's model has one entry per member, in order, pairing the
/// member key with the member value's model.
pub proof fn lemma_members_view_index(ms: Seq<JsonMember>)
    ensures
        members_view(ms).len() == ms.len(),
        forall|i: int| 0 <= i < ms.len() ==> members_view(ms)[i] == ((#[trigger] ms[i]).key@,
            json_view(ms[i].val)),
    decreases ms.len(),
{
    if ms.len() > 0 {
        lemma_members_view_index(ms.drop_last());
        assert forall|i: int| 0 <= i < ms.len() implies members_view(ms)[i] == ((
        #[trigger] ms[i]).key@, json_view(ms[i].val)) by {
            if i < ms.len() - 1 {
                assert(ms.drop_last()[i] == ms[i]);
                assert(members_view(ms)[i] == members_view(ms.drop_last())[i]);
            } else {
                assert(ms.last() == ms[i]);
            }
        }
    }
}

/// First member of an object with the given key, if any.
pub open spec fn obj_get(ms: Seq<(Seq<char>, JsonV)>, k: Seq<char>) -> Option<JsonV>
    decreases ms.len(),
{
    if ms.len() == 0 {
        None
    } else if ms[0].0 == k {
        Some(ms[0].1)
    } else {
        obj_get(ms.drop_first(), k)
    }
}

/// When no key among the first `i` members matches, the lookup result
/// is decided by the remaining members.
pub proof fn lemma_obj_get_skip(ms: Seq<(Seq<char>, JsonV)>, k: Seq<char>, i: int)
    requires
        0 <= i <= ms.len(),
        forall|j: int| 0 <= j < i ==> (#[trigger] ms[j]).0 != k,
    ensures
        obj_get(ms, k) == obj_get(ms.skip(i), k),
    decreases i,
{
    if i == 0 {
        assert(ms.skip(0) =~= ms);
    } else {
        lemma_obj_get_skip(ms, k, i - 1);
        assert(ms.skip(i - 1).len() > 0);
        assert(ms.skip(i - 1)[0] == ms[i - 1]);
        assert(ms.skip(i - 1).drop_first() =~= ms.skip(i));
    }
}

/// Looks a key up in an object, returning the first member with that
/// key, exactly as the model lookup does.
pub fn lookup<'a>(ms: &'a Vec<JsonMember>, key: &String) -> (r: Option<&'a Json>)
    ensures
        match r {
            Some(j) => obj_get(members_view(ms@), key@) == Some(json_view(*j)),
            None => obj_get(members_view(ms@), key@) is None,
        },
{
    proof {
        lemma_members_view_index(ms@);
    }
    let ghost mv = members_view(ms@);
    let mut i: usize = 0;
    while i < ms.len()
        invariant
            i <= ms.len(),
            mv == members_view(ms@),
            mv.len() == ms@.len(),
            forall|j: int| 0 <= j < ms@.len() ==> mv[j] == ((#[trigger] ms@[j]).key@, json_view(
                ms@[j].val)),
            forall|j: int| 0 <= j < i ==> (#[trigger] mv[j]).0 != key@,
        decreases ms.len() - i,
    {
        if ms[i].key == *key {
            proof {
                lemma_obj_get_skip(mv, key@, i as int);
                assert(mv.skip(i as int)[0] == mv[i as int]);
            }
            return Some(&ms[i].val);
        }
        i = i + 1;
    }
    proof {
        lemma_obj_get_skip(mv, key@, i as int);
        assert(mv.skip(i as int).len() == 0);
    }
    None
}

} // verus!
