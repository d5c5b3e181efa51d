//! A JSON document as the config migrations handle it. Arrays and objects are chains of
//! entries; numbers are kept as their JSON text, since nothing here computes with them.
use vstd::prelude::*;
use vstd::string::*;
use crate::text::{chars_of, chars_eq, debug_quoted, debug_string, push_str, string_of, trim_start_char, trim_start_char_chars};

verus! {

/// A JSON value.
#[derive(Debug)]
pub enum Json {
    Null,
    Bool(bool),
    /// A number, as its JSON text.
    Number(String),
    Text(String),
    Array(Items),
    Object(Members),
}

/// The elements of an array, first to last.
#[derive(Debug)]
pub enum Items {
    End,
    Item(Box<Json>, Box<Items>),
}

/// The members of an object, first to last.
#[derive(Debug)]
pub enum Members {
    End,
    Member(String, Box<Json>, Box<Members>),
}

/// Whether some member has this key.
pub open spec fn has_key(m: Members, key: Seq<char>) -> bool
    decreases m,
{
    match m {
        Members::End => false,
        Members::Member(k, _, rest) => k@ == key || has_key(*rest, key),
    }
}

/// Whether no two members share a key.
pub open spec fn unique_keys(m: Members) -> bool
    decreases m,
{
    match m {
        Members::End => true,
        Members::Member(k, _, rest) => !has_key(*rest, k@) && unique_keys(*rest),
    }
}

/// The fields of an object: each key with the value of the member holding it.
pub open spec fn fields(m: Members) -> Map<Seq<char>, Json>
    decreases m,
{
    match m {
        Members::End => Map::empty(),
        Members::Member(k, v, rest) => fields(*rest).insert(k@, *v),
    }
}

/// The fields of an object value; none for any other value.
pub open spec fn object_fields(j: Json) -> Map<Seq<char>, Json> {
    match j {
        Json::Object(m) => fields(m),
        _ => Map::empty(),
    }
}

/// The members as a sequence.
pub open spec fn member_list(m: Members) -> Seq<(Seq<char>, Json)>
    decreases m,
{
    match m {
        Members::End => Seq::empty(),
        Members::Member(k, v, rest) => seq![(k@, *v)] + member_list(*rest),
    }
}

/// The elements as a sequence.
pub open spec fn item_list(items: Items) -> Seq<Json>
    decreases items,
{
    match items {
        Items::End => Seq::empty(),
        Items::Item(v, rest) => seq![*v] + item_list(*rest),
    }
}

/// Lemma: a key is in the fields exactly when some member has it.
pub proof fn lemma_fields_keys(m: Members, key: Seq<char>)
    ensures
        fields(m).contains_key(key) == has_key(m, key),
    decreases m,
{
    match m {
        Members::End => {},
        Members::Member(k, v, rest) => {
            lemma_fields_keys(*rest, key);
        },
    }
}

/// The first member with this key, and its value.
pub fn get_member<'a>(m: &'a Members, key: &str) -> (r: Option<&'a Json>)
    ensures
        match r {
            Some(v) => fields(*m).contains_key(key@) && *v == fields(*m)[key@],
            None => !fields(*m).contains_key(key@),
        },
    decreases m,
{
    match m {
        Members::End => None,
        Members::Member(k, v, rest) => {
            let kc = chars_of(k.as_str());
            let wc = chars_of(key);
            if chars_eq(&kc, &wc) {
                Some(&**v)
            } else {
                get_member(&**rest, key)
            }
        },
    }
}

/// The members with this key set to `value`: in place when a member has the key, else added at
/// the end.
pub open spec fn set_spec(m: Members, key: String, value: Json) -> Members
    decreases m,
{
    match m {
        Members::End => Members::Member(key, Box::new(value), Box::new(Members::End)),
        Members::Member(k, v, rest) => if k@ == key@ {
            Members::Member(k, Box::new(value), rest)
        } else {
            Members::Member(k, v, Box::new(set_spec(*rest, key, value)))
        },
    }
}

/// Lemma: setting a key keeps the keys distinct and changes only that field.
pub proof fn lemma_set(m: Members, key: String, value: Json)
    requires
        unique_keys(m),
    ensures
        unique_keys(set_spec(m, key, value)),
        fields(set_spec(m, key, value)) == fields(m).insert(key@, value),
        forall|q: Seq<char>| #[trigger] has_key(set_spec(m, key, value), q) == (has_key(m, q) || q == key@),
    decreases m,
{
    match m {
        Members::End => {
            assert(fields(set_spec(m, key, value)) =~= fields(m).insert(key@, value));
            assert forall|q: Seq<char>| #[trigger] has_key(set_spec(m, key, value), q) == (has_key(m, q) || q == key@) by {
                reveal_with_fuel(has_key, 2);
            }
        },
        Members::Member(k, v, rest) => {
            lemma_set(*rest, key, value);
            if k@ == key@ {
                assert(fields(set_spec(m, key, value)) =~= fields(m).insert(key@, value));
            } else {
                assert(fields(set_spec(m, key, value)) =~= fields(m).insert(key@, value));
            }
            assert forall|q: Seq<char>| #[trigger] has_key(set_spec(m, key, value), q) == (has_key(m, q) || q == key@) by {
                assert(has_key(set_spec(*rest, key, value), q) == (has_key(*rest, q) || q == key@));
            }
        },
    }
}

/// Sets a field: the member with this key gets the value, or a new member is added at the end.
pub fn set_member(m: Members, key: String, value: Json) -> (r: Members)
    ensures
        r == set_spec(m, key, value),
    decreases m,
{
    match m {
        Members::End => Members::Member(key, Box::new(value), Box::new(Members::End)),
        Members::Member(k, v, rest) => {
            let kc = chars_of(k.as_str());
            let wc = chars_of(key.as_str());
            if chars_eq(&kc, &wc) {
                Members::Member(k, Box::new(value), rest)
            } else {
                Members::Member(k, v, Box::new(set_member(*rest, key, value)))
            }
        },
    }
}

/// The members without the first one holding this key.
pub open spec fn remove_spec(m: Members, key: Seq<char>) -> Members
    decreases m,
{
    match m {
        Members::End => Members::End,
        Members::Member(k, v, rest) => if k@ == key {
            *rest
        } else {
            Members::Member(k, v, Box::new(remove_spec(*rest, key)))
        },
    }
}

/// Lemma: removing a key keeps the others distinct and drops only that field.
pub proof fn lemma_remove(m: Members, key: Seq<char>)
    requires
        unique_keys(m),
    ensures
        unique_keys(remove_spec(m, key)),
        fields(remove_spec(m, key)) == fields(m).remove(key),
        forall|q: Seq<char>| #[trigger] has_key(remove_spec(m, key), q) == (has_key(m, q) && q != key),
    decreases m,
{
    match m {
        Members::End => {
            assert(fields(remove_spec(m, key)) =~= fields(m).remove(key));
        },
        Members::Member(k, v, rest) => {
            lemma_remove(*rest, key);
            lemma_fields_keys(*rest, key);
            assert forall|q: Seq<char>| #[trigger] has_key(remove_spec(m, key), q) == (has_key(m, q) && q != key) by {
                assert(has_key(remove_spec(*rest, key), q) == (has_key(*rest, q) && q != key));
            }
            if k@ == key {
                assert(fields(remove_spec(m, key)) =~= fields(m).remove(key));
            } else {
                assert(fields(remove_spec(m, key)) =~= fields(m).remove(key));
            }
        },
    }
}

/// Removes a field, giving back the members left and the value it had.
pub fn take_member(m: Members, key: &str) -> (r: (Members, Option<Json>))
    ensures
        r.0 == remove_spec(m, key@),
        match r.1 {
            Some(v) => has_key(m, key@) && fields(m).contains_key(key@) && v == fields(m)[key@],
            None => !has_key(m, key@) && !fields(m).contains_key(key@),
        },
    decreases m,
{
    proof {
        lemma_fields_keys(m, key@);
    }
    match m {
        Members::End => (Members::End, None),
        Members::Member(k, v, rest) => {
            let kc = chars_of(k.as_str());
            let wc = chars_of(key);
            if chars_eq(&kc, &wc) {
                (*rest, Some(*v))
            } else {
                let (left, found) = take_member(*rest, key);
                (Members::Member(k, v, Box::new(left)), found)
            }
        },
    }
}

/// A deep copy of a value.
pub fn copy_json(j: &Json) -> (r: Json)
    ensures
        r == *j,
    decreases j,
{
    match j {
        Json::Null => Json::Null,
        Json::Bool(b) => Json::Bool(*b),
        Json::Number(s) => Json::Number(s.clone()),
        Json::Text(s) => Json::Text(s.clone()),
        Json::Array(items) => Json::Array(copy_items(items)),
        Json::Object(m) => Json::Object(copy_members(m)),
    }
}

/// A deep copy of array elements.
pub fn copy_items(items: &Items) -> (r: Items)
    ensures
        r == *items,
    decreases items,
{
    match items {
        Items::End => Items::End,
        Items::Item(v, rest) => Items::Item(Box::new(copy_json(&**v)), Box::new(copy_items(&**rest))),
    }
}

/// A deep copy of object members.
pub fn copy_members(m: &Members) -> (r: Members)
    ensures
        r == *m,
    decreases m,
{
    match m {
        Members::End => Members::End,
        Members::Member(k, v, rest) => Members::Member(k.clone(), Box::new(copy_json(&**v)), Box::new(copy_members(&**rest))),
    }
}

/// The size of a value, counting every value and entry in it.
pub open spec fn json_size(j: Json) -> nat
    decreases j,
{
    match j {
        Json::Array(items) => 1 + items_size(items),
        Json::Object(m) => 1 + members_size(m),
        _ => 1,
    }
}

/// The size of array elements.
pub open spec fn items_size(items: Items) -> nat
    decreases items,
{
    match items {
        Items::End => 0,
        Items::Item(v, rest) => 1 + json_size(*v) + items_size(*rest),
    }
}

/// The size of object members.
pub open spec fn members_size(m: Members) -> nat
    decreases m,
{
    match m {
        Members::End => 0,
        Members::Member(_, v, rest) => 1 + json_size(*v) + members_size(*rest),
    }
}

/// A user value with defaults filled in: where both are objects, every field the user lacks
/// comes from the defaults and fields both have are merged the same way; anything else the user
/// wrote stays as it is.
pub open spec fn merged(u: Json, d: Json) -> Json
    decreases json_size(d), 0nat, 0nat,
{
    match (u, d) {
        (Json::Object(um), Json::Object(dm)) => Json::Object(merged_members(um, dm)),
        _ => u,
    }
}

/// User members with the default members merged in one after the other.
pub open spec fn merged_members(u: Members, d: Members) -> Members
    decreases members_size(d), 0nat, 0nat,
{
    match d {
        Members::End => u,
        Members::Member(k, dv, rest) => merged_members(merged_into(u, k, *dv), *rest),
    }
}

/// User members with one default field merged in: into the member with that key, or added at the
/// end.
pub open spec fn merged_into(u: Members, k: String, dv: Json) -> Members
    decreases json_size(dv), 1nat, members_size(u),
{
    match u {
        Members::End => Members::Member(k, Box::new(dv), Box::new(Members::End)),
        Members::Member(uk, uv, rest) => if uk@ == k@ {
            Members::Member(uk, Box::new(merged(*uv, dv)), rest)
        } else {
            Members::Member(uk, uv, Box::new(merged_into(*rest, k, dv)))
        },
    }
}

/// Fills in the defaults a user value lacks.
fn merge_json(u: Json, d: &Json) -> (r: Json)
    ensures
        r == merged(u, *d),
    decreases json_size(*d), 0nat, 0nat,
{
    match d {
        Json::Object(dm) => match u {
            Json::Object(um) => Json::Object(merge_members(um, dm)),
            other => other,
        },
        _ => u,
    }
}

/// Merges default members into user members, one after the other.
fn merge_members(u: Members, d: &Members) -> (r: Members)
    ensures
        r == merged_members(u, *d),
    decreases members_size(*d), 0nat, 0nat,
{
    match d {
        Members::End => u,
        Members::Member(k, dv, rest) => {
            let step = merge_into(u, k, &**dv);
            merge_members(step, &**rest)
        },
    }
}

/// Merges one default field into user members.
fn merge_into(u: Members, k: &String, dv: &Json) -> (r: Members)
    ensures
        r == merged_into(u, *k, *dv),
    decreases json_size(*dv), 1nat, members_size(u),
{
    match u {
        Members::End => Members::Member(k.clone(), Box::new(copy_json(dv)), Box::new(Members::End)),
        Members::Member(uk, uv, rest) => {
            let a = chars_of(uk.as_str());
            let b = chars_of(k.as_str());
            if chars_eq(&a, &b) {
                Members::Member(uk, Box::new(merge_json(*uv, dv)), rest)
            } else {
                Members::Member(uk, uv, Box::new(merge_into(*rest, k, dv)))
            }
        },
    }
}

/// Fills in, from `defaults`, every field `user` lacks, at every depth where both are objects.
/// Nothing the user wrote is replaced.
pub fn merge_defaults(user: &mut Json, defaults: &Json)
    ensures
        *final(user) == merged(*old(user), *defaults),
{
    let mut taken = Json::Null;
    std::mem::swap(&mut taken, user);
    *user = merge_json(taken, defaults);
}

/// A base value with a patch laid over it: where both are objects, each field of the patch
/// replaces the base's, except that two objects under the same key are overlaid the same way;
/// anything else is replaced by the patch.
pub open spec fn overlaid(b: Json, p: Json) -> Json
    decreases json_size(p), 0nat, 0nat,
{
    match (b, p) {
        (Json::Object(bm), Json::Object(pm)) => Json::Object(overlaid_members(bm, pm)),
        _ => p,
    }
}

/// Base members with the patch members laid over them one after the other.
pub open spec fn overlaid_members(b: Members, p: Members) -> Members
    decreases members_size(p), 0nat, 0nat,
{
    match p {
        Members::End => b,
        Members::Member(k, pv, rest) => overlaid_members(overlaid_into(b, k, *pv), *rest),
    }
}

/// Base members with one patch field laid over them.
pub open spec fn overlaid_into(b: Members, k: String, pv: Json) -> Members
    decreases json_size(pv), 1nat, members_size(b),
{
    match b {
        Members::End => Members::Member(k, Box::new(pv), Box::new(Members::End)),
        Members::Member(bk, bv, rest) => if bk@ == k@ {
            if (*bv is Object) && (pv is Object) {
                Members::Member(bk, Box::new(overlaid(*bv, pv)), rest)
            } else {
                Members::Member(bk, Box::new(pv), rest)
            }
        } else {
            Members::Member(bk, bv, Box::new(overlaid_into(*rest, k, pv)))
        },
    }
}

/// Lays a patch over a value.
fn overlay_json(b: Json, p: &Json) -> (r: Json)
    ensures
        r == overlaid(b, *p),
    decreases json_size(*p), 0nat, 0nat,
{
    match p {
        Json::Object(pm) => match b {
            Json::Object(bm) => Json::Object(overlay_members(bm, pm)),
            _ => copy_json(p),
        },
        _ => copy_json(p),
    }
}

/// Lays patch members over base members, one after the other.
fn overlay_members(b: Members, p: &Members) -> (r: Members)
    ensures
        r == overlaid_members(b, *p),
    decreases members_size(*p), 0nat, 0nat,
{
    match p {
        Members::End => b,
        Members::Member(k, pv, rest) => {
            let step = overlay_into(b, k, &**pv);
            overlay_members(step, &**rest)
        },
    }
}

/// Lays one patch field over base members.
fn overlay_into(b: Members, k: &String, pv: &Json) -> (r: Members)
    ensures
        r == overlaid_into(b, *k, *pv),
    decreases json_size(*pv), 1nat, members_size(b),
{
    match b {
        Members::End => Members::Member(k.clone(), Box::new(copy_json(pv)), Box::new(Members::End)),
        Members::Member(bk, bv, rest) => {
            let a = chars_of(bk.as_str());
            let c = chars_of(k.as_str());
            if chars_eq(&a, &c) {
                let both_objects = match (&*bv, pv) {
                    (Json::Object(_), Json::Object(_)) => true,
                    _ => false,
                };
                if both_objects {
                    Members::Member(bk, Box::new(overlay_json(*bv, pv)), rest)
                } else {
                    Members::Member(bk, Box::new(copy_json(pv)), rest)
                }
            } else {
                Members::Member(bk, bv, Box::new(overlay_into(*rest, k, pv)))
            }
        },
    }
}

/// Lays `patch` over `base`: every key present in the patch replaces the one in the base, and
/// objects under the same key are merged rather than swapped.
pub fn overlay(base: &mut Json, patch: &Json)
    ensures
        *final(base) == overlaid(*old(base), *patch),
{
    let mut taken = Json::Null;
    std::mem::swap(&mut taken, base);
    *base = overlay_json(taken, patch);
}

/// Merging one default field into distinct members keeps them distinct and sets that field: to
/// the default when it was missing, to the merge of both when it was there.
proof fn lemma_merged_into(u: Members, k: String, dv: Json)
    requires
        unique_keys(u),
    ensures
        unique_keys(merged_into(u, k, dv)),
        forall|q: Seq<char>| #[trigger] has_key(merged_into(u, k, dv), q) == (has_key(u, q) || q == k@),
        fields(merged_into(u, k, dv)) == if fields(u).contains_key(k@) {
            fields(u).insert(k@, merged(fields(u)[k@], dv))
        } else {
            fields(u).insert(k@, dv)
        },
    decreases u,
{
    lemma_fields_keys(u, k@);
    match u {
        Members::End => {
            assert forall|q: Seq<char>| #[trigger] has_key(merged_into(u, k, dv), q) == (has_key(u, q) || q == k@) by {
                reveal_with_fuel(has_key, 2);
            }
            assert(fields(merged_into(u, k, dv)) =~= fields(u).insert(k@, dv));
        },
        Members::Member(uk, uv, rest) => {
            lemma_fields_keys(*rest, k@);
            if uk@ == k@ {
                assert(!has_key(*rest, k@));
                assert forall|q: Seq<char>| #[trigger] has_key(merged_into(u, k, dv), q) == (has_key(u, q) || q == k@) by {
                }
                assert(fields(merged_into(u, k, dv)) =~= fields(u).insert(k@, merged(fields(u)[k@], dv)));
            } else {
                lemma_merged_into(*rest, k, dv);
                assert forall|q: Seq<char>| #[trigger] has_key(merged_into(u, k, dv), q) == (has_key(u, q) || q == k@) by {
                    assert(has_key(merged_into(*rest, k, dv), q) == (has_key(*rest, q) || q == k@));
                }
                assert(!has_key(merged_into(*rest, k, dv), uk@));
                if fields(u).contains_key(k@) {
                    assert(fields(merged_into(u, k, dv)) =~= fields(u).insert(k@, merged(fields(u)[k@], dv)));
                } else {
                    assert(fields(merged_into(u, k, dv)) =~= fields(u).insert(k@, dv));
                }
            }
        },
    }
}

/// Law: filling in defaults keeps every field the user has and adds every field only the
/// defaults have. A field only the user has keeps its value, a field only the defaults have
/// takes theirs, and a field both have is the merge of the two. Keys stay distinct.
pub proof fn lemma_merge_fields(u: Members, d: Members)
    requires
        unique_keys(u),
        unique_keys(d),
    ensures
        unique_keys(merged_members(u, d)),
        forall|q: Seq<char>|
            #[trigger] fields(merged_members(u, d)).contains_key(q) == (fields(u).contains_key(q) || fields(
                d,
            ).contains_key(q)),
        forall|q: Seq<char>|
            fields(u).contains_key(q) && !fields(d).contains_key(q) ==> #[trigger] fields(merged_members(u, d))[q]
                == fields(u)[q],
        forall|q: Seq<char>|
            !fields(u).contains_key(q) && fields(d).contains_key(q) ==> #[trigger] fields(merged_members(u, d))[q]
                == fields(d)[q],
        forall|q: Seq<char>|
            fields(u).contains_key(q) && fields(d).contains_key(q) ==> #[trigger] fields(merged_members(u, d))[q]
                == merged(fields(u)[q], fields(d)[q]),
    decreases d,
{
    match d {
        Members::End => {},
        Members::Member(k, dv, rest) => {
            lemma_merged_into(u, k, *dv);
            let u1 = merged_into(u, k, *dv);
            lemma_merge_fields(u1, *rest);
            lemma_fields_keys(*rest, k@);
        },
    }
}

/// Law: a field the user set to anything but an object is never touched by the defaults.
pub proof fn lemma_merge_keeps_scalars(u: Members, d: Members, q: Seq<char>)
    requires
        unique_keys(u),
        unique_keys(d),
        fields(u).contains_key(q),
        !(fields(u)[q] is Object),
    ensures
        fields(merged_members(u, d))[q] == fields(u)[q],
{
    lemma_merge_fields(u, d);
}

/// Whether every object in a value has distinct keys, as a JSON object read by a parser always
/// does.
pub open spec fn well_formed(j: Json) -> bool
    decreases j,
{
    match j {
        Json::Array(items) => items_well_formed(items),
        Json::Object(m) => unique_keys(m) && members_well_formed(m),
        _ => true,
    }
}

/// Whether every element is well formed.
pub open spec fn items_well_formed(items: Items) -> bool
    decreases items,
{
    match items {
        Items::End => true,
        Items::Item(v, rest) => well_formed(*v) && items_well_formed(*rest),
    }
}

/// Whether every member value is well formed.
pub open spec fn members_well_formed(m: Members) -> bool
    decreases m,
{
    match m {
        Members::End => true,
        Members::Member(_, v, rest) => well_formed(*v) && members_well_formed(*rest),
    }
}

/// Lemma: the field values of well-formed members are well formed.
pub proof fn lemma_field_well_formed(m: Members, q: Seq<char>)
    requires
        members_well_formed(m),
        fields(m).contains_key(q),
    ensures
        well_formed(fields(m)[q]),
    decreases m,
{
    match m {
        Members::End => {},
        Members::Member(k, v, rest) => {
            if k@ != q {
                lemma_field_well_formed(*rest, q);
            }
        },
    }
}

/// Lemma: setting a well-formed value keeps members well formed.
pub proof fn lemma_set_well_formed(m: Members, key: String, value: Json)
    requires
        members_well_formed(m),
        well_formed(value),
    ensures
        members_well_formed(set_spec(m, key, value)),
    decreases m,
{
    match m {
        Members::End => {},
        Members::Member(k, v, rest) => {
            lemma_set_well_formed(*rest, key, value);
        },
    }
}

/// Lemma: removing a field keeps members well formed.
pub proof fn lemma_remove_well_formed(m: Members, key: Seq<char>)
    requires
        members_well_formed(m),
    ensures
        members_well_formed(remove_spec(m, key)),
    decreases m,
{
    match m {
        Members::End => {},
        Members::Member(k, v, rest) => {
            lemma_remove_well_formed(*rest, key);
        },
    }
}

/// Whether a value is a text with these characters.
pub open spec fn text_is(j: Json, t: Seq<char>) -> bool {
    j is Text && j->Text_0@ == t
}

/// The fields after one legacy top-level key moved into its section: the old key is gone; its
/// value goes under the new key of the section, which is created when missing; a section that
/// is not an object, or that already has the new key, keeps what it had and the old value is
/// dropped.
pub open spec fn moved_to_section(before: Map<Seq<char>, Json>, after: Map<Seq<char>, Json>, old: Seq<char>, sec: Seq<char>, new: Seq<char>) -> bool {
    if !before.contains_key(old) {
        after == before
    } else {
        let v = before[old];
        let rest = before.remove(old);
        if !rest.contains_key(sec) {
            &&& after.contains_key(sec)
            &&& after.remove(sec) == rest
            &&& after[sec] is Object
            &&& object_fields(after[sec]) == Map::<Seq<char>, Json>::empty().insert(new, v)
        } else if (rest[sec] is Object) && !object_fields(rest[sec]).contains_key(new) {
            &&& after.contains_key(sec)
            &&& after.remove(sec) == rest.remove(sec)
            &&& after[sec] is Object
            &&& object_fields(after[sec]) == object_fields(rest[sec]).insert(new, v)
        } else {
            after == rest
        }
    }
}

/// Moves one legacy top-level key into its section.
fn move_to_section(m: Members, old: &str, sec: &str, new: &str) -> (r: Members)
    requires
        unique_keys(m),
        members_well_formed(m),
    ensures
        unique_keys(r),
        members_well_formed(r),
        moved_to_section(fields(m), fields(r), old@, sec@, new@),
{
    let ghost before = fields(m);
    let ghost m0 = m;
    let (m1, taken) = take_member(m, old);
    proof {
        lemma_remove(m0, old@);
        lemma_remove_well_formed(m0, old@);
    }
    let val = match taken {
        None => {
            assert(fields(m1) =~= before);
            return m1;
        },
        Some(v) => v,
    };
    proof {
        lemma_field_well_formed(m0, old@);
    }
    let ghost rest = fields(m1);
    match get_member(&m1, sec) {
        None => {
            let nk = String::from_str(new);
            let sec_members = Members::Member(nk, Box::new(val), Box::new(Members::End));
            let section = Json::Object(sec_members);
            proof {
                reveal_with_fuel(fields, 2);
                reveal_with_fuel(has_key, 2);
                reveal_with_fuel(unique_keys, 2);
                reveal_with_fuel(members_well_formed, 2);
                assert(fields(sec_members) =~= Map::<Seq<char>, Json>::empty().insert(new@, val));
                assert(unique_keys(sec_members));
                assert(members_well_formed(sec_members));
                assert(well_formed(section));
            }
            let key = String::from_str(sec);
            proof {
                lemma_set(m1, key, section);
                lemma_set_well_formed(m1, key, section);
                assert(fields(set_spec(m1, key, section)).remove(sec@) =~= rest);
            }
            set_member(m1, key, section)
        },
        Some(existing) => {
            let is_object = match existing {
                Json::Object(_) => true,
                _ => false,
            };
            if !is_object {
                return m1;
            }
            let ghost m1g = m1;
            let (m2, sv) = take_member(m1, sec);
            proof {
                lemma_remove(m1g, sec@);
                lemma_remove_well_formed(m1g, sec@);
                lemma_field_well_formed(m1g, sec@);
            }
            let sm = match sv {
                Some(Json::Object(sm)) => sm,
                _ => {
                    proof {
                        assert(false);
                    }
                    return m2;
                },
            };
            let already = match get_member(&sm, new) {
                Some(_) => true,
                None => false,
            };
            let key = String::from_str(sec);
            if already {
                let section = Json::Object(sm);
                proof {
                    lemma_set(m2, key, section);
                    lemma_set_well_formed(m2, key, section);
                    assert(fields(set_spec(m2, key, section)) =~= rest);
                }
                return set_member(m2, key, section);
            }
            let nk = String::from_str(new);
            proof {
                lemma_set(sm, nk, val);
                lemma_set_well_formed(sm, nk, val);
            }
            let updated = Json::Object(set_member(sm, nk, val));
            proof {
                lemma_set(m2, key, updated);
                lemma_set_well_formed(m2, key, updated);
                assert(fields(set_spec(m2, key, updated)).remove(sec@) =~= rest.remove(sec@));
            }
            set_member(m2, key, updated)
        },
    }
}

/// The fields after the old `dynamics.band_alpha` was split: it is gone, and `band_attack` and
/// `band_release` each take its value unless they are set already. Nothing changes without an
/// object `dynamics` holding `band_alpha`.
pub open spec fn alpha_split(before: Map<Seq<char>, Json>, after: Map<Seq<char>, Json>) -> bool {
    let dk = "dynamics"@;
    if before.contains_key(dk) && (before[dk] is Object) && object_fields(before[dk]).contains_key("band_alpha"@) {
        let dy = object_fields(before[dk]);
        let a = dy["band_alpha"@];
        let d1 = dy.remove("band_alpha"@);
        let d2 = if d1.contains_key("band_attack"@) {
            d1
        } else {
            d1.insert("band_attack"@, a)
        };
        let d3 = if d2.contains_key("band_release"@) {
            d2
        } else {
            d2.insert("band_release"@, a)
        };
        &&& after.contains_key(dk)
        &&& after.remove(dk) == before.remove(dk)
        &&& after[dk] is Object
        &&& object_fields(after[dk]) == d3
    } else {
        after == before
    }
}

/// The fields after the old `color_map.saturate` switch was converted: it is gone, and when it
/// was a boolean and no `saturation` is set, `saturation` becomes `1.0` for true and `0.0` for
/// false. Nothing changes without an object `color_map` holding `saturate`.
pub open spec fn saturate_converted(before: Map<Seq<char>, Json>, after: Map<Seq<char>, Json>) -> bool {
    let ck = "color_map"@;
    if before.contains_key(ck) && (before[ck] is Object) && object_fields(before[ck]).contains_key("saturate"@) {
        let cm = object_fields(before[ck]);
        let sat = cm["saturate"@];
        let c1 = cm.remove("saturate"@);
        &&& after.contains_key(ck)
        &&& after.remove(ck) == before.remove(ck)
        &&& after[ck] is Object
        &&& if (sat is Bool) && !c1.contains_key("saturation"@) {
            &&& object_fields(after[ck]).contains_key("saturation"@)
            &&& object_fields(after[ck]).remove("saturation"@) == c1
            &&& object_fields(after[ck])["saturation"@] is Number
            &&& object_fields(after[ck])["saturation"@]->Number_0@ == if sat->Bool_0 {
                "1.0"@
            } else {
                "0.0"@
            }
        } else {
            object_fields(after[ck]) == c1
        }
    } else {
        after == before
    }
}

/// Whether the object under `key` has a field `inner`.
fn section_has(m: &Members, key: &str, inner: &str) -> (b: bool)
    ensures
        b == (fields(*m).contains_key(key@) && (fields(*m)[key@] is Object) && object_fields(fields(*m)[key@]).contains_key(
            inner@,
        )),
{
    match get_member(m, key) {
        Some(Json::Object(sm)) => match get_member(sm, inner) {
            Some(_) => true,
            None => false,
        },
        _ => false,
    }
}

/// Splits the old `dynamics.band_alpha` into `band_attack` and `band_release`.
fn split_band_alpha(m: Members) -> (r: Members)
    requires
        unique_keys(m),
        members_well_formed(m),
    ensures
        unique_keys(r),
        members_well_formed(r),
        alpha_split(fields(m), fields(r)),
{
    if !section_has(&m, "dynamics", "band_alpha") {
        return m;
    }
    let ghost m0 = m;
    let (m1, dv) = take_member(m, "dynamics");
    proof {
        lemma_remove(m0, "dynamics"@);
        lemma_remove_well_formed(m0, "dynamics"@);
        lemma_field_well_formed(m0, "dynamics"@);
    }
    let dm = match dv {
        Some(Json::Object(dm)) => dm,
        _ => {
            proof {
                assert(false);
            }
            return m1;
        },
    };
    let ghost dm0 = dm;
    let (d1, av) = take_member(dm, "band_alpha");
    proof {
        lemma_remove(dm0, "band_alpha"@);
        lemma_remove_well_formed(dm0, "band_alpha"@);
        lemma_field_well_formed(dm0, "band_alpha"@);
    }
    let a = match av {
        Some(a) => a,
        None => {
            proof {
                assert(false);
            }
            return m1;
        },
    };
    let d2 = match get_member(&d1, "band_attack") {
        Some(_) => d1,
        None => {
            let k = String::from_str("band_attack");
            let c = copy_json(&a);
            proof {
                lemma_set(d1, k, c);
                lemma_set_well_formed(d1, k, c);
            }
            set_member(d1, k, c)
        },
    };
    let d3 = match get_member(&d2, "band_release") {
        Some(_) => d2,
        None => {
            let k = String::from_str("band_release");
            proof {
                lemma_set(d2, k, a);
                lemma_set_well_formed(d2, k, a);
            }
            set_member(d2, k, a)
        },
    };
    let key = String::from_str("dynamics");
    let section = Json::Object(d3);
    proof {
        lemma_set(m1, key, section);
        lemma_set_well_formed(m1, key, section);
        assert(fields(set_spec(m1, key, section)).remove("dynamics"@) =~= fields(m0).remove("dynamics"@));
    }
    set_member(m1, key, section)
}

/// Converts the old `color_map.saturate` switch into `saturation`.
fn convert_saturate(m: Members) -> (r: Members)
    requires
        unique_keys(m),
        members_well_formed(m),
    ensures
        unique_keys(r),
        members_well_formed(r),
        saturate_converted(fields(m), fields(r)),
{
    if !section_has(&m, "color_map", "saturate") {
        return m;
    }
    let ghost m0 = m;
    let (m1, cv) = take_member(m, "color_map");
    proof {
        lemma_remove(m0, "color_map"@);
        lemma_remove_well_formed(m0, "color_map"@);
        lemma_field_well_formed(m0, "color_map"@);
    }
    let cm = match cv {
        Some(Json::Object(cm)) => cm,
        _ => {
            proof {
                assert(false);
            }
            return m1;
        },
    };
    let ghost cm0 = cm;
    let (c1, sv) = take_member(cm, "saturate");
    proof {
        lemma_remove(cm0, "saturate"@);
        lemma_remove_well_formed(cm0, "saturate"@);
    }
    let has_saturation = match get_member(&c1, "saturation") {
        Some(_) => true,
        None => false,
    };
    let c2 = match sv {
        Some(Json::Bool(on)) => {
            if has_saturation {
                c1
            } else {
                let k = String::from_str("saturation");
                let n = Json::Number(
                    if on {
                        String::from_str("1.0")
                    } else {
                        String::from_str("0.0")
                    },
                );
                proof {
                    lemma_set(c1, k, n);
                    lemma_set_well_formed(c1, k, n);
                    lemma_fields_keys(c1, "saturation"@);
                    assert(fields(c1).insert("saturation"@, n).remove("saturation"@) =~= fields(c1));
                }
                set_member(c1, k, n)
            }
        },
        _ => c1,
    };
    let key = String::from_str("color_map");
    let section = Json::Object(c2);
    proof {
        lemma_set(m1, key, section);
        lemma_set_well_formed(m1, key, section);
        assert(fields(set_spec(m1, key, section)).remove("color_map"@) =~= fields(m0).remove("color_map"@));
    }
    set_member(m1, key, section)
}

/// The top-level migration, step by step: the six legacy keys into their sections, then the
/// `band_alpha` split, then the `saturate` conversion.
pub open spec fn top_level_migrated(before: Map<Seq<char>, Json>, after: Map<Seq<char>, Json>) -> bool {
    exists|s: Seq<Map<Seq<char>, Json>>|
        {
            &&& s.len() == 9
            &&& s[0] == before
            &&& s[8] == after
            &&& moved_to_section(s[0], s[1], "audio_device"@, "audio"@, "device"@)
            &&& moved_to_section(s[1], s[2], "change_interval_ms"@, "output"@, "change_interval_ms"@)
            &&& moved_to_section(s[2], s[3], "transition_min_ms"@, "output"@, "transition_min_ms"@)
            &&& moved_to_section(s[3], s[4], "transition_max_ms"@, "output"@, "transition_max_ms"@)
            &&& moved_to_section(s[4], s[5], "beat_threshold"@, "dynamics"@, "beat_threshold"@)
            &&& moved_to_section(s[5], s[6], "strobe_ms"@, "dynamics"@, "strobe_ms"@)
            &&& alpha_split(s[6], s[7])
            &&& #[trigger] saturate_converted(s[7], s[8])
        }
}

/// The document after the top-level migration: an object migrated as `top_level_migrated`
/// says, anything else unchanged.
pub open spec fn top_level_done(before: Json, after: Json) -> bool {
    match before {
        Json::Object(m) => (after is Object) && top_level_migrated(fields(m), object_fields(after)),
        _ => after == before,
    }
}

/// Moves the settings older versions kept at the top level into their sections, splits
/// `dynamics.band_alpha` and converts `color_map.saturate`. A document that is not an object is
/// left alone.
pub fn migrate_legacy_top_level(top: &mut Json)
    requires
        well_formed(*old(top)),
    ensures
        well_formed(*final(top)),
        top_level_done(*old(top), *final(top)),
{
    let mut taken = Json::Null;
    std::mem::swap(&mut taken, top);
    let m = match taken {
        Json::Object(m) => m,
        other => {
            *top = other;
            return;
        },
    };
    let ghost f0 = fields(m);
    let m1 = move_to_section(m, "audio_device", "audio", "device");
    let ghost f1 = fields(m1);
    let m2 = move_to_section(m1, "change_interval_ms", "output", "change_interval_ms");
    let ghost f2 = fields(m2);
    let m3 = move_to_section(m2, "transition_min_ms", "output", "transition_min_ms");
    let ghost f3 = fields(m3);
    let m4 = move_to_section(m3, "transition_max_ms", "output", "transition_max_ms");
    let ghost f4 = fields(m4);
    let m5 = move_to_section(m4, "beat_threshold", "dynamics", "beat_threshold");
    let ghost f5 = fields(m5);
    let m6 = move_to_section(m5, "strobe_ms", "dynamics", "strobe_ms");
    let ghost f6 = fields(m6);
    let m7 = split_band_alpha(m6);
    let ghost f7 = fields(m7);
    let m8 = convert_saturate(m7);
    let ghost f8 = fields(m8);
    proof {
        let s = seq![f0, f1, f2, f3, f4, f5, f6, f7, f8];
        assert(s[8] == f8);
        assert(saturate_converted(s[7], s[8]));
    }
    *top = Json::Object(m8);
}

/// A move takes its old key away and adds no key but its section.
proof fn lemma_moved_keys(b: Map<Seq<char>, Json>, a: Map<Seq<char>, Json>, old: Seq<char>, sec: Seq<char>, new: Seq<char>)
    requires
        moved_to_section(b, a, old, sec, new),
        old != sec,
    ensures
        !a.contains_key(old) || !b.contains_key(old),
        b.contains_key(old) ==> !a.contains_key(old),
        forall|q: Seq<char>| #[trigger] a.contains_key(q) ==> b.contains_key(q) || q == sec,
        forall|q: Seq<char>| q != old && q != sec ==> (#[trigger] a.contains_key(q) == b.contains_key(q)),
{
    if b.contains_key(old) {
        let rest = b.remove(old);
        if !rest.contains_key(sec) {
            assert forall|q: Seq<char>| #[trigger] a.contains_key(q) implies b.contains_key(q) || q == sec by {
                if q != sec && a.contains_key(q) {
                    assert(a.remove(sec).contains_key(q));
                }
            }
            assert forall|q: Seq<char>| q != old && q != sec implies (#[trigger] a.contains_key(q) == b.contains_key(q)) by {
                assert(a.remove(sec).contains_key(q) == a.contains_key(q));
            }
            assert(!a.remove(sec).contains_key(old));
        } else if (rest[sec] is Object) && !object_fields(rest[sec]).contains_key(new) {
            assert forall|q: Seq<char>| #[trigger] a.contains_key(q) implies b.contains_key(q) || q == sec by {
                if q != sec && a.contains_key(q) {
                    assert(a.remove(sec).contains_key(q));
                }
            }
            assert forall|q: Seq<char>| q != old && q != sec implies (#[trigger] a.contains_key(q) == b.contains_key(q)) by {
                assert(a.remove(sec).contains_key(q) == a.contains_key(q));
            }
            assert(!a.remove(sec).contains_key(old));
        }
    }
}

/// The split and the conversion keep the top-level keys.
proof fn lemma_sections_keep_keys(b6: Map<Seq<char>, Json>, b7: Map<Seq<char>, Json>, b8: Map<Seq<char>, Json>)
    requires
        alpha_split(b6, b7),
        saturate_converted(b7, b8),
    ensures
        forall|q: Seq<char>| #[trigger] b8.contains_key(q) == b6.contains_key(q),
{
    assert forall|q: Seq<char>| #[trigger] b7.contains_key(q) == b6.contains_key(q) by {
        if b6.contains_key("dynamics"@) && q != "dynamics"@ {
            assert(b7.remove("dynamics"@).contains_key(q) == b7.contains_key(q));
            assert(b6.remove("dynamics"@).contains_key(q) == b6.contains_key(q));
        }
    }
    assert forall|q: Seq<char>| #[trigger] b8.contains_key(q) == b7.contains_key(q) by {
        if b7.contains_key("color_map"@) && q != "color_map"@ {
            assert(b8.remove("color_map"@).contains_key(q) == b8.contains_key(q));
            assert(b7.remove("color_map"@).contains_key(q) == b7.contains_key(q));
        }
    }
}

/// Law: after the top-level migration none of the six legacy keys is left at the top level.
pub proof fn lemma_legacy_keys_gone(before: Map<Seq<char>, Json>, after: Map<Seq<char>, Json>)
    requires
        top_level_migrated(before, after),
    ensures
        !after.contains_key("audio_device"@),
        !after.contains_key("change_interval_ms"@),
        !after.contains_key("transition_min_ms"@),
        !after.contains_key("transition_max_ms"@),
        !after.contains_key("beat_threshold"@),
        !after.contains_key("strobe_ms"@),
{
    let s = choose|s: Seq<Map<Seq<char>, Json>>|
        {
            &&& s.len() == 9
            &&& s[0] == before
            &&& s[8] == after
            &&& moved_to_section(s[0], s[1], "audio_device"@, "audio"@, "device"@)
            &&& moved_to_section(s[1], s[2], "change_interval_ms"@, "output"@, "change_interval_ms"@)
            &&& moved_to_section(s[2], s[3], "transition_min_ms"@, "output"@, "transition_min_ms"@)
            &&& moved_to_section(s[3], s[4], "transition_max_ms"@, "output"@, "transition_max_ms"@)
            &&& moved_to_section(s[4], s[5], "beat_threshold"@, "dynamics"@, "beat_threshold"@)
            &&& moved_to_section(s[5], s[6], "strobe_ms"@, "dynamics"@, "strobe_ms"@)
            &&& alpha_split(s[6], s[7])
            &&& #[trigger] saturate_converted(s[7], s[8])
        };
    reveal_strlit("audio_device");
    reveal_strlit("audio");
    reveal_strlit("change_interval_ms");
    reveal_strlit("transition_min_ms");
    reveal_strlit("transition_max_ms");
    reveal_strlit("output");
    reveal_strlit("beat_threshold");
    reveal_strlit("strobe_ms");
    reveal_strlit("dynamics");
    assert("audio_device"@.len() == 12 && "audio"@.len() == 5);
    assert("change_interval_ms"@.len() == 18 && "output"@.len() == 6);
    assert("transition_min_ms"@.len() == 17 && "transition_max_ms"@.len() == 17);
    assert("beat_threshold"@.len() == 14 && "strobe_ms"@.len() == 9 && "dynamics"@.len() == 8);
    lemma_moved_keys(s[0], s[1], "audio_device"@, "audio"@, "device"@);
    lemma_moved_keys(s[1], s[2], "change_interval_ms"@, "output"@, "change_interval_ms"@);
    lemma_moved_keys(s[2], s[3], "transition_min_ms"@, "output"@, "transition_min_ms"@);
    lemma_moved_keys(s[3], s[4], "transition_max_ms"@, "output"@, "transition_max_ms"@);
    lemma_moved_keys(s[4], s[5], "beat_threshold"@, "dynamics"@, "beat_threshold"@);
    lemma_moved_keys(s[5], s[6], "strobe_ms"@, "dynamics"@, "strobe_ms"@);
    lemma_sections_keep_keys(s[6], s[7], s[8]);
    assert(!s[1].contains_key("audio_device"@));
    assert(!s[2].contains_key("change_interval_ms"@));
    assert(!s[3].contains_key("transition_min_ms"@));
    assert(!s[4].contains_key("transition_max_ms"@));
    assert(!s[5].contains_key("beat_threshold"@));
    assert(!s[6].contains_key("strobe_ms"@));
}

/// Whether the object under top-level key `sec` has a member `key`.
pub open spec fn section_key(m: Map<Seq<char>, Json>, sec: Seq<char>, key: Seq<char>) -> bool {
    m.contains_key(sec) && (m[sec] is Object) && object_fields(m[sec]).contains_key(key)
}

/// Whether the object under top-level key `sec` holds `v` under `key`.
pub open spec fn section_holds(m: Map<Seq<char>, Json>, sec: Seq<char>, key: Seq<char>, v: Json) -> bool {
    section_key(m, sec, key) && object_fields(m[sec])[key] == v
}

/// Whether a setting can still be put under `key` of section `sec`: the section is missing, or
/// is an object without that member.
pub open spec fn section_room(m: Map<Seq<char>, Json>, sec: Seq<char>, key: Seq<char>) -> bool {
    !m.contains_key(sec) || ((m[sec] is Object) && !object_fields(m[sec]).contains_key(key))
}

proof fn lemma_move_lands(b: Map<Seq<char>, Json>, a: Map<Seq<char>, Json>, old: Seq<char>, sec: Seq<char>, new: Seq<char>)
    requires
        moved_to_section(b, a, old, sec, new),
        old != sec,
        b.contains_key(old),
        section_room(b, sec, new),
    ensures
        section_holds(a, sec, new, b[old]),
{
    let rest = b.remove(old);
    assert(rest.contains_key(sec) == b.contains_key(sec));
    if rest.contains_key(sec) {
        assert(rest[sec] == b[sec]);
    }
}

proof fn lemma_move_keeps(b: Map<Seq<char>, Json>, a: Map<Seq<char>, Json>, old: Seq<char>, sec: Seq<char>, new: Seq<char>, q: Seq<char>, k: Seq<char>, v: Json)
    requires
        moved_to_section(b, a, old, sec, new),
        old != sec,
        q != old,
        q != sec || k != new,
    ensures
        section_holds(b, q, k, v) ==> section_holds(a, q, k, v),
        section_room(b, q, k) ==> section_room(a, q, k),
        b.contains_key(q) ==> a.contains_key(q) && a[q] == b[q] || q == sec,
{
    if b.contains_key(old) {
        let rest = b.remove(old);
        assert(rest.contains_key(q) == b.contains_key(q));
        if b.contains_key(q) {
            assert(rest[q] == b[q]);
        }
        if !rest.contains_key(sec) {
            if q != sec {
                assert(a.remove(sec).contains_key(q) == a.contains_key(q));
                if a.contains_key(q) {
                    assert(a.remove(sec)[q] == a[q]);
                }
            }
        } else if (rest[sec] is Object) && !object_fields(rest[sec]).contains_key(new) {
            if q != sec {
                assert(a.remove(sec).contains_key(q) == a.contains_key(q));
                assert(rest.remove(sec).contains_key(q) == rest.contains_key(q));
                if a.contains_key(q) {
                    assert(a.remove(sec)[q] == a[q]);
                    assert(rest.remove(sec)[q] == rest[q]);
                }
            } else {
                assert(rest[sec] == b[sec]);
            }
        }
    }
}

proof fn lemma_move_adds(b: Map<Seq<char>, Json>, a: Map<Seq<char>, Json>, old: Seq<char>, sec: Seq<char>, new: Seq<char>, q: Seq<char>, k: Seq<char>)
    requires
        moved_to_section(b, a, old, sec, new),
        old != sec,
        section_key(a, q, k),
    ensures
        section_key(b, q, k) || (q == sec && k == new),
{
    if b.contains_key(old) {
        let rest = b.remove(old);
        if !rest.contains_key(sec) {
            if q != sec {
                assert(a.remove(sec).contains_key(q));
                assert(a.remove(sec)[q] == a[q]);
            }
        } else if (rest[sec] is Object) && !object_fields(rest[sec]).contains_key(new) {
            if q != sec {
                assert(a.remove(sec).contains_key(q));
                assert(a.remove(sec)[q] == a[q]);
                assert(rest.remove(sec)[q] == rest[q]);
            } else if k != new {
                assert(object_fields(a[sec]).remove(new) == object_fields(rest[sec]).remove(new));
                assert(object_fields(a[sec]).remove(new).contains_key(k));
            }
        } else {
            assert(a.contains_key(q));
        }
    }
}

proof fn lemma_alpha_keeps(b: Map<Seq<char>, Json>, a: Map<Seq<char>, Json>, q: Seq<char>, k: Seq<char>, v: Json)
    requires
        alpha_split(b, a),
        q != "dynamics"@ || (k != "band_alpha"@ && k != "band_attack"@ && k != "band_release"@),
    ensures
        section_holds(b, q, k, v) ==> section_holds(a, q, k, v),
        section_key(a, q, k) ==> section_key(b, q, k),
{
    if b.contains_key("dynamics"@) && (b["dynamics"@] is Object) && object_fields(b["dynamics"@]).contains_key("band_alpha"@) {
        if q != "dynamics"@ {
            assert(a.remove("dynamics"@).contains_key(q) == a.contains_key(q));
            assert(b.remove("dynamics"@).contains_key(q) == b.contains_key(q));
            if a.contains_key(q) {
                assert(a.remove("dynamics"@)[q] == a[q]);
                assert(b.remove("dynamics"@)[q] == b[q]);
            }
        }
    }
}

proof fn lemma_alpha_adds(b: Map<Seq<char>, Json>, a: Map<Seq<char>, Json>, q: Seq<char>, k: Seq<char>)
    requires
        alpha_split(b, a),
        section_key(a, q, k),
    ensures
        section_key(b, q, k) || (q == "dynamics"@ && (k == "band_attack"@ || k == "band_release"@)),
{
    if b.contains_key("dynamics"@) && (b["dynamics"@] is Object) && object_fields(b["dynamics"@]).contains_key("band_alpha"@) {
        if q != "dynamics"@ {
            assert(a.remove("dynamics"@).contains_key(q));
            assert(a.remove("dynamics"@)[q] == a[q]);
            assert(b.remove("dynamics"@)[q] == b[q]);
        }
    }
}

proof fn lemma_saturate_keeps(b: Map<Seq<char>, Json>, a: Map<Seq<char>, Json>, q: Seq<char>, k: Seq<char>, v: Json)
    requires
        saturate_converted(b, a),
        q != "color_map"@,
    ensures
        section_holds(b, q, k, v) ==> section_holds(a, q, k, v),
{
    if b.contains_key("color_map"@) && (b["color_map"@] is Object) && object_fields(b["color_map"@]).contains_key("saturate"@) {
        assert(a.remove("color_map"@).contains_key(q) == a.contains_key(q));
        assert(b.remove("color_map"@).contains_key(q) == b.contains_key(q));
        if b.contains_key(q) {
            assert(a.remove("color_map"@)[q] == a[q]);
            assert(b.remove("color_map"@)[q] == b[q]);
        }
    }
}

proof fn lemma_saturate_adds(b: Map<Seq<char>, Json>, a: Map<Seq<char>, Json>, q: Seq<char>, k: Seq<char>)
    requires
        saturate_converted(b, a),
        section_key(a, q, k),
    ensures
        section_key(b, q, k) || (q == "color_map"@ && k == "saturation"@),
{
    if b.contains_key("color_map"@) && (b["color_map"@] is Object) && object_fields(b["color_map"@]).contains_key("saturate"@) {
        if q != "color_map"@ {
            assert(a.remove("color_map"@).contains_key(q));
            assert(a.remove("color_map"@)[q] == a[q]);
            assert(b.remove("color_map"@)[q] == b[q]);
        } else if k != "saturation"@ {
            let c1 = object_fields(b["color_map"@]).remove("saturate"@);
            if object_fields(a["color_map"@]) != c1 {
                assert(object_fields(a["color_map"@]).remove("saturation"@).contains_key(k));
            }
        }
    }
}

/// Law: each legacy top-level setting ends up in its own section under its new name, with the
/// value the user gave: `audio_device` as `audio.device`; `change_interval_ms`,
/// `transition_min_ms` and `transition_max_ms` in `output`; `beat_threshold` and `strobe_ms` in
/// `dynamics`, whenever that section does not set the new name already.
pub proof fn lemma_legacy_settings_land_in_their_sections(before: Map<Seq<char>, Json>, after: Map<Seq<char>, Json>)
    requires
        top_level_migrated(before, after),
    ensures
        before.contains_key("audio_device"@) && section_room(before, "audio"@, "device"@) ==> section_holds(after, "audio"@, "device"@, before["audio_device"@]),
        before.contains_key("change_interval_ms"@) && section_room(before, "output"@, "change_interval_ms"@) ==> section_holds(after, "output"@, "change_interval_ms"@, before["change_interval_ms"@]),
        before.contains_key("transition_min_ms"@) && section_room(before, "output"@, "transition_min_ms"@) ==> section_holds(after, "output"@, "transition_min_ms"@, before["transition_min_ms"@]),
        before.contains_key("transition_max_ms"@) && section_room(before, "output"@, "transition_max_ms"@) ==> section_holds(after, "output"@, "transition_max_ms"@, before["transition_max_ms"@]),
        before.contains_key("beat_threshold"@) && section_room(before, "dynamics"@, "beat_threshold"@) ==> section_holds(after, "dynamics"@, "beat_threshold"@, before["beat_threshold"@]),
        before.contains_key("strobe_ms"@) && section_room(before, "dynamics"@, "strobe_ms"@) ==> section_holds(after, "dynamics"@, "strobe_ms"@, before["strobe_ms"@]),
{
    let s = choose|s: Seq<Map<Seq<char>, Json>>|
        {
            &&& s.len() == 9
            &&& s[0] == before
            &&& s[8] == after
            &&& moved_to_section(s[0], s[1], "audio_device"@, "audio"@, "device"@)
            &&& moved_to_section(s[1], s[2], "change_interval_ms"@, "output"@, "change_interval_ms"@)
            &&& moved_to_section(s[2], s[3], "transition_min_ms"@, "output"@, "transition_min_ms"@)
            &&& moved_to_section(s[3], s[4], "transition_max_ms"@, "output"@, "transition_max_ms"@)
            &&& moved_to_section(s[4], s[5], "beat_threshold"@, "dynamics"@, "beat_threshold"@)
            &&& moved_to_section(s[5], s[6], "strobe_ms"@, "dynamics"@, "strobe_ms"@)
            &&& alpha_split(s[6], s[7])
            &&& #[trigger] saturate_converted(s[7], s[8])
        };
    reveal_strlit("audio_device");
    reveal_strlit("audio");
    reveal_strlit("device");
    reveal_strlit("change_interval_ms");
    reveal_strlit("output");
    reveal_strlit("transition_min_ms");
    reveal_strlit("transition_max_ms");
    reveal_strlit("beat_threshold");
    reveal_strlit("dynamics");
    reveal_strlit("strobe_ms");
    reveal_strlit("color_map");
    reveal_strlit("band_alpha");
    reveal_strlit("band_attack");
    reveal_strlit("band_release");
    reveal_strlit("saturation");
    assert("audio_device"@.len() == 12 && "audio"@.len() == 5 && "device"@.len() == 6 && "change_interval_ms"@.len() == 18 && "output"@.len() == 6 && "transition_min_ms"@.len() == 17 && "transition_max_ms"@.len() == 17 && "beat_threshold"@.len() == 14 && "dynamics"@.len() == 8 && "strobe_ms"@.len() == 9 && "color_map"@.len() == 9 && "band_alpha"@.len() == 10 && "band_attack"@.len() == 11 && "band_release"@.len() == 12 && "saturation"@.len() == 10);
    assert("transition_min_ms"@[12] != "transition_max_ms"@[12]);
    assert("strobe_ms"@[0] != "color_map"@[0]);
    if before.contains_key("audio_device"@) && section_room(before, "audio"@, "device"@) {
        let v = before["audio_device"@];
        lemma_move_lands(s[0], s[1], "audio_device"@, "audio"@, "device"@);
        lemma_move_keeps(s[1], s[2], "change_interval_ms"@, "output"@, "change_interval_ms"@, "audio"@, "device"@, v);
        lemma_move_keeps(s[2], s[3], "transition_min_ms"@, "output"@, "transition_min_ms"@, "audio"@, "device"@, v);
        lemma_move_keeps(s[3], s[4], "transition_max_ms"@, "output"@, "transition_max_ms"@, "audio"@, "device"@, v);
        lemma_move_keeps(s[4], s[5], "beat_threshold"@, "dynamics"@, "beat_threshold"@, "audio"@, "device"@, v);
        lemma_move_keeps(s[5], s[6], "strobe_ms"@, "dynamics"@, "strobe_ms"@, "audio"@, "device"@, v);
        lemma_alpha_keeps(s[6], s[7], "audio"@, "device"@, v);
        lemma_saturate_keeps(s[7], s[8], "audio"@, "device"@, v);
    }
    if before.contains_key("change_interval_ms"@) && section_room(before, "output"@, "change_interval_ms"@) {
        let v = before["change_interval_ms"@];
        lemma_move_keeps(s[0], s[1], "audio_device"@, "audio"@, "device"@, "change_interval_ms"@, "change_interval_ms"@, v);
        lemma_move_keeps(s[0], s[1], "audio_device"@, "audio"@, "device"@, "output"@, "change_interval_ms"@, v);
        lemma_move_lands(s[1], s[2], "change_interval_ms"@, "output"@, "change_interval_ms"@);
        lemma_move_keeps(s[2], s[3], "transition_min_ms"@, "output"@, "transition_min_ms"@, "output"@, "change_interval_ms"@, v);
        lemma_move_keeps(s[3], s[4], "transition_max_ms"@, "output"@, "transition_max_ms"@, "output"@, "change_interval_ms"@, v);
        lemma_move_keeps(s[4], s[5], "beat_threshold"@, "dynamics"@, "beat_threshold"@, "output"@, "change_interval_ms"@, v);
        lemma_move_keeps(s[5], s[6], "strobe_ms"@, "dynamics"@, "strobe_ms"@, "output"@, "change_interval_ms"@, v);
        lemma_alpha_keeps(s[6], s[7], "output"@, "change_interval_ms"@, v);
        lemma_saturate_keeps(s[7], s[8], "output"@, "change_interval_ms"@, v);
    }
    if before.contains_key("transition_min_ms"@) && section_room(before, "output"@, "transition_min_ms"@) {
        let v = before["transition_min_ms"@];
        lemma_move_keeps(s[0], s[1], "audio_device"@, "audio"@, "device"@, "transition_min_ms"@, "transition_min_ms"@, v);
        lemma_move_keeps(s[0], s[1], "audio_device"@, "audio"@, "device"@, "output"@, "transition_min_ms"@, v);
        lemma_move_keeps(s[1], s[2], "change_interval_ms"@, "output"@, "change_interval_ms"@, "transition_min_ms"@, "transition_min_ms"@, v);
        lemma_move_keeps(s[1], s[2], "change_interval_ms"@, "output"@, "change_interval_ms"@, "output"@, "transition_min_ms"@, v);
        lemma_move_lands(s[2], s[3], "transition_min_ms"@, "output"@, "transition_min_ms"@);
        lemma_move_keeps(s[3], s[4], "transition_max_ms"@, "output"@, "transition_max_ms"@, "output"@, "transition_min_ms"@, v);
        lemma_move_keeps(s[4], s[5], "beat_threshold"@, "dynamics"@, "beat_threshold"@, "output"@, "transition_min_ms"@, v);
        lemma_move_keeps(s[5], s[6], "strobe_ms"@, "dynamics"@, "strobe_ms"@, "output"@, "transition_min_ms"@, v);
        lemma_alpha_keeps(s[6], s[7], "output"@, "transition_min_ms"@, v);
        lemma_saturate_keeps(s[7], s[8], "output"@, "transition_min_ms"@, v);
    }
    if before.contains_key("transition_max_ms"@) && section_room(before, "output"@, "transition_max_ms"@) {
        let v = before["transition_max_ms"@];
        lemma_move_keeps(s[0], s[1], "audio_device"@, "audio"@, "device"@, "transition_max_ms"@, "transition_max_ms"@, v);
        lemma_move_keeps(s[0], s[1], "audio_device"@, "audio"@, "device"@, "output"@, "transition_max_ms"@, v);
        lemma_move_keeps(s[1], s[2], "change_interval_ms"@, "output"@, "change_interval_ms"@, "transition_max_ms"@, "transition_max_ms"@, v);
        lemma_move_keeps(s[1], s[2], "change_interval_ms"@, "output"@, "change_interval_ms"@, "output"@, "transition_max_ms"@, v);
        lemma_move_keeps(s[2], s[3], "transition_min_ms"@, "output"@, "transition_min_ms"@, "transition_max_ms"@, "transition_max_ms"@, v);
        lemma_move_keeps(s[2], s[3], "transition_min_ms"@, "output"@, "transition_min_ms"@, "output"@, "transition_max_ms"@, v);
        lemma_move_lands(s[3], s[4], "transition_max_ms"@, "output"@, "transition_max_ms"@);
        lemma_move_keeps(s[4], s[5], "beat_threshold"@, "dynamics"@, "beat_threshold"@, "output"@, "transition_max_ms"@, v);
        lemma_move_keeps(s[5], s[6], "strobe_ms"@, "dynamics"@, "strobe_ms"@, "output"@, "transition_max_ms"@, v);
        lemma_alpha_keeps(s[6], s[7], "output"@, "transition_max_ms"@, v);
        lemma_saturate_keeps(s[7], s[8], "output"@, "transition_max_ms"@, v);
    }
    if before.contains_key("beat_threshold"@) && section_room(before, "dynamics"@, "beat_threshold"@) {
        let v = before["beat_threshold"@];
        lemma_move_keeps(s[0], s[1], "audio_device"@, "audio"@, "device"@, "beat_threshold"@, "beat_threshold"@, v);
        lemma_move_keeps(s[0], s[1], "audio_device"@, "audio"@, "device"@, "dynamics"@, "beat_threshold"@, v);
        lemma_move_keeps(s[1], s[2], "change_interval_ms"@, "output"@, "change_interval_ms"@, "beat_threshold"@, "beat_threshold"@, v);
        lemma_move_keeps(s[1], s[2], "change_interval_ms"@, "output"@, "change_interval_ms"@, "dynamics"@, "beat_threshold"@, v);
        lemma_move_keeps(s[2], s[3], "transition_min_ms"@, "output"@, "transition_min_ms"@, "beat_threshold"@, "beat_threshold"@, v);
        lemma_move_keeps(s[2], s[3], "transition_min_ms"@, "output"@, "transition_min_ms"@, "dynamics"@, "beat_threshold"@, v);
        lemma_move_keeps(s[3], s[4], "transition_max_ms"@, "output"@, "transition_max_ms"@, "beat_threshold"@, "beat_threshold"@, v);
        lemma_move_keeps(s[3], s[4], "transition_max_ms"@, "output"@, "transition_max_ms"@, "dynamics"@, "beat_threshold"@, v);
        lemma_move_lands(s[4], s[5], "beat_threshold"@, "dynamics"@, "beat_threshold"@);
        lemma_move_keeps(s[5], s[6], "strobe_ms"@, "dynamics"@, "strobe_ms"@, "dynamics"@, "beat_threshold"@, v);
        lemma_alpha_keeps(s[6], s[7], "dynamics"@, "beat_threshold"@, v);
        lemma_saturate_keeps(s[7], s[8], "dynamics"@, "beat_threshold"@, v);
    }
    if before.contains_key("strobe_ms"@) && section_room(before, "dynamics"@, "strobe_ms"@) {
        let v = before["strobe_ms"@];
        lemma_move_keeps(s[0], s[1], "audio_device"@, "audio"@, "device"@, "strobe_ms"@, "strobe_ms"@, v);
        lemma_move_keeps(s[0], s[1], "audio_device"@, "audio"@, "device"@, "dynamics"@, "strobe_ms"@, v);
        lemma_move_keeps(s[1], s[2], "change_interval_ms"@, "output"@, "change_interval_ms"@, "strobe_ms"@, "strobe_ms"@, v);
        lemma_move_keeps(s[1], s[2], "change_interval_ms"@, "output"@, "change_interval_ms"@, "dynamics"@, "strobe_ms"@, v);
        lemma_move_keeps(s[2], s[3], "transition_min_ms"@, "output"@, "transition_min_ms"@, "strobe_ms"@, "strobe_ms"@, v);
        lemma_move_keeps(s[2], s[3], "transition_min_ms"@, "output"@, "transition_min_ms"@, "dynamics"@, "strobe_ms"@, v);
        lemma_move_keeps(s[3], s[4], "transition_max_ms"@, "output"@, "transition_max_ms"@, "strobe_ms"@, "strobe_ms"@, v);
        lemma_move_keeps(s[3], s[4], "transition_max_ms"@, "output"@, "transition_max_ms"@, "dynamics"@, "strobe_ms"@, v);
        lemma_move_keeps(s[4], s[5], "beat_threshold"@, "dynamics"@, "beat_threshold"@, "strobe_ms"@, "strobe_ms"@, v);
        lemma_move_keeps(s[4], s[5], "beat_threshold"@, "dynamics"@, "beat_threshold"@, "dynamics"@, "strobe_ms"@, v);
        lemma_move_lands(s[5], s[6], "strobe_ms"@, "dynamics"@, "strobe_ms"@);
        lemma_alpha_keeps(s[6], s[7], "dynamics"@, "strobe_ms"@, v);
        lemma_saturate_keeps(s[7], s[8], "dynamics"@, "strobe_ms"@, v);
    }
}

/// Law: the top-level migration puts no member into any section but the members the legacy
/// settings become (`audio.device`; `output.change_interval_ms`, `output.transition_min_ms`,
/// `output.transition_max_ms`; `dynamics.beat_threshold`, `dynamics.strobe_ms`), the two halves
/// of the old `band_alpha` (`dynamics.band_attack`, `dynamics.band_release`) and
/// `color_map.saturation`.
pub proof fn lemma_legacy_settings_touch_only_their_sections(before: Map<Seq<char>, Json>, after: Map<Seq<char>, Json>)
    requires
        top_level_migrated(before, after),
    ensures
        forall|q: Seq<char>, k: Seq<char>| #[trigger] section_key(after, q, k) ==> section_key(before, q, k) || ((q == "audio"@ && k == "device"@) || (q == "output"@ && k == "change_interval_ms"@) || (q == "output"@ && k == "transition_min_ms"@) || (q == "output"@ && k == "transition_max_ms"@) || (q == "dynamics"@ && k == "beat_threshold"@) || (q == "dynamics"@ && k == "strobe_ms"@) || (q == "dynamics"@ && k == "band_attack"@) || (q == "dynamics"@ && k == "band_release"@) || (q == "color_map"@ && k == "saturation"@)),
{
    let s = choose|s: Seq<Map<Seq<char>, Json>>|
        {
            &&& s.len() == 9
            &&& s[0] == before
            &&& s[8] == after
            &&& moved_to_section(s[0], s[1], "audio_device"@, "audio"@, "device"@)
            &&& moved_to_section(s[1], s[2], "change_interval_ms"@, "output"@, "change_interval_ms"@)
            &&& moved_to_section(s[2], s[3], "transition_min_ms"@, "output"@, "transition_min_ms"@)
            &&& moved_to_section(s[3], s[4], "transition_max_ms"@, "output"@, "transition_max_ms"@)
            &&& moved_to_section(s[4], s[5], "beat_threshold"@, "dynamics"@, "beat_threshold"@)
            &&& moved_to_section(s[5], s[6], "strobe_ms"@, "dynamics"@, "strobe_ms"@)
            &&& alpha_split(s[6], s[7])
            &&& #[trigger] saturate_converted(s[7], s[8])
        };
    reveal_strlit("audio_device");
    reveal_strlit("audio");
    reveal_strlit("device");
    reveal_strlit("change_interval_ms");
    reveal_strlit("output");
    reveal_strlit("transition_min_ms");
    reveal_strlit("transition_max_ms");
    reveal_strlit("beat_threshold");
    reveal_strlit("dynamics");
    reveal_strlit("strobe_ms");
    reveal_strlit("color_map");
    reveal_strlit("band_alpha");
    reveal_strlit("band_attack");
    reveal_strlit("band_release");
    reveal_strlit("saturation");
    assert("audio_device"@.len() == 12 && "audio"@.len() == 5 && "device"@.len() == 6 && "change_interval_ms"@.len() == 18 && "output"@.len() == 6 && "transition_min_ms"@.len() == 17 && "transition_max_ms"@.len() == 17 && "beat_threshold"@.len() == 14 && "dynamics"@.len() == 8 && "strobe_ms"@.len() == 9 && "color_map"@.len() == 9 && "band_alpha"@.len() == 10 && "band_attack"@.len() == 11 && "band_release"@.len() == 12 && "saturation"@.len() == 10);
    assert("transition_min_ms"@[12] != "transition_max_ms"@[12]);
    assert("strobe_ms"@[0] != "color_map"@[0]);
    assert forall|q: Seq<char>, k: Seq<char>| #[trigger] section_key(after, q, k) implies section_key(before, q, k) || ((q == "audio"@ && k == "device"@) || (q == "output"@ && k == "change_interval_ms"@) || (q == "output"@ && k == "transition_min_ms"@) || (q == "output"@ && k == "transition_max_ms"@) || (q == "dynamics"@ && k == "beat_threshold"@) || (q == "dynamics"@ && k == "strobe_ms"@) || (q == "dynamics"@ && k == "band_attack"@) || (q == "dynamics"@ && k == "band_release"@) || (q == "color_map"@ && k == "saturation"@)) by {
        lemma_saturate_adds(s[7], s[8], q, k);
        if section_key(s[7], q, k) {
            lemma_alpha_adds(s[6], s[7], q, k);
        }
        if section_key(s[6], q, k) {
            lemma_move_adds(s[5], s[6], "strobe_ms"@, "dynamics"@, "strobe_ms"@, q, k);
        }
        if section_key(s[5], q, k) {
            lemma_move_adds(s[4], s[5], "beat_threshold"@, "dynamics"@, "beat_threshold"@, q, k);
        }
        if section_key(s[4], q, k) {
            lemma_move_adds(s[3], s[4], "transition_max_ms"@, "output"@, "transition_max_ms"@, q, k);
        }
        if section_key(s[3], q, k) {
            lemma_move_adds(s[2], s[3], "transition_min_ms"@, "output"@, "transition_min_ms"@, q, k);
        }
        if section_key(s[2], q, k) {
            lemma_move_adds(s[1], s[2], "change_interval_ms"@, "output"@, "change_interval_ms"@, q, k);
        }
        if section_key(s[1], q, k) {
            lemma_move_adds(s[0], s[1], "audio_device"@, "audio"@, "device"@, q, k);
        }
    }
}

/// A device type: the `type` tag its entries carry, and the top-level array its entries lived in
/// before the unified `devices` array existed.
pub struct DeviceKind {
    pub type_tag: &'static str,
    pub legacy_key: Option<&'static str>,
    /// Whether a freshly created config holds one of these.
    pub in_default_config: bool,
}

/// The device types, in the order the migration visits them.
pub fn device_registry() -> (v: Vec<DeviceKind>)
    ensures
        v@.len() == 5,
        v@[3].in_default_config,
        !v@[0].in_default_config && !v@[1].in_default_config && !v@[2].in_default_config && !v@[4].in_default_config,
        v@[0].type_tag@ == "govee_lan"@,
        v@[0].legacy_key is Some && v@[0].legacy_key->Some_0@ == "govees"@,
        v@[1].type_tag@ == "govee_dreamview"@ && v@[1].legacy_key is None,
        v@[2].type_tag@ == "hue"@ && v@[2].legacy_key is None,
        v@[3].type_tag@ == "shelly"@,
        v@[3].legacy_key is Some && v@[3].legacy_key->Some_0@ == "shellys"@,
        v@[4].type_tag@ == "wled"@ && v@[4].legacy_key is None,
{
    vec![
        DeviceKind { type_tag: "govee_lan", legacy_key: Some("govees"), in_default_config: false },
        DeviceKind { type_tag: "govee_dreamview", legacy_key: None, in_default_config: false },
        DeviceKind { type_tag: "hue", legacy_key: None, in_default_config: false },
        DeviceKind { type_tag: "shelly", legacy_key: Some("shellys"), in_default_config: true },
        DeviceKind { type_tag: "wled", legacy_key: None, in_default_config: false },
    ]
}

/// The fields after a single legacy `shelly` object became the one-element array `shellys`,
/// which happens only when there is no `shellys` yet.
pub open spec fn single_shelly_wrapped(before: Map<Seq<char>, Json>, after: Map<Seq<char>, Json>) -> bool {
    if !before.contains_key("shellys"@) && before.contains_key("shelly"@) {
        &&& after.contains_key("shellys"@)
        &&& after.remove("shellys"@) == before.remove("shelly"@)
        &&& after["shellys"@] is Array
        &&& item_list(after["shellys"@]->Array_0) == seq![before["shelly"@]]
    } else {
        after == before
    }
}

/// The legacy entries to turn into devices, in registry order: each element of each legacy array
/// with the type tag of its device.
pub open spec fn legacy_candidates(f: Map<Seq<char>, Json>, registry: Seq<DeviceKind>, n: nat) -> Seq<(Seq<char>, Json)>
    decreases n,
{
    if n == 0 {
        Seq::empty()
    } else {
        let kind = registry[n - 1];
        legacy_candidates(f, registry, (n - 1) as nat) + match kind.legacy_key {
            Some(key) => if f.contains_key(key@) && (f[key@] is Array) {
                item_list(f[key@]->Array_0).map_values(|it: Json| (kind.type_tag@, it))
            } else {
                Seq::empty()
            },
            None => Seq::empty(),
        }
    }
}

/// A device entry made from a legacy element: an object with the element's fields (when it is an
/// object) and a `type` that is the tag unless the element names one itself.
pub open spec fn device_entry(entry: Json, tag: Seq<char>, item: Json) -> bool {
    let e = object_fields(entry);
    &&& entry is Object
    &&& e.contains_key("type"@)
    &&& if item is Object {
        &&& e.remove("type"@) == object_fields(item).remove("type"@)
        &&& if object_fields(item).contains_key("type"@) {
            e["type"@] == object_fields(item)["type"@]
        } else {
            text_is(e["type"@], tag)
        }
    } else {
        &&& e.dom() == Set::<Seq<char>>::empty().insert("type"@)
        &&& text_is(e["type"@], tag)
    }
}

/// The fields after the `devices` array was built from the legacy arrays, which happens only
/// when there is no `devices` yet and some legacy element exists.
pub open spec fn devices_built(before: Map<Seq<char>, Json>, after: Map<Seq<char>, Json>, registry: Seq<DeviceKind>) -> bool {
    let cands = legacy_candidates(before, registry, registry.len());
    if before.contains_key("devices"@) || cands.len() == 0 {
        after == before
    } else {
        &&& after.contains_key("devices"@)
        &&& after.remove("devices"@) == before
        &&& after["devices"@] is Array
        &&& item_list(after["devices"@]->Array_0).len() == cands.len()
        &&& forall|i: int|
            0 <= i < cands.len() ==> #[trigger] device_entry(item_list(after["devices"@]->Array_0)[i], cands[i].0, cands[i].1)
    }
}

/// The fields without the legacy keys of the first `n` device types.
pub open spec fn legacy_removed(f: Map<Seq<char>, Json>, registry: Seq<DeviceKind>, n: nat) -> Map<Seq<char>, Json>
    decreases n,
{
    if n == 0 {
        f
    } else {
        let before = legacy_removed(f, registry, (n - 1) as nat);
        match registry[n - 1].legacy_key {
            Some(key) => before.remove(key@),
            None => before,
        }
    }
}

/// The whole device migration: the single `shelly` wrapped, the `devices` array built, the
/// legacy arrays removed.
pub open spec fn devices_migrated(before: Map<Seq<char>, Json>, after: Map<Seq<char>, Json>, registry: Seq<DeviceKind>) -> bool {
    exists|f1: Map<Seq<char>, Json>, f2: Map<Seq<char>, Json>|
        #[trigger] single_shelly_wrapped(before, f1) && #[trigger] devices_built(f1, f2, registry) && after == legacy_removed(
            f2,
            registry,
            registry.len(),
        )
}

/// Members with every member of `extra` set over them, one after the other.
pub open spec fn set_all(base: Members, extra: Members) -> Members
    decreases extra,
{
    match extra {
        Members::End => base,
        Members::Member(k, v, rest) => set_all(set_spec(base, k, *v), *rest),
    }
}

/// Lemma: setting distinct members over distinct members gives the union, the later ones winning.
proof fn lemma_set_all(base: Members, extra: Members)
    requires
        unique_keys(base),
        unique_keys(extra),
    ensures
        unique_keys(set_all(base, extra)),
        fields(set_all(base, extra)) == fields(base).union_prefer_right(fields(extra)),
    decreases extra,
{
    match extra {
        Members::End => {
            assert(fields(base).union_prefer_right(fields(extra)) =~= fields(base));
        },
        Members::Member(k, v, rest) => {
            lemma_set(base, k, *v);
            lemma_set_all(set_spec(base, k, *v), *rest);
            lemma_fields_keys(*rest, k@);
            assert(fields(set_all(base, extra)) =~= fields(base).union_prefer_right(fields(extra)));
        },
    }
}

/// Sets deep copies of every member of `extra` over `base`.
fn copy_all_into(base: Members, extra: &Members) -> (r: Members)
    ensures
        r == set_all(base, *extra),
    decreases extra,
{
    match extra {
        Members::End => base,
        Members::Member(k, v, rest) => {
            let step = set_member(base, k.clone(), copy_json(&**v));
            copy_all_into(step, &**rest)
        },
    }
}

/// The device entry for one legacy element.
fn entry_for(tag: &str, item: &Json) -> (e: Json)
    requires
        well_formed(*item),
    ensures
        device_entry(e, tag@, *item),
        well_formed(e),
{
    let base = Members::Member(String::from_str("type"), Box::new(Json::Text(String::from_str(tag))), Box::new(Members::End));
    proof {
        reveal_with_fuel(fields, 2);
        reveal_with_fuel(has_key, 2);
        reveal_with_fuel(unique_keys, 2);
        reveal_with_fuel(members_well_formed, 2);
        assert(unique_keys(base));
        assert(members_well_formed(base));
    }
    match item {
        Json::Object(im) => {
            let merged_members = copy_all_into(base, im);
            proof {
                lemma_set_all(base, *im);
                lemma_set_all_well_formed(base, *im);
                let e = fields(merged_members);
                assert(e.remove("type"@) =~= fields(*im).remove("type"@));
            }
            Json::Object(merged_members)
        },
        _ => {
            proof {
                assert(fields(base).dom() =~= Set::<Seq<char>>::empty().insert("type"@));
            }
            Json::Object(base)
        },
    }
}

/// Lemma: setting well-formed members keeps members well formed.
proof fn lemma_set_all_well_formed(base: Members, extra: Members)
    requires
        members_well_formed(base),
        members_well_formed(extra),
    ensures
        members_well_formed(set_all(base, extra)),
    decreases extra,
{
    match extra {
        Members::End => {},
        Members::Member(k, v, rest) => {
            lemma_set_well_formed(base, k, *v);
            lemma_set_all_well_formed(set_spec(base, k, *v), *rest);
        },
    }
}

/// Elements from a sequence of values, first to last.
fn items_from(v: Vec<Json>) -> (r: Items)
    ensures
        item_list(r) == v@,
{
    let ghost all = v@;
    let mut v = v;
    let mut items = Items::End;
    while v.len() > 0
        invariant
            all == v@ + item_list(items),
        decreases v@.len(),
    {
        let x = v.pop().unwrap();
        let ghost before = item_list(items);
        items = Items::Item(Box::new(x), Box::new(items));
        assert(item_list(items) =~= seq![x] + before);
        assert(all =~= v@ + item_list(items));
    }
    assert(all =~= item_list(items));
    items
}

/// Lemma: elements that are all well formed make well-formed array contents.
proof fn lemma_items_well_formed(items: Items)
    requires
        forall|i: int| 0 <= i < item_list(items).len() ==> #[trigger] well_formed(item_list(items)[i]),
    ensures
        items_well_formed(items),
    decreases items,
{
    match items {
        Items::End => {},
        Items::Item(v, rest) => {
            assert(item_list(items)[0] == *v);
            assert(well_formed(item_list(items)[0]));
            assert forall|i: int| 0 <= i < item_list(*rest).len() implies #[trigger] well_formed(item_list(*rest)[i]) by {
                assert(item_list(items)[i + 1] == item_list(*rest)[i]);
            }
            lemma_items_well_formed(*rest);
        },
    }
}

/// The document after the device migration: an object migrated as `devices_migrated` says,
/// anything else unchanged.
pub open spec fn devices_done(before: Json, after: Json, registry: Seq<DeviceKind>) -> bool {
    match before {
        Json::Object(m) => (after is Object) && devices_migrated(fields(m), object_fields(after), registry),
        _ => after == before,
    }
}

/// Moves the lights older versions kept in `shelly`, `shellys[]` and `govees[]` into the unified
/// `devices` array: a single `shelly` becomes `shellys` when that is missing; when there is no
/// `devices` yet, every element of each legacy array becomes a device entry tagged with its
/// type, in registry order; then the legacy arrays are removed. A document that is not an object
/// is left alone.
pub fn migrate_legacy_devices(top: &mut Json, registry: &[DeviceKind])
    requires
        well_formed(*old(top)),
    ensures
        well_formed(*final(top)),
        devices_done(*old(top), *final(top), registry@),
{
    let mut taken = Json::Null;
    std::mem::swap(&mut taken, top);
    let m = match taken {
        Json::Object(m) => m,
        other => {
            *top = other;
            return;
        },
    };
    let ghost f0 = fields(m);
    let has_shellys = match get_member(&m, "shellys") {
        Some(_) => true,
        None => false,
    };
    let has_shelly = match get_member(&m, "shelly") {
        Some(_) => true,
        None => false,
    };
    let m1 = if !has_shellys && has_shelly {
        let ghost m0 = m;
        let (rest, v) = take_member(m, "shelly");
        proof {
            lemma_remove(m0, "shelly"@);
            lemma_remove_well_formed(m0, "shelly"@);
            lemma_field_well_formed(m0, "shelly"@);
        }
        let old_one = match v {
            Some(v) => v,
            None => {
                proof {
                    assert(false);
                }
                Json::Null
            },
        };
        let arr = Json::Array(Items::Item(Box::new(old_one), Box::new(Items::End)));
        let key = String::from_str("shellys");
        proof {
            reveal_with_fuel(item_list, 2);
            reveal_with_fuel(items_well_formed, 2);
            reveal_with_fuel(well_formed, 2);
            assert(well_formed(old_one));
            assert(well_formed(arr));
            assert(item_list(arr->Array_0) =~= seq![old_one]);
            lemma_set(rest, key, arr);
            lemma_set_well_formed(rest, key, arr);
            lemma_fields_keys(m0, "shellys"@);
            assert(fields(set_spec(rest, key, arr)).remove("shellys"@) =~= f0.remove("shelly"@));
        }
        set_member(rest, key, arr)
    } else {
        m
    };
    let ghost f1 = fields(m1);
    assert(single_shelly_wrapped(f0, f1));
    let has_devices = match get_member(&m1, "devices") {
        Some(_) => true,
        None => false,
    };
    let m2 = if has_devices {
        m1
    } else {
        let mut list: Vec<Json> = Vec::new();
        let mut r: usize = 0;
        while r < registry.len()
            invariant
                r <= registry@.len(),
                f1 == fields(m1),
                unique_keys(m1),
                members_well_formed(m1),
                list@.len() == legacy_candidates(f1, registry@, r as nat).len(),
                forall|i: int|
                    0 <= i < list@.len() ==> #[trigger] device_entry(list@[i], legacy_candidates(f1, registry@, r as nat)[i].0, legacy_candidates(f1, registry@, r as nat)[i].1),
                forall|i: int| 0 <= i < list@.len() ==> #[trigger] well_formed(list@[i]),
            decreases registry@.len() - r,
        {
            let ghost done = legacy_candidates(f1, registry@, r as nat);
            let tag = registry[r].type_tag;
            match registry[r].legacy_key {
                Some(key) => {
                    match get_member(&m1, key) {
                        Some(Json::Array(items)) => {
                            proof {
                                lemma_field_well_formed(m1, key@);
                            }
                            let ghost all = item_list(*items);
                            let ghost mapped = all.map_values(|it: Json| (tag@, it));
                            let mut cur: &Items = items;
                            let mut k: usize = 0;
                            loop
                                invariant
                                    k <= all.len(),
                                    all.len() == mapped.len(),
                                    item_list(*cur) == all.skip(k as int),
                                    items_well_formed(*cur),
                                    mapped == all.map_values(|it: Json| (tag@, it)),
                                    list@.len() == done.len() + k,
                                    forall|i: int|
                                        0 <= i < list@.len() ==> #[trigger] device_entry(list@[i], (done + mapped)[i].0, (done + mapped)[i].1),
                                    forall|i: int| 0 <= i < list@.len() ==> #[trigger] well_formed(list@[i]),
                                ensures
                                    list@.len() == done.len() + mapped.len(),
                                    forall|i: int|
                                        0 <= i < list@.len() ==> #[trigger] device_entry(list@[i], (done + mapped)[i].0, (done + mapped)[i].1),
                                    forall|i: int| 0 <= i < list@.len() ==> #[trigger] well_formed(list@[i]),
                                decreases items_size(*cur),
                            {
                                match cur {
                                    Items::End => {
                                        assert(all.skip(k as int).len() == 0);
                                        break;
                                    },
                                    Items::Item(v, rest) => {
                                        assert(item_list(*cur).len() > 0);
                                        assert(all.skip(k as int)[0] == **v);
                                        assert(all[k as int] == **v);
                                        let e = entry_for(tag, &**v);
                                        list.push(e);
                                        assert((done + mapped)[done.len() + k] == (tag@, **v));
                                        assert(item_list(*cur) == seq![**v] + item_list(**rest));
                                        assert(k < all.len());
                                        assert(all.skip(k as int).drop_first() =~= all.skip(k + 1));
                                        assert(item_list(**rest) =~= (seq![**v] + item_list(**rest)).drop_first());
                                        assert(item_list(**rest) =~= all.skip(k + 1));
                                        assert(k + 1 <= list.len());
                                        cur = &**rest;
                                        k = k + 1;
                                    },
                                }
                            }
                            proof {
                                assert(legacy_candidates(f1, registry@, (r + 1) as nat) =~= done + mapped);
                            }
                        },
                        _ => {
                            proof {
                                assert(legacy_candidates(f1, registry@, (r + 1) as nat) =~= done);
                            }
                        },
                    }
                },
                None => {
                    proof {
                        assert(legacy_candidates(f1, registry@, (r + 1) as nat) =~= done);
                    }
                },
            }
            r = r + 1;
        }
        if list.len() == 0 {
            m1
        } else {
            let ghost lv = list@;
            let arr_items = items_from(list);
            proof {
                assert forall|i: int| 0 <= i < item_list(arr_items).len() implies #[trigger] well_formed(item_list(arr_items)[i]) by {
                    assert(well_formed(lv[i]));
                }
                lemma_items_well_formed(arr_items);
            }
            let arr = Json::Array(arr_items);
            let key = String::from_str("devices");
            proof {
                lemma_set(m1, key, arr);
                lemma_set_well_formed(m1, key, arr);
                lemma_fields_keys(m1, "devices"@);
                assert(fields(set_spec(m1, key, arr)).remove("devices"@) =~= f1);
            }
            set_member(m1, key, arr)
        }
    };
    let ghost f2 = fields(m2);
    assert(devices_built(f1, f2, registry@));
    let mut m3 = m2;
    let mut r: usize = 0;
    while r < registry.len()
        invariant
            r <= registry@.len(),
            unique_keys(m3),
            members_well_formed(m3),
            fields(m3) == legacy_removed(f2, registry@, r as nat),
        decreases registry@.len() - r,
    {
        match registry[r].legacy_key {
            Some(key) => {
                let ghost before = m3;
                let (left, _) = take_member(m3, key);
                proof {
                    lemma_remove(before, key@);
                    lemma_remove_well_formed(before, key@);
                }
                m3 = left;
            },
            None => {},
        }
        r = r + 1;
    }
    proof {
        assert(devices_migrated(f0, fields(m3), registry@)) by {
            assert(single_shelly_wrapped(f0, f1) && devices_built(f1, f2, registry@));
        }
    }
    *top = Json::Object(m3);
}

/// Law: after the device migration none of the registry's legacy arrays is left at the top level.
pub proof fn lemma_legacy_arrays_gone(before: Map<Seq<char>, Json>, after: Map<Seq<char>, Json>, registry: Seq<DeviceKind>, i: int)
    requires
        devices_migrated(before, after, registry),
        0 <= i < registry.len(),
        registry[i].legacy_key is Some,
    ensures
        !after.contains_key(registry[i].legacy_key->Some_0@),
{
    let (f1, f2) = choose|f1: Map<Seq<char>, Json>, f2: Map<Seq<char>, Json>|
        #[trigger] single_shelly_wrapped(before, f1) && #[trigger] devices_built(f1, f2, registry) && after == legacy_removed(
            f2,
            registry,
            registry.len(),
        );
    lemma_removed_stays_removed(f2, registry, registry.len(), i);
}

/// A legacy key removed at step `i` stays removed.
proof fn lemma_removed_stays_removed(f: Map<Seq<char>, Json>, registry: Seq<DeviceKind>, n: nat, i: int)
    requires
        0 <= i < n <= registry.len(),
        registry[i].legacy_key is Some,
    ensures
        !legacy_removed(f, registry, n).contains_key(registry[i].legacy_key->Some_0@),
    decreases n,
{
    if n - 1 > i {
        lemma_removed_stays_removed(f, registry, (n - 1) as nat, i);
    }
}

/// The first device type with this tag.
pub open spec fn kind_position(registry: Seq<DeviceKind>, tag: Seq<char>, from: nat) -> Option<nat>
    decreases registry.len() - from,
{
    if from >= registry.len() {
        None
    } else if registry[from as int].type_tag@ == tag {
        Some(from)
    } else {
        kind_position(registry, tag, from + 1)
    }
}

/// Finds the device type an entry's `type` names.
pub fn find(registry: &[DeviceKind], tag: &str) -> (r: Option<usize>)
    ensures
        match r {
            Some(i) => i < registry@.len() && kind_position(registry@, tag@, 0) == Some(i as nat),
            None => kind_position(registry@, tag@, 0) is None,
        },
{
    let want = chars_of(tag);
    let mut i: usize = 0;
    while i < registry.len()
        invariant
            i <= registry@.len(),
            want@ == tag@,
            kind_position(registry@, tag@, 0) == kind_position(registry@, tag@, i as nat),
        decreases registry@.len() - i,
    {
        let have = chars_of(registry[i].type_tag);
        if chars_eq(&have, &want) {
            return Some(i);
        }
        i = i + 1;
    }
    None
}

/// A device type's entry in a freshly created config.
pub fn default_entry(defaults: Json, tag: &str, form: Json, extent: Json, spatiality: Json) -> (e: Json)
    requires
        well_formed(defaults),
        well_formed(form),
        well_formed(extent),
        well_formed(spatiality),
    ensures
        well_formed(e),
        match defaults {
            Json::Object(m) => {
                &&& e is Object
                &&& object_fields(e).contains_key("type"@)
                &&& text_is(object_fields(e)["type"@], tag@)
                &&& object_fields(e).remove("type"@) == fields(m).remove("type"@).insert("form"@, form).insert(
                    "position"@,
                    Json::Null,
                ).insert("extent"@, extent).insert("path"@, Json::Null).insert("spatiality"@, spatiality)
            },
            _ => e == defaults,
        },
{
    match defaults {
        Json::Object(m) => {
            proof {
                reveal_strlit("type");
                reveal_strlit("form");
                reveal_strlit("position");
                reveal_strlit("extent");
                reveal_strlit("path");
                reveal_strlit("spatiality");
            }
            let k0 = String::from_str("type");
            let v0 = Json::Text(String::from_str(tag));
            proof {
                lemma_set(m, k0, v0);
                lemma_set_well_formed(m, k0, v0);
            }
            let m1 = set_member(m, k0, v0);
            let k1 = String::from_str("form");
            proof {
                lemma_set(m1, k1, form);
                lemma_set_well_formed(m1, k1, form);
            }
            let m2 = set_member(m1, k1, form);
            let k2 = String::from_str("position");
            proof {
                lemma_set(m2, k2, Json::Null);
                lemma_set_well_formed(m2, k2, Json::Null);
            }
            let m3 = set_member(m2, k2, Json::Null);
            let k3 = String::from_str("extent");
            proof {
                lemma_set(m3, k3, extent);
                lemma_set_well_formed(m3, k3, extent);
            }
            let m4 = set_member(m3, k3, extent);
            let k4 = String::from_str("path");
            proof {
                lemma_set(m4, k4, Json::Null);
                lemma_set_well_formed(m4, k4, Json::Null);
            }
            let m5 = set_member(m4, k4, Json::Null);
            let k5 = String::from_str("spatiality");
            proof {
                lemma_set(m5, k5, spatiality);
                lemma_set_well_formed(m5, k5, spatiality);
            }
            let m6 = set_member(m5, k5, spatiality);
            assert(fields(m6) == fields(m).insert("type"@, v0).insert("form"@, form).insert("position"@, Json::Null).insert(
                "extent"@,
                extent,
            ).insert("path"@, Json::Null).insert("spatiality"@, spatiality));
            assert("type"@[0] == 't' && "form"@[0] == 'f' && "position"@[0] == 'p' && "extent"@[0] == 'e' && "path"@[0] == 'p'
                && "spatiality"@[0] == 's');
            assert(fields(m6).remove("type"@) =~= fields(m).remove("type"@).insert("form"@, form).insert(
                "position"@,
                Json::Null,
            ).insert("extent"@, extent).insert("path"@, Json::Null).insert("spatiality"@, spatiality));
            Json::Object(m6)
        },
        other => other,
    }
}

/// The known tags as `{:?}` writes a list of strings, the first `n` of them.
pub open spec fn tags_debug(registry: Seq<DeviceKind>, n: nat) -> Seq<char>
    decreases n,
{
    if n == 0 {
        Seq::empty()
    } else if n == 1 {
        debug_quoted(registry[0].type_tag@)
    } else {
        tags_debug(registry, (n - 1) as nat) + ", "@ + debug_quoted(registry[n - 1].type_tag@)
    }
}

/// The warning for a device entry whose `type` is unknown.
pub open spec fn unknown_type_text(tag: Seq<char>, registry: Seq<DeviceKind>) -> Seq<char> {
    "Unknown device type "@ + debug_quoted(tag) + " (known: ["@ + tags_debug(registry, registry.len()) + "]). Skipping."@
}

/// The warning for a device entry whose `type` is unknown, naming the known ones.
pub fn unknown_type_message(tag: &str, registry: &[DeviceKind]) -> (s: String)
    ensures
        s@ == unknown_type_text(tag@, registry@),
{
    let mut s = String::from_str("Unknown device type ");
    let q = debug_string(tag);
    push_str(&mut s, q.as_str());
    push_str(&mut s, " (known: [");
    let ghost head = s@;
    let mut i: usize = 0;
    while i < registry.len()
        invariant
            i <= registry@.len(),
            s@ == head + tags_debug(registry@, i as nat),
        decreases registry@.len() - i,
    {
        if i > 0 {
            push_str(&mut s, ", ");
        }
        let t = debug_string(registry[i].type_tag);
        push_str(&mut s, t.as_str());
        i = i + 1;
        assert(s@ =~= head + tags_debug(registry@, i as nat));
    }
    push_str(&mut s, "]). Skipping.");
    s
}

/// The device types a freshly created config holds one entry of, by position.
pub fn default_kinds(registry: &[DeviceKind]) -> (v: Vec<usize>)
    ensures
        forall|k: int| 0 <= k < v@.len() ==> #[trigger] v@[k] < registry@.len() && registry@[v@[k] as int].in_default_config,
        forall|i: int| 0 <= i < registry@.len() && #[trigger] registry@[i].in_default_config ==> v@.contains(i as usize),
        forall|a: int, b: int| 0 <= a < b < v@.len() ==> v@[a] < v@[b],
{
    let mut v: Vec<usize> = Vec::new();
    let mut i: usize = 0;
    while i < registry.len()
        invariant
            i <= registry@.len(),
            forall|k: int| 0 <= k < v@.len() ==> #[trigger] v@[k] < i && registry@[v@[k] as int].in_default_config,
            forall|j: int| 0 <= j < i && #[trigger] registry@[j].in_default_config ==> v@.contains(j as usize),
            forall|a: int, b: int| 0 <= a < b < v@.len() ==> v@[a] < v@[b],
        decreases registry@.len() - i,
    {
        if registry[i].in_default_config {
            let ghost before = v@;
            v.push(i);
            assert forall|j: int| 0 <= j < i + 1 && #[trigger] registry@[j].in_default_config implies v@.contains(j as usize) by {
                if j < i {
                    let k = choose|k: int| 0 <= k < before.len() && before[k] == j as usize;
                    assert(v@[k] == j as usize);
                } else {
                    assert(v@[before.len() as int] == i);
                }
            }
        }
        i = i + 1;
    }
    v
}

/// Whether some member has this key.
fn key_in(m: &Members, key: &String) -> (b: bool)
    ensures
        b == has_key(*m, key@),
    decreases m,
{
    match m {
        Members::End => false,
        Members::Member(k, _, rest) => {
            let a = chars_of(k.as_str());
            let c = chars_of(key.as_str());
            chars_eq(&a, &c) || key_in(&**rest, key)
        },
    }
}

/// Whether a value is well formed: no object in it has two members with the same key.
pub fn is_well_formed(j: &Json) -> (b: bool)
    ensures
        b == well_formed(*j),
    decreases j,
{
    match j {
        Json::Array(items) => items_ok(items),
        Json::Object(m) => members_ok(m),
        _ => true,
    }
}

/// Whether every element is well formed.
fn items_ok(items: &Items) -> (b: bool)
    ensures
        b == items_well_formed(*items),
    decreases items,
{
    match items {
        Items::End => true,
        Items::Item(v, rest) => is_well_formed(&**v) && items_ok(&**rest),
    }
}

/// Whether the members have distinct keys and well-formed values.
fn members_ok(m: &Members) -> (b: bool)
    ensures
        b == (unique_keys(*m) && members_well_formed(*m)),
    decreases m,
{
    match m {
        Members::End => true,
        Members::Member(k, v, rest) => !key_in(&**rest, k) && is_well_formed(&**v) && members_ok(&**rest),
    }
}

/// The config a parsed document turns into before it is read: its root, or the defaults when the
/// root is not an object, with the top-level migration, then the device migration, then the
/// defaults filled in.
pub open spec fn prepared(parsed: Json, defaults: Json, registry: Seq<DeviceKind>, out: Json) -> bool {
    exists|a: Json, b: Json|
        #[trigger] top_level_done(config_root(parsed, defaults), a) && #[trigger] devices_done(a, b, registry) && out
            == merged(b, defaults)
}

/// The document the migrations start from: the parsed one when it is an object, else the
/// defaults.
pub open spec fn config_root(parsed: Json, defaults: Json) -> Json {
    if parsed is Object {
        parsed
    } else {
        defaults
    }
}

/// Turns a parsed config document into the one that is read: a root that is not an object is
/// replaced by the defaults (the flag says so, for the message), then the legacy settings are
/// migrated and the missing ones filled in from the defaults.
pub fn prepare_config(parsed: Json, defaults: &Json, registry: &[DeviceKind]) -> (r: (Json, bool))
    requires
        well_formed(parsed),
        well_formed(*defaults),
    ensures
        r.1 == !(parsed is Object),
        prepared(parsed, *defaults, registry@, r.0),
{
    let replaced = match parsed {
        Json::Object(_) => false,
        _ => true,
    };
    let mut doc = if replaced {
        copy_json(defaults)
    } else {
        parsed
    };
    let ghost root = doc;
    assert(root == config_root(parsed, *defaults));
    migrate_legacy_top_level(&mut doc);
    let ghost a = doc;
    migrate_legacy_devices(&mut doc, registry);
    let ghost b = doc;
    merge_defaults(&mut doc, defaults);
    assert(top_level_done(root, a) && devices_done(a, b, registry@) && doc == merged(b, *defaults));
    (doc, replaced)
}


/// What `serde_json` reads from a JSON text: the document, or the text of its error (which says
/// where the text went wrong). The parser is the crate's; its verdict depends on the text alone.
pub uninterp spec fn json_text_parsed(text: Seq<char>) -> Result<Json, Seq<char>>;

/// What `serde_json` reads from JSON bytes: the document, or the text of its error.
pub uninterp spec fn json_bytes_parsed(bytes: Seq<u8>) -> Result<Json, Seq<char>>;

/// `serde_json::Value`, a parsed JSON document, converted as soon as it is parsed.
#[verifier::external_type_specification]
#[verifier::external_body]
pub struct ExJsonValue(serde_json::Value);

/// A `serde_json` value in this module's form: the same tree, each number as its JSON text and
/// each object's members in the order the value holds them. It only converts.
#[verifier::external_body]
fn json_of_value(v: &serde_json::Value) -> Json {
    match v {
        serde_json::Value::Null => Json::Null,
        serde_json::Value::Bool(b) => Json::Bool(*b),
        serde_json::Value::Number(n) => Json::Number(n.to_string()),
        serde_json::Value::String(t) => Json::Text(t.clone()),
        serde_json::Value::Array(a) => Json::Array(a.iter().rev().fold(Items::End, |rest, x| Items::Item(Box::new(json_of_value(x)), Box::new(rest)))),
        serde_json::Value::Object(o) => Json::Object(o.iter().rev().fold(Members::End, |rest, (k, x)| Members::Member(k.clone(), Box::new(json_of_value(x)), Box::new(rest)))),
    }
}

/// Parses a JSON text with `serde_json::from_str`, giving its error as text. Claimed: the result
/// is the parser's verdict on the text, and a parsed document holds each key of an object once,
/// as `serde_json`'s maps cannot hold a key twice.
#[verifier::external_body]
fn parse_json_text(text: &str) -> (r: Result<Json, String>)
    ensures
        match r {
            Ok(j) => json_text_parsed(text@) == Ok::<Json, Seq<char>>(j) && well_formed(j),
            Err(e) => json_text_parsed(text@) == Err::<Json, Seq<char>>(e@),
        },
{
    serde_json::from_str::<serde_json::Value>(text).map(|v| json_of_value(&v)).map_err(|e| e.to_string())
}

/// Parses JSON bytes with `serde_json::from_slice`, giving its error as text. Claimed as for
/// `parse_json_text`.
#[verifier::external_body]
pub(crate) fn parse_json_bytes(bytes: &[u8]) -> (r: Result<Json, String>)
    ensures
        match r {
            Ok(j) => json_bytes_parsed(bytes@) == Ok::<Json, Seq<char>>(j) && well_formed(j),
            Err(e) => json_bytes_parsed(bytes@) == Err::<Json, Seq<char>>(e@),
        },
{
    serde_json::from_slice::<serde_json::Value>(bytes).map(|v| json_of_value(&v)).map_err(|e| e.to_string())
}

/// Reads the text of a config file: leading byte-order marks are dropped, the rest is parsed as
/// JSON, and the document is prepared as `prepare_config` does (the flag says the root was not an
/// object and the defaults took its place). A text that is not JSON gives the parser's error.
pub fn load_config_text(raw: &str, defaults: &Json, registry: &[DeviceKind]) -> (r: Result<(Json, bool), String>)
    requires
        well_formed(*defaults),
    ensures
        match json_text_parsed(trim_start_char(raw@, '\u{feff}')) {
            Err(e) => r is Err && r->Err_0@ == e,
            Ok(j) => r is Ok && r->Ok_0.1 == !(j is Object) && prepared(j, *defaults, registry@, r->Ok_0.0),
        },
{
    let chars = chars_of(raw);
    let body = string_of(&trim_start_char_chars(&chars, '\u{feff}'));
    match parse_json_text(body.as_str()) {
        Ok(j) => Ok(prepare_config(j, defaults, registry)),
        Err(e) => Err(e),
    }
}

/// The member `key` of an object value; nothing for a value that is not an object or lacks it
/// (as `serde_json` indexes a value).
pub open spec fn member_at(j: Option<Json>, key: Seq<char>) -> Option<Json> {
    match j {
        Some(Json::Object(m)) => if fields(m).contains_key(key) {
            Some(fields(m)[key])
        } else {
            None
        },
        _ => None,
    }
}

/// A borrowed value as a spec value.
pub open spec fn opt_json(j: Option<&Json>) -> Option<Json> {
    match j {
        Some(v) => Some(*v),
        None => None,
    }
}

/// The member `key` of an object value, if it is one and has that member.
pub fn member<'a>(j: Option<&'a Json>, key: &str) -> (r: Option<&'a Json>)
    ensures
        match r {
            Some(v) => member_at(opt_json(j), key@) == Some(*v),
            None => member_at(opt_json(j), key@) is None,
        },
{
    match j {
        Some(Json::Object(m)) => get_member(m, key),
        _ => None,
    }
}


/// Whether a text is a nonempty run of decimal digits.
pub open spec fn all_digits(t: Seq<char>) -> bool {
    t.len() > 0 && forall|i: int| 0 <= i < t.len() ==> '0' <= #[trigger] t[i] <= '9'
}

/// The value of a run of decimal digits.
pub open spec fn digits_value(t: Seq<char>) -> nat
    decreases t.len(),
{
    if t.len() == 0 {
        0
    } else {
        digits_value(t.drop_last()) * 10 + ((t.last() as int) - ('0' as int)) as nat
    }
}

/// A number's text read as `serde_json`'s `as_u64` reads the number: a decimal integer without
/// sign that fits in 64 bits.
pub open spec fn text_u64(t: Seq<char>) -> Option<u64> {
    if all_digits(t) && digits_value(t) <= u64::MAX {
        Some(digits_value(t) as u64)
    } else {
        None
    }
}

/// A number's text read as `as_i64` reads the number: a decimal integer, `-` in front if
/// negative, that fits in a signed 64-bit integer.
pub open spec fn text_i64(t: Seq<char>) -> Option<i64> {
    if t.len() > 0 && t[0] == '-' {
        if all_digits(t.drop_first()) && digits_value(t.drop_first()) <= 0x8000_0000_0000_0000 {
            Some((0 - digits_value(t.drop_first())) as i64)
        } else {
            None
        }
    } else if all_digits(t) && digits_value(t) <= i64::MAX {
        Some(digits_value(t) as i64)
    } else {
        None
    }
}

/// A value as an unsigned integer: a number that `text_u64` reads; nothing for anything else.
pub open spec fn json_u64(j: Option<Json>) -> Option<u64> {
    match j {
        Some(Json::Number(t)) => text_u64(t@),
        _ => None,
    }
}

/// A value as a signed integer: a number that `text_i64` reads; nothing for anything else.
pub open spec fn json_i64(j: Option<Json>) -> Option<i64> {
    match j {
        Some(Json::Number(t)) => text_i64(t@),
        _ => None,
    }
}

proof fn lemma_digits_grow(t: Seq<char>, i: int)
    requires
        0 <= i <= t.len(),
    ensures
        digits_value(t.take(i)) <= digits_value(t),
    decreases t.len(),
{
    if i < t.len() {
        lemma_digits_grow(t.drop_last(), i);
        assert(t.drop_last().take(i) =~= t.take(i));
    } else {
        assert(t.take(i) =~= t);
    }
}

/// The value of a text of decimal digits, if it is one and the value fits in 64 bits.
fn digits_u64(t: &Vec<char>) -> (r: Option<u64>)
    ensures
        r == text_u64(t@),
{
    if t.len() == 0 {
        return None;
    }
    let mut acc: u64 = 0;
    let mut i: usize = 0;
    while i < t.len()
        invariant
            0 < t@.len(),
            i <= t@.len(),
            acc as nat == digits_value(t@.take(i as int)),
            forall|k: int| 0 <= k < i ==> '0' <= #[trigger] t@[k] <= '9',
        decreases t@.len() - i,
    {
        let c = t[i];
        if !('0' <= c && c <= '9') {
            return None;
        }
        let d = ((c as u32) - 48) as u64;
        assert(t@.take(i + 1).drop_last() =~= t@.take(i as int));
        let next = match acc.checked_mul(10) {
            Some(m) => m.checked_add(d),
            None => None,
        };
        match next {
            Some(n) => {
                acc = n;
            },
            None => {
                proof {
                    lemma_digits_grow(t@, i + 1);
                }
                return None;
            },
        }
        i = i + 1;
    }
    assert(t@.take(t@.len() as int) =~= t@);
    Some(acc)
}

/// A value as `serde_json`'s `as_u64` reads it.
pub fn as_u64(j: Option<&Json>) -> (r: Option<u64>)
    ensures
        r == json_u64(opt_json(j)),
{
    match j {
        Some(Json::Number(t)) => digits_u64(&chars_of(t.as_str())),
        _ => None,
    }
}

/// A value as `serde_json`'s `as_i64` reads it.
pub fn as_i64(j: Option<&Json>) -> (r: Option<i64>)
    ensures
        r == json_i64(opt_json(j)),
{
    match j {
        Some(Json::Number(t)) => {
            let c = chars_of(t.as_str());
            if c.len() > 0 && c[0] == '-' {
                let mut rest: Vec<char> = Vec::new();
                let mut i: usize = 1;
                while i < c.len()
                    invariant
                        1 <= i <= c@.len(),
                        rest@ == c@.subrange(1, i as int),
                    decreases c@.len() - i,
                {
                    rest.push(c[i]);
                    i = i + 1;
                }
                assert(rest@ =~= c@.drop_first());
                match digits_u64(&rest) {
                    Some(v) => if v <= 0x8000_0000_0000_0000u64 {
                        if v == 0x8000_0000_0000_0000u64 {
                            Some(i64::MIN)
                        } else {
                            Some(0i64 - (v as i64))
                        }
                    } else {
                        None
                    },
                    None => {
                        proof {
                            assert(!all_digits(c@.drop_first()) || digits_value(c@.drop_first()) > u64::MAX);
                        }
                        None
                    },
                }
            } else {
                match digits_u64(&c) {
                    Some(v) => if v <= i64::MAX as u64 {
                        Some(v as i64)
                    } else {
                        None
                    },
                    None => None,
                }
            }
        },
        _ => None,
    }
}

} // verus!
