//! Philips Hue lights behind a bridge: the lights the bridge offers, the ones an entry drives,
//! and which segment of a gradient each of them shows.
use vstd::prelude::*;
use vstd::string::*;
use crate::text::{debug_quoted, debug_string, push_str, trimmed, trim_chars, chars_of, string_of, chars_eq};

verus! {

/// A light the bridge offers: its resource id and its name.
#[derive(Debug)]
pub struct HueLightInfo {
    pub id: String,
    pub name: String,
}

impl Clone for HueLightInfo {
    fn clone(&self) -> (r: Self)
        ensures
            r == *self,
    {
        HueLightInfo { id: self.id.clone(), name: self.name.clone() }
    }
}

/// The lights a `light` resource listing names, in order: each entry with an id, named by its
/// name or, without one, by its id.
pub open spec fn lights_of(entries: Seq<(Option<String>, Option<String>)>) -> Seq<(Seq<char>, Seq<char>)>
    decreases entries.len(),
{
    if entries.len() == 0 {
        Seq::empty()
    } else {
        let rest = lights_of(entries.drop_last());
        let (id, name) = entries.last();
        match id {
            None => rest,
            Some(i) => rest.push(
                (
                    i@,
                    match name {
                        Some(n) => n@,
                        None => i@,
                    },
                ),
            ),
        }
    }
}

/// Id and name of each light.
pub open spec fn light_views(lights: Seq<HueLightInfo>) -> Seq<(Seq<char>, Seq<char>)> {
    lights.map_values(|l: HueLightInfo| (l.id@, l.name@))
}

/// The lights of a `light` resource listing, from the id and the metadata name each entry
/// carries.
pub fn lights_from(entries: Vec<(Option<String>, Option<String>)>) -> (v: Vec<HueLightInfo>)
    ensures
        light_views(v@) == lights_of(entries@),
{
    let mut v: Vec<HueLightInfo> = Vec::new();
    let mut i: usize = 0;
    while i < entries.len()
        invariant
            i <= entries@.len(),
            light_views(v@) == lights_of(entries@.take(i as int)),
        decreases entries@.len() - i,
    {
        let ghost before = v@;
        let (id, name) = &entries[i];
        match id {
            Some(id) => {
                let n = match name {
                    Some(n) => n.clone(),
                    None => id.clone(),
                };
                v.push(HueLightInfo { id: id.clone(), name: n });
            },
            None => {},
        }
        proof {
            assert(entries@.take(i + 1).drop_last() =~= entries@.take(i as int));
            assert(light_views(v@) =~= lights_of(entries@.take(i + 1)));
        }
        i = i + 1;
    }
    assert(entries@.take(entries@.len() as int) =~= entries@);
    v
}

/// The lights a bridge offers, from its `light` listing, or why it could not be listed.
pub fn list_lights(fetched: Result<Vec<(Option<String>, Option<String>)>, String>) -> (r: Result<Vec<HueLightInfo>, String>)
    ensures
        match fetched {
            Ok(entries) => r is Ok && light_views(r->Ok_0@) == lights_of(entries@),
            Err(e) => r is Err && r->Err_0@ == e@,
        },
{
    match fetched {
        Ok(entries) => Ok(lights_from(entries)),
        Err(e) => Err(e),
    }
}

/// One offered light as the error messages list it.
pub open spec fn offered(l: (Seq<char>, Seq<char>)) -> Seq<char> {
    debug_quoted(l.1) + " ("@ + l.0 + ")"@
}

/// The first `n` offered lights, separated by commas.
pub open spec fn offered_list(lights: Seq<(Seq<char>, Seq<char>)>, n: nat) -> Seq<char>
    decreases n,
{
    if n == 0 {
        Seq::empty()
    } else if n == 1 {
        offered(lights[0])
    } else {
        offered_list(lights, (n - 1) as nat) + ", "@ + offered(lights[n - 1])
    }
}

/// The lights a bridge offers, for an error message.
pub open spec fn lights_description(lights: Seq<(Seq<char>, Seq<char>)>) -> Seq<char> {
    if lights.len() == 0 {
        "no lights at all"@
    } else {
        offered_list(lights, lights.len())
    }
}

/// Lists the lights a bridge offers, each as its quoted name and its id.
pub fn describe_lights(lights: &Vec<HueLightInfo>) -> (s: String)
    ensures
        s@ == lights_description(light_views(lights@)),
{
    if lights.len() == 0 {
        return String::from_str("no lights at all");
    }
    let mut s = String::new();
    let mut i: usize = 0;
    while i < lights.len()
        invariant
            1 <= lights@.len(),
            i <= lights@.len(),
            s@ == offered_list(light_views(lights@), i as nat),
        decreases lights@.len() - i,
    {
        if i > 0 {
            push_str(&mut s, ", ");
        }
        let q = debug_string(lights[i].name.as_str());
        push_str(&mut s, q.as_str());
        push_str(&mut s, " (");
        push_str(&mut s, lights[i].id.as_str());
        push_str(&mut s, ")");
        i = i + 1;
        assert(s@ =~= offered_list(light_views(lights@), i as nat));
    }
    s
}

/// The ids an entry asks for: each trimmed, the blank ones dropped.
pub open spec fn wanted_ids(requested: Seq<String>) -> Seq<Seq<char>>
    decreases requested.len(),
{
    if requested.len() == 0 {
        Seq::empty()
    } else {
        let rest = wanted_ids(requested.drop_last());
        let t = trimmed(requested.last()@);
        if t.len() > 0 {
            rest.push(t)
        } else {
            rest
        }
    }
}

/// The ids an entry asks for, trimmed, without blanks.
pub fn wanted_lights(requested: &Vec<String>) -> (v: Vec<String>)
    ensures
        v@.map_values(|s: String| s@) == wanted_ids(requested@),
{
    let mut v: Vec<String> = Vec::new();
    let mut i: usize = 0;
    while i < requested.len()
        invariant
            i <= requested@.len(),
            v@.map_values(|s: String| s@) == wanted_ids(requested@.take(i as int)),
        decreases requested@.len() - i,
    {
        let c = chars_of(requested[i].as_str());
        let t = trim_chars(&c);
        if t.len() > 0 {
            v.push(string_of(&t));
        }
        proof {
            assert(requested@.take(i + 1).drop_last() =~= requested@.take(i as int));
            assert(v@.map_values(|s: String| s@) =~= wanted_ids(requested@.take(i + 1)));
        }
        i = i + 1;
    }
    assert(requested@.take(requested@.len() as int) =~= requested@);
    v
}

/// The position of the first offered light with id `id`.
pub open spec fn light_position(lights: Seq<(Seq<char>, Seq<char>)>, id: Seq<char>, from: nat) -> Option<nat>
    decreases lights.len() - from,
{
    if from >= lights.len() {
        None
    } else if lights[from as int].0 == id {
        Some(from)
    } else {
        light_position(lights, id, from + 1)
    }
}

/// The first offered light with the given id.
fn find_light(lights: &Vec<HueLightInfo>, id: &String) -> (r: Option<usize>)
    ensures
        match r {
            Some(k) => light_position(light_views(lights@), id@, 0) == Some(k as nat),
            None => light_position(light_views(lights@), id@, 0) is None,
        },
{
    let want = chars_of(id.as_str());
    let mut i: usize = 0;
    while i < lights.len()
        invariant
            i <= lights@.len(),
            want@ == id@,
            light_position(light_views(lights@), id@, 0) == light_position(light_views(lights@), id@, i as nat),
        decreases lights@.len() - i,
    {
        let have = chars_of(lights[i].id.as_str());
        if chars_eq(&have, &want) {
            return Some(i);
        }
        i = i + 1;
    }
    None
}

/// Why an entry cannot drive its lights, or where among the offered lights each wanted one
/// stands: no application key, no light asked for, or a light the bridge does not offer (the
/// first such one).
pub open spec fn selection(bridge: Seq<char>, key: Seq<char>, wanted: Seq<Seq<char>>, offered: Seq<(Seq<char>, Seq<char>)>) -> Result<Seq<nat>, Seq<char>> {
    if trimmed(key).len() == 0 {
        Err("hue "@ + bridge
            + ": \"application_key\" is empty. Press the link button on the bridge and pair, that is what hands the key out."@)
    } else if wanted.len() == 0 {
        Err("hue "@ + bridge + ": no light selected in \"lights\". The bridge offers: "@ + lights_description(offered))
    } else if exists|i: int| 0 <= i < wanted.len() && #[trigger] light_position(offered, wanted[i], 0) is None {
        let i = choose|i: int|
            0 <= i < wanted.len() && #[trigger] light_position(offered, wanted[i], 0) is None && forall|j: int|
                0 <= j < i ==> #[trigger] light_position(offered, wanted[j], 0) is Some;
        Err("hue "@ + bridge + ": no light with the id "@ + debug_quoted(wanted[i]) + ". The bridge offers: "@
            + lights_description(offered))
    } else {
        Ok(Seq::new(wanted.len(), |i: int| light_position(offered, wanted[i], 0)->Some_0))
    }
}

/// Picks the lights an entry drives among those the bridge offers: the wanted ids, trimmed and
/// without blanks, and where each of them stands among the offered lights; or why that cannot be
/// done.
pub fn select_lights(bridge: &str, key: &str, requested: &Vec<String>, offered: &Vec<HueLightInfo>) -> (r: Result<(Vec<String>, Vec<usize>), String>)
    ensures
        match selection(bridge@, key@, wanted_ids(requested@), light_views(offered@)) {
            Ok(pos) => {
                &&& r is Ok
                &&& r->Ok_0.0@.map_values(|s: String| s@) == wanted_ids(requested@)
                &&& r->Ok_0.1@.len() == pos.len()
                &&& forall|i: int| 0 <= i < pos.len() ==> #[trigger] r->Ok_0.1@[i] as nat == pos[i]
            },
            Err(m) => r is Err && r->Err_0@ == m,
        },
{
    let kc = chars_of(key);
    let kt = trim_chars(&kc);
    assert(kt@ == trimmed(key@));
    if kt.len() == 0 {
        let mut m = String::from_str("hue ");
        push_str(&mut m, bridge);
        push_str(&mut m, ": \"application_key\" is empty. Press the link button on the bridge and pair, that is what hands the key out.");
        return Err(m);
    }
    let wanted = wanted_lights(requested);
    let ghost ws = wanted_ids(requested@);
    let ghost offv = light_views(offered@);
    assert(wanted@.len() == ws.len());
    if wanted.len() == 0 {
        let mut m = String::from_str("hue ");
        push_str(&mut m, bridge);
        push_str(&mut m, ": no light selected in \"lights\". The bridge offers: ");
        let d = describe_lights(offered);
        push_str(&mut m, d.as_str());
        return Err(m);
    }
    let mut positions: Vec<usize> = Vec::new();
    let mut i: usize = 0;
    while i < wanted.len()
        invariant
            wanted@.map_values(|s: String| s@) == ws,
            ws == wanted_ids(requested@),
            ws.len() > 0,
            trimmed(key@).len() > 0,
            offv == light_views(offered@),
            i <= wanted@.len(),
            positions@.len() == i,
            forall|j: int| 0 <= j < i ==> #[trigger] light_position(offv, ws[j], 0) == Some(positions@[j] as nat),
        decreases wanted@.len() - i,
    {
        assert(ws[i as int] == wanted@[i as int]@);
        match find_light(offered, &wanted[i]) {
            Some(k) => {
                positions.push(k);
                assert(light_position(offv, ws[i as int], 0) == Some(positions@[i as int] as nat));
            },
            None => {
                proof {
                    let c = choose|c: int|
                        0 <= c < ws.len() && #[trigger] light_position(offv, ws[c], 0) is None && forall|j: int|
                            0 <= j < c ==> #[trigger] light_position(offv, ws[j], 0) is Some;
                    assert(light_position(offv, ws[i as int], 0) is None);
                    if c < i {
                        assert(light_position(offv, ws[c], 0) is Some);
                    }
                    if i < c {
                        assert(light_position(offv, ws[i as int], 0) is Some);
                    }
                }
                let mut m = String::from_str("hue ");
                push_str(&mut m, bridge);
                push_str(&mut m, ": no light with the id ");
                let q = debug_string(wanted[i].as_str());
                push_str(&mut m, q.as_str());
                push_str(&mut m, ". The bridge offers: ");
                let d = describe_lights(offered);
                push_str(&mut m, d.as_str());
                return Err(m);
            },
        }
        i = i + 1;
    }
    proof {
        assert forall|k: int| 0 <= k < ws.len() implies #[trigger] light_position(offv, ws[k], 0) is Some by {
            assert(light_position(offv, ws[k], 0) == Some(positions@[k] as nat));
        }
    }
    Ok((wanted, positions))
}

/// The segment light `i` of `lights` shows among `segments`: the lights divided evenly over the
/// segments, in order.
pub open spec fn light_segment(i: nat, lights: nat, segments: nat) -> nat {
    let at: nat = i * segments / (if lights > 0 {
        lights
    } else {
        1
    });
    if at < segments - 1 {
        at
    } else {
        (segments - 1) as nat
    }
}

/// Law: the lights of an entry follow the gradient in order: the first light shows the first
/// segment, every light shows a segment there is, and a light further along never shows an
/// earlier segment.
pub proof fn lemma_light_segments_in_order(i: nat, j: nat, lights: nat, segments: nat)
    requires
        segments >= 1,
        i <= j < lights,
    ensures
        light_segment(0, lights, segments) == 0,
        light_segment(i, lights, segments) <= light_segment(j, lights, segments),
        light_segment(j, lights, segments) < segments,
{
    vstd::arithmetic::mul::lemma_mul_inequality(i as int, j as int, segments as int);
    vstd::arithmetic::div_mod::lemma_div_is_ordered((i * segments) as int, (j * segments) as int, lights as int);
    assert(0 * segments == 0) by (nonlinear_arith);
    assert((0 as nat) / lights == 0) by (nonlinear_arith)
        requires
            lights >= 1,
    ;
}

/// The segment a light shows.
pub fn segment_for_light(i: usize, lights: usize, segments: usize) -> (s: usize)
    requires
        segments >= 1,
        i * segments <= usize::MAX,
    ensures
        s == light_segment(i as nat, lights as nat, segments as nat),
        s < segments,
{
    let d: usize = if lights > 0 {
        lights
    } else {
        1
    };
    let at = i * segments / d;
    if at < segments - 1 {
        at
    } else {
        segments - 1
    }
}

/// The labels of the driven lights, separated by commas.
pub open spec fn labels_joined(labels: Seq<String>, n: nat) -> Seq<char>
    decreases n,
{
    if n == 0 {
        Seq::empty()
    } else if n == 1 {
        labels[0]@
    } else {
        labels_joined(labels, (n - 1) as nat) + ", "@ + labels[n - 1]@
    }
}

/// How an entry is named in the log: the bridge and the names of its lights.
pub fn device_name(bridge: &str, labels: &Vec<String>) -> (s: String)
    ensures
        s@ == "hue "@ + bridge@ + " ("@ + labels_joined(labels@, labels@.len()) + ")"@,
{
    let mut s = String::from_str("hue ");
    push_str(&mut s, bridge);
    push_str(&mut s, " (");
    let ghost head = s@;
    let mut i: usize = 0;
    while i < labels.len()
        invariant
            i <= labels@.len(),
            s@ == head + labels_joined(labels@, i as nat),
        decreases labels@.len() - i,
    {
        if i > 0 {
            push_str(&mut s, ", ");
        }
        push_str(&mut s, labels[i].as_str());
        i = i + 1;
        assert(s@ =~= head + labels_joined(labels@, i as nat));
    }
    push_str(&mut s, ")");
    s
}

/// What pairing with a bridge comes to, from the first entry of its answer: the application key
/// it handed out, or the refusal with the reason the bridge gave.
pub open spec fn pairing_result(username: Option<String>, reason: Option<String>) -> Result<Seq<char>, Seq<char>> {
    match username {
        Some(k) => Ok(k@),
        None => Err(
            "pairing was refused: "@ + match reason {
                Some(r) => r@,
                None => "the bridge gave no reason"@,
            },
        ),
    }
}

/// The outcome of pairing: the key in `success.username`, else a refusal naming
/// `error.description`.
pub fn pairing_outcome(username: Option<String>, reason: Option<String>) -> (r: Result<String, String>)
    ensures
        match pairing_result(username, reason) {
            Ok(k) => r is Ok && r->Ok_0@ == k,
            Err(m) => r is Err && r->Err_0@ == m,
        },
{
    match username {
        Some(k) => Ok(k),
        None => {
            let mut m = String::from_str("pairing was refused: ");
            match reason {
                Some(r) => push_str(&mut m, r.as_str()),
                None => push_str(&mut m, "the bridge gave no reason"),
            }
            Err(m)
        },
    }
}

} // verus!
