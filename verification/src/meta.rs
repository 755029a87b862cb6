//! The rules that `meta.json` of a spirit directory must keep, checked against
//! what the file system holds.
//!
//! `meta.json` is an object with the string members `name`, `version`,
//! `author` and `copyright`, and the object members `positions` and `actions`.
//! `actions` maps each action's name (one of which is `default`) to an object
//! whose members are among `frames`, `play`, `loop` and `interval`; `frames`
//! is an array of frame ranges and must be there, `play` names an audio file
//! `audio/<play>.mp3`. An action's name is the path of its directory below
//! `actions/`, and `<play>.mp3` is a path below `audio/`: neither may start
//! with `/` or hold a `..` component, so nothing is looked up outside the
//! spirit directory.
//!
//! The file system is asked through a probe plan: for each action, in order,
//! whether `actions/<name>` is a directory and how many frames it holds, and
//! for each `play` member whether `audio/<play>.mp3` is a file.

use vstd::prelude::*;
use crate::frames::{check_frame_range, range_ok};
use crate::json_model::{first_index, keys_distinct, lemma_first_index_in_range, Json, JsonMember, parsed_json};
use crate::text::{concat_text, keeps_inside, stays_inside, text_eq};

verus! {

/// What to look up on the file system for one action of `meta.json`.
pub struct ActionPlan {
    /// The directory under `actions/` that holds the action's frames: the
    /// action's name, where it stays inside `actions/` (`None` where it does
    /// not, and the action is refused without looking).
    pub dir: Option<String>,
    /// One entry per member of the action object, in order: the file under
    /// `audio/` to look for, `<play>.mp3`, where the member is a `play` string
    /// and that path stays inside `audio/`.
    pub audio: Vec<Option<String>>,
}

/// What the file system answered for one action of the plan.
pub struct ActionProbe {
    /// Whether `actions/<name>` is a directory.
    pub is_dir: bool,
    /// The number of frames in `actions/<name>`, or `None` where it cannot
    /// be listed or holds something that is not a file.
    pub frame_count: Option<i32>,
    /// One entry per member of the action object: whether the audio file of
    /// that member is a file (any value where the member names none).
    pub audio_found: Vec<bool>,
}

/// Whether `meta` has a member `key` that is a string.
pub open spec fn has_str(meta: Json, key: Seq<char>) -> bool {
    meta.has_key(key) && meta.get(key) is Str
}

/// Whether `meta` has a member `key` that is an object.
pub open spec fn has_object(meta: Json, key: Seq<char>) -> bool {
    meta.has_key(key) && meta.get(key) is Object
}

/// The members of `meta` that `meta.json` must have, with their kinds, and
/// the `default` action.
pub open spec fn header_ok(meta: Json) -> bool {
    &&& has_str(meta, "name"@)
    &&& has_str(meta, "version"@)
    &&& has_str(meta, "author"@)
    &&& has_str(meta, "copyright"@)
    &&& has_object(meta, "positions"@)
    &&& has_object(meta, "actions"@)
    &&& meta.get("actions"@).has_key("default"@)
}

/// The actions of `meta`, in document order.
pub open spec fn actions_of(meta: Json) -> Seq<JsonMember> {
    meta.get("actions"@).members()
}

/// Whether every item of a `frames` array is a frame range that fits an
/// action of `frame_count` frames.
pub open spec fn frames_ok(items: Seq<Json>, frame_count: int) -> bool {
    forall|i: int|
        0 <= i < items.len() ==> (#[trigger] items[i] is Str && range_ok(
            items[i]->Str_0@,
            frame_count,
        ))
}

/// Whether one member of an action object is accepted, for an action of
/// `frame_count` frames, where `audio_found` tells whether its audio file is there.
pub open spec fn member_ok(m: JsonMember, frame_count: int, audio_found: bool) -> bool {
    let k = m.key@;
    &&& (k == "frames"@ || k == "play"@ || k == "loop"@ || k == "interval"@)
    &&& (k == "frames"@ && m.value is Array ==> frames_ok(m.value->Array_0@, frame_count))
    &&& (k == "play"@ && m.value is Str ==> stays_inside(m.value->Str_0@ + ".mp3"@) && audio_found)
}

/// Whether an action object declares its frames.
pub open spec fn declares_frames(ms: Seq<JsonMember>) -> bool {
    exists|j: int| 0 <= j < ms.len() && (#[trigger] ms[j]).key@ == "frames"@ && ms[j].value is Array
}

/// Whether the action `a` is accepted, given what the file system answered for it.
pub open spec fn action_ok(a: JsonMember, p: ActionProbe) -> bool {
    let ms = a.value.members();
    &&& stays_inside(a.key@)
    &&& p.is_dir
    &&& a.value is Object
    &&& p.frame_count is Some
    &&& p.audio_found@.len() == ms.len()
    &&& forall|j: int|
        0 <= j < ms.len() ==> member_ok(#[trigger] ms[j], p.frame_count->0 as int, p.audio_found@[j])
    &&& declares_frames(ms)
}

/// Whether `meta` describes a valid spirit, given the answers `probes` to its
/// probe plan and the number of entries in `actions/` (`None` where it cannot
/// be listed).
pub open spec fn spirit_valid(meta: Json, probes: Seq<ActionProbe>, actions_entries: Option<usize>) -> bool {
    let acts = actions_of(meta);
    &&& header_ok(meta)
    &&& probes.len() == acts.len()
    &&& forall|i: int| 0 <= i < acts.len() ==> action_ok(#[trigger] acts[i], probes[i])
    &&& actions_entries == Some(acts.len() as usize)
}

/// The audio file that member `m` of an action names, if it is a `play` string.
pub open spec fn audio_file_of(m: JsonMember) -> Option<Seq<char>> {
    if m.key@ == "play"@ && m.value is Str && stays_inside(m.value->Str_0@ + ".mp3"@) {
        Some(m.value->Str_0@ + ".mp3"@)
    } else {
        None
    }
}

/// The view of an optional string.
pub open spec fn opt_view(o: Option<String>) -> Option<Seq<char>> {
    match o {
        Some(s) => Some(s@),
        None => None,
    }
}

/// Whether `plan` is the probe plan of `meta`: one entry per action, in order.
pub open spec fn is_probe_plan(meta: Json, plan: Seq<ActionPlan>) -> bool {
    let acts = actions_of(meta);
    &&& plan.len() == acts.len()
    &&& forall|i: int|
        #![trigger plan[i]]
        0 <= i < acts.len() ==> {
            let ms = acts[i].value.members();
            &&& opt_view(plan[i].dir) == (if stays_inside(acts[i].key@) {
                Some(acts[i].key@)
            } else {
                None
            })
            &&& plan[i].audio@.len() == ms.len()
            &&& forall|j: int|
                0 <= j < ms.len() ==> opt_view(#[trigger] plan[i].audio@[j]) == audio_file_of(ms[j])
        }
}

/// The value of member `key` of `meta`, where `meta` has one that is a string.
fn str_member<'a>(meta: &'a Json, key: &str) -> (res: Option<&'a String>)
    ensures
        res is Some <==> has_str(*meta, key@),
        res matches Some(s) ==> meta.get(key@) == Json::Str(*s),
{
    match meta.lookup(key) {
        Some(Json::Str(s)) => Some(s),
        _ => None,
    }
}

/// The members of member `key` of `meta`, where `meta` has one that is an object.
fn object_member<'a>(meta: &'a Json, key: &str) -> (res: Option<&'a Vec<JsonMember>>)
    ensures
        res is Some <==> has_object(*meta, key@),
        res matches Some(ms) ==> meta.get(key@) == Json::Object(*ms),
{
    match meta.lookup(key) {
        Some(Json::Object(ms)) => Some(ms),
        _ => None,
    }
}

/// Whether `meta` has all of its required members.
pub fn check_header(meta: &Json) -> (res: bool)
    ensures
        res == header_ok(*meta),
{
    if str_member(meta, "name").is_none() || str_member(meta, "version").is_none()
        || str_member(meta, "author").is_none() || str_member(meta, "copyright").is_none()
        || object_member(meta, "positions").is_none()
    {
        return false;
    }
    match meta.lookup("actions") {
        Some(actions) => match actions {
            Json::Object(_) => actions.lookup("default").is_some(),
            _ => false,
        },
        None => false,
    }
}

/// The probe plan of `meta`: the actions to look up on the file system.
pub fn probe_plan(meta: &Json) -> (res: Vec<ActionPlan>)
    ensures
        is_probe_plan(*meta, res@),
{
    let mut plan: Vec<ActionPlan> = Vec::new();
    let acts = match object_member(meta, "actions") {
        Some(ms) => ms,
        None => {
            return plan;
        },
    };
    let n = acts.len();
    let mut i: usize = 0;
    while i < n
        invariant
            n == acts@.len(),
            acts@ == actions_of(*meta),
            i <= n,
            plan@.len() == i,
            forall|k: int|
                #![trigger plan@[k]]
                0 <= k < i ==> {
                    let ms = acts@[k].value.members();
                    &&& opt_view(plan@[k].dir) == (if stays_inside(acts@[k].key@) {
                        Some(acts@[k].key@)
                    } else {
                        None
                    })
                    &&& plan@[k].audio@.len() == ms.len()
                    &&& forall|j: int|
                        0 <= j < ms.len() ==> opt_view(#[trigger] plan@[k].audio@[j])
                            == audio_file_of(ms[j])
                },
        decreases n - i,
    {
        let act = &acts[i];
        let mut audio: Vec<Option<String>> = Vec::new();
        match &act.value {
            Json::Object(ms) => {
                let m = ms.len();
                let mut j: usize = 0;
                while j < m
                    invariant
                        m == ms@.len(),
                        j <= m,
                        audio@.len() == j,
                        forall|q: int|
                            0 <= q < j ==> opt_view(#[trigger] audio@[q]) == audio_file_of(ms@[q]),
                    decreases m - j,
                {
                    let entry = if text_eq(ms[j].key.as_str(), "play") {
                        match &ms[j].value {
                            Json::Str(p) => {
                                let file = concat_text(p.as_str(), ".mp3");
                                if keeps_inside(file.as_str()) {
                                    Some(file)
                                } else {
                                    None
                                }
                            },
                            _ => None,
                        }
                    } else {
                        None
                    };
                    audio.push(entry);
                    j += 1;
                }
            },
            _ => {},
        }
        let dir = if keeps_inside(act.key.as_str()) {
            Some(act.key.clone())
        } else {
            None
        };
        plan.push(ActionPlan { dir, audio });
        i += 1;
    }
    plan
}

/// Whether the items of a `frames` array all fit an action of `frame_count` frames.
fn check_frames(items: &Vec<Json>, frame_count: i32) -> (res: bool)
    ensures
        res == frames_ok(items@, frame_count as int),
{
    let n = items.len();
    let mut i: usize = 0;
    while i < n
        invariant
            n == items@.len(),
            i <= n,
            forall|k: int|
                0 <= k < i ==> (#[trigger] items@[k] is Str && range_ok(
                    items@[k]->Str_0@,
                    frame_count as int,
                )),
        decreases n - i,
    {
        match &items[i] {
            Json::Str(s) => {
                if !check_frame_range(s.as_str(), frame_count) {
                    return false;
                }
            },
            _ => {
                return false;
            },
        }
        i += 1;
    }
    true
}

/// Checks one action of `meta.json` against what the file system answered for it.
pub fn check_action(action: &JsonMember, probe: &ActionProbe) -> (res: bool)
    ensures
        res == action_ok(*action, *probe),
{
    if !keeps_inside(action.key.as_str()) || !probe.is_dir {
        return false;
    }
    let ms = match &action.value {
        Json::Object(ms) => ms,
        _ => {
            return false;
        },
    };
    let frame_count = match probe.frame_count {
        Some(c) => c,
        None => {
            return false;
        },
    };
    let n = ms.len();
    if probe.audio_found.len() != n {
        return false;
    }
    let mut got_frames = false;
    let ghost mut frames_at: int = 0;
    let mut j: usize = 0;
    while j < n
        invariant
            n == ms@.len(),
            action.value == Json::Object(*ms),
            probe.audio_found@.len() == n,
            probe.frame_count == Some(frame_count),
            j <= n,
            forall|q: int|
                0 <= q < j ==> member_ok(#[trigger] ms@[q], frame_count as int, probe.audio_found@[q]),
            got_frames ==> 0 <= frames_at < j && ms@[frames_at].key@ == "frames"@
                && ms@[frames_at].value is Array,
            !got_frames ==> forall|q: int|
                0 <= q < j ==> !((#[trigger] ms@[q]).key@ == "frames"@ && ms@[q].value is Array),
        decreases n - j,
    {
        let m = &ms[j];
        let k = m.key.as_str();
        let is_frames = text_eq(k, "frames");
        let is_play = text_eq(k, "play");
        if !is_frames && !is_play && !text_eq(k, "loop") && !text_eq(k, "interval") {
            return false;
        }
        if is_frames {
            match &m.value {
                Json::Array(items) => {
                    if !check_frames(items, frame_count) {
                        return false;
                    }
                    got_frames = true;
                    proof {
                        frames_at = j as int;
                    }
                },
                _ => {},
            }
        }
        if is_play {
            match &m.value {
                Json::Str(p) => {
                    let file = concat_text(p.as_str(), ".mp3");
                    if !keeps_inside(file.as_str()) || !probe.audio_found[j] {
                        return false;
                    }
                },
                _ => {},
            }
        }
        j += 1;
    }
    got_frames
}

/// Checks `meta` against what the file system answered: `probes` answers the
/// probe plan of `meta`, action by action, and `actions_entries` is the number
/// of entries in `actions/`, or `None` where it cannot be listed.
pub fn check_meta(meta: &Json, probes: &Vec<ActionProbe>, actions_entries: Option<usize>) -> (res: bool)
    ensures
        res == spirit_valid(*meta, probes@, actions_entries),
{
    if !check_header(meta) {
        return false;
    }
    let acts = match object_member(meta, "actions") {
        Some(ms) => ms,
        None => {
            return false;
        },
    };
    let n = acts.len();
    if probes.len() != n {
        return false;
    }
    let mut i: usize = 0;
    while i < n
        invariant
            n == acts@.len(),
            acts@ == actions_of(*meta),
            probes@.len() == n,
            i <= n,
            forall|k: int| 0 <= k < i ==> action_ok(#[trigger] acts@[k], probes@[k]),
        decreases n - i,
    {
        if !check_action(&acts[i], &probes[i]) {
            return false;
        }
        i += 1;
    }
    match actions_entries {
        Some(c) => c == n,
        None => false,
    }
}

/// Whether the actions of `meta` fill `actions/`: their names are distinct
/// paths that stay inside it, each is a directory there, and `actions/` holds
/// as many entries as there are actions (so, where each name is a single
/// component, it holds exactly those directories).
pub open spec fn actions_fill_directory(meta: Json, probes: Seq<ActionProbe>, actions_entries: Option<usize>) -> bool {
    let acts = actions_of(meta);
    &&& keys_distinct(acts)
    &&& probes.len() == acts.len()
    &&& forall|i: int| 0 <= i < acts.len() ==> stays_inside((#[trigger] acts[i]).key@) && probes[i].is_dir
    &&& actions_entries == Some(acts.len() as usize)
}

/// Parses `meta.json` and checks it against what the file system answered
/// (see `check_meta`). Gives back the document where the spirit is valid;
/// then its actions fill `actions/`.
pub fn parse_directory(meta_text: &str, probes: &Vec<ActionProbe>, actions_entries: Option<usize>) -> (res: Option<Json>)
    ensures
        res == (match parsed_json(meta_text@) {
            Some(v) => if spirit_valid(v, probes@, actions_entries) {
                Some(v)
            } else {
                None
            },
            None => None,
        }),
        res matches Some(v) ==> actions_fill_directory(v, probes@, actions_entries),
{
    match crate::json_model::parse_meta(meta_text) {
        Some(v) => if check_meta(&v, probes, actions_entries) {
            proof {
                let ms = v.members();
                lemma_first_index_in_range(ms, "actions"@);
                let k = first_index(ms, "actions"@);
                assert(keys_distinct(ms[k].value.members()));
            }
            Some(v)
        } else {
            None
        },
        None => None,
    }
}

/// Whether two answers to the probe plan `plan` agree on every question the
/// plan asks: the directory and frame count of each action, and each audio
/// file it names.
pub open spec fn agree_on_plan(plan: Seq<ActionPlan>, p1: Seq<ActionProbe>, p2: Seq<ActionProbe>) -> bool {
    &&& p1.len() == plan.len()
    &&& p2.len() == plan.len()
    &&& forall|i: int|
        #![trigger p1[i], p2[i]]
        0 <= i < plan.len() ==> {
            &&& p1[i].is_dir == p2[i].is_dir
            &&& p1[i].frame_count == p2[i].frame_count
            &&& p1[i].audio_found@.len() == p2[i].audio_found@.len()
            &&& forall|j: int|
                0 <= j < plan[i].audio@.len() && #[trigger] plan[i].audio@[j] is Some
                    ==> p1[i].audio_found@[j] == p2[i].audio_found@[j]
        }
}

/// The verdict on a spirit depends on the file system only through the
/// questions of its probe plan: two sets of answers that agree on them get
/// the same verdict.
pub proof fn law_verdict_rests_on_the_plan(
    meta: Json,
    plan: Seq<ActionPlan>,
    p1: Seq<ActionProbe>,
    p2: Seq<ActionProbe>,
    actions_entries: Option<usize>,
)
    requires
        is_probe_plan(meta, plan),
        agree_on_plan(plan, p1, p2),
    ensures
        spirit_valid(meta, p1, actions_entries) == spirit_valid(meta, p2, actions_entries),
{
    let acts = actions_of(meta);
    assert forall|i: int| 0 <= i < acts.len() implies action_ok(#[trigger] acts[i], p1[i]) == action_ok(acts[i], p2[i]) by {
        let ms = acts[i].value.members();
        let a = p1[i];
        let b = p2[i];
        assert(plan[i].audio@.len() == ms.len());
        if a.frame_count is Some && a.audio_found@.len() == ms.len() {
            assert forall|j: int| 0 <= j < ms.len() implies member_ok(#[trigger] ms[j], a.frame_count->0 as int, a.audio_found@[j])
                == member_ok(ms[j], b.frame_count->0 as int, b.audio_found@[j]) by {
                if ms[j].key@ == "play"@ && ms[j].value is Str && stays_inside(ms[j].value->Str_0@ + ".mp3"@) {
                    assert(opt_view(plan[i].audio@[j]) == audio_file_of(ms[j]));
                    assert(plan[i].audio@[j] is Some);
                }
            }
        }
    }
}

/// A header is accepted only with its required members: `name`, `version`,
/// `author` and `copyright` are strings, `positions` and `actions` are
/// objects, and `actions` has a `default` action.
pub proof fn law_accepted_header_has_its_members(meta: Json)
    requires
        header_ok(meta),
    ensures
        meta.has_key("name"@) && meta.get("name"@) is Str,
        meta.has_key("version"@) && meta.get("version"@) is Str,
        meta.has_key("author"@) && meta.get("author"@) is Str,
        meta.has_key("copyright"@) && meta.get("copyright"@) is Str,
        meta.has_key("positions"@) && meta.get("positions"@) is Object,
        meta.has_key("actions"@) && meta.get("actions"@) is Object,
        meta.get("actions"@).has_key("default"@),
{
}

/// An accepted action keeps every rule: its name stays inside `actions/`,
/// its directory is there with a frame count, it is an object whose members
/// are all among `frames`, `play`, `loop` and `interval`, it has a `frames`
/// array, every item of every `frames` array is a range that fits the frame
/// count, and every `play` string names a file inside `audio/` that is there.
pub proof fn law_accepted_action_keeps_every_rule(a: JsonMember, p: ActionProbe)
    requires
        action_ok(a, p),
    ensures
        stays_inside(a.key@),
        p.is_dir,
        a.value is Object,
        p.frame_count is Some,
        p.audio_found@.len() == a.value.members().len(),
        exists|j: int|
            0 <= j < a.value.members().len() && (#[trigger] a.value.members()[j]).key@ == "frames"@
                && a.value.members()[j].value is Array,
        forall|j: int|
            0 <= j < a.value.members().len() ==> {
                let k = (#[trigger] a.value.members()[j]).key@;
                k == "frames"@ || k == "play"@ || k == "loop"@ || k == "interval"@
            },
        forall|j: int, k: int|
            0 <= j < a.value.members().len() && (#[trigger] a.value.members()[j]).key@ == "frames"@
                && a.value.members()[j].value is Array && 0 <= k
                < a.value.members()[j].value->Array_0@.len() ==> {
                let item = #[trigger] a.value.members()[j].value->Array_0@[k];
                item is Str && range_ok(item->Str_0@, p.frame_count->0 as int)
            },
        forall|j: int|
            0 <= j < a.value.members().len() && (#[trigger] a.value.members()[j]).key@ == "play"@
                && a.value.members()[j].value is Str ==> stays_inside(
                a.value.members()[j].value->Str_0@ + ".mp3"@,
            ) && p.audio_found@[j],
{
    let ms = a.value.members();
    assert forall|j: int, k: int|
        0 <= j < ms.len() && (#[trigger] ms[j]).key@ == "frames"@ && ms[j].value is Array && 0 <= k
            < ms[j].value->Array_0@.len() implies {
        let item = #[trigger] ms[j].value->Array_0@[k];
        item is Str && range_ok(item->Str_0@, p.frame_count->0 as int)
    } by {
        assert(member_ok(ms[j], p.frame_count->0 as int, p.audio_found@[j]));
    }
}

/// An accepted spirit keeps every rule: its header has its members, every
/// action keeps the rules of `law_accepted_action_keeps_every_rule` with
/// the answer given for it, and `actions/` holds as many entries as there
/// are actions.
pub proof fn law_accepted_spirit_keeps_every_rule(
    meta: Json,
    probes: Seq<ActionProbe>,
    actions_entries: Option<usize>,
    i: int,
)
    requires
        spirit_valid(meta, probes, actions_entries),
    ensures
        meta.has_key("name"@) && meta.get("name"@) is Str,
        meta.has_key("version"@) && meta.get("version"@) is Str,
        meta.has_key("author"@) && meta.get("author"@) is Str,
        meta.has_key("copyright"@) && meta.get("copyright"@) is Str,
        meta.has_key("positions"@) && meta.get("positions"@) is Object,
        meta.has_key("actions"@) && meta.get("actions"@) is Object,
        meta.get("actions"@).has_key("default"@),
        probes.len() == meta.get("actions"@).members().len(),
        actions_entries == Some(meta.get("actions"@).members().len() as usize),
        0 <= i < meta.get("actions"@).members().len() ==> action_ok(
            meta.get("actions"@).members()[i],
            probes[i],
        ),
{
    law_accepted_header_has_its_members(meta);
}

/// The `name` of a parsed `meta.json`, or the empty string where it has none.
pub fn meta_name(meta: &Json) -> (res: String)
    ensures
        has_str(*meta, "name"@) ==> Json::Str(res) == meta.get("name"@),
        !has_str(*meta, "name"@) ==> res@.len() == 0,
{
    match str_member(meta, "name") {
        Some(s) => s.clone(),
        None => String::new(),
    }
}

} // verus!
