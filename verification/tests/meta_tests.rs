use ritual::json_model::{parse_meta, Json};
use ritual::meta::{
    check_action, check_header, check_meta, meta_name, parse_directory, probe_plan, ActionProbe,
};

const INORI: &str = r#"{
    "name": "Inori",
    "version": "v0.1.0",
    "author": "Author of this Spirit Directory",
    "copyright": "Copyright of all the Artwork",
    "positions": { "yoff-px": 0 },
    "actions": {
        "default": { "frames": ["0-*"], "loop": false, "play": "hero" },
        "happy": { "frames": ["0-3", "2-*"], "interval": 100 }
    }
}"#;

fn probe(is_dir: bool, frames: Option<i32>, audio: Vec<bool>) -> ActionProbe {
    ActionProbe { is_dir, frame_count: frames, audio_found: audio }
}

fn good_probes() -> Vec<ActionProbe> {
    vec![
        probe(true, Some(12), vec![false, false, true]),
        probe(true, Some(4), vec![false, false]),
    ]
}

fn with_actions(actions: &str) -> String {
    format!(
        r#"{{"name": "n", "version": "v", "author": "a", "copyright": "c", "positions": {{}}, "actions": {}}}"#,
        actions
    )
}

#[test]
fn meta_json_is_parsed_into_a_document() {
    let doc = parse_meta(INORI).expect("valid JSON");
    match &doc {
        Json::Object(members) => {
            let keys: Vec<&str> = members.iter().map(|m| m.key.as_str()).collect();
            assert_eq!(keys, vec!["name", "version", "author", "copyright", "positions", "actions"]);
            assert!(matches!(&members[0].value, Json::Str(s) if s == "Inori"));
        }
        _ => panic!("not an object"),
    }
}

#[test]
fn json_scalars_are_kept() {
    let doc = parse_meta(r#"[null, true, -12.5, "x"]"#).expect("valid JSON");
    match doc {
        Json::Array(items) => {
            assert!(matches!(items[0], Json::Null));
            assert!(matches!(items[1], Json::Bool(true)));
            assert!(matches!(
                &items[2],
                Json::Number(n) if !n.positive && n.mantissa == 125 && n.exponent == -1
            ));
            assert!(matches!(&items[3], Json::Str(s) if s == "x"));
        }
        _ => panic!("not an array"),
    }
}

#[test]
fn broken_json_is_refused() {
    assert!(parse_meta("{\"name\": ").is_none());
    assert!(parse_meta("").is_none());
    assert!(parse_meta("{name: 1}").is_none());
}

#[test]
fn duplicate_keys_keep_the_last_value() {
    let doc = parse_meta(r#"{"a": 1, "b": 2, "a": "x"}"#).expect("valid JSON");
    match doc {
        Json::Object(members) => {
            assert_eq!(members.len(), 2);
            assert_eq!(members[0].key, "a");
            assert!(matches!(&members[0].value, Json::Str(s) if s == "x"));
        }
        _ => panic!("not an object"),
    }
}

#[test]
fn readme_spirit_is_valid() {
    let doc = parse_meta(INORI).unwrap();
    assert!(check_header(&doc));
    assert!(check_meta(&doc, &good_probes(), Some(2)));
    let value = parse_directory(INORI, &good_probes(), Some(2)).expect("valid spirit");
    assert_eq!(meta_name(&value), "Inori");
}

#[test]
fn probe_plan_lists_actions_and_audio() {
    let doc = parse_meta(INORI).unwrap();
    let plan = probe_plan(&doc);
    assert_eq!(plan.len(), 2);
    assert_eq!(plan[0].dir, Some("default".to_string()));
    assert_eq!(plan[0].audio, vec![None, None, Some("hero.mp3".to_string())]);
    assert_eq!(plan[1].dir, Some("happy".to_string()));
    assert_eq!(plan[1].audio, vec![None, None]);
}

#[test]
fn probe_plan_of_a_document_without_actions_is_empty() {
    let doc = parse_meta(r#"{"name": "x"}"#).unwrap();
    assert!(probe_plan(&doc).is_empty());
}

#[test]
fn required_members_must_be_there_with_their_kinds() {
    for key in ["name", "version", "author", "copyright"] {
        let missing = INORI.replacen(&format!("\"{}\"", key), "\"other\"", 1);
        assert!(!check_header(&parse_meta(&missing).unwrap()), "{}", key);
        assert!(parse_directory(&missing, &good_probes(), Some(2)).is_none(), "{}", key);
    }
    let number_name = INORI.replacen("\"Inori\"", "7", 1);
    assert!(!check_header(&parse_meta(&number_name).unwrap()));
    let array_positions = INORI.replacen("{ \"yoff-px\": 0 }", "[]", 1);
    assert!(!check_header(&parse_meta(&array_positions).unwrap()));
    let no_actions = with_actions("[]");
    assert!(!check_header(&parse_meta(&no_actions).unwrap()));
    assert!(!check_header(&parse_meta("[]").unwrap()));
}

#[test]
fn default_action_is_required() {
    let text = with_actions(r#"{"happy": {"frames": ["0-*"]}}"#);
    let doc = parse_meta(&text).unwrap();
    assert!(!check_header(&doc));
    assert!(!check_meta(&doc, &vec![probe(true, Some(1), vec![false])], Some(1)));
}

#[test]
fn actions_need_their_directory_and_frames() {
    let doc = parse_meta(INORI).unwrap();
    let mut probes = good_probes();
    probes[1].is_dir = false;
    assert!(!check_meta(&doc, &probes, Some(2)));
    let mut probes = good_probes();
    probes[1].frame_count = None;
    assert!(!check_meta(&doc, &probes, Some(2)));
    let mut probes = good_probes();
    probes[1].frame_count = Some(2);
    assert!(!check_meta(&doc, &probes, Some(2)));
}

#[test]
fn audio_named_by_play_must_exist() {
    let doc = parse_meta(INORI).unwrap();
    let mut probes = good_probes();
    probes[0].audio_found[2] = false;
    assert!(!check_meta(&doc, &probes, Some(2)));
}

#[test]
fn every_action_directory_must_be_declared() {
    let doc = parse_meta(INORI).unwrap();
    assert!(!check_meta(&doc, &good_probes(), Some(3)));
    assert!(!check_meta(&doc, &good_probes(), None));
}

#[test]
fn probes_must_answer_the_plan() {
    let doc = parse_meta(INORI).unwrap();
    let mut probes = good_probes();
    probes.pop();
    assert!(!check_meta(&doc, &probes, Some(2)));
}

#[test]
fn action_members_are_checked() {
    let text = with_actions(r#"{"default": {"frames": ["0-*"], "speed": 2}}"#);
    let doc = parse_meta(&text).unwrap();
    assert!(!check_meta(&doc, &vec![probe(true, Some(1), vec![false, false])], Some(1)));

    let text = with_actions(r#"{"default": {"loop": true}}"#);
    let doc = parse_meta(&text).unwrap();
    assert!(!check_meta(&doc, &vec![probe(true, Some(1), vec![false])], Some(1)));

    let text = with_actions(r#"{"default": {"frames": "0-*"}}"#);
    let doc = parse_meta(&text).unwrap();
    assert!(!check_meta(&doc, &vec![probe(true, Some(1), vec![false])], Some(1)));

    let text = with_actions(r#"{"default": {"frames": ["0-*", 3]}}"#);
    let doc = parse_meta(&text).unwrap();
    assert!(!check_meta(&doc, &vec![probe(true, Some(1), vec![false])], Some(1)));

    let text = with_actions(r#"{"default": 5}"#);
    let doc = parse_meta(&text).unwrap();
    assert!(!check_meta(&doc, &vec![probe(true, Some(1), vec![])], Some(1)));
}

#[test]
fn play_that_is_not_a_string_is_passed_over() {
    let text = with_actions(r#"{"default": {"frames": ["0-*"], "play": 3}}"#);
    let doc = parse_meta(&text).unwrap();
    assert_eq!(probe_plan(&doc)[0].audio, vec![None, None]);
    assert!(check_meta(&doc, &vec![probe(true, Some(1), vec![false, false])], Some(1)));
}

#[test]
fn single_action_is_checked_on_its_own() {
    let text = with_actions(r#"{"default": {"frames": ["1-2"]}}"#);
    let doc = parse_meta(&text).unwrap();
    match &doc {
        Json::Object(members) => match &members[5].value {
            Json::Object(actions) => {
                assert!(check_action(&actions[0], &probe(true, Some(3), vec![false])));
                assert!(!check_action(&actions[0], &probe(true, Some(2), vec![false])));
                assert!(!check_action(&actions[0], &probe(true, Some(3), vec![])));
            }
            _ => panic!("actions is not an object"),
        },
        _ => panic!("not an object"),
    }
}

#[test]
fn meta_name_falls_back_to_empty() {
    assert_eq!(meta_name(&parse_meta(r#"{"name": 1}"#).unwrap()), "");
    assert_eq!(meta_name(&parse_meta(r#"{"name": "Inori"}"#).unwrap()), "Inori");
}

#[test]
fn answers_the_plan_does_not_ask_for_do_not_matter() {
    let doc = parse_meta(INORI).unwrap();
    let mut probes = good_probes();
    probes[0].audio_found[0] = true;
    probes[0].audio_found[1] = true;
    probes[1].audio_found[1] = true;
    assert_eq!(
        check_meta(&doc, &probes, Some(2)),
        check_meta(&doc, &good_probes(), Some(2))
    );
    assert!(check_meta(&doc, &probes, Some(2)));
}

#[test]
fn start_index_must_name_a_frame() {
    let text = with_actions(r#"{"default": {"frames": ["2-*"]}}"#);
    assert!(parse_directory(&text, &vec![probe(true, Some(2), vec![false])], Some(1)).is_none());
    assert!(parse_directory(&text, &vec![probe(true, Some(3), vec![false])], Some(1)).is_some());
}

#[test]
fn audio_must_stay_inside_the_audio_directory() {
    for play in ["/tmp/x", "../x", "a/../../x", "../.."] {
        let text = with_actions(&format!(r#"{{"default": {{"frames": ["0-*"], "play": "{}"}}}}"#, play));
        let doc = parse_meta(&text).unwrap();
        assert_eq!(probe_plan(&doc)[0].audio, vec![None, None], "{}", play);
        assert!(!check_meta(&doc, &vec![probe(true, Some(1), vec![false, true])], Some(1)), "{}", play);
    }
    for (play, file) in [("sub/hero", "sub/hero.mp3"), ("..", "...mp3"), ("sub/..", "sub/...mp3"), ("a\\\\b", "a\\b.mp3")] {
        let text = with_actions(&format!(r#"{{"default": {{"frames": ["0-*"], "play": "{}"}}}}"#, play));
        let doc = parse_meta(&text).unwrap();
        assert_eq!(probe_plan(&doc)[0].audio, vec![None, Some(file.to_string())], "{}", play);
        assert!(check_meta(&doc, &vec![probe(true, Some(1), vec![false, true])], Some(1)), "{}", play);
    }
}

#[test]
fn action_names_must_stay_inside_the_actions_directory() {
    for name in ["..", "a/../..", "/abs", "../x"] {
        let text = with_actions(&format!(
            r#"{{"default": {{"frames": ["0-*"]}}, "{}": {{"frames": ["0-*"]}}}}"#,
            name
        ));
        let doc = parse_meta(&text).unwrap();
        let plan = probe_plan(&doc);
        assert_eq!(plan[1].dir, None, "{:?}", name);
        let probes = vec![probe(true, Some(1), vec![false]), probe(true, Some(1), vec![false])];
        assert!(!check_meta(&doc, &probes, Some(2)), "{:?}", name);
    }
    for name in ["happy/", "a/b", ".", "", "..x"] {
        let text = with_actions(&format!(
            r#"{{"default": {{"frames": ["0-*"]}}, "{}": {{"frames": ["0-*"]}}}}"#,
            name
        ));
        let doc = parse_meta(&text).unwrap();
        let plan = probe_plan(&doc);
        assert_eq!(plan[1].dir, Some(name.to_string()), "{:?}", name);
        let probes = vec![probe(true, Some(1), vec![false]), probe(true, Some(1), vec![false])];
        assert!(check_meta(&doc, &probes, Some(2)), "{:?}", name);
    }
}
