use pbuild::json::{graph_json, json_string, status_json, why_json};
use pbuild::strmap::StrMap;
use pbuild::types::{OutputMode, Rule, Target};

fn mk_rule(target: Target, deps: Vec<Target>) -> Rule {
    Rule {
        target,
        deps,
        inputs: vec![],
        output: String::new(),
        depfile: None,
        commands: vec![],
        shell: false,
        dir: None,
        subdir: None,
        makedir: None,
        description: None,
        group: None,
        env: StrMap::new(),
        tty: false,
        cache: true,
        for_each: None,
        progress: OutputMode::Display,
        downloads: vec![],
        max_time: None,
        retry: 0,
        on_failure: vec![],
    }
}

#[test]
fn strings_are_quoted_and_escaped() {
    assert_eq!(json_string("plain"), "\"plain\"");
    assert_eq!(json_string("a\"b\\c"), "\"a\\\"b\\\\c\"");
    assert_eq!(json_string("x\ny\tz\r"), "\"x\\ny\\tz\\r\"");
    assert_eq!(json_string("\u{1}\u{1f}"), "\"\\u0001\\u001f\"");
    assert_eq!(json_string("é —"), "\"é —\"");
}

#[test]
fn status_is_an_array_of_states() {
    let statuses = vec![("build".to_string(), true), ("test".to_string(), false)];
    assert_eq!(
        status_json(&statuses),
        "[{\"target\": \"build\", \"state\": \"dirty\"}, {\"target\": \"test\", \"state\": \"clean\"}]"
    );
    assert_eq!(status_json(&vec![]), "[]");
}

#[test]
fn graph_lists_each_rule_with_its_deps() {
    let a = Target::Task("a".into());
    let b = Target::Task("b".into());
    let plan = vec![mk_rule(a.clone(), vec![]), mk_rule(b, vec![a, Target::File("x\"y".into())])];
    assert_eq!(
        graph_json(&plan),
        "[{\"target\": \"a\", \"deps\": []}, {\"target\": \"b\", \"deps\": [\"a\", \"x\\\"y\"]}]"
    );
}

#[test]
fn why_gives_the_reason_or_up_to_date() {
    assert_eq!(
        why_json("build", &Some("no inputs — always runs".to_string())),
        "{\"target\": \"build\", \"dirty\": true, \"reason\": \"no inputs — always runs\"}"
    );
    assert_eq!(
        why_json("app", &None),
        "{\"target\": \"app\", \"dirty\": false, \"reason\": \"up to date\"}"
    );
}
