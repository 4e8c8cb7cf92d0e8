use aos_realm::instructions::{instructions_path, instructions_paths, AgentsInjector};
use aos_realm::json::Json;

#[test]
fn agents_file_comes_first() {
    let (agents, astrid) = instructions_paths(None);
    assert_eq!(agents, "cwd://.astrid/AGENTS.md");
    assert_eq!(astrid, "cwd://.astrid/ASTRID.md");
    assert_eq!(
        instructions_path(Some("cfg"), true, true),
        Some("cwd://cfg/AGENTS.md".to_string())
    );
    assert_eq!(
        instructions_path(Some("cfg"), false, true),
        Some("cwd://cfg/ASTRID.md".to_string())
    );
    assert_eq!(instructions_path(None, false, false), None);
}

#[test]
fn blank_instructions_are_not_handed_on() {
    assert!(AgentsInjector.on_before_prompt_build("# Rules"));
    assert!(!AgentsInjector.on_before_prompt_build(" \n\t\u{2003}"));
}

#[test]
fn build_requests_need_a_response_topic() {
    let payload = Json::Object(vec![(
        "response_topic".to_string(),
        Json::Text("t".to_string()),
    )]);
    assert_eq!(AgentsInjector.response_topic(&payload), Ok("t"));
    assert_eq!(
        AgentsInjector.response_topic(&Json::Null),
        Err("missing response_topic in before_build payload")
    );
}
