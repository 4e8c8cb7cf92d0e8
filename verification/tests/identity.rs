use aos_realm::identity::{BuildRequest, IdentityBuilder, IdentityCommand, SparkConfig};
use aos_realm::json::Json;

fn configured_identity() -> SparkConfig {
    SparkConfig {
        callsign: "Lyra".into(),
        class: "a precise concierge agent".into(),
        aura: "Calm, direct, and context aware.".into(),
        signal: "Use short answers unless detail is needed.".into(),
        core: "Preserve user boundaries.".into(),
    }
}

#[test]
fn prompt_requests_onboarding_until_identity_is_saved() {
    let mut builder = IdentityBuilder::default();

    let prompt = builder.build_prompt_text("/tmp/workspace", None);

    assert!(prompt.contains("# Important: Identity Setup Required"));
    assert!(prompt.contains("- Current working directory: /tmp/workspace"));
    assert!(!prompt.contains("You are Lyra"));
}

#[test]
fn saved_identity_is_used_without_repeating_onboarding() {
    let mut builder = IdentityBuilder {
        spark: configured_identity(),
        onboarded: true,
    };

    let prompt = builder.build_prompt_text("/tmp/workspace", None);

    assert!(prompt.contains("You are Lyra, a precise concierge agent."));
    assert!(prompt.contains("# Personality\nCalm, direct, and context aware."));
    assert!(
        prompt.contains("# Communication Style\nUse short answers unless detail is needed.")
    );
    assert!(prompt.contains("# Core Directives\nPreserve user boundaries."));
    assert!(!prompt.contains("# Important: Identity Setup Required"));
}

#[test]
fn spark_file_loader_restores_identity_when_state_is_empty() {
    let mut builder = IdentityBuilder::default();

    let prompt =
        builder.build_prompt_text("/tmp/workspace", Some(configured_identity()));

    assert!(prompt.contains("You are Lyra, a precise concierge agent."));
    assert!(!prompt.contains("# Important: Identity Setup Required"));
}

fn command(text: &str, session: Option<&str>) -> Json {
    let mut fields = vec![("text".to_string(), Json::Text(text.to_string()))];
    if let Some(session) = session {
        fields.push(("session_id".to_string(), Json::Text(session.to_string())));
    }
    Json::Object(fields)
}

#[test]
fn commands_are_recognised_with_their_session() {
    let builder = IdentityBuilder::default();
    let (export, session) = builder.handle_command(&command(" identity-export\n", Some("S1")));
    assert_eq!((export, session.as_str()), (IdentityCommand::Export, "S1"));
    let (import, session) = builder.handle_command(&command("identity-import", None));
    assert_eq!((import, session.as_str()), (IdentityCommand::Import, "default"));
    assert_eq!(builder.handle_command(&command("identity", None)).0, IdentityCommand::Other);
    assert_eq!(builder.handle_command(&Json::Null).0, IdentityCommand::Other);
    assert_eq!(
        builder.export_report(12),
        "Identity exported to home://.config/spark.toml (12 bytes)"
    );
}

#[test]
fn an_established_identity_is_kept() {
    let mut builder = IdentityBuilder::default();
    builder.save_identity(configured_identity());
    let mut other = configured_identity();
    other.callsign = "Other".into();
    let prompt = builder.build_prompt_text("/w", Some(other));
    assert!(prompt.contains("You are Lyra"));
    assert_eq!(builder.spark.callsign, "Lyra");
}

#[test]
fn a_file_without_a_name_is_ignored() {
    let mut builder = IdentityBuilder::default();
    let mut nameless = configured_identity();
    nameless.callsign = String::new();
    let prompt = builder.build_prompt_text("/w", Some(nameless));
    assert!(prompt.contains("# Important: Identity Setup Required"));
    assert!(!builder.onboarded);
}

#[test]
fn imports_replace_the_identity() {
    let mut builder = IdentityBuilder::default();
    assert_eq!(
        builder.import(Some(configured_identity())),
        "Identity imported from home://.config/spark.toml (callsign: Lyra)"
    );
    assert!(builder.onboarded);
    assert_eq!(
        builder.import(None),
        "Identity imported from home://.config/spark.toml (callsign: AOS)"
    );
}

#[test]
fn prompts_answer_the_session_and_strip_slashes() {
    let mut builder = IdentityBuilder::default();
    let response = builder.build_system_prompt(
        BuildRequest {
            workspace_root: "/srv/work//".to_string(),
            session_id: Some("S2".to_string()),
        },
        Some(configured_identity()),
    );
    assert_eq!(response.session_id.as_deref(), Some("S2"));
    assert!(response
        .prompt
        .contains("- Current working directory: /srv/work\n- Platform: Unicity AOS"));
}
