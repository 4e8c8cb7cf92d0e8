use aos_realm::hooks::{
    apply_merge, correlation_id, dispatch_hook, mapping_for_event, remaining_ms, reply_topic,
    Collecting, Collector, Dispatch, HookBridge, MergeSemantics,
};
use aos_realm::json::Json;

fn object(fields: Vec<(&str, Json)>) -> Json {
    Json::Object(fields.into_iter().map(|(name, value)| (name.to_string(), value)).collect())
}

fn text(value: &str) -> Json {
    Json::Text(value.to_string())
}

#[test]
fn events_map_to_their_hooks() {
    let started = mapping_for_event("astrid.v1.lifecycle.tool_call_started").expect("mapped");
    assert_eq!(started.hook_name, "before_tool_call");
    assert!(matches!(started.merge, MergeSemantics::ToolCallBefore));
    let sending = mapping_for_event("astrid.v1.lifecycle.message_sending").expect("mapped");
    assert_eq!(sending.hook_name, "message_sending");
    assert!(matches!(
        sending.merge,
        MergeSemantics::LastNonNull { field: "modified_content" }
    ));
    for event in ["completed", "failed", "cancelled"] {
        let name = format!("astrid.v1.lifecycle.sub_agent_{event}");
        assert_eq!(mapping_for_event(&name).expect("mapped").hook_name, "subagent_stop");
    }
    assert!(mapping_for_event("astrid.v1.lifecycle.unknown").is_none());
}

#[test]
fn dispatch_announces_or_collects() {
    let Dispatch::Announce { topic, hook } = dispatch_hook("astrid.v1.lifecycle.session_created")
    else {
        panic!("expected an announcement");
    };
    assert_eq!((topic.as_str(), hook), ("hook.v1.event.session_start", "session_start"));
    let Dispatch::Collect { topic, hook, .. } =
        dispatch_hook("astrid.v1.lifecycle.tool_call_completed")
    else {
        panic!("expected a collection");
    };
    assert_eq!((topic.as_str(), hook), ("hook.v1.event.after_tool_call", "after_tool_call"));
    assert!(matches!(dispatch_hook("something.else"), Dispatch::Nothing));
    assert_eq!(reply_topic("after_tool_call", "0a"), "hook.v1.response.after_tool_call.0a");
}

#[test]
fn skips_are_not_taken_back() {
    let responses = vec![
        object(vec![("skip", Json::Bool(true)), ("modified_params", Json::Null)]),
        object(vec![("skip", Json::Bool(false)), ("modified_params", text("x"))]),
    ];
    let result = apply_merge(&MergeSemantics::ToolCallBefore, &responses);
    assert_eq!(result.skip, Some(true));
    assert_eq!(result.data, Some(&text("x")));
    let none = apply_merge(&MergeSemantics::ToolCallBefore, &responses[1..]);
    assert_eq!(none.skip, None);
    let discarded = apply_merge(&MergeSemantics::Discard, &responses);
    assert_eq!((discarded.skip, discarded.data), (None, None));
}

#[test]
fn the_last_value_that_is_not_null_wins() {
    let responses = vec![
        object(vec![("v", text("first"))]),
        object(vec![("v", text("second"))]),
        object(vec![("v", Json::Null)]),
        object(vec![]),
        text("no object"),
    ];
    let merge = MergeSemantics::LastNonNull { field: "v" };
    assert_eq!(apply_merge(&merge, &responses).data, Some(&text("second")));
    assert_eq!(apply_merge(&merge, &responses[2..]).data, None);
}

#[test]
fn collecting_ends_on_an_empty_batch_or_a_timeout() {
    let mut collector = Collector::new(MergeSemantics::LastNonNull { field: "v" });
    let batch = vec![Some(object(vec![("v", text("a"))])), None, Some(object(vec![("v", text("b"))]))];
    assert_eq!(collector.take_batch(batch), Collecting::Open);
    assert_eq!(collector.responses.len(), 2);
    assert_eq!(collector.take_batch(Vec::new()), Collecting::Over);
    assert_eq!(collector.take_error(Some("host said Timeout reached")), Collecting::Over);
    assert_eq!(collector.take_error(Some("refused")), Collecting::Failed);
    assert_eq!(collector.take_error(None), Collecting::Failed);
    assert_eq!(collector.finish().data, Some(&text("b")));
}

#[test]
fn replies_are_parsed_and_malformed_ones_dropped() {
    let mut collector = Collector::new(MergeSemantics::LastNonNull { field: "v" });
    let replies = vec![
        "{\"v\": [true, -1.5, \"x\", null]}".to_string(),
        "{\"v\":".to_string(),
        "{\"v\": null}".to_string(),
    ];
    assert_eq!(collector.take_replies(&replies), Collecting::Open);
    assert_eq!(collector.responses.len(), 2);
    let list = Json::List(vec![
        Json::Bool(true),
        Json::Number("-1.5".to_string()),
        text("x"),
        Json::Null,
    ]);
    assert_eq!(collector.finish().data, Some(&list));
    assert_eq!(collector.take_replies(&Vec::new()), Collecting::Over);
}

#[test]
fn correlation_and_deadline() {
    assert_eq!(correlation_id(&[0x00, 0x9f, 0xa0, 0xff]), "009fa0ff");
    assert_eq!(remaining_ms(0), Some(5_000));
    assert_eq!(remaining_ms(4_999), Some(1));
    assert_eq!(remaining_ms(5_000), None);
}

#[test]
fn every_handler_reaches_its_hook() {
    let announced = |dispatch: Dispatch| match dispatch {
        Dispatch::Announce { topic, hook } => {
            assert_eq!(topic, format!("hook.v1.event.{hook}"));
            hook
        }
        _ => panic!("expected an announcement"),
    };
    let bridge = HookBridge;
    assert_eq!(announced(bridge.on_session_created()), "session_start");
    assert_eq!(announced(bridge.on_session_ended()), "session_end");
    assert_eq!(announced(bridge.on_message_received()), "message_received");
    assert_eq!(announced(bridge.on_message_sent()), "message_sent");
    assert_eq!(announced(bridge.on_subagent_spawned()), "subagent_start");
    assert_eq!(announced(bridge.on_subagent_completed()), "subagent_stop");
    assert_eq!(announced(bridge.on_subagent_failed()), "subagent_stop");
    assert_eq!(announced(bridge.on_subagent_cancelled()), "subagent_stop");
    assert_eq!(announced(bridge.on_compaction_started()), "on_compaction_started");
    assert_eq!(announced(bridge.on_compaction_completed()), "on_compaction_completed");
    assert_eq!(announced(bridge.on_kernel_started()), "kernel_start");
    assert_eq!(announced(bridge.on_kernel_shutdown()), "kernel_stop");
    let collected = |dispatch: Dispatch| match dispatch {
        Dispatch::Collect { hook, merge, .. } => (hook, merge),
        _ => panic!("expected a collection"),
    };
    let (hook, merge) = collected(bridge.on_tool_call_started());
    assert_eq!(hook, "before_tool_call");
    assert!(matches!(merge, MergeSemantics::ToolCallBefore));
    let (hook, merge) = collected(bridge.on_tool_call_completed());
    assert_eq!(hook, "after_tool_call");
    assert!(matches!(merge, MergeSemantics::LastNonNull { field: "modified_result" }));
    let (hook, merge) = collected(bridge.on_tool_result_persisting());
    assert_eq!(hook, "tool_result_persist");
    assert!(matches!(merge, MergeSemantics::LastNonNull { field: "transformed_result" }));
    let (hook, merge) = collected(bridge.on_message_sending());
    assert_eq!(hook, "message_sending");
    assert!(matches!(merge, MergeSemantics::LastNonNull { field: "modified_content" }));
}
