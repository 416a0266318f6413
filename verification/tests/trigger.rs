use faas_trigger::routing::{Rule, RouteError, RouteTable, Trigger};
use faas_trigger::stress::{request_body, spacing_schedule, BATCH_SIZE, FIRST_SPACING_US, MIN_SPACING_US};
use faas_trigger::trigger::{
    accepted_body, bind_address, greeting, reply_body, rules_url, PullerSettings, SettingsError, TriggerSettings,
    RULES_FETCH_TIMEOUT_SECS,
};
use std::collections::HashMap;

fn rule(id: &str, topic: &str) -> Rule {
    Rule {
        id: id.to_string(),
        rule: Trigger { trigger_endpoint_type: vec!["http".to_string()], medium: "nats".to_string(), topic: topic.to_string() },
    }
}

#[test]
fn unknown_function_is_refused() {
    let table = RouteTable::new();
    assert_eq!(table.topic_for("dummypipe"), Err(RouteError::UnknownFunction));
    assert!(!table.knows("dummypipe"));
    assert!(table.route("dummypipe", "m".to_string()).is_err());
}

#[test]
fn rules_route_functions_to_topics() {
    let mut table = RouteTable::new();
    table.add_rules(&vec![rule("dummypipe", "dummy"), rule("other", "t2")]);
    assert_eq!(table.topic_for("dummypipe"), Ok("dummy".to_string()));
    let call = table.route("other", "body".to_string()).unwrap();
    assert_eq!((call.topic.as_str(), call.message.as_str()), ("t2", "body"));
}

#[test]
fn first_rule_for_a_function_wins() {
    let mut table = RouteTable::new();
    table.add_rules(&vec![rule("f", "first"), rule("f", "second")]);
    assert_eq!(table.topic_for("f"), Ok("first".to_string()));
    table.add_rules(&vec![rule("f", "third"), rule("g", "gee")]);
    assert_eq!(table.topic_for("f"), Ok("first".to_string()));
    assert_eq!(table.topic_for("g"), Ok("gee".to_string()));
}

#[test]
fn pulling_same_rules_twice_changes_nothing() {
    let mut table = RouteTable::new();
    let rules = vec![rule("a", "ta"), rule("b", "tb"), rule("a", "tc")];
    table.add_rules(&rules);
    table.add_rules(&rules);
    assert_eq!(table.topic_for("a"), Ok("ta".to_string()));
    assert_eq!(table.topic_for("b"), Ok("tb".to_string()));
}

#[test]
fn query_call_carries_json_object() {
    let mut table = RouteTable::new();
    table.add_rules(&vec![rule("f", "topic-f")]);
    let mut params = HashMap::new();
    params.insert("name".to_string(), "x".to_string());
    let call = table.route_query("f", &params).unwrap();
    assert_eq!(call.topic, "topic-f");
    assert_eq!(call.message, r#"{"name":"x"}"#);
    assert_eq!(table.route_query("nope", &params).err(), Some(RouteError::UnknownFunction));
}

#[test]
fn replies() {
    assert_eq!(greeting(), "Hello test");
    assert_eq!(accepted_body(), "ok");
    assert_eq!(reply_body(Some(b"hello".to_vec())), "hello");
    assert_eq!(reply_body(Some(vec![b'a', 0xff, b'b'])), "a\u{fffd}b");
    assert_eq!(reply_body(None), "Error");
}

#[test]
fn trigger_settings_defaults() {
    let s = TriggerSettings::resolve(None, None);
    assert_eq!(s.nats_server, "localhost");
    assert_eq!(s.bind_address, "0.0.0.0:8081");
    assert_eq!(bind_address("9000"), "0.0.0.0:9000");
}

#[test]
fn puller_settings() {
    let s = PullerSettings::resolve(None, None, None, None, None).unwrap();
    assert_eq!(s.url, "http://192.168.150.81:3000/trigger/rules/basicHttpTrigger");
    assert_eq!(s.interval_ms, 2000);
    let s = PullerSettings::resolve(Some("h".into()), Some("1".into()), Some("p".into()), Some("+15".into()), Some("i".into())).unwrap();
    assert_eq!(s.url, "http://h:1/p/i");
    assert_eq!(s.interval_ms, 15);
    assert_eq!(PullerSettings::resolve(None, None, None, Some("2s".into()), None).err(), Some(SettingsError::InvalidInterval));
    assert_eq!(rules_url("a", "b", "c", "d"), "http://a:b/c/d");
    assert_eq!(RULES_FETCH_TIMEOUT_SECS, 5);
}

#[test]
fn stress_schedule_halves_down_to_a_millisecond() {
    let schedule = spacing_schedule(FIRST_SPACING_US, MIN_SPACING_US);
    assert_eq!(schedule, vec![1000000, 500000, 250000, 125000, 62500, 31250, 15625, 7812, 3906, 1953]);
    assert_eq!(spacing_schedule(999, 1000), Vec::<u64>::new());
    assert_eq!(BATCH_SIZE, 100);
}

#[test]
fn stress_request_bodies() {
    assert_eq!(request_body(1000000, 0), "1000000-0");
    assert_eq!(request_body(1953, 99), "1953-99");
    assert_eq!(request_body(7, -3), "7--3");
}

#[test]
fn query_call_escapes_json_strings() {
    let mut table = RouteTable::new();
    table.add_rules(&vec![rule("f", "t")]);
    let mut params = HashMap::new();
    params.insert("q\"\\".to_string(), "a\nb\u{1}\u{8}\té/".to_string());
    let call = table.route_query("f", &params).unwrap();
    assert_eq!(call.message, "{\"q\\\"\\\\\":\"a\\nb\\u0001\\b\\té/\"}");
}

#[test]
fn query_call_lists_every_parameter_once() {
    let mut table = RouteTable::new();
    table.add_rules(&vec![rule("f", "t")]);
    let empty: HashMap<String, String> = HashMap::new();
    assert_eq!(table.route_query("f", &empty).unwrap().message, "{}");
    let mut params = HashMap::new();
    params.insert("a".to_string(), "1".to_string());
    params.insert("b".to_string(), "2".to_string());
    let message = table.route_query("f", &params).unwrap().message;
    assert!(message == r#"{"a":"1","b":"2"}"# || message == r#"{"b":"2","a":"1"}"#, "{}", message);
}
