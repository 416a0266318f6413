use faas_trigger::invoker::{
    answer_for, command_for_message, quoted_answer, filler_content, invocation_command, plan_file_action, read_answer,
    storage_path, FileAction, InvokerSettings, Op, Request,
};
use faas_trigger::stats::LatencyStats;

#[test]
fn storage_path_is_under_local_storage() {
    assert_eq!(storage_path("prova42"), "/home/fdlv/localstorage/prova42");
}

#[test]
fn filler_is_a_kilobyte_of_a() {
    let content = filler_content();
    assert_eq!(content, "a".repeat(1024));
}

#[test]
fn plan_follows_operation() {
    let read = plan_file_action(&Request { op: Op::Read, nomefile: "f".to_string() });
    assert!(matches!(read, FileAction::Read { ref path } if path == "/home/fdlv/localstorage/f"));
    for op in [Op::Create, Op::Update] {
        let write = plan_file_action(&Request { op, nomefile: "g".to_string() });
        match write {
            FileAction::Write { path, content } => {
                assert_eq!(path, "/home/fdlv/localstorage/g");
                assert_eq!(content.len(), 1024);
            }
            other => panic!("unexpected {:?}", other),
        }
    }
    let remove = plan_file_action(&Request { op: Op::Delete, nomefile: "h".to_string() });
    assert!(matches!(remove, FileAction::Remove { ref path } if path == "/home/fdlv/localstorage/h"));
}

#[test]
fn read_answer_is_msgpack_of_debug_text() {
    // ["\"hi\""] -> fixarray(1), fixstr(4), '"', 'h', 'i', '"'
    assert_eq!(read_answer("hi"), "145, 164, 34, 104, 105, 34");
}

#[test]
fn read_answer_uses_str8_for_long_text() {
    let contents = "b".repeat(40);
    let answer = read_answer(&contents);
    // 42 bytes of debug text: str8 header 0xd9, 42
    assert!(answer.starts_with("145, 217, 42, 34, 98"));
    assert!(answer.ends_with("98, 34"));
}

#[test]
fn answers_for_writes_and_deletes_are_success() {
    let action = FileAction::Remove { path: "/x".to_string() };
    assert_eq!(answer_for(&action, "ignored"), "success");
    let action = FileAction::Write { path: "/x".to_string(), content: String::new() };
    assert_eq!(answer_for(&action, ""), "success");
    let action = FileAction::Read { path: "/x".to_string() };
    assert_eq!(answer_for(&action, "hi"), "145, 164, 34, 104, 105, 34");
}

#[test]
fn command_names_request_file_and_id() {
    assert_eq!(
        invocation_command("Delete", "42"),
        "../GenericFunctionWithFlag/target/debug/genericfunctionwithflag --operation Delete --nomefile prova42 --id 42"
    );
    assert_eq!(
        command_for_message("Read", b"7".to_vec()),
        Some("../GenericFunctionWithFlag/target/debug/genericfunctionwithflag --operation Read --nomefile prova7 --id 7".to_string())
    );
    assert_eq!(command_for_message("Read", vec![0xff, 0x00]), None);
}

#[test]
fn invoker_settings_defaults() {
    let s = InvokerSettings::resolve(None, None, None, None);
    assert_eq!(s.nats_server, "192.168.150.81");
    assert_eq!(s.trigger, "topic2");
    assert_eq!(s.group, "default");
    assert_eq!(s.op, "Delete");
    let s = InvokerSettings::resolve(Some("n".into()), Some("t".into()), Some("g".into()), Some("Read".into()));
    assert_eq!((s.nats_server.as_str(), s.trigger.as_str(), s.group.as_str(), s.op.as_str()), ("n", "t", "g", "Read"));
}

#[test]
fn stats_track_count_total_extremes() {
    let mut stats = LatencyStats::new();
    for latency in [5u128, 3, 9] {
        stats.record(latency);
    }
    assert_eq!((stats.count, stats.total, stats.max, stats.min), (3, 17, 9, 3));
    assert_eq!(stats.average(), 5);
}

#[test]
fn stats_zero_minimum_is_replaced() {
    let mut stats = LatencyStats::new();
    stats.record(0);
    assert_eq!(stats.min, 0);
    stats.record(4);
    assert_eq!(stats.min, 4);
    stats.record(6);
    assert_eq!(stats.min, 4);
    assert_eq!(stats.max, 6);
    assert_eq!(stats.average(), 3);
}

#[test]
fn quoted_answer_carries_given_text() {
    // fixarray(1), fixstr(2), 'o', 'k'
    assert_eq!(quoted_answer("ok".to_string()), "145, 162, 111, 107");
    assert_eq!(quoted_answer(String::new()), "145, 160");
}

#[test]
fn stats_round_reports_over_many_requests() {
    let latencies: Vec<u128> = vec![120, 80, 300, 95, 101];
    let mut stats = LatencyStats::new();
    for (k, latency) in latencies.iter().enumerate() {
        stats.record(*latency);
        let seen = &latencies[..=k];
        assert_eq!(stats.count as usize, k + 1);
        assert_eq!(stats.average(), seen.iter().sum::<u128>() / (k as u128 + 1));
        assert_eq!(stats.min, *seen.iter().min().unwrap());
        assert_eq!(stats.max, *seen.iter().max().unwrap());
    }
}
