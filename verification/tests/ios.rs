use std::path::Path;

use keryx_miner::ios::{
    ensure_mining_model_ready, keryx_miner_connect, keryx_miner_set_doc_path,
    keryx_miner_set_mining_address, keryx_miner_start, keryx_miner_status, keryx_miner_stop,
    push_percent, runtime_ended, start_with_model, RuntimeEnd,
};
use keryx_miner::journal::log_msg;

#[test]
fn the_first_path_stays() {
    let mut base = None;
    assert_eq!(keryx_miner_set_doc_path(&mut base, None), None);
    assert_eq!(base, None);
    let first = Path::new("docs").join("keryx-models");
    assert_eq!(keryx_miner_set_doc_path(&mut base, Some("docs".into())), Some(first.clone()));
    assert_eq!(
        keryx_miner_set_doc_path(&mut base, Some("elsewhere".into())),
        Some(Path::new("elsewhere").join("keryx-models"))
    );
    assert_eq!(keryx_miner_set_doc_path(&mut base, None), None);
    assert_eq!(base, Some(first));
}

#[test]
fn the_first_node_stays() {
    let mut node = None;
    let answer = keryx_miner_connect(&mut node, None);
    assert!(!answer.ok && answer.messages.is_empty() && node.is_none());
    let answer = keryx_miner_connect(&mut node, Some("a:1".into()));
    assert!(answer.ok);
    assert_eq!(answer.messages, vec!["ios: gRPC address set"]);
    assert!(keryx_miner_connect(&mut node, Some("b:2".into())).ok);
    assert_eq!(node.as_deref(), Some("a:1"));
}

#[test]
fn the_first_mining_address_stays() {
    let mut address = None;
    assert!(!keryx_miner_set_mining_address(&mut address, None));
    assert!(keryx_miner_set_mining_address(&mut address, Some("keryx:a".into())));
    assert!(keryx_miner_set_mining_address(&mut address, Some("keryx:b".into())));
    assert_eq!(address.as_deref(), Some("keryx:a"));
}

#[test]
fn a_model_is_ready_when_it_is_known_and_there() {
    let mut tier = None;
    assert!(!ensure_mining_model_ready(&mut tier, None, None));
    assert!(!ensure_mining_model_ready(&mut tier, Some([1; 32]), None));
    assert!(tier.is_none());
    assert!(ensure_mining_model_ready(&mut tier, Some([1; 32]), Some("m.gguf".into())));
    assert!(ensure_mining_model_ready(&mut tier, Some([2; 32]), Some("n.gguf".into())));
    assert_eq!(tier, Some(([1; 32], "m.gguf".to_string())));
}

#[test]
fn percentages_have_two_decimals() {
    for p in [0u16, 5, 42, 100, 200, 1234, 65535] {
        let mut s = String::new();
        push_percent(&mut s, p);
        assert_eq!(s, format!("{:.2}", p as f64 / 100.0));
    }
}

#[test]
fn mining_starts_once() {
    let node = Some("a:1".to_string());
    let mut running = false;
    let job = keryx_miner_start(&mut running, &node, &None).unwrap();
    assert!(running);
    assert_eq!(job.grpc_address, "a:1");
    assert_eq!(job.mining_address, "keryx:ios:miner");
    assert_eq!(job.messages.len(), 2);
    assert_eq!(job.messages[0], "ios: starting mining runtime…");
    assert_eq!(
        job.messages[1],
        "ios: devfund enabled, mining 2.00% of the time to \
         keryx:qpcptntu45n0xtyq60apnwnhpkta0ujzt5sy3uk5v6nrjvxlqhamjyc882jj3"
    );
    assert!(keryx_miner_start(&mut running, &node, &None).is_none());
    assert!(running);
    assert_eq!(keryx_miner_stop(&mut running), "ios: stopping miner…");
    assert!(!running);
    let job = keryx_miner_start(&mut running, &node, &Some("keryx:me".into())).unwrap();
    assert_eq!(job.mining_address, "keryx:me");
}

#[test]
fn mining_needs_a_node() {
    let mut running = false;
    assert!(keryx_miner_start(&mut running, &None, &None).is_none());
    assert!(running);
}

#[test]
fn mining_needs_a_model() {
    let mut running = true;
    let answer = start_with_model(&mut running, true);
    assert!(answer.ok && answer.messages.is_empty() && running);
    let answer = start_with_model(&mut running, false);
    assert!(!answer.ok && !running);
    assert_eq!(answer.messages, vec!["ios: FAILED to download model — cannot mine"]);
}

#[test]
fn a_runtime_that_ends_no_longer_runs() {
    let mut running = true;
    assert_eq!(runtime_ended(&mut running, &RuntimeEnd::LoopOver), "ios: mining loop exited");
    assert!(!running);
    let mut running = true;
    assert_eq!(
        runtime_ended(&mut running, &RuntimeEnd::NotCreated("no threads".into())),
        "ios: tokio runtime creation failed: no threads"
    );
    assert!(!running);
}

#[test]
fn an_idle_status_is_short() {
    assert_eq!(
        keryx_miner_status(false, 0, ""),
        r#"{"running":false,"nonces_found":0,"log_lines":[]}"#
    );
}

#[test]
fn a_status_shows_the_log() {
    assert_eq!(
        keryx_miner_status(true, 12, "one\na \"b\" \\ c\n"),
        r#"{"running":true,"nonces_found":12,"log_lines":["one","a \"b\" \\ c"]}"#
    );
}

#[test]
fn a_status_shows_twenty_lines() {
    let log: String = (0..25).map(|i| format!("line {i}\n")).collect();
    let lines: Vec<String> = (5..25).map(|i| format!("\"line {i}\"")).collect();
    assert_eq!(
        keryx_miner_status(false, u64::MAX, &log),
        format!(
            r#"{{"running":false,"nonces_found":18446744073709551615,"log_lines":[{}]}}"#,
            lines.join(",")
        )
    );
}

#[test]
fn a_status_with_a_nul_is_empty() {
    assert_eq!(keryx_miner_status(true, 1, "a\0b\n"), "");
}

#[test]
fn a_status_ends_with_the_last_message() {
    let mut log = "x".repeat(65530);
    log.push('\n');
    log_msg(&mut log, "ios: stopping miner");
    assert!(keryx_miner_status(false, 0, &log).ends_with(",\"ios: stopping miner\"]}"));
}

#[test]
fn the_lines_of_a_status_can_be_read_back() {
    let lines = ["plain", "a \"quoted\" word", "back\\slash", "\\\"", "", "x\",\"y"];
    let json = keryx_miner_status(true, 3, &lines.join("\n"));
    let head = r#"{"running":true,"nonces_found":3,"log_lines":["#;
    let mut rest = json.strip_prefix(head).unwrap().chars();
    let mut read = Vec::new();
    while rest.next() == Some('"') {
        let mut line = String::new();
        loop {
            match rest.next().unwrap() {
                '"' => break,
                '\\' => line.push(rest.next().unwrap()),
                c => line.push(c),
            }
        }
        read.push(line);
        if rest.next() != Some(',') {
            break;
        }
    }
    assert_eq!(read, lines);
    assert_eq!(rest.as_str(), "}");
}
