use scanner_core::outcome::{outcome_of, ScriptEvent, ScriptResult, ScriptResultKind};
use scanner_core::preconditions::{
    generate_port_kb_key, may_run, KbLookup, KeyCheck, Preconditions, Protocol,
};
use scanner_core::runner::{RunnerAction, ScanRunner};
use scanner_core::scheduling::{resolve_dependencies, ScheduleError, Scheduler};

/// A VT as the tests declare it.
#[derive(Default, Clone)]
struct GenerateScript {
    id: String,
    dependencies: Vec<String>,
    required_keys: Vec<String>,
    mandatory_keys: Vec<String>,
    required_tcp_ports: Vec<String>,
    required_udp_ports: Vec<String>,
    exclude: Vec<String>,
}

fn strings(v: &[&str]) -> Vec<String> {
    v.iter().map(|x| x.to_string()).collect()
}

impl GenerateScript {
    fn with_dependencies(id: &str, dependencies: &[&str]) -> GenerateScript {
        GenerateScript { id: id.to_string(), dependencies: strings(dependencies), ..Default::default() }
    }
    fn with_required_keys(id: &str, keys: &[&str]) -> GenerateScript {
        GenerateScript { id: id.to_string(), required_keys: strings(keys), ..Default::default() }
    }
    fn with_mandatory_keys(id: &str, keys: &[&str]) -> GenerateScript {
        GenerateScript { id: id.to_string(), mandatory_keys: strings(keys), ..Default::default() }
    }
    fn with_excluded_keys(id: &str, keys: &[&str]) -> GenerateScript {
        GenerateScript { id: id.to_string(), exclude: strings(keys), ..Default::default() }
    }
    fn with_required_ports(id: &str, ports: &[(Protocol, &str)]) -> GenerateScript {
        let pick = |want: Protocol| {
            ports.iter().filter(|(p, _)| *p == want).map(|(_, p)| p.to_string()).collect()
        };
        GenerateScript {
            id: id.to_string(),
            required_tcp_ports: pick(Protocol::TCP),
            required_udp_ports: pick(Protocol::UDP),
            ..Default::default()
        }
    }
    fn filename(&self) -> String {
        format!("{}.nasl", self.id)
    }
}

/// A knowledge base of one host: keys with values coerced to booleans.
type Kb = Vec<(String, bool)>;

fn lookup(kb: &Kb, key: &str) -> KbLookup {
    match kb.iter().find(|(k, _)| k == key) {
        Some((_, v)) => KbLookup::Found(*v),
        None => KbLookup::Missing,
    }
}

fn checks(kb: &Kb, keys: &[String]) -> Vec<KeyCheck> {
    keys.iter().map(|k| KeyCheck { key: k.clone(), lookup: lookup(kb, k) }).collect()
}

fn port_checks(kb: &Kb, protocol: Protocol, ports: &[String]) -> Vec<KeyCheck> {
    ports
        .iter()
        .map(|p| KeyCheck {
            key: p.clone(),
            lookup: lookup(kb, &generate_port_kb_key(protocol, p)),
        })
        .collect()
}

fn preconditions(kb: &Kb, vt: &GenerateScript) -> Preconditions {
    Preconditions {
        required_keys: checks(kb, &vt.required_keys),
        mandatory_keys: checks(kb, &vt.mandatory_keys),
        excluded_keys: checks(kb, &vt.exclude),
        tcp_ports: port_checks(kb, Protocol::TCP, &vt.required_tcp_ports),
        udp_ports: port_checks(kb, Protocol::UDP, &vt.required_udp_ports),
    }
}

/// Schedules the VTs and runs them against the host "test.host"; every
/// script that starts exits with 0. Also returns the hosts notified.
fn run_hosts(scripts: &[GenerateScript], kb: &Kb, hosts: &[&str]) -> (Vec<ScriptResult>, Vec<usize>) {
    let names: Vec<String> = scripts.iter().map(|s| s.filename()).collect();
    let deps: Vec<Vec<String>> = scripts.iter().map(|s| s.dependencies.clone()).collect();
    let resolved = resolve_dependencies(&names, &deps).expect("success run");
    let scheduler = Scheduler::new(resolved).expect("success run");
    let mut runner = ScanRunner::new(scheduler, hosts.len());
    let mut results = vec![];
    let mut finished = vec![];
    loop {
        match runner.next() {
            RunnerAction::Execute { host, stage, vt } => {
                let script = &scripts[vt];
                let kind = match may_run(false, &preconditions(kb, script)) {
                    Err(denial) => denial,
                    Ok(()) => outcome_of(&vec![ScriptEvent::Value, ScriptEvent::Exit(0)]),
                };
                results.push(ScriptResult {
                    oid: script.id.clone(),
                    filename: script.filename(),
                    stage,
                    kind,
                    target: hosts[host].to_string(),
                });
            }
            RunnerAction::ScanFinished { host } => finished.push(host),
            RunnerAction::ScheduleFailed(e) => panic!("scheduling failed: {:?}", e),
            RunnerAction::Done => break,
        }
    }
    (results, finished)
}

fn run(scripts: &[GenerateScript], kb: &Kb) -> Vec<ScriptResult> {
    run_hosts(scripts, kb, &["test.host"]).0
}

fn count(results: &[ScriptResult]) -> (usize, usize) {
    let success = results.iter().filter(|x| x.has_succeeded()).count();
    let failure = results.iter().filter(|x| x.has_failed()).filter(|x| x.has_not_run()).count();
    (success, failure)
}

#[test]
fn required_ports() {
    let vts = [
        GenerateScript::with_required_ports("0", &[(Protocol::UDP, "2000"), (Protocol::TCP, "20")]),
        GenerateScript::with_required_ports("1", &[(Protocol::UDP, "2000"), (Protocol::TCP, "2")]),
        GenerateScript::with_required_ports("2", &[(Protocol::UDP, "200"), (Protocol::TCP, "20")]),
        GenerateScript::with_required_ports("3", &[(Protocol::UDP, "2000"), (Protocol::TCP, "22")]),
        GenerateScript::with_required_ports("4", &[(Protocol::UDP, "2002"), (Protocol::TCP, "20")]),
    ];
    let kb: Kb = [
        (Protocol::TCP, "20", 1),
        (Protocol::TCP, "22", 0),
        (Protocol::UDP, "2000", 1),
        (Protocol::UDP, "2002", 0),
    ]
    .into_iter()
    .map(|(p, port, enabled)| (generate_port_kb_key(p, port), enabled != 0))
    .collect();
    let result = run(&vts, &kb);
    let (success, failure) = count(&result);
    assert_eq!(success, 1);
    assert_eq!(failure, 4);
}

#[test]
fn exclude_keys() {
    let only_success = [
        GenerateScript::with_excluded_keys("0", &["key/not"]),
        GenerateScript::with_excluded_keys("1", &["key/not"]),
        GenerateScript::with_excluded_keys("2", &["key/exists"]),
    ];
    let kb: Kb = vec![("key/exists".to_string(), true)];
    let result = run(&only_success, &kb);
    let (success, failure) = count(&result);
    assert_eq!(success, 2);
    assert_eq!(failure, 1);
}

#[test]
fn required_keys() {
    let only_success = [
        GenerateScript::with_required_keys("0", &["key/not"]),
        GenerateScript::with_required_keys("1", &["key/exists"]),
    ];
    let kb: Kb = vec![("key/exists".to_string(), true)];
    let result = run(&only_success, &kb);
    let (success, failure) = count(&result);
    assert_eq!(success, 1);
    assert_eq!(failure, 1);
}

#[test]
fn mandatory_keys() {
    let only_success = [
        GenerateScript::with_mandatory_keys("0", &["key/not"]),
        GenerateScript::with_mandatory_keys("1", &["key/exists"]),
    ];
    let kb: Kb = vec![("key/exists".to_string(), true)];
    let result = run(&only_success, &kb);
    let (success, failure) = count(&result);
    assert_eq!(success, 1);
    assert_eq!(failure, 1);
}

#[test]
fn missing_udp_port_is_reported() {
    let vt = GenerateScript::with_required_ports("0", &[(Protocol::TCP, "20"), (Protocol::UDP, "2000")]);
    let kb: Kb = vec![(generate_port_kb_key(Protocol::TCP, "20"), true)];
    let result = run(&[vt], &kb);
    assert_eq!(result[0].kind, ScriptResultKind::MissingPort(Protocol::UDP, "2000".to_string()));
}

#[test]
fn disabled_port_is_missing() {
    let vt = GenerateScript::with_required_ports("0", &[(Protocol::TCP, "22")]);
    let kb: Kb = vec![(generate_port_kb_key(Protocol::TCP, "22"), false)];
    let result = run(&[vt], &kb);
    assert_eq!(result[0].kind, ScriptResultKind::MissingPort(Protocol::TCP, "22".to_string()));
}

#[test]
fn excluded_key_present_is_named() {
    let vt = GenerateScript::with_excluded_keys("0", &["key/not", "key/exists"]);
    let kb: Kb = vec![("key/exists".to_string(), true)];
    let result = run(&[vt], &kb);
    assert_eq!(result[0].kind, ScriptResultKind::ContainsExcludedKey("key/exists".to_string()));
    assert!(result[0].has_not_run());
}

#[test]
fn required_key_missing_is_named() {
    let vt = GenerateScript::with_required_keys("0", &["key/exists", "key/not"]);
    let kb: Kb = vec![("key/exists".to_string(), true)];
    let result = run(&[vt], &kb);
    assert_eq!(result[0].kind, ScriptResultKind::MissingRequiredKey("key/not".to_string()));
}

#[test]
fn mandatory_key_missing_is_named() {
    let vt = GenerateScript::with_mandatory_keys("0", &["key/not"]);
    let result = run(&[vt], &vec![]);
    assert_eq!(result[0].kind, ScriptResultKind::MissingMandatoryKey("key/not".to_string()));
}

#[test]
fn store_errors_fail_closed_and_open() {
    let err = |k: &str| KeyCheck { key: k.to_string(), lookup: KbLookup::StoreError };
    let only_excluded = Preconditions {
        required_keys: vec![],
        mandatory_keys: vec![],
        excluded_keys: vec![err("a")],
        tcp_ports: vec![],
        udp_ports: vec![],
    };
    assert_eq!(may_run(false, &only_excluded), Ok(()));
    let mandatory = Preconditions {
        required_keys: vec![],
        mandatory_keys: vec![err("m")],
        excluded_keys: vec![err("a")],
        tcp_ports: vec![],
        udp_ports: vec![err("20")],
    };
    assert_eq!(may_run(false, &mandatory), Err(ScriptResultKind::MissingMandatoryKey("m".to_string())));
    let required = Preconditions {
        required_keys: vec![err("r")],
        mandatory_keys: vec![err("m")],
        excluded_keys: vec![],
        tcp_ports: vec![],
        udp_ports: vec![],
    };
    assert_eq!(may_run(false, &required), Err(ScriptResultKind::MissingRequiredKey("r".to_string())));
}

#[test]
fn parameters_are_refused() {
    let empty = Preconditions {
        required_keys: vec![],
        mandatory_keys: vec![],
        excluded_keys: vec![],
        tcp_ports: vec![],
        udp_ports: vec![],
    };
    assert_eq!(may_run(true, &empty), Err(ScriptResultKind::Parameter));
    assert_eq!(may_run(false, &empty), Ok(()));
}

#[test]
fn dependent_scripts_all_run_in_order() {
    let scripts = [
        GenerateScript::with_dependencies("0", &[]),
        GenerateScript::with_dependencies("1", &["0.nasl"]),
        GenerateScript::with_dependencies("2", &["1.nasl"]),
    ];
    let result = run(&scripts, &vec![]);
    let order: Vec<(String, usize)> = result.iter().map(|r| (r.oid.clone(), r.stage)).collect();
    assert_eq!(
        order,
        vec![("0".to_string(), 0), ("1".to_string(), 1), ("2".to_string(), 2)]
    );
    assert_eq!(count(&result), (3, 0));
}

#[test]
fn results_per_host_and_one_finish_each() {
    let scripts = [
        GenerateScript::with_dependencies("0", &[]),
        GenerateScript::with_dependencies("1", &["0.nasl"]),
        GenerateScript::with_dependencies("2", &[]),
    ];
    let hosts = ["a.host", "b.host", "c.host"];
    let (results, finished) = run_hosts(&scripts, &vec![], &hosts);
    assert_eq!(results.len(), 9);
    assert_eq!(finished, vec![0, 1, 2]);
    for (i, host) in hosts.iter().enumerate() {
        let mine: Vec<String> =
            results[i * 3..i * 3 + 3].iter().map(|r| format!("{}@{}", r.oid, r.target)).collect();
        assert_eq!(mine, vec![format!("0@{host}"), format!("2@{host}"), format!("1@{host}")]);
    }
}

#[test]
fn no_hosts_yields_nothing() {
    let (results, finished) = run_hosts(&[GenerateScript::with_dependencies("0", &[])], &vec![], &[]);
    assert!(results.is_empty());
    assert!(finished.is_empty());
}

#[test]
fn runner_is_done_for_good() {
    let mut runner = ScanRunner::new(Scheduler::new(vec![vec![]]).unwrap(), 1);
    assert_eq!(runner.next(), RunnerAction::Execute { host: 0, stage: 0, vt: 0 });
    assert_eq!(runner.next(), RunnerAction::ScanFinished { host: 0 });
    assert_eq!(runner.next(), RunnerAction::Done);
    assert_eq!(runner.next(), RunnerAction::Done);
}

#[test]
fn runner_pulls_stages_while_serving_first_host() {
    let mut runner = ScanRunner::new(Scheduler::new(vec![vec![1], vec![]]).unwrap(), 2);
    assert!(runner.cache.is_empty());
    assert_eq!(runner.next(), RunnerAction::Execute { host: 0, stage: 0, vt: 1 });
    assert_eq!(runner.cache, vec![vec![1]]);
    assert_eq!(runner.next(), RunnerAction::Execute { host: 0, stage: 1, vt: 0 });
    assert_eq!(runner.cache, vec![vec![1], vec![0]]);
    assert_eq!(runner.next(), RunnerAction::ScanFinished { host: 0 });
    assert_eq!(runner.next(), RunnerAction::Execute { host: 1, stage: 0, vt: 1 });
    assert_eq!(runner.next(), RunnerAction::Execute { host: 1, stage: 1, vt: 0 });
    assert_eq!(runner.next(), RunnerAction::ScanFinished { host: 1 });
    assert_eq!(runner.next(), RunnerAction::Done);
    assert_eq!(runner.cache, vec![vec![1], vec![0]]);
}

#[test]
fn scheduling_failure_ends_the_run() {
    let mut runner = ScanRunner::new(Scheduler::new(vec![vec![], vec![2], vec![1]]).unwrap(), 3);
    assert_eq!(runner.next(), RunnerAction::Execute { host: 0, stage: 0, vt: 0 });
    assert_eq!(runner.next(), RunnerAction::ScheduleFailed(ScheduleError::Cycle));
    assert_eq!(runner.next(), RunnerAction::Done);
    assert_eq!(runner.next(), RunnerAction::Done);
}

#[test]
fn outcome_takes_first_decisive_event() {
    assert_eq!(outcome_of(&vec![]), ScriptResultKind::ReturnCode(0));
    assert_eq!(outcome_of(&vec![ScriptEvent::Value]), ScriptResultKind::ReturnCode(0));
    assert_eq!(
        outcome_of(&vec![ScriptEvent::Value, ScriptEvent::Exit(3), ScriptEvent::Error("e".to_string())]),
        ScriptResultKind::ReturnCode(3)
    );
    assert_eq!(
        outcome_of(&vec![ScriptEvent::Error("boom".to_string()), ScriptEvent::Exit(0)]),
        ScriptResultKind::Error("boom".to_string())
    );
}

#[test]
fn port_key_format() {
    assert_eq!(generate_port_kb_key(Protocol::TCP, "20"), "Ports/tcp/20");
    assert_eq!(generate_port_kb_key(Protocol::UDP, "2000"), "Ports/udp/2000");
    assert_eq!(Protocol::UDP.name(), "udp");
}

#[test]
fn result_classification() {
    let result = |kind| ScriptResult {
        oid: "1".to_string(),
        filename: "1.nasl".to_string(),
        stage: 0,
        kind,
        target: "h".to_string(),
    };
    let ok = result(ScriptResultKind::ReturnCode(0));
    assert!(ok.has_succeeded() && !ok.has_failed() && !ok.has_not_run());
    let rc = result(ScriptResultKind::ReturnCode(1));
    assert!(!rc.has_succeeded() && rc.has_failed() && !rc.has_not_run());
    let err = result(ScriptResultKind::Error("x".to_string()));
    assert!(err.has_failed() && !err.has_not_run());
    let param = result(ScriptResultKind::Parameter);
    assert!(param.has_failed() && param.has_not_run());
}
