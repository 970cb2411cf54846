use wasmiot_orchestrator::model::{
    Device, DeviceConfiguration, DeviceDescription, DeviceHealth, ExecutionResponse, Layer, ManifestNode,
    Module, PlaceholderError, WebAssemblyFunction, WebAssemblyType, WebAssemblyValue,
};
use wasmiot_orchestrator::orchestrator::{
    manifest_event, scan_event, shutdown_event, Action, DeployError, Event, OrchestratorApi, WasmiotOrchestrator,
};
use wasmiot_orchestrator::solver::{solve, SolveError};
use wasmiot_orchestrator::supervisor::HttpSupervisor;
use wasmiot_orchestrator::wire::configuration_text;

fn device(name: &str, interfaces: &[&str], up: bool, hosted: &[&str]) -> Device {
    Device {
        name: name.to_string(),
        description: DeviceDescription { interfaces: interfaces.iter().map(|s| s.to_string()).collect() },
        health: DeviceHealth { up },
        modules: hosted.iter().map(|s| s.to_string()).collect(),
    }
}

fn signature(input: Vec<WebAssemblyType>, output: Vec<WebAssemblyType>) -> WebAssemblyFunction {
    WebAssemblyFunction { input, output }
}

fn module(name: &str, requirements: &[&str], functions: &[&str]) -> Module {
    Module {
        name: name.to_string(),
        url: format!("http://orchestrator/file/module/{}", name),
        requirements: requirements.iter().map(|s| s.to_string()).collect(),
        layers: vec![
            Layer::File("data.json".to_string()),
            Layer::WebAssembly {
                functions: functions
                    .iter()
                    .map(|f| (f.to_string(), signature(vec![WebAssemblyType::U32], vec![WebAssemblyType::U64])))
                    .collect(),
            },
        ],
    }
}

fn node(device: Option<&str>, module: &str, function: &str) -> ManifestNode {
    ManifestNode { device: device.map(|d| d.to_string()), module: module.to_string(), function: function.to_string() }
}

fn fleet(devices: Vec<Device>, modules: Vec<Module>) -> WasmiotOrchestrator {
    let mut o = WasmiotOrchestrator::new();
    o.scan(devices.iter().map(|d| {
        let mut n = Device::discovered(d.name.clone(), d.description.interfaces.clone());
        n.health = d.health;
        n.modules = d.modules.clone();
        n
    }).collect());
    for m in modules {
        assert!(o.upsert_module(m).is_ok());
    }
    o
}

fn module_names(c: &DeviceConfiguration) -> Vec<String> {
    c.modules.iter().map(|(m, _)| m.clone()).collect()
}

#[test]
fn counter_on_one_device_becomes_active() {
    let mut o = fleet(vec![device("dev1", &["datalist"], true, &[])], vec![module("counter", &["datalist"], &["counter"])]);
    let manifest = vec![node(None, "counter", "counter")];
    assert_eq!(o.upsert_deployment("count".to_string(), manifest), Ok(()));
    let deps = o.deployments();
    assert_eq!(deps.len(), 1);
    assert!(!deps[0].active);
    assert_eq!(deps[0].configuration.len(), 1);
    assert_eq!(deps[0].configuration[0].0, "dev1");
    assert_eq!(module_names(&deps[0].configuration[0].1), vec!["counter".to_string()]);
    assert_eq!(deps[0].configuration[0].1.modules[0].1, "http://orchestrator/file/module/counter");
    assert!(o.deploy(&"count".to_string(), &vec!["dev1".to_string()]).is_ok());
    assert!(o.deployments()[0].active);
}

#[test]
fn missing_module_is_rejected_and_stays_inactive() {
    let mut o = fleet(vec![device("dev1", &[], true, &[])], vec![module("counter", &[], &["counter"])]);
    let r = o.upsert_deployment("ghostly".to_string(), vec![node(None, "ghost", "counter")]);
    assert_eq!(r, Err(SolveError::ModuleNotFound));
    let deps = o.deployments();
    assert_eq!(deps.len(), 1);
    assert!(!deps[0].active);
    assert!(deps[0].configuration.is_empty());
}

#[test]
fn device_already_hosting_the_module_is_preferred() {
    let o = fleet(
        vec![device("a-dev", &["datalist"], true, &[]), device("b-dev", &["datalist"], true, &["counter"])],
        vec![module("counter", &["datalist"], &["counter"])],
    );
    let plan = o.solve(&vec![node(None, "counter", "counter")]).ok().unwrap();
    assert_eq!(plan.len(), 1);
    assert_eq!(plan[0].0, "b-dev");
}

#[test]
fn ties_are_broken_by_device_name() {
    let o = fleet(
        vec![device("b-dev", &["datalist"], true, &[]), device("a-dev", &["datalist"], true, &[])],
        vec![module("counter", &["datalist"], &["counter"])],
    );
    let plan = o.solve(&vec![node(None, "counter", "counter")]).ok().unwrap();
    assert_eq!(plan[0].0, "a-dev");
}

#[test]
fn unsuitable_devices_are_skipped() {
    let o = fleet(
        vec![
            device("a-dev", &["camera"], true, &["counter"]),
            device("b-dev", &["datalist"], false, &[]),
            device("c-dev", &["datalist", "camera"], true, &[]),
        ],
        vec![module("counter", &["datalist"], &["counter"])],
    );
    let plan = o.solve(&vec![node(None, "counter", "counter")]).ok().unwrap();
    assert_eq!(plan[0].0, "c-dev");
}

#[test]
fn solver_errors() {
    let o = fleet(
        vec![device("up", &["datalist"], true, &[]), device("down", &["datalist"], false, &[])],
        vec![module("counter", &["datalist"], &["counter"]), module("camera", &["lens"], &["take"])],
    );
    assert_eq!(o.solve(&vec![node(None, "counter", "nope")]).err(), Some(SolveError::FunctionNotFound));
    assert_eq!(o.solve(&vec![node(Some("down"), "counter", "counter")]).err(), Some(SolveError::DeviceUnavailable));
    assert_eq!(o.solve(&vec![node(Some("absent"), "counter", "counter")]).err(), Some(SolveError::DeviceUnavailable));
    assert_eq!(o.solve(&vec![node(None, "camera", "take")]).err(), Some(SolveError::NoSuitableDevice));
    // The first failing step decides the error.
    assert_eq!(
        o.solve(&vec![node(None, "camera", "take"), node(None, "ghost", "x")]).err(),
        Some(SolveError::NoSuitableDevice)
    );
}

#[test]
fn pinned_steps_on_two_devices_get_a_connection() {
    let o = fleet(
        vec![device("cam", &[], true, &[]), device("srv", &[], true, &[])],
        vec![module("camera", &[], &["take"]), module("store", &[], &["save"])],
    );
    let manifest = vec![node(Some("cam"), "camera", "take"), node(Some("srv"), "store", "save")];
    let plan = o.solve(&manifest).ok().unwrap();
    assert_eq!(plan.len(), 2);
    assert_eq!(plan[0].0, "cam");
    assert_eq!(plan[1].0, "srv");
    assert_eq!(plan[0].1.connections.len(), 1);
    assert_eq!(plan[0].1.connections[0].0, "save");
    assert_eq!(plan[0].1.connections[0].1.input, vec![WebAssemblyType::U32]);
    assert_eq!(plan[0].1.connections[0].1.output, vec![WebAssemblyType::U64]);
    assert!(plan[1].1.connections.is_empty());
}

#[test]
fn steps_on_one_device_share_its_configuration() {
    let o = fleet(vec![device("only", &[], true, &[])], vec![module("camera", &[], &["take", "scale"])]);
    let manifest = vec![node(None, "camera", "take"), node(None, "camera", "scale")];
    let plan = o.solve(&manifest).ok().unwrap();
    assert_eq!(plan.len(), 1);
    assert_eq!(module_names(&plan[0].1), vec!["camera".to_string()]);
    assert!(plan[0].1.connections.is_empty());
}

#[test]
fn solving_twice_gives_the_same_plan() {
    let devices = vec![device("a", &["x"], true, &[]), device("b", &["x"], true, &["m"])];
    let modules = vec![module("m", &["x"], &["f", "g"])];
    let manifest = vec![node(None, "m", "f"), node(Some("a"), "m", "g")];
    let first = solve(&manifest, &devices, &modules).ok().unwrap();
    let second = solve(&manifest, &devices, &modules).ok().unwrap();
    assert_eq!(first.len(), second.len());
    for (x, y) in first.iter().zip(second.iter()) {
        assert_eq!(x.0, y.0);
        assert_eq!(x.1.modules, y.1.modules);
        assert_eq!(x.1.connections.len(), y.1.connections.len());
    }
    assert_eq!(first[0].0, "b");
    assert_eq!(first[1].0, "a");
    assert_eq!(first[0].1.connections[0].0, "g");
}

#[test]
fn deploy_reports_devices_that_did_not_acknowledge() {
    let mut o = fleet(
        vec![device("cam", &[], true, &[]), device("srv", &[], true, &[])],
        vec![module("camera", &[], &["take"]), module("store", &[], &["save"])],
    );
    let manifest = vec![node(Some("cam"), "camera", "take"), node(Some("srv"), "store", "save")];
    assert!(o.upsert_deployment("pipe".to_string(), manifest).is_ok());
    match o.deploy(&"pipe".to_string(), &vec!["cam".to_string()]) {
        Err(DeployError::Unacknowledged(devices)) => assert_eq!(devices, vec!["srv".to_string()]),
        _ => panic!("expected the missing acknowledgement to be reported"),
    }
    assert!(!o.deployments()[0].active);
    assert!(o.deploy(&"pipe".to_string(), &vec!["srv".to_string(), "cam".to_string()]).is_ok());
    assert!(o.deployments()[0].active);
    assert!(matches!(o.deploy(&"other".to_string(), &vec![]), Err(DeployError::UnknownDeployment)));
}

#[test]
fn resubmitting_a_manifest_deactivates_until_redeployed() {
    let mut o = fleet(vec![device("dev1", &[], true, &[])], vec![module("counter", &[], &["counter"])]);
    let manifest = vec![node(None, "counter", "counter")];
    assert!(o.upsert_deployment("count".to_string(), manifest).is_ok());
    assert!(o.deploy(&"count".to_string(), &vec!["dev1".to_string()]).is_ok());
    assert!(o.upsert_deployment("count".to_string(), vec![node(None, "counter", "counter")]).is_ok());
    assert_eq!(o.deployments().len(), 1);
    assert!(!o.deployments()[0].active);
}

#[test]
fn modules_in_use_cannot_be_replaced() {
    let mut o = fleet(vec![device("dev1", &[], true, &[])], vec![module("counter", &[], &["counter"])]);
    assert!(o.upsert_deployment("count".to_string(), vec![node(None, "counter", "counter")]).is_ok());
    // Not active yet: the module may still change.
    assert!(o.upsert_module(module("counter", &[], &["counter", "reset"])).is_ok());
    assert!(o.deploy(&"count".to_string(), &vec!["dev1".to_string()]).is_ok());
    assert_eq!(o.upsert_module(module("counter", &[], &["counter"])), Err(PlaceholderError));
    assert_eq!(o.modules().len(), 1);
    assert!(o.upsert_module(module("other", &[], &["f"])).is_ok());
    assert_eq!(o.modules().len(), 2);
}

#[test]
fn scan_adds_two_devices_once() {
    let mut o = WasmiotOrchestrator::new();
    let found = || {
        vec![
            Device::discovered("a._webthing._tcp.local.".to_string(), vec!["datalist".to_string()]),
            Device::discovered("b._webthing._tcp.local.".to_string(), vec![]),
        ]
    };
    assert_eq!(o.scan(found()), 2);
    assert_eq!(o.devices().len(), 2);
    assert_eq!(o.scan(found()), 0);
    let ds = o.devices();
    assert_eq!(ds.len(), 2);
    assert_eq!(ds[0].name, "a._webthing._tcp.local.");
    assert_eq!(ds[1].name, "b._webthing._tcp.local.");
}

#[test]
fn rescanning_keeps_hosted_modules_and_refreshes_health() {
    let mut o = WasmiotOrchestrator::new();
    let mut d = device("dev1", &["old"], false, &["counter"]);
    d.modules = vec!["counter".to_string()];
    assert_eq!(o.scan(vec![d]), 1);
    assert_eq!(o.scan(vec![Device::discovered("dev1".to_string(), vec!["new".to_string()])]), 0);
    let ds = o.devices();
    assert!(ds[0].health.up);
    assert_eq!(ds[0].description.interfaces, vec!["new".to_string()]);
    assert_eq!(ds[0].modules, vec!["counter".to_string()]);
}

#[test]
fn events_lead_to_actions() {
    let mut o = fleet(vec![device("dev1", &[], true, &[])], vec![module("counter", &[], &["counter"])]);
    assert!(matches!(o.handle(Event::Scan("_webthing._tcp.local.".to_string())), Action::Discover(s) if s == "_webthing._tcp.local."));
    match o.handle(Event::Manifest("count".to_string(), vec![node(None, "counter", "counter")])) {
        Action::Deploy(n, plan) => {
            assert_eq!(n, "count");
            assert_eq!(plan.len(), 1);
            assert_eq!(plan[0].0, "dev1");
            assert_eq!(module_names(&plan[0].1), vec!["counter".to_string()]);
        }
        _ => panic!("expected the deployment to be pushed"),
    }
    assert!(matches!(
        o.handle(Event::Manifest("bad".to_string(), vec![node(None, "ghost", "counter")])),
        Action::Rejected(n, SolveError::ModuleNotFound) if n == "bad"
    ));
    assert_eq!(o.deployments().len(), 2);
    let (tx, _rx) = std::sync::mpsc::channel();
    match o.handle(Event::Devices(tx)) {
        Action::AnswerDevices(_, ds) => {
            assert_eq!(ds.len(), 1);
            assert_eq!(ds[0].name, "dev1");
        }
        _ => panic!("expected the devices to be answered"),
    }
    let (tx, _rx) = std::sync::mpsc::channel();
    match o.handle(Event::Deployments(tx)) {
        Action::AnswerDeployments(_, ds) => {
            assert_eq!(ds.len(), 2);
            assert_eq!(ds[0].name, "count");
            assert_eq!(ds[1].name, "bad");
        }
        _ => panic!("expected the deployments to be answered"),
    }
    let (tx, _rx) = std::sync::mpsc::channel();
    assert!(matches!(
        o.handle(Event::ScanAndReport("_webthing._tcp.local.".to_string(), tx)),
        Action::DiscoverAndReport(s, _) if s == "_webthing._tcp.local."
    ));
    assert!(matches!(o.handle(Event::Shutdown), Action::Stop));
}

#[test]
fn facade_queues_events() {
    let (tx, rx) = std::sync::mpsc::channel();
    let api = OrchestratorApi::new(tx);
    let other = api.clone();
    assert!(other.scan("_webthing._tcp.local.").is_ok());
    assert_eq!(api.create_deployment("count".to_string(), vec![node(None, "counter", "counter")]).ok(), Some("count".to_string()));
    assert!(api.update_deployment("count", vec![]).is_ok());
    assert!(api.shutdown().is_ok());
    assert!(matches!(rx.recv().unwrap(), Event::Scan(s) if s == "_webthing._tcp.local."));
    assert!(matches!(rx.recv().unwrap(), Event::Manifest(n, m) if n == "count" && m.len() == 1));
    assert!(matches!(rx.recv().unwrap(), Event::Manifest(n, m) if n == "count" && m.is_empty()));
    assert!(matches!(rx.recv().unwrap(), Event::Shutdown));
}

#[test]
fn facade_queries_answer_empty_once_the_loop_is_gone() {
    let (tx, rx) = std::sync::mpsc::channel();
    drop(rx);
    let api = OrchestratorApi::new(tx);
    assert!(api.devices().is_none());
    assert!(api.deployments().is_none());
    assert!(api.scan_and_wait("_http._tcp.local.").is_none());
    assert!(matches!(api.create_deployment("d".to_string(), vec![]), Err(Event::Manifest(n, m)) if n == "d" && m.is_empty()));
    assert!(matches!(api.scan("_http._tcp.local."), Err(Event::Scan(s)) if s == "_http._tcp.local."));
    assert!(matches!(api.update_deployment("d", vec![]), Err(Event::Manifest(n, m)) if n == "d" && m.is_empty()));
    assert!(matches!(api.shutdown(), Err(Event::Shutdown)));
}

#[test]
fn event_builders() {
    assert!(matches!(scan_event("_webthing._tcp.local."), Event::Scan(s) if s == "_webthing._tcp.local."));
    assert!(matches!(manifest_event("d".to_string(), vec![node(None, "m", "f")]), Event::Manifest(n, m) if n == "d" && m.len() == 1));
    assert!(matches!(shutdown_event(), Event::Shutdown));
}

#[test]
fn deployment_whose_solve_failed_is_never_activated() {
    let mut o = fleet(vec![device("dev1", &[], true, &[])], vec![module("counter", &[], &["counter"])]);
    assert!(o.upsert_deployment("ghostly".to_string(), vec![node(None, "ghost", "f")]).is_err());
    assert!(matches!(o.deploy(&"ghostly".to_string(), &vec!["dev1".to_string()]), Err(DeployError::Unsolved)));
    assert!(!o.deployments()[0].active);
    // An empty manifest needs nothing pushed.
    assert!(o.upsert_deployment("empty".to_string(), vec![]).is_ok());
    assert!(o.deploy(&"empty".to_string(), &vec![]).is_ok());
    assert!(o.deployments()[1].active);
}

#[test]
fn supervisor_keeps_queued_invocations_in_its_history() {
    let mut s = HttpSupervisor::new(device("dev1", &[], true, &[]));
    let exec = ("count".to_string(), "counter".to_string(), "counter".to_string());
    let out = s.execute(exec.clone(), vec![WebAssemblyValue::U32(1)], Ok(ExecutionResponse::Output(vec![WebAssemblyValue::U64(2)])));
    assert!(matches!(out, Ok(ExecutionResponse::Output(v)) if v == vec![WebAssemblyValue::U64(2)]));
    assert!(s.history().is_empty());
    let queued = s.execute(
        exec.clone(),
        vec![WebAssemblyValue::F32(1.5f32.to_bits())],
        Ok(ExecutionResponse::Queued((exec.clone(), "2024-01-01T00:00:00Z".to_string()))),
    );
    assert!(matches!(queued, Ok(ExecutionResponse::Queued(_))));
    assert!(s.execute(exec.clone(), vec![], Err(PlaceholderError)).is_err());
    let h = s.history();
    assert_eq!(h.len(), 1);
    assert_eq!(h[0].id.0, exec);
    assert_eq!(h[0].id.1, "2024-01-01T00:00:00Z");
    assert_eq!(h[0].datetime, "2024-01-01T00:00:00Z");
    assert_eq!(h[0].arguments, vec![WebAssemblyValue::F32(1.5f32.to_bits())]);
}

#[test]
fn redeploying_to_a_supervisor_changes_nothing() {
    let mut s = HttpSupervisor::new(device("dev1", &["datalist"], true, &[]));
    let cfg = DeviceConfiguration {
        modules: vec![("counter".to_string(), "http://orchestrator/file/module/counter".to_string())],
        connections: vec![],
    };
    assert!(s.deploy(&"count".to_string(), &cfg, true).is_ok());
    assert_eq!(s.deployed_count(), 1);
    assert!(s.deploy(&"count".to_string(), &cfg, true).is_ok());
    assert_eq!(s.deployed_count(), 1);
    assert_eq!(s.configuration("count").unwrap().modules, cfg.modules);
    assert_eq!(s.deploy(&"other".to_string(), &cfg, false), Err(PlaceholderError));
    assert_eq!(s.deployed_count(), 1);
    assert!(s.configuration("other").is_none());
}

#[test]
fn supervisor_health_and_description() {
    let mut s = HttpSupervisor::new(device("dev1", &["datalist"], true, &[]));
    assert_eq!(s.description().interfaces, vec!["datalist".to_string()]);
    assert!(s.health().up);
    s.record_health(None);
    assert!(!s.health().up);
    s.record_health(Some(DeviceHealth { up: true }));
    assert!(s.health().up);
    assert_eq!(s.device().name, "dev1");
}

#[test]
fn deployed_devices_then_host_their_modules() {
    let mut o = fleet(
        vec![device("a-dev", &["datalist"], true, &[]), device("b-dev", &["datalist"], true, &[])],
        vec![module("counter", &["datalist"], &["counter"])],
    );
    assert!(o.upsert_deployment("first".to_string(), vec![node(Some("b-dev"), "counter", "counter")]).is_ok());
    // Without acknowledgement nothing is recorded.
    assert!(o.deploy(&"first".to_string(), &vec![]).is_err());
    assert!(o.devices()[1].modules.is_empty());
    assert!(o.deploy(&"first".to_string(), &vec!["b-dev".to_string()]).is_ok());
    assert!(o.devices()[0].modules.is_empty());
    assert_eq!(o.devices()[1].modules, vec!["counter".to_string()]);
    let plan = o.solve(&vec![node(None, "counter", "counter")]).ok().unwrap();
    assert_eq!(plan[0].0, "b-dev");
}

#[test]
fn unanswered_health_probe_marks_the_device_down() {
    let mut o = fleet(
        vec![device("a-dev", &["datalist"], true, &[]), device("b-dev", &["datalist"], true, &[])],
        vec![module("counter", &["datalist"], &["counter"])],
    );
    assert!(o.record_health("a-dev", None));
    assert!(!o.devices()[0].health.up);
    assert!(o.devices()[1].health.up);
    assert_eq!(o.devices().len(), 2);
    let plan = o.solve(&vec![node(None, "counter", "counter")]).ok().unwrap();
    assert_eq!(plan[0].0, "b-dev");
    assert!(o.record_health("a-dev", Some(DeviceHealth { up: true })));
    assert!(o.devices()[0].health.up);
    assert!(!o.record_health("ghost", None));
    assert_eq!(o.devices().len(), 2);
}

#[test]
fn queued_reply_for_another_execution_is_a_failure() {
    let mut s = HttpSupervisor::new(device("dev1", &[], true, &[]));
    let exec = ("count".to_string(), "counter".to_string(), "counter".to_string());
    let other = ("count".to_string(), "counter".to_string(), "reset".to_string());
    let r = s.execute(exec, vec![WebAssemblyValue::U32(1)], Ok(ExecutionResponse::Queued((other, "t".to_string()))));
    assert_eq!(r.err(), Some(PlaceholderError));
    assert!(s.history().is_empty());
}

#[test]
fn configuration_text_lists_modules_then_connections() {
    let cfg = DeviceConfiguration {
        modules: vec![
            ("camera".to_string(), "http://o/module/camera".to_string()),
            ("store".to_string(), "http://o/module/store".to_string()),
        ],
        connections: vec![(
            "save".to_string(),
            signature(vec![WebAssemblyType::U32, WebAssemblyType::F64], vec![WebAssemblyType::U64]),
        )],
    };
    assert_eq!(
        configuration_text(&cfg),
        "module camera http://o/module/camera\nmodule store http://o/module/store\nconnection save (u32,f64) -> (u64)\n"
    );
    let empty = DeviceConfiguration { modules: vec![], connections: vec![("f".to_string(), signature(vec![], vec![]))] };
    assert_eq!(configuration_text(&empty), "connection f () -> ()\n");
}
