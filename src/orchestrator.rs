//! The orchestrator's state and the decisions of its event loop. The loop itself, which waits on
//! the network, runs outside: it hands each event to `WasmiotOrchestrator::handle` and performs
//! the action that comes back.
use vstd::prelude::*;
use crate::model::{
    devices_view, entries_view, manifest_view, modules_view, strings_view, copy_plan, copy_strings,
    ConfigurationView, Deployment, DeploymentView, Device, DeviceView, ManifestNode, Module, NodeView,
    DeploymentConfiguration, DeviceHealth, PlaceholderError,
};
use crate::solver::{contains_string, solution, solve, well_keyed, SolveError};
use crate::store::{lemma_strings_index, put_keys, put_values, strings_index, KeyValueStore};
use crate::discovery::{device_names, scanned};
use std::sync::mpsc::{Receiver, Sender};

verus! {

/// Requests to the orchestrator, handled one at a time in arrival order.
pub enum Event {
    /// Look for devices offering this service type.
    Scan(String),
    /// Look for devices offering this service type, and answer with how many were new, or why
    /// the discovery could not start.
    ScanAndReport(String, Sender<Result<usize, String>>),
    /// Submit or update the deployment of this name with this manifest.
    Manifest(String, Vec<ManifestNode>),
    /// Answer with copies of the known devices.
    Devices(Sender<Vec<Device>>),
    /// Answer with copies of the known deployments.
    Deployments(Sender<Vec<Deployment>>),
    /// Stop handling events.
    Shutdown,
}

/// What the event loop does after an event.
pub enum Action {
    /// Run a discovery session for this service type, and hand the result to `scan`.
    Discover(String),
    /// As `Discover`, then answer with what `scan` returned, or with why the session could not
    /// start.
    DiscoverAndReport(String, Sender<Result<usize, String>>),
    /// Push each device's configuration of this deployment to the device, and hand the devices
    /// that acknowledged to `deploy`.
    Deploy(String, DeploymentConfiguration),
    /// The manifest of this deployment cannot be realised; report the error to its submitter.
    Rejected(String, SolveError),
    /// Answer a query with these copies of the known devices.
    AnswerDevices(Sender<Vec<Device>>, Vec<Device>),
    /// Answer a query with these copies of the known deployments.
    AnswerDeployments(Sender<Vec<Deployment>>, Vec<Deployment>),
    /// Leave the loop.
    Stop,
}

/// Why a solved deployment could not be activated.
pub enum DeployError {
    /// No deployment has the name.
    UnknownDeployment,
    /// These devices of the configuration did not acknowledge their configuration.
    Unacknowledged(Vec<String>),
    /// The deployment's manifest has steps but could not be solved: there is nothing to push.
    Unsolved,
}

/// A deployment whose manifest has steps but which has no configuration: its solve failed (a
/// manifest with steps that solves always configures a device, see
/// `solver::lemma_solved_plan_nonempty`).
pub open spec fn unsolved(d: DeploymentView) -> bool {
    d.manifest.len() > 0 && d.configuration.len() == 0
}

pub open spec fn deployments_view(s: Seq<Deployment>) -> Seq<DeploymentView> {
    s.map_values(|d: Deployment| d@)
}

/// The event that asks the loop to look for devices offering `service_type`.
pub fn scan_event(service_type: &str) -> (r: Event)
    ensures
        r matches Event::Scan(s) && s@ == service_type@,
{
    Event::Scan(service_type.to_owned())
}

/// The event that submits `manifest` as the deployment `name`.
pub fn manifest_event(name: String, manifest: Vec<ManifestNode>) -> (r: Event)
    ensures
        r matches Event::Manifest(n, m) && n == name && m == manifest,
{
    Event::Manifest(name, manifest)
}

/// The event that stops the loop.
pub fn shutdown_event() -> (r: Event)
    ensures
        r is Shutdown,
{
    Event::Shutdown
}

/// The devices of `devs` that are not in `acks`, in order.
pub open spec fn missing_acks(devs: Seq<Seq<char>>, acks: Seq<Seq<char>>) -> Seq<Seq<char>>
    decreases devs.len(),
{
    if devs.len() == 0 {
        seq![]
    } else if acks.contains(devs.last()) {
        missing_acks(devs.drop_last(), acks)
    } else {
        missing_acks(devs.drop_last(), acks).push(devs.last())
    }
}

/// Every device that `plan` configures is in `acks`.
pub open spec fn all_acknowledged(plan: Seq<(Seq<char>, ConfigurationView)>, acks: Seq<Seq<char>>) -> bool {
    forall|j: int| 0 <= j < plan.len() ==> acks.contains(#[trigger] plan[j].0)
}

/// The devices that a plan configures, in order.
pub open spec fn plan_devices(plan: Seq<(Seq<char>, ConfigurationView)>) -> Seq<Seq<char>> {
    plan.map_values(|e: (Seq<char>, ConfigurationView)| e.0)
}

/// `missing_acks` holds exactly the devices that did not acknowledge.
pub proof fn lemma_missing_acks(devs: Seq<Seq<char>>, acks: Seq<Seq<char>>)
    ensures
        forall|x: Seq<char>| #[trigger] missing_acks(devs, acks).contains(x) <==> devs.contains(x) && !acks.contains(x),
        missing_acks(devs, acks).len() == 0 <==> forall|j: int| 0 <= j < devs.len() ==> acks.contains(#[trigger] devs[j]),
    decreases devs.len(),
{
    if devs.len() > 0 {
        let rest = devs.drop_last();
        lemma_missing_acks(rest, acks);
        let mr = missing_acks(rest, acks);
        let md = missing_acks(devs, acks);
        assert forall|x: Seq<char>| #[trigger] md.contains(x) <==> devs.contains(x) && !acks.contains(x) by {
            if devs.contains(x) && !acks.contains(x) {
                let j = choose|j: int| 0 <= j < devs.len() && devs[j] == x;
                if j < devs.len() - 1 {
                    assert(rest[j] == x);
                    assert(rest.contains(x));
                    assert(mr.contains(x));
                    let k = choose|k: int| 0 <= k < mr.len() && mr[k] == x;
                    assert(md[k] == x);
                } else {
                    assert(md == mr.push(x));
                    assert(md[mr.len() as int] == x);
                }
            }
            if md.contains(x) {
                let k = choose|k: int| 0 <= k < md.len() && md[k] == x;
                if k < mr.len() {
                    assert(mr[k] == x);
                    assert(mr.contains(x));
                    let j = choose|j: int| 0 <= j < rest.len() && rest[j] == x;
                    assert(devs[j] == x);
                } else {
                    assert(devs[devs.len() - 1] == x);
                }
            }
        }
        if missing_acks(devs, acks).len() == 0 {
            assert forall|j: int| 0 <= j < devs.len() implies acks.contains(#[trigger] devs[j]) by {
                if j < devs.len() - 1 {
                    assert(rest[j] == devs[j]);
                }
            }
        } else {
            if missing_acks(rest, acks).len() > 0 {
                let x = missing_acks(rest, acks)[0];
                assert(missing_acks(rest, acks).contains(x));
                let j = choose|j: int| 0 <= j < rest.len() && rest[j] == x && !acks.contains(x);
                assert(devs[j] == rest[j]);
            }
        }
    }
}

/// A deployment's devices all acknowledged exactly when none is missing, and the missing ones
/// are exactly the devices of the plan that did not acknowledge.
pub proof fn lemma_missing_acks_plan(plan: Seq<(Seq<char>, ConfigurationView)>, acks: Seq<Seq<char>>)
    ensures
        missing_acks(plan_devices(plan), acks).len() == 0 <==> all_acknowledged(plan, acks),
        forall|x: Seq<char>| #[trigger] missing_acks(plan_devices(plan), acks).contains(x)
            <==> plan_devices(plan).contains(x) && !acks.contains(x),
{
    let devs = plan_devices(plan);
    lemma_missing_acks(devs, acks);
    assert forall|k: int| 0 <= k < plan.len() implies #[trigger] plan[k].0 == devs[k] by {}
    if missing_acks(devs, acks).len() == 0 {
        assert forall|k: int| 0 <= k < plan.len() implies acks.contains(#[trigger] plan[k].0) by {
            assert(acks.contains(devs[k]));
        }
    }
    if all_acknowledged(plan, acks) {
        assert forall|k: int| 0 <= k < devs.len() implies acks.contains(#[trigger] devs[k]) by {
            assert(acks.contains(plan[k].0));
        }
    }
}

/// The fleet state: devices, modules and deployments, each stored under its name.
pub struct WasmiotOrchestrator {
    device_records: KeyValueStore<Device>,
    module_records: KeyValueStore<Module>,
    deployment_records: KeyValueStore<Deployment>,
}

/// A module is in use while an active deployment has a step of it.
pub open spec fn in_use(deployments: Seq<Deployment>, module: Seq<char>) -> bool {
    exists|i: int, j: int|
        0 <= i < deployments.len() && deployments[i].active && 0 <= j < deployments[i].manifest@.len()
            && #[trigger] deployments[i].manifest@[j].module@ == module
}

/// What the solver makes of `manifest` on the devices and modules of `o`.
pub open spec fn submission_solution(o: WasmiotOrchestrator, manifest: Seq<NodeView>) -> Result<Seq<(Seq<char>, ConfigurationView)>, SolveError> {
    solution(manifest, o.device_views(), modules_view(o.module_store().values()))
}

/// `after` is `before` with deployment `name` stored, inactive, with `manifest` and the solved
/// configuration, or an empty configuration where the solver fails.
pub open spec fn records_submission(before: WasmiotOrchestrator, after: WasmiotOrchestrator, name: Seq<char>, manifest: Seq<NodeView>) -> bool {
    let sol = submission_solution(before, manifest);
    &&& after.device_store() == before.device_store()
    &&& after.module_store() == before.module_store()
    &&& after.deployment_store().keys() == put_keys(before.deployment_store().keys(), name)
    &&& forall|k: Seq<char>| k != name ==> #[trigger] after.deployment_store().get(k) == before.deployment_store().get(k)
    &&& after.deployment_store().get(name) matches Some(d) && d@ == DeploymentView {
        name,
        active: false,
        manifest,
        configuration: match sol {
            Ok(plan) => plan,
            Err(_) => seq![],
        },
    }
}

/// The modules a device hosts after it fetched the modules of `fetched`: those it hosted, then
/// each new one in order.
pub open spec fn hosted_after(hosted: Seq<Seq<char>>, fetched: Seq<(Seq<char>, Seq<char>)>) -> Seq<Seq<char>>
    decreases fetched.len(),
{
    if fetched.len() == 0 {
        hosted
    } else {
        let prev = hosted_after(hosted, fetched.drop_last());
        if prev.contains(fetched.last().0) {
            prev
        } else {
            prev.push(fetched.last().0)
        }
    }
}

/// The devices after each known device of `plan` fetched its modules.
pub open spec fn hosting_after(ds: Seq<DeviceView>, plan: Seq<(Seq<char>, ConfigurationView)>) -> Seq<DeviceView>
    decreases plan.len(),
{
    if plan.len() == 0 {
        ds
    } else {
        let prev = hosting_after(ds, plan.drop_last());
        let e = plan.last();
        match strings_index(device_names(prev), e.0) {
            Some(i) => prev.update(i, DeviceView { modules: hosted_after(prev[i].modules, e.1.modules), ..prev[i] }),
            None => prev,
        }
    }
}

/// A store of devices, each under its name.
pub open spec fn named_devices(s: KeyValueStore<Device>) -> bool {
    &&& s.wf()
    &&& forall|i: int| 0 <= i < s.keys().len() ==> #[trigger] s.keys()[i] == s.values()[i].name@
}

fn hosted_modules(hosted: &Vec<String>, fetched: &Vec<(String, String)>) -> (r: Vec<String>)
    ensures
        strings_view(r@) == hosted_after(strings_view(hosted@), entries_view(fetched@)),
{
    let mut r = copy_strings(hosted);
    let ghost fv = entries_view(fetched@);
    let mut i: usize = 0;
    assert(fv.take(0) =~= seq![]);
    while i < fetched.len()
        invariant
            i <= fetched.len(),
            fv == entries_view(fetched@),
            strings_view(r@) == hosted_after(strings_view(hosted@), fv.take(i as int)),
        decreases fetched.len() - i,
    {
        assert(fv.take(i + 1).drop_last() =~= fv.take(i as int));
        assert(fv.take(i + 1).last().0 == fetched@[i as int].0@);
        if !contains_string(&r, &fetched[i].0) {
            let ghost before = r@;
            r.push(fetched[i].0.clone());
            assert(strings_view(r@) =~= strings_view(before).push(fetched@[i as int].0@));
        }
        i = i + 1;
    }
    assert(fv.take(i as int) =~= fv);
    r
}

/// Records that each known device of `plan` now hosts the modules it fetched.
fn record_hosting(devices: &mut KeyValueStore<Device>, plan: &DeploymentConfiguration)
    requires
        named_devices(*old(devices)),
    ensures
        named_devices(*final(devices)),
        final(devices).keys() == old(devices).keys(),
        devices_view(final(devices).values()) == hosting_after(devices_view(old(devices).values()), entries_view(plan@)),
{
    let ghost pv = entries_view(plan@);
    let mut i: usize = 0;
    while i < plan.len()
        invariant
            i <= plan.len(),
            pv == entries_view(plan@),
            named_devices(*devices),
            devices.keys() == old(devices).keys(),
            devices_view(devices.values()) == hosting_after(devices_view(old(devices).values()), pv.take(i as int)),
        decreases plan.len() - i,
    {
        assert(pv.take(i + 1).drop_last() =~= pv.take(i as int));
        assert(pv.take(i + 1).last() == pv[i as int]);
        let ghost dv = devices_view(devices.values());
        let ghost ks = devices.keys();
        proof {
            devices.lemma_wf();
            assert(ks =~= device_names(dv));
            lemma_strings_index(ks, plan@[i as int].0@);
        }
        match devices.position(plan[i].0.as_str()) {
            Some(j) => {
                let known = &devices.all()[j];
                assert(dv[j as int] == known@);
                let record = Device {
                    name: known.name.clone(),
                    description: known.description.copied(),
                    health: known.health,
                    modules: hosted_modules(&known.modules, &plan[i].1.modules),
                };
                let ghost rv = record@;
                devices.put(plan[i].0.clone(), record);
                proof {
                    devices.lemma_wf();
                    assert(devices_view(devices.values()) =~= dv.update(j as int, rv));
                }
            },
            None => {},
        }
        i = i + 1;
    }
    assert(pv.take(i as int) =~= pv);
}

impl WasmiotOrchestrator {
    pub closed spec fn device_store(&self) -> KeyValueStore<Device> {
        self.device_records
    }

    pub closed spec fn module_store(&self) -> KeyValueStore<Module> {
        self.module_records
    }

    pub closed spec fn deployment_store(&self) -> KeyValueStore<Deployment> {
        self.deployment_records
    }

    /// Every record is stored under its own name.
    pub open spec fn wf(&self) -> bool {
        &&& named_devices(self.device_store())
        &&& self.module_store().wf()
        &&& self.deployment_store().wf()
        &&& forall|i: int| 0 <= i < self.module_store().keys().len() ==> #[trigger] self.module_store().keys()[i] == self.module_store().values()[i].name@
        &&& forall|i: int| 0 <= i < self.deployment_store().keys().len() ==> #[trigger] self.deployment_store().keys()[i] == self.deployment_store().values()[i].name@
    }

    pub open spec fn device_views(&self) -> Seq<DeviceView> {
        devices_view(self.device_store().values())
    }

    pub fn new() -> (r: Self)
        ensures
            r.wf(),
            r.device_store().values().len() == 0,
            r.module_store().values().len() == 0,
            r.deployment_store().values().len() == 0,
    {
        WasmiotOrchestrator {
            device_records: KeyValueStore::new(),
            module_records: KeyValueStore::new(),
            deployment_records: KeyValueStore::new(),
        }
    }

    /// Returns the modules currently available.
    pub fn modules(&self) -> (r: Vec<&Module>)
        requires
            self.wf(),
        ensures
            KeyValueStore::<Module>::refers_to(r@, self.module_store().values()),
    {
        match self.module_records.read(None) {
            Ok(v) => v,
            Err(_) => Vec::new(),
        }
    }

    /// Returns the devices currently known.
    pub fn devices(&self) -> (r: Vec<&Device>)
        requires
            self.wf(),
        ensures
            KeyValueStore::<Device>::refers_to(r@, self.device_store().values()),
    {
        match self.device_records.read(None) {
            Ok(v) => v,
            Err(_) => Vec::new(),
        }
    }

    /// Returns the deployments currently known.
    pub fn deployments(&self) -> (r: Vec<&Deployment>)
        requires
            self.wf(),
        ensures
            KeyValueStore::<Deployment>::refers_to(r@, self.deployment_store().values()),
    {
        match self.deployment_records.read(None) {
            Ok(v) => v,
            Err(_) => Vec::new(),
        }
    }

    /// Merges the devices that a discovery session resolved into the known devices, in order,
    /// deduplicated by name (see `merged`). Returns how many devices were new.
    pub fn scan(&mut self, found: Vec<Device>) -> (r: usize)
        requires
            old(self).wf(),
        ensures
            final(self).wf(),
            final(self).device_views() == scanned(old(self).device_views(), devices_view(found@)),
            r == final(self).device_store().values().len() - old(self).device_store().values().len(),
            final(self).module_store() == old(self).module_store(),
            final(self).deployment_store() == old(self).deployment_store(),
    {
        let ghost fv = devices_view(found@);
        let mut added: usize = 0;
        let mut i: usize = 0;
        while i < found.len()
            invariant
                i <= found.len(),
                fv == devices_view(found@),
                self.wf(),
                self.device_views() == scanned(old(self).device_views(), fv.take(i as int)),
                added == self.device_store().values().len() - old(self).device_store().values().len(),
                added <= i,
                self.module_store() == old(self).module_store(),
                self.deployment_store() == old(self).deployment_store(),
            decreases found.len() - i,
        {
            assert(fv.take(i + 1).drop_last() =~= fv.take(i as int));
            assert(fv.take(i + 1).last() == found@[i as int]@);
            let f = &found[i];
            proof {
                self.device_store().lemma_wf();
                assert(self.device_store().keys() =~= device_names(self.device_views()));
                lemma_strings_index(self.device_store().keys(), f.name@);
            }
            let ghost before = self.device_store();
            let ghost dv = self.device_views();
            let n_before = self.device_records.len();
            let record = match self.device_records.position(f.name.as_str()) {
                Some(j) => {
                    let known = &self.device_records.all()[j];
                    assert(dv[j as int] == known@);
                    Device {
                        name: f.name.clone(),
                        description: f.description.copied(),
                        health: f.health,
                        modules: copy_strings(&known.modules),
                    }
                },
                None => f.copied(),
            };
            let ghost rv = record@;
            self.device_records.put(f.name.clone(), record);
            proof {
                self.device_store().lemma_wf();
                let names = device_names(dv);
                match strings_index(names, f.name@) {
                    Some(j) => {
                        assert(self.device_views() =~= dv.update(j, rv));
                    },
                    None => {
                        assert(self.device_views() =~= dv.push(rv));
                    },
                }
                assert forall|k: int| 0 <= k < self.device_store().keys().len() implies #[trigger] self.device_store().keys()[k] == self.device_store().values()[k].name@ by {
                    if k < before.keys().len() {
                        assert(self.device_store().keys()[k] == before.keys()[k]);
                    }
                }
            }
            if self.device_records.len() > n_before {
                added = added + 1;
            }
            i = i + 1;
        }
        assert(fv.take(i as int) =~= fv);
        added
    }

    /// Records the answer to a health probe of device `name`; no answer within the probe's time
    /// limit marks the device down. Returns whether the device is known; an unknown one changes
    /// nothing.
    pub fn record_health(&mut self, name: &str, reply: Option<DeviceHealth>) -> (r: bool)
        requires
            old(self).wf(),
        ensures
            final(self).wf(),
            final(self).module_store() == old(self).module_store(),
            final(self).deployment_store() == old(self).deployment_store(),
            final(self).device_store().keys() == old(self).device_store().keys(),
            match strings_index(device_names(old(self).device_views()), name@) {
                Some(i) => r && final(self).device_views() == old(self).device_views().update(i, DeviceView {
                    up: match reply {
                        Some(h) => h.up,
                        None => false,
                    },
                    ..old(self).device_views()[i]
                }),
                None => !r && final(self).device_store() == old(self).device_store(),
            },
    {
        proof {
            self.device_store().lemma_wf();
            assert(self.device_store().keys() =~= device_names(self.device_views()));
            lemma_strings_index(self.device_store().keys(), name@);
        }
        let ghost dv = self.device_views();
        match self.device_records.position(name) {
            Some(j) => {
                let known = &self.device_records.all()[j];
                assert(dv[j as int] == known@);
                let record = Device {
                    name: known.name.clone(),
                    description: known.description.copied(),
                    health: match reply {
                        Some(h) => h,
                        None => DeviceHealth { up: false },
                    },
                    modules: copy_strings(&known.modules),
                };
                let ghost rv = record@;
                let key = known.name.clone();
                self.device_records.put(key, record);
                proof {
                    self.device_store().lemma_wf();
                    assert(self.device_views() =~= dv.update(j as int, rv));
                }
                true
            },
            None => false,
        }
    }

    /// Solves `manifest` against the current devices and modules.
    pub fn solve(&self, manifest: &Vec<ManifestNode>) -> (r: Result<DeploymentConfiguration, SolveError>)
        ensures
            match r {
                Ok(plan) => solution(manifest_view(manifest@), self.device_views(), modules_view(self.module_store().values()))
                    == Ok::<Seq<(Seq<char>, ConfigurationView)>, SolveError>(entries_view(plan@)),
                Err(e) => solution(manifest_view(manifest@), self.device_views(), modules_view(self.module_store().values()))
                    == Err::<Seq<(Seq<char>, ConfigurationView)>, SolveError>(e),
            },
            r matches Ok(plan) ==> well_keyed(entries_view(plan@)),
    {
        solve(manifest, self.device_records.all(), self.module_records.all())
    }

    fn module_in_use(&self, module: &String) -> (r: bool)
        ensures
            r == in_use(self.deployment_store().values(), module@),
    {
        let ds = self.deployment_records.all();
        let mut i: usize = 0;
        while i < ds.len()
            invariant
                ds@ == self.deployment_store().values(),
                i <= ds.len(),
                !exists|a: int, j: int|
                    0 <= a < i && ds@[a].active && 0 <= j < ds@[a].manifest@.len()
                        && #[trigger] ds@[a].manifest@[j].module@ == module@,
            decreases ds.len() - i,
        {
            if ds[i].active {
                let m = &ds[i].manifest;
                let mut j: usize = 0;
                while j < m.len()
                    invariant
                        ds@ == self.deployment_store().values(),
                        i < ds.len(),
                        ds@[i as int].active,
                        m@ == ds@[i as int].manifest@,
                        j <= m.len(),
                        forall|b: int| 0 <= b < j ==> #[trigger] m@[b].module@ != module@,
                    decreases m.len() - j,
                {
                    if m[j].module == *module {
                        assert(ds@[i as int].manifest@[j as int].module@ == module@);
                        return true;
                    }
                    j = j + 1;
                }
            }
            i = i + 1;
        }
        false
    }

    /// Stores `module` under its name, replacing a module of that name. A module that an active
    /// deployment uses is not replaced: the call fails and changes nothing.
    pub fn upsert_module(&mut self, module: Module) -> (r: Result<(), PlaceholderError>)
        requires
            old(self).wf(),
        ensures
            final(self).wf(),
            r is Err <==> in_use(old(self).deployment_store().values(), module.name@),
            r is Err ==> *final(self) == *old(self),
            r is Ok ==> {
                &&& final(self).module_store().keys() == put_keys(old(self).module_store().keys(), module.name@)
                &&& final(self).module_store().values() == put_values(old(self).module_store().keys(), old(self).module_store().values(), module.name@, module)
                &&& final(self).device_store() == old(self).device_store()
                &&& final(self).deployment_store() == old(self).deployment_store()
            },
    {
        if self.module_in_use(&module.name) {
            return Err(PlaceholderError);
        }
        proof {
            self.module_store().lemma_wf();
            lemma_strings_index(self.module_store().keys(), module.name@);
        }
        let ghost before = self.module_store().keys();
        let ghost vals = self.module_store().values();
        let ghost name = module.name@;
        self.module_records.put(module.name.clone(), module);
        proof {
            self.module_store().lemma_wf();
            assert forall|i: int| 0 <= i < self.module_store().keys().len() implies #[trigger] self.module_store().keys()[i] == self.module_store().values()[i].name@ by {
                if i < before.len() {
                    assert(self.module_store().keys()[i] == before[i]);
                }
            }
        }
        Ok(())
    }

    /// Solves `manifest` and stores the deployment `name` with it, inactive: with the solved
    /// configuration where the solver succeeds, else with an empty configuration and the
    /// solver's error.
    pub fn upsert_deployment(&mut self, name: String, manifest: Vec<ManifestNode>) -> (r: Result<(), SolveError>)
        requires
            old(self).wf(),
        ensures
            final(self).wf(),
            records_submission(*old(self), *final(self), name@, manifest_view(manifest@)),
            r == match submission_solution(*old(self), manifest_view(manifest@)) {
                Ok(_) => Ok::<(), SolveError>(()),
                Err(e) => Err(e),
            },
    {
        let solved = self.solve(&manifest);
        let (configuration, r) = match solved {
            Ok(plan) => (plan, Ok(())),
            Err(e) => {
                let empty: DeploymentConfiguration = Vec::new();
                assert(entries_view(empty@) =~= seq![]);
                (empty, Err(e))
            },
        };
        let d = Deployment { name: name.clone(), active: false, manifest, configuration };
        self.store_deployment(name, d);
        r
    }

    /// Stores `d` under `name`, its own name.
    fn store_deployment(&mut self, name: String, d: Deployment)
        requires
            old(self).wf(),
            d.name@ == name@,
        ensures
            final(self).wf(),
            final(self).device_store() == old(self).device_store(),
            final(self).module_store() == old(self).module_store(),
            final(self).deployment_store().keys() == put_keys(old(self).deployment_store().keys(), name@),
            final(self).deployment_store().get(name@) == Some(d),
            forall|k: Seq<char>| k != name@ ==> #[trigger] final(self).deployment_store().get(k) == old(self).deployment_store().get(k),
    {
        proof {
            self.deployment_store().lemma_wf();
            lemma_strings_index(self.deployment_store().keys(), name@);
        }
        let ghost before = self.deployment_store().keys();
        self.deployment_records.put(name, d);
        proof {
            self.deployment_store().lemma_wf();
            assert forall|i: int| 0 <= i < self.deployment_store().keys().len() implies #[trigger] self.deployment_store().keys()[i] == self.deployment_store().values()[i].name@ by {
                if i < before.len() {
                    assert(self.deployment_store().keys()[i] == before[i]);
                }
            }
        }
    }

    /// Activates deployment `name` once its configuration has been pushed, given the devices
    /// that acknowledged their part. A deployment whose solve failed is never activated. The deployment becomes active exactly when every device of
    /// its configuration acknowledged, and each of those devices is then recorded as hosting the
    /// modules it fetched; otherwise it stays inactive and the error lists, in the
    /// configuration's order, the devices that did not.
    pub fn deploy(&mut self, name: &String, acknowledged: &Vec<String>) -> (r: Result<(), DeployError>)
        requires
            old(self).wf(),
        ensures
            final(self).wf(),
            final(self).module_store() == old(self).module_store(),
            final(self).device_store().keys() == old(self).device_store().keys(),
            r is Err ==> final(self).device_store() == old(self).device_store(),
            old(self).deployment_store().get(name@) matches Some(d) ==> !unsolved(d@) ==> (r is Ok ==> final(self).device_views()
                == hosting_after(old(self).device_views(), d@.configuration)),
            old(self).deployment_store().get(name@) is None ==> (r matches Err(DeployError::UnknownDeployment)
                && *final(self) == *old(self)),
            old(self).deployment_store().get(name@) matches Some(d) ==> !unsolved(d@) ==> {
                let acks = strings_view(acknowledged@);
                &&& final(self).deployment_store().keys() == old(self).deployment_store().keys()
                &&& forall|k: Seq<char>| k != name@ ==> #[trigger] final(self).deployment_store().get(k) == old(self).deployment_store().get(k)
                &&& final(self).deployment_store().get(name@) matches Some(d2)
                    && d2@ == DeploymentView { active: all_acknowledged(d@.configuration, acks), ..d@ }
                &&& (r is Ok <==> all_acknowledged(d@.configuration, acks))
                &&& r matches Err(DeployError::Unacknowledged(fs))
                    ==> strings_view(fs@) == missing_acks(plan_devices(d@.configuration), acks)
            },
            old(self).deployment_store().get(name@) is Some ==> !(r matches Err(DeployError::UnknownDeployment)),
            old(self).deployment_store().get(name@) matches Some(d) ==> unsolved(d@) ==> (r matches Err(DeployError::Unsolved)
                && *final(self) == *old(self)),
            r matches Err(DeployError::Unsolved) ==> (old(self).deployment_store().get(name@) matches Some(d) && unsolved(d@)),
    {
        let i = match self.deployment_records.position(name.as_str()) {
            Some(i) => i,
            None => return Err(DeployError::UnknownDeployment),
        };
        proof {
            self.deployment_store().lemma_wf();
            lemma_strings_index(self.deployment_store().keys(), name@);
        }
        let d = &self.deployment_records.all()[i];
        assert(self.deployment_store().get(name@) == Some(*d));
        if d.manifest.len() > 0 && d.configuration.len() == 0 {
            return Err(DeployError::Unsolved);
        }
        let plan = &d.configuration;
        let ghost devs = plan_devices(entries_view(plan@));
        let mut missing: Vec<String> = Vec::new();
        let mut j: usize = 0;
        while j < plan.len()
            invariant
                j <= plan.len(),
                devs == plan_devices(entries_view(plan@)),
                strings_view(missing@) == missing_acks(devs.take(j as int), strings_view(acknowledged@)),
            decreases plan.len() - j,
        {
            assert(devs.take(j + 1).drop_last() =~= devs.take(j as int));
            assert(devs.take(j + 1).last() == plan@[j as int].0@);
            let ghost before = missing@;
            if !contains_string(acknowledged, &plan[j].0) {
                missing.push(plan[j].0.clone());
                assert(strings_view(missing@) =~= strings_view(before).push(plan@[j as int].0@));
            }
            j = j + 1;
        }
        assert(devs.take(j as int) =~= devs);
        let ghost acks = strings_view(acknowledged@);
        proof {
            lemma_missing_acks_plan(d@.configuration, acks);
            assert(strings_view(missing@).len() == missing@.len());
        }
        if missing.len() == 0 {
            record_hosting(&mut self.device_records, &d.configuration);
        }
        let mut updated = d.copied();
        updated.active = missing.len() == 0;
        self.store_deployment(name.clone(), updated);
        proof {
            lemma_strings_index(self.deployment_store().keys(), name@);
        }
        if missing.len() == 0 {
            Ok(())
        } else {
            Err(DeployError::Unacknowledged(missing))
        }
    }
}

impl WasmiotOrchestrator {
    /// Copies of the known devices, in order.
    pub fn device_copies(&self) -> (r: Vec<Device>)
        ensures
            devices_view(r@) == self.device_views(),
    {
        let ds = self.device_records.all();
        let mut copies: Vec<Device> = Vec::new();
        let mut i: usize = 0;
        while i < ds.len()
            invariant
                i <= ds.len(),
                ds@ == self.device_store().values(),
                devices_view(copies@) == devices_view(ds@).take(i as int),
            decreases ds.len() - i,
        {
            let ghost before = copies@;
            copies.push(ds[i].copied());
            i = i + 1;
            assert(devices_view(copies@) =~= devices_view(before).push(ds@[i - 1]@));
            assert(devices_view(copies@) =~= devices_view(ds@).take(i as int));
        }
        assert(devices_view(ds@).take(i as int) =~= devices_view(ds@));
        copies
    }

    /// Copies of the known deployments, in order.
    pub fn deployment_copies(&self) -> (r: Vec<Deployment>)
        ensures
            deployments_view(r@) == deployments_view(self.deployment_store().values()),
    {
        let ds = self.deployment_records.all();
        let mut copies: Vec<Deployment> = Vec::new();
        let mut i: usize = 0;
        while i < ds.len()
            invariant
                i <= ds.len(),
                ds@ == self.deployment_store().values(),
                deployments_view(copies@) == deployments_view(ds@).take(i as int),
            decreases ds.len() - i,
        {
            let ghost before = copies@;
            copies.push(ds[i].copied());
            i = i + 1;
            assert(deployments_view(copies@) =~= deployments_view(before).push(ds@[i - 1]@));
            assert(deployments_view(copies@) =~= deployments_view(ds@).take(i as int));
        }
        assert(deployments_view(ds@).take(i as int) =~= deployments_view(ds@));
        copies
    }

    /// Decides what an event does to the state, and what the event loop does next.
    pub fn handle(&mut self, event: Event) -> (r: Action)
        requires
            old(self).wf(),
        ensures
            final(self).wf(),
            match event {
                Event::Scan(service_type) => r == Action::Discover(service_type) && *final(self) == *old(self),
                Event::ScanAndReport(service_type, tx) => (r matches Action::DiscoverAndReport(s, reply)
                    && s == service_type && reply == tx) && *final(self) == *old(self),
                Event::Manifest(name, manifest) => {
                    &&& records_submission(*old(self), *final(self), name@, manifest_view(manifest@))
                    &&& match submission_solution(*old(self), manifest_view(manifest@)) {
                        Ok(p) => (r matches Action::Deploy(n, plan) && n == name && entries_view(plan@) == p),
                        Err(e) => r == Action::Rejected(name, e),
                    }
                },
                Event::Devices(tx) => (r matches Action::AnswerDevices(reply, ds) && reply == tx
                    && devices_view(ds@) == old(self).device_views()) && *final(self) == *old(self),
                Event::Deployments(tx) => (r matches Action::AnswerDeployments(reply, ds) && reply == tx
                    && deployments_view(ds@) == deployments_view(old(self).deployment_store().values()))
                    && *final(self) == *old(self),
                Event::Shutdown => r == Action::Stop && *final(self) == *old(self),
            },
    {
        match event {
            Event::Scan(service_type) => Action::Discover(service_type),
            Event::ScanAndReport(service_type, reply) => Action::DiscoverAndReport(service_type, reply),
            Event::Manifest(name, manifest) => {
                let key = name.clone();
                let ghost mv = manifest_view(manifest@);
                match self.upsert_deployment(key, manifest) {
                    Ok(()) => {
                        proof {
                            self.deployment_store().lemma_wf();
                            lemma_strings_index(self.deployment_store().keys(), name@);
                        }
                        let plan = match self.deployment_records.position(name.as_str()) {
                            Some(i) => copy_plan(&self.deployment_records.all()[i].configuration),
                            None => Vec::new(),
                        };
                        Action::Deploy(name, plan)
                    },
                    Err(e) => Action::Rejected(name, e),
                }
            },
            Event::Devices(reply) => Action::AnswerDevices(reply, self.device_copies()),
            Event::Deployments(reply) => Action::AnswerDeployments(reply, self.deployment_copies()),
            Event::Shutdown => Action::Stop,
        }
    }
}

#[verifier::external_type_specification]
#[verifier::external_body]
#[verifier::reject_recursive_types(T)]
pub struct ExSender<T>(std::sync::mpsc::Sender<T>);

#[verifier::external_type_specification]
#[verifier::external_body]
#[verifier::reject_recursive_types(T)]
pub struct ExReceiver<T>(std::sync::mpsc::Receiver<T>);

/// Relies on the `Clone` of std::sync::mpsc::Sender, for another sender to the same queue.
pub assume_specification<T>[ <std::sync::mpsc::Sender<T> as Clone>::clone ](tx: &std::sync::mpsc::Sender<T>) -> std::sync::mpsc::Sender<T>;

/// Relies on std::sync::mpsc::channel, for a sender and receiver of a new queue.
#[verifier::external_body]
fn channel<T>() -> (Sender<T>, Receiver<T>) {
    std::sync::mpsc::channel()
}

/// Relies on std::sync::mpsc::Sender::send, to queue `v`; where the receiver is gone, the
/// value comes back in the error.
#[verifier::external_body]
fn send<T>(tx: &Sender<T>, v: T) -> (r: Result<(), T>)
    ensures
        r matches Err(w) ==> w == v,
{
    tx.send(v).map_err(|e| e.0)
}

/// Relies on std::sync::mpsc::Receiver::recv, to wait for the next value; `None` once every
/// sender is gone.
#[verifier::external_body]
fn recv<T>(rx: &Receiver<T>) -> Option<T> {
    rx.recv().ok()
}

/// A handle through which callers submit events to the orchestrator's event loop. Clones share
/// the loop's queue.
#[derive(Clone)]
pub struct OrchestratorApi {
    event_tx: Sender<Event>,
}

impl OrchestratorApi {
    pub fn new(event_tx: Sender<Event>) -> (r: Self) {
        OrchestratorApi { event_tx }
    }

    /// Queues `event` for the loop; where the loop is gone, the event comes back.
    pub fn submit(&self, event: Event) -> (r: Result<(), Event>)
        ensures
            r matches Err(e) ==> e == event,
    {
        send(&self.event_tx, event)
    }

    /// Copies of the known devices, as the loop answers them; `None` where the loop has stopped.
    pub fn devices(&self) -> Option<Vec<Device>> {
        let (tx, rx) = channel();
        if self.submit(Event::Devices(tx)).is_err() {
            return None;
        }
        recv(&rx)
    }

    /// Queues the event that asks the loop to look for devices offering `service_type`; where
    /// the loop is gone, that event comes back.
    pub fn scan(&self, service_type: &str) -> (r: Result<(), Event>)
        ensures
            r matches Err(e) ==> (e matches Event::Scan(s) && s@ == service_type@),
    {
        self.submit(scan_event(service_type))
    }

    /// Asks the loop to look for devices offering `service_type` and waits for the outcome: how
    /// many devices were new, or why the discovery could not start; `None` where the loop has
    /// stopped.
    pub fn scan_and_wait(&self, service_type: &str) -> Option<Result<usize, String>> {
        let (tx, rx) = channel();
        if self.submit(Event::ScanAndReport(service_type.to_owned(), tx)).is_err() {
            return None;
        }
        recv(&rx)
    }

    /// Copies of the known deployments, as the loop answers them; `None` where the loop has stopped.
    pub fn deployments(&self) -> Option<Vec<Deployment>> {
        let (tx, rx) = channel();
        if self.submit(Event::Deployments(tx)).is_err() {
            return None;
        }
        recv(&rx)
    }

    /// Queues the event that submits `manifest` as the deployment `name`, and returns the name,
    /// which identifies the deployment; where the loop is gone, that event comes back.
    pub fn create_deployment(&self, name: String, manifest: Vec<ManifestNode>) -> (r: Result<String, Event>)
        ensures
            r matches Ok(id) ==> id == name,
            r matches Err(e) ==> (e matches Event::Manifest(n, m) && n == name && m == manifest),
    {
        let id = name.clone();
        match self.submit(manifest_event(name, manifest)) {
            Ok(()) => Ok(id),
            Err(e) => Err(e),
        }
    }

    /// Queues the event that submits `manifest` as the new manifest of deployment `id`; where
    /// the loop is gone, that event comes back.
    pub fn update_deployment(&self, id: &str, manifest: Vec<ManifestNode>) -> (r: Result<(), Event>)
        ensures
            r matches Err(e) ==> (e matches Event::Manifest(n, m) && n@ == id@ && m == manifest),
    {
        self.submit(manifest_event(id.to_owned(), manifest))
    }

    /// Queues the event that stops the loop, behind every event queued before; where the loop is
    /// gone, that event comes back.
    pub fn shutdown(self) -> (r: Result<(), Event>)
        ensures
            r matches Err(e) ==> e is Shutdown,
    {
        self.submit(shutdown_event())
    }
}

} // verus!
