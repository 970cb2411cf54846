//! The orchestrator's view of the remote agent on one device: the device record it answers for,
//! and the configuration that each deployment has on it. The requests themselves travel over
//! the network outside; this records what their answers mean.
use vstd::prelude::*;
use crate::model::{
    history_view, ConfigurationView, Device, DeviceConfiguration, DeviceDescription, DeviceHealth,
    ExecutionId, ExecutionResponse, HistoryEntry, HistoryEntryId, HistoryEntryView, PlaceholderError, WebAssemblyValue,
};
use crate::store::{lemma_put_idempotent, put_keys, put_values, strings_index, KeyValueStore};

verus! {

pub open spec fn configurations_view(s: Seq<DeviceConfiguration>) -> Seq<ConfigurationView> {
    s.map_values(|c: DeviceConfiguration| c@)
}

pub struct HttpSupervisor {
    device: Device,
    configurations: KeyValueStore<DeviceConfiguration>,
    entries: Vec<HistoryEntry>,
}

impl HttpSupervisor {
    pub closed spec fn wf(&self) -> bool {
        self.configurations.wf()
    }

    pub closed spec fn spec_device(&self) -> Device {
        self.device
    }

    /// The deployments configured on the device, in the order they were first configured.
    pub closed spec fn deployed_names(&self) -> Seq<Seq<char>> {
        self.configurations.keys()
    }

    /// The configuration of each deployment in `deployed_names`.
    pub closed spec fn deployed(&self) -> Seq<ConfigurationView> {
        configurations_view(self.configurations.values())
    }

    /// The invocations known to the device, oldest first.
    pub closed spec fn known_history(&self) -> Seq<HistoryEntryView> {
        history_view(self.entries@)
    }

    pub proof fn lemma_wf(&self)
        requires
            self.wf(),
        ensures
            self.deployed_names().len() == self.deployed().len(),
    {
        self.configurations.lemma_wf();
    }

    /// The agent of `device`, with nothing configured yet.
    pub fn new(device: Device) -> (r: Self)
        ensures
            r.wf(),
            r.spec_device() == device,
            r.deployed_names().len() == 0,
            r.deployed().len() == 0,
            r.known_history().len() == 0,
    {
        let r = HttpSupervisor { device, configurations: KeyValueStore::new(), entries: Vec::new() };
        assert(r.known_history() =~= seq![]);
        assert(r.deployed() =~= seq![]);
        r
    }

    pub fn device(&self) -> (r: &Device)
        ensures
            *r == self.spec_device(),
    {
        &self.device
    }

    /// How many deployments are configured on the device.
    pub fn deployed_count(&self) -> (r: usize)
        requires
            self.wf(),
        ensures
            r == self.deployed_names().len(),
    {
        proof {
            self.configurations.lemma_wf();
        }
        self.configurations.len()
    }

    /// The configuration of `deployment` on the device, if it has one.
    pub fn configuration(&self, deployment: &str) -> (r: Option<&DeviceConfiguration>)
        requires
            self.wf(),
        ensures
            match strings_index(self.deployed_names(), deployment@) {
                Some(i) => r matches Some(c) && c@ == self.deployed()[i],
                None => r is None,
            },
    {
        match self.configurations.position(deployment) {
            Some(i) => Some(&self.configurations.all()[i]),
            None => None,
        }
    }

    /// The interfaces the device last declared.
    pub fn description(&self) -> (r: DeviceDescription)
        ensures
            r.interfaces@ == self.spec_device().description.interfaces@,
    {
        self.device.description.copied()
    }

    /// The device's health as last probed.
    pub fn health(&self) -> (r: DeviceHealth)
        ensures
            r == self.spec_device().health,
    {
        self.device.health
    }

    /// Records the answer to a health probe; no answer within the probe's time limit means the
    /// device is down.
    pub fn record_health(&mut self, reply: Option<DeviceHealth>)
        requires
            old(self).wf(),
        ensures
            final(self).wf(),
            final(self).spec_device().health == match reply {
                Some(h) => h,
                None => DeviceHealth { up: false },
            },
            final(self).spec_device().name == old(self).spec_device().name,
            final(self).spec_device().description == old(self).spec_device().description,
            final(self).spec_device().modules == old(self).spec_device().modules,
            final(self).deployed_names() == old(self).deployed_names(),
            final(self).deployed() == old(self).deployed(),
            final(self).known_history() == old(self).known_history(),
    {
        self.device.health = match reply {
            Some(h) => h,
            None => DeviceHealth { up: false },
        };
    }

    /// Records the outcome of pushing `configuration` of `deployment` to the device. An
    /// acknowledged push makes it the deployment's configuration on the device, replacing any
    /// earlier one: the device is brought to that state, nothing is appended. A push that was
    /// not acknowledged fails and changes nothing.
    pub fn deploy(&mut self, deployment: &String, configuration: &DeviceConfiguration, acknowledged: bool) -> (r: Result<(), PlaceholderError>)
        requires
            old(self).wf(),
        ensures
            final(self).wf(),
            final(self).spec_device() == old(self).spec_device(),
            final(self).known_history() == old(self).known_history(),
            r is Ok == acknowledged,
            acknowledged ==> final(self).deployed_names() == put_keys(old(self).deployed_names(), deployment@),
            acknowledged ==> final(self).deployed() == put_values(old(self).deployed_names(), old(self).deployed(), deployment@, configuration@),
            !acknowledged ==> final(self).deployed_names() == old(self).deployed_names() && final(self).deployed() == old(self).deployed(),
    {
        if !acknowledged {
            return Err(PlaceholderError);
        }
        let c = configuration.copied();
        let ghost ks = self.configurations.keys();
        let ghost vs = self.configurations.values();
        proof {
            self.configurations.lemma_wf();
            crate::store::lemma_strings_index(ks, deployment@);
        }
        self.configurations.put(deployment.clone(), c);
        proof {
            match crate::store::strings_index(ks, deployment@) {
                Some(i) => {
                    assert(self.deployed() =~= configurations_view(vs).update(i, configuration@));
                },
                None => {
                    assert(self.deployed() =~= configurations_view(vs).push(configuration@));
                },
            }
        }
        Ok(())
    }
}

/// The invocation `h` is one of execution `e`.
pub open spec fn names_execution(h: HistoryEntryId, e: ExecutionId) -> bool {
    h.0.0@ == e.0@ && h.0.1@ == e.1@ && h.0.2@ == e.2@
}

impl HttpSupervisor {
    /// Records the device's reply to invoking `execution` with `args`. A reply that queued the
    /// invocation under the identity of another execution is a failure. An invocation queued
    /// under its own identity joins the known history, with its arguments, as the newest entry;
    /// an output or a failure leaves the history as it was. Every other reply is handed on.
    pub fn execute(
        &mut self,
        execution: ExecutionId,
        args: Vec<WebAssemblyValue>,
        reply: Result<ExecutionResponse, PlaceholderError>,
    ) -> (r: Result<ExecutionResponse, PlaceholderError>)
        requires
            old(self).wf(),
        ensures
            final(self).wf(),
            r == match reply {
                Ok(ExecutionResponse::Queued(id)) => if names_execution(id, execution) {
                    reply
                } else {
                    Err(PlaceholderError)
                },
                _ => reply,
            },
            r matches Ok(ExecutionResponse::Queued(h)) ==> names_execution(h, execution),
            final(self).spec_device() == old(self).spec_device(),
            final(self).deployed_names() == old(self).deployed_names(),
            final(self).deployed() == old(self).deployed(),
            match r {
                Ok(ExecutionResponse::Queued(id)) => final(self).known_history() == old(self).known_history().push(
                    HistoryEntryView {
                        deployment: id.0.0@,
                        module: id.0.1@,
                        function: id.0.2@,
                        timestamp: id.1@,
                        datetime: id.1@,
                        arguments: args@,
                    },
                ),
                _ => final(self).known_history() == old(self).known_history(),
            },
    {
        let matches = match &reply {
            Ok(ExecutionResponse::Queued(id)) => {
                id.0.0 == execution.0 && id.0.1 == execution.1 && id.0.2 == execution.2
            },
            _ => true,
        };
        if !matches {
            return Err(PlaceholderError);
        }
        match &reply {
            Ok(ExecutionResponse::Queued(id)) => {
                let entry = HistoryEntry {
                    id: ((id.0.0.clone(), id.0.1.clone(), id.0.2.clone()), id.1.clone()),
                    datetime: id.1.clone(),
                    arguments: args,
                };
                let ghost before = self.entries@;
                let ghost ev = entry@;
                self.entries.push(entry);
                assert(history_view(self.entries@) =~= history_view(before).push(ev));
            },
            _ => {},
        }
        reply
    }

    /// The invocations known to the device, oldest first.
    pub fn history(&self) -> (r: Vec<HistoryEntry>)
        ensures
            history_view(r@) == self.known_history(),
    {
        let mut r: Vec<HistoryEntry> = Vec::new();
        let mut i: usize = 0;
        while i < self.entries.len()
            invariant
                i <= self.entries@.len(),
                history_view(r@) == history_view(self.entries@).take(i as int),
            decreases self.entries@.len() - i,
        {
            let ghost before = r@;
            r.push(self.entries[i].copied());
            i = i + 1;
            assert(history_view(r@) =~= history_view(before).push(self.entries@[i - 1]@));
            assert(history_view(r@) =~= history_view(self.entries@).take(i as int));
        }
        assert(history_view(self.entries@).take(i as int) =~= history_view(self.entries@));
        r
    }
}

/// Deploying the same configuration of a deployment a second time leaves what the device has
/// configured unchanged.
pub proof fn lemma_redeploy_changes_nothing(before: HttpSupervisor, deployment: Seq<char>, configuration: ConfigurationView)
    requires
        before.wf(),
    ensures
        ({
            let names = put_keys(before.deployed_names(), deployment);
            let configs = put_values(before.deployed_names(), before.deployed(), deployment, configuration);
            &&& put_keys(names, deployment) == names
            &&& put_values(names, configs, deployment, configuration) == configs
        }),
{
    before.lemma_wf();
    lemma_put_idempotent(before.deployed_names(), before.deployed(), deployment, configuration);
}

} // verus!
