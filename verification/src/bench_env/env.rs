//! What is set for measurements, and what is set back after them.
use crate::bench_env::host::maybe;
use crate::text::same_string;
use vstd::prelude::*;

verus! {

/// The governor that keeps a core at its highest frequency.
pub open spec fn performance() -> Seq<char> {
    "performance"@
}

/// The priority of measurements.
pub const BENCH_NICE: i32 = -20;

/// What was set for measurements.
#[derive(Clone, Debug)]
pub struct EnvControlStatus {
    pub affinity_applied: bool,
    pub governor_applied: bool,
    /// The governor before.
    pub governor_original: Option<String>,
    pub nice_applied: bool,
    /// The priority that holds.
    pub nice_value: i32,
}

/// What was set for measurements, as values.
#[verifier::ext_equal]
pub ghost struct Status {
    pub affinity_applied: bool,
    pub governor_applied: bool,
    pub governor_original: Option<Seq<char>>,
    pub nice_applied: bool,
    pub nice_value: i32,
}

impl View for EnvControlStatus {
    type V = Status;

    open spec fn view(&self) -> Status {
        Status {
            affinity_applied: self.affinity_applied,
            governor_applied: self.governor_applied,
            governor_original: maybe(self.governor_original),
            nice_applied: self.nice_applied,
            nice_value: self.nice_value,
        }
    }
}

/// What is asked for.
#[derive(Clone, Copy, Debug)]
pub struct BenchEnvConfig {
    /// The core to use; where none is given, the fastest.
    pub cpu: Option<u32>,
    /// Whether anything is to be set.
    pub enabled: bool,
}

/// What the host was found in.
#[derive(Debug)]
pub struct HostState {
    /// The fastest core, where one was found.
    pub fastest_core: Option<u32>,
    /// The governor of the core in use.
    pub governor: Option<String>,
    /// The priority.
    pub nice: i32,
}

/// Something to set.
#[derive(Clone, Debug)]
pub enum Control {
    /// Use one core only.
    Affinity(u32),
    /// Set a core's governor.
    Governor(u32, String),
    /// Set the priority.
    Nice(i32),
}

/// Something to set, as a value.
pub ghost enum Setting {
    Affinity(u32),
    Governor(u32, Seq<char>),
    Nice(i32),
}

impl View for Control {
    type V = Setting;

    open spec fn view(&self) -> Setting {
        match self {
            Control::Affinity(cpu) => Setting::Affinity(*cpu),
            Control::Governor(cpu, g) => Setting::Governor(*cpu, g@),
            Control::Nice(n) => Setting::Nice(*n),
        }
    }
}

/// Things to set, as values.
pub open spec fn settings(v: Seq<Control>) -> Seq<Setting> {
    Seq::new(v.len(), |i: int| v[i]@)
}

/// The environment of measurements.
#[derive(Debug)]
pub struct BenchEnv {
    pub bench_cpu: u32,
    pub original_governor: Option<String>,
    pub original_nice: i32,
    pub env_control: EnvControlStatus,
}

/// The environment, as values.
#[verifier::ext_equal]
pub ghost struct Environment {
    pub cpu: u32,
    pub governor: Option<Seq<char>>,
    pub nice: i32,
    pub status: Status,
}

impl View for BenchEnv {
    type V = Environment;

    open spec fn view(&self) -> Environment {
        Environment {
            cpu: self.bench_cpu,
            governor: maybe(self.original_governor),
            nice: self.original_nice,
            status: self.env_control@,
        }
    }
}

impl Environment {
    /// The environment before anything is set. A governor that already keeps the
    /// highest frequency counts as set, where anything is to be set.
    pub open spec fn found(
        cpu: Option<u32>,
        enabled: bool,
        fastest: Option<u32>,
        governor: Option<Seq<char>>,
        nice: i32,
    ) -> Environment {
        Environment {
            cpu: match cpu {
                Some(c) => c,
                None => match fastest {
                    Some(c) => c,
                    None => 0,
                },
            },
            governor,
            nice,
            status: Status {
                affinity_applied: false,
                governor_applied: enabled && governor == Some(performance()),
                governor_original: governor,
                nice_applied: false,
                nice_value: nice,
            },
        }
    }

    /// What is to be set, in this order.
    pub open spec fn to_set(self, enabled: bool) -> Seq<Setting> {
        if !enabled {
            Seq::empty()
        } else {
            seq![Setting::Affinity(self.cpu)] + (match self.governor {
                Some(g) => if g != performance() {
                    seq![Setting::Governor(self.cpu, performance())]
                } else {
                    Seq::empty()
                },
                None => Seq::empty(),
            }) + seq![Setting::Nice(BENCH_NICE)]
        }
    }

    /// The environment after something was tried.
    pub open spec fn after(self, setting: Setting, ok: bool) -> Environment {
        let s = self.status;
        Environment {
            status: match setting {
                Setting::Affinity(_) => Status { affinity_applied: ok, ..s },
                Setting::Governor(_, _) => Status { governor_applied: ok, ..s },
                Setting::Nice(n) => Status {
                    nice_applied: ok,
                    nice_value: if ok {
                        n
                    } else {
                        self.nice
                    },
                    ..s
                },
            },
            ..self
        }
    }

    /// What is to be set back: what was set and was otherwise before.
    pub open spec fn to_restore(self) -> Seq<Setting> {
        (match self.governor {
            Some(g) => if self.status.governor_applied && g != performance() {
                seq![Setting::Governor(self.cpu, g)]
            } else {
                Seq::empty()
            },
            None => Seq::empty(),
        }) + if self.status.nice_applied {
            seq![Setting::Nice(self.nice)]
        } else {
            Seq::empty()
        }
    }
}

fn copy_of(s: &Option<String>) -> (r: Option<String>)
    ensures
        maybe(r) == maybe(*s),
{
    match s {
        Some(t) => Some(t.as_str().to_owned()),
        None => None,
    }
}

impl BenchEnv {
    /// The environment before anything is set, on a host as it was found.
    pub fn setup(config: &BenchEnvConfig, host: &HostState) -> (r: BenchEnv)
        ensures
            r@ == Environment::found(
                config.cpu,
                config.enabled,
                host.fastest_core,
                maybe(host.governor),
                host.nice,
            ),
    {
        let cpu: u32 = match config.cpu {
            Some(c) => c,
            None => match host.fastest_core {
                Some(c) => c,
                None => 0,
            },
        };
        let already: bool = match &host.governor {
            Some(g) => config.enabled && same_string(g.as_str(), "performance"),
            None => false,
        };
        BenchEnv {
            bench_cpu: cpu,
            original_governor: copy_of(&host.governor),
            original_nice: host.nice,
            env_control: EnvControlStatus {
                affinity_applied: false,
                governor_applied: already,
                governor_original: copy_of(&host.governor),
                nice_applied: false,
                nice_value: host.nice,
            },
        }
    }

    /// What is to be set.
    pub fn controls(&self, enabled: bool) -> (r: Vec<Control>)
        ensures
            settings(r@) == self@.to_set(enabled),
    {
        let mut v: Vec<Control> = Vec::new();
        if enabled {
            v.push(Control::Affinity(self.bench_cpu));
            match &self.original_governor {
                Some(g) => {
                    if !same_string(g.as_str(), "performance") {
                        v.push(Control::Governor(self.bench_cpu, "performance".to_owned()));
                    }
                },
                None => {},
            }
            v.push(Control::Nice(BENCH_NICE));
        }
        assert(settings(v@) =~= self@.to_set(enabled));
        v
    }

    /// Notes whether something could be set.
    pub fn applied(&mut self, control: &Control, ok: bool)
        ensures
            final(self)@ == old(self)@.after(control@, ok),
    {
        match control {
            Control::Affinity(_) => {
                self.env_control.affinity_applied = ok;
            },
            Control::Governor(_, _) => {
                self.env_control.governor_applied = ok;
            },
            Control::Nice(n) => {
                self.env_control.nice_applied = ok;
                self.env_control.nice_value = if ok {
                    *n
                } else {
                    self.original_nice
                };
            },
        }
    }

    /// What is to be set back.
    pub fn restore(&self) -> (r: Vec<Control>)
        ensures
            settings(r@) == self@.to_restore(),
    {
        let mut v: Vec<Control> = Vec::new();
        if self.env_control.governor_applied {
            match &self.original_governor {
                Some(g) => {
                    if !same_string(g.as_str(), "performance") {
                        v.push(Control::Governor(self.bench_cpu, g.as_str().to_owned()));
                    }
                },
                None => {},
            }
        }
        if self.env_control.nice_applied {
            v.push(Control::Nice(self.original_nice));
        }
        assert(settings(v@) =~= self@.to_restore());
        v
    }

    /// The core in use.
    pub fn bench_cpu(&self) -> (r: u32)
        ensures
            r == self@.cpu,
    {
        self.bench_cpu
    }

    /// What was set.
    pub fn env_control(&self) -> (r: &EnvControlStatus)
        ensures
            r@ == self@.status,
    {
        &self.env_control
    }
}

/// The environment after each of some settings was tried.
pub open spec fn after_all(e: Environment, s: Seq<Setting>, ok: Seq<bool>) -> Environment
    decreases s.len(),
{
    if s.len() == 0 {
        e
    } else {
        after_all(e, s.drop_last(), ok).after(s.last(), ok[s.len() - 1])
    }
}

/// Nothing is set back that was not set: where nothing was to be set, or where every
/// attempt failed, nothing is restored.
pub proof fn law_nothing_set_nothing_restored(
    cpu: Option<u32>,
    enabled: bool,
    fastest: Option<u32>,
    governor: Option<Seq<char>>,
    nice: i32,
    ok: Seq<bool>,
)
    requires
        forall|i: int| 0 <= i < 3 ==> !#[trigger] ok[i],
    ensures
        ({
            let e = Environment::found(cpu, enabled, fastest, governor, nice);
            let a = after_all(e, e.to_set(enabled), ok);
            a.to_restore() == Seq::<Setting>::empty() && a.status.nice_value == nice
        }),
{
    reveal_with_fuel(after_all, 4);
    let e = Environment::found(cpu, enabled, fastest, governor, nice);
    let s = e.to_set(enabled);
    let a = after_all(e, s, ok);
    assert(ok[0] == false && ok[1] == false && ok[2] == false);
    if enabled {
        if s.len() == 3 {
            assert(s.drop_last().drop_last().len() == 1);
        }
    }
    assert(a.to_restore() =~= Seq::<Setting>::empty());
}

/// Everything that was set is set back to what it was: the governor unless it was
/// the right one before, and the priority.
pub proof fn law_all_set_all_restored(
    cpu: Option<u32>,
    fastest: Option<u32>,
    governor: Option<Seq<char>>,
    nice: i32,
    ok: Seq<bool>,
)
    requires
        forall|i: int| 0 <= i < 3 ==> #[trigger] ok[i],
    ensures
        ({
            let e = Environment::found(cpu, true, fastest, governor, nice);
            let a = after_all(e, e.to_set(true), ok);
            &&& a.status.nice_value == BENCH_NICE
            &&& a.to_restore() == (match governor {
                Some(g) => if g != performance() {
                    seq![Setting::Governor(e.cpu, g)]
                } else {
                    Seq::empty()
                },
                None => Seq::empty(),
            }) + seq![Setting::Nice(nice)]
        }),
{
    reveal_with_fuel(after_all, 4);
    let e = Environment::found(cpu, true, fastest, governor, nice);
    let s = e.to_set(true);
    let a = after_all(e, s, ok);
    assert(ok[0] && ok[1] && ok[2]);
    if s.len() == 3 {
        assert(s.drop_last().drop_last().len() == 1);
        assert(s.drop_last()[1] == s[1]);
    }
    assert(s.last() == Setting::Nice(BENCH_NICE));
}

} // verus!
