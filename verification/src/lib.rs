//! Core of a coverage-guided kernel system-call fuzzer.
//!
//! The crate holds the decision logic of the fuzzer: the coverage model and
//! store, the corpus of retained programs with its serialization, the record
//! of executed / failed / crashed cases, the statistics sampler, and the
//! per-worker fuzzing state machine. The surrounding process (guest virtual
//! machines, the TCP link to the in-guest agent, files, signals and mail)
//! performs the actions this logic asks for and feeds the outcomes back in.

use vstd::prelude::*;

pub mod codec;
pub mod corpus;
pub mod exec;
pub mod feedback;
pub mod fuzzer;
pub mod prog;
pub mod report;
pub mod ring;
pub mod stats;
pub mod text;

use crate::exec::ExecutorConf;
use crate::stats::SamplerConf;

verus! {

/// Relies on `num_cpus::get`: the number of available logical CPUs of this
/// system; its documentation promises at least one.
#[verifier::external_body]
fn cpu_count() -> (n: usize)
    ensures
        n >= 1,
{
    num_cpus::get()
}

/// The fuzzer's configuration, reduced to what its own rules constrain:
/// the target description path, the optional corpus path, the number of
/// worker virtual machines, and the executor and sampler settings.
#[derive(Clone, Debug)]
pub struct Config {
    pub fots_bin: String,
    pub corpus: Option<String>,
    pub vm_num: usize,
    pub executor: ExecutorConf,
    pub sampler: Option<SamplerConf>,
}

impl Config {
    /// The configured bounds hold on a machine with `cpu_num` CPUs: the
    /// worker count lies in `(0, cpu_num]` and the sampler settings pass
    /// their own check.
    pub open spec fn spec_valid(&self, cpu_num: usize) -> bool {
        &&& 1 <= self.vm_num <= cpu_num
        &&& match self.sampler {
            Some(s) => s.spec_valid(),
            None => true,
        }
    }

    /// Check the configured bounds against the given CPU count.
    pub fn check_with(&self, cpu_num: usize) -> (ok: bool)
        ensures
            ok == self.spec_valid(cpu_num),
    {
        let vm_ok = self.vm_num >= 1 && self.vm_num <= cpu_num;
        let sampler_ok = match &self.sampler {
            Some(s) => s.check(),
            None => true,
        };
        vm_ok && sampler_ok
    }

    /// Check the configured bounds against this machine's CPU count. The
    /// existence of the configured files is the surrounding process's
    /// concern.
    pub fn check(&self) -> (ok: bool)
        ensures
            ok ==> self.vm_num >= 1 && match self.sampler {
                Some(s) => s.spec_valid(),
                None => true,
            },
    {
        let cpus = cpu_count();
        self.check_with(cpus)
    }
}

} // verus!
