//! Backend dispatch: the capability that advances every environment of a batch
//! by one step. The stepping kernels themselves are not part of this core.
use crate::spaces::Sample;
use crate::wildfire::WildfireEnv;
use vstd::prelude::*;

verus! {

/// The actions of one agent for one step: one sample per environment.
pub struct AgentActions {
    pub agent: String,
    pub samples: Vec<Sample>,
}

/// A backend that steps a whole batch. A step keeps the environment well formed
/// and its configuration unchanged.
pub trait WildfireBackend {
    fn step_batch(&mut self, env: &mut WildfireEnv, actions: &Vec<AgentActions>)
        requires
            old(env).wf(),
        ensures
            final(env).wf(),
            final(env).spec_config() == old(env).spec_config(),
    ;
}

/// The reference, sequential backend.
pub struct CpuBackend;

/// The accelerator backend.
pub struct CudaBackend;

impl CpuBackend {
    pub fn new() -> (r: CpuBackend) {
        CpuBackend
    }
}

impl CudaBackend {
    pub fn new() -> (r: CudaBackend) {
        CudaBackend
    }
}

impl WildfireBackend for CpuBackend {
    /// No stepping kernel is installed: the state is left as it was.
    fn step_batch(&mut self, env: &mut WildfireEnv, actions: &Vec<AgentActions>) {
    }
}

impl WildfireBackend for CudaBackend {
    /// No stepping kernel is installed: the state is left as it was.
    fn step_batch(&mut self, env: &mut WildfireEnv, actions: &Vec<AgentActions>) {
    }
}

/// One of the available backends.
pub enum Backend {
    Cpu(CpuBackend),
    Cuda(CudaBackend),
}

impl WildfireBackend for Backend {
    fn step_batch(&mut self, env: &mut WildfireEnv, actions: &Vec<AgentActions>) {
        match self {
            Backend::Cpu(b) => b.step_batch(env, actions),
            Backend::Cuda(b) => b.step_batch(env, actions),
        }
    }
}

} // verus!
