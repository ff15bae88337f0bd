//! Training defaults that follow from the device.

use vstd::prelude::*;
use crate::device::device::Device;

verus! {

/// `num_cpus::get`: the number of logical CPUs this process may use, which the crate
/// documents as always at least 1. The count depends on the machine; nothing more is claimed.
#[verifier::external_body]
pub fn num_cpus_get() -> (r: usize)
    ensures
        r >= 1,
{
    num_cpus::get()
}

impl Device {
    /// Whether mixed precision is used: on the GPUs.
    pub fn mixed_precision(&self) -> (r: bool)
        ensures
            r == (*self != Device::Cpu),
    {
        match self {
            Device::Cpu => false,
            Device::Metal | Device::Cuda => true,
        }
    }

    /// Steps of gradient accumulation: 1 on the CPU, 4 on Metal, 8 on CUDA.
    pub fn gradient_accumulation_steps(&self) -> (r: usize)
        ensures
            r == match *self {
                Device::Cpu => 1usize,
                Device::Metal => 4,
                Device::Cuda => 8,
            },
    {
        match self {
            Device::Cpu => 1,
            Device::Metal => 4,
            Device::Cuda => 8,
        }
    }

    /// The activation precision: "fp32" on the CPU, "int8" on the GPUs.
    pub fn activation_precision(&self) -> (r: String)
        ensures
            r@ == if *self == Device::Cpu { "fp32"@ } else { "int8"@ },
    {
        match self {
            Device::Cpu => "fp32".to_owned(),
            Device::Metal | Device::Cuda => "int8".to_owned(),
        }
    }

    /// The precision of rotary embeddings: "fp32" on the CPU, "fp16" on the GPUs.
    pub fn rope_precision(&self) -> (r: String)
        ensures
            r@ == if *self == Device::Cpu { "fp32"@ } else { "fp16"@ },
    {
        match self {
            Device::Cpu => "fp32".to_owned(),
            Device::Metal | Device::Cuda => "fp16".to_owned(),
        }
    }

    /// Whether flash attention is used: on the GPUs.
    pub fn use_flash_attention(&self) -> (r: bool)
        ensures
            r == (*self != Device::Cpu),
    {
        match self {
            Device::Cpu => false,
            Device::Metal | Device::Cuda => true,
        }
    }

    /// Whether tensor cores are used: on CUDA only.
    pub fn use_tensor_cores(&self) -> (r: bool)
        ensures
            r == (*self == Device::Cuda),
    {
        match self {
            Device::Cuda => true,
            _ => false,
        }
    }

    /// CPU threads for a machine with `cpus` logical CPUs: at most 4 on the CPU, none on
    /// the GPUs.
    pub fn cpu_threads_for(&self, cpus: usize) -> (r: usize)
        ensures
            r == match *self {
                Device::Cpu => if cpus < 4 { cpus } else { 4 },
                _ => 0,
            },
    {
        match self {
            Device::Cpu => if cpus < 4 { cpus } else { 4 },
            Device::Metal | Device::Cuda => 0,
        }
    }

    /// CPU threads on this machine.
    pub fn num_cpu_threads(&self) -> (r: usize)
        ensures
            *self == Device::Cpu ==> 1 <= r <= 4,
            *self != Device::Cpu ==> r == 0,
    {
        match self {
            Device::Cpu => self.cpu_threads_for(num_cpus_get()),
            Device::Metal | Device::Cuda => 0,
        }
    }

    /// Data loader workers for a machine with `cpus` logical CPUs: all of them on the CPU,
    /// 4 on Metal, 8 on CUDA.
    pub fn workers_for(&self, cpus: usize) -> (r: usize)
        ensures
            r == match *self {
                Device::Cpu => cpus,
                Device::Metal => 4usize,
                Device::Cuda => 8,
            },
    {
        match self {
            Device::Cpu => cpus,
            Device::Metal => 4,
            Device::Cuda => 8,
        }
    }

    /// Data loader workers on this machine.
    pub fn num_workers(&self) -> (r: usize)
        ensures
            *self == Device::Cpu ==> r >= 1,
            *self == Device::Metal ==> r == 4,
            *self == Device::Cuda ==> r == 8,
    {
        match self {
            Device::Cpu => self.workers_for(num_cpus_get()),
            Device::Metal | Device::Cuda => self.workers_for(0),
        }
    }
}

} // verus!
