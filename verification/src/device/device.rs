//! The compute device: choosing it from a request and from what the machine offers.

use vstd::prelude::*;
use crate::text::{trimmed, has_infix, trim_chars, chars_contain, str_chars};

verus! {

/// `std::io::Error`, the failure of a probe command; carried through, never looked into.
#[verifier::external_type_specification]
#[verifier::external_body]
pub struct ExIoError(std::io::Error);

/// Where training and inference run.
#[derive(Debug, Clone, Copy, PartialEq, Eq, Structural)]
pub enum Device {
    /// NVIDIA GPU with CUDA support
    Cuda,
    /// Apple Silicon GPU with Metal support
    Metal,
    /// CPU (fallback)
    Cpu,
}

/// Whether the output of the GPU query names a CUDA device: after trimming it is not empty
/// and says neither "not found" nor "failed".
pub open spec fn cuda_output_ok(output: Seq<char>) -> bool {
    let t = trimmed(output);
    t.len() > 0 && !has_infix(t, "not found"@) && !has_infix(t, "failed"@)
}

/// Whether the output of the CPU brand query names Apple silicon: as for CUDA, and it
/// mentions "Apple".
pub open spec fn metal_output_ok(output: Seq<char>) -> bool {
    cuda_output_ok(output) && has_infix(output, "Apple"@)
}

/// The message when CUDA is requested but missing.
pub open spec fn cuda_missing_message() -> Seq<char> {
    "❌ CUDA requested but not available. Install CUDA toolkit, use '-d cpu' or use '-d metal'"@
}

/// The message when Metal is requested but missing.
pub open spec fn metal_missing_message() -> Seq<char> {
    "❌ Metal requested but not available. Use an Apple Silicon Mac, use '-d cpu' or use '-d cuda'"@
}

impl Device {
    /// The requested device when the machine has it (the CPU always), an error when it does
    /// not; with no request, whatever `detect` finds. Each probe is asked at most once, and
    /// only when its answer matters.
    pub fn inject_new<F: FnOnce() -> bool, G: FnOnce() -> bool, H: FnOnce() -> Device>(
        requested_device: Option<Device>,
        is_cuda_available: F,
        is_metal_available: G,
        detect: H,
    ) -> (r: Result<Device, String>)
        requires
            is_cuda_available.requires(()),
            is_metal_available.requires(()),
            detect.requires(()),
        ensures
            requested_device == Some(Device::Cuda) ==> (r == Ok::<Device, String>(Device::Cuda)
                && is_cuda_available.ensures((), true)) || (r matches Err(e) && e@
                == cuda_missing_message() && is_cuda_available.ensures((), false)),
            requested_device == Some(Device::Metal) ==> (r == Ok::<Device, String>(Device::Metal)
                && is_metal_available.ensures((), true)) || (r matches Err(e) && e@
                == metal_missing_message() && is_metal_available.ensures((), false)),
            requested_device == Some(Device::Cpu) ==> r == Ok::<Device, String>(Device::Cpu),
            requested_device is None ==> (r matches Ok(d) && detect.ensures((), d)),
    {
        match requested_device {
            Some(requested) => match requested {
                Device::Cuda => {
                    if is_cuda_available() {
                        Ok(Device::Cuda)
                    } else {
                        Err("❌ CUDA requested but not available. Install CUDA toolkit, use '-d cpu' or use '-d metal'".to_owned())
                    }
                },
                Device::Metal => {
                    if is_metal_available() {
                        Ok(Device::Metal)
                    } else {
                        Err("❌ Metal requested but not available. Use an Apple Silicon Mac, use '-d cpu' or use '-d cuda'".to_owned())
                    }
                },
                Device::Cpu => Ok(Device::Cpu),
            },
            None => Ok(detect()),
        }
    }

    /// The best device the probes report: CUDA, then Metal, then the CPU. The Metal probe is
    /// asked only when CUDA is missing.
    pub fn inject_detect<F: FnOnce() -> bool, G: FnOnce() -> bool>(is_cuda_available: F, is_metal_available: G) -> (r: Device)
        requires
            is_cuda_available.requires(()),
            is_metal_available.requires(()),
        ensures
            r == Device::Cuda ==> is_cuda_available.ensures((), true),
            r == Device::Metal ==> is_cuda_available.ensures((), false) && is_metal_available.ensures((), true),
            r == Device::Cpu ==> is_cuda_available.ensures((), false) && is_metal_available.ensures((), false),
    {
        if is_cuda_available() {
            return Device::Cuda;
        }
        if is_metal_available() {
            return Device::Metal;
        }
        Device::Cpu
    }

    /// Whether the GPU query succeeded with an output that names a CUDA device.
    pub fn inject_is_cuda_available<F: FnOnce() -> Result<String, std::io::Error>>(command_output: F) -> (r: bool)
        requires
            command_output.requires(()),
        ensures
            exists|out: Result<String, std::io::Error>| command_output.ensures((), out) && r == match out {
                Ok(s) => cuda_output_ok(s@),
                Err(_) => false,
            },
    {
        let out = command_output();
        match out {
            Ok(output) => Self::cuda_output_is_ok(output.as_str()),
            Err(_) => false,
        }
    }

    /// Whether the CPU brand query succeeded with an output that names Apple silicon.
    pub fn inject_is_metal_available<F: FnOnce() -> Result<String, std::io::Error>>(command_output: F) -> (r: bool)
        requires
            command_output.requires(()),
        ensures
            exists|out: Result<String, std::io::Error>| command_output.ensures((), out) && r == match out {
                Ok(s) => metal_output_ok(s@),
                Err(_) => false,
            },
    {
        let out = command_output();
        match out {
            Ok(output) => Self::metal_output_is_ok(output.as_str()),
            Err(_) => false,
        }
    }

    /// Whether a GPU query output names a CUDA device.
    pub fn cuda_output_is_ok(output: &str) -> (r: bool)
        ensures
            r == cuda_output_ok(output@),
    {
        let t = trim_chars(output);
        t.len() > 0 && !chars_contain(&t, "not found") && !chars_contain(&t, "failed")
    }

    /// Whether a CPU brand query output names Apple silicon.
    pub fn metal_output_is_ok(output: &str) -> (r: bool)
        ensures
            r == metal_output_ok(output@),
    {
        let all = str_chars(output);
        Self::cuda_output_is_ok(output) && chars_contain(&all, "Apple")
    }
}

} // verus!
