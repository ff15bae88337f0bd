#![allow(unused_imports)]

use std::io::{Error, ErrorKind};
use poppins::device::Device;

    #[test]
    fn test_detect_returns_cuda_when_available() {
        let result = Device::inject_detect(|| true, || false);
        assert!(matches!(result, Device::Cuda));
    }

    #[test]
    fn test_detect_returns_metal_when_cuda_not_available() {
        let result = Device::inject_detect(|| false, || true);
        assert!(matches!(result, Device::Metal));
    }

    #[test]
    fn test_detect_returns_cpu_when_neither_available() {
        let result = Device::inject_detect(|| false,|| false);
        assert!(matches!(result, Device::Cpu));
    }

    #[test]
    fn test_detect_prioritizes_cuda_over_metal() {
        let result = Device::inject_detect(|| true, || true);
        assert!(matches!(result, Device::Cuda));
    }
