#![allow(unused_imports)]

use std::io::{Error, ErrorKind};
use poppins::device::Device;

    #[test]
    fn test_new_cuda() {
        let available = Device::inject_new(
            Some(Device::Cuda),
            || true,
            || false,
            || Device::Cpu,
        );
        assert_eq!(available.unwrap(), Device::Cuda);

        let unavailable = Device::inject_new(
            Some(Device::Cuda),
            || false,
            || false,
            || Device::Cpu,
        );
        assert!(unavailable.is_err());
        assert!(unavailable.unwrap_err().contains("CUDA requested but not available"));

        let detect = Device::inject_new(
            None,
            || true,
            || false,
            || Device::Cuda,
        );
        assert_eq!(detect.unwrap(), Device::Cuda);
    }

    #[test]
    fn test_new_metal() {
        let available = Device::inject_new(
            Some(Device::Metal),
            || true,
            || true,
            || Device::Cpu,
        );
        assert_eq!(available.unwrap(), Device::Metal);

        let unavailable = Device::inject_new(
            Some(Device::Metal),
            || false,
            || false,
            || Device::Cpu,
        );
        assert!(unavailable.is_err());
        assert!(unavailable.unwrap_err().contains("Metal requested but not available"));

        let detect = Device::inject_new(
            None,
            || false,
            || true,
            || Device::Metal,
        );
        assert_eq!(detect.unwrap(), Device::Metal);
    }

    #[test]
    fn test_new_cpu() {
        let available = Device::inject_new(
            Some(Device::Cpu),
            || true,
            || true,
            || Device::Cpu,
        );
        assert_eq!(available.unwrap(), Device::Cpu);

        let detect = Device::inject_new(
            None,
            || false,
            || false,
            || Device::Cpu,
        );
        assert_eq!(detect.unwrap(), Device::Cpu);
    }
