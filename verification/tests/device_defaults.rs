#![allow(unused_imports)]

use std::io::{Error, ErrorKind};
use poppins::device::Device;

    #[test]
    fn test_device_properties() {
        // CPU properties
        assert_eq!(Device::Cpu.mixed_precision(), false);
        assert_eq!(Device::Cpu.gradient_accumulation_steps(), 1);
        assert_eq!(Device::Cpu.activation_precision(), "fp32");
        assert_eq!(Device::Cpu.rope_precision(), "fp32");
        assert_eq!(Device::Cpu.use_flash_attention(), false);
        assert_eq!(Device::Cpu.use_tensor_cores(), false);
        assert!(Device::Cpu.num_cpu_threads() >= 1);
        assert!(Device::Cpu.num_workers() >= 1);
        
        // Metal properties
        assert_eq!(Device::Metal.mixed_precision(), true);
        assert_eq!(Device::Metal.gradient_accumulation_steps(), 4);
        assert_eq!(Device::Metal.activation_precision(), "int8");
        assert_eq!(Device::Metal.rope_precision(), "fp16");
        assert_eq!(Device::Metal.use_flash_attention(), true);
        assert_eq!(Device::Metal.use_tensor_cores(), false);
        assert_eq!(Device::Metal.num_cpu_threads(), 0);
        assert_eq!(Device::Metal.num_workers(), 4);
        
        // CUDA properties
        assert_eq!(Device::Cuda.mixed_precision(), true);
        assert_eq!(Device::Cuda.gradient_accumulation_steps(), 8);
        assert_eq!(Device::Cuda.activation_precision(), "int8");
        assert_eq!(Device::Cuda.rope_precision(), "fp16");
        assert_eq!(Device::Cuda.use_flash_attention(), true);
        assert_eq!(Device::Cuda.use_tensor_cores(), true);
        assert_eq!(Device::Cuda.num_cpu_threads(), 0);
        assert_eq!(Device::Cuda.num_workers(), 8);
    }
