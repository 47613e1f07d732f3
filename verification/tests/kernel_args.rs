use atlas_spark::gpu::{DevicePtr, F32Bits};
use atlas_spark::kernel_args::{div_ceil, wht, KernelLaunch};
use atlas_spark::mock::{Command, MockGpuBackend};
use atlas_spark::trace::GpuBackend;

#[test]
fn test_kernel_launch_builder() {
    let mut gpu = MockGpuBackend::new();
    let kernel = gpu.kernel("test", "test_kernel").unwrap();

    let result = KernelLaunch::new(&mut gpu, kernel)
        .grid([4, 1, 1])
        .block([256, 1, 1])
        .arg_ptr(DevicePtr(0x1000))
        .arg_u32(42)
        .arg_f32(F32Bits(1.5f32.to_bits()))
        .launch(0);

    assert!(result.is_ok());
    assert_eq!(gpu.launch_count(), 1);
}

#[test]
fn test_div_ceil() {
    assert_eq!(div_ceil(10, 3), 4);
    assert_eq!(div_ceil(9, 3), 3);
    assert_eq!(div_ceil(1, 256), 1);
    assert_eq!(div_ceil(256, 256), 1);
    assert_eq!(div_ceil(257, 256), 2);
}

#[test]
fn launch_carries_its_arguments_in_order() {
    let mut gpu = MockGpuBackend::new();
    let kernel = gpu.kernel("m", "f").unwrap();
    KernelLaunch::new(&mut gpu, kernel)
        .grid([7, 2, 1])
        .block([32, 4, 1])
        .shared_mem(99)
        .arg_ptr(DevicePtr(0xabcd))
        .arg_u32(42)
        .arg_u64(1 << 40)
        .arg_i32(-1)
        .arg_f32(F32Bits(1.5f32.to_bits()))
        .launch(3)
        .unwrap();
    match &gpu.commands[1] {
        Command::Launch { kernel: k, grid, block, shared_mem, stream, params } => {
            assert_eq!(*k, kernel);
            assert_eq!(*grid, [7, 2, 1]);
            assert_eq!(*block, [32, 4, 1]);
            assert_eq!(*shared_mem, 99);
            assert_eq!(*stream, 3);
            assert_eq!(params[0], 0xabcd);
            assert_eq!(params[1], 42);
            assert_eq!(params[2], 1 << 40);
            assert_eq!(params[3] as u32, u32::MAX);
            assert_eq!(params[4], 1.5f32.to_bits() as u64);
            assert_eq!(params.len(), 5);
        }
        other => panic!("{:?}", other),
    }
}

#[test]
fn refused_launch_is_reported() {
    let mut gpu = MockGpuBackend::new();
    let kernel = gpu.kernel("m", "f").unwrap();
    gpu.refuse_at = Some(1);
    assert!(KernelLaunch::new(&mut gpu, kernel).launch(0).is_err());
    assert!(KernelLaunch::new(&mut gpu, kernel).launch(0).is_ok());
}

#[test]
fn div_ceil_reaches_the_top_of_the_range() {
    assert_eq!(div_ceil(u32::MAX, 1), u32::MAX);
    assert_eq!(div_ceil(u32::MAX, 2), 0x8000_0000);
    assert_eq!(div_ceil(0, 5), 0);
}

#[test]
fn wht_launches_one_block_per_head() {
    let mut gpu = MockGpuBackend::new();
    let kernel = gpu.kernel("wht", "wht_bf16").unwrap();
    wht(&mut gpu, kernel, DevicePtr(0x5000), 6, 128, 2).unwrap();
    assert_eq!(gpu.launch_count(), 1);
    match &gpu.commands[1] {
        Command::Launch { grid, stream, params, .. } => {
            assert_eq!(*grid, [6, 1, 1]);
            assert_eq!(*stream, 2);
            assert_eq!(params[0], 0x5000);
        }
        other => panic!("{:?}", other),
    }
}
