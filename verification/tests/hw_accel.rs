//! The choice of a hardware acceleration method.

use remux::playback::hw_accel::{
    select_hw_accel, vaapi_device, vaapi_driver, Accelerator, Devices, HardwareAccelerationType,
    NoAccel, Nvenc, Qsv, Vaapi,
};

const NO_DEVICES: Devices = Devices {
    nvidia: false,
    render_node: false,
    video: false,
    mpp_service: false,
    macos: false,
};

/// Every device of a machine that does not run macOS.
const ALL_DEVICES: Devices = Devices {
    nvidia: true,
    render_node: true,
    video: true,
    mpp_service: true,
    macos: false,
};

#[test]
fn hw_none_when_no_hwaccels_listed() {
    assert_eq!(
        select_hw_accel("", &ALL_DEVICES, None),
        HardwareAccelerationType::Software
    );
}

#[test]
fn hw_none_when_devices_absent() {
    let hwaccels = "Hardware acceleration methods:\ncuda\nvaapi\nqsv\nv4l2m2m\nrkmpp\n";
    assert_eq!(
        select_hw_accel(hwaccels, &NO_DEVICES, None),
        HardwareAccelerationType::Software
    );
}

#[test]
fn hw_nvenc_requires_cuda_and_device() {
    let hwaccels = "Hardware acceleration methods:\ncuda\n";
    // The device is /dev/nvidia0.
    assert_eq!(
        select_hw_accel(hwaccels, &Devices { nvidia: true, ..NO_DEVICES }, None),
        HardwareAccelerationType::Nvenc
    );
    assert_eq!(
        select_hw_accel(hwaccels, &NO_DEVICES, None),
        HardwareAccelerationType::Software
    );
}

#[test]
fn hw_vaapi_requires_vaapi_and_device() {
    let hwaccels = "Hardware acceleration methods:\nvaapi\n";
    // The device is /dev/dri/renderD128.
    assert_eq!(
        select_hw_accel(hwaccels, &Devices { render_node: true, ..NO_DEVICES }, None),
        HardwareAccelerationType::Vaapi
    );
    assert_eq!(
        select_hw_accel(hwaccels, &NO_DEVICES, None),
        HardwareAccelerationType::Software
    );
}

#[test]
fn hw_qsv_beats_vaapi_when_both_available() {
    let hwaccels = "Hardware acceleration methods:\nvaapi\nqsv\n";
    assert_eq!(
        select_hw_accel(
            hwaccels,
            &Devices { render_node: true, ..NO_DEVICES },
            Some("0x8086")
        ),
        HardwareAccelerationType::Qsv
    );
}

#[test]
fn hw_qsv_requires_dri_device() {
    let hwaccels = "Hardware acceleration methods:\nqsv\n";
    assert_eq!(
        select_hw_accel(
            hwaccels,
            &Devices { render_node: true, ..NO_DEVICES },
            Some("0x8086")
        ),
        HardwareAccelerationType::Qsv
    );
    assert_eq!(
        select_hw_accel(hwaccels, &NO_DEVICES, Some("0x8086")),
        HardwareAccelerationType::Software
    );
}

#[test]
fn hw_rkmpp_requires_mpp_service_device() {
    let hwaccels = "Hardware acceleration methods:\nrkmpp\n";
    assert_eq!(
        select_hw_accel(hwaccels, &Devices { mpp_service: true, ..NO_DEVICES }, None),
        HardwareAccelerationType::Rkmpp
    );
    // Some machines list the method but lack the device.
    assert_eq!(
        select_hw_accel(hwaccels, &NO_DEVICES, None),
        HardwareAccelerationType::Software
    );
}

#[test]
fn hw_v4l2m2m_requires_video0_device() {
    let hwaccels = "Hardware acceleration methods:\nv4l2m2m\n";
    assert_eq!(
        select_hw_accel(hwaccels, &Devices { video: true, ..NO_DEVICES }, None),
        HardwareAccelerationType::V4l2m2m
    );
    assert_eq!(
        select_hw_accel(hwaccels, &NO_DEVICES, None),
        HardwareAccelerationType::Software
    );
}

#[test]
fn hw_videotoolbox_only_on_macos() {
    let hwaccels = "Hardware acceleration methods:\nvideotoolbox\n";
    assert_eq!(
        select_hw_accel(hwaccels, &ALL_DEVICES, None),
        HardwareAccelerationType::Software
    );
    assert_eq!(
        select_hw_accel(hwaccels, &Devices { macos: true, ..ALL_DEVICES }, None),
        HardwareAccelerationType::VideoToolbox
    );
}

#[test]
fn hw_priority_nvenc_over_vaapi() {
    let hwaccels = "Hardware acceleration methods:\ncuda\nvaapi\n";
    assert_eq!(
        select_hw_accel(hwaccels, &ALL_DEVICES, None),
        HardwareAccelerationType::Nvenc
    );
}

#[test]
fn hw_falls_through_to_rkmpp_when_others_absent() {
    let hwaccels = "Hardware acceleration methods:\ncuda\nvaapi\nqsv\nv4l2m2m\nrkmpp\n";
    assert_eq!(
        select_hw_accel(hwaccels, &Devices { mpp_service: true, ..NO_DEVICES }, None),
        HardwareAccelerationType::Rkmpp
    );
}

#[test]
fn vaapi_driver_is_read_from_the_report() {
    assert_eq!(vaapi_driver("x\nIntel iHD driver for Intel - 23.1\n"), "iHD");
    assert_eq!(vaapi_driver("Intel i965 driver"), "i965");
    assert_eq!(vaapi_driver("Mesa Gallium driver"), "");
    assert_eq!(vaapi_device(""), "/dev/dri/renderD128");
    assert_eq!(vaapi_device("/dev/dri/renderD129"), "/dev/dri/renderD129");
}

#[test]
fn accelerators_name_their_encoders() {
    assert_eq!(NoAccel.encoder_name("libx264"), "libx264");
    assert_eq!(Nvenc.encoder_name("libx264"), "h264_nvenc");
    let vaapi = Vaapi { device: "/dev/dri/renderD128".to_string(), driver: String::new() };
    assert_eq!(vaapi.encoder_name("libx264"), "h264_vaapi");
    let qsv = Qsv { vaapi_device: "/dev/dri/renderD128".to_string(), vaapi_driver: String::new() };
    assert_eq!(qsv.encoder_name("libx264"), "h264_qsv");
    assert!(!NoAccel.is_hw());
    assert!(Nvenc.is_hw());
}
