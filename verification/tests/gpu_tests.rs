use rtop::gpu::lspci_output_cleanable;
use rtop::gpu::{
    clean_gpu_description, gpu_description_cleanable, is_gpu_sensor, parse_lspci_gpus, plan_gpus, DriverGpu,
    GpuSensor, GpuSource, GpuVendor,
};

fn chars(s: &str) -> Vec<char> {
    s.chars().collect()
}

#[test]
fn cleans_class_labels_and_marks() {
    assert_eq!(
        clean_gpu_description("  VGA compatible controller: NVIDIA Corporation GA104 [GeForce RTX 3070] (rev a1) "),
        "NVIDIA Corporation GA104 [GeForce RTX 3070] (rev a1)"
    );
    assert_eq!(clean_gpu_description("Advanced Micro Devices(R) Navi(TM) 21"), "Advanced Micro Devices Navi 21");
}

#[test]
fn names_intel_models_and_device_codes() {
    assert_eq!(
        clean_gpu_description("Intel Corporation UHD Graphics 620 (rev 07)"),
        "Intel UHD Graphics 620 (rev 07)"
    );
    assert_eq!(
        clean_gpu_description("Intel Corporation Alder Lake-P GT2 Device 46a6"),
        "Intel Alder Lake-P GT2"
    );
    assert_eq!(clean_gpu_description("Intel Corporation Device 7d55 (rev 08)"), "Intel Arc Graphics");
    assert_eq!(clean_gpu_description("Intel Corporation Device a75d"), "Intel Arc A7xxM Graphics");
    assert_eq!(clean_gpu_description("Intel Corporation Device 1234 (rev 01)"), "Intel GPU (Code: 1234)");
}

#[test]
fn cleanable_everywhere_but_inside_a_character() {
    assert!(gpu_description_cleanable("Intel Corporation Device 7d55"));
    assert!(gpu_description_cleanable("anything at all"));
}

#[test]
fn lspci_output_gives_each_adapter_once() {
    let out = "00:02.0 VGA compatible controller: Intel Corporation UHD Graphics 620 (rev 07)\n\
01:00.0 3D controller: NVIDIA Corporation GP108M [GeForce MX150] (rev a1)\n\
00:1f.3 Audio device: Intel Corporation Sunrise Point-LP HD Audio\n\
02:00.0 VGA compatible controller: Intel Corporation UHD GRAPHICS 620 (rev 07)\r\n";
    let gpus = parse_lspci_gpus(out);
    assert_eq!(gpus.len(), 2);
    assert_eq!(gpus[0].0, "Intel UHD Graphics 620 (rev 07)");
    assert_eq!(gpus[0].1, GpuVendor::Intel);
    assert_eq!(gpus[1].0, "NVIDIA Corporation GP108M [GeForce MX150] (rev a1)");
    assert_eq!(gpus[1].1, GpuVendor::Nvidia);
    assert_eq!(GpuVendor::Amd.name(), "AMD");
}

#[test]
fn lspci_without_adapters() {
    assert!(parse_lspci_gpus("").is_empty());
    assert!(parse_lspci_gpus("00:1f.3 Audio device: something\n").is_empty());
}

#[test]
fn sensor_labels_that_name_graphics() {
    assert!(is_gpu_sensor(&chars("amdgpu edge"), false));
    assert!(is_gpu_sensor(&chars("intel core graphics"), false));
    // Any label that mentions Intel counts as graphics.
    assert!(is_gpu_sensor(&chars("intel core i7 package"), false));
    assert!(!is_gpu_sensor(&chars("nvme composite"), true));
    assert!(is_gpu_sensor(&chars("intel pentium"), true));
}

#[test]
fn adapter_list_combines_driver_sensors_and_lspci() {
    let driver = vec![DriverGpu { name: "NVIDIA GeForce RTX 3070".to_string(), has_memory_total: true }];
    let sensors = vec![
        GpuSensor { label: "nvidia gpu".to_string(), warm: true },
        GpuSensor { label: "amdgpu edge".to_string(), warm: true },
        GpuSensor { label: "acpitz".to_string(), warm: true },
    ];
    let lspci = vec![
        ("NVIDIA Corporation GA104".to_string(), GpuVendor::Nvidia),
        ("Intel UHD Graphics 620".to_string(), GpuVendor::Intel),
        ("AMDGPU".to_string(), GpuVendor::Amd),
    ];
    let list = plan_gpus(&driver, &sensors, &lspci, true, true);
    let got: Vec<(String, GpuVendor, bool, GpuSource)> =
        list.iter().map(|g| (g.name.clone(), g.vendor, g.has_memory_total, g.source)).collect();
    assert_eq!(
        got,
        vec![
            ("NVIDIA GeForce RTX 3070".to_string(), GpuVendor::Nvidia, true, GpuSource::Driver(0)),
            ("amdgpu edge".to_string(), GpuVendor::Amd, false, GpuSource::Sensor(1)),
            ("Intel UHD Graphics 620".to_string(), GpuVendor::Intel, true, GpuSource::Lspci(1)),
        ]
    );
}

#[test]
fn integrated_intel_is_added_when_nothing_names_it() {
    let list = plan_gpus(&Vec::new(), &Vec::new(), &Vec::new(), false, true);
    assert_eq!(list.len(), 1);
    assert_eq!(list[0].name, "Intel Integrated Graphics");
    assert_eq!(list[0].source, GpuSource::IntelCard);
    assert!(plan_gpus(&Vec::new(), &Vec::new(), &Vec::new(), false, false).is_empty());
}

#[test]
fn lspci_output_is_accepted() {
    assert!(lspci_output_cleanable("00:02.0 VGA compatible controller: Intel Corporation Device 7d55\n"));
    assert!(lspci_output_cleanable(""));
}
