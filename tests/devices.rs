use flexasio_core::devices::{enumerate, host_api_name, Catalog, DeviceInfo, EnumerationError, HostApi};

fn api(index: i32, name: &str) -> HostApi {
    HostApi { index, name: name.to_string() }
}

fn dev(name: &str, host_api: i32, inputs: i32, outputs: i32) -> Option<DeviceInfo> {
    Some(DeviceInfo {
        name: name.to_string(),
        host_api,
        max_input_channels: inputs,
        max_output_channels: outputs,
    })
}

fn catalog() -> Catalog {
    Catalog {
        host_apis: vec![
            api(0, "MME"),
            api(1, "Windows DirectSound"),
            api(2, "Windows WASAPI"),
            api(3, "Windows WDM-KS"),
        ],
        devices: Some(vec![
            dev("Mic", 0, 2, 0),
            dev("Speakers", 0, 0, 2),
            dev("Headset", 2, 1, 2),
            dev("Control", 2, 0, 0),
            dev("Line Out", 2, 0, 8),
            dev("Line In", 2, 2, 0),
            dev("DS Speakers", 1, 0, 2),
        ]),
    }
}

fn strings(v: &[&str]) -> Vec<String> {
    v.iter().map(|s| s.to_string()).collect()
}

#[test]
fn wasapi_single_device_gets_loopback_entry() {
    let c = Catalog {
        host_apis: vec![api(0, "Windows WASAPI")],
        devices: Some(vec![dev("DeviceName", 0, 2, 2)]),
    };
    let (inputs, outputs) = enumerate("WASAPI", &c).ok().unwrap();
    assert_eq!(inputs, strings(&["DeviceName", "DeviceName [Loopback]"]));
    assert_eq!(outputs, strings(&["DeviceName"]));
}

#[test]
fn unknown_backend_gives_two_empty_lists() {
    let (inputs, outputs) = enumerate("ASIO", &catalog()).ok().unwrap();
    assert!(inputs.is_empty());
    assert!(outputs.is_empty());
    let empty = Catalog { host_apis: vec![], devices: None };
    let (inputs, outputs) = enumerate("", &empty).ok().unwrap();
    assert!(inputs.is_empty() && outputs.is_empty());
}

#[test]
fn mme_lists_only_its_own_devices_in_order() {
    let (inputs, outputs) = enumerate("MME", &catalog()).ok().unwrap();
    assert_eq!(inputs, strings(&["Mic"]));
    assert_eq!(outputs, strings(&["Speakers"]));
}

#[test]
fn wasapi_adds_loopback_for_each_output_and_skips_silent_devices() {
    let (inputs, outputs) = enumerate("WASAPI", &catalog()).ok().unwrap();
    assert_eq!(
        inputs,
        strings(&["Headset", "Headset [Loopback]", "Line Out [Loopback]", "Line In"])
    );
    assert_eq!(outputs, strings(&["Headset", "Line Out"]));
    for o in &outputs {
        assert!(inputs.contains(&format!("{} [Loopback]", o)));
    }
}

#[test]
fn directsound_has_no_loopback_entries() {
    let (inputs, outputs) = enumerate("DirectSound", &catalog()).ok().unwrap();
    assert!(inputs.is_empty());
    assert_eq!(outputs, strings(&["DS Speakers"]));
}

#[test]
fn missing_host_api_is_an_error() {
    match enumerate("WDM-KS", &Catalog { host_apis: vec![api(0, "MME")], devices: Some(vec![]) }) {
        Err(EnumerationError::BackendNotFound(name)) => assert_eq!(name, "Windows WDM-KS"),
        _ => panic!("expected BackendNotFound"),
    }
}

#[test]
fn failed_device_listing_is_an_error() {
    let c = Catalog { host_apis: vec![api(0, "MME")], devices: None };
    assert!(matches!(enumerate("MME", &c), Err(EnumerationError::DeviceQuery)));
    let c = Catalog { host_apis: vec![api(0, "MME")], devices: Some(vec![dev("Mic", 0, 2, 0), None]) };
    assert!(matches!(enumerate("MME", &c), Err(EnumerationError::DeviceQuery)));
}

#[test]
fn first_host_api_of_a_name_is_used() {
    let c = Catalog {
        host_apis: vec![api(5, "MME"), api(6, "MME")],
        devices: Some(vec![dev("A", 6, 1, 0), dev("B", 5, 1, 0)]),
    };
    let (inputs, _) = enumerate("MME", &c).ok().unwrap();
    assert_eq!(inputs, strings(&["B"]));
}

#[test]
fn backend_names_map_to_host_apis() {
    assert_eq!(host_api_name("MME").unwrap(), "MME");
    assert_eq!(host_api_name("DirectSound").unwrap(), "Windows DirectSound");
    assert_eq!(host_api_name("WASAPI").unwrap(), "Windows WASAPI");
    assert_eq!(host_api_name("WDM-KS").unwrap(), "Windows WDM-KS");
    assert!(host_api_name("wasapi").is_none());
}
