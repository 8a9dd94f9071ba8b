//! Resolves the devices that an audio backend offers, from a catalog that
//! the native audio subsystem reported.

use vstd::prelude::*;

verus! {

/// One host API (audio backend) as the native subsystem reports it.
pub struct HostApi {
    pub index: i32,
    pub name: String,
}

/// One device as the native subsystem reports it.
pub struct DeviceInfo {
    pub name: String,
    pub host_api: i32,
    pub max_input_channels: i32,
    pub max_output_channels: i32,
}

/// What the native audio subsystem reported: its host APIs, and its devices.
/// `devices` is `None` when the device list could not be obtained; an entry
/// is `None` when that device's details could not be read.
pub struct Catalog {
    pub host_apis: Vec<HostApi>,
    pub devices: Option<Vec<Option<DeviceInfo>>>,
}

pub enum EnumerationError {
    /// The native audio subsystem could not be initialised.
    SubsystemInit(String),
    /// The host API that the backend maps to is not present; holds its name.
    BackendNotFound(String),
    /// The device list, or one device's details, could not be read.
    DeviceQuery,
}

pub open spec fn loopback_suffix() -> Seq<char> {
    " [Loopback]"@
}

/// The native host API name for a backend identifier, if it is one of the four.
pub open spec fn host_api_name_spec(backend: Seq<char>) -> Option<Seq<char>> {
    if backend == "MME"@ {
        Some("MME"@)
    } else if backend == "DirectSound"@ {
        Some("Windows DirectSound"@)
    } else if backend == "WASAPI"@ {
        Some("Windows WASAPI"@)
    } else if backend == "WDM-KS"@ {
        Some("Windows WDM-KS"@)
    } else {
        None
    }
}

/// The index of the first host API called `name`.
pub open spec fn host_index_of(apis: Seq<HostApi>, name: Seq<char>) -> Option<i32>
    decreases apis.len(),
{
    if apis.len() == 0 {
        None
    } else {
        match host_index_of(apis.drop_last(), name) {
            Some(k) => Some(k),
            None => if apis.last().name@ == name {
                Some(apis.last().index)
            } else {
                None
            },
        }
    }
}

/// Whether some device entry could not be read.
pub open spec fn has_failed_entry(devs: Seq<Option<DeviceInfo>>) -> bool {
    exists|i: int| 0 <= i < devs.len() && (#[trigger] devs[i]).is_none()
}

/// The input entries that one device contributes under host API `host`.
pub open spec fn device_inputs(d: Option<DeviceInfo>, host: i32, loopback: bool) -> Seq<Seq<char>> {
    match d {
        Some(info) => if info.host_api != host {
            Seq::empty()
        } else {
            (if info.max_input_channels > 0 {
                seq![info.name@]
            } else {
                Seq::empty()
            }) + (if loopback && info.max_output_channels > 0 {
                seq![info.name@ + loopback_suffix()]
            } else {
                Seq::empty()
            })
        },
        None => Seq::empty(),
    }
}

/// The output entries that one device contributes under host API `host`.
pub open spec fn device_outputs(d: Option<DeviceInfo>, host: i32) -> Seq<Seq<char>> {
    match d {
        Some(info) => if info.host_api == host && info.max_output_channels > 0 {
            seq![info.name@]
        } else {
            Seq::empty()
        },
        None => Seq::empty(),
    }
}

/// The input list, in enumeration order.
pub open spec fn input_names(devs: Seq<Option<DeviceInfo>>, host: i32, loopback: bool) -> Seq<Seq<char>>
    decreases devs.len(),
{
    if devs.len() == 0 {
        Seq::empty()
    } else {
        input_names(devs.drop_last(), host, loopback) + device_inputs(devs.last(), host, loopback)
    }
}

/// The output list, in enumeration order.
pub open spec fn output_names(devs: Seq<Option<DeviceInfo>>, host: i32) -> Seq<Seq<char>>
    decreases devs.len(),
{
    if devs.len() == 0 {
        Seq::empty()
    } else {
        output_names(devs.drop_last(), host) + device_outputs(devs.last(), host)
    }
}

pub open spec fn views(v: Seq<String>) -> Seq<Seq<char>> {
    v.map_values(|s: String| s@)
}

/// The lists a successful enumeration yields, as views.
pub open spec fn lists_of(r: (Vec<String>, Vec<String>)) -> (Seq<Seq<char>>, Seq<Seq<char>>) {
    (views(r.0@), views(r.1@))
}

/// What `enumerate` returns for a backend identifier and a catalog.
pub open spec fn enumerate_spec(
    backend: Seq<char>,
    catalog: &Catalog,
    r: Result<(Vec<String>, Vec<String>), EnumerationError>,
) -> bool {
    match host_api_name_spec(backend) {
        None => r is Ok && lists_of(r->Ok_0) == (Seq::<Seq<char>>::empty(), Seq::<Seq<char>>::empty()),
        Some(api) => match host_index_of(catalog.host_apis@, api) {
            None => match r {
                Err(EnumerationError::BackendNotFound(n)) => n@ == api,
                _ => false,
            },
            Some(h) => match catalog.devices {
                None => r matches Err(EnumerationError::DeviceQuery),
                Some(ds) => if has_failed_entry(ds@) {
                    r matches Err(EnumerationError::DeviceQuery)
                } else {
                    r is Ok && lists_of(r->Ok_0) == (
                        input_names(ds@, h, backend == "WASAPI"@),
                        output_names(ds@, h),
                    )
                },
            },
        },
    }
}

/// Maps a backend identifier to the native host API name it stands for.
pub fn host_api_name(backend: &str) -> (r: Option<String>)
    ensures
        match r {
            Some(n) => host_api_name_spec(backend@) == Some(n@),
            None => host_api_name_spec(backend@) is None,
        },
{
    let b = String::from_str(backend);
    if b == String::from_str("MME") {
        Some(String::from_str("MME"))
    } else if b == String::from_str("DirectSound") {
        Some(String::from_str("Windows DirectSound"))
    } else if b == String::from_str("WASAPI") {
        Some(String::from_str("Windows WASAPI"))
    } else if b == String::from_str("WDM-KS") {
        Some(String::from_str("Windows WDM-KS"))
    } else {
        None
    }
}

/// The index of the first host API whose name is `name`.
pub fn find_host_index(apis: &Vec<HostApi>, name: &String) -> (r: Option<i32>)
    ensures
        r == host_index_of(apis@, name@),
{
    let mut i: usize = 0;
    while i < apis.len()
        invariant
            i <= apis@.len(),
            host_index_of(apis@.take(i as int), name@) is None,
        decreases apis@.len() - i,
    {
        assert(apis@.take(i + 1).drop_last() == apis@.take(i as int));
        if apis[i].name == *name {
            proof {
                lemma_host_index_prefix(apis@, name@, i + 1);
            }
            return Some(apis[i].index);
        }
        i = i + 1;
    }
    assert(apis@.take(i as int) == apis@);
    None
}

proof fn lemma_host_index_prefix(apis: Seq<HostApi>, name: Seq<char>, n: int)
    requires
        0 < n <= apis.len(),
        host_index_of(apis.take(n), name) is Some,
    ensures
        host_index_of(apis, name) == host_index_of(apis.take(n), name),
    decreases apis.len(),
{
    if n < apis.len() {
        assert(apis.drop_last().take(n) == apis.take(n));
        lemma_host_index_prefix(apis.drop_last(), name, n);
    } else {
        assert(apis.take(n) == apis);
    }
}

/// Lists the input and output devices that `backend` offers in `catalog`,
/// in the catalog's order. An identifier other than `MME`, `DirectSound`,
/// `WASAPI` and `WDM-KS` yields two empty lists. Under `WASAPI` every device
/// with output channels also yields an input entry with a loopback suffix.
pub fn enumerate(backend: &str, catalog: &Catalog) -> (r: Result<(Vec<String>, Vec<String>), EnumerationError>)
    ensures
        enumerate_spec(backend@, catalog, r),
{
    let api = match host_api_name(backend) {
        Some(api) => api,
        None => {
            let r = (Vec::new(), Vec::new());
            assert(lists_of(r).0 == Seq::<Seq<char>>::empty());
            assert(lists_of(r).1 == Seq::<Seq<char>>::empty());
            return Ok(r);
        },
    };
    let host = match find_host_index(&catalog.host_apis, &api) {
        Some(h) => h,
        None => {
            return Err(EnumerationError::BackendNotFound(api));
        },
    };
    let devs = match &catalog.devices {
        Some(d) => d,
        None => {
            return Err(EnumerationError::DeviceQuery);
        },
    };
    let loopback = String::from_str(backend) == String::from_str("WASAPI");
    let mut inputs: Vec<String> = Vec::new();
    let mut outputs: Vec<String> = Vec::new();
    let mut i: usize = 0;
    while i < devs.len()
        invariant
            i <= devs@.len(),
            loopback == (backend@ == "WASAPI"@),
            catalog.devices == Some(*devs),
            host_api_name_spec(backend@) == Some(api@),
            host_index_of(catalog.host_apis@, api@) == Some(host),
            forall|j: int| 0 <= j < i ==> (#[trigger] devs@[j]).is_some(),
            views(inputs@) == input_names(devs@.take(i as int), host, loopback),
            views(outputs@) == output_names(devs@.take(i as int), host),
        decreases devs@.len() - i,
    {
        assert(devs@.take(i + 1).drop_last() == devs@.take(i as int));
        assert(devs@.take(i + 1).last() == devs@[i as int]);
        match &devs[i] {
            None => {
                assert(devs@[i as int].is_none());
                return Err(EnumerationError::DeviceQuery);
            },
            Some(info) => {
                if info.host_api == host {
                    if info.max_input_channels > 0 {
                        inputs.push(info.name.clone());
                    }
                    if loopback && info.max_output_channels > 0 {
                        inputs.push(info.name.clone().concat(" [Loopback]"));
                    }
                    if info.max_output_channels > 0 {
                        outputs.push(info.name.clone());
                    }
                }
            },
        }
        assert(views(inputs@) == input_names(devs@.take(i + 1), host, loopback));
        assert(views(outputs@) == output_names(devs@.take(i + 1), host));
        i = i + 1;
    }
    assert(devs@.take(i as int) == devs@);
    Ok((inputs, outputs))
}

/// Device `i` of the catalog is on host API `host` and has output channels.
pub open spec fn outputs_on(devs: Seq<Option<DeviceInfo>>, i: int, host: i32) -> bool {
    &&& 0 <= i < devs.len()
    &&& devs[i] is Some
    &&& devs[i]->0.host_api == host
    &&& devs[i]->0.max_output_channels > 0
}

/// Device `i` of the catalog is on host API `host` and has input channels.
pub open spec fn inputs_on(devs: Seq<Option<DeviceInfo>>, i: int, host: i32) -> bool {
    &&& 0 <= i < devs.len()
    &&& devs[i] is Some
    &&& devs[i]->0.host_api == host
    &&& devs[i]->0.max_input_channels > 0
}

/// `e` is the name of a device on host API `host` with output channels.
pub open spec fn names_output_device(devs: Seq<Option<DeviceInfo>>, host: i32, e: Seq<char>) -> bool {
    exists|i: int| outputs_on(devs, i, host) && devs[i]->0.name@ == e
}

/// `e` is the name of a device on host API `host` with input channels or,
/// with loopback entries, such a name of a device with output channels
/// followed by the loopback suffix.
pub open spec fn names_input_device(
    devs: Seq<Option<DeviceInfo>>,
    host: i32,
    loopback: bool,
    e: Seq<char>,
) -> bool {
    exists|i: int|
        (inputs_on(devs, i, host) && devs[i]->0.name@ == e) || (loopback && outputs_on(devs, i, host)
            && devs[i]->0.name@ + loopback_suffix() == e)
}

/// Every listed entry stands for a device of the resolved host API alone:
/// an output entry is the name of a device there with output channels; an
/// input entry is the name of a device there with input channels, or, with
/// loopback entries, the name of a device there with output channels followed
/// by the loopback suffix.
pub proof fn lemma_entries_belong_to_host(devs: Seq<Option<DeviceInfo>>, host: i32, loopback: bool)
    ensures
        forall|k: int|
            0 <= k < output_names(devs, host).len() ==> names_output_device(
                devs,
                host,
                #[trigger] output_names(devs, host)[k],
            ),
        forall|k: int|
            0 <= k < input_names(devs, host, loopback).len() ==> names_input_device(
                devs,
                host,
                loopback,
                #[trigger] input_names(devs, host, loopback)[k],
            ),
    decreases devs.len(),
{
    if devs.len() > 0 {
        let pre = devs.drop_last();
        let n = devs.len() - 1;
        lemma_entries_belong_to_host(pre, host, loopback);
        assert forall|k: int| 0 <= k < output_names(devs, host).len() implies names_output_device(
            devs,
            host,
            #[trigger] output_names(devs, host)[k],
        ) by {
            if k < output_names(pre, host).len() {
                assert(names_output_device(pre, host, output_names(pre, host)[k]));
                let i = choose|i: int|
                    outputs_on(pre, i, host) && pre[i]->0.name@ == output_names(pre, host)[k];
                assert(outputs_on(devs, i, host));
            } else {
                assert(outputs_on(devs, n, host));
            }
        }
        assert forall|k: int| 0 <= k < input_names(devs, host, loopback).len() implies names_input_device(
            devs,
            host,
            loopback,
            #[trigger] input_names(devs, host, loopback)[k],
        ) by {
            let e = input_names(devs, host, loopback)[k];
            if k < input_names(pre, host, loopback).len() {
                assert(names_input_device(pre, host, loopback, input_names(pre, host, loopback)[k]));
                let i = choose|i: int|
                    (inputs_on(pre, i, host) && pre[i]->0.name@ == e) || (loopback && outputs_on(
                        pre,
                        i,
                        host,
                    ) && pre[i]->0.name@ + loopback_suffix() == e);
                assert(pre[i] == devs[i]);
                assert((inputs_on(devs, i, host) && devs[i]->0.name@ == e) || (loopback
                    && outputs_on(devs, i, host) && devs[i]->0.name@ + loopback_suffix() == e));
            } else {
                let last_in = device_inputs(devs[n], host, loopback);
                let j = k - input_names(pre, host, loopback).len();
                assert(e == last_in[j]);
                let d = devs[n]->0;
                if d.max_input_channels > 0 && j == 0 {
                    assert(inputs_on(devs, n, host) && devs[n]->0.name@ == e);
                } else {
                    assert(loopback && outputs_on(devs, n, host) && devs[n]->0.name@
                        + loopback_suffix() == e);
                }
            }
        }
    } else {
        assert(output_names(devs, host).len() == 0);
        assert(input_names(devs, host, loopback).len() == 0);
    }
}

/// Under loopback (the `WASAPI` backend) each output entry has an input entry
/// that is the same name followed by the loopback suffix.
pub proof fn lemma_loopback_for_each_output(devs: Seq<Option<DeviceInfo>>, host: i32)
    ensures
        forall|k: int|
            0 <= k < output_names(devs, host).len() ==> input_names(devs, host, true).contains(
                #[trigger] output_names(devs, host)[k] + loopback_suffix(),
            ),
    decreases devs.len(),
{
    if devs.len() > 0 {
        let pre = devs.drop_last();
        lemma_loopback_for_each_output(pre, host);
        let last_in = device_inputs(devs.last(), host, true);
        assert forall|k: int| 0 <= k < output_names(devs, host).len() implies input_names(
            devs,
            host,
            true,
        ).contains(#[trigger] output_names(devs, host)[k] + loopback_suffix()) by {
            let ins = input_names(devs, host, true);
            if k < output_names(pre, host).len() {
                let e = output_names(pre, host)[k] + loopback_suffix();
                assert(input_names(pre, host, true).contains(e));
                let j = choose|j: int| 0 <= j < input_names(pre, host, true).len()
                    && input_names(pre, host, true)[j] == e;
                assert(ins[j] == e);
            } else {
                assert(last_in[last_in.len() - 1] == devs.last()->0.name@ + loopback_suffix());
                assert(ins[ins.len() - 1] == last_in[last_in.len() - 1]);
            }
        }
    }
}

/// An identifier that is not one of the four backends gives two empty lists
/// and no error, whatever the catalog holds.
pub proof fn lemma_unknown_backend_is_empty(
    backend: Seq<char>,
    catalog: &Catalog,
    r: Result<(Vec<String>, Vec<String>), EnumerationError>,
)
    requires
        enumerate_spec(backend, catalog, r),
        host_api_name_spec(backend) is None,
    ensures
        r is Ok,
        r->Ok_0.0@.len() == 0,
        r->Ok_0.1@.len() == 0,
{
    assert(views(r->Ok_0.0@).len() == r->Ok_0.0@.len());
    assert(views(r->Ok_0.1@).len() == r->Ok_0.1@.len());
}

/// Under the `WASAPI` backend every listed output device also appears among
/// the inputs with the loopback suffix.
pub proof fn lemma_wasapi_loopback_entries(
    catalog: &Catalog,
    r: Result<(Vec<String>, Vec<String>), EnumerationError>,
)
    requires
        enumerate_spec("WASAPI"@, catalog, r),
        r is Ok,
    ensures
        forall|k: int|
            0 <= k < lists_of(r->Ok_0).1.len() ==> lists_of(r->Ok_0).0.contains(
                #[trigger] lists_of(r->Ok_0).1[k] + loopback_suffix(),
            ),
{
    reveal_strlit("WASAPI");
    reveal_strlit("MME");
    reveal_strlit("DirectSound");
    assert("WASAPI"@.len() == 6 && "MME"@.len() == 3 && "DirectSound"@.len() == 11);
    assert("WASAPI"@ != "MME"@);
    assert("WASAPI"@ != "DirectSound"@);
    let api = "Windows WASAPI"@;
    assert(host_api_name_spec("WASAPI"@) == Some(api));
    if let Some(h) = host_index_of(catalog.host_apis@, api) {
        if let Some(ds) = catalog.devices {
            if !has_failed_entry(ds@) {
                lemma_loopback_for_each_output(ds@, h);
            }
        }
    }
}

} // verus!
