//! GPU panel: readings of the first NVIDIA GPU through NVML, and the lines
//! and colours the panel shows for them.

use vstd::prelude::*;
use crate::style::Tint;
use crate::text::{chars_of, decimal, decimal_string, push_str, string_of};

verus! {

/// NVML's library handle (`nvml_wrapper::Nvml`), carried through opaquely.
#[verifier::external_type_specification]
#[verifier::external_body]
pub struct ExNvml(nvml_wrapper::Nvml);

/// A device handle borrowed from an NVML handle (`nvml_wrapper::Device`),
/// carried through opaquely.
#[verifier::external_type_specification]
#[verifier::external_body]
pub struct ExNvmlDevice<'a>(nvml_wrapper::Device<'a>);

/// NVML's error type (`nvml_wrapper::error::NvmlError`), carried through opaquely.
#[verifier::external_type_specification]
#[verifier::external_body]
pub struct ExNvmlError(nvml_wrapper::error::NvmlError);

/// `nvml_wrapper::Nvml::init`: loads and initialises the NVML library.
/// Whether it succeeds depends on the machine, so nothing is claimed.
#[verifier::external_body]
fn nvml_init() -> (r: Result<nvml_wrapper::Nvml, nvml_wrapper::error::NvmlError>) {
    nvml_wrapper::Nvml::init()
}

/// `nvml_wrapper::Nvml::device_by_index`: the handle of GPU `index`.
/// Depends on the machine; nothing is claimed. The panel shows one GPU, and
/// the precondition holds every call to it.
#[verifier::external_body]
fn nvml_device_by_index<'a>(nvml: &'a nvml_wrapper::Nvml, index: u32) -> (r: Result<
    nvml_wrapper::Device<'a>,
    nvml_wrapper::error::NvmlError,
>)
    requires
        index == GPU_INDEX,
{
    nvml.device_by_index(index)
}

/// `nvml_wrapper::Device::name`: the product name. Depends on the device;
/// nothing is claimed.
#[verifier::external_body]
fn device_name(device: &nvml_wrapper::Device<'_>) -> (r: Result<String, nvml_wrapper::error::NvmlError>) {
    device.name()
}

/// `nvml_wrapper::Device::utilization_rates`, keeping its `gpu` field (the
/// percentage of time a kernel ran). Depends on the device; nothing is claimed.
#[verifier::external_body]
fn device_gpu_utilization(device: &nvml_wrapper::Device<'_>) -> (r: Result<
    u32,
    nvml_wrapper::error::NvmlError,
>) {
    match device.utilization_rates() {
        Ok(u) => Ok(u.gpu),
        Err(e) => Err(e),
    }
}

/// `nvml_wrapper::Device::memory_info`, keeping its `used` and `total`
/// fields in bytes. Depends on the device; nothing is claimed.
#[verifier::external_body]
fn device_memory(device: &nvml_wrapper::Device<'_>) -> (r: Result<
    (u64, u64),
    nvml_wrapper::error::NvmlError,
>) {
    match device.memory_info() {
        Ok(m) => Ok((m.used, m.total)),
        Err(e) => Err(e),
    }
}

/// `nvml_wrapper::Device::temperature` for the GPU-die sensor, in °C.
/// Depends on the device; nothing is claimed.
#[verifier::external_body]
fn device_die_temperature(device: &nvml_wrapper::Device<'_>) -> (r: Result<
    u32,
    nvml_wrapper::error::NvmlError,
>) {
    device.temperature(nvml_wrapper::enum_wrappers::device::TemperatureSensor::Gpu)
}

/// `nvml_wrapper::Device::power_usage`, in milliwatts. Depends on the
/// device; nothing is claimed.
#[verifier::external_body]
fn device_power_usage(device: &nvml_wrapper::Device<'_>) -> (r: Result<
    u32,
    nvml_wrapper::error::NvmlError,
>) {
    device.power_usage()
}

/// The readings the GPU panel shows.
pub struct GpuInfo {
    pub name: String,
    pub utilization: u32,
    pub memory_used: u64,
    pub memory_total: u64,
    pub temperature: u32,
    pub power_usage: u32,
}

impl GpuInfo {
    /// Panel readings from raw device readings: a missing temperature or
    /// power reading shows as 0, and power is converted from milliwatts to
    /// whole watts (rounded down).
    pub fn from_readings(
        name: String,
        utilization: u32,
        memory_used: u64,
        memory_total: u64,
        temperature: Option<u32>,
        power_milliwatts: Option<u32>,
    ) -> (info: GpuInfo)
        ensures
            info.name@ == name@,
            info.utilization == utilization,
            info.memory_used == memory_used,
            info.memory_total == memory_total,
            info.temperature == match temperature {
                Some(t) => t,
                None => 0,
            },
            info.power_usage == match power_milliwatts {
                Some(p) => p / 1000,
                None => 0,
            },
    {
        let temperature = match temperature {
            Some(t) => t,
            None => 0,
        };
        let power = match power_milliwatts {
            Some(p) => p,
            None => 0,
        };
        GpuInfo {
            name,
            utilization,
            memory_used,
            memory_total,
            temperature,
            power_usage: power / 1000,
        }
    }

    /// The first line: ` {name} | {utilization}% | {power}W `.
    pub fn header_line(&self) -> (s: String)
        ensures
            s@ == seq![' '] + self.name@ + " | "@ + decimal(self.utilization as nat) + "% | "@
                + decimal(self.power_usage as nat) + "W "@,
    {
        let mut v: Vec<char> = Vec::new();
        v.push(' ');
        push_str(&mut v, self.name.as_str());
        push_str(&mut v, " | ");
        let u = decimal_string(self.utilization as u64);
        push_str(&mut v, u.as_str());
        push_str(&mut v, "% | ");
        let p = decimal_string(self.power_usage as u64);
        push_str(&mut v, p.as_str());
        push_str(&mut v, "W ");
        assert(v@ =~= seq![' '] + self.name@ + " | "@ + decimal(self.utilization as nat) + "% | "@
            + decimal(self.power_usage as nat) + "W "@);
        string_of(&v)
    }

    /// The temperature line: ` Temp: {temperature}°C `.
    pub fn temperature_line(&self) -> (s: String)
        ensures
            s@ == " Temp: "@ + decimal(self.temperature as nat) + "°C "@,
    {
        let mut v = chars_of(" Temp: ");
        let t = decimal_string(self.temperature as u64);
        push_str(&mut v, t.as_str());
        push_str(&mut v, "°C ");
        string_of(&v)
    }

    /// The temperature line's colour: red above 80 °C, yellow above 60 °C,
    /// green otherwise.
    pub fn temperature_tint(&self) -> (t: Tint)
        ensures
            t == if self.temperature > 80 {
                Tint::Red
            } else if self.temperature > 60 {
                Tint::Yellow
            } else {
                Tint::Green
            },
    {
        if self.temperature > 80 {
            Tint::Red
        } else if self.temperature > 60 {
            Tint::Yellow
        } else {
            Tint::Green
        }
    }
}

/// True for readings a device can have produced: power in whole watts from
/// a `u32` milliwatt reading.
pub open spec fn plausible(info: Option<GpuInfo>) -> bool {
    info matches Some(i) ==> i.power_usage <= u32::MAX / 1000
}

/// The GPU the panel reads: the first one NVML lists.
pub const GPU_INDEX: u32 = 0;

/// The raw results of reading the GPU: `None` for a read that failed or
/// was not made.
pub struct GpuReadings {
    pub name: Option<String>,
    pub utilization: Option<u32>,
    pub memory: Option<(u64, u64)>,
    pub temperature: Option<u32>,
    pub power_milliwatts: Option<u32>,
}

/// True when the reads stop at the first failure among name, utilisation
/// and memory: what follows a failed one is not read.
pub open spec fn reads_in_order(r: GpuReadings) -> bool {
    &&& r.name is None ==> r.utilization is None
    &&& r.utilization is None ==> r.memory is None
    &&& r.memory is None ==> r.temperature is None && r.power_milliwatts is None
}

/// True when `info` is what the panel shows for the readings `r`: nothing
/// when the name, utilisation or memory read failed; otherwise those values,
/// the temperature or 0 when its read failed, and the power in whole watts
/// or 0 when its read failed.
pub open spec fn assembles(r: GpuReadings, info: Option<GpuInfo>) -> bool {
    &&& (info is None <==> (r.name is None || r.utilization is None || r.memory is None))
    &&& info matches Some(i) ==> {
        &&& i.name@ == r.name.unwrap()@
        &&& i.utilization == r.utilization.unwrap()
        &&& i.memory_used == r.memory.unwrap().0
        &&& i.memory_total == r.memory.unwrap().1
        &&& i.temperature == match r.temperature {
            Some(t) => t,
            None => 0,
        }
        &&& i.power_usage == match r.power_milliwatts {
            Some(p) => p / 1000,
            None => 0,
        }
    }
}

/// Failed sensor reads never hide the GPU: whenever the name, utilisation
/// and memory were read, the panel shows exactly those values, the
/// temperature (0 when its read failed) and the power in whole watts
/// rounded down from milliwatts (0 when its read failed); without any of
/// the first three it shows nothing.
pub proof fn law_assembled_readings(r: GpuReadings, info: Option<GpuInfo>)
    requires
        assembles(r, info),
    ensures
        (r.name is Some && r.utilization is Some && r.memory is Some) <==> info is Some,
        info matches Some(i) ==> {
            &&& r.name.unwrap()@ == i.name@
            &&& r.utilization == Some(i.utilization)
            &&& r.memory == Some((i.memory_used, i.memory_total))
            &&& (r.temperature is None ==> i.temperature == 0)
            &&& (r.temperature matches Some(t) ==> i.temperature == t)
            &&& (r.power_milliwatts is None ==> i.power_usage == 0)
            &&& (r.power_milliwatts matches Some(p) ==> i.power_usage * 1000 <= p < i.power_usage * 1000
                + 1000)
        },
{
}

/// Reads GPU `GPU_INDEX` through NVML: its name, then utilisation, then
/// memory (stopping at the first that fails), then temperature and power.
/// When NVML cannot be loaded or there is no such GPU, nothing is read.
pub fn read_gpu() -> (r: GpuReadings)
    ensures
        reads_in_order(r),
{
    let nothing = GpuReadings {
        name: None,
        utilization: None,
        memory: None,
        temperature: None,
        power_milliwatts: None,
    };
    let nvml = match nvml_init() {
        Ok(n) => n,
        Err(_) => return nothing,
    };
    let device = match nvml_device_by_index(&nvml, GPU_INDEX) {
        Ok(d) => d,
        Err(_) => return nothing,
    };
    let name = match device_name(&device) {
        Ok(n) => n,
        Err(_) => return nothing,
    };
    let utilization = match device_gpu_utilization(&device) {
        Ok(u) => u,
        Err(_) => return GpuReadings { name: Some(name), ..nothing },
    };
    let memory = match device_memory(&device) {
        Ok(m) => m,
        Err(_) => return GpuReadings { name: Some(name), utilization: Some(utilization), ..nothing },
    };
    let temperature = match device_die_temperature(&device) {
        Ok(t) => Some(t),
        Err(_) => None,
    };
    let power_milliwatts = match device_power_usage(&device) {
        Ok(p) => Some(p),
        Err(_) => None,
    };
    GpuReadings {
        name: Some(name),
        utilization: Some(utilization),
        memory: Some(memory),
        temperature,
        power_milliwatts,
    }
}

impl GpuInfo {
    /// What the panel shows for a set of readings (see `assembles`).
    pub fn assemble(readings: GpuReadings) -> (info: Option<GpuInfo>)
        ensures
            assembles(readings, info),
    {
        match (readings.name, readings.utilization, readings.memory) {
            (Some(name), Some(utilization), Some((used, total))) => Some(
                GpuInfo::from_readings(
                    name,
                    utilization,
                    used,
                    total,
                    readings.temperature,
                    readings.power_milliwatts,
                ),
            ),
            _ => None,
        }
    }
}

/// Reads GPU `GPU_INDEX` and assembles what the panel shows: the result is
/// `assemble` of readings of that GPU taken in order. `None` when NVML
/// cannot be loaded, there is no such GPU, or its name, utilisation or
/// memory cannot be read; a temperature or power read that fails shows as 0.
pub fn fetch_gpu_info() -> (r: Option<GpuInfo>)
    ensures
        exists|rd: GpuReadings| reads_in_order(rd) && #[trigger] assembles(rd, r),
        plausible(r),
{
    let readings = read_gpu();
    let ghost rd = readings;
    let r = GpuInfo::assemble(readings);
    assert(assembles(rd, r));
    r
}

/// The GPU panel's data: the latest readings, if a GPU was found.
pub struct GpuWidget {
    info: Option<GpuInfo>,
}

impl GpuWidget {
    /// A panel with fresh readings.
    pub fn new() -> (w: Self)
        ensures
            exists|rd: GpuReadings| reads_in_order(rd) && #[trigger] assembles(rd, w.info_spec()),
            plausible(w.info_spec()),
    {
        let info = fetch_gpu_info();
        GpuWidget { info }
    }

    /// Replaces the readings with fresh ones.
    pub fn refresh(&mut self)
        ensures
            exists|rd: GpuReadings|
                reads_in_order(rd) && #[trigger] assembles(rd, final(self).info_spec()),
            plausible(final(self).info_spec()),
    {
        self.info = fetch_gpu_info();
    }

    /// The readings the panel holds.
    pub closed spec fn info_spec(&self) -> Option<GpuInfo> {
        self.info
    }

    /// The readings the panel holds.
    pub fn info(&self) -> (i: &Option<GpuInfo>)
        ensures
            *i == self.info_spec(),
    {
        &self.info
    }
}

} // verus!
