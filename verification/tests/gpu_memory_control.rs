use system_monitor::control::{poll_timeout, refresh_due, tick_rate_nanos, KeyInput, LoopState, TermEvent};
use system_monitor::gpu::{read_gpu, GpuInfo, GpuReadings, GpuWidget, GPU_INDEX};
use system_monitor::memory::{ram_tint, shows_swap};
use system_monitor::style::Tint;
use system_monitor::text::decimal_string;

#[test]
fn gpu_readings_convert_power_to_watts() {
    let info = GpuInfo::from_readings("RTX 4090".to_string(), 37, 1 << 30, 24 << 30, Some(65), Some(150_999));
    assert_eq!(info.power_usage, 150);
    assert_eq!(info.temperature, 65);
    assert_eq!(info.header_line(), " RTX 4090 | 37% | 150W ");
    assert_eq!(info.temperature_line(), " Temp: 65°C ");
    assert_eq!(info.temperature_tint(), Tint::Yellow);
}

#[test]
fn missing_gpu_readings_show_zero() {
    let info = GpuInfo::from_readings("T4".to_string(), 0, 0, 0, None, None);
    assert_eq!(info.power_usage, 0);
    assert_eq!(info.temperature, 0);
    assert_eq!(info.temperature_tint(), Tint::Green);
    let hot = GpuInfo::from_readings("T4".to_string(), 0, 0, 0, Some(81), Some(999));
    assert_eq!(hot.temperature_tint(), Tint::Red);
    assert_eq!(hot.power_usage, 0);
}

fn readings(
    name: Option<&str>,
    utilization: Option<u32>,
    memory: Option<(u64, u64)>,
    temperature: Option<u32>,
    power_milliwatts: Option<u32>,
) -> GpuReadings {
    GpuReadings {
        name: name.map(|n| n.to_string()),
        utilization,
        memory,
        temperature,
        power_milliwatts,
    }
}

#[test]
fn assemble_keeps_all_readings() {
    let info = GpuInfo::assemble(readings(Some("A100"), Some(99), Some((5, 80)), Some(70), Some(250_500))).unwrap();
    assert_eq!(info.name, "A100");
    assert_eq!(info.utilization, 99);
    assert_eq!(info.memory_used, 5);
    assert_eq!(info.memory_total, 80);
    assert_eq!(info.temperature, 70);
    assert_eq!(info.power_usage, 250);
}

#[test]
fn assemble_failed_sensor_reads_show_zero() {
    let info = GpuInfo::assemble(readings(Some("A100"), Some(12), Some((1, 2)), None, None)).unwrap();
    assert_eq!(info.temperature, 0);
    assert_eq!(info.power_usage, 0);
    assert_eq!(info.utilization, 12);
}

#[test]
fn assemble_without_name_utilization_or_memory_is_none() {
    assert!(GpuInfo::assemble(readings(None, None, None, None, None)).is_none());
    assert!(GpuInfo::assemble(readings(Some("A100"), None, None, None, None)).is_none());
    assert!(GpuInfo::assemble(readings(Some("A100"), Some(3), None, None, None)).is_none());
}

#[test]
fn read_gpu_stops_at_the_first_failed_read() {
    assert_eq!(GPU_INDEX, 0);
    let r = read_gpu();
    if r.name.is_none() {
        assert!(r.utilization.is_none() && r.memory.is_none());
    }
}

#[test]
fn gpu_widget_reads_without_panicking() {
    let mut w = GpuWidget::new();
    if let Some(info) = w.info() {
        assert!(info.power_usage <= u32::MAX / 1000);
    }
    w.refresh();
    let _ = w.info().is_some();
}

#[test]
fn memory_gauge() {
    assert_eq!(ram_tint(91), Tint::Red);
    assert_eq!(ram_tint(90), Tint::Yellow);
    assert_eq!(ram_tint(70), Tint::Cyan);
    assert!(shows_swap(1));
    assert!(!shows_swap(0));
}

#[test]
fn q_press_quits_and_stays_quit() {
    let mut s = LoopState::new();
    assert!(s.running());
    s.on_event(TermEvent::Key { pressed: false, key: KeyInput::Char('q') });
    assert!(s.running());
    s.on_event(TermEvent::Key { pressed: true, key: KeyInput::Char('x') });
    s.on_event(TermEvent::Other);
    assert!(s.running());
    s.on_event(TermEvent::Key { pressed: true, key: KeyInput::Char('q') });
    assert!(!s.running());
    s.on_event(TermEvent::Key { pressed: true, key: KeyInput::Other });
    assert!(!s.running());
}

#[test]
fn tick_timing() {
    assert_eq!(tick_rate_nanos(), 1_000_000_000);
    assert_eq!(poll_timeout(250_000_000), 750_000_000);
    assert_eq!(poll_timeout(2_000_000_000), 0);
    assert!(!refresh_due(999_999_999));
    assert!(refresh_due(1_000_000_000));
}

#[test]
fn timed_rounds_refresh_a_period_apart_and_quit_at_once() {
    const S: u128 = 1_000_000_000;
    let mut s = LoopState::new();
    assert_eq!(s.timeout(0), S);
    assert_eq!(s.timeout(S / 4), 3 * S / 4);
    assert!(!s.step(None, S / 2));
    assert!(!s.step(Some(TermEvent::Other), S - 1));
    assert!(s.step(None, S));
    s.refreshed(S + 300);
    assert_eq!(s.timeout(S + 300), S);
    assert!(!s.step(Some(TermEvent::Key { pressed: true, key: KeyInput::Char('x') }), 2 * S + 299));
    assert!(s.running());
    assert!(s.step(Some(TermEvent::Key { pressed: true, key: KeyInput::Char('q') }), 2 * S + 300));
    assert!(!s.running());
    assert_eq!(s.timeout(10 * S), 0);
}

#[test]
fn decimal_text() {
    assert_eq!(decimal_string(0), "0");
    assert_eq!(decimal_string(7), "7");
    assert_eq!(decimal_string(1024), "1024");
    assert_eq!(decimal_string(u64::MAX), "18446744073709551615");
}
