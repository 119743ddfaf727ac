use system_monitor::temperature::{checked_simplify_label, label_cell, label_from_lower, simplify_label};

#[test]
fn processor_sensors() {
    assert_eq!(simplify_label("CPU Package"), "CPU");
    assert_eq!(simplify_label("Core 1"), "C1");
    assert_eq!(simplify_label("coretemp Core 12"), "C1");
    assert_eq!(simplify_label("cpu die"), "CPU");
    assert_eq!(simplify_label("k10temp Tctl"), "CPU");
}

#[test]
fn other_known_sensors() {
    assert_eq!(simplify_label("GPU MTR Temp Sensor1"), "GPU");
    assert_eq!(simplify_label("nvidia"), "GPU");
    assert_eq!(simplify_label("amdgpu edge"), "GPU");
    assert_eq!(simplify_label("SOC MTR Temp Sensor0"), "SoC");
    assert_eq!(simplify_label("Battery"), "BAT");
    assert_eq!(simplify_label("NAND CH0 temp"), "SSD");
    assert_eq!(simplify_label("nvme Composite"), "nvme Compo");
    assert_eq!(simplify_label("acpitz temp1"), "SYS");
    assert_eq!(simplify_label("pch_cannonlake temp1"), "PCH");
}

#[test]
fn noise_sensors_are_dropped() {
    assert_eq!(simplify_label("PMU tdie1"), "");
    assert_eq!(simplify_label("tdev1"), "");
    assert_eq!(simplify_label("ANS"), "");
}

#[test]
fn fallback_is_cleaned_and_cut() {
    assert_eq!(simplify_label("TC0P"), "TC0P");
    assert_eq!(simplify_label("iwlwifi_1 temp1"), "iwlwifi_1 ");
    assert_eq!(simplify_label("x(y)!z"), "xyz");
    assert_eq!(simplify_label("ééééé héllo"), "ééééé");
}

#[test]
fn checked_labels_refuse_a_cut_inside_a_character() {
    assert_eq!(checked_simplify_label("aéééééé"), None);
    assert_eq!(checked_simplify_label("Core 3"), Some("C3".to_string()));
    assert_eq!(checked_simplify_label("ééééé héllo"), Some("ééééé".to_string()));
}

#[test]
fn label_cells_are_padded() {
    assert_eq!(label_cell("CPU"), " CPU   ");
    assert_eq!(label_cell("iwlwifi_1 "), " iwlwifi_1  ");
}

#[test]
fn labels_from_a_given_lowercase_form() {
    assert_eq!(label_from_lower("Core 5", "core 5"), "C5");
    assert_eq!(label_from_lower("Anything", "cpu"), "CPU");
    assert_eq!(label_from_lower("T(1)", "t(1)"), "T1");
}
