use hardware::cpu_architecture::{architecture_from, describe_processor};
use hardware::cpu_frequency::{next_frequency_path, next_range_paths};
use hardware::{get_cpu_architecture, get_cpu_freq_ranges, get_cpu_frequencies};

fn files(min: &str, max: &str) -> (Option<String>, Option<String>) {
    (Some(min.to_string()), Some(max.to_string()))
}

#[test]
fn frequencies_are_in_megahertz_and_end_at_a_gap() {
    let readings = vec![Some(1_800_000), Some(408_999), None, Some(2_400_000)];
    assert_eq!(get_cpu_frequencies(&readings), [1800, 408]);
    assert!(get_cpu_frequencies(&vec![]).is_empty());
    assert!(get_cpu_frequencies(&vec![None]).is_empty());
}

#[test]
fn frequency_files_are_asked_for_until_one_is_missing() {
    assert_eq!(
        next_frequency_path(&vec![]).as_deref(),
        Some("/sys/devices/system/cpu/cpu0/cpufreq/scaling_cur_freq")
    );
    assert_eq!(
        next_frequency_path(&vec![Some(1); 12]).as_deref(),
        Some("/sys/devices/system/cpu/cpu12/cpufreq/scaling_cur_freq")
    );
    assert_eq!(next_frequency_path(&vec![Some(1), None]), None);
}

#[test]
fn each_range_is_reported_once() {
    let cores = vec![
        files("408000\n", "1800000\n"),
        files(" 408000", "1800000"),
        files("408000", "2256000"),
        files("408500", "1800999"),
        files("408000", "2400000"),
    ];
    assert_eq!(get_cpu_freq_ranges(&cores), [(408, 1800), (408, 2256), (408, 2400)]);
}

#[test]
fn ranges_end_where_limits_are_missing() {
    let cores = vec![files("1000", "2000"), files("x", "2000"), files("3000", "4000")];
    assert_eq!(get_cpu_freq_ranges(&cores), [(1, 2)]);
    let cores = vec![(Some("1000".to_string()), None), files("3000", "4000")];
    assert!(get_cpu_freq_ranges(&cores).is_empty());
}

#[test]
fn range_files_are_asked_for_until_limits_are_missing() {
    let (min, max) = next_range_paths(&vec![files("1", "2")]).unwrap();
    assert_eq!(min, "/sys/devices/system/cpu/cpu1/cpufreq/scaling_min_freq");
    assert_eq!(max, "/sys/devices/system/cpu/cpu1/cpufreq/scaling_max_freq");
    assert!(next_range_paths(&vec![files("1", "4294967296")]).is_none());
}

const TABLE: &str = "processor\t: 0\nCPU implementer\t: 0x41\nCPU architecture: 8\nCPU part\t: 0xd05\n\n\
processor\t: 4\nCPU architecture: 8\nCPU part\t: 0xd0b\n\nprocessor\t: 5\nCPU part\t: 0xd0b\n";

#[test]
fn cores_are_named_in_order_and_once() {
    assert_eq!(describe_processor(TABLE).as_deref(), Some("ARMv8 (A55+A76)"));
    assert_eq!(get_cpu_architecture(Some(TABLE), None), "ARMv8 (A55+A76)");
    let table = "CPU part: 0xd46\nCPU part: 0xd03\nCPU part: 0xd40\nCPU part: 0xd04\nCPU architecture: 9";
    assert_eq!(describe_processor(table).as_deref(), Some("ARMv9 (A35+A510+A53+N1)"));
}

#[test]
fn all_known_cores_are_named() {
    let parts = [
        "0xd03", "0xd04", "0xd05", "0xd07", "0xd08", "0xd09", "0xd0a", "0xd0b", "0xd0d", "0xd40",
        "0xd41", "0xd44", "0xd46", "0xd47", "0xd48", "0xd4d",
    ];
    let mut table = "CPU architecture: 8\n".to_string();
    for part in parts {
        table.push_str(&format!("CPU part : {}\n", part));
    }
    assert_eq!(
        describe_processor(&table).as_deref(),
        Some("ARMv8 (A35+A510+A53+A55+A57+A710+A715+A72+A73+A75+A76+A77+A78+N1+X1+X2)")
    );
}

#[test]
fn the_last_architecture_counts() {
    let table = "CPU architecture: 7\nCPU architecture: 8\nCPU part: 0xfff\n";
    assert_eq!(describe_processor(table).as_deref(), Some("ARMv8"));
    assert_eq!(describe_processor("CPU part: 0xd05\n"), None);
    assert_eq!(describe_processor(""), None);
}

#[test]
fn the_machine_is_told_without_a_table() {
    assert_eq!(architecture_from(Some("model name: x"), Some("aarch64\n")), "aarch64");
    assert_eq!(get_cpu_architecture(None, Some(&b"x86_64\n".to_vec())), "x86_64");
    assert_eq!(get_cpu_architecture(None, None), "Unknown");
}

#[test]
fn bytes_that_are_no_text_are_replaced() {
    assert_eq!(get_cpu_architecture(None, Some(&vec![b'a', 0xff, b'\n'])), "a\u{fffd}");
}

#[test]
fn only_the_part_numbers_matter() {
    let there = "CPU architecture: 8\nCPU part: 0xd05\nCPU part: 0xd0b\n";
    let back = "CPU architecture: 8\nCPU part: 0xd0b\nCPU part: 0xd05\nCPU part: 0xd0b\n";
    assert_eq!(describe_processor(there), describe_processor(back));
    assert_eq!(describe_processor("CPU architecture: 8\nCPU part: 0xD05").as_deref(), Some("ARMv8"));
}
