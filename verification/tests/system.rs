use hardware::disk::{disk_mount_points, disk_space_adds_up, is_virtual_fs_type, FsStat};
use hardware::hwmon::{input_file, HwmonDevice, SensorValue};
use hardware::network::is_virtual_interface;
use hardware::thermal::{gpu_sensor_files, is_gpu_sensor, thermal_type_path};
use hardware::{
    get_disk_total, get_gpu_temperature, get_hwmon_sensors, get_network_adapters,
    get_thermal_cached, get_thermal_zone_paths,
};

fn strings(v: &[&str]) -> Vec<String> {
    v.iter().map(|s| s.to_string()).collect()
}

fn some(v: &[&str]) -> Vec<Option<String>> {
    v.iter().map(|s| Some(s.to_string())).collect()
}

fn stat(block_size: u64, blocks: u64, blocks_free: u64) -> Option<FsStat> {
    Some(FsStat { block_size, blocks, blocks_free })
}

#[test]
fn virtual_file_systems_do_not_count() {
    let table = "/dev/mmcblk0p2 / ext4 rw,noatime 0 0\nproc /proc proc rw 0 0\n\
tmpfs /tmp tmpfs rw 0 0\n/dev/nvme0n1p1 /data  xfs rw 0 0\nbroken line\n\noverlay /o overlay";
    assert_eq!(disk_mount_points(table), ["/", "/data", "/o"]);
}

#[test]
fn all_virtual_file_system_types_are_known() {
    for fs_type in [
        "tmpfs", "devtmpfs", "proc", "sysfs", "devpts", "cgroup", "cgroup2", "securityfs",
        "debugfs", "tracefs", "pstore", "bpf", "configfs", "hugetlbfs", "mqueue",
    ] {
        assert!(is_virtual_fs_type(fs_type));
    }
    assert!(!is_virtual_fs_type("ext4"));
    assert!(!is_virtual_fs_type("proc2"));
}

#[test]
fn disk_space_is_added_up() {
    let stats = vec![stat(4096, 100, 25), None, stat(512, 10, 10)];
    assert!(disk_space_adds_up(&stats));
    assert_eq!(get_disk_total(&stats), Some((4096 * 75, 4096 * 100 + 5120)));
}

#[test]
fn no_disk_space_is_no_total() {
    assert_eq!(get_disk_total(&vec![]), None);
    assert_eq!(get_disk_total(&vec![None, stat(4096, 0, 0)]), None);
}

#[test]
fn disk_space_beyond_64_bits_is_noticed() {
    assert!(!disk_space_adds_up(&vec![stat(u64::MAX, 2, 0)]));
    assert!(!disk_space_adds_up(&vec![stat(1, u64::MAX, 0), stat(1, 1, 0)]));
    assert!(!disk_space_adds_up(&vec![stat(1, 1, 2)]));
    assert!(disk_space_adds_up(&vec![stat(1, u64::MAX, 0), stat(1, 0, 0)]));
}

#[test]
fn adapters_are_sorted_and_real() {
    let names = strings(&["wlan0", "lo", "eth0", "docker0", "veth12", "br-1a", "dummy0", "eth10", "br0"]);
    assert_eq!(get_network_adapters(&names), ["br0", "eth0", "eth10", "wlan0"]);
    assert!(get_network_adapters(&vec![]).is_empty());
}

#[test]
fn listing_order_of_adapters_is_irrelevant() {
    let there = get_network_adapters(&strings(&["b", "a", "\u{e9}", "ab"]));
    let back = get_network_adapters(&strings(&["ab", "\u{e9}", "a", "b"]));
    assert_eq!(there, back);
    assert_eq!(there, ["a", "ab", "b", "\u{e9}"]);
}

#[test]
fn only_the_loopback_itself_is_lo() {
    assert!(is_virtual_interface("lo"));
    assert!(!is_virtual_interface("lo1"));
    assert!(!is_virtual_interface("mydocker"));
}

#[test]
fn thermal_zones_have_labels_and_files() {
    let entries = vec![
        ("thermal_zone0".to_string(), Some("soc_thermal\n".to_string())),
        ("cooling_device0".to_string(), Some("fan".to_string())),
        ("thermal_zone1".to_string(), None),
        ("thermal_zone2".to_string(), Some(" gpu ".to_string())),
    ];
    let zones = get_thermal_zone_paths(&entries);
    assert_eq!(zones.len(), 2);
    assert_eq!(zones[0].0, "soc");
    assert_eq!(zones[0].1, "/sys/class/thermal/thermal_zone0/temp");
    assert_eq!(zones[0].2, "/sys/class/thermal/thermal_zone0/type");
    assert_eq!(zones[1].0, "gpu");
}

#[test]
fn thermal_is_taken_out_of_labels_everywhere() {
    let entries = vec![("thermal_zone0".to_string(), Some("a_thermal_thermalb_thermal".to_string()))];
    assert_eq!(get_thermal_zone_paths(&entries)[0].0, "ab");
}

#[test]
fn only_thermal_zones_are_asked_for_their_type() {
    assert_eq!(
        thermal_type_path("thermal_zone7").as_deref(),
        Some("/sys/class/thermal/thermal_zone7/type")
    );
    assert_eq!(thermal_type_path("cooling_device1"), None);
}

fn zone(label: &str) -> (String, String, String) {
    (label.to_string(), "temp".to_string(), "type".to_string())
}

#[test]
fn temperatures_are_whole_degrees() {
    let zones = [zone("soc"), zone("gpu"), zone("npu"), zone("out"), zone("late")];
    let readings = vec![Some(45_999), None, Some(-1_500), Some(-999)];
    let expected = vec![("soc".to_string(), 45), ("npu".to_string(), -1), ("out".to_string(), 0)];
    assert_eq!(get_thermal_cached(&zones, &readings), expected);
}

#[test]
fn the_first_gpu_sensor_with_a_reading_counts() {
    let sensors = vec![
        (Some("soc".to_string()), Some(40_000)),
        (Some(" gpu_thermal\n".to_string()), None),
        (None, Some(50_000)),
        (Some("mali".to_string()), Some(61_500)),
    ];
    assert_eq!(get_gpu_temperature(&sensors), Some(61));
    assert_eq!(get_gpu_temperature(&vec![(Some("GPU".to_string()), Some(1000))]), None);
    assert!(is_gpu_sensor("mali0"));
    assert!(!is_gpu_sensor("npu"));
}

#[test]
fn four_sensors_are_tried_for_the_gpu() {
    let files = gpu_sensor_files();
    assert_eq!(files.len(), 4);
    for (i, (name, temp)) in files.iter().enumerate() {
        assert_eq!(name, &format!("/sys/class/hwmon/hwmon{}/name", i));
        assert_eq!(temp, &format!("/sys/class/hwmon/hwmon{}/temp1_input", i));
    }
}

#[test]
fn fans_come_before_power_sensors() {
    let device = HwmonDevice {
        name: Some("pwmfan\n".to_string()),
        fans: vec![Some("1200\n".to_string()), None, Some("stopped".to_string()), Some("0".to_string())],
        powers: some(&["2500000"]),
    };
    let sensors = get_hwmon_sensors(&vec![device]);
    assert_eq!(sensors.len(), 3);
    assert_eq!(sensors[0].0, "pwmfan Fan1");
    assert!(matches!(&sensors[0].1, SensorValue::Fan(speed) if speed == "1200 RPM"));
    assert_eq!(sensors[1].0, "pwmfan Fan4");
    assert!(matches!(&sensors[1].1, SensorValue::Fan(speed) if speed == "0 RPM"));
    assert_eq!(sensors[2].0, "pwmfan Power1");
    assert!(matches!(sensors[2].1, SensorValue::Power(2_500_000)));
}

#[test]
fn inputs_beyond_the_tenth_do_not_count() {
    let device = HwmonDevice { name: None, fans: some(&["1"; 11]), powers: some(&["1"; 12]) };
    let sensors = get_hwmon_sensors(&vec![device]);
    assert_eq!(sensors.len(), 20);
    assert_eq!(sensors[9].0, "unknown Fan10");
    assert_eq!(sensors[19].0, "unknown Power10");
}

#[test]
fn sensor_values_have_limits() {
    let device = HwmonDevice {
        name: Some(String::new()),
        fans: some(&["4294967296"]),
        powers: some(&["18446744073709551616", "18446744073709551615"]),
    };
    let sensors = get_hwmon_sensors(&vec![device]);
    assert_eq!(sensors.len(), 1);
    assert_eq!(sensors[0].0, " Power2");
    assert!(matches!(sensors[0].1, SensorValue::Power(u64::MAX)));
}

#[test]
fn inputs_have_numbered_files() {
    assert_eq!(input_file("fan", 1), "fan1_input");
    assert_eq!(input_file("power", 10), "power10_input");
}
