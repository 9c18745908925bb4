use hardware::gpu::{
    devfreq_load_number, gpu_devfreq_dirs, gpu_frequency_files, gpu_frequency_path,
    gpu_usage_from_dvfs_delta, usage_path, DevfreqDirs, DvfsSamples, FrequencyPath, GpuReading,
};
use hardware::gpu_source::GpuUsageSource;
use hardware::{get_gpu_frequency, get_gpu_usage, is_gpu_device_name, parse_dvfs_busy_idle};

fn devfreq_load(content: &str) -> Option<f32> {
    devfreq_load_number(content)?.parse::<f32>().ok()
}

fn strings(v: &[&str]) -> Vec<String> {
    v.iter().map(|s| s.to_string()).collect()
}

#[test]
fn parse_devfreq_load_rk3588_format() {
    assert_eq!(devfreq_load("0@1000000000Hz\n"), Some(0.0));
    assert_eq!(devfreq_load("99@1000000000Hz"), Some(99.0));
    assert_eq!(devfreq_load("  45@800000000Hz  "), Some(45.0));
    assert!(devfreq_load("").is_none());
    assert!(devfreq_load("not-a-load").is_none());
}

#[test]
fn parse_dvfs_includes_protm_as_busy() {
    let (busy, idle) = parse_dvfs_busy_idle("busy_time: 100 idle_time: 900 protm_time: 50\n").unwrap();
    assert_eq!(busy, 150);
    assert_eq!(idle, 900);
}

#[test]
fn gpu_device_name_excludes_npu_and_dmc() {
    assert!(is_gpu_device_name("fb000000.gpu"));
    assert!(is_gpu_device_name("fb000000.gpu-mali"));
    assert!(is_gpu_device_name("fb000000.gpu-panthor"));
    assert!(!is_gpu_device_name("fdab0000.npu"));
    assert!(!is_gpu_device_name("dmc"));
}

#[test]
fn gpu_device_name_ignores_case() {
    assert!(is_gpu_device_name("FB000000.GPU"));
    assert!(is_gpu_device_name("ff9a0000.Mali"));
    assert!(is_gpu_device_name("PanFrost"));
    assert!(!is_gpu_device_name(""));
}

#[test]
fn devfreq_load_takes_what_stands_before_the_at() {
    assert_eq!(devfreq_load_number("7@300000000Hz 8@1Hz").as_deref(), Some("7"));
    assert_eq!(devfreq_load_number("12").as_deref(), Some("12"));
    assert_eq!(devfreq_load_number("@5").as_deref(), Some(""));
    assert_eq!(devfreq_load_number(" \n"), None);
}

#[test]
fn counters_need_busy_and_idle() {
    assert_eq!(parse_dvfs_busy_idle("busy_time: 1 protm_time: 3"), None);
    assert_eq!(parse_dvfs_busy_idle("idle_time: 2"), None);
    assert_eq!(parse_dvfs_busy_idle(""), None);
    assert_eq!(parse_dvfs_busy_idle("busy_time 1 idle_time:: 2"), Some((1, 2)));
}

#[test]
fn counters_without_a_number_are_passed_over() {
    assert_eq!(parse_dvfs_busy_idle("busy_time: x busy_time: 4 idle_time: 5"), Some((4, 5)));
    assert_eq!(parse_dvfs_busy_idle("busy_time: 4 busy_time: 6 idle_time: 5"), Some((6, 5)));
    assert_eq!(parse_dvfs_busy_idle("busy_time: -1 idle_time: 5"), None);
    assert_eq!(parse_dvfs_busy_idle("busy_time: 4 idle_time: 5 busy_time:"), Some((4, 5)));
}

#[test]
fn busy_time_is_capped() {
    assert_eq!(
        parse_dvfs_busy_idle("busy_time: 18446744073709551615 idle_time: 1 protm_time: 2"),
        Some((u64::MAX, 1))
    );
    assert_eq!(parse_dvfs_busy_idle("busy_time: 18446744073709551616 idle_time: 1"), None);
}

#[test]
fn first_sample_is_idle_and_later_ones_are_shares() {
    let mut samples = DvfsSamples::new();
    let first = gpu_usage_from_dvfs_delta("busy_time: 100 idle_time: 900", &mut samples);
    assert!(matches!(first, Some(GpuReading::Idle)));
    let second = gpu_usage_from_dvfs_delta("busy_time: 130 idle_time: 970", &mut samples);
    assert!(matches!(second, Some(GpuReading::Share { busy: 30, total: 100 })));
    let third = gpu_usage_from_dvfs_delta("busy_time: 130 idle_time: 970", &mut samples);
    assert!(matches!(third, Some(GpuReading::Idle)));
}

#[test]
fn text_without_counters_keeps_the_last_sample() {
    let mut samples = DvfsSamples::new();
    gpu_usage_from_dvfs_delta("busy_time: 10 idle_time: 10", &mut samples);
    assert!(gpu_usage_from_dvfs_delta("nothing", &mut samples).is_none());
    let reading = gpu_usage_from_dvfs_delta("busy_time: 11 idle_time: 13", &mut samples);
    assert!(matches!(reading, Some(GpuReading::Share { busy: 1, total: 4 })));
}

#[test]
fn counters_that_fall_back_do_not_count() {
    let mut samples = DvfsSamples::new();
    gpu_usage_from_dvfs_delta("busy_time: 50 idle_time: 50", &mut samples);
    let reading = gpu_usage_from_dvfs_delta("busy_time: 10 idle_time: 55", &mut samples);
    assert!(matches!(reading, Some(GpuReading::Share { busy: 0, total: 5 })));
    let reading = gpu_usage_from_dvfs_delta("busy_time: 10 idle_time: 3", &mut samples);
    assert!(matches!(reading, Some(GpuReading::Idle)));
}

#[test]
fn usage_is_read_in_the_form_of_its_source() {
    let mut samples = DvfsSamples::new();
    let load = GpuUsageSource::DevfreqLoad("/sys/class/devfreq/fb000000.gpu/load".to_string());
    let reading = get_gpu_usage(Some(&load), Some("45@800000000Hz\n"), &mut samples);
    assert!(matches!(reading, Some(GpuReading::Percent(number)) if number == "45"));
    assert!(get_gpu_usage(Some(&load), Some(""), &mut samples).is_none());
    let busy = GpuUsageSource::DrmBusy("/sys/class/drm/card0/device/gpu_busy_percent".to_string());
    let reading = get_gpu_usage(Some(&busy), Some(" 17\n"), &mut samples);
    assert!(matches!(reading, Some(GpuReading::Percent(number)) if number == "17"));
    let counters = GpuUsageSource::DvfsUtilization;
    get_gpu_usage(Some(&counters), Some("busy_time: 0 idle_time: 0"), &mut samples);
    let reading = get_gpu_usage(Some(&counters), Some("busy_time: 3 idle_time: 1"), &mut samples);
    assert!(matches!(reading, Some(GpuReading::Share { busy: 3, total: 4 })));
}

#[test]
fn no_usage_without_a_source_or_its_file() {
    let mut samples = DvfsSamples::new();
    assert!(get_gpu_usage(None, Some("5"), &mut samples).is_none());
    let source = GpuUsageSource::Utilisation("x".to_string());
    assert!(get_gpu_usage(Some(&source), None, &mut samples).is_none());
}

#[test]
fn sources_know_their_files() {
    assert_eq!(usage_path(&GpuUsageSource::Utilisation("/a/utilisation".to_string())), "/a/utilisation");
    assert_eq!(
        usage_path(&GpuUsageSource::DvfsUtilization),
        "/sys/kernel/debug/mali0/dvfs_utilization"
    );
}

#[test]
fn devfreq_directories_are_those_of_gpus() {
    assert_eq!(
        gpu_devfreq_dirs(
            &strings(&["dmc", "fb000000.gpu", "fdab0000.npu", "mali0"]),
            &mut DevfreqDirs::new()
        ),
        ["/sys/class/devfreq/fb000000.gpu", "/sys/class/devfreq/mali0"]
    );
}

#[test]
fn frequency_files_end_with_the_usual_places() {
    assert_eq!(
        gpu_frequency_files(&strings(&["/sys/class/devfreq/mali0"])),
        [
            "/sys/class/devfreq/mali0/cur_freq",
            "/sys/devices/platform/fb000000.gpu-panthor/devfreq/fb000000.gpu-panthor/cur_freq",
            "/sys/class/devfreq/fb000000.gpu/cur_freq",
            "/sys/class/devfreq/fb000000.gpu-mali/cur_freq",
        ]
    );
}

#[test]
fn devfreq_directories_are_listed_once() {
    let mut kept = DevfreqDirs::new();
    assert!(kept.is_open());
    assert_eq!(gpu_devfreq_dirs(&strings(&["a.gpu", "b"]), &mut kept), ["/sys/class/devfreq/a.gpu"]);
    assert!(!kept.is_open());
    assert_eq!(gpu_devfreq_dirs(&strings(&["c.gpu"]), &mut kept), ["/sys/class/devfreq/a.gpu"]);
    let mut kept = DevfreqDirs::new();
    assert!(gpu_devfreq_dirs(&vec![], &mut kept).is_empty());
    assert!(gpu_devfreq_dirs(&strings(&["c.gpu"]), &mut kept).is_empty());
}

fn files(v: &[(&str, bool)]) -> Vec<(String, bool)> {
    v.iter().map(|f| (f.0.to_string(), f.1)).collect()
}

/// A file that was chosen among others.
fn chosen() -> FrequencyPath {
    let mut kept = FrequencyPath::new();
    gpu_frequency_path(&files(&[("a", false), ("b", true), ("c", true)]), &mut kept);
    kept
}

#[test]
fn first_existing_frequency_file_is_taken() {
    let choice = |v: &[(&str, bool)]| gpu_frequency_path(&files(v), &mut FrequencyPath::new());
    assert_eq!(choice(&[("a", false), ("b", true), ("c", true)]).as_deref(), Some("b"));
    assert_eq!(choice(&[("a", false)]), None);
    assert_eq!(choice(&[]), None);
}

#[test]
fn frequency_file_is_chosen_once() {
    let mut kept = chosen();
    assert!(!kept.is_open());
    assert_eq!(gpu_frequency_path(&files(&[("a", true), ("b", false)]), &mut kept).as_deref(), Some("b"));
    assert_eq!(get_gpu_frequency(&kept, None), None);
    assert_eq!(get_gpu_frequency(&kept, Some("200000000\n")), Some(200));
}

#[test]
fn no_frequency_without_a_file_at_first() {
    let mut kept = FrequencyPath::new();
    assert!(kept.is_open());
    assert_eq!(get_gpu_frequency(&kept, Some("200000000")), None);
    assert_eq!(gpu_frequency_path(&files(&[("a", false)]), &mut kept), None);
    assert_eq!(gpu_frequency_path(&files(&[("a", true)]), &mut kept), None);
    assert_eq!(get_gpu_frequency(&kept, Some("200000000")), None);
}

#[test]
fn gpu_frequency_is_in_megahertz() {
    assert_eq!(get_gpu_frequency(&chosen(), Some("1000000000\n")), Some(1000));
    assert_eq!(get_gpu_frequency(&chosen(), Some("999999")), Some(0));
    assert_eq!(get_gpu_frequency(&chosen(), Some("+300000000")), Some(300));
    assert_eq!(get_gpu_frequency(&chosen(), Some("fast")), None);
    assert_eq!(get_gpu_frequency(&chosen(), None), None);
}

#[test]
fn frequency_is_cut_to_32_bits() {
    assert_eq!(get_gpu_frequency(&chosen(), Some("4294967296000000")), Some(0));
    assert_eq!(get_gpu_frequency(&chosen(), Some("4294967297000000")), Some(1));
    assert_eq!(get_gpu_frequency(&chosen(), Some("18446744073709551616")), None);
}
