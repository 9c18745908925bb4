use hardware::npu::parse_percentages;
use hardware::rga::rga_load_entries;
use hardware::{
    get_npu_driver_version, get_npu_frequency, get_npu_load, get_rga_load, get_rga_version,
};

fn float(s: &str) -> Option<f32> {
    s.parse::<f32>().ok()
}

#[test]
fn npu_loads_are_read_core_by_core() {
    assert_eq!(get_npu_load(Some("NPU load:  Core0:  0%, Core1: 57%, Core2:100%,\n")), [0, 57, 100]);
    assert!(get_npu_load(Some("NPU load: 5%")).is_empty());
    assert!(get_npu_load(None).is_empty());
}

#[test]
fn npu_loads_beyond_a_byte_are_left_out() {
    assert_eq!(get_npu_load(Some("Core0: 256% Core1: 255% Core2: -1% Core3: 0004%")), [255, 4]);
}

#[test]
fn npu_entries_may_span_lines_but_not_words() {
    assert_eq!(get_npu_load(Some("Core0:\n \t7%")), [7]);
    assert!(get_npu_load(Some("Core0 : 7%")).is_empty());
    assert!(get_npu_load(Some("core0: 7%")).is_empty());
    assert_eq!(get_npu_load(Some("CCore12: 3% %Core: 9%")), [3]);
}

#[test]
fn digits_of_other_scripts_are_no_loads() {
    assert_eq!(get_npu_load(Some("Core0: \u{0663}% Core\u{0661}: 4%")), [4]);
}

#[test]
fn percentages_are_numbers_up_to_255() {
    let texts: Vec<String> = ["0", "255", "256", "x", "+9"].iter().map(|s| s.to_string()).collect();
    assert_eq!(parse_percentages(&texts), [0, 255, 9]);
}

#[test]
fn npu_frequency_is_in_megahertz() {
    assert_eq!(get_npu_frequency(Some("1000000000\n")), Some(1000));
    assert_eq!(get_npu_frequency(Some("")), None);
    assert_eq!(get_npu_frequency(None), None);
}

#[test]
fn driver_versions_stand_behind_the_colon() {
    assert_eq!(get_npu_driver_version(Some("RKNPU driver: v0.9.8\n")), "v0.9.8");
    assert_eq!(get_rga_version(Some("RGA multicore Device Driver: v1.3.1\n")), "v1.3.1");
    assert_eq!(get_rga_version(Some("a: b: c")), "b");
    assert_eq!(get_rga_version(Some("v1.3.1")), "Not Detected");
    assert_eq!(get_npu_driver_version(None), "Not Detected");
}

const LOADS: &str = "num of scheduler = 3\n================= load ==================\n\
scheduler[0]: rga3\n\t load = 12%\n-----------------------------------\n\
scheduler[1]: rga3\n\t load = 0.5 %\n-----------------------------------\n\
scheduler[2]: rga2\n\t load = 7%\n";

#[test]
fn rga_loads_are_labelled_by_scheduler() {
    let loads = get_rga_load(Some(LOADS), float).unwrap();
    let expected = [("rga3_0", 12.0), ("rga3_1", 0.5), ("rga2_2", 7.0)];
    assert_eq!(loads.len(), 3);
    for (load, expected) in loads.iter().zip(expected) {
        assert_eq!((load.0.as_str(), load.1), expected);
    }
}

#[test]
fn rga_loads_without_a_scheduler_do_not_count() {
    assert!(get_rga_load(Some("load = 3%\n"), float).is_none());
    assert!(get_rga_load(Some("scheduler[0]: rga3\nload = busy\n"), float).is_none());
    assert!(get_rga_load(Some(""), float).is_none());
    assert!(get_rga_load(None, float).is_none());
}

#[test]
fn rga_scheduler_without_an_index_is_number_zero() {
    let entries = rga_load_entries("scheduler[x]: a\nload = 1%\nscheduler[5: b\nload = 2\nscheduler[4] c\nload = 3");
    let labels: Vec<&str> = entries.iter().map(|e| e.0.as_str()).collect();
    assert_eq!(labels, ["a_0", "b_0", "b_0"]);
    assert_eq!(entries[2].1, "3");
}

#[test]
fn rga_index_stays_until_the_next_one() {
    let entries = rga_load_entries("scheduler[4] c\nscheduler[5: b\nload = 2%");
    assert_eq!(entries.len(), 1);
    assert_eq!(entries[0].0, "b_4");
    assert_eq!(entries[0].1, "2");
}

#[test]
fn rga_lines_with_a_dash_tell_nothing() {
    assert!(rga_load_entries("scheduler[0]: rga-3\nload = 1%").is_empty());
    let entries = rga_load_entries("scheduler[0]: rga3\nload = -1%\nload = 2%%");
    assert_eq!(entries.len(), 1);
    assert_eq!(entries[0].1, "2");
}
