use hardware::gpu_source::{
    gpu_usage_source, probed_number, FoundSource, GpuSourceSearch, GpuUsageSource, SearchAction,
    SearchEvent, Tier,
};

/// A file system of devfreq directories, of other directories, of files with a usable load, and of files that
/// exist.
struct Files {
    devfreq: Vec<&'static str>,
    dirs: Vec<(&'static str, Vec<&'static str>)>,
    usable: Vec<&'static str>,
    existing: Vec<&'static str>,
}

/// The outcome of a search and the files that it probed.
fn search(files: &Files) -> (Option<GpuUsageSource>, Vec<String>) {
    let devfreq = files.devfreq.iter().map(|d| d.to_string()).collect();
    let mut search = GpuSourceSearch::new(&devfreq);
    let mut probed = Vec::new();
    loop {
        let event = match search.action() {
            SearchAction::List(dir) => {
                let names = files.dirs.iter().find(|d| d.0 == dir).map(|d| d.1.clone());
                let names = names.unwrap_or_default();
                SearchEvent::Listed(names.iter().map(|n| n.to_string()).collect())
            }
            SearchAction::Probe(_, path) => {
                let usable = files.usable.contains(&path.as_str());
                probed.push(path);
                SearchEvent::Probed(usable)
            }
            SearchAction::CheckExists(path) => {
                SearchEvent::Checked(files.existing.contains(&path.as_str()))
            }
            SearchAction::Finish(source) => return (source, probed),
        };
        search = search.advance(&event);
    }
}

const KNOWN: [&str; 3] = [
    "/sys/devices/platform/fb000000.gpu/utilisation",
    "/sys/devices/platform/fb000000.gpu-mali/utilisation",
    "/sys/devices/platform/fb000000.gpu-panthor/utilisation",
];

const COUNTERS: &str = "/sys/kernel/debug/mali0/dvfs_utilization";

#[test]
fn devfreq_load_is_preferred() {
    let files = Files {
        devfreq: vec!["/sys/class/devfreq/fb000000.gpu", "/sys/class/devfreq/mali0"],
        dirs: vec![],
        usable: vec!["/sys/class/devfreq/mali0/load", KNOWN[0]],
        existing: vec![COUNTERS],
    };
    let (source, probed) = search(&files);
    assert!(matches!(source, Some(GpuUsageSource::DevfreqLoad(p)) if p == "/sys/class/devfreq/mali0/load"));
    assert_eq!(probed, ["/sys/class/devfreq/fb000000.gpu/load", "/sys/class/devfreq/mali0/load"]);
}

#[test]
fn known_utilisation_comes_before_other_platform_devices() {
    let files = Files {
        devfreq: vec![],
        dirs: vec![("/sys/devices/platform", vec!["a.gpu"])],
        usable: vec![KNOWN[2], "/sys/devices/platform/a.gpu/utilisation"],
        existing: vec![],
    };
    let (source, probed) = search(&files);
    assert!(matches!(source, Some(GpuUsageSource::Utilisation(p)) if p == KNOWN[2]));
    assert_eq!(probed, KNOWN);
}

#[test]
fn platform_devices_are_those_of_gpus() {
    let files = Files {
        devfreq: vec![],
        dirs: vec![("/sys/devices/platform", vec!["serial", "ff9a0000.Mali", "b.gpu"])],
        usable: vec!["/sys/devices/platform/b.gpu/utilisation"],
        existing: vec![],
    };
    let (source, probed) = search(&files);
    assert!(
        matches!(source, Some(GpuUsageSource::Utilisation(p)) if p == "/sys/devices/platform/b.gpu/utilisation")
    );
    assert_eq!(
        probed[3..],
        ["/sys/devices/platform/ff9a0000.Mali/utilisation", "/sys/devices/platform/b.gpu/utilisation"]
    );
}

#[test]
fn connectors_are_no_cards() {
    let files = Files {
        devfreq: vec![],
        dirs: vec![("/sys/class/drm", vec!["renderD128", "card0-HDMI-A-1", "card1"])],
        usable: vec!["/sys/class/drm/card1/device/gpu_busy_percent"],
        existing: vec![COUNTERS],
    };
    let (source, probed) = search(&files);
    assert!(
        matches!(source, Some(GpuUsageSource::DrmBusy(p)) if p == "/sys/class/drm/card1/device/gpu_busy_percent")
    );
    assert_eq!(probed.len(), 4);
}

#[test]
fn counters_are_the_last_resort() {
    let mut files = Files { devfreq: vec![], dirs: vec![], usable: vec![], existing: vec![COUNTERS] };
    assert!(matches!(search(&files).0, Some(GpuUsageSource::DvfsUtilization)));
    files.existing.clear();
    assert!(search(&files).0.is_none());
}

#[test]
fn an_answer_to_another_question_changes_nothing() {
    let search = GpuSourceSearch::new(&vec!["d".to_string()]).advance(&SearchEvent::Checked(true));
    assert!(matches!(search.action(), SearchAction::Probe(Tier::Devfreq, path) if path == "d/load"));
    let search = search.advance(&SearchEvent::Listed(vec!["x.gpu".to_string()]));
    assert!(matches!(search.action(), SearchAction::Probe(Tier::Devfreq, _)));
    let search = search.advance(&SearchEvent::Probed(true)).advance(&SearchEvent::Checked(false));
    assert!(matches!(search.action(), SearchAction::Finish(Some(GpuUsageSource::DevfreqLoad(_)))));
}

#[test]
fn source_is_found_once() {
    let mut kept = FoundSource::new();
    assert!(kept.is_open());
    let first = gpu_usage_source(Some(GpuUsageSource::DrmBusy("p".to_string())), &mut kept);
    assert!(matches!(first, Some(GpuUsageSource::DrmBusy(p)) if p == "p"));
    assert!(!kept.is_open());
    let again = gpu_usage_source(Some(GpuUsageSource::DvfsUtilization), &mut kept);
    assert!(matches!(again, Some(GpuUsageSource::DrmBusy(p)) if p == "p"));
    let again = gpu_usage_source(None, &mut kept);
    assert!(matches!(again, Some(GpuUsageSource::DrmBusy(p)) if p == "p"));
}

#[test]
fn no_source_stays_no_source() {
    let mut kept = FoundSource::new();
    assert!(gpu_usage_source(None, &mut kept).is_none());
    assert!(!kept.is_open());
    assert!(gpu_usage_source(Some(GpuUsageSource::DvfsUtilization), &mut kept).is_none());
}

#[test]
fn a_source_can_be_cloned() {
    let source = GpuUsageSource::DrmBusy("p".to_string());
    assert!(matches!(source.clone(), GpuUsageSource::DrmBusy(p) if p == "p"));
    assert!(matches!(GpuUsageSource::DvfsUtilization.clone(), GpuUsageSource::DvfsUtilization));
}

#[test]
fn each_tier_has_its_number_at_its_place() {
    let content = " 45@800000000Hz x\n";
    assert_eq!(probed_number(Tier::Devfreq, content).as_deref(), Some("45"));
    assert_eq!(probed_number(Tier::Devfreq, " \n"), None);
    for tier in [Tier::KnownUtilisation, Tier::PlatformUtilisation, Tier::DrmBusy] {
        assert_eq!(probed_number(tier, content).as_deref(), Some("45@800000000Hz x"));
        assert_eq!(probed_number(tier, " 17\n").as_deref(), Some("17"));
        assert_eq!(probed_number(tier, " \n").as_deref(), Some(""));
    }
}
