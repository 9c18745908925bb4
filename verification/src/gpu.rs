//! How busy the GPU is and how fast it runs.

use vstd::prelude::*;

use crate::frequency;
use crate::gpu_source;
use crate::gpu_source::GpuUsageSource;
use crate::number;
use crate::once;
use crate::text;

verus! {

/// A reading of the GPU load, before it becomes a percentage.
#[derive(Debug)]
pub enum GpuReading {
    /// The text of a number: a percentage, or a share of 256.
    Percent(String),
    /// The GPU was busy for `busy` of the `total` time units since the last
    /// sample.
    Share { busy: u64, total: u64 },
    /// There is nothing to compare with, or no time has passed: no load.
    Idle,
}

/// What a [`GpuReading`] says, its number as a text.
pub enum Reading {
    Percent(Seq<char>),
    Share { busy: u64, total: u64 },
    Idle,
}

impl View for GpuReading {
    type V = Reading;

    open spec fn view(&self) -> Reading {
        match *self {
            GpuReading::Percent(number) => Reading::Percent(number@),
            GpuReading::Share { busy, total } => Reading::Share { busy, total },
            GpuReading::Idle => Reading::Idle,
        }
    }
}

/// The number in a devfreq load, `LOAD@FREQHz`: what stands before the `@` in
/// the first word.
pub open spec fn devfreq_number(content: Seq<char>) -> Option<Seq<char>> {
    if text::words(content).len() > 0 {
        Some(text::trimmed(text::parts(text::words(content)[0], '@')[0]))
    } else {
        None
    }
}

/// The value that the last of the first `n` pairs of words gives a counter. In
/// a pair the first word names the counter, with or without colons behind it;
/// a pair whose second word is no number is passed over.
pub open spec fn counter(w: Seq<Seq<char>>, name: Seq<char>, n: nat) -> Option<nat>
    decreases n,
{
    if n == 0 {
        None
    } else {
        let value = number::spelled_up_to(w[2 * n - 1], u64::MAX as nat);
        if value is Some && text::without_trailing(w[2 * n - 2], ':') == name {
            value
        } else {
            counter(w, name, (n - 1) as nat)
        }
    }
}

/// The value of a counter in a text of pairs of words.
pub open spec fn counter_in(content: Seq<char>, name: Seq<char>) -> Option<nat> {
    let w = text::words(content);
    counter(w, name, w.len() / 2)
}

/// `n`, or the largest `u64` if that is less.
pub open spec fn capped(n: nat) -> nat {
    if n <= u64::MAX {
        n
    } else {
        u64::MAX as nat
    }
}

/// The busy and the idle time that the counters tell. Time in protected mode
/// is busy time.
pub open spec fn busy_idle(content: Seq<char>) -> Option<(nat, nat)> {
    match (counter_in(content, "busy_time"@), counter_in(content, "idle_time"@)) {
        (Some(busy), Some(idle)) => {
            let protected = match counter_in(content, "protm_time"@) {
                Some(time) => time,
                None => 0,
            };
            Some((capped(busy + protected), idle))
        },
        _ => None,
    }
}

/// A number as a natural number.
pub open spec fn opt_nat(n: Option<u64>) -> Option<nat> {
    match n {
        Some(v) => Some(v as nat),
        None => None,
    }
}

/// How much larger `a` is than `b`; nothing if it is not.
pub open spec fn growth(a: u64, b: u64) -> nat {
    if a > b {
        (a - b) as nat
    } else {
        0
    }
}

/// The load between two samples of the counters.
pub open spec fn load_between(prev: Option<(u64, u64)>, now: (u64, u64)) -> Reading {
    match prev {
        Some((prev_busy, prev_idle)) => {
            let busy = growth(now.0, prev_busy);
            let total = capped(busy + growth(now.1, prev_idle));
            if total > 0 {
                Reading::Share { busy: busy as u64, total: total as u64 }
            } else {
                Reading::Idle
            }
        },
        None => Reading::Idle,
    }
}

/// The last sample of the busy and idle counters.
pub struct DvfsSamples {
    last: Option<(u64, u64)>,
}

impl View for DvfsSamples {
    type V = Option<(u64, u64)>;

    closed spec fn view(&self) -> Option<(u64, u64)> {
        self.last
    }
}

impl DvfsSamples {
    /// No sample yet.
    pub fn new() -> (res: DvfsSamples)
        ensures
            res@ is None,
    {
        DvfsSamples { last: None }
    }
}

/// What the reading of a source says of the GPU load: a number to be read, or
/// the load since the last sample of the counters.
pub open spec fn usage(
    source: gpu_source::UsageSource,
    content: Seq<char>,
    last: Option<(u64, u64)>,
) -> Option<Reading> {
    match source {
        gpu_source::UsageSource::DevfreqLoad(_) => match devfreq_number(content) {
            Some(number) => Some(Reading::Percent(number)),
            None => None,
        },
        gpu_source::UsageSource::DvfsUtilization => match busy_idle(content) {
            Some((busy, idle)) => Some(load_between(last, (busy as u64, idle as u64))),
            None => None,
        },
        _ => Some(Reading::Percent(text::trimmed(content))),
    }
}

/// The sample that is kept behind a reading of a source.
pub open spec fn sample_after(
    source: gpu_source::UsageSource,
    content: Seq<char>,
    last: Option<(u64, u64)>,
) -> Option<(u64, u64)> {
    match (source, busy_idle(content)) {
        (gpu_source::UsageSource::DvfsUtilization, Some((busy, idle))) => Some(
            (busy as u64, idle as u64),
        ),
        _ => last,
    }
}

/// The file that a source is read from.
pub open spec fn source_path(source: gpu_source::UsageSource) -> Seq<char> {
    match source {
        gpu_source::UsageSource::DevfreqLoad(path) => path,
        gpu_source::UsageSource::Utilisation(path) => path,
        gpu_source::UsageSource::DrmBusy(path) => path,
        gpu_source::UsageSource::DvfsUtilization => gpu_source::dvfs_path(),
    }
}

/// What an optional reading says.
pub open spec fn reading_view(reading: Option<GpuReading>) -> Option<Reading> {
    match reading {
        Some(found) => Some(found@),
        None => None,
    }
}

/// The text of the number in a devfreq load.
pub fn devfreq_load_number(content: &str) -> (res: Option<String>)
    ensures
        text::text_of(res) == devfreq_number(content@),
{
    let words = text::split_words(content);
    assert(text::texts(words@).len() == words@.len());
    if words.len() == 0 {
        return None;
    }
    assert(text::texts(words@)[0] == words@[0]@);
    let parts = text::split_parts(words[0].as_str(), '@');
    assert(text::texts(parts@).len() == parts@.len());
    assert(text::texts(parts@)[0] == parts@[0]@);
    Some(text::trim(parts[0].as_str()))
}

/// Reads the busy and the idle time from the counters.
pub fn parse_dvfs_busy_idle(content: &str) -> (res: Option<(u64, u64)>)
    ensures
        match res {
            Some((busy, idle)) => busy_idle(content@) == Some((busy as nat, idle as nat)),
            None => busy_idle(content@) is None,
        },
{
    let words = text::split_words(content);
    let ghost w = text::words(content@);
    assert(w.len() == words@.len());
    let mut busy: Option<u64> = None;
    let mut idle: Option<u64> = None;
    let mut protected: Option<u64> = None;
    let mut n: usize = 0;
    while n < words.len() / 2
        invariant
            n <= words@.len() / 2,
            w == text::texts(words@),
            opt_nat(busy) == counter(w, "busy_time"@, n as nat),
            opt_nat(idle) == counter(w, "idle_time"@, n as nat),
            opt_nat(protected) == counter(w, "protm_time"@, n as nat),
        decreases words@.len() - n,
    {
        assert(w[2 * n] == words@[2 * n]@);
        assert(w[2 * n + 1] == words@[2 * n + 1]@);
        let key = text::trim_trailing(words[2 * n].as_str(), ':');
        match number::parse_u64(words[2 * n + 1].as_str()) {
            Some(value) => {
                if text::same(key.as_str(), "busy_time") {
                    busy = Some(value);
                }
                if text::same(key.as_str(), "idle_time") {
                    idle = Some(value);
                }
                if text::same(key.as_str(), "protm_time") {
                    protected = Some(value);
                }
            },
            None => {},
        }
        n += 1;
    }
    match (busy, idle) {
        (Some(b), Some(i)) => {
            let p: u64 = match protected {
                Some(time) => time,
                None => 0,
            };
            Some((b.saturating_add(p), i))
        },
        _ => None,
    }
}

/// The load of the GPU since the last sample of the counters. The sample
/// becomes the last one; without counters in the text nothing changes.
pub fn gpu_usage_from_dvfs_delta(content: &str, samples: &mut DvfsSamples) -> (res: Option<
    GpuReading,
>)
    ensures
        reading_view(res) == usage(
            gpu_source::UsageSource::DvfsUtilization,
            content@,
            old(samples)@,
        ),
        final(samples)@ == sample_after(
            gpu_source::UsageSource::DvfsUtilization,
            content@,
            old(samples)@,
        ),
{
    let (busy, idle) = match parse_dvfs_busy_idle(content) {
        Some(counters) => counters,
        None => {
            return None;
        },
    };
    let reading = match samples.last {
        Some((prev_busy, prev_idle)) => {
            let delta_busy = busy.saturating_sub(prev_busy);
            let delta_idle = idle.saturating_sub(prev_idle);
            let total = delta_busy.saturating_add(delta_idle);
            if total > 0 {
                GpuReading::Share { busy: delta_busy, total }
            } else {
                GpuReading::Idle
            }
        },
        None => GpuReading::Idle,
    };
    samples.last = Some((busy, idle));
    Some(reading)
}

/// The file that a source is read from.
pub fn usage_path(source: &GpuUsageSource) -> (res: String)
    ensures
        res@ == source_path(source@),
{
    match source {
        GpuUsageSource::DevfreqLoad(path) => path.clone(),
        GpuUsageSource::Utilisation(path) => path.clone(),
        GpuUsageSource::DrmBusy(path) => path.clone(),
        GpuUsageSource::DvfsUtilization => "/sys/kernel/debug/mali0/dvfs_utilization".to_string(),
    }
}

/// What the file of a source says of the GPU load. There is no reading without
/// a source, or when its file cannot be read.
pub fn get_gpu_usage(
    source: Option<&GpuUsageSource>,
    content: Option<&str>,
    samples: &mut DvfsSamples,
) -> (res: Option<GpuReading>)
    ensures
        match (source, content) {
            (Some(from), Some(told)) => {
                &&& reading_view(res) == usage(from@, told@, old(samples)@)
                &&& final(samples)@ == sample_after(from@, told@, old(samples)@)
            },
            _ => res is None && final(samples)@ == old(samples)@,
        },
{
    match (source, content) {
        (Some(from), Some(told)) => match from {
            GpuUsageSource::DevfreqLoad(_) => match devfreq_load_number(told) {
                Some(number) => Some(GpuReading::Percent(number)),
                None => None,
            },
            GpuUsageSource::DvfsUtilization => gpu_usage_from_dvfs_delta(told, samples),
            _ => Some(GpuReading::Percent(text::trim(told))),
        },
        _ => None,
    }
}

/// The devfreq directories of the GPUs among the devices with these names.
pub open spec fn devfreq_dirs(names: Seq<Seq<char>>) -> Seq<Seq<char>> {
    names.filter_map(
        |name: Seq<char>|
            if gpu_source::is_gpu_name(name) {
                Some(gpu_source::entry_path("/sys/class/devfreq"@, name))
            } else {
                None
            },
    )
}

/// The devfreq directories of the GPUs among the devices with these names.
fn dirs_among(names: &Vec<String>) -> (res: Vec<String>)
    ensures
        text::texts(res@) == devfreq_dirs(text::texts(names@)),
{
    let ghost f = |name: Seq<char>|
        if gpu_source::is_gpu_name(name) {
            Some(gpu_source::entry_path("/sys/class/devfreq"@, name))
        } else {
            None
        };
    let ghost all = text::texts(names@);
    let mut res: Vec<String> = Vec::new();
    let mut i: usize = 0;
    while i < names.len()
        invariant
            i <= names@.len(),
            all == text::texts(names@),
            f == (|name: Seq<char>|
                if gpu_source::is_gpu_name(name) {
                    Some(gpu_source::entry_path("/sys/class/devfreq"@, name))
                } else {
                    None
                }),
            text::texts(res@) == all.take(i as int).filter_map(f),
        decreases names@.len() - i,
    {
        proof {
            all.lemma_filter_map_take_succ(f, i as int);
            assert(all[i as int] == names@[i as int]@);
        }
        if gpu_source::is_gpu_device_name(names[i].as_str()) {
            let dir = text::concat3("/sys/class/devfreq", "/", names[i].as_str());
            proof {
                text::lemma_texts_push(res@, dir);
            }
            res.push(dir);
        }
        i += 1;
    }
    assert(all.take(all.len() as int) =~= all);
    res
}

/// The devfreq directories of the GPUs as they were first listed.
pub struct DevfreqDirs {
    first: Option<Vec<String>>,
}

impl View for DevfreqDirs {
    type V = Option<Seq<Seq<char>>>;

    closed spec fn view(&self) -> Option<Seq<Seq<char>>> {
        match self.first {
            Some(dirs) => Some(text::texts(dirs@)),
            None => None,
        }
    }
}

impl DevfreqDirs {
    /// Nothing was listed yet.
    pub fn new() -> (res: DevfreqDirs)
        ensures
            res@ is None,
    {
        DevfreqDirs { first: None }
    }

    /// Whether nothing was listed yet, so that a listing is called for.
    pub fn is_open(&self) -> (res: bool)
        ensures
            res == (self@ is None),
    {
        self.first.is_none()
    }
}

/// The devfreq directories of the GPUs: those of the first listing. `names` are
/// the names that are listed now; they count only if none were listed before.
pub fn gpu_devfreq_dirs(names: &Vec<String>, kept: &mut DevfreqDirs) -> (res: Vec<String>)
    ensures
        text::texts(res@) == once::kept_or(old(kept)@, devfreq_dirs(text::texts(names@))),
        final(kept)@ == Some(text::texts(res@)),
{
    if kept.first.is_none() {
        kept.first = Some(dirs_among(names));
    }
    match &kept.first {
        Some(dirs) => text::copied(dirs),
        None => Vec::new(),
    }
}

/// The files that may tell the frequency of the GPU, the preferred one first:
/// those of the devfreq directories, then those at the usual places.
pub open spec fn frequency_files(dirs: Seq<Seq<char>>) -> Seq<Seq<char>> {
    dirs.map_values(|dir: Seq<char>| dir + "/cur_freq"@) + seq![
        "/sys/devices/platform/fb000000.gpu-panthor/devfreq/fb000000.gpu-panthor/cur_freq"@,
        "/sys/class/devfreq/fb000000.gpu/cur_freq"@,
        "/sys/class/devfreq/fb000000.gpu-mali/cur_freq"@,
    ]
}

/// The files that may tell the frequency of the GPU, the preferred one first.
pub fn gpu_frequency_files(dirs: &Vec<String>) -> (res: Vec<String>)
    ensures
        text::texts(res@) == frequency_files(text::texts(dirs@)),
{
    let mut res: Vec<String> = Vec::new();
    let mut i: usize = 0;
    while i < dirs.len()
        invariant
            i <= dirs@.len(),
            res@.len() == i,
            forall|j: int|
                0 <= j < i ==> (#[trigger] res@[j])@ == dirs@[j]@ + "/cur_freq"@,
        decreases dirs@.len() - i,
    {
        res.push(text::concat(dirs[i].as_str(), "/cur_freq"));
        i += 1;
    }
    res.push(
        "/sys/devices/platform/fb000000.gpu-panthor/devfreq/fb000000.gpu-panthor/cur_freq".to_string(),
    );
    res.push("/sys/class/devfreq/fb000000.gpu/cur_freq".to_string());
    res.push("/sys/class/devfreq/fb000000.gpu-mali/cur_freq".to_string());
    assert(text::texts(res@) =~= frequency_files(text::texts(dirs@)));
    res
}

/// What a list of paths holds, each path coming with whether its file exists.
pub open spec fn files_of(v: Seq<(String, bool)>) -> Seq<(Seq<char>, bool)> {
    v.map_values(|file: (String, bool)| (file.0@, file.1))
}

/// The path of the first file that exists, each path coming with whether its
/// file does.
pub open spec fn first_existing(files: Seq<(Seq<char>, bool)>) -> Option<Seq<char>>
    decreases files.len(),
{
    if files.len() == 0 {
        None
    } else if files[0].1 {
        Some(files[0].0)
    } else {
        first_existing(files.drop_first())
    }
}

/// The path of the first file that exists.
fn first_path(files: &Vec<(String, bool)>) -> (res: Option<String>)
    ensures
        text::text_of(res) == first_existing(files_of(files@)),
{
    let ghost all = files_of(files@);
    let mut i: usize = 0;
    assert(all.skip(0) =~= all);
    while i < files.len()
        invariant
            i <= files@.len(),
            all == files_of(files@),
            first_existing(all) == first_existing(all.skip(i as int)),
        decreases files@.len() - i,
    {
        let ghost rest = all.skip(i as int);
        assert(rest[0] == (files@[i as int].0@, files@[i as int].1));
        if files[i].1 {
            return Some(files[i].0.clone());
        }
        assert(rest.drop_first() =~= all.skip(i as int + 1));
        i += 1;
    }
    None
}

/// The file that was chosen to tell the frequency of the GPU when it was first
/// asked for, which may be that there is none.
pub struct FrequencyPath {
    first: Option<Option<String>>,
}

impl View for FrequencyPath {
    type V = Option<Option<Seq<char>>>;

    closed spec fn view(&self) -> Option<Option<Seq<char>>> {
        match self.first {
            Some(path) => Some(text::text_of(path)),
            None => None,
        }
    }
}

impl FrequencyPath {
    /// No file was chosen yet.
    pub fn new() -> (res: FrequencyPath)
        ensures
            res@ is None,
    {
        FrequencyPath { first: None }
    }

    /// Whether no choice was made yet, so that one is called for.
    pub fn is_open(&self) -> (res: bool)
        ensures
            res == (self@ is None),
    {
        self.first.is_none()
    }
}

/// The file that tells the frequency of the GPU: the first one that existed when
/// the choice was made. `files` are those to choose from now; they count only if
/// no choice was made before.
pub fn gpu_frequency_path(files: &Vec<(String, bool)>, kept: &mut FrequencyPath) -> (res: Option<
    String,
>)
    ensures
        text::text_of(res) == once::kept_or(old(kept)@, first_existing(files_of(files@))),
        final(kept)@ == Some(text::text_of(res)),
{
    if kept.first.is_none() {
        kept.first = Some(first_path(files));
    }
    match &kept.first {
        Some(Some(path)) => Some(path.clone()),
        _ => None,
    }
}

/// The frequency that is told when this file was chosen and holds this text.
pub open spec fn frequency_told(
    chosen: Option<Option<Seq<char>>>,
    content: Option<Seq<char>>,
) -> Option<nat> {
    match chosen {
        Some(Some(_)) => frequency::megahertz_in(content),
        _ => None,
    }
}

/// The frequency of the GPU in megahertz, from the text in hertz of the file that
/// was chosen. There is none if no file was.
pub fn get_gpu_frequency(chosen: &FrequencyPath, content: Option<&str>) -> (res: Option<u32>)
    ensures
        match res {
            Some(mhz) => frequency_told(chosen@, text::view_of(content)) == Some(mhz as nat),
            None => frequency_told(chosen@, text::view_of(content)) is None,
        },
{
    match &chosen.first {
        Some(Some(_)) => frequency::megahertz(content),
        _ => None,
    }
}

/// The first sample of the counters is no load: the time since the start says
/// nothing of the present.
pub proof fn law_first_sample_is_idle(now: (u64, u64))
    ensures
        load_between(None, now) == Reading::Idle,
{
}

/// A load between two samples is a share of a time that has passed.
pub proof fn law_load_is_a_share(prev: Option<(u64, u64)>, now: (u64, u64))
    ensures
        load_between(prev, now) matches Reading::Share { busy, total } ==> busy <= total && 0
            < total,
{
}

/// Only what the counters have grown by counts, not how much they have come to:
/// counters that started from elsewhere tell the same load.
pub proof fn law_only_growth_counts(
    prev: (u64, u64),
    now: (u64, u64),
    other_prev: (u64, u64),
    other_now: (u64, u64),
)
    requires
        now.0 - prev.0 == other_now.0 - other_prev.0,
        now.1 - prev.1 == other_now.1 - other_prev.1,
    ensures
        load_between(Some(prev), now) == load_between(Some(other_prev), other_now),
{
}

/// Two samples of counters that have not grown tell no load.
pub proof fn law_standing_counters_are_idle(prev: (u64, u64), now: (u64, u64))
    requires
        now.0 <= prev.0,
        now.1 <= prev.1,
    ensures
        load_between(Some(prev), now) == Reading::Idle,
{
}

/// Of the first existing file every file before does not exist, and there is
/// none only if no file exists.
pub proof fn law_first_existing_file_is_taken(files: Seq<(Seq<char>, bool)>)
    ensures
        match first_existing(files) {
            Some(path) => exists|i: int|
                0 <= i < files.len() && files[i].1 && (#[trigger] files[i]).0 == path && forall|
                    j: int,
                |
                    0 <= j < i ==> !(#[trigger] files[j]).1,
            None => forall|i: int| 0 <= i < files.len() ==> !(#[trigger] files[i]).1,
        },
    decreases files.len(),
{
    if files.len() > 0 && !files[0].1 {
        let rest = files.drop_first();
        law_first_existing_file_is_taken(rest);
        match first_existing(rest) {
            Some(path) => {
                let i = choose|i: int|
                    0 <= i < rest.len() && rest[i].1 && (#[trigger] rest[i]).0 == path && forall|
                        j: int,
                    |
                        0 <= j < i ==> !(#[trigger] rest[j]).1;
                assert(files[i + 1] == rest[i]);
                assert forall|j: int| 0 <= j < i + 1 implies !(#[trigger] files[j]).1 by {
                    if j > 0 {
                        assert(files[j] == rest[j - 1]);
                    }
                }
            },
            None => {
                assert forall|i: int| 0 <= i < files.len() implies !(#[trigger] files[i]).1 by {
                    if i > 0 {
                        assert(files[i] == rest[i - 1]);
                    }
                }
            },
        }
    } else if files.len() > 0 {
        assert(files[0].1);
    }
}

/// The counters as a driver writes them: each with its name, a colon and its
/// value.
pub open spec fn written_counters(busy: nat, idle: nat, protected: nat) -> Seq<char> {
    text::spaced(
        seq![
            "busy_time:"@,
            number::decimal(busy),
            "idle_time:"@,
            number::decimal(idle),
            "protm_time:"@,
            number::decimal(protected),
        ],
    )
}

/// Counters that a driver writes are read back, the time in protected mode as
/// busy time.
pub proof fn law_written_counters_are_read(busy: u64, idle: u64, protected: u64)
    ensures
        busy_idle(written_counters(busy as nat, idle as nat, protected as nat)) == Some(
            (capped(busy as nat + protected as nat), idle as nat),
        ),
{
    reveal_strlit("busy_time:");
    reveal_strlit("idle_time:");
    reveal_strlit("protm_time:");
    reveal_strlit("busy_time");
    reveal_strlit("idle_time");
    reveal_strlit("protm_time");
    let w = seq![
        "busy_time:"@,
        number::decimal(busy as nat),
        "idle_time:"@,
        number::decimal(idle as nat),
        "protm_time:"@,
        number::decimal(protected as nat),
    ];
    number::law_decimal_reads_back(busy as nat);
    number::law_decimal_reads_back(idle as nat);
    number::law_decimal_reads_back(protected as nat);
    text::law_written_words_are_read(w);
    assert("busy_time:"@.drop_last() =~= "busy_time"@);
    assert("idle_time:"@.drop_last() =~= "idle_time"@);
    assert("protm_time:"@.drop_last() =~= "protm_time"@);
    assert("busy_time"@[0] == 'b' && "idle_time"@[0] == 'i' && "protm_time"@[0] == 'p');
    reveal_with_fuel(text::without_trailing, 2);
    reveal_with_fuel(counter, 4);
}

/// A load as a devfreq driver writes it is read back.
pub proof fn law_written_devfreq_load_is_read(load: nat, hz: nat)
    ensures
        devfreq_number(number::decimal(load) + "@"@ + number::decimal(hz) + "Hz\n"@) == Some(
            number::decimal(load),
        ),
{
    reveal_strlit("@");
    reveal_strlit("Hz\n");
    let digits = number::decimal(load);
    let rest = number::decimal(hz) + seq!['H', 'z'];
    let token = digits + seq!['@'] + rest;
    let content = number::decimal(load) + "@"@ + number::decimal(hz) + "Hz\n"@;
    number::law_decimal_reads_back(load);
    number::law_decimal_reads_back(hz);
    assert(content =~= token + seq!['\n']);
    text::lemma_only_word(token, '\n');
    text::lemma_position_before(digits, '@', rest);
    assert(token.take(digits.len() as int) =~= digits);
    text::law_trimmed_text_stays(digits);
}

/// Every call tells the devfreq directories of the GPUs in the first listing, in
/// its order; what is listed later does not show.
pub proof fn law_devfreq_dirs_are_listed_once(listings: Seq<Seq<Seq<char>>>, k: int)
    requires
        0 <= k < listings.len(),
    ensures
        once::told_at(
            None,
            listings.map_values(|names: Seq<Seq<char>>| devfreq_dirs(names)),
            k,
        ) == devfreq_dirs(listings[0]),
{
    let fresh = listings.map_values(|names: Seq<Seq<char>>| devfreq_dirs(names));
    once::law_first_outcome_is_told_again(None, fresh, k);
}

/// What a call for the frequency finds in the file system.
pub struct FrequencyCall {
    /// The names of the devfreq devices.
    pub names: Seq<Seq<char>>,
    /// Whether a file exists.
    pub is_there: spec_fn(Seq<char>) -> bool,
    /// The text of a file, if it can be read.
    pub content: spec_fn(Seq<char>) -> Option<Seq<char>>,
}

/// What is kept between the calls for the frequency: the devfreq directories and
/// the file that was chosen.
pub struct FrequencyMemory {
    pub dirs: Option<Seq<Seq<char>>>,
    pub path: Option<Option<Seq<char>>>,
}

/// The paths, each one with whether its file exists.
pub open spec fn with_existence(
    paths: Seq<Seq<char>>,
    is_there: spec_fn(Seq<char>) -> bool,
) -> Seq<(Seq<char>, bool)> {
    paths.map_values(|path: Seq<char>| (path, is_there(path)))
}

impl FrequencyCall {
    /// The file that the call would choose.
    pub open spec fn choice(self, dirs: Option<Seq<Seq<char>>>) -> Option<Seq<char>> {
        first_existing(
            with_existence(
                frequency_files(once::kept_or(dirs, devfreq_dirs(self.names))),
                self.is_there,
            ),
        )
    }

    /// What is kept after the call. The directories are asked for only where a
    /// choice has to be made.
    pub open spec fn memory_after(self, memory: FrequencyMemory) -> FrequencyMemory {
        FrequencyMemory {
            dirs: if memory.path is Some {
                memory.dirs
            } else {
                Some(once::kept_or(memory.dirs, devfreq_dirs(self.names)))
            },
            path: Some(once::kept_or(memory.path, self.choice(memory.dirs))),
        }
    }

    /// The frequency that the call tells: it reads the file that was chosen.
    pub open spec fn told(self, memory: FrequencyMemory) -> Option<nat> {
        let chosen = self.memory_after(memory).path;
        match chosen {
            Some(Some(path)) => frequency_told(chosen, (self.content)(path)),
            _ => frequency_told(chosen, None),
        }
    }
}

/// What is kept after some calls for the frequency.
pub open spec fn memory_after(memory: FrequencyMemory, calls: Seq<FrequencyCall>) -> FrequencyMemory
    decreases calls.len(),
{
    if calls.len() == 0 {
        memory
    } else {
        calls.last().memory_after(memory_after(memory, calls.drop_last()))
    }
}

/// Every call reads the file that the first call chose, and no other one, even if
/// it cannot be read or another one has come to exist. If the first call found
/// none, no call tells a frequency.
pub proof fn law_frequency_file_is_chosen_once(
    dirs: Option<Seq<Seq<char>>>,
    calls: Seq<FrequencyCall>,
    k: int,
)
    requires
        0 <= k < calls.len(),
    ensures
        calls[k].told(memory_after(FrequencyMemory { dirs, path: None }, calls.take(k))) == (
        match calls[0].choice(dirs) {
            Some(path) => frequency::megahertz_in((calls[k].content)(path)),
            None => None,
        }),
{
    let start = FrequencyMemory { dirs, path: None };
    if k == 0 {
        assert(memory_after(start, calls.take(0)) == start);
    } else {
        lemma_choice_stays(start, calls, k);
    }
}

proof fn lemma_choice_stays(start: FrequencyMemory, calls: Seq<FrequencyCall>, k: int)
    requires
        0 < k <= calls.len(),
        start.path is None,
    ensures
        memory_after(start, calls.take(k)).path == Some(calls[0].choice(start.dirs)),
    decreases k,
{
    assert(calls.take(k).drop_last() =~= calls.take(k - 1));
    assert(calls.take(k).last() == calls[k - 1]);
    if k > 1 {
        lemma_choice_stays(start, calls, k - 1);
    } else {
        assert(memory_after(start, calls.take(0)) == start);
    }
}

/// A source is read at the place where its file was probed: the reading is the
/// text that the search looked at, and no sample is taken.
pub proof fn law_source_is_read_as_it_was_probed(
    tier: gpu_source::Tier,
    path: Seq<char>,
    content: Seq<char>,
    last: Option<(u64, u64)>,
)
    ensures
        usage(gpu_source::tier_source(tier, path), content, last) == (
        match gpu_source::number_in(tier, content) {
            Some(number) => Some(Reading::Percent(number)),
            None => None,
        }),
        sample_after(gpu_source::tier_source(tier, path), content, last) == last,
        source_path(gpu_source::tier_source(tier, path)) == path,
{
}

/// The load between two samples is what the busy counter has grown by, of what
/// both counters have grown by together. A counter that has not grown adds
/// nothing. Only without an earlier sample, or when neither counter has grown, is
/// there no load.
pub proof fn law_load_is_the_busy_share_of_the_growth(
    content: Seq<char>,
    busy: u64,
    idle: u64,
    prev_busy: u64,
    prev_idle: u64,
)
    requires
        busy_idle(content) == Some((busy as nat, idle as nat)),
    ensures
        ({
            let now = usage(
                gpu_source::UsageSource::DvfsUtilization,
                content,
                Some((prev_busy, prev_idle)),
            );
            let more_busy: int = if busy > prev_busy {
                busy - prev_busy
            } else {
                0
            };
            let more_idle: int = if idle > prev_idle {
                idle - prev_idle
            } else {
                0
            };
            &&& more_busy > 0 || more_idle > 0 ==> (now matches Some(
                Reading::Share { busy: share, total },
            ) && share == more_busy && (more_busy + more_idle <= u64::MAX ==> total == more_busy
                + more_idle) && (more_busy + more_idle > u64::MAX ==> total == u64::MAX))
            &&& more_busy == 0 && more_idle == 0 ==> now == Some(Reading::Idle)
            &&& more_busy > 0 && more_idle == 0 ==> now == Some(
                Reading::Share { busy: more_busy as u64, total: more_busy as u64 },
            )
        }),
        usage(gpu_source::UsageSource::DvfsUtilization, content, None) == Some(Reading::Idle),
        sample_after(
            gpu_source::UsageSource::DvfsUtilization,
            content,
            Some((prev_busy, prev_idle)),
        ) == Some((busy, idle)),
        sample_after(gpu_source::UsageSource::DvfsUtilization, content, None) == Some((busy, idle)),
{
}

/// Two samples one behind the other tell the load between them, whatever came
/// before.
pub proof fn law_samples_are_compared_with_the_last_one(
    first: Seq<char>,
    second: Seq<char>,
    last: Option<(u64, u64)>,
    busy: (u64, u64),
    idle: (u64, u64),
)
    requires
        busy_idle(first) == Some((busy.0 as nat, idle.0 as nat)),
        busy_idle(second) == Some((busy.1 as nat, idle.1 as nat)),
        busy.0 <= busy.1,
        idle.0 <= idle.1,
        0 < (busy.1 - busy.0) + (idle.1 - idle.0) <= u64::MAX,
    ensures
        usage(
            gpu_source::UsageSource::DvfsUtilization,
            second,
            sample_after(gpu_source::UsageSource::DvfsUtilization, first, last),
        ) == Some(
            Reading::Share {
                busy: (busy.1 - busy.0) as u64,
                total: (busy.1 - busy.0 + idle.1 - idle.0) as u64,
            },
        ),
{
}

/// A text without both counters tells no load and keeps the last sample.
pub proof fn law_no_counters_no_sample(content: Seq<char>, last: Option<(u64, u64)>)
    requires
        busy_idle(content) is None,
    ensures
        usage(gpu_source::UsageSource::DvfsUtilization, content, last) is None,
        sample_after(gpu_source::UsageSource::DvfsUtilization, content, last) == last,
{
}

/// Of the other sources a devfreq load tells the number in it, and the files with
/// a percentage tell their text without the white space around it.
pub proof fn law_other_sources_tell_a_number(
    path: Seq<char>,
    content: Seq<char>,
    last: Option<(u64, u64)>,
)
    ensures
        match devfreq_number(content) {
            Some(number) => usage(gpu_source::UsageSource::DevfreqLoad(path), content, last)
                == Some(Reading::Percent(number)),
            None => usage(gpu_source::UsageSource::DevfreqLoad(path), content, last) is None,
        },
        usage(gpu_source::UsageSource::Utilisation(path), content, last) == Some(
            Reading::Percent(text::trimmed(content)),
        ),
        usage(gpu_source::UsageSource::DrmBusy(path), content, last) == Some(
            Reading::Percent(text::trimmed(content)),
        ),
        sample_after(gpu_source::UsageSource::DevfreqLoad(path), content, last) == last,
        sample_after(gpu_source::UsageSource::Utilisation(path), content, last) == last,
        sample_after(gpu_source::UsageSource::DrmBusy(path), content, last) == last,
        source_path(gpu_source::UsageSource::DevfreqLoad(path)) == path,
        source_path(gpu_source::UsageSource::Utilisation(path)) == path,
        source_path(gpu_source::UsageSource::DrmBusy(path)) == path,
        source_path(gpu_source::UsageSource::DvfsUtilization)
            == "/sys/kernel/debug/mali0/dvfs_utilization"@,
{
}

/// The number in a devfreq load is what stands before the first `@` in the first
/// word, or the whole word if it has none. White space alone holds none.
pub proof fn law_devfreq_number_stands_before_the_at(
    a: Seq<char>,
    number: Seq<char>,
    more: Seq<char>,
    rest: Seq<char>,
)
    requires
        forall|i: int| 0 <= i < a.len() ==> text::is_whitespace(#[trigger] a[i]),
        forall|i: int|
            0 <= i < number.len() ==> !text::is_whitespace(#[trigger] number[i]) && number[i] != '@',
        forall|i: int| 0 <= i < more.len() ==> !text::is_whitespace(#[trigger] more[i]),
        rest.len() > 0 ==> text::is_whitespace(rest[0]),
    ensures
        devfreq_number(a + (number + seq!['@'] + more) + rest) == Some(number),
        number.len() > 0 ==> devfreq_number(a + number + rest) == Some(number),
        devfreq_number(a) is None,
{
    let word = number + seq!['@'] + more;
    assert forall|i: int| 0 <= i < word.len() implies !text::is_whitespace(#[trigger] word[i]) by {
        if i < number.len() {
            assert(word[i] == number[i]);
        } else if i > number.len() {
            assert(word[i] == more[i - number.len() - 1]);
        }
    }
    text::law_words_stand_between_space(a, word, rest);
    if number.len() > 0 {
        assert(!text::is_whitespace(number[0]));
        assert(!text::is_whitespace(number[number.len() - 1]));
        text::law_words_stand_between_space(a, number, rest);
    }
    text::law_parts_are_cut_at_each_separator(number, '@', more);
    text::law_trimmed_text_stays(number);
}

/// The words count in pairs, and each pair with a number of 64 bits sets the
/// counter that it names, with any colons behind the name, over any pair before
/// it; another pair changes nothing, and neither does a word that is left over.
pub proof fn law_each_pair_sets_its_counter(
    content: Seq<char>,
    name: Seq<char>,
    n: nat,
    named: Seq<char>,
    colons: Seq<char>,
)
    requires
        2 * n + 1 < text::words(content).len(),
        text::words(content)[2 * n as int] == named + colons,
        named.len() > 0 ==> named[named.len() - 1] != ':',
        forall|i: int| 0 <= i < colons.len() ==> #[trigger] colons[i] == ':',
    ensures
        counter(text::words(content), name, 0) is None,
        counter(text::words(content), name, n + 1) == (match number::spelled_nat(
            text::words(content)[2 * n as int + 1],
        ) {
            Some(value) if value <= u64::MAX && named == name => Some(value),
            _ => counter(text::words(content), name, n),
        }),
        counter_in(content, name) == counter(
            text::words(content),
            name,
            text::words(content).len() / 2,
        ),
{
    text::law_run_at_the_end_is_cut(named, ':', colons);
}

/// The busy time is the sum of the busy counter and of that for protected mode, if
/// it is told, up to the largest number of 64 bits; the idle time is the idle
/// counter. Both counters must be told.
pub proof fn law_busy_and_idle_are_told_by_their_counters(content: Seq<char>)
    ensures
        match (counter_in(content, "busy_time"@), counter_in(content, "idle_time"@)) {
            (Some(busy), Some(idle)) => {
                let sum = busy + (match counter_in(content, "protm_time"@) {
                    Some(time) => time as int,
                    None => 0,
                });
                busy_idle(content) matches Some((told_busy, told_idle)) && told_idle == idle && (sum
                    <= u64::MAX ==> told_busy == sum) && (sum > u64::MAX ==> told_busy == u64::MAX)
            },
            _ => busy_idle(content) is None,
        },
{
}

/// Every device with the name of a GPU gives its directory, in the order of the
/// listing, and no other device does.
pub proof fn law_every_gpu_gives_its_directory(name: Seq<char>, rest: Seq<Seq<char>>)
    ensures
        devfreq_dirs(Seq::<Seq<char>>::empty()) == Seq::<Seq<char>>::empty(),
        devfreq_dirs(seq![name] + rest) == (if gpu_source::is_gpu_name(name) {
            seq!["/sys/class/devfreq/"@ + name]
        } else {
            Seq::<Seq<char>>::empty()
        }) + devfreq_dirs(rest),
{
    let f = |n: Seq<char>|
        if gpu_source::is_gpu_name(n) {
            Some(gpu_source::entry_path("/sys/class/devfreq"@, n))
        } else {
            None
        };
    text::lemma_filter_map_first(f, name, rest);
    reveal(Seq::filter_map);
    assert(devfreq_dirs(Seq::<Seq<char>>::empty()) =~= Seq::<Seq<char>>::empty());
    reveal_strlit("/sys/class/devfreq");
    reveal_strlit("/");
    reveal_strlit("/sys/class/devfreq/");
    assert("/sys/class/devfreq"@ + "/"@ =~= "/sys/class/devfreq/"@);
}

/// The frequency is looked for in every devfreq directory, in their order, and
/// then at the three usual places.
pub proof fn law_frequency_files_of_the_directories_come_first(
    dirs: Seq<Seq<char>>,
    i: int,
)
    ensures
        frequency_files(dirs).len() == dirs.len() + 3,
        0 <= i < dirs.len() ==> frequency_files(dirs)[i] == dirs[i] + "/cur_freq"@,
        frequency_files(dirs)[dirs.len() as int]
            == "/sys/devices/platform/fb000000.gpu-panthor/devfreq/fb000000.gpu-panthor/cur_freq"@,
        frequency_files(dirs)[dirs.len() as int + 1] == "/sys/class/devfreq/fb000000.gpu/cur_freq"@,
        frequency_files(dirs)[dirs.len() as int + 2] == "/sys/class/devfreq/fb000000.gpu-mali/cur_freq"@,
{
}

/// The frequency is told from the chosen file and from no other; without a chosen
/// file there is none.
pub proof fn law_frequency_is_told_from_the_chosen_file(
    path: Seq<char>,
    content: Option<Seq<char>>,
    files: Seq<(String, bool)>,
    i: int,
)
    ensures
        frequency_told(Some(Some(path)), content) == frequency::megahertz_in(content),
        frequency_told(Some(None), content) is None,
        frequency_told(None, content) is None,
        files_of(files).len() == files.len(),
        0 <= i < files.len() ==> files_of(files)[i] == (files[i].0@, files[i].1),
{
}

/// What is told of a reading is what it is made of.
pub proof fn law_readings_hold_what_they_are_made_of(number: String, busy: u64, total: u64)
    ensures
        reading_view(Some(GpuReading::Percent(number))) == Some(Reading::Percent(number@)),
        reading_view(Some(GpuReading::Share { busy, total })) == Some(
            Reading::Share { busy, total },
        ),
        reading_view(Some(GpuReading::Idle)) == Some(Reading::Idle),
        reading_view(None) == None::<Reading>,
{
}

} // verus!
