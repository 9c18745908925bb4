//! Where the load of the GPU can be read, and the search for such a place.

use vstd::prelude::*;

use crate::gpu;
use crate::once;
use crate::text;

verus! {

/// A place that tells how busy the GPU is.
#[derive(Debug)]
pub enum GpuUsageSource {
    /// The `load` file of a devfreq device, `LOAD@FREQHz`.
    DevfreqLoad(String),
    /// The `utilisation` file of the Mali kernel driver.
    Utilisation(String),
    /// The `gpu_busy_percent` file of a DRM card.
    DrmBusy(String),
    /// The busy and idle counters that older Mali drivers keep in debugfs.
    DvfsUtilization,
}

/// What a [`GpuUsageSource`] stands for, its path as a text.
pub enum UsageSource {
    DevfreqLoad(Seq<char>),
    Utilisation(Seq<char>),
    DrmBusy(Seq<char>),
    DvfsUtilization,
}

impl View for GpuUsageSource {
    type V = UsageSource;

    open spec fn view(&self) -> UsageSource {
        match *self {
            GpuUsageSource::DevfreqLoad(path) => UsageSource::DevfreqLoad(path@),
            GpuUsageSource::Utilisation(path) => UsageSource::Utilisation(path@),
            GpuUsageSource::DrmBusy(path) => UsageSource::DrmBusy(path@),
            GpuUsageSource::DvfsUtilization => UsageSource::DvfsUtilization,
        }
    }
}

/// The kinds of files that the search probes, the preferred one first.
#[derive(Clone, Copy, Debug, PartialEq, Eq, Structural)]
pub enum Tier {
    /// `load` of the devfreq devices.
    Devfreq,
    /// `utilisation` at the places where the RK3588 has it.
    KnownUtilisation,
    /// `utilisation` of the platform devices.
    PlatformUtilisation,
    /// `gpu_busy_percent` of the DRM cards.
    DrmBusy,
}

/// The directories of devices that the search lists.
#[derive(Clone, Copy, Debug, PartialEq, Eq, Structural)]
pub enum Class {
    /// The platform devices.
    Platform,
    /// The DRM cards.
    Drm,
}

/// What the search wants to have done next.
#[derive(Debug)]
pub enum SearchAction {
    /// List the names in a directory.
    List(String),
    /// Read a file and see whether [`probed_number`] finds in it the text of a
    /// number.
    Probe(Tier, String),
    /// See whether a file exists.
    CheckExists(String),
    /// The search is over.
    Finish(Option<GpuUsageSource>),
}

/// What was found when an action was carried out.
#[derive(Debug)]
pub enum SearchEvent {
    /// The names in the directory; none if it cannot be read.
    Listed(Vec<String>),
    /// Whether the file could be read and [`probed_number`] found in it the text
    /// of a number.
    Probed(bool),
    /// Whether the file exists.
    Checked(bool),
}

/// The stage that a search has reached.
pub enum SearchState {
    /// The names of the devices of a class are awaited.
    Listing(Class),
    /// The first of these files is being probed.
    Probing(Tier, Seq<Seq<char>>),
    /// Whether the debugfs file exists is awaited.
    Checking,
    /// The search is over.
    Done(Option<UsageSource>),
}

/// What a [`SearchEvent`] says.
pub enum Finding {
    Listed(Seq<Seq<char>>),
    Probed(bool),
    Checked(bool),
}

impl View for SearchEvent {
    type V = Finding;

    open spec fn view(&self) -> Finding {
        match *self {
            SearchEvent::Listed(names) => Finding::Listed(text::texts(names@)),
            SearchEvent::Probed(usable) => Finding::Probed(usable),
            SearchEvent::Checked(exists) => Finding::Checked(exists),
        }
    }
}

/// What a [`SearchAction`] asks for.
pub enum Request {
    List(Seq<char>),
    Probe(Tier, Seq<char>),
    CheckExists(Seq<char>),
    Finish(Option<UsageSource>),
}

/// What an optional source stands for.
pub open spec fn source_view(source: Option<GpuUsageSource>) -> Option<UsageSource> {
    match source {
        Some(found) => Some(found@),
        None => None,
    }
}

impl View for SearchAction {
    type V = Request;

    open spec fn view(&self) -> Request {
        match *self {
            SearchAction::List(dir) => Request::List(dir@),
            SearchAction::Probe(tier, path) => Request::Probe(tier, path@),
            SearchAction::CheckExists(path) => Request::CheckExists(path@),
            SearchAction::Finish(source) => Request::Finish(source_view(source)),
        }
    }
}

/// A name that belongs to a GPU: it holds `gpu`, `mali`, `panthor` or
/// `panfrost`, in small or capital letters.
pub open spec fn is_gpu_name(name: Seq<char>) -> bool {
    let n = text::lowered(name);
    text::occurs(n, "gpu"@) || text::occurs(n, "mali"@) || text::occurs(n, "panthor"@)
        || text::occurs(n, "panfrost"@)
}

/// A name that belongs to a DRM card, not to one of its connectors.
pub open spec fn is_card_name(name: Seq<char>) -> bool {
    text::begins_with(name, "card"@) && !name.contains('-')
}

/// The directory that holds the devices of a class.
pub open spec fn class_dir(class: Class) -> Seq<char> {
    match class {
        Class::Platform => "/sys/devices/platform"@,
        Class::Drm => "/sys/class/drm"@,
    }
}

/// Whether a device of this name can have the file of the class.
pub open spec fn class_admits(class: Class, name: Seq<char>) -> bool {
    match class {
        Class::Platform => is_gpu_name(name),
        Class::Drm => is_card_name(name),
    }
}

/// Where the file of the class stands below the directory of a device.
pub open spec fn class_file(class: Class) -> Seq<char> {
    match class {
        Class::Platform => "/utilisation"@,
        Class::Drm => "/device/gpu_busy_percent"@,
    }
}

/// The tier that the files of a class belong to.
pub open spec fn class_tier(class: Class) -> Tier {
    match class {
        Class::Platform => Tier::PlatformUtilisation,
        Class::Drm => Tier::DrmBusy,
    }
}

/// The path of an entry of a directory.
pub open spec fn entry_path(dir: Seq<char>, name: Seq<char>) -> Seq<char> {
    dir + "/"@ + name
}

/// The file of the class, for a device of this name.
pub open spec fn candidate(class: Class, name: Seq<char>) -> Option<Seq<char>> {
    if class_admits(class, name) {
        Some(entry_path(class_dir(class), name) + class_file(class))
    } else {
        None
    }
}

/// The files of the class, for the devices with these names, in order.
pub open spec fn candidates(class: Class, names: Seq<Seq<char>>) -> Seq<Seq<char>> {
    names.filter_map(|name: Seq<char>| candidate(class, name))
}

/// The `load` files in these devfreq directories, in order.
pub open spec fn load_files(dirs: Seq<Seq<char>>) -> Seq<Seq<char>> {
    dirs.map_values(|dir: Seq<char>| dir + "/load"@)
}

/// The places where the RK3588 has its `utilisation` file.
pub open spec fn known_utilisation_paths() -> Seq<Seq<char>> {
    seq![
        "/sys/devices/platform/fb000000.gpu/utilisation"@,
        "/sys/devices/platform/fb000000.gpu-mali/utilisation"@,
        "/sys/devices/platform/fb000000.gpu-panthor/utilisation"@,
    ]
}

/// The file with the busy and idle counters of older Mali drivers.
pub open spec fn dvfs_path() -> Seq<char> {
    "/sys/kernel/debug/mali0/dvfs_utilization"@
}

/// The text that must be a number for a file of the tier to be usable: what
/// stands before the `@` in a devfreq load, the whole text without the white
/// space around it in the other tiers.
pub open spec fn number_in(tier: Tier, content: Seq<char>) -> Option<Seq<char>> {
    match tier {
        Tier::Devfreq => gpu::devfreq_number(content),
        _ => Some(text::trimmed(content)),
    }
}

/// The text that must be a number for a file of the tier with this content to be
/// usable.
pub fn probed_number(tier: Tier, content: &str) -> (res: Option<String>)
    ensures
        text::text_of(res) == number_in(tier, content@),
{
    match tier {
        Tier::Devfreq => gpu::devfreq_load_number(content),
        _ => Some(text::trim(content)),
    }
}

/// The source that a usable file of the tier is.
pub open spec fn tier_source(tier: Tier, path: Seq<char>) -> UsageSource {
    match tier {
        Tier::Devfreq => UsageSource::DevfreqLoad(path),
        Tier::DrmBusy => UsageSource::DrmBusy(path),
        _ => UsageSource::Utilisation(path),
    }
}

/// The stage behind a tier in which no file was usable.
pub open spec fn after_tier(tier: Tier) -> SearchState {
    match tier {
        Tier::Devfreq => SearchState::Probing(Tier::KnownUtilisation, known_utilisation_paths()),
        Tier::KnownUtilisation => SearchState::Listing(Class::Platform),
        Tier::PlatformUtilisation => SearchState::Listing(Class::Drm),
        Tier::DrmBusy => SearchState::Checking,
    }
}

/// The stage in which these files are left to be probed.
pub open spec fn left_to_probe(tier: Tier, paths: Seq<Seq<char>>) -> SearchState {
    if paths.len() > 0 {
        SearchState::Probing(tier, paths)
    } else {
        after_tier(tier)
    }
}

/// The first stage of a search, given the devfreq directories of the GPUs.
pub open spec fn first_state(dirs: Seq<Seq<char>>) -> SearchState {
    left_to_probe(Tier::Devfreq, load_files(dirs))
}

/// The stage behind `state` when `finding` answers what it awaits. A finding
/// of another kind changes nothing.
pub open spec fn next_state(state: SearchState, finding: Finding) -> SearchState {
    match (state, finding) {
        (SearchState::Listing(class), Finding::Listed(names)) => left_to_probe(
            class_tier(class),
            candidates(class, names),
        ),
        (SearchState::Probing(tier, paths), Finding::Probed(usable)) => if usable {
            SearchState::Done(Some(tier_source(tier, paths[0])))
        } else {
            left_to_probe(tier, paths.drop_first())
        },
        (SearchState::Checking, Finding::Checked(exists)) => SearchState::Done(
            if exists {
                Some(UsageSource::DvfsUtilization)
            } else {
                None
            },
        ),
        _ => state,
    }
}

/// What is to be done in a stage.
pub open spec fn request_of(state: SearchState) -> Request {
    match state {
        SearchState::Listing(class) => Request::List(class_dir(class)),
        SearchState::Probing(tier, paths) => Request::Probe(tier, paths[0]),
        SearchState::Checking => Request::CheckExists(dvfs_path()),
        SearchState::Done(source) => Request::Finish(source),
    }
}

/// Whether the name belongs to a GPU.
pub fn is_gpu_device_name(name: &str) -> (res: bool)
    ensures
        res == is_gpu_name(name@),
{
    let n = text::to_lower(name);
    text::contains(n.as_str(), "gpu") || text::contains(n.as_str(), "mali") || text::contains(
        n.as_str(),
        "panthor",
    ) || text::contains(n.as_str(), "panfrost")
}

impl Clone for GpuUsageSource {
    fn clone(&self) -> (res: GpuUsageSource)
        ensures
            res@ == self@,
    {
        match self {
            GpuUsageSource::DevfreqLoad(path) => GpuUsageSource::DevfreqLoad(path.clone()),
            GpuUsageSource::Utilisation(path) => GpuUsageSource::Utilisation(path.clone()),
            GpuUsageSource::DrmBusy(path) => GpuUsageSource::DrmBusy(path.clone()),
            GpuUsageSource::DvfsUtilization => GpuUsageSource::DvfsUtilization,
        }
    }
}

/// Whether the name belongs to a DRM card.
fn is_drm_card_name(name: &str) -> (res: bool)
    ensures
        res == is_card_name(name@),
{
    proof {
        reveal_strlit("-");
        text::lemma_single_occurs(name@, "-"@);
    }
    text::starts_with(name, "card") && !text::contains(name, "-")
}

impl Tier {
    /// The source that a usable file of the tier is.
    fn source(self, path: String) -> (res: GpuUsageSource)
        ensures
            res@ == tier_source(self, path@),
    {
        match self {
            Tier::Devfreq => GpuUsageSource::DevfreqLoad(path),
            Tier::DrmBusy => GpuUsageSource::DrmBusy(path),
            _ => GpuUsageSource::Utilisation(path),
        }
    }
}

impl Class {
    /// The directory that holds the devices of the class.
    fn dir(self) -> (res: &'static str)
        ensures
            res@ == class_dir(self),
    {
        match self {
            Class::Platform => "/sys/devices/platform",
            Class::Drm => "/sys/class/drm",
        }
    }

    /// Where the file of the class stands below the directory of a device.
    fn file(self) -> (res: &'static str)
        ensures
            res@ == class_file(self),
    {
        match self {
            Class::Platform => "/utilisation",
            Class::Drm => "/device/gpu_busy_percent",
        }
    }

    /// The tier that the files of the class belong to.
    fn tier(self) -> (res: Tier)
        ensures
            res == class_tier(self),
    {
        match self {
            Class::Platform => Tier::PlatformUtilisation,
            Class::Drm => Tier::DrmBusy,
        }
    }

    /// Whether a device of this name can have the file of the class.
    fn admits(self, name: &str) -> (res: bool)
        ensures
            res == class_admits(self, name@),
    {
        match self {
            Class::Platform => is_gpu_device_name(name),
            Class::Drm => is_drm_card_name(name),
        }
    }

    /// The files of the class, for the devices with these names, in order.
    fn candidate_paths(self, names: &Vec<String>) -> (res: Vec<String>)
        ensures
            text::texts(res@) == candidates(self, text::texts(names@)),
    {
        let ghost f = |name: Seq<char>| candidate(self, name);
        let ghost all = text::texts(names@);
        let mut res: Vec<String> = Vec::new();
        let mut i: usize = 0;
        while i < names.len()
            invariant
                i <= names@.len(),
                all == text::texts(names@),
                f == (|name: Seq<char>| candidate(self, name)),
                text::texts(res@) == all.take(i as int).filter_map(f),
            decreases names@.len() - i,
        {
            proof {
                all.lemma_filter_map_take_succ(f, i as int);
                assert(all[i as int] == names@[i as int]@);
            }
            if self.admits(names[i].as_str()) {
                let dir = text::concat3(self.dir(), "/", names[i].as_str());
                let path = text::concat(dir.as_str(), self.file());
                proof {
                    text::lemma_texts_push(res@, path);
                }
                res.push(path);
            }
            i += 1;
        }
        assert(all.take(all.len() as int) =~= all);
        res
    }
}

/// The `load` files in these devfreq directories, in order.
fn load_paths(dirs: &Vec<String>) -> (res: Vec<String>)
    ensures
        text::texts(res@) == load_files(text::texts(dirs@)),
{
    let mut res: Vec<String> = Vec::new();
    let mut i: usize = 0;
    while i < dirs.len()
        invariant
            i <= dirs@.len(),
            res@.len() == i,
            forall|j: int| 0 <= j < i ==> (#[trigger] res@[j])@ == dirs@[j]@ + "/load"@,
        decreases dirs@.len() - i,
    {
        res.push(text::concat(dirs[i].as_str(), "/load"));
        i += 1;
    }
    assert(text::texts(res@) =~= load_files(text::texts(dirs@)));
    res
}

enum Stage {
    Listing(Class),
    Probing(Tier, Vec<String>, usize),
    Checking,
    Done(Option<GpuUsageSource>),
}

impl Stage {
    spec fn state(self) -> SearchState {
        match self {
            Stage::Listing(class) => SearchState::Listing(class),
            Stage::Probing(tier, paths, next) => SearchState::Probing(
                tier,
                text::texts(paths@).skip(next as int),
            ),
            Stage::Checking => SearchState::Checking,
            Stage::Done(source) => SearchState::Done(source_view(source)),
        }
    }

    spec fn wf(self) -> bool {
        self matches Stage::Probing(_, paths, next) ==> next < paths@.len()
    }

    /// The stage behind a tier in which no file was usable.
    fn after(tier: Tier) -> (res: Stage)
        ensures
            res.wf(),
            res.state() == after_tier(tier),
    {
        match tier {
            Tier::Devfreq => {
                let mut paths: Vec<String> = Vec::new();
                paths.push("/sys/devices/platform/fb000000.gpu/utilisation".to_string());
                paths.push("/sys/devices/platform/fb000000.gpu-mali/utilisation".to_string());
                paths.push("/sys/devices/platform/fb000000.gpu-panthor/utilisation".to_string());
                assert(text::texts(paths@).skip(0) =~= known_utilisation_paths());
                Stage::Probing(Tier::KnownUtilisation, paths, 0)
            },
            Tier::KnownUtilisation => Stage::Listing(Class::Platform),
            Tier::PlatformUtilisation => Stage::Listing(Class::Drm),
            Tier::DrmBusy => Stage::Checking,
        }
    }

    /// The stage in which these files are left to be probed.
    fn probing(tier: Tier, paths: Vec<String>) -> (res: Stage)
        ensures
            res.wf(),
            res.state() == left_to_probe(tier, text::texts(paths@)),
    {
        assert(text::texts(paths@).len() == paths@.len());
        if paths.len() > 0 {
            assert(text::texts(paths@).skip(0) =~= text::texts(paths@));
            Stage::Probing(tier, paths, 0)
        } else {
            Stage::after(tier)
        }
    }
}

/// The search for the best source of the GPU load. It reads nothing itself:
/// it says what is to be looked at, and is told what was found.
pub struct GpuSourceSearch {
    stage: Stage,
}

impl View for GpuSourceSearch {
    type V = SearchState;

    closed spec fn view(&self) -> SearchState {
        self.stage.state()
    }
}

impl GpuSourceSearch {
    #[verifier::type_invariant]
    spec fn inv(self) -> bool {
        self.stage.wf()
    }

    /// A search that has seen nothing yet but the devfreq directories of the
    /// GPUs.
    pub fn new(dirs: &Vec<String>) -> (res: GpuSourceSearch)
        ensures
            res@ == first_state(text::texts(dirs@)),
    {
        GpuSourceSearch { stage: Stage::probing(Tier::Devfreq, load_paths(dirs)) }
    }

    /// What is to be done next.
    pub fn action(&self) -> (res: SearchAction)
        ensures
            res@ == request_of(self@),
    {
        proof {
            use_type_invariant(self);
        }
        match &self.stage {
            Stage::Listing(class) => SearchAction::List(class.dir().to_string()),
            Stage::Probing(tier, paths, next) => SearchAction::Probe(*tier, paths[*next].clone()),
            Stage::Checking => SearchAction::CheckExists(
                "/sys/kernel/debug/mali0/dvfs_utilization".to_string(),
            ),
            Stage::Done(None) => SearchAction::Finish(None),
            Stage::Done(Some(source)) => SearchAction::Finish(Some(source.clone())),
        }
    }

    /// Takes in what was found.
    pub fn advance(self, event: &SearchEvent) -> (res: GpuSourceSearch)
        ensures
            res@ == next_state(self@, event@),
    {
        proof {
            use_type_invariant(&self);
        }
        let stage = match (self.stage, event) {
            (Stage::Listing(class), SearchEvent::Listed(names)) => {
                Stage::probing(class.tier(), class.candidate_paths(names))
            },
            (Stage::Probing(tier, paths, next), SearchEvent::Probed(usable)) => {
                let ghost all = text::texts(paths@);
                assert(all.skip(next as int)[0] == paths@[next as int]@);
                assert(all.skip(next as int).drop_first() =~= all.skip(next as int + 1));
                if *usable {
                    Stage::Done(Some(tier.source(paths[next].clone())))
                } else if paths.len() - next > 1 {
                    Stage::Probing(tier, paths, next + 1)
                } else {
                    Stage::after(tier)
                }
            },
            (Stage::Checking, SearchEvent::Checked(exists)) => Stage::Done(
                if *exists {
                    Some(GpuUsageSource::DvfsUtilization)
                } else {
                    None
                },
            ),
            (stage, _) => stage,
        };
        GpuSourceSearch { stage }
    }
}

/// A file system as the search sees it.
pub struct Surroundings {
    /// The devfreq directories of the GPUs.
    pub dirs: Seq<Seq<char>>,
    /// The names of the devices of a class.
    pub names: spec_fn(Class) -> Seq<Seq<char>>,
    /// The text of a file, if it can be read.
    pub content: spec_fn(Seq<char>) -> Option<Seq<char>>,
    /// Whether a text is a number.
    pub is_number: spec_fn(Seq<char>) -> bool,
    /// Whether the debugfs counters exist.
    pub counters: bool,
}

impl Surroundings {
    /// A file of the tier can be read and holds a number where the tier has it.
    pub open spec fn usable(self, tier: Tier, path: Seq<char>) -> bool {
        (self.content)(path) matches Some(content) && number_in(tier, content) matches Some(number)
            && (self.is_number)(number)
    }

    /// What is found when the request of a stage is carried out.
    pub open spec fn finding(self, state: SearchState) -> Finding {
        match state {
            SearchState::Listing(class) => Finding::Listed((self.names)(class)),
            SearchState::Probing(tier, paths) => Finding::Probed(self.usable(tier, paths[0])),
            _ => Finding::Checked(self.counters),
        }
    }

    /// The files of a tier, in the order in which they are probed.
    pub open spec fn files(self, tier: Tier) -> Seq<Seq<char>> {
        match tier {
            Tier::Devfreq => load_files(self.dirs),
            Tier::KnownUtilisation => known_utilisation_paths(),
            Tier::PlatformUtilisation => candidates(Class::Platform, (self.names)(Class::Platform)),
            Tier::DrmBusy => candidates(Class::Drm, (self.names)(Class::Drm)),
        }
    }

    /// The first usable one of these files.
    pub open spec fn first_usable(self, tier: Tier, paths: Seq<Seq<char>>) -> Option<UsageSource>
        decreases paths.len(),
    {
        if paths.len() == 0 {
            None
        } else if self.usable(tier, paths[0]) {
            Some(tier_source(tier, paths[0]))
        } else {
            self.first_usable(tier, paths.drop_first())
        }
    }

    /// The source of a tier.
    pub open spec fn source_in(self, tier: Tier) -> Option<UsageSource> {
        self.first_usable(tier, self.files(tier))
    }

    /// The source to be preferred: the first usable file of the first tier that
    /// has one; the debugfs counters only if no tier has one.
    pub open spec fn best_source(self) -> Option<UsageSource> {
        if self.source_in(Tier::Devfreq) is Some {
            self.source_in(Tier::Devfreq)
        } else if self.source_in(Tier::KnownUtilisation) is Some {
            self.source_in(Tier::KnownUtilisation)
        } else if self.source_in(Tier::PlatformUtilisation) is Some {
            self.source_in(Tier::PlatformUtilisation)
        } else if self.source_in(Tier::DrmBusy) is Some {
            self.source_in(Tier::DrmBusy)
        } else if self.counters {
            Some(UsageSource::DvfsUtilization)
        } else {
            None
        }
    }
}

/// How many kinds of stages can still follow.
pub open spec fn stages_ahead(state: SearchState) -> nat {
    match state {
        SearchState::Probing(Tier::Devfreq, _) => 7,
        SearchState::Probing(Tier::KnownUtilisation, _) => 6,
        SearchState::Listing(Class::Platform) => 5,
        SearchState::Probing(Tier::PlatformUtilisation, _) => 4,
        SearchState::Listing(Class::Drm) => 3,
        SearchState::Probing(Tier::DrmBusy, _) => 2,
        SearchState::Checking => 1,
        SearchState::Done(_) => 0,
    }
}

/// How many files are left to be probed in a stage.
pub open spec fn files_left(state: SearchState) -> nat {
    match state {
        SearchState::Probing(_, paths) => paths.len(),
        _ => 0,
    }
}

/// What a search comes to in these surroundings.
pub open spec fn search(around: Surroundings) -> Option<UsageSource> {
    search_from(around, first_state(around.dirs))
}

/// What a search comes to that goes on from `state`, each request being
/// carried out in the same surroundings.
pub open spec fn search_from(around: Surroundings, state: SearchState) -> Option<UsageSource>
    decreases stages_ahead(state), files_left(state),
{
    match state {
        SearchState::Done(source) => source,
        SearchState::Probing(_, paths) if paths.len() == 0 => None,
        _ => search_from(around, next_state(state, around.finding(state))),
    }
}

/// Probing goes through the files in order and stops at the first usable one.
proof fn lemma_probing(around: Surroundings, tier: Tier, paths: Seq<Seq<char>>)
    ensures
        search_from(around, left_to_probe(tier, paths)) == (if around.first_usable(
            tier,
            paths,
        ) is Some {
            around.first_usable(tier, paths)
        } else {
            search_from(around, after_tier(tier))
        }),
    decreases paths.len(),
{
    if paths.len() > 0 {
        let state = SearchState::Probing(tier, paths);
        let next = next_state(state, around.finding(state));
        assert(search_from(around, state) == search_from(around, next));
        if !around.usable(tier, paths[0]) {
            lemma_probing(around, tier, paths.drop_first());
        }
    }
}

/// A search that is answered from the same surroundings throughout comes to an
/// end, and finds the source to be preferred.
pub proof fn law_search_finds_best_source(around: Surroundings)
    ensures
        search(around) == around.best_source(),
{
    lemma_probing(around, Tier::Devfreq, around.files(Tier::Devfreq));
    lemma_probing(around, Tier::KnownUtilisation, around.files(Tier::KnownUtilisation));
    lemma_probing(around, Tier::PlatformUtilisation, around.files(Tier::PlatformUtilisation));
    lemma_probing(around, Tier::DrmBusy, around.files(Tier::DrmBusy));
    let drm = SearchState::Listing(Class::Drm);
    assert(next_state(drm, around.finding(drm)) == left_to_probe(
        Tier::DrmBusy,
        around.files(Tier::DrmBusy),
    ));
    let platform = SearchState::Listing(Class::Platform);
    assert(next_state(platform, around.finding(platform)) == left_to_probe(
        Tier::PlatformUtilisation,
        around.files(Tier::PlatformUtilisation),
    ));
    assert(left_to_probe(Tier::KnownUtilisation, known_utilisation_paths()) == after_tier(
        Tier::Devfreq,
    ));
    let check = SearchState::Checking;
    let checked = next_state(check, around.finding(check));
    assert(search_from(around, check) == search_from(around, checked));
}

/// A tier has a source as soon as one of its files is usable, and its source is
/// always a usable file.
pub proof fn law_usable_file_is_found(around: Surroundings, tier: Tier, paths: Seq<Seq<char>>)
    ensures
        match around.first_usable(tier, paths) {
            Some(source) => exists|i: int|
                0 <= i < paths.len() && around.usable(tier, #[trigger] paths[i]) && source
                    == tier_source(tier, paths[i]) && forall|j: int|
                    0 <= j < i ==> !around.usable(tier, #[trigger] paths[j]),
            None => forall|i: int|
                0 <= i < paths.len() ==> !around.usable(tier, #[trigger] paths[i]),
        },
    decreases paths.len(),
{
    if paths.len() > 0 && !around.usable(tier, paths[0]) {
        let rest = paths.drop_first();
        law_usable_file_is_found(around, tier, rest);
        match around.first_usable(tier, rest) {
            Some(source) => {
                let i = choose|i: int|
                    0 <= i < rest.len() && around.usable(tier, #[trigger] rest[i]) && source
                        == tier_source(tier, rest[i]) && forall|j: int|
                        0 <= j < i ==> !around.usable(tier, #[trigger] rest[j]);
                assert(paths[i + 1] == rest[i]);
                assert forall|j: int| 0 <= j < i + 1 implies !around.usable(
                    tier,
                    #[trigger] paths[j],
                ) by {
                    if j > 0 {
                        assert(paths[j] == rest[j - 1]);
                    }
                }
            },
            None => {
                assert forall|i: int| 0 <= i < paths.len() implies !around.usable(
                    tier,
                    #[trigger] paths[i],
                ) by {
                    if i > 0 {
                        assert(paths[i] == rest[i - 1]);
                    }
                }
            },
        }
    } else if paths.len() > 0 {
        assert(around.usable(tier, paths[0]));
    }
}

/// Where the load file of a devfreq device is usable, the search finds such a
/// file, whatever else there is.
pub proof fn law_devfreq_load_is_preferred(around: Surroundings, path: Seq<char>)
    requires
        around.files(Tier::Devfreq).contains(path),
        around.usable(Tier::Devfreq, path),
    ensures
        search(around) is Some,
        search(around)->0 is DevfreqLoad,
{
    law_search_finds_best_source(around);
    law_usable_file_is_found(around, Tier::Devfreq, around.files(Tier::Devfreq));
    let files = around.files(Tier::Devfreq);
    let i = choose|i: int| 0 <= i < files.len() && files[i] == path;
    assert(around.usable(Tier::Devfreq, files[i]));
}

/// The counters in debugfs are taken only where no file of any tier is usable.
pub proof fn law_counters_are_the_last_resort(around: Surroundings, tier: Tier, path: Seq<char>)
    requires
        search(around) == Some(
            UsageSource::DvfsUtilization,
        ),
        around.files(tier).contains(path),
    ensures
        !around.usable(tier, path),
        around.counters,
{
    law_search_finds_best_source(around);
    law_usable_file_is_found(around, Tier::Devfreq, around.files(Tier::Devfreq));
    law_usable_file_is_found(around, Tier::KnownUtilisation, around.files(Tier::KnownUtilisation));
    law_usable_file_is_found(
        around,
        Tier::PlatformUtilisation,
        around.files(Tier::PlatformUtilisation),
    );
    law_usable_file_is_found(around, Tier::DrmBusy, around.files(Tier::DrmBusy));
    let files = around.files(tier);
    let i = choose|i: int| 0 <= i < files.len() && files[i] == path;
    assert(around.source_in(tier) is None);
    assert(!around.usable(tier, files[i]));
}

/// Capital and small letters make no difference to whether a name belongs to a
/// GPU.
pub proof fn law_gpu_name_ignores_case(name: Seq<char>)
    ensures
        is_gpu_name(text::lowered(name)) == is_gpu_name(name),
{
    assert(text::lowered(text::lowered(name)) =~= text::lowered(name));
}

/// The source that was found when it was first looked for, which may be that
/// there is none.
pub struct FoundSource {
    first: Option<Option<GpuUsageSource>>,
}

impl View for FoundSource {
    type V = Option<Option<UsageSource>>;

    closed spec fn view(&self) -> Option<Option<UsageSource>> {
        match self.first {
            Some(found) => Some(source_view(found)),
            None => None,
        }
    }
}

impl FoundSource {
    /// Nothing was looked for yet.
    pub fn new() -> (res: FoundSource)
        ensures
            res@ is None,
    {
        FoundSource { first: None }
    }

    /// Whether nothing was looked for yet, so that a search is called for.
    pub fn is_open(&self) -> (res: bool)
        ensures
            res == (self@ is None),
    {
        self.first.is_none()
    }
}

/// The source of the GPU load: the one that was found first. `found` is what a
/// search has come to; it counts only if none was made before.
pub fn gpu_usage_source(found: Option<GpuUsageSource>, kept: &mut FoundSource) -> (res: Option<
    GpuUsageSource,
>)
    ensures
        source_view(res) == once::kept_or(old(kept)@, source_view(found)),
        final(kept)@ == Some(source_view(res)),
{
    if kept.first.is_none() {
        kept.first = Some(found);
    }
    match &kept.first {
        Some(Some(source)) => Some(source.clone()),
        _ => None,
    }
}

/// Every call tells the source that the search of the first call found, whatever
/// the later ones are made in.
pub proof fn law_source_is_found_once(arounds: Seq<Surroundings>, k: int)
    requires
        0 <= k < arounds.len(),
    ensures
        once::told_at(None, arounds.map_values(|around: Surroundings| search(around)), k)
            == arounds[0].best_source(),
{
    let found = arounds.map_values(|around: Surroundings| search(around));
    once::law_first_outcome_is_told_again(None, found, k);
    law_search_finds_best_source(arounds[0]);
}

/// A name belongs to a GPU exactly if it holds one of the four words, in small or
/// capital letters, whatever stands before and behind it.
pub proof fn law_which_names_belong_to_a_gpu(name: Seq<char>)
    ensures
        is_gpu_name(name) == exists|a: Seq<char>, b: Seq<char>| #[trigger]
            holds_gpu_word(text::lowered(name), a, b),
{
    let n = text::lowered(name);
    text::law_what_occurs_is_part_of_the_text(n, "gpu"@);
    text::law_what_occurs_is_part_of_the_text(n, "mali"@);
    text::law_what_occurs_is_part_of_the_text(n, "panthor"@);
    text::law_what_occurs_is_part_of_the_text(n, "panfrost"@);
    if text::occurs(n, "gpu"@) {
        let (a, b) = choose|a: Seq<char>, b: Seq<char>| n == #[trigger] (a + "gpu"@ + b);
        assert(holds_gpu_word(n, a, b));
    }
    if text::occurs(n, "mali"@) {
        let (a, b) = choose|a: Seq<char>, b: Seq<char>| n == #[trigger] (a + "mali"@ + b);
        assert(holds_gpu_word(n, a, b));
    }
    if text::occurs(n, "panthor"@) {
        let (a, b) = choose|a: Seq<char>, b: Seq<char>| n == #[trigger] (a + "panthor"@ + b);
        assert(holds_gpu_word(n, a, b));
    }
    if text::occurs(n, "panfrost"@) {
        let (a, b) = choose|a: Seq<char>, b: Seq<char>| n == #[trigger] (a + "panfrost"@ + b);
        assert(holds_gpu_word(n, a, b));
    }
}

/// The name has one of the words of a GPU between `a` and `b`.
pub open spec fn holds_gpu_word(name: Seq<char>, a: Seq<char>, b: Seq<char>) -> bool {
    ||| name == a + "gpu"@ + b
    ||| name == a + "mali"@ + b
    ||| name == a + "panthor"@ + b
    ||| name == a + "panfrost"@ + b
}

/// A card is an entry whose name is `card` with anything behind it but a dash.
pub proof fn law_which_names_belong_to_a_card(name: Seq<char>, rest: Seq<char>)
    ensures
        is_card_name("card"@ + rest) == !rest.contains('-'),
        is_card_name(name) ==> exists|more: Seq<char>| name == #[trigger] ("card"@ + more),
{
    text::law_what_occurs_is_part_of_the_text(name, "card"@);
    lemma_dash_in_a_card(rest);
}

proof fn lemma_dash_in_a_card(rest: Seq<char>)
    ensures
        text::begins_with("card"@ + rest, "card"@),
        ("card"@ + rest).contains('-') == rest.contains('-'),
{
    reveal_strlit("card");
    let name = "card"@ + rest;
    assert(name.subrange(0, 4) =~= "card"@);
    if rest.contains('-') {
        let i = choose|i: int| 0 <= i < rest.len() && rest[i] == '-';
        assert(name[i + 4] == '-');
    }
    if name.contains('-') {
        let i = choose|i: int| 0 <= i < name.len() && name[i] == '-';
        assert(rest[i - 4] == '-');
    }
}

/// Every listed device that belongs to a GPU, or is a card, gives the file to be
/// probed below its directory, in the order of the listing, and no other does.
pub proof fn law_every_device_gives_its_file(name: Seq<char>, rest: Seq<Seq<char>>)
    ensures
        candidates(Class::Platform, Seq::<Seq<char>>::empty()) == Seq::<Seq<char>>::empty(),
        candidates(Class::Drm, Seq::<Seq<char>>::empty()) == Seq::<Seq<char>>::empty(),
        candidates(Class::Platform, seq![name] + rest) == (if is_gpu_name(name) {
            seq!["/sys/devices/platform/"@ + name + "/utilisation"@]
        } else {
            Seq::<Seq<char>>::empty()
        }) + candidates(Class::Platform, rest),
        candidates(Class::Drm, seq![name] + rest) == (if is_card_name(name) {
            seq!["/sys/class/drm/"@ + name + "/device/gpu_busy_percent"@]
        } else {
            Seq::<Seq<char>>::empty()
        }) + candidates(Class::Drm, rest),
{
    let f = |n: Seq<char>| candidate(Class::Platform, n);
    let g = |n: Seq<char>| candidate(Class::Drm, n);
    text::lemma_filter_map_first(f, name, rest);
    text::lemma_filter_map_first(g, name, rest);
    reveal(Seq::filter_map);
    assert(candidates(Class::Platform, Seq::<Seq<char>>::empty()) =~= Seq::<Seq<char>>::empty());
    assert(candidates(Class::Drm, Seq::<Seq<char>>::empty()) =~= Seq::<Seq<char>>::empty());
    reveal_strlit("/");
    reveal_strlit("/sys/devices/platform");
    reveal_strlit("/sys/devices/platform/");
    reveal_strlit("/sys/class/drm");
    reveal_strlit("/sys/class/drm/");
    assert("/sys/devices/platform"@ + "/"@ =~= "/sys/devices/platform/"@);
    assert("/sys/class/drm"@ + "/"@ =~= "/sys/class/drm/"@);
}

/// The files of the four tiers: the `load` files of all devfreq directories, the
/// three known places, and those of the listed platform devices and cards.
pub proof fn law_which_files_are_probed(around: Surroundings, i: int)
    ensures
        around.files(Tier::Devfreq).len() == around.dirs.len(),
        0 <= i < around.dirs.len() ==> around.files(Tier::Devfreq)[i] == around.dirs[i] + "/load"@,
        around.files(Tier::KnownUtilisation) == seq![
            "/sys/devices/platform/fb000000.gpu/utilisation"@,
            "/sys/devices/platform/fb000000.gpu-mali/utilisation"@,
            "/sys/devices/platform/fb000000.gpu-panthor/utilisation"@,
        ],
        around.files(Tier::PlatformUtilisation) == candidates(
            Class::Platform,
            (around.names)(Class::Platform),
        ),
        around.files(Tier::DrmBusy) == candidates(Class::Drm, (around.names)(Class::Drm)),
        load_files(around.dirs) == around.files(Tier::Devfreq),
{
}

/// A file is usable exactly if it can be read and what stands at the place of its
/// tier is a number: the number of a devfreq load, or the whole text without the
/// white space around it.
pub proof fn law_which_files_are_usable(around: Surroundings, path: Seq<char>)
    ensures
        match (around.content)(path) {
            Some(content) => {
                &&& around.usable(Tier::Devfreq, path) == (gpu::devfreq_number(content) matches Some(
                    number,
                ) && (around.is_number)(number))
                &&& around.usable(Tier::KnownUtilisation, path) == (around.is_number)(
                    text::trimmed(content),
                )
                &&& around.usable(Tier::PlatformUtilisation, path) == (around.is_number)(
                    text::trimmed(content),
                )
                &&& around.usable(Tier::DrmBusy, path) == (around.is_number)(text::trimmed(content))
            },
            None => forall|tier: Tier| !#[trigger] around.usable(tier, path),
        },
        forall|content: Seq<char>| #[trigger]
            number_in(Tier::Devfreq, content) == gpu::devfreq_number(content),
        forall|content: Seq<char>, tier: Tier|
            tier != Tier::Devfreq ==> #[trigger] number_in(tier, content) == Some(
                text::trimmed(content),
            ),
{
}

/// The place of a tier in the order in which the tiers are tried.
pub open spec fn rank(tier: Tier) -> int {
    match tier {
        Tier::Devfreq => 0,
        Tier::KnownUtilisation => 1,
        Tier::PlatformUtilisation => 2,
        Tier::DrmBusy => 3,
    }
}

/// No file of the tiers that are tried before this one is usable.
pub open spec fn none_usable_before(around: Surroundings, tier: Tier) -> bool {
    forall|earlier: Tier, j: int|
        rank(earlier) < rank(tier) && 0 <= j < around.files(earlier).len() ==> !around.usable(
            earlier,
            #[trigger] around.files(earlier)[j],
        )
}

/// The search finds the first usable file: the tiers are tried in the order of
/// devfreq loads, known places, platform devices and cards, and in each tier the
/// files in their order, to the last one. What kind of source it is goes by its
/// tier.
pub proof fn law_first_usable_file_is_found(around: Surroundings, tier: Tier, k: int)
    requires
        0 <= k < around.files(tier).len(),
        around.usable(tier, around.files(tier)[k]),
        forall|j: int| 0 <= j < k ==> !around.usable(tier, #[trigger] around.files(tier)[j]),
        none_usable_before(around, tier),
    ensures
        search(around) == Some(
            match tier {
                Tier::Devfreq => UsageSource::DevfreqLoad(around.files(tier)[k]),
                Tier::KnownUtilisation => UsageSource::Utilisation(around.files(tier)[k]),
                Tier::PlatformUtilisation => UsageSource::Utilisation(around.files(tier)[k]),
                Tier::DrmBusy => UsageSource::DrmBusy(around.files(tier)[k]),
            },
        ),
{
    law_search_finds_best_source(around);
    lemma_first_usable_is(around, tier, around.files(tier), k);
    if rank(tier) > 0 {
        lemma_no_source_in(around, tier, Tier::Devfreq);
    }
    if rank(tier) > 1 {
        lemma_no_source_in(around, tier, Tier::KnownUtilisation);
    }
    if rank(tier) > 2 {
        lemma_no_source_in(around, tier, Tier::PlatformUtilisation);
    }
}

proof fn lemma_no_source_in(around: Surroundings, tier: Tier, earlier: Tier)
    requires
        none_usable_before(around, tier),
        rank(earlier) < rank(tier),
    ensures
        around.source_in(earlier) is None,
{
    let files = around.files(earlier);
    law_usable_file_is_found(around, earlier, files);
    if around.source_in(earlier) is Some {
        let i = choose|i: int|
            0 <= i < files.len() && around.usable(earlier, #[trigger] files[i]) && (
            around.source_in(earlier)->0) == tier_source(earlier, files[i]) && forall|j: int|
                0 <= j < i ==> !around.usable(earlier, #[trigger] files[j]);
        assert(!around.usable(earlier, around.files(earlier)[i]));
    }
}

proof fn lemma_first_usable_is(
    around: Surroundings,
    tier: Tier,
    paths: Seq<Seq<char>>,
    k: int,
)
    requires
        0 <= k < paths.len(),
        around.usable(tier, paths[k]),
        forall|j: int| 0 <= j < k ==> !around.usable(tier, #[trigger] paths[j]),
    ensures
        around.first_usable(tier, paths) == Some(tier_source(tier, paths[k])),
    decreases k,
{
    if k > 0 {
        let rest = paths.drop_first();
        assert(!around.usable(tier, paths[0]));
        assert forall|j: int| 0 <= j < k - 1 implies !around.usable(tier, #[trigger] rest[j]) by {
            assert(rest[j] == paths[j + 1]);
        }
        lemma_first_usable_is(around, tier, rest, k - 1);
    }
}

/// If no file of any tier is usable, the counters are taken if they exist, and
/// else nothing is found.
pub proof fn law_without_a_usable_file_the_counters_decide(around: Surroundings)
    requires
        forall|tier: Tier, j: int|
            0 <= j < around.files(tier).len() ==> !around.usable(
                tier,
                #[trigger] around.files(tier)[j],
            ),
    ensures
        search(around) == (if around.counters {
            Some(UsageSource::DvfsUtilization)
        } else {
            None
        }),
{
    law_search_finds_best_source(around);
    assert(none_usable_before(around, Tier::DrmBusy));
    lemma_no_source_in(around, Tier::DrmBusy, Tier::Devfreq);
    lemma_no_source_in(around, Tier::DrmBusy, Tier::KnownUtilisation);
    lemma_no_source_in(around, Tier::DrmBusy, Tier::PlatformUtilisation);
    let files = around.files(Tier::DrmBusy);
    law_usable_file_is_found(around, Tier::DrmBusy, files);
    if around.source_in(Tier::DrmBusy) is Some {
        let i = choose|i: int|
            0 <= i < files.len() && around.usable(Tier::DrmBusy, #[trigger] files[i]) && (
            around.source_in(Tier::DrmBusy)->0) == tier_source(Tier::DrmBusy, files[i]) && forall|
                j: int,
            |
                0 <= j < i ==> !around.usable(Tier::DrmBusy, #[trigger] files[j]);
        assert(!around.usable(Tier::DrmBusy, around.files(Tier::DrmBusy)[i]));
    }
}

/// What is asked for in a stage is what the stage is about: the directory of the
/// class, the first file that is left, or the file of the counters. At the end it
/// is told what was found.
pub proof fn law_what_is_asked_for(
    tier: Tier,
    paths: Seq<Seq<char>>,
    source: Option<UsageSource>,
)
    ensures
        request_of(SearchState::Listing(Class::Platform)) == Request::List(
            "/sys/devices/platform"@,
        ),
        request_of(SearchState::Listing(Class::Drm)) == Request::List("/sys/class/drm"@),
        request_of(SearchState::Probing(tier, paths)) == Request::Probe(tier, paths[0]),
        request_of(SearchState::Checking) == Request::CheckExists(
            "/sys/kernel/debug/mali0/dvfs_utilization"@,
        ),
        request_of(SearchState::Done(source)) == Request::Finish(source),
{
}

/// In every stage a usable file ends the search, one that is not gives way to the
/// next one, and an answer to another question changes nothing.
pub proof fn law_how_a_search_goes_on(
    tier: Tier,
    path: Seq<char>,
    others: Seq<Seq<char>>,
    class: Class,
    names: Seq<Seq<char>>,
    answer: bool,
    source: Option<UsageSource>,
    finding: Finding,
)
    ensures
        next_state(SearchState::Probing(tier, seq![path] + others), Finding::Probed(true))
            == SearchState::Done(Some(tier_source(tier, path))),
        others.len() > 0 ==> next_state(
            SearchState::Probing(tier, seq![path] + others),
            Finding::Probed(false),
        ) == SearchState::Probing(tier, others),
        candidates(class, names).len() > 0 ==> next_state(
            SearchState::Listing(class),
            Finding::Listed(names),
        ) == SearchState::Probing(
            match class {
                Class::Platform => Tier::PlatformUtilisation,
                Class::Drm => Tier::DrmBusy,
            },
            candidates(class, names),
        ),
        next_state(SearchState::Listing(class), Finding::Probed(answer)) == SearchState::Listing(
            class,
        ),
        next_state(SearchState::Listing(class), Finding::Checked(answer)) == SearchState::Listing(
            class,
        ),
        next_state(SearchState::Probing(tier, others), Finding::Listed(names))
            == SearchState::Probing(tier, others),
        next_state(SearchState::Probing(tier, others), Finding::Checked(answer))
            == SearchState::Probing(tier, others),
        next_state(SearchState::Checking, Finding::Listed(names)) == SearchState::Checking,
        next_state(SearchState::Checking, Finding::Probed(answer)) == SearchState::Checking,
        next_state(SearchState::Done(source), finding) == SearchState::Done(source),
{
    let paths = seq![path] + others;
    assert(paths[0] == path);
    assert(paths.drop_first() =~= others);
}

/// What is told of sources, actions and events is what they are made of.
pub proof fn law_sources_hold_what_they_are_made_of(
    path: String,
    names: Vec<String>,
    tier: Tier,
    answer: bool,
    source: Option<GpuUsageSource>,
)
    ensures
        source_view(Some(GpuUsageSource::DevfreqLoad(path))) == Some(
            UsageSource::DevfreqLoad(path@),
        ),
        source_view(Some(GpuUsageSource::Utilisation(path))) == Some(
            UsageSource::Utilisation(path@),
        ),
        source_view(Some(GpuUsageSource::DrmBusy(path))) == Some(UsageSource::DrmBusy(path@)),
        source_view(Some(GpuUsageSource::DvfsUtilization)) == Some(UsageSource::DvfsUtilization),
        source_view(None) == None::<UsageSource>,
        SearchAction::List(path)@ == Request::List(path@),
        SearchAction::Probe(tier, path)@ == Request::Probe(tier, path@),
        SearchAction::CheckExists(path)@ == Request::CheckExists(path@),
        SearchAction::Finish(source)@ == Request::Finish(source_view(source)),
        SearchEvent::Listed(names)@ == Finding::Listed(text::texts(names@)),
        SearchEvent::Probed(answer)@ == Finding::Probed(answer),
        SearchEvent::Checked(answer)@ == Finding::Checked(answer),
{
}

/// Where no file is left, the search goes on to what comes next: from the devfreq
/// loads to the known places, from those to the platform devices, from those to
/// the cards, and from those to the counters, which decide.
pub proof fn law_what_comes_behind_each_tier(
    dirs: Seq<Seq<char>>,
    path: Seq<char>,
    class: Class,
    names: Seq<Seq<char>>,
)
    ensures
        dirs.len() > 0 ==> first_state(dirs) == SearchState::Probing(
            Tier::Devfreq,
            dirs.map_values(|dir: Seq<char>| dir + "/load"@),
        ),
        dirs.len() == 0 ==> first_state(dirs) == SearchState::Probing(
            Tier::KnownUtilisation,
            known_utilisation_paths(),
        ),
        next_state(SearchState::Probing(Tier::Devfreq, seq![path]), Finding::Probed(false))
            == SearchState::Probing(Tier::KnownUtilisation, known_utilisation_paths()),
        next_state(SearchState::Probing(Tier::KnownUtilisation, seq![path]), Finding::Probed(false))
            == SearchState::Listing(Class::Platform),
        next_state(
            SearchState::Probing(Tier::PlatformUtilisation, seq![path]),
            Finding::Probed(false),
        ) == SearchState::Listing(Class::Drm),
        next_state(SearchState::Probing(Tier::DrmBusy, seq![path]), Finding::Probed(false))
            == SearchState::Checking,
        candidates(class, names).len() == 0 ==> next_state(
            SearchState::Listing(class),
            Finding::Listed(names),
        ) == (match class {
            Class::Platform => SearchState::Listing(Class::Drm),
            Class::Drm => SearchState::Checking,
        }),
        next_state(SearchState::Checking, Finding::Checked(true)) == SearchState::Done(
            Some(UsageSource::DvfsUtilization),
        ),
        next_state(SearchState::Checking, Finding::Checked(false)) == SearchState::Done(None),
        tier_source(Tier::Devfreq, path) == UsageSource::DevfreqLoad(path),
        tier_source(Tier::KnownUtilisation, path) == UsageSource::Utilisation(path),
        tier_source(Tier::PlatformUtilisation, path) == UsageSource::Utilisation(path),
        tier_source(Tier::DrmBusy, path) == UsageSource::DrmBusy(path),
{
    assert(seq![path].drop_first() =~= Seq::<Seq<char>>::empty());
}

} // verus!
