//! The temperature sensors.

use vstd::prelude::*;

use crate::gpu_source;
use crate::text;

verus! {

/// The whole degrees in a number of thousandths of a degree, the part of a
/// degree cut off.
pub open spec fn millis_to_degrees(millis: int) -> int {
    if millis >= 0 {
        millis / 1000
    } else {
        -((-millis) / 1000)
    }
}

/// The name of a thermal zone.
pub open spec fn is_zone_name(name: Seq<char>) -> bool {
    text::begins_with(name, "thermal_zone"@)
}

/// A file of a thermal zone.
pub open spec fn zone_file(name: Seq<char>, file: Seq<char>) -> Seq<char> {
    gpu_source::entry_path("/sys/class/thermal"@, name) + "/"@ + file
}

/// The label of a thermal zone, from what the zone tells as its type.
pub open spec fn zone_label(zone_type: Seq<char>) -> Seq<char> {
    text::removed(text::trimmed(zone_type), "_thermal"@)
}

/// The label, the temperature file and the type file of an entry with this name
/// and this type; none if it is no thermal zone or its type is unknown.
pub open spec fn zone_of(entry: (Seq<char>, Option<Seq<char>>)) -> Option<
    (Seq<char>, Seq<char>, Seq<char>),
> {
    match entry.1 {
        Some(zone_type) if is_zone_name(entry.0) => Some(
            (zone_label(zone_type), zone_file(entry.0, "temp"@), zone_file(entry.0, "type"@)),
        ),
        _ => None,
    }
}

/// What a list of entries holds.
pub open spec fn entries_of(v: Seq<(String, Option<String>)>) -> Seq<
    (Seq<char>, Option<Seq<char>>),
> {
    v.map_values(|entry: (String, Option<String>)| (entry.0@, text::text_of(entry.1)))
}

/// What a list of thermal zones holds.
pub open spec fn zones_of(v: Seq<(String, String, String)>) -> Seq<
    (Seq<char>, Seq<char>, Seq<char>),
> {
    v.map_values(|zone: (String, String, String)| (zone.0@, zone.1@, zone.2@))
}

/// What a list of labelled temperatures holds.
pub open spec fn temperatures_of(v: Seq<(String, i32)>) -> Seq<(Seq<char>, int)> {
    v.map_values(|entry: (String, i32)| (entry.0@, entry.1 as int))
}

/// The reading of a zone, if there is one.
pub open spec fn reading_at(readings: Seq<Option<i32>>, i: int) -> Option<i32> {
    if i < readings.len() {
        readings[i]
    } else {
        None
    }
}

/// The temperatures of the first `n` zones, those without a reading left out.
pub open spec fn temperatures(
    zones: Seq<(Seq<char>, Seq<char>, Seq<char>)>,
    readings: Seq<Option<i32>>,
    n: nat,
) -> Seq<(Seq<char>, int)>
    decreases n,
{
    if n == 0 {
        seq![]
    } else {
        let before = temperatures(zones, readings, (n - 1) as nat);
        match reading_at(readings, n - 1) {
            Some(millis) => before.push((zones[n - 1].0, millis_to_degrees(millis as int))),
            None => before,
        }
    }
}

/// A sensor of a GPU, by the name that it tells.
pub open spec fn is_gpu_sensor_name(name: Seq<char>) -> bool {
    text::occurs(text::trimmed(name), "gpu"@) || text::occurs(text::trimmed(name), "mali"@)
}

/// The temperature that a sensor tells, if it belongs to a GPU.
pub open spec fn gpu_temperature_of(sensor: (Option<Seq<char>>, Option<i32>)) -> Option<int> {
    match sensor {
        (Some(name), Some(millis)) if is_gpu_sensor_name(name) => Some(
            millis_to_degrees(millis as int),
        ),
        _ => None,
    }
}

/// What a list of sensors holds.
pub open spec fn sensors_of(v: Seq<(Option<String>, Option<i32>)>) -> Seq<
    (Option<Seq<char>>, Option<i32>),
> {
    v.map_values(|sensor: (Option<String>, Option<i32>)| (text::text_of(sensor.0), sensor.1))
}

/// The temperature that the first GPU sensor with a reading tells.
pub open spec fn first_gpu_temperature(sensors: Seq<(Option<Seq<char>>, Option<i32>)>) -> Option<
    int,
>
    decreases sensors.len(),
{
    if sensors.len() == 0 {
        None
    } else if gpu_temperature_of(sensors[0]) is Some {
        gpu_temperature_of(sensors[0])
    } else {
        first_gpu_temperature(sensors.drop_first())
    }
}

/// The whole degrees in a number of thousandths of a degree.
fn to_degrees(millis: i32) -> (res: i32)
    ensures
        res == millis_to_degrees(millis as int),
{
    millis / 1000
}

/// The file in which a thermal zone tells its type; none if the name is not
/// that of a thermal zone.
pub fn thermal_type_path(name: &str) -> (res: Option<String>)
    ensures
        match res {
            Some(path) => is_zone_name(name@) && path@ == zone_file(name@, "type"@),
            None => !is_zone_name(name@),
        },
{
    if text::starts_with(name, "thermal_zone") {
        Some(zone_path(name, "type"))
    } else {
        None
    }
}

/// A file of a thermal zone.
fn zone_path(name: &str, file: &str) -> (res: String)
    ensures
        res@ == zone_file(name@, file@),
{
    let dir = text::concat3("/sys/class/thermal", "/", name);
    text::concat3(dir.as_str(), "/", file)
}

/// The label, the temperature file and the type file of each thermal zone, from
/// the names in the directory of the zones and what each tells as its type.
pub fn get_thermal_zone_paths(entries: &Vec<(String, Option<String>)>) -> (res: Vec<
    (String, String, String),
>)
    ensures
        zones_of(res@) == entries_of(entries@).filter_map(
            |entry: (Seq<char>, Option<Seq<char>>)| zone_of(entry),
        ),
{
    let ghost all = entries_of(entries@);
    let ghost f = |entry: (Seq<char>, Option<Seq<char>>)| zone_of(entry);
    let mut res: Vec<(String, String, String)> = Vec::new();
    let mut i: usize = 0;
    assert(zones_of(res@) =~= all.take(0).filter_map(f));
    while i < entries.len()
        invariant
            i <= entries@.len(),
            all == entries_of(entries@),
            f == (|entry: (Seq<char>, Option<Seq<char>>)| zone_of(entry)),
            zones_of(res@) == all.take(i as int).filter_map(f),
        decreases entries@.len() - i,
    {
        proof {
            all.lemma_filter_map_take_succ(f, i as int);
        }
        let entry = &entries[i];
        assert(all[i as int] == (entry.0@, text::text_of(entry.1)));
        let name = entry.0.as_str();
        if let Some(zone_type) = &entry.1 {
            if text::starts_with(name, "thermal_zone") {
                let trimmed = text::trim(zone_type.as_str());
                let label = text::remove(trimmed.as_str(), "_thermal");
                let zone = (label, zone_path(name, "temp"), zone_path(name, "type"));
                let ghost before = res@;
                let ghost held = (zone.0@, zone.1@, zone.2@);
                res.push(zone);
                assert(zones_of(res@) =~= zones_of(before).push(held));
            }
        }
        i += 1;
    }
    assert(all.take(i as int) =~= all);
    res
}

/// The temperature of each thermal zone in degrees, from its reading in
/// thousandths of a degree. A zone without a reading is left out.
pub fn get_thermal_cached(
    cached_paths: &[(String, String, String)],
    readings: &Vec<Option<i32>>,
) -> (res: Vec<(String, i32)>)
    ensures
        temperatures_of(res@) == temperatures(
            zones_of(cached_paths@),
            readings@,
            cached_paths@.len(),
        ),
{
    let ghost zones = zones_of(cached_paths@);
    let mut res: Vec<(String, i32)> = Vec::new();
    let mut i: usize = 0;
    assert(temperatures_of(res@) =~= temperatures(zones, readings@, 0));
    while i < cached_paths.len()
        invariant
            i <= cached_paths@.len(),
            zones == zones_of(cached_paths@),
            temperatures_of(res@) == temperatures(zones, readings@, i as nat),
        decreases cached_paths@.len() - i,
    {
        let reading: Option<i32> = if i < readings.len() {
            readings[i]
        } else {
            None
        };
        if let Some(millis) = reading {
            let label = cached_paths[i].0.clone();
            let degrees = to_degrees(millis);
            let ghost before = res@;
            res.push((label, degrees));
            assert(temperatures_of(res@) =~= temperatures_of(before).push((label@, degrees as int)));
        }
        i += 1;
    }
    res
}

/// Where the temperature of a GPU may be read: of each sensor the file with its
/// name and the file with its temperature.
pub open spec fn gpu_sensor_paths() -> Seq<(Seq<char>, Seq<char>)> {
    seq![
        ("/sys/class/hwmon/hwmon0/name"@, "/sys/class/hwmon/hwmon0/temp1_input"@),
        ("/sys/class/hwmon/hwmon1/name"@, "/sys/class/hwmon/hwmon1/temp1_input"@),
        ("/sys/class/hwmon/hwmon2/name"@, "/sys/class/hwmon/hwmon2/temp1_input"@),
        ("/sys/class/hwmon/hwmon3/name"@, "/sys/class/hwmon/hwmon3/temp1_input"@),
    ]
}

/// Where the temperature of a GPU may be read.
pub fn gpu_sensor_files() -> (res: Vec<(String, String)>)
    ensures
        res@.map_values(|pair: (String, String)| (pair.0@, pair.1@)) == gpu_sensor_paths(),
{
    let mut res: Vec<(String, String)> = Vec::new();
    res.push(
        (
            "/sys/class/hwmon/hwmon0/name".to_string(),
            "/sys/class/hwmon/hwmon0/temp1_input".to_string(),
        ),
    );
    res.push(
        (
            "/sys/class/hwmon/hwmon1/name".to_string(),
            "/sys/class/hwmon/hwmon1/temp1_input".to_string(),
        ),
    );
    res.push(
        (
            "/sys/class/hwmon/hwmon2/name".to_string(),
            "/sys/class/hwmon/hwmon2/temp1_input".to_string(),
        ),
    );
    res.push(
        (
            "/sys/class/hwmon/hwmon3/name".to_string(),
            "/sys/class/hwmon/hwmon3/temp1_input".to_string(),
        ),
    );
    assert(res@.map_values(|pair: (String, String)| (pair.0@, pair.1@)) =~= gpu_sensor_paths());
    res
}

/// Whether a sensor that tells this name belongs to a GPU.
pub fn is_gpu_sensor(name: &str) -> (res: bool)
    ensures
        res == is_gpu_sensor_name(name@),
{
    let trimmed = text::trim(name);
    text::contains(trimmed.as_str(), "gpu") || text::contains(trimmed.as_str(), "mali")
}

/// The temperature of the GPU in degrees, from the names that the sensors tell
/// and their readings in thousandths of a degree.
pub fn get_gpu_temperature(sensors: &Vec<(Option<String>, Option<i32>)>) -> (res: Option<i32>)
    ensures
        match res {
            Some(degrees) => first_gpu_temperature(sensors_of(sensors@)) == Some(degrees as int),
            None => first_gpu_temperature(sensors_of(sensors@)) is None,
        },
{
    let ghost all = sensors_of(sensors@);
    let mut i: usize = 0;
    assert(all.skip(0) =~= all);
    while i < sensors.len()
        invariant
            i <= sensors@.len(),
            all == sensors_of(sensors@),
            first_gpu_temperature(all) == first_gpu_temperature(all.skip(i as int)),
        decreases sensors@.len() - i,
    {
        let sensor = &sensors[i];
        let ghost rest = all.skip(i as int);
        assert(rest[0] == (text::text_of(sensor.0), sensor.1));
        if let Some(name) = &sensor.0 {
            if is_gpu_sensor(name.as_str()) {
                if let Some(millis) = sensor.1 {
                    return Some(to_degrees(millis));
                }
            }
        }
        assert(rest.drop_first() =~= all.skip(i as int + 1));
        i += 1;
    }
    None
}

/// The degrees differ from the thousandths by less than one degree, and lie on
/// the side of zero.
pub proof fn law_degrees_are_cut_off(millis: int)
    ensures
        millis >= 0 ==> 0 <= millis - 1000 * millis_to_degrees(millis) < 1000,
        millis <= 0 ==> -1000 < millis - 1000 * millis_to_degrees(millis) <= 0,
{
}

/// Every zone with a reading is reported, under its label, and nothing else is.
pub proof fn law_zones_with_a_reading_are_reported(
    zones: Seq<(Seq<char>, Seq<char>, Seq<char>)>,
    readings: Seq<Option<i32>>,
    n: nat,
)
    ensures
        forall|label: Seq<char>, degrees: int| #[trigger]
            temperatures(zones, readings, n).contains((label, degrees)) == exists|i: int|
                0 <= i < n && (#[trigger] zones[i]).0 == label && (reading_at(
                    readings,
                    i,
                ) matches Some(millis) && millis_to_degrees(millis as int) == degrees),
    decreases n,
{
    if n > 0 {
        let m = (n - 1) as nat;
        law_zones_with_a_reading_are_reported(zones, readings, m);
        let before = temperatures(zones, readings, m);
        let all = temperatures(zones, readings, n);
        assert forall|label: Seq<char>, degrees: int| #[trigger]
            all.contains((label, degrees)) == exists|i: int|
                0 <= i < n && (#[trigger] zones[i]).0 == label && (reading_at(
                    readings,
                    i,
                ) matches Some(millis) && millis_to_degrees(millis as int) == degrees) by {
            let entry = (label, degrees);
            if all.contains(entry) {
                let k = choose|k: int| 0 <= k < all.len() && all[k] == entry;
                if k < before.len() {
                    assert(before[k] == entry);
                    assert(before.contains(entry));
                } else {
                    assert(zones[m as int].0 == label);
                }
            }
            if exists|i: int|
                0 <= i < n && (#[trigger] zones[i]).0 == label && (reading_at(
                    readings,
                    i,
                ) matches Some(millis) && millis_to_degrees(millis as int) == degrees) {
                let i = choose|i: int|
                    0 <= i < n && (#[trigger] zones[i]).0 == label && (reading_at(
                        readings,
                        i,
                    ) matches Some(millis) && millis_to_degrees(millis as int) == degrees);
                if i < m {
                    assert(before.contains(entry));
                    let k = choose|k: int| 0 <= k < before.len() && before[k] == entry;
                    assert(all[k] == entry);
                } else {
                    assert(all.last() == entry);
                }
            }
        }
    }
}

/// A thermal zone is an entry whose name is `thermal_zone` with anything behind
/// it. Where it tells its type, it is known by what is left of the type without
/// white space around it and without `_thermal` in it, and its two files stand in
/// its directory. Any other entry is none.
pub proof fn law_zones_are_known_by_their_type(
    number: Seq<char>,
    a: Seq<char>,
    s: Seq<char>,
    b: Seq<char>,
    other: Seq<char>,
)
    requires
        forall|i: int| 0 <= i < a.len() ==> text::is_whitespace(#[trigger] a[i]),
        forall|i: int| 0 <= i < b.len() ==> text::is_whitespace(#[trigger] b[i]),
        s.len() > 0 ==> !text::is_whitespace(s[0]) && !text::is_whitespace(s[s.len() - 1]),
        !exists|rest: Seq<char>| other == #[trigger] ("thermal_zone"@ + rest),
    ensures
        zone_of(("thermal_zone"@ + number, Some(a + s + b))) == Some(
            (
                text::removed(s, "_thermal"@),
                "/sys/class/thermal/thermal_zone"@ + number + "/temp"@,
                "/sys/class/thermal/thermal_zone"@ + number + "/type"@,
            ),
        ),
        zone_of(("thermal_zone"@ + number, None)) is None,
        zone_of((other, Some(a + s + b))) is None,
        zone_of((other, None)) is None,
        is_zone_name("thermal_zone"@ + number),
        !is_zone_name(other),
        zone_file("thermal_zone"@ + number, "type"@) == "/sys/class/thermal/thermal_zone"@ + number
            + "/type"@,
{
    let name = "thermal_zone"@ + number;
    text::law_what_stands_between_space_is_left(a, s, b);
    text::law_what_occurs_is_part_of_the_text(name, "thermal_zone"@);
    text::law_what_occurs_is_part_of_the_text(other, "thermal_zone"@);
    lemma_zone_files(number);
}

proof fn lemma_zone_files(number: Seq<char>)
    ensures
        zone_file("thermal_zone"@ + number, "temp"@) == "/sys/class/thermal/thermal_zone"@ + number
            + "/temp"@,
        zone_file("thermal_zone"@ + number, "type"@) == "/sys/class/thermal/thermal_zone"@ + number
            + "/type"@,
{
    reveal_strlit("/sys/class/thermal");
    reveal_strlit("/");
    reveal_strlit("thermal_zone");
    reveal_strlit("/sys/class/thermal/thermal_zone");
    reveal_strlit("temp");
    reveal_strlit("type");
    reveal_strlit("/temp");
    reveal_strlit("/type");
    assert("/sys/class/thermal"@ + "/"@ + "thermal_zone"@ =~= "/sys/class/thermal/thermal_zone"@);
    assert("/"@ + "temp"@ =~= "/temp"@);
    assert("/"@ + "type"@ =~= "/type"@);
    let head = "/sys/class/thermal"@ + "/"@;
    assert(head + ("thermal_zone"@ + number) =~= head + "thermal_zone"@ + number);
    let dir = head + "thermal_zone"@ + number;
    assert(dir + "/"@ + "temp"@ =~= dir + ("/"@ + "temp"@));
    assert(dir + "/"@ + "type"@ =~= dir + ("/"@ + "type"@));
}

/// Each zone with a reading comes behind those before it, with its whole degrees,
/// and one without a reading does not come, whatever the others tell.
pub proof fn law_zones_are_reported_in_order(
    zones: Seq<(Seq<char>, Seq<char>, Seq<char>)>,
    readings: Seq<Option<i32>>,
    n: nat,
)
    ensures
        temperatures(zones, readings, 0) == Seq::<(Seq<char>, int)>::empty(),
        n < readings.len() && readings[n as int] is Some ==> temperatures(zones, readings, n + 1)
            == temperatures(zones, readings, n).push(
            (zones[n as int].0, millis_to_degrees((readings[n as int]->0) as int)),
        ),
        !(n < readings.len() && readings[n as int] is Some) ==> temperatures(
            zones,
            readings,
            n + 1,
        ) == temperatures(zones, readings, n),
{
}

/// A sensor belongs to a GPU exactly if `gpu` or `mali` stands in its name,
/// whatever stands before and behind it and around the name.
pub proof fn law_which_sensors_belong_to_a_gpu(
    before: Seq<char>,
    a: Seq<char>,
    b: Seq<char>,
    behind: Seq<char>,
    name: Seq<char>,
)
    requires
        forall|i: int| 0 <= i < before.len() ==> text::is_whitespace(#[trigger] before[i]),
        forall|i: int| 0 <= i < behind.len() ==> text::is_whitespace(#[trigger] behind[i]),
    ensures
        is_gpu_sensor_name(before + (a + "gpu"@ + b) + behind),
        is_gpu_sensor_name(before + (a + "mali"@ + b) + behind),
        is_gpu_sensor_name(name) ==> exists|x: Seq<char>, y: Seq<char>| #[trigger]
            is_name_of_gpu(name, x, y),
{
    reveal_strlit("gpu");
    reveal_strlit("mali");
    lemma_still_occurs(before, a, "gpu"@, b, behind);
    lemma_still_occurs(before, a, "mali"@, b, behind);
    if is_gpu_sensor_name(name) {
        text::lemma_trimmed_is_part(name);
        let (p, q) = choose|p: Seq<char>, q: Seq<char>| name == #[trigger] (p + text::trimmed(name)
            + q);
        text::law_what_occurs_is_part_of_the_text(text::trimmed(name), "gpu"@);
        text::law_what_occurs_is_part_of_the_text(text::trimmed(name), "mali"@);
        if text::occurs(text::trimmed(name), "gpu"@) {
            let (x, y) = choose|x: Seq<char>, y: Seq<char>| text::trimmed(name) == #[trigger] (x
                + "gpu"@ + y);
            assert(name =~= (p + x) + "gpu"@ + (y + q));
            assert(is_name_of_gpu(name, p + x, y + q));
        } else {
            let (x, y) = choose|x: Seq<char>, y: Seq<char>| text::trimmed(name) == #[trigger] (x
                + "mali"@ + y);
            assert(name =~= (p + x) + "mali"@ + (y + q));
            assert(is_name_of_gpu(name, p + x, y + q));
        }
    }
}

/// The name has `gpu` or `mali` between `x` and `y`.
pub open spec fn is_name_of_gpu(name: Seq<char>, x: Seq<char>, y: Seq<char>) -> bool {
    name == x + "gpu"@ + y || name == x + "mali"@ + y
}

proof fn lemma_still_occurs(
    before: Seq<char>,
    a: Seq<char>,
    pat: Seq<char>,
    b: Seq<char>,
    behind: Seq<char>,
)
    requires
        text::is_blank(before),
        text::is_blank(behind),
        pat.len() > 0,
        forall|i: int| 0 <= i < pat.len() ==> !text::is_whitespace(#[trigger] pat[i]),
    ensures
        text::occurs(text::trimmed(before + (a + pat + b) + behind), pat),
{
    let s = a + pat + b;
    text::law_padding_is_irrelevant(before, s, behind);
    text::lemma_inner_part_stays(a, pat, b);
}

/// The temperature is that of the first sensor of a GPU that has a reading,
/// whatever the sensors behind it tell; there is none only if no such sensor has
/// one.
pub proof fn law_first_gpu_reading_counts(
    sensors: Seq<(Option<Seq<char>>, Option<i32>)>,
    k: int,
)
    requires
        0 <= k <= sensors.len(),
        forall|i: int|
            0 <= i < k ==> !((#[trigger] sensors[i]).0 matches Some(name) && is_gpu_sensor_name(name)
                && sensors[i].1 is Some),
    ensures
        k == sensors.len() ==> first_gpu_temperature(sensors) is None,
        k < sensors.len() ==> (sensors[k].0 matches Some(name) ==> sensors[k].1 matches Some(millis)
            ==> is_gpu_sensor_name(name) ==> first_gpu_temperature(sensors) == Some(
            millis_to_degrees(millis as int),
        )),
    decreases k,
{
    if k > 0 {
        let rest = sensors.drop_first();
        assert(gpu_temperature_of(sensors[0]) is None);
        assert forall|i: int| 0 <= i < k - 1 implies !((#[trigger] rest[i]).0 matches Some(name)
            && is_gpu_sensor_name(name) && rest[i].1 is Some) by {
            assert(rest[i] == sensors[i + 1]);
        }
        law_first_gpu_reading_counts(rest, k - 1);
    }
}

/// What is told of lists of entries, zones, sensors and temperatures is what
/// their strings and numbers are.
pub proof fn law_lists_hold_what_they_are_made_of(
    entries: Seq<(String, Option<String>)>,
    zones: Seq<(String, String, String)>,
    temperatures: Seq<(String, i32)>,
    sensors: Seq<(Option<String>, Option<i32>)>,
    i: int,
)
    ensures
        entries_of(entries).len() == entries.len(),
        0 <= i < entries.len() ==> entries_of(entries)[i] == (
            entries[i].0@,
            text::text_of(entries[i].1),
        ),
        zones_of(zones).len() == zones.len(),
        0 <= i < zones.len() ==> zones_of(zones)[i] == (zones[i].0@, zones[i].1@, zones[i].2@),
        temperatures_of(temperatures).len() == temperatures.len(),
        0 <= i < temperatures.len() ==> temperatures_of(temperatures)[i] == (
            temperatures[i].0@,
            temperatures[i].1 as int,
        ),
        sensors_of(sensors).len() == sensors.len(),
        0 <= i < sensors.len() ==> sensors_of(sensors)[i] == (
            text::text_of(sensors[i].0),
            sensors[i].1,
        ),
{
}

} // verus!
