//! The clock frequencies of the processor cores.

use vstd::prelude::*;

use crate::number;
use crate::text;

verus! {

/// The directory that tells of the frequency of a core.
pub open spec fn core_dir(core: nat) -> Seq<char> {
    "/sys/devices/system/cpu/cpu"@ + number::decimal(core) + "/cpufreq/"@
}

/// The values up to the first one that is missing.
pub open spec fn leading<A>(values: Seq<Option<A>>) -> Seq<A>
    decreases values.len(),
{
    if values.len() == 0 {
        seq![]
    } else {
        match values[0] {
            Some(value) => seq![value] + leading(values.drop_first()),
            None => seq![],
        }
    }
}

/// No value is missing.
pub open spec fn all_present<A>(values: Seq<Option<A>>) -> bool {
    forall|i: int| 0 <= i < values.len() ==> (#[trigger] values[i]) is Some
}

/// The values without those that occur before.
pub open spec fn distinct<A>(values: Seq<A>) -> Seq<A>
    decreases values.len(),
{
    if values.len() == 0 {
        seq![]
    } else if distinct(values.drop_last()).contains(values.last()) {
        distinct(values.drop_last())
    } else {
        distinct(values.drop_last()).push(values.last())
    }
}

/// The whole megahertz in a number of kilohertz.
pub open spec fn kilohertz_to_megahertz(khz: u32) -> u32 {
    khz / 1000
}

/// The limits of a core in kilohertz, from the texts of its two files.
pub open spec fn limits_of(files: (Option<String>, Option<String>)) -> Option<(u32, u32)> {
    match files {
        (Some(low), Some(high)) => {
            let max = u32::MAX as nat;
            match (
                number::spelled_up_to(text::trimmed(low@), max),
                number::spelled_up_to(text::trimmed(high@), max),
            ) {
                (Some(min), Some(max)) => Some((min as u32, max as u32)),
                _ => None,
            }
        },
        _ => None,
    }
}

/// The limits of each core, from the texts of its two files.
pub open spec fn limits(files: Seq<(Option<String>, Option<String>)>) -> Seq<Option<(u32, u32)>> {
    files.map_values(|core: (Option<String>, Option<String>)| limits_of(core))
}

/// A pair of limits in megahertz.
pub open spec fn range_of(khz: (u32, u32)) -> (u32, u32) {
    (kilohertz_to_megahertz(khz.0), kilohertz_to_megahertz(khz.1))
}

/// A file that tells of the frequency of a core.
fn core_file(core: u64, file: &str) -> (res: String)
    ensures
        res@ == core_dir(core as nat) + file@,
{
    let mut digits = String::new();
    number::push_decimal(&mut digits, core);
    let dir = text::concat3("/sys/devices/system/cpu/cpu", digits.as_str(), "/cpufreq/");
    assert(digits@ =~= number::decimal(core as nat));
    text::concat(dir.as_str(), file)
}

/// The file to be read next, given what was read of the cores before; none
/// once a reading is missing.
pub fn next_frequency_path(readings: &Vec<Option<u32>>) -> (res: Option<String>)
    ensures
        match res {
            Some(path) => all_present(readings@) && path@ == core_dir(readings@.len())
                + "scaling_cur_freq"@,
            None => !all_present(readings@),
        },
{
    let mut i: usize = 0;
    while i < readings.len()
        invariant
            i <= readings@.len(),
            forall|j: int| 0 <= j < i ==> (#[trigger] readings@[j]) is Some,
        decreases readings@.len() - i,
    {
        if readings[i].is_none() {
            return None;
        }
        i += 1;
    }
    Some(core_file(readings.len() as u64, "scaling_cur_freq"))
}

/// The frequency of each core in megahertz, from the readings of the cores in
/// kilohertz. A missing reading ends the list.
pub fn get_cpu_frequencies(readings: &Vec<Option<u32>>) -> (res: Vec<u32>)
    ensures
        res@ == leading(readings@).map_values(|khz: u32| kilohertz_to_megahertz(khz)),
{
    let ghost f = |khz: u32| kilohertz_to_megahertz(khz);
    let mut res: Vec<u32> = Vec::new();
    let mut i: usize = 0;
    assert(readings@.skip(0) =~= readings@);
    assert(res@ + leading(readings@).map_values(f) =~= leading(readings@).map_values(f));
    while i < readings.len()
        invariant
            i <= readings@.len(),
            f == (|khz: u32| kilohertz_to_megahertz(khz)),
            leading(readings@).map_values(f) == res@ + leading(
                readings@.skip(i as int),
            ).map_values(f),
        decreases readings@.len() - i,
    {
        let ghost rest = readings@.skip(i as int);
        let ghost before = res@;
        match readings[i] {
            Some(khz) => {
                res.push(khz / 1000);
                assert(rest.drop_first() =~= readings@.skip(i as int + 1));
                assert(res@ + leading(rest.drop_first()).map_values(f) =~= before + leading(
                    rest,
                ).map_values(f));
            },
            None => {
                assert(res@ + leading(rest).map_values(f) =~= res@);
                return res;
            },
        }
        i += 1;
    }
    assert(res@ + leading(readings@.skip(i as int)).map_values(f) =~= res@);
    res
}

/// Reads the limits of a core in kilohertz.
fn parse_limits(files: &(Option<String>, Option<String>)) -> (res: Option<(u32, u32)>)
    ensures
        res == limits_of(*files),
{
    match (&files.0, &files.1) {
        (Some(low), Some(high)) => {
            match (
                number::parse_u32(text::trim(low.as_str()).as_str()),
                number::parse_u32(text::trim(high.as_str()).as_str()),
            ) {
                (Some(min), Some(max)) => Some((min, max)),
                _ => None,
            }
        },
        _ => None,
    }
}

/// The two files to be read next, given what was read of the cores before;
/// none once the limits of a core are missing.
pub fn next_range_paths(files: &Vec<(Option<String>, Option<String>)>) -> (res: Option<
    (String, String),
>)
    ensures
        match res {
            Some((low, high)) => {
                &&& all_present(limits(files@))
                &&& low@ == core_dir(files@.len()) + "scaling_min_freq"@
                &&& high@ == core_dir(files@.len()) + "scaling_max_freq"@
            },
            None => !all_present(limits(files@)),
        },
{
    let mut i: usize = 0;
    while i < files.len()
        invariant
            i <= files@.len(),
            forall|j: int| 0 <= j < i ==> (#[trigger] limits(files@)[j]) is Some,
        decreases files@.len() - i,
    {
        assert(limits(files@)[i as int] == limits_of(files@[i as int]));
        if parse_limits(&files[i]).is_none() {
            return None;
        }
        i += 1;
    }
    let core: u64 = files.len() as u64;
    Some((core_file(core, "scaling_min_freq"), core_file(core, "scaling_max_freq")))
}

/// Whether the range is in the list.
fn has_range(ranges: &Vec<(u32, u32)>, range: (u32, u32)) -> (res: bool)
    ensures
        res == ranges@.contains(range),
{
    let mut i: usize = 0;
    while i < ranges.len()
        invariant
            i <= ranges@.len(),
            forall|j: int| 0 <= j < i ==> ranges@[j] != range,
        decreases ranges@.len() - i,
    {
        if ranges[i].0 == range.0 && ranges[i].1 == range.1 {
            assert(ranges@[i as int] == range);
            return true;
        }
        i += 1;
    }
    false
}

/// The frequency ranges of the clusters in megahertz, each one once, in the
/// order of the first core that has it. Missing limits end the list.
pub fn get_cpu_freq_ranges(files: &Vec<(Option<String>, Option<String>)>) -> (res: Vec<(u32, u32)>)
    ensures
        res@ == distinct(
            leading(limits(files@)).map_values(|khz: (u32, u32)| range_of(khz)),
        ),
{
    let ghost f = |khz: (u32, u32)| range_of(khz);
    let ghost all = limits(files@);
    let mut res: Vec<(u32, u32)> = Vec::new();
    let ghost mut seen: Seq<(u32, u32)> = seq![];
    let mut i: usize = 0;
    assert(all.skip(0) =~= all);
    assert(seen + leading(all).map_values(f) =~= leading(all).map_values(f));
    while i < files.len()
        invariant
            i <= files@.len(),
            all == limits(files@),
            f == (|khz: (u32, u32)| range_of(khz)),
            leading(all).map_values(f) == seen + leading(all.skip(i as int)).map_values(f),
            res@ == distinct(seen),
        decreases files@.len() - i,
    {
        let ghost rest = all.skip(i as int);
        assert(rest[0] == limits_of(files@[i as int]));
        match parse_limits(&files[i]) {
            Some((min, max)) => {
                let range = (min / 1000, max / 1000);
                proof {
                    assert(rest.drop_first() =~= all.skip(i as int + 1));
                    assert(seen.push(range) + leading(rest.drop_first()).map_values(f) =~= seen
                        + leading(rest).map_values(f));
                    assert(seen.push(range).drop_last() =~= seen);
                    seen = seen.push(range);
                }
                if !has_range(&res, range) {
                    res.push(range);
                }
            },
            None => {
                assert(seen + leading(rest).map_values(f) =~= seen);
                return res;
            },
        }
        i += 1;
    }
    assert(seen + leading(all.skip(i as int)).map_values(f) =~= seen);
    res
}

/// Different cores have different files.
pub proof fn law_cores_have_different_files(a: nat, b: nat)
    requires
        core_dir(a) == core_dir(b),
    ensures
        a == b,
{
    let head = "/sys/devices/system/cpu/cpu"@;
    let tail = "/cpufreq/"@;
    let (x, y) = (number::decimal(a), number::decimal(b));
    assert(core_dir(a).len() == head.len() + x.len() + tail.len());
    assert(x =~= core_dir(a).subrange(head.len() as int, (head.len() + x.len()) as int));
    assert(y =~= core_dir(b).subrange(head.len() as int, (head.len() + y.len()) as int));
    number::law_decimal_is_injective(a, b);
}

/// The leading values are those before the first missing one, all of them and
/// in their order.
pub proof fn law_leading_stops_at_the_first_gap<A>(values: Seq<Option<A>>)
    ensures
        leading(values).len() <= values.len(),
        forall|i: int|
            0 <= i < leading(values).len() ==> values[i] == Some(#[trigger] leading(values)[i]),
        leading(values).len() < values.len() ==> values[leading(values).len() as int] is None,
    decreases values.len(),
{
    if values.len() > 0 && values[0] is Some {
        let rest = values.drop_first();
        law_leading_stops_at_the_first_gap(rest);
        assert forall|i: int| 0 <= i < leading(values).len() implies values[i] == Some(
            #[trigger] leading(values)[i],
        ) by {
            if i > 0 {
                assert(leading(values)[i] == leading(rest)[i - 1]);
                assert(values[i] == rest[i - 1]);
            }
        }
    }
}

/// Of the values each one is kept once, and none is lost.
pub proof fn law_distinct_keeps_each_value_once<A>(values: Seq<A>)
    ensures
        distinct(values).no_duplicates(),
        forall|a: A| #[trigger] distinct(values).contains(a) == values.contains(a),
    decreases values.len(),
{
    if values.len() > 0 {
        let init = values.drop_last();
        law_distinct_keeps_each_value_once(init);
        assert(values =~= init.push(values.last()));
        assert forall|a: A| #[trigger] distinct(values).contains(a) == values.contains(a) by {
            if values.contains(a) && a != values.last() {
                let i = choose|i: int| 0 <= i < values.len() && values[i] == a;
                assert(init[i] == a);
            }
            if distinct(values).contains(a) && !distinct(init).contains(values.last()) {
                let i = choose|i: int| 0 <= i < distinct(values).len() && distinct(values)[i] == a;
                if i < distinct(init).len() {
                    assert(distinct(init)[i] == a);
                }
            }
            if distinct(init).contains(a) && !distinct(init).contains(values.last()) {
                let i = choose|i: int| 0 <= i < distinct(init).len() && distinct(init)[i] == a;
                assert(distinct(values)[i] == a);
            }
            if init.contains(a) {
                let i = choose|i: int| 0 <= i < init.len() && init[i] == a;
                assert(values[i] == a);
            }
            assert(values[values.len() - 1] == values.last());
            if !distinct(init).contains(values.last()) {
                assert(distinct(values)[distinct(init).len() as int] == values.last());
            }
        }
    }
}

/// Limits that are written as numbers of kilohertz on lines of their own are
/// read back.
pub proof fn law_written_limits_are_read(low: String, high: String, min: u32, max: u32)
    requires
        low@ == number::decimal(min as nat) + "\n"@,
        high@ == number::decimal(max as nat) + "\n"@,
    ensures
        limits_of((Some(low), Some(high))) == Some((min, max)),
{
    number::law_written_number_is_read(min as nat, u32::MAX as nat);
    number::law_written_number_is_read(max as nat, u32::MAX as nat);
}

/// The whole megahertz in a number of kilohertz: a thousand times them are in it,
/// and a thousand more are not.
pub proof fn law_whole_megahertz_of_a_core(khz: u32, limits: (u32, u32))
    ensures
        1000 * kilohertz_to_megahertz(khz) <= khz < 1000 * kilohertz_to_megahertz(khz) + 1000,
        1000 * range_of(limits).0 <= limits.0 < 1000 * range_of(limits).0 + 1000,
        1000 * range_of(limits).1 <= limits.1 < 1000 * range_of(limits).1 + 1000,
{
}

/// The files of a core stand in the directory with its number.
pub proof fn law_core_files_bear_the_number(core: nat)
    ensures
        core_dir(core) == "/sys/devices/system/cpu/cpu"@ + number::decimal(core) + "/cpufreq/"@,
{
}

/// The limits of a core are the numbers that its two files spell, with or without
/// white space around them. If one of them is missing or spells no number of 32
/// bits, the core has none.
pub proof fn law_limits_are_what_both_files_spell(
    low: String,
    high: String,
    a: Seq<char>,
    s: Seq<char>,
    b: Seq<char>,
    c: Seq<char>,
    t: Seq<char>,
    d: Seq<char>,
)
    requires
        low@ == a + s + b,
        high@ == c + t + d,
        forall|i: int| 0 <= i < a.len() ==> text::is_whitespace(#[trigger] a[i]),
        forall|i: int| 0 <= i < b.len() ==> text::is_whitespace(#[trigger] b[i]),
        forall|i: int| 0 <= i < c.len() ==> text::is_whitespace(#[trigger] c[i]),
        forall|i: int| 0 <= i < d.len() ==> text::is_whitespace(#[trigger] d[i]),
        s.len() > 0 ==> !text::is_whitespace(s[0]) && !text::is_whitespace(s[s.len() - 1]),
        t.len() > 0 ==> !text::is_whitespace(t[0]) && !text::is_whitespace(t[t.len() - 1]),
    ensures
        match (number::spelled_nat(s), number::spelled_nat(t)) {
            (Some(min), Some(max)) if min < 0x1_0000_0000 && max < 0x1_0000_0000 => limits_of(
                (Some(low), Some(high)),
            ) == Some((min as u32, max as u32)),
            _ => limits_of((Some(low), Some(high))) is None,
        },
        limits_of((None, Some(high))) is None,
        limits_of((Some(low), None)) is None,
        limits_of((None, None)) is None,
{
    text::law_what_stands_between_space_is_left(a, s, b);
    text::law_what_stands_between_space_is_left(c, t, d);
}

/// Each core has the limits that its own files tell.
pub proof fn law_each_core_has_its_own_limits(
    files: Seq<(Option<String>, Option<String>)>,
    i: int,
)
    ensures
        limits(files).len() == files.len(),
        0 <= i < files.len() ==> limits(files)[i] == limits_of(files[i]),
{
}

/// A value behind others is kept exactly if it is none of them, and then comes
/// behind those that were kept before.
pub proof fn law_new_values_are_kept_in_order<A>(values: Seq<A>, value: A)
    ensures
        distinct(Seq::<A>::empty()) == Seq::<A>::empty(),
        distinct(values.push(value)) == (if values.contains(value) {
            distinct(values)
        } else {
            distinct(values).push(value)
        }),
{
    law_distinct_keeps_each_value_once(values);
    assert(values.push(value).drop_last() =~= values);
    assert(distinct(values).contains(value) == values.contains(value));
}

/// The readings go on exactly as long as none is missing.
pub proof fn law_scan_ends_at_a_missing_value<A>(values: Seq<Option<A>>)
    ensures
        all_present(values) == (leading(values).len() == values.len()),
        all_present(values) == !exists|i: int| 0 <= i < values.len() && (#[trigger] values[i]) is None,
{
    law_leading_stops_at_the_first_gap(values);
    if leading(values).len() == values.len() {
        assert forall|i: int| 0 <= i < values.len() implies (#[trigger] values[i]) is Some by {
            assert(values[i] == Some(leading(values)[i]));
        }
    }
}

} // verus!
