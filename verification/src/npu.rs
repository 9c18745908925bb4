//! The load, the frequency and the driver of the NPU.

use vstd::prelude::*;

use crate::frequency;
use crate::number;
use crate::outside;
use crate::pattern;
use crate::rga;
use crate::text;

verus! {

/// The numbers among these texts, those above 255 left out.
pub open spec fn percentages(numbers: Seq<Seq<char>>) -> Seq<nat> {
    numbers.filter_map(|s: Seq<char>| number::spelled_up_to(s, u8::MAX as nat))
}

/// The texts of the percentages in the load file of the NPU.
pub open spec fn core_loads(content: Seq<char>) -> Seq<Seq<char>> {
    outside::all_captures(pattern::core_load_pattern(), content, 2)
}

/// What a list of loads holds.
pub open spec fn loads_of(v: Seq<u8>) -> Seq<nat> {
    v.map_values(|load: u8| load as nat)
}

/// Reads the percentages among these texts; what is no number up to 255 is left
/// out.
pub fn parse_percentages(numbers: &Vec<String>) -> (res: Vec<u8>)
    ensures
        loads_of(res@) == percentages(text::texts(numbers@)),
{
    let ghost all = text::texts(numbers@);
    let ghost f = |s: Seq<char>| number::spelled_up_to(s, u8::MAX as nat);
    let mut res: Vec<u8> = Vec::new();
    let mut i: usize = 0;
    assert(loads_of(res@) =~= all.take(0).filter_map(f));
    while i < numbers.len()
        invariant
            i <= numbers@.len(),
            all == text::texts(numbers@),
            f == (|s: Seq<char>| number::spelled_up_to(s, u8::MAX as nat)),
            loads_of(res@) == all.take(i as int).filter_map(f),
        decreases numbers@.len() - i,
    {
        proof {
            all.lemma_filter_map_take_succ(f, i as int);
            assert(all[i as int] == numbers@[i as int]@);
        }
        if let Some(load) = number::parse_u8(numbers[i].as_str()) {
            let ghost before = res@;
            res.push(load);
            assert(loads_of(res@) =~= loads_of(before).push(load as nat));
        }
        i += 1;
    }
    assert(all.take(i as int) =~= all);
    res
}

/// The texts of the percentages in the load file of the NPU.
pub fn find_core_loads(content: &str) -> (res: Vec<String>)
    ensures
        text::texts(res@) == core_loads(content@),
        pattern::is_plain(content@) ==> text::texts(res@) == pattern::core_percents(content@),
        forall|k: int|
            0 <= k < res@.len() ==> pattern::tells_percent(content@, (#[trigger] res@[k])@),
        res@.len() == 0 ==> pattern::holds_no_core(content@),
{
    outside::captures("Core(\\d+):\\s*(\\d+)%", content, 2)
}

/// The load of each NPU core in percent, from the load file of the driver; none
/// if it cannot be read.
pub fn get_npu_load(content: Option<&str>) -> (res: Vec<u8>)
    ensures
        match content {
            Some(told) => loads_of(res@) == percentages(core_loads(told@)),
            None => res@.len() == 0,
        },
        content matches Some(told) ==> pattern::is_plain(told@) ==> loads_of(res@) == percentages(
            pattern::core_percents(told@),
        ),
{
    match content {
        Some(told) => {
            let numbers = find_core_loads(told);
            parse_percentages(&numbers)
        },
        None => Vec::new(),
    }
}

/// The frequency of the NPU in megahertz, from its file in hertz.
pub fn get_npu_frequency(content: Option<&str>) -> (res: Option<u32>)
    ensures
        match res {
            Some(mhz) => frequency::megahertz_in(text::view_of(content)) == Some(mhz as nat),
            None => frequency::megahertz_in(text::view_of(content)) is None,
        },
{
    frequency::megahertz(content)
}

/// The version of the driver of the NPU.
pub fn get_npu_driver_version(content: Option<&str>) -> (res: String)
    ensures
        res@ == rga::version_of(text::view_of(content)),
{
    rga::driver_version(content)
}

/// The loads of the cores, written in decimal notation, are read as they are
/// told.
pub proof fn law_told_loads_are_read(
    cores: Seq<pattern::CoreLoad>,
    loads: Seq<nat>,
    behind: Seq<char>,
)
    requires
        cores.len() == loads.len(),
        forall|i: int| 0 <= i < cores.len() ==> (#[trigger] cores[i]).is_valid(),
        forall|i: int|
            0 <= i < cores.len() ==> (#[trigger] cores[i]).percent == number::decimal(loads[i]),
        forall|i: int| 0 <= i < loads.len() ==> #[trigger] loads[i] <= 255,
        !behind.contains('C'),
    ensures
        percentages(pattern::core_percents(pattern::told_cores(cores, behind))) == loads,
{
    let texts = cores.map_values(|c: pattern::CoreLoad| c.percent);
    pattern::law_told_cores_are_read(cores, behind);
    assert forall|i: int| 0 <= i < texts.len() implies #[trigger] texts[i] == number::decimal(
        loads[i],
    ) by {
        assert(texts[i] == cores[i].percent);
    }
    lemma_decimals_are_read(texts, loads);
}

proof fn lemma_decimals_are_read(texts: Seq<Seq<char>>, loads: Seq<nat>)
    requires
        texts.len() == loads.len(),
        forall|i: int| 0 <= i < texts.len() ==> #[trigger] texts[i] == number::decimal(loads[i]),
        forall|i: int| 0 <= i < loads.len() ==> #[trigger] loads[i] <= 255,
    ensures
        percentages(texts) == loads,
    decreases texts.len(),
{
    reveal(Seq::filter_map);
    if texts.len() > 0 {
        let n = texts.len() - 1;
        let before = loads.drop_last();
        assert(texts[n] == number::decimal(loads[n]));
        number::law_decimal_reads_back(loads[n]);
        assert forall|i: int| 0 <= i < before.len() implies #[trigger] before[i] <= 255 by {
            assert(before[i] == loads[i]);
        }
        lemma_decimals_are_read(texts.drop_last(), before);
        assert(percentages(texts) =~= percentages(texts.drop_last()).push(loads[n]));
        assert(before.push(loads[n]) =~= loads);
    }
    assert(percentages(texts) =~= loads);
}

/// Every text that spells a number up to 255 gives it, behind those before it, and
/// no other text gives any, whatever the others spell. The texts are those that
/// the second group of the pattern takes.
pub proof fn law_every_percentage_is_told(
    numbers: Seq<Seq<char>>,
    s: Seq<char>,
    content: Seq<char>,
    loads: Seq<u8>,
    i: int,
)
    ensures
        percentages(Seq::<Seq<char>>::empty()) == Seq::<nat>::empty(),
        percentages(numbers.push(s)) == (match number::spelled_nat(s) {
            Some(n) if n <= 255 => percentages(numbers).push(n),
            _ => percentages(numbers),
        }),
        core_loads(content) == outside::all_captures("Core(\\d+):\\s*(\\d+)%"@, content, 2),
        loads_of(loads).len() == loads.len(),
        0 <= i < loads.len() ==> loads_of(loads)[i] == loads[i],
{
    reveal(Seq::filter_map);
    assert(numbers.push(s).drop_last() =~= numbers);
    assert(percentages(Seq::<Seq<char>>::empty()) =~= Seq::<nat>::empty());
    assert(percentages(numbers.push(s)) =~= (match number::spelled_nat(s) {
        Some(n) if n <= 255 => percentages(numbers).push(n),
        _ => percentages(numbers),
    }));
}

} // verus!
