//! The architecture of the processor.

use vstd::prelude::*;
use vstd::string::StringExecFns;

use crate::order;
use crate::outside;
use crate::text;

verus! {

/// The part numbers of the known cores and their names, in the order of the
/// names.
pub open spec fn known_cores() -> Seq<(Seq<char>, Seq<char>)> {
    seq![
        ("0xd04"@, "A35"@),
        ("0xd46"@, "A510"@),
        ("0xd03"@, "A53"@),
        ("0xd05"@, "A55"@),
        ("0xd07"@, "A57"@),
        ("0xd47"@, "A710"@),
        ("0xd4d"@, "A715"@),
        ("0xd08"@, "A72"@),
        ("0xd09"@, "A73"@),
        ("0xd0a"@, "A75"@),
        ("0xd0b"@, "A76"@),
        ("0xd0d"@, "A77"@),
        ("0xd41"@, "A78"@),
        ("0xd40"@, "N1"@),
        ("0xd44"@, "X1"@),
        ("0xd48"@, "X2"@),
    ]
}

/// The value behind the colon of a line, without the white space around it.
pub open spec fn field_value(line: Seq<char>) -> Option<Seq<char>> {
    match text::second_part(line, ':') {
        Some(value) => Some(text::trimmed(value)),
        None => None,
    }
}

/// The architecture that the last of these lines tells that tells one.
pub open spec fn architecture_of(ls: Seq<Seq<char>>) -> Option<Seq<char>>
    decreases ls.len(),
{
    if ls.len() == 0 {
        None
    } else if text::begins_with(ls.last(), "CPU architecture:"@) {
        field_value(ls.last())
    } else {
        architecture_of(ls.drop_last())
    }
}

/// One of these lines tells this part number.
pub open spec fn has_part(ls: Seq<Seq<char>>, part: Seq<char>) -> bool {
    exists|i: int|
        0 <= i < ls.len() && text::begins_with(#[trigger] ls[i], "CPU part"@) && field_value(ls[i])
            == Some(part)
}

/// The names of the known cores whose part numbers these lines tell, each one
/// once, in the order of the names.
pub open spec fn core_names(ls: Seq<Seq<char>>) -> Seq<Seq<char>> {
    known_cores().filter_map(
        |core: (Seq<char>, Seq<char>)|
            if has_part(ls, core.0) {
                Some(core.1)
            } else {
                None
            },
    )
}

/// The texts with `+` between them.
pub open spec fn joined(names: Seq<Seq<char>>) -> Seq<char>
    decreases names.len(),
{
    if names.len() == 0 {
        seq![]
    } else if names.len() == 1 {
        names[0]
    } else {
        joined(names.drop_last()) + "+"@ + names.last()
    }
}

/// The architecture that the processor table tells, with the names of the
/// cores if it tells any.
pub open spec fn described(table: Seq<char>) -> Option<Seq<char>> {
    let ls = text::lines(table);
    match architecture_of(ls) {
        Some(arch) => if core_names(ls).len() > 0 {
            Some("ARMv"@ + arch + " ("@ + joined(core_names(ls)) + ")"@)
        } else {
            Some("ARMv"@ + arch)
        },
        None => None,
    }
}

/// The architecture: what the processor table tells, else what the system says
/// of the machine, else `Unknown`.
pub open spec fn architecture(table: Option<Seq<char>>, machine: Option<Seq<char>>) -> Seq<char> {
    let told = match table {
        Some(t) => described(t),
        None => None,
    };
    match (told, machine) {
        (Some(arch), _) => arch,
        (None, Some(m)) => text::trimmed(m),
        (None, None) => "Unknown"@,
    }
}

/// How many cores are known.
const KNOWN_CORES: usize = 16;

/// The part number and the name of a known core.
fn known_core(i: usize) -> (res: (&'static str, &'static str))
    requires
        i < KNOWN_CORES,
    ensures
        known_cores().len() == KNOWN_CORES,
        (res.0@, res.1@) == known_cores()[i as int],
{
    match i {
        0 => ("0xd04", "A35"),
        1 => ("0xd46", "A510"),
        2 => ("0xd03", "A53"),
        3 => ("0xd05", "A55"),
        4 => ("0xd07", "A57"),
        5 => ("0xd47", "A710"),
        6 => ("0xd4d", "A715"),
        7 => ("0xd08", "A72"),
        8 => ("0xd09", "A73"),
        9 => ("0xd0a", "A75"),
        10 => ("0xd0b", "A76"),
        11 => ("0xd0d", "A77"),
        12 => ("0xd41", "A78"),
        13 => ("0xd40", "N1"),
        14 => ("0xd44", "X1"),
        _ => ("0xd48", "X2"),
    }
}

/// The value behind the colon of a line.
fn value_of_field(line: &str) -> (res: Option<String>)
    ensures
        text::text_of(res) == field_value(line@),
{
    match text::split_second(line, ':') {
        Some(value) => Some(text::trim(value.as_str())),
        None => None,
    }
}

/// Whether one of the lines tells this part number.
fn tells_part(lines: &Vec<String>, part: &str) -> (res: bool)
    ensures
        res == has_part(text::texts(lines@), part@),
{
    let ghost ls = text::texts(lines@);
    let mut i: usize = 0;
    while i < lines.len()
        invariant
            i <= lines@.len(),
            ls == text::texts(lines@),
            forall|j: int|
                0 <= j < i ==> !(text::begins_with(#[trigger] ls[j], "CPU part"@) && field_value(
                    ls[j],
                ) == Some(part@)),
        decreases lines@.len() - i,
    {
        assert(ls[i as int] == lines@[i as int]@);
        if text::starts_with(lines[i].as_str(), "CPU part") {
            if let Some(value) = value_of_field(lines[i].as_str()) {
                if text::same(value.as_str(), part) {
                    return true;
                }
            }
        }
        i += 1;
    }
    false
}

/// The names of the known cores whose part numbers the lines tell.
fn names_of_cores(lines: &Vec<String>) -> (res: Vec<String>)
    ensures
        text::texts(res@) == core_names(text::texts(lines@)),
{
    let ghost ls = text::texts(lines@);
    let ghost f = |core: (Seq<char>, Seq<char>)|
        if has_part(ls, core.0) {
            Some(core.1)
        } else {
            None
        };
    let ghost all = known_cores();
    let mut res: Vec<String> = Vec::new();
    let mut i: usize = 0;
    while i < KNOWN_CORES
        invariant
            i <= KNOWN_CORES == all.len(),
            ls == text::texts(lines@),
            all == known_cores(),
            f == (|core: (Seq<char>, Seq<char>)|
                if has_part(ls, core.0) {
                    Some(core.1)
                } else {
                    None
                }),
            text::texts(res@) == all.take(i as int).filter_map(f),
        decreases KNOWN_CORES - i,
    {
        proof {
            all.lemma_filter_map_take_succ(f, i as int);
        }
        let (part, name) = known_core(i);
        if tells_part(lines, part) {
            let owned = name.to_string();
            proof {
                text::lemma_texts_push(res@, owned);
            }
            res.push(owned);
        }
        i += 1;
    }
    assert(all.take(i as int) =~= all);
    res
}

/// The strings with `+` between them.
fn join(names: &Vec<String>) -> (res: String)
    ensures
        res@ == joined(text::texts(names@)),
{
    let ghost all = text::texts(names@);
    let mut res = String::new();
    let mut i: usize = 0;
    assert(res@ =~= joined(all.take(0)));
    while i < names.len()
        invariant
            i <= names@.len(),
            all == text::texts(names@),
            res@ == joined(all.take(i as int)),
        decreases names@.len() - i,
    {
        proof {
            assert(all.take(i as int + 1).drop_last() =~= all.take(i as int));
            assert(all.take(i as int + 1).last() == names@[i as int]@);
        }
        if i > 0 {
            res.append("+");
        }
        res.append(names[i].as_str());
        assert(res@ =~= joined(all.take(i as int + 1)));
        i += 1;
    }
    assert(all.take(i as int) =~= all);
    res
}

/// The architecture that the processor table tells.
pub fn describe_processor(table: &str) -> (res: Option<String>)
    ensures
        text::text_of(res) == described(table@),
{
    let lines = text::split_lines(table);
    let ghost ls = text::lines(table@);
    let mut arch: Option<String> = None;
    let mut i: usize = 0;
    assert(ls.len() == lines@.len());
    while i < lines.len()
        invariant
            i <= lines@.len(),
            ls == text::texts(lines@),
            text::text_of(arch) == architecture_of(ls.take(i as int)),
        decreases lines@.len() - i,
    {
        proof {
            assert(ls.take(i as int + 1).drop_last() =~= ls.take(i as int));
            assert(ls.take(i as int + 1).last() == lines@[i as int]@);
        }
        if text::starts_with(lines[i].as_str(), "CPU architecture:") {
            arch = value_of_field(lines[i].as_str());
        }
        i += 1;
    }
    assert(ls.take(i as int) =~= ls);
    match arch {
        Some(version) => {
            let mut res = text::concat("ARMv", version.as_str());
            let names = names_of_cores(&lines);
            assert(text::texts(names@).len() == names@.len());
            if names.len() > 0 {
                res.append(" (");
                res.append(join(&names).as_str());
                res.append(")");
            }
            Some(res)
        },
        None => None,
    }
}

/// The architecture, given the processor table and what the system says of the
/// machine.
pub fn architecture_from(table: Option<&str>, machine: Option<&str>) -> (res: String)
    ensures
        res@ == architecture(text::view_of(table), text::view_of(machine)),
{
    if let Some(t) = table {
        if let Some(arch) = describe_processor(t) {
            return arch;
        }
    }
    match machine {
        Some(m) => text::trim(m),
        None => "Unknown".to_string(),
    }
}

/// The architecture of the processor, from the processor table and the bytes
/// that the system prints for the machine, where they could be had.
pub fn get_cpu_architecture(table: Option<&str>, machine: Option<&Vec<u8>>) -> (res: String)
    ensures
        res@ == architecture(
            text::view_of(table),
            match machine {
                Some(bytes) => Some(outside::utf8_lossy(bytes@)),
                None => None,
            },
        ),
        machine is None ==> res@ == architecture(text::view_of(table), None),
        machine matches Some(bytes) ==> vstd::utf8::valid_utf8(bytes@) ==> res@ == architecture(
            text::view_of(table),
            Some(vstd::utf8::decode_utf8(bytes@)),
        ),
{
    match machine {
        Some(bytes) => {
            let printed = outside::decode_lossy(bytes.as_slice());
            architecture_from(table, Some(printed.as_str()))
        },
        None => architecture_from(table, None),
    }
}

/// Each name stands before the next one, and is not the same.
pub open spec fn ascending(names: Seq<Seq<char>>) -> bool {
    forall|i: int, j: int|
        0 <= i < j < names.len() ==> order::le(#[trigger] names[i], #[trigger] names[j]) && names[i]
            != names[j]
}

/// The cores are named in ascending order, each one once, in whatever order and
/// however often the lines tell their part numbers.
pub proof fn law_core_names_ascend(ls: Seq<Seq<char>>)
    ensures
        ascending(core_names(ls)),
{
    lemma_known_cores_ascend();
    let f = |core: (Seq<char>, Seq<char>)|
        if has_part(ls, core.0) {
            Some(core.1)
        } else {
            None
        };
    lemma_chosen_ascend(known_cores(), f);
}

/// Only which part numbers are told makes a difference to the names of the
/// cores.
pub proof fn law_only_the_parts_matter(ls: Seq<Seq<char>>, other: Seq<Seq<char>>)
    requires
        forall|part: Seq<char>| has_part(ls, part) == has_part(other, part),
    ensures
        core_names(ls) == core_names(other),
{
    let f = |core: (Seq<char>, Seq<char>)|
        if has_part(ls, core.0) {
            Some(core.1)
        } else {
            None
        };
    let g = |core: (Seq<char>, Seq<char>)|
        if has_part(other, core.0) {
            Some(core.1)
        } else {
            None
        };
    assert(f =~= g);
}

/// The names of the cores.
pub open spec fn names_in(cores: Seq<(Seq<char>, Seq<char>)>) -> Seq<Seq<char>> {
    cores.map_values(|core: (Seq<char>, Seq<char>)| core.1)
}

proof fn lemma_chosen_ascend(
    cores: Seq<(Seq<char>, Seq<char>)>,
    f: spec_fn((Seq<char>, Seq<char>)) -> Option<Seq<char>>,
)
    requires
        ascending(names_in(cores)),
        forall|core: (Seq<char>, Seq<char>)| (#[trigger] f(core)) matches Some(name) ==> name
            == core.1,
    ensures
        ascending(cores.filter_map(f)),
        forall|name: Seq<char>|
            cores.filter_map(f).contains(name) ==> #[trigger] names_in(cores).contains(name),
    decreases cores.len(),
{
    reveal(Seq::filter_map);
    if cores.len() > 0 {
        let init = cores.drop_last();
        let names = names_in(cores);
        let before = init.filter_map(f);
        assert(names_in(init) =~= names.drop_last());
        assert forall|i: int, j: int| 0 <= i < j < names_in(init).len() implies order::le(
            #[trigger] names_in(init)[i],
            #[trigger] names_in(init)[j],
        ) && names_in(init)[i] != names_in(init)[j] by {
            assert(names_in(init)[i] == names[i] && names_in(init)[j] == names[j]);
        }
        lemma_chosen_ascend(init, f);
        let all = cores.filter_map(f);
        assert forall|name: Seq<char>| all.contains(name) implies #[trigger] names.contains(
            name,
        ) by {
            let k = choose|k: int| 0 <= k < all.len() && all[k] == name;
            if k < before.len() {
                assert(before[k] == name);
                assert(before.contains(name));
                assert(names_in(init).contains(name));
                let i = choose|i: int| 0 <= i < names_in(init).len() && names_in(init)[i] == name;
                assert(names[i] == name);
            } else {
                assert(names[names.len() - 1] == name);
            }
        }
        assert forall|i: int, j: int| 0 <= i < j < all.len() implies order::le(
            #[trigger] all[i],
            #[trigger] all[j],
        ) && all[i] != all[j] by {
            assert(all[i] == before[i]);
            if j < before.len() {
                assert(all[j] == before[j]);
            } else {
                assert(before.contains(before[i]));
                assert(names_in(init).contains(before[i]));
                let k = choose|k: int|
                    0 <= k < names_in(init).len() && names_in(init)[k] == before[i];
                assert(names[k] == before[i]);
                assert(names[names.len() - 1] == all[j]);
            }
        }
    }
}

/// Names that ascend from each one to the next ascend throughout.
proof fn lemma_steps_ascend(names: Seq<Seq<char>>)
    requires
        forall|i: int|
            0 <= i < names.len() - 1 ==> order::le(#[trigger] names[i], names[i + 1]) && names[i]
                != names[i + 1],
    ensures
        ascending(names),
{
    assert forall|i: int, j: int| 0 <= i < j < names.len() implies order::le(
        #[trigger] names[i],
        #[trigger] names[j],
    ) && names[i] != names[j] by {
        lemma_steps_ascend_to(names, i, j);
    }
}

proof fn lemma_steps_ascend_to(names: Seq<Seq<char>>, i: int, j: int)
    requires
        0 <= i < j < names.len(),
        forall|k: int|
            0 <= k < names.len() - 1 ==> order::le(#[trigger] names[k], names[k + 1]) && names[k]
                != names[k + 1],
    ensures
        order::le(names[i], names[j]),
        names[i] != names[j],
    decreases j - i,
{
    assert(order::le(names[j - 1], names[j - 1 + 1]) && names[j - 1] != names[j - 1 + 1]);
    if i < j - 1 {
        lemma_steps_ascend_to(names, i, j - 1);
        order::lemma_transitive(names[i], names[j - 1], names[j]);
        if names[i] == names[j] {
            order::lemma_antisymmetric(names[j - 1], names[j]);
        }
    }
}

proof fn lemma_known_cores_ascend()
    ensures
        ascending(names_in(known_cores())),
{
    reveal_strlit("A35");
    reveal_strlit("A510");
    reveal_strlit("A53");
    reveal_strlit("A55");
    reveal_strlit("A57");
    reveal_strlit("A710");
    reveal_strlit("A715");
    reveal_strlit("A72");
    reveal_strlit("A73");
    reveal_strlit("A75");
    reveal_strlit("A76");
    reveal_strlit("A77");
    reveal_strlit("A78");
    reveal_strlit("N1");
    reveal_strlit("X1");
    reveal_strlit("X2");
    reveal_with_fuel(order::le, 5);
    let names = names_in(known_cores());
    assert forall|i: int| 0 <= i < 15 implies order::le(#[trigger] names[i], names[i + 1])
        && names[i] != names[i + 1] by {
        assert("A35"@[1] != "A510"@[1]);
        assert("A510"@[2] != "A53"@[2]);
        assert("A53"@[2] != "A55"@[2]);
        assert("A55"@[2] != "A57"@[2]);
        assert("A57"@[1] != "A710"@[1]);
        assert("A710"@[3] != "A715"@[3]);
        assert("A715"@[2] != "A72"@[2]);
        assert("A72"@[2] != "A73"@[2]);
        assert("A73"@[2] != "A75"@[2]);
        assert("A75"@[2] != "A76"@[2]);
        assert("A76"@[2] != "A77"@[2]);
        assert("A77"@[2] != "A78"@[2]);
        assert("A78"@[0] != "N1"@[0]);
        assert("N1"@[0] != "X1"@[0]);
        assert("X1"@[1] != "X2"@[1]);
    }
    lemma_steps_ascend(names);
}

/// The last line that tells an architecture counts.
pub proof fn law_last_architecture_counts(ls: Seq<Seq<char>>, k: int)
    requires
        0 <= k < ls.len(),
        text::begins_with(ls[k], "CPU architecture:"@),
        forall|i: int|
            k < i < ls.len() ==> !text::begins_with(#[trigger] ls[i], "CPU architecture:"@),
    ensures
        architecture_of(ls) == field_value(ls[k]),
    decreases ls.len(),
{
    if k < ls.len() - 1 {
        let init = ls.drop_last();
        assert(!text::begins_with(ls[ls.len() - 1], "CPU architecture:"@));
        assert forall|i: int| k < i < init.len() implies !text::begins_with(
            #[trigger] init[i],
            "CPU architecture:"@,
        ) by {
            assert(init[i] == ls[i]);
        }
        law_last_architecture_counts(init, k);
    }
}

/// A known core is named exactly if its part number is told.
pub proof fn law_exactly_the_told_cores(ls: Seq<Seq<char>>, k: int)
    requires
        0 <= k < known_cores().len(),
    ensures
        core_names(ls).contains(known_cores()[k].1) == has_part(ls, known_cores()[k].0),
{
    let cores = known_cores();
    let f = |core: (Seq<char>, Seq<char>)|
        if has_part(ls, core.0) {
            Some(core.1)
        } else {
            None
        };
    let name = cores[k].1;
    if has_part(ls, cores[k].0) {
        lemma_chosen_is_kept(cores, f, k);
    }
    if core_names(ls).contains(name) {
        cores.lemma_filter_map_contains(f, name);
        lemma_known_cores_ascend();
        let core = choose|core: (Seq<char>, Seq<char>)| #[trigger]
            cores.contains(core) && f(core) == Some(name);
        let i = choose|i: int| 0 <= i < cores.len() && cores[i] == core;
        assert(names_in(cores)[i] == name && names_in(cores)[k] == name);
        assert(i == k);
    }
}

proof fn lemma_chosen_is_kept(
    cores: Seq<(Seq<char>, Seq<char>)>,
    f: spec_fn((Seq<char>, Seq<char>)) -> Option<Seq<char>>,
    k: int,
)
    requires
        0 <= k < cores.len(),
        f(cores[k]) is Some,
    ensures
        cores.filter_map(f).contains(f(cores[k])->0),
    decreases cores.len(),
{
    reveal(Seq::filter_map);
    let init = cores.drop_last();
    let all = cores.filter_map(f);
    if k < init.len() {
        lemma_chosen_is_kept(init, f, k);
        let before = init.filter_map(f);
        let i = choose|i: int| 0 <= i < before.len() && before[i] == f(cores[k])->0;
        assert(all[i] == before[i]);
    } else {
        assert(all.last() == f(cores[k])->0);
    }
}

/// The value of a field stands behind the first colon of its line, up to the
/// second one if there is another, without the white space around it.
pub proof fn law_value_stands_behind_the_colon(
    name: Seq<char>,
    value: Seq<char>,
    rest: Seq<char>,
)
    requires
        forall|i: int| 0 <= i < name.len() ==> #[trigger] name[i] != ':',
        forall|i: int| 0 <= i < value.len() ==> #[trigger] value[i] != ':',
    ensures
        field_value(name + seq![':'] + value) == Some(text::trimmed(value)),
        field_value(name + seq![':'] + value + seq![':'] + rest) == Some(text::trimmed(value)),
        field_value(name) is None,
{
    text::law_second_part_stands_behind_the_first(name, ':', value, rest);
}

/// Without a line that tells an architecture there is none.
pub proof fn law_no_line_no_architecture(ls: Seq<Seq<char>>)
    requires
        forall|i: int|
            0 <= i < ls.len() ==> !text::begins_with(#[trigger] ls[i], "CPU architecture:"@),
    ensures
        architecture_of(ls) is None,
    decreases ls.len(),
{
    if ls.len() > 0 {
        let init = ls.drop_last();
        assert(!text::begins_with(ls[ls.len() - 1], "CPU architecture:"@));
        assert forall|i: int| 0 <= i < init.len() implies !text::begins_with(
            #[trigger] init[i],
            "CPU architecture:"@,
        ) by {
            assert(init[i] == ls[i]);
        }
        law_no_line_no_architecture(init);
    }
}

/// A part number is told exactly if some line that begins as such a line does has
/// it as its value.
pub proof fn law_parts_are_told_by_their_lines(ls: Seq<Seq<char>>, part: Seq<char>)
    ensures
        has_part(ls, part) == exists|i: int|
            0 <= i < ls.len() && text::begins_with(#[trigger] ls[i], "CPU part"@) && field_value(
                ls[i],
            ) == Some(part),
{
}

/// Only known cores are named.
pub proof fn law_only_known_cores_are_named(ls: Seq<Seq<char>>, name: Seq<char>)
    requires
        core_names(ls).contains(name),
    ensures
        exists|k: int| 0 <= k < known_cores().len() && (#[trigger] known_cores()[k]).1 == name,
{
    let f = |core: (Seq<char>, Seq<char>)|
        if has_part(ls, core.0) {
            Some(core.1)
        } else {
            None
        };
    known_cores().lemma_filter_map_contains(f, name);
    let core = choose|core: (Seq<char>, Seq<char>)| #[trigger]
        known_cores().contains(core) && f(core) == Some(name);
    let k = choose|k: int| 0 <= k < known_cores().len() && known_cores()[k] == core;
    assert(known_cores()[k].1 == name);
}

/// Joined names stand one behind the other with a plus sign between them.
pub proof fn law_names_are_joined_with_plus(names: Seq<Seq<char>>, name: Seq<char>)
    ensures
        joined(seq![name]) == name,
        names.len() > 0 ==> joined(names.push(name)) == joined(names) + "+"@ + name,
{
    assert(names.push(name).drop_last() =~= names);
}

/// A table that tells an architecture is described by it, and by the names of all
/// the known cores that it tells, in round brackets, however many they are: one
/// alone is told as several are. Without a known core there are no brackets, and
/// without an architecture there is no description.
pub proof fn law_description_names_all_cores(table: Seq<char>)
    ensures
        match architecture_of(text::lines(table)) {
            Some(arch) => {
                &&& core_names(text::lines(table)).len() > 0 ==> described(table) == Some(
                    "ARMv"@ + arch + " ("@ + joined(core_names(text::lines(table))) + ")"@,
                )
                &&& core_names(text::lines(table)).len() == 0 ==> described(table) == Some(
                    "ARMv"@ + arch,
                )
            },
            None => described(table) is None,
        },
{
}

/// A table that tells an architecture and exactly one known core is described by
/// the architecture and the name of that core, however often it tells it.
pub proof fn law_one_core_is_named(table: Seq<char>, k: int)
    requires
        0 <= k < known_cores().len(),
        architecture_of(text::lines(table)) is Some,
        forall|j: int|
            0 <= j < known_cores().len() ==> has_part(
                text::lines(table),
                (#[trigger] known_cores()[j]).0,
            ) == (j == k),
    ensures
        described(table) == Some(
            "ARMv"@ + architecture_of(text::lines(table))->0 + " ("@ + known_cores()[k].1 + ")"@,
        ),
{
    let ls = text::lines(table);
    let names = core_names(ls);
    let name = known_cores()[k].1;
    law_exactly_the_told_cores(ls, k);
    assert(has_part(ls, known_cores()[k].0));
    assert(names.contains(name));
    assert forall|i: int| 0 <= i < names.len() implies names[i] == name by {
        assert(names.contains(names[i]));
        law_only_known_cores_are_named(ls, names[i]);
        let j = choose|j: int| 0 <= j < known_cores().len() && (#[trigger] known_cores()[j]).1
            == names[i];
        law_exactly_the_told_cores(ls, j);
        assert(has_part(ls, known_cores()[j].0));
    }
    law_core_names_ascend(ls);
    if names.len() > 1 {
        assert(names[0] == name && names[1] == name);
    }
    assert(names =~= seq![name]);
}

/// What the table tells comes first, then what the system says of the machine
/// without the white space around it; without either the architecture is unknown.
pub proof fn law_table_comes_first(
    table: Seq<char>,
    machine: Option<Seq<char>>,
    printed: Seq<char>,
)
    ensures
        described(table) matches Some(arch) ==> architecture(Some(table), machine) == arch,
        described(table) is None ==> architecture(Some(table), machine) == architecture(
            None,
            machine,
        ),
        architecture(None, Some(printed)) == text::trimmed(printed),
        architecture(None, None) == "Unknown"@,
{
}

/// Each core is named exactly if its own part number is told.
pub proof fn law_each_core_has_its_part_number(ls: Seq<Seq<char>>)
    ensures
        core_names(ls).contains("A53"@) == has_part(ls, "0xd03"@),
        core_names(ls).contains("A35"@) == has_part(ls, "0xd04"@),
        core_names(ls).contains("A55"@) == has_part(ls, "0xd05"@),
        core_names(ls).contains("A57"@) == has_part(ls, "0xd07"@),
        core_names(ls).contains("A72"@) == has_part(ls, "0xd08"@),
        core_names(ls).contains("A73"@) == has_part(ls, "0xd09"@),
        core_names(ls).contains("A75"@) == has_part(ls, "0xd0a"@),
        core_names(ls).contains("A76"@) == has_part(ls, "0xd0b"@),
        core_names(ls).contains("A77"@) == has_part(ls, "0xd0d"@),
        core_names(ls).contains("N1"@) == has_part(ls, "0xd40"@),
        core_names(ls).contains("A78"@) == has_part(ls, "0xd41"@),
        core_names(ls).contains("X1"@) == has_part(ls, "0xd44"@),
        core_names(ls).contains("A510"@) == has_part(ls, "0xd46"@),
        core_names(ls).contains("A710"@) == has_part(ls, "0xd47"@),
        core_names(ls).contains("X2"@) == has_part(ls, "0xd48"@),
        core_names(ls).contains("A715"@) == has_part(ls, "0xd4d"@),
        known_cores().len() == 16,
{
    law_exactly_the_told_cores(ls, 0);
    law_exactly_the_told_cores(ls, 1);
    law_exactly_the_told_cores(ls, 2);
    law_exactly_the_told_cores(ls, 3);
    law_exactly_the_told_cores(ls, 4);
    law_exactly_the_told_cores(ls, 5);
    law_exactly_the_told_cores(ls, 6);
    law_exactly_the_told_cores(ls, 7);
    law_exactly_the_told_cores(ls, 8);
    law_exactly_the_told_cores(ls, 9);
    law_exactly_the_told_cores(ls, 10);
    law_exactly_the_told_cores(ls, 11);
    law_exactly_the_told_cores(ls, 12);
    law_exactly_the_told_cores(ls, 13);
    law_exactly_the_told_cores(ls, 14);
    law_exactly_the_told_cores(ls, 15);
}

} // verus!
