//! The load and the driver of the Rockchip graphics accelerator.

use vstd::prelude::*;

use crate::number;
use crate::text;

verus! {

/// The lines of a text, each without the white space around it.
pub open spec fn clean_lines(content: Seq<char>) -> Seq<Seq<char>> {
    text::lines(content).map_values(|line: Seq<char>| text::trimmed(line))
}

/// A rule or a title: no line that tells anything.
pub open spec fn is_decoration(line: Seq<char>) -> bool {
    text::occurs(line, "-"@) || text::occurs(line, "= load ="@)
}

/// A line that names a scheduler, `scheduler[INDEX]: NAME`.
pub open spec fn is_header(line: Seq<char>) -> bool {
    !is_decoration(line) && text::begins_with(line, "scheduler["@)
}

/// A line that tells the load of the scheduler named before, `load = LOAD%`.
pub open spec fn is_load(line: Seq<char>) -> bool {
    !is_decoration(line) && text::begins_with(line, "load ="@)
}

/// The index of a scheduler: what stands between the brackets, or 0 if that is
/// no number.
pub open spec fn header_index(line: Seq<char>) -> nat {
    let inner = line.subrange(10, text::position(line, ']') as int);
    match number::spelled_up_to(inner, usize::MAX as nat) {
        Some(index) => index,
        None => 0,
    }
}

/// The index in the last header with a closing bracket among the first `n`
/// lines; 0 if there is none.
pub open spec fn index_after(ls: Seq<Seq<char>>, n: nat) -> nat
    decreases n,
{
    if n == 0 {
        0
    } else if is_header(ls[n - 1]) && ls[n - 1].contains(']') {
        header_index(ls[n - 1])
    } else {
        index_after(ls, (n - 1) as nat)
    }
}

/// The name under which the load of a scheduler is reported.
pub open spec fn scheduler_label(name: Seq<char>, index: nat) -> Seq<char> {
    name + "_"@ + number::decimal(index)
}

/// The label of the last scheduler that the first `n` lines name; nothing if
/// they name none.
pub open spec fn label_after(ls: Seq<Seq<char>>, n: nat) -> Seq<char>
    decreases n,
{
    if n == 0 {
        seq![]
    } else {
        match text::second_part(ls[n - 1], ':') {
            Some(name) if is_header(ls[n - 1]) => scheduler_label(
                text::trimmed(name),
                index_after(ls, n),
            ),
            _ => label_after(ls, (n - 1) as nat),
        }
    }
}

/// The text of the load in a line.
pub open spec fn load_number(line: Seq<char>) -> Option<Seq<char>> {
    match text::second_part(line, '=') {
        Some(load) if is_load(line) => Some(text::trimmed(text::removed(load, "%"@))),
        _ => None,
    }
}

/// The loads that the first `n` lines tell: of each the label of its scheduler
/// and the text of the number.
pub open spec fn entries_after(ls: Seq<Seq<char>>, n: nat) -> Seq<(Seq<char>, Seq<char>)>
    decreases n,
{
    if n == 0 {
        seq![]
    } else {
        let before = entries_after(ls, (n - 1) as nat);
        match load_number(ls[n - 1]) {
            Some(load) if label_after(ls, n).len() > 0 => before.push((label_after(ls, n), load)),
            _ => before,
        }
    }
}

/// The loads that a text tells.
pub open spec fn entries_in(content: Seq<char>) -> Seq<(Seq<char>, Seq<char>)> {
    entries_after(clean_lines(content), clean_lines(content).len())
}

/// What a list of pairs of strings holds.
pub open spec fn pairs_of(v: Seq<(String, String)>) -> Seq<(Seq<char>, Seq<char>)> {
    v.map_values(|pair: (String, String)| (pair.0@, pair.1@))
}

proof fn lemma_forms(line: Seq<char>)
    ensures
        text::begins_with(line, "scheduler["@) ==> !text::begins_with(line, "load ="@),
        text::begins_with(line, "scheduler["@) && line.contains(']') ==> 10 <= text::position(
            line,
            ']',
        ) < line.len(),
        line.contains(']') == (text::position(line, ']') < line.len()),
{
    reveal_strlit("scheduler[");
    reveal_strlit("load =");
    text::lemma_position(line, ']');
    if text::begins_with(line, "scheduler["@) {
        let head = line.subrange(0, 10);
        assert(head == "scheduler["@);
        assert(line[0] == head[0]);
        assert forall|k: int| 0 <= k < 10 implies line[k] != ']' by {
            assert(line[k] == head[k]);
        }
        if text::begins_with(line, "load ="@) {
            assert(line[0] == line.subrange(0, 6)[0]);
        }
    }
}

/// The loads that a text tells, the number of each still as a text.
pub fn rga_load_entries(content: &str) -> (res: Vec<(String, String)>)
    ensures
        pairs_of(res@) == entries_in(content@),
{
    let lines = text::split_lines(content);
    let ghost ls = clean_lines(content@);
    assert(text::texts(lines@).len() == lines@.len());
    let mut res: Vec<(String, String)> = Vec::new();
    let mut label = String::new();
    let mut index: usize = 0;
    let mut i: usize = 0;
    assert(label@ =~= label_after(ls, 0));
    assert(pairs_of(res@) =~= entries_after(ls, 0));
    while i < lines.len()
        invariant
            i <= lines@.len(),
            ls == clean_lines(content@),
            text::texts(lines@) == text::lines(content@),
            index == index_after(ls, i as nat),
            label@ == label_after(ls, i as nat),
            pairs_of(res@) == entries_after(ls, i as nat),
        decreases lines@.len() - i,
    {
        let line = text::trim(lines[i].as_str());
        assert(text::texts(lines@)[i as int] == lines@[i as int]@);
        assert(ls[i as int] == line@);
        proof {
            lemma_forms(line@);
        }
        let decoration = text::contains(line.as_str(), "-") || text::contains(
            line.as_str(),
            "= load =",
        );
        if !decoration && text::starts_with(line.as_str(), "scheduler[") {
            let cs = text::to_chars(line.as_str());
            let end = text::index_of(&cs, ']');
            if end < cs.len() {
                let inner = text::from_chars(&cs, 10, end);
                index = match number::parse_usize(inner.as_str()) {
                    Some(n) => n,
                    None => 0,
                };
            }
            match text::split_second(line.as_str(), ':') {
                Some(name) => {
                    label = text::concat(text::trim(name.as_str()).as_str(), "_");
                    number::push_decimal(&mut label, index as u64);
                },
                None => {},
            }
        } else if !decoration && text::starts_with(line.as_str(), "load =") {
            match text::split_second(line.as_str(), '=') {
                Some(load) => {
                    let bare = text::remove(load.as_str(), "%");
                    let number = text::trim(bare.as_str());
                    if !label.as_str().is_empty() {
                        let ghost before = res@;
                        res.push((label.clone(), number));
                        assert(pairs_of(res@) =~= pairs_of(before).push((label@, number@)));
                    }
                },
                None => {},
            }
        }
        i += 1;
    }
    res
}

/// The entries whose number could be read, with that number. `loads` tells of
/// each entry what its text was read as.
pub open spec fn read_entries<T>(
    entries: Seq<(Seq<char>, Seq<char>)>,
    loads: Seq<Option<T>>,
) -> Seq<(Seq<char>, T)>
    decreases entries.len(),
{
    if entries.len() == 0 {
        seq![]
    } else {
        let before = read_entries(entries.drop_last(), loads);
        match loads[entries.len() - 1] {
            Some(load) => before.push((entries.last().0, load)),
            None => before,
        }
    }
}

/// What a list of labelled loads holds.
pub open spec fn loads_of<T>(v: Seq<(String, T)>) -> Seq<(Seq<char>, T)> {
    v.map_values(|pair: (String, T)| (pair.0@, pair.1))
}

/// `load` is what `read` makes of the text.
pub open spec fn is_read_as<T, F: Fn(&str) -> Option<T>>(
    read: F,
    number: Seq<char>,
    load: Option<T>,
) -> bool {
    exists|s: &str| s@ == number && call_ensures(read, (s,), load)
}

/// `loads` are what `read` makes of the texts of the entries.
pub open spec fn all_read_as<T, F: Fn(&str) -> Option<T>>(
    read: F,
    entries: Seq<(Seq<char>, Seq<char>)>,
    loads: Seq<Option<T>>,
) -> bool {
    loads.len() == entries.len() && forall|i: int|
        0 <= i < entries.len() ==> is_read_as(read, (#[trigger] entries[i]).1, loads[i])
}

/// The loads of the schedulers, from the file of the driver; none if it cannot
/// be read or tells no load. `read` makes a number of its text.
pub fn get_rga_load<T, F: Fn(&str) -> Option<T>>(content: Option<&str>, read: F) -> (res: Option<
    Vec<(String, T)>,
>)
    requires
        forall|s: &str| call_requires(read, (s,)),
    ensures
        match content {
            Some(told) => exists|loads: Seq<Option<T>>| #[trigger]
                all_read_as(read, entries_in(told@), loads) && match res {
                    Some(v) => v@.len() > 0 && loads_of(v@) == read_entries(
                        entries_in(told@),
                        loads,
                    ),
                    None => read_entries(entries_in(told@), loads).len() == 0,
                },
            None => res is None,
        },
{
    let told = match content {
        Some(told) => told,
        None => {
            return None;
        },
    };
    let pairs = rga_load_entries(told);
    let ghost entries = entries_in(told@);
    assert(entries.len() == pairs@.len());
    let ghost mut loads: Seq<Option<T>> = seq![];
    let mut res: Vec<(String, T)> = Vec::new();
    let mut i: usize = 0;
    assert(loads_of(res@) =~= read_entries(entries.take(0), loads));
    while i < pairs.len()
        invariant
            i <= pairs@.len(),
            entries == pairs_of(pairs@),
            forall|s: &str| call_requires(read, (s,)),
            loads.len() == i,
            forall|j: int| 0 <= j < i ==> is_read_as(read, (#[trigger] entries[j]).1, loads[j]),
            loads_of(res@) == read_entries(entries.take(i as int), loads),
        decreases pairs@.len() - i,
    {
        let number = pairs[i].1.as_str();
        let load = read(number);
        let ghost before = res@;
        let ghost earlier = loads;
        proof {
            assert(entries[i as int].1 == number@);
            assert(is_read_as(read, number@, load));
            loads = loads.push(load);
            assert(entries.take(i as int + 1).drop_last() =~= entries.take(i as int));
            lemma_read_entries_prefix(entries.take(i as int), earlier, loads);
        }
        if let Some(value) = load {
            let label = pairs[i].0.clone();
            res.push((label, value));
            assert(loads_of(res@) =~= loads_of(before).push((label@, value)));
        }
        i += 1;
    }
    assert(entries.take(i as int) =~= entries);
    assert(loads_of(res@).len() == res@.len());
    assert(all_read_as(read, entries, loads));
    if res.len() > 0 {
        Some(res)
    } else {
        None
    }
}

proof fn lemma_read_entries_prefix<T>(
    entries: Seq<(Seq<char>, Seq<char>)>,
    a: Seq<Option<T>>,
    b: Seq<Option<T>>,
)
    requires
        entries.len() <= a.len(),
        entries.len() <= b.len(),
        forall|i: int| 0 <= i < entries.len() ==> a[i] == b[i],
    ensures
        read_entries(entries, a) == read_entries(entries, b),
    decreases entries.len(),
{
    if entries.len() > 0 {
        lemma_read_entries_prefix(entries.drop_last(), a, b);
    }
}

/// The version in a text of the form `NAME: VERSION`.
pub open spec fn version_of(content: Option<Seq<char>>) -> Seq<char> {
    match content {
        Some(told) => match text::second_part(told, ':') {
            Some(version) => text::trimmed(version),
            None => "Not Detected"@,
        },
        None => "Not Detected"@,
    }
}

/// The version of a driver, from the file in which it tells it; `Not Detected`
/// if the file cannot be read or has no colon.
pub fn driver_version(content: Option<&str>) -> (res: String)
    ensures
        res@ == version_of(text::view_of(content)),
{
    match content {
        Some(told) => match text::split_second(told, ':') {
            Some(version) => text::trim(version.as_str()),
            None => "Not Detected".to_string(),
        },
        None => "Not Detected".to_string(),
    }
}

/// The version of the driver of the graphics accelerator.
pub fn get_rga_version(content: Option<&str>) -> (res: String)
    ensures
        res@ == version_of(text::view_of(content)),
{
    driver_version(content)
}

/// Different schedulers have different labels.
pub proof fn law_labels_are_unique(
    name: Seq<char>,
    index: nat,
    other_name: Seq<char>,
    other_index: nat,
)
    requires
        scheduler_label(name, index) == scheduler_label(other_name, other_index),
    ensures
        name == other_name,
        index == other_index,
{
    reveal_strlit("_");
    let label = scheduler_label(name, index);
    let (d, e) = (number::decimal(index), number::decimal(other_index));
    number::law_decimal_reads_back(index);
    number::law_decimal_reads_back(other_index);
    let same = scheduler_label(other_name, other_index);
    assert(label.len() == name.len() + 1 + d.len());
    assert(same.len() == other_name.len() + 1 + e.len());
    assert(label[name.len() as int] == '_');
    assert(same[other_name.len() as int] == '_');
    if name.len() < other_name.len() {
        assert(label[other_name.len() as int] == d[other_name.len() - name.len() - 1]);
    }
    if other_name.len() < name.len() {
        assert(same[name.len() as int] == e[name.len() - other_name.len() - 1]);
    }
    assert(name =~= label.take(name.len() as int));
    assert(other_name =~= same.take(name.len() as int));
    assert(d =~= label.skip(name.len() as int + 1));
    assert(e =~= same.skip(name.len() as int + 1));
    number::law_decimal_is_injective(index, other_index);
}

/// What is told of a scheduler: its index, its name and the text of its load.
pub struct Scheduler {
    pub index: nat,
    pub name: Seq<char>,
    pub load: Seq<char>,
}

/// The line that names a scheduler.
pub open spec fn header_line(s: Scheduler) -> Seq<char> {
    "scheduler["@ + number::decimal(s.index) + "]: "@ + s.name
}

/// The line that tells the load of a scheduler.
pub open spec fn load_line(s: Scheduler) -> Seq<char> {
    "load = "@ + s.load + "%"@
}

/// The lines that tell of these schedulers.
pub open spec fn scheduler_lines(schedulers: Seq<Scheduler>) -> Seq<Seq<char>>
    decreases schedulers.len(),
{
    if schedulers.len() == 0 {
        seq![]
    } else {
        scheduler_lines(schedulers.drop_last()).push(header_line(schedulers.last())).push(
            load_line(schedulers.last()),
        )
    }
}

/// A text that can be told on a line: not empty, without white space at its
/// ends, and without the characters that have a meaning of their own.
pub open spec fn is_plain(s: Seq<char>) -> bool {
    &&& s.len() > 0
    &&& text::trimmed(s) == s
    &&& !s.contains('-')
    &&& !s.contains('=')
    &&& !s.contains(':')
    &&& !s.contains('%')
    &&& !s.contains('\n')
}

/// A scheduler that can be told of.
pub open spec fn is_tellable(s: Scheduler) -> bool {
    s.index <= usize::MAX && is_plain(s.name) && is_plain(s.load)
}

proof fn lemma_occurs_holds(s: Seq<char>, pat: Seq<char>, c: char)
    requires
        text::occurs(s, pat),
        pat.contains(c),
    ensures
        s.contains(c),
{
    let i = choose|i: int| text::occurs_at(s, pat, i);
    let k = choose|k: int| 0 <= k < pat.len() && pat[k] == c;
    assert(s[i + k] == s.subrange(i, i + pat.len())[k]);
}

proof fn lemma_removed_nothing(s: Seq<char>)
    requires
        !s.contains('%'),
    ensures
        text::removed(s + "%"@, "%"@) == s,
    decreases s.len(),
{
    reveal_strlit("%");
    let all = s + "%"@;
    if s.len() == 0 {
        assert(all =~= "%"@);
        assert(all.subrange(0, 1) =~= "%"@);
        assert(all.skip(1) =~= s);
        assert(text::removed(s, "%"@) == s);
    } else {
        assert(s.contains(s[0]));
        assert(all.subrange(0, 1)[0] == s[0]);
        assert(all.drop_first() =~= s.drop_first() + "%"@);
        assert forall|i: int| 0 <= i < s.drop_first().len() implies s.drop_first()[i] != '%' by {
            assert(s.contains(s[i + 1]));
        }
        lemma_removed_nothing(s.drop_first());
        assert(seq![s[0]] + s.drop_first() =~= s);
    }
}

proof fn lemma_ends(s: Seq<char>)
    requires
        is_plain(s),
    ensures
        !text::is_whitespace(s[0]),
        !text::is_whitespace(s.last()),
{
    text::law_trimmed_text_has_no_outer_space(s);
}

proof fn lemma_header_line(s: Scheduler)
    requires
        is_tellable(s),
    ensures
        text::trimmed(header_line(s)) == header_line(s),
        !header_line(s).contains('\n'),
        is_header(header_line(s)),
        header_line(s).contains(']'),
        header_index(header_line(s)) == s.index,
        text::second_part(header_line(s), ':') == Some(seq![' '] + s.name),
        text::trimmed(seq![' '] + s.name) == s.name,
        load_number(header_line(s)) is None,
{
    reveal_strlit("scheduler[");
    reveal_strlit("]: ");
    reveal_strlit("-");
    reveal_strlit("= load =");
    let line = header_line(s);
    let d = number::decimal(s.index);
    number::law_decimal_reads_back(s.index);
    lemma_ends(s.name);
    assert(line.last() == s.name.last());
    assert(line[0] == 's');
    text::law_trimmed_text_stays(line);
    let before = "scheduler["@ + d;
    let head = before + seq![']'];
    let value = seq![' '] + s.name;
    assert(line =~= before + seq![']'] + (seq![':'] + value));
    assert(line =~= head + seq![':'] + value);
    assert(!before.contains(']'));
    assert(!head.contains(':'));
    assert(!value.contains(':'));
    assert forall|c: char| c == '-' || c == '=' || c == '\n' implies !line.contains(c) by {
        assert(!s.name.contains(c));
        assert forall|i: int| 0 <= i < line.len() implies line[i] != c by {
            if i >= 10 + d.len() + 3 {
                assert(line[i] == s.name[i - 13 - d.len()]);
            } else if 10 <= i < 10 + d.len() {
                assert(line[i] == d[i - 10]);
            }
        }
    }
    if text::occurs(line, "-"@) {
        assert("-"@[0] == '-');
        lemma_occurs_holds(line, "-"@, '-');
    }
    if text::occurs(line, "= load ="@) {
        assert("= load ="@[0] == '=');
        lemma_occurs_holds(line, "= load ="@, '=');
    }
    assert(line.subrange(0, 10) =~= "scheduler["@);
    lemma_forms(line);
    assert(line[10 + d.len() as int] == ']');
    text::lemma_position_before(before, ']', seq![':'] + value);
    assert(line.subrange(10, before.len() as int) =~= d);
    text::law_written_pair_is_read(head, ':', value);
    text::law_padding_is_irrelevant(seq![' '], s.name, seq![]);
    assert(seq![' '] + s.name + seq![] =~= value);
}

proof fn lemma_load_line(s: Scheduler)
    requires
        is_tellable(s),
    ensures
        text::trimmed(load_line(s)) == load_line(s),
        !load_line(s).contains('\n'),
        !is_header(load_line(s)),
        load_number(load_line(s)) == Some(s.load),
{
    reveal_strlit("load = ");
    reveal_strlit("load =");
    reveal_strlit("%");
    reveal_strlit("-");
    reveal_strlit("= load =");
    let line = load_line(s);
    lemma_ends(s.load);
    assert(line.last() == '%');
    assert(line[0] == 'l');
    text::law_trimmed_text_stays(line);
    assert forall|c: char| c == '-' || c == '\n' implies !line.contains(c) by {
        assert(!s.load.contains(c));
        assert forall|i: int| 0 <= i < line.len() implies line[i] != c by {
            if 7 <= i < 7 + s.load.len() {
                assert(line[i] == s.load[i - 7]);
            }
        }
    }
    assert forall|i: int| 0 <= i < line.len() && i != 5 implies line[i] != '=' by {
        if 7 <= i < 7 + s.load.len() {
            assert(s.load.contains(s.load[i - 7]));
        }
    }
    if text::occurs(line, "-"@) {
        assert("-"@[0] == '-');
        lemma_occurs_holds(line, "-"@, '-');
    }
    if text::occurs(line, "= load ="@) {
        let i = choose|i: int| text::occurs_at(line, "= load ="@, i);
        let found = line.subrange(i, i + 8);
        assert(line[i] == found[0]);
        assert(line[i + 7] == found[7]);
    }
    assert(line.subrange(0, 6) =~= "load ="@);
    lemma_forms(line);
    let name = seq!['l', 'o', 'a', 'd', ' '];
    let value = seq![' '] + s.load + "%"@;
    assert(line =~= name + seq!['='] + value);
    assert forall|i: int| 0 <= i < value.len() implies value[i] != '=' by {
        assert(value[i] == line[i + 6]);
    }
    text::law_written_pair_is_read(name, '=', value);
    let bare = seq![' '] + s.load;
    assert(value =~= bare + "%"@);
    assert forall|i: int| 0 <= i < bare.len() implies bare[i] != '%' by {
        if i > 0 {
            assert(s.load.contains(s.load[i - 1]));
        }
    }
    lemma_removed_nothing(bare);
    text::law_padding_is_irrelevant(seq![' '], s.load, seq![]);
    assert(seq![' '] + s.load + seq![] =~= bare);
}

proof fn lemma_same_start(a: Seq<Seq<char>>, b: Seq<Seq<char>>, n: nat)
    requires
        n <= a.len(),
        n <= b.len(),
        a.take(n as int) == b.take(n as int),
    ensures
        index_after(a, n) == index_after(b, n),
        label_after(a, n) == label_after(b, n),
        entries_after(a, n) == entries_after(b, n),
    decreases n,
{
    if n > 0 {
        assert(a.take(n as int)[n - 1] == a[n - 1]);
        assert(b.take(n as int)[n - 1] == b[n - 1]);
        assert(a.take(n - 1) =~= a.take(n as int).take(n - 1));
        assert(b.take(n - 1) =~= b.take(n as int).take(n - 1));
        lemma_same_start(a, b, (n - 1) as nat);
    }
}

/// The entries that the schedulers are reported as.
pub open spec fn reported(schedulers: Seq<Scheduler>) -> Seq<(Seq<char>, Seq<char>)> {
    schedulers.map_values(|s: Scheduler| (scheduler_label(s.name, s.index), s.load))
}

proof fn lemma_scheduler_lines(schedulers: Seq<Scheduler>)
    requires
        forall|i: int| 0 <= i < schedulers.len() ==> is_tellable(#[trigger] schedulers[i]),
    ensures
        entries_after(scheduler_lines(schedulers), scheduler_lines(schedulers).len()) == reported(
            schedulers,
        ),
        forall|i: int|
            0 <= i < scheduler_lines(schedulers).len() ==> text::trimmed(
                #[trigger] scheduler_lines(schedulers)[i],
            ) == scheduler_lines(schedulers)[i] && !scheduler_lines(schedulers)[i].contains('\n'),
    decreases schedulers.len(),
{
    let ls = scheduler_lines(schedulers);
    if schedulers.len() == 0 {
        assert(entries_after(ls, 0) =~= reported(schedulers));
    } else {
        let s = schedulers.last();
        let init = schedulers.drop_last();
        let before = scheduler_lines(init);
        let n = before.len();
        assert(is_tellable(schedulers[schedulers.len() - 1]));
        lemma_scheduler_lines(init);
        lemma_header_line(s);
        lemma_load_line(s);
        assert(before.take(n as int) =~= ls.take(n as int));
        lemma_same_start(before, ls, n);
        assert(ls[n as int] == header_line(s));
        assert(ls[n as int + 1] == load_line(s));
        assert(index_after(ls, n + 1) == s.index);
        assert(label_after(ls, n + 1) == scheduler_label(s.name, s.index));
        assert(label_after(ls, n + 2) == label_after(ls, n + 1));
        assert(entries_after(ls, n + 1) == entries_after(ls, n));
        assert(entries_after(ls, n + 2) == entries_after(ls, n).push(
            (scheduler_label(s.name, s.index), s.load),
        ));
        assert(reported(schedulers) =~= reported(init).push(
            (scheduler_label(s.name, s.index), s.load),
        ));
        assert forall|i: int| 0 <= i < ls.len() implies text::trimmed(#[trigger] ls[i]) == ls[i]
            && !ls[i].contains('\n') by {
            if i < n {
                assert(ls[i] == before[i]);
            }
        }
    }
}

/// The loads that a driver tells, a scheduler and its load on a line each, are
/// read back in order, each under the label of its scheduler.
pub proof fn law_told_loads_are_read(schedulers: Seq<Scheduler>)
    requires
        forall|i: int| 0 <= i < schedulers.len() ==> is_tellable(#[trigger] schedulers[i]),
    ensures
        entries_in(text::ended(scheduler_lines(schedulers))) == reported(schedulers),
{
    let ls = scheduler_lines(schedulers);
    lemma_scheduler_lines(schedulers);
    assert forall|i: int| 0 <= i < ls.len() implies !(#[trigger] ls[i]).contains('\n')
        && text::without_carriage_return(ls[i]) == ls[i] by {
        text::law_trimmed_text_has_no_outer_space(ls[i]);
    }
    text::law_written_lines_are_read(ls);
    assert(clean_lines(text::ended(ls)) =~= ls);
}

/// A version that is told behind a name and a colon is read back.
pub proof fn law_told_version_is_read(name: Seq<char>, version: Seq<char>)
    requires
        !name.contains(':'),
        !version.contains(':'),
        text::trimmed(version) == version,
    ensures
        version_of(Some(name + ": "@ + version + "\n"@)) == version,
{
    reveal_strlit(": ");
    reveal_strlit("\n");
    let value = seq![' '] + version + seq!['\n'];
    assert(name + ": "@ + version + "\n"@ =~= name + seq![':'] + value);
    assert forall|i: int| 0 <= i < value.len() implies value[i] != ':' by {
        if 0 < i <= version.len() {
            assert(version.contains(version[i - 1]));
        }
    }
    text::law_written_pair_is_read(name, ':', value);
    text::law_padding_is_irrelevant(seq![' '], version, seq!['\n']);
}

/// Every line counts as it stands on its own, without the white space around it.
pub proof fn law_lines_are_trimmed(content: Seq<char>, i: int)
    ensures
        clean_lines(content).len() == text::lines(content).len(),
        0 <= i < text::lines(content).len() ==> clean_lines(content)[i] == text::trimmed(
            text::lines(content)[i],
        ),
        entries_in(content) == entries_after(
            clean_lines(content),
            text::lines(content).len(),
        ),
{
}

/// Nothing is told before the first line.
pub proof fn law_nothing_is_told_at_first(ls: Seq<Seq<char>>)
    ensures
        index_after(ls, 0) == 0,
        label_after(ls, 0) == Seq::<char>::empty(),
        entries_after(ls, 0) == Seq::<(Seq<char>, Seq<char>)>::empty(),
{
}

/// A line with a dash in it, one with the title in it, and one that begins neither
/// as a scheduler does nor as a load does change nothing.
pub proof fn law_other_lines_change_nothing(ls: Seq<Seq<char>>, n: nat)
    requires
        n < ls.len(),
        ls[n as int].contains('-') || text::occurs(ls[n as int], "= load ="@) || !(
        text::begins_with(ls[n as int], "scheduler["@) || text::begins_with(
            ls[n as int],
            "load ="@,
        )),
    ensures
        index_after(ls, n + 1) == index_after(ls, n),
        label_after(ls, n + 1) == label_after(ls, n),
        entries_after(ls, n + 1) == entries_after(ls, n),
{
    let line = ls[n as int];
    reveal_strlit("-");
    text::lemma_single_occurs(line, "-"@);
    assert(!is_header(line));
    assert(!is_load(line));
    assert(load_number(line) is None);
}

/// A line that names a scheduler sets the index to the number between its
/// brackets, or to 0 if that is no number; without a closing bracket the index
/// stays. It tells no load.
pub proof fn law_header_sets_the_index(
    ls: Seq<Seq<char>>,
    n: nat,
    inner: Seq<char>,
    rest: Seq<char>,
)
    requires
        n < ls.len(),
        !ls[n as int].contains('-'),
        !text::occurs(ls[n as int], "= load ="@),
        forall|i: int| 0 <= i < inner.len() ==> #[trigger] inner[i] != ']',
    ensures
        ls[n as int] == "scheduler["@ + inner + seq![']'] + rest ==> index_after(ls, n + 1) == (
        match number::spelled_nat(inner) {
            Some(index) if index <= usize::MAX => index,
            _ => 0,
        }),
        ls[n as int] == "scheduler["@ + inner ==> index_after(ls, n + 1) == index_after(ls, n),
        text::begins_with(ls[n as int], "scheduler["@) ==> entries_after(ls, n + 1)
            == entries_after(ls, n),
{
    let line = ls[n as int];
    reveal_strlit("-");
    text::lemma_single_occurs(line, "-"@);
    assert(!is_decoration(line));
    reveal_strlit("scheduler[");
    let head = "scheduler["@ + inner;
    assert forall|i: int| 0 <= i < head.len() implies head[i] != ']' by {
        if i >= 10 {
            assert(head[i] == inner[i - 10]);
        }
    }
    assert(!head.contains(']'));
    lemma_forms(line);
    if line == head + seq![']'] + rest {
        assert(line.subrange(0, 10) =~= "scheduler["@);
        assert(line[head.len() as int] == ']');
        text::lemma_position_before(head, ']', rest);
        assert(line.subrange(10, head.len() as int) =~= inner);
        assert(index_after(ls, n + 1) == header_index(line));
    }
    if text::begins_with(line, "scheduler["@) {
        assert(!is_load(line));
        assert(load_number(line) is None);
    }
}

/// A line that names a scheduler sets the label to the name behind the first
/// colon, up to the second one if there is another, without the white space around
/// it, and the index; without a colon the label stays.
pub proof fn law_header_sets_the_label(
    ls: Seq<Seq<char>>,
    n: nat,
    before: Seq<char>,
    name: Seq<char>,
    rest: Seq<char>,
)
    requires
        n < ls.len(),
        text::begins_with(ls[n as int], "scheduler["@),
        !ls[n as int].contains('-'),
        !text::occurs(ls[n as int], "= load ="@),
        forall|i: int| 0 <= i < before.len() ==> #[trigger] before[i] != ':',
        forall|i: int| 0 <= i < name.len() ==> #[trigger] name[i] != ':',
    ensures
        ls[n as int] == before + seq![':'] + name || ls[n as int] == before + seq![':'] + name
            + seq![':'] + rest ==> label_after(ls, n + 1) == text::trimmed(name) + "_"@
            + number::decimal(index_after(ls, n + 1)),
        ls[n as int] == before ==> label_after(ls, n + 1) == label_after(ls, n),
{
    let line = ls[n as int];
    reveal_strlit("-");
    text::lemma_single_occurs(line, "-"@);
    assert(is_header(line));
    text::law_second_part_stands_behind_the_first(before, ':', name, rest);
}

/// A line that tells a load adds it behind those told before, as what stands
/// behind the first equals sign, up to the second one if there is another, without
/// percent signs and without the white space around it. It counts only where a
/// scheduler was named. It changes neither the index nor the label.
pub proof fn law_load_is_added(
    ls: Seq<Seq<char>>,
    n: nat,
    before: Seq<char>,
    load: Seq<char>,
    rest: Seq<char>,
)
    requires
        n < ls.len(),
        text::begins_with(ls[n as int], "load ="@),
        !ls[n as int].contains('-'),
        !text::occurs(ls[n as int], "= load ="@),
        forall|i: int| 0 <= i < before.len() ==> #[trigger] before[i] != '=',
        forall|i: int| 0 <= i < load.len() ==> #[trigger] load[i] != '=',
        ls[n as int] == before + seq!['='] + load || ls[n as int] == before + seq!['='] + load
            + seq!['='] + rest,
    ensures
        index_after(ls, n + 1) == index_after(ls, n),
        label_after(ls, n + 1) == label_after(ls, n),
        label_after(ls, n).len() > 0 ==> entries_after(ls, n + 1) == entries_after(ls, n).push(
            (label_after(ls, n), text::trimmed(text::removed(load, "%"@))),
        ),
        label_after(ls, n).len() == 0 ==> entries_after(ls, n + 1) == entries_after(ls, n),
{
    let line = ls[n as int];
    reveal_strlit("-");
    text::lemma_single_occurs(line, "-"@);
    assert(is_load(line));
    lemma_forms(line);
    assert(!is_header(line));
    text::law_second_part_stands_behind_the_first(before, '=', load, rest);
}

/// Every entry with a number is reported under its label, behind those before it,
/// and no entry without one is, whatever the other entries tell. If all have a
/// number, there are as many as entries.
pub proof fn law_every_number_is_reported<T>(
    entries: Seq<(Seq<char>, Seq<char>)>,
    loads: Seq<Option<T>>,
    n: int,
)
    requires
        0 <= n < entries.len(),
        loads.len() == entries.len(),
    ensures
        read_entries(entries.take(0), loads) == Seq::<(Seq<char>, T)>::empty(),
        read_entries(entries.take(n + 1), loads) == (match loads[n] {
            Some(load) => read_entries(entries.take(n), loads).push((entries[n].0, load)),
            None => read_entries(entries.take(n), loads),
        }),
        (forall|i: int| 0 <= i < loads.len() ==> (#[trigger] loads[i]) is Some) ==> read_entries(
            entries,
            loads,
        ).len() == entries.len() && read_entries(entries, loads)[n] == (entries[n].0, loads[n]->0),
{
    assert(entries.take(n + 1).drop_last() =~= entries.take(n));
    assert(entries.take(n + 1).last() == entries[n]);
    if forall|i: int| 0 <= i < loads.len() ==> (#[trigger] loads[i]) is Some {
        lemma_all_are_reported(entries, loads, entries.len() as int);
        assert(entries.take(entries.len() as int) =~= entries);
    }
}

proof fn lemma_all_are_reported<T>(
    entries: Seq<(Seq<char>, Seq<char>)>,
    loads: Seq<Option<T>>,
    n: int,
)
    requires
        0 <= n <= entries.len(),
        loads.len() == entries.len(),
        forall|i: int| 0 <= i < loads.len() ==> (#[trigger] loads[i]) is Some,
    ensures
        read_entries(entries.take(n), loads).len() == n,
        forall|i: int|
            0 <= i < n ==> #[trigger] read_entries(entries.take(n), loads)[i] == (
                entries[i].0,
                loads[i]->0,
            ),
    decreases n,
{
    if n > 0 {
        lemma_all_are_reported(entries, loads, n - 1);
        assert(entries.take(n).drop_last() =~= entries.take(n - 1));
        assert(entries.take(n).last() == entries[n - 1]);
        assert(loads[n - 1] is Some);
    }
}

/// Where a reader makes the same of every text, each load is what it makes of the
/// text of that very entry.
pub proof fn law_each_load_is_read_from_its_text<T, F: Fn(&str) -> Option<T>>(
    read: F,
    value: spec_fn(Seq<char>) -> Option<T>,
    entries: Seq<(Seq<char>, Seq<char>)>,
    loads: Seq<Option<T>>,
    i: int,
)
    requires
        forall|s: &str, r: Option<T>| #[trigger] call_ensures(read, (s,), r) ==> r == value(s@),
        all_read_as(read, entries, loads),
    ensures
        loads.len() == entries.len(),
        0 <= i < entries.len() ==> loads[i] == value(entries[i].1),
{
    if 0 <= i < entries.len() {
        assert(is_read_as(read, entries[i].1, loads[i]));
    }
}

/// A driver tells its version behind the first colon, up to the second one if
/// there is another, without the white space around it. Without a colon or without
/// a file it is not detected.
pub proof fn law_version_stands_behind_the_colon(
    name: Seq<char>,
    a: Seq<char>,
    version: Seq<char>,
    b: Seq<char>,
    rest: Seq<char>,
)
    requires
        forall|i: int| 0 <= i < name.len() ==> #[trigger] name[i] != ':',
        forall|i: int| 0 <= i < version.len() ==> #[trigger] version[i] != ':',
        forall|i: int| 0 <= i < a.len() ==> text::is_whitespace(#[trigger] a[i]),
        forall|i: int| 0 <= i < b.len() ==> text::is_whitespace(#[trigger] b[i]),
        version.len() > 0 ==> !text::is_whitespace(version[0]) && !text::is_whitespace(
            version[version.len() - 1],
        ),
    ensures
        version_of(Some(name + seq![':'] + (a + version + b))) == version,
        version_of(Some(name + seq![':'] + (a + version + b) + seq![':'] + rest)) == version,
        version_of(Some(name)) == "Not Detected"@,
        version_of(None) == "Not Detected"@,
{
    let value = a + version + b;
    assert forall|i: int| 0 <= i < value.len() implies #[trigger] value[i] != ':' by {
        if i < a.len() {
            assert(text::is_whitespace(a[i]));
        } else if i < a.len() + version.len() {
            assert(value[i] == version[i - a.len()]);
        } else {
            assert(value[i] == b[i - a.len() - version.len()]);
        }
    }
    text::law_second_part_stands_behind_the_first(name, ':', value, rest);
    text::law_what_stands_between_space_is_left(a, version, b);
}

/// What is told of lists of loads is what their labels and values are.
pub proof fn law_loads_hold_what_they_are_made_of<T>(
    pairs: Seq<(String, String)>,
    loads: Seq<(String, T)>,
    i: int,
)
    ensures
        pairs_of(pairs).len() == pairs.len(),
        0 <= i < pairs.len() ==> pairs_of(pairs)[i] == (pairs[i].0@, pairs[i].1@),
        loads_of(loads).len() == loads.len(),
        0 <= i < loads.len() ==> loads_of(loads)[i] == (loads[i].0@, loads[i].1),
{
}

} // verus!
