//! The space on the mounted file systems.

use vstd::prelude::*;

use crate::text;

verus! {

/// What a file system tells of its space.
#[derive(Clone, Copy, Debug)]
pub struct FsStat {
    /// The size of a block in bytes.
    pub block_size: u64,
    /// How many blocks there are.
    pub blocks: u64,
    /// How many of them are free.
    pub blocks_free: u64,
}

/// A type of file system that takes no space on a disk.
pub open spec fn is_virtual_fs(fs_type: Seq<char>) -> bool {
    ||| fs_type == "tmpfs"@
    ||| fs_type == "devtmpfs"@
    ||| fs_type == "proc"@
    ||| fs_type == "sysfs"@
    ||| fs_type == "devpts"@
    ||| fs_type == "cgroup"@
    ||| fs_type == "cgroup2"@
    ||| fs_type == "securityfs"@
    ||| fs_type == "debugfs"@
    ||| fs_type == "tracefs"@
    ||| fs_type == "pstore"@
    ||| fs_type == "bpf"@
    ||| fs_type == "configfs"@
    ||| fs_type == "hugetlbfs"@
    ||| fs_type == "mqueue"@
}

/// Where the file system of a line of the mount table is mounted, if it is one
/// that counts: the second word, the third one being its type.
pub open spec fn mount_point(line: Seq<char>) -> Option<Seq<char>> {
    let w = text::words(line);
    if w.len() >= 3 && !is_virtual_fs(w[2]) {
        Some(w[1])
    } else {
        None
    }
}

/// Where the file systems that count are mounted, in the order of the table.
pub open spec fn mount_points(table: Seq<char>) -> Seq<Seq<char>> {
    text::lines(table).filter_map(|line: Seq<char>| mount_point(line))
}

/// The space of a file system in bytes.
pub open spec fn space(stat: FsStat) -> int {
    stat.block_size * stat.blocks
}

/// The used space of a file system in bytes.
pub open spec fn used_space(stat: FsStat) -> int {
    stat.block_size * (stat.blocks - stat.blocks_free)
}

/// The space of all file systems of which something is known.
pub open spec fn total_space(stats: Seq<Option<FsStat>>) -> int
    decreases stats.len(),
{
    if stats.len() == 0 {
        0
    } else {
        total_space(stats.drop_last()) + match stats.last() {
            Some(stat) => space(stat),
            None => 0,
        }
    }
}

/// The used space of all file systems of which something is known.
pub open spec fn total_used_space(stats: Seq<Option<FsStat>>) -> int
    decreases stats.len(),
{
    if stats.len() == 0 {
        0
    } else {
        total_used_space(stats.drop_last()) + match stats.last() {
            Some(stat) => used_space(stat),
            None => 0,
        }
    }
}

/// No file system has more free blocks than blocks, and all the space together
/// is a number of 64 bits.
pub open spec fn can_be_added_up(stats: Seq<Option<FsStat>>) -> bool {
    &&& forall|i: int|
        0 <= i < stats.len() ==> ((#[trigger] stats[i]) matches Some(stat) ==> stat.blocks_free
            <= stat.blocks)
    &&& total_space(stats) <= u64::MAX
}

/// Whether the file system takes no space on a disk.
pub fn is_virtual_fs_type(fs_type: &str) -> (res: bool)
    ensures
        res == is_virtual_fs(fs_type@),
{
    text::same(fs_type, "tmpfs") || text::same(fs_type, "devtmpfs") || text::same(fs_type, "proc")
        || text::same(fs_type, "sysfs") || text::same(fs_type, "devpts") || text::same(
        fs_type,
        "cgroup",
    ) || text::same(fs_type, "cgroup2") || text::same(fs_type, "securityfs") || text::same(
        fs_type,
        "debugfs",
    ) || text::same(fs_type, "tracefs") || text::same(fs_type, "pstore") || text::same(
        fs_type,
        "bpf",
    ) || text::same(fs_type, "configfs") || text::same(fs_type, "hugetlbfs") || text::same(
        fs_type,
        "mqueue",
    )
}

/// Where the file systems that count are mounted, from the mount table.
pub fn disk_mount_points(table: &str) -> (res: Vec<String>)
    ensures
        text::texts(res@) == mount_points(table@),
{
    let lines = text::split_lines(table);
    let ghost all = text::lines(table@);
    let ghost f = |line: Seq<char>| mount_point(line);
    assert(all.len() == lines@.len());
    let mut res: Vec<String> = Vec::new();
    let mut i: usize = 0;
    while i < lines.len()
        invariant
            i <= lines@.len(),
            all == text::texts(lines@),
            f == (|line: Seq<char>| mount_point(line)),
            text::texts(res@) == all.take(i as int).filter_map(f),
        decreases lines@.len() - i,
    {
        proof {
            all.lemma_filter_map_take_succ(f, i as int);
            assert(all[i as int] == lines@[i as int]@);
        }
        let words = text::split_words(lines[i].as_str());
        let ghost w = text::words(all[i as int]);
        assert(w.len() == words@.len());
        if words.len() >= 3 {
            assert(w[1] == words@[1]@);
            assert(w[2] == words@[2]@);
            if !is_virtual_fs_type(words[2].as_str()) {
                let point = words[1].clone();
                proof {
                    text::lemma_texts_push(res@, point);
                }
                res.push(point);
            }
        }
        i += 1;
    }
    assert(all.take(i as int) =~= all);
    res
}

proof fn lemma_totals(stats: Seq<Option<FsStat>>, i: int)
    requires
        0 <= i <= stats.len(),
    ensures
        0 <= total_space(stats.take(i)) <= total_space(stats),
        i < stats.len() ==> total_space(stats.take(i + 1)) == total_space(stats.take(i)) + (
        match stats[i] {
            Some(stat) => space(stat),
            None => 0,
        }) && total_used_space(stats.take(i + 1)) == total_used_space(stats.take(i)) + (
        match stats[i] {
            Some(stat) => used_space(stat),
            None => 0,
        }),
        (forall|k: int|
            0 <= k < stats.len() ==> ((#[trigger] stats[k]) matches Some(stat) ==> stat.blocks_free
                <= stat.blocks)) ==> 0 <= total_used_space(stats.take(i)) <= total_space(
            stats.take(i),
        ),
    decreases stats.len() - i,
{
    lemma_totals_of_prefix(stats, i);
    if i == stats.len() {
        assert(stats.take(i) =~= stats);
    } else {
        assert(stats.take(i + 1).drop_last() =~= stats.take(i));
        lemma_totals(stats, i + 1);
        if let Some(stat) = stats[i] {
            lemma_space(stat);
        }
    }
}

proof fn lemma_totals_of_prefix(stats: Seq<Option<FsStat>>, i: int)
    requires
        0 <= i <= stats.len(),
    ensures
        0 <= total_space(stats.take(i)),
        (forall|k: int|
            0 <= k < stats.len() ==> ((#[trigger] stats[k]) matches Some(stat) ==> stat.blocks_free
                <= stat.blocks)) ==> 0 <= total_used_space(stats.take(i)) <= total_space(
            stats.take(i),
        ),
    decreases i,
{
    if i > 0 {
        assert(stats.take(i).drop_last() =~= stats.take(i - 1));
        lemma_totals_of_prefix(stats, i - 1);
        if let Some(stat) = stats[i - 1] {
            lemma_space(stat);
        }
    }
}

proof fn lemma_space(stat: FsStat)
    ensures
        0 <= space(stat),
        stat.blocks_free <= stat.blocks ==> 0 <= used_space(stat) <= space(stat),
{
    let (size, blocks, free) = (stat.block_size, stat.blocks, stat.blocks_free);
    assert(0 <= size * blocks) by (nonlinear_arith);
    if free <= blocks {
        assert(0 <= size * (blocks - free) <= size * blocks) by (nonlinear_arith)
            requires
                free <= blocks,
        ;
    }
}

/// Whether the space of the file systems can be added up.
pub fn disk_space_adds_up(stats: &Vec<Option<FsStat>>) -> (res: bool)
    ensures
        res == can_be_added_up(stats@),
{
    let mut size: u64 = 0;
    let mut i: usize = 0;
    while i < stats.len()
        invariant
            i <= stats@.len(),
            size == total_space(stats@.take(i as int)),
            forall|k: int|
                0 <= k < i ==> ((#[trigger] stats@[k]) matches Some(stat) ==> stat.blocks_free
                    <= stat.blocks),
        decreases stats@.len() - i,
    {
        proof {
            lemma_totals(stats@, i as int);
            lemma_totals(stats@, i as int + 1);
        }
        if let Some(stat) = stats[i] {
            if stat.blocks_free > stat.blocks {
                return false;
            }
            let (block_size, blocks) = (stat.block_size, stat.blocks);
            proof {
                assert(block_size * blocks <= u64::MAX * u64::MAX) by (nonlinear_arith)
                    requires
                        block_size <= u64::MAX,
                        blocks <= u64::MAX,
                ;
            }
            let sum: u128 = size as u128 + block_size as u128 * blocks as u128;
            if sum > u64::MAX as u128 {
                return false;
            }
            size = sum as u64;
        }
        i += 1;
    }
    assert(stats@.take(i as int) =~= stats@);
    true
}

/// The used and the whole space of the mounted file systems in bytes, from what
/// each of them tells; none if there is no space at all. A file system that
/// tells nothing does not count.
pub fn get_disk_total(stats: &Vec<Option<FsStat>>) -> (res: Option<(u64, u64)>)
    requires
        can_be_added_up(stats@),
    ensures
        match res {
            Some((used, size)) => size > 0 && size == total_space(stats@) && used
                == total_used_space(stats@),
            None => total_space(stats@) == 0,
        },
{
    let mut size: u64 = 0;
    let mut used: u64 = 0;
    let mut i: usize = 0;
    while i < stats.len()
        invariant
            i <= stats@.len(),
            can_be_added_up(stats@),
            size == total_space(stats@.take(i as int)),
            used == total_used_space(stats@.take(i as int)),
        decreases stats@.len() - i,
    {
        proof {
            lemma_totals(stats@, i as int);
            lemma_totals(stats@, i as int + 1);
        }
        if let Some(stat) = stats[i] {
            proof {
                assert(stats@[i as int] is Some);
                lemma_space(stat);
            }
            size = size + stat.block_size * stat.blocks;
            used = used + stat.block_size * (stat.blocks - stat.blocks_free);
        }
        i += 1;
    }
    assert(stats@.take(i as int) =~= stats@);
    if size > 0 {
        Some((used, size))
    } else {
        None
    }
}

/// No more space is used than there is.
pub proof fn law_used_space_is_within_the_whole(stats: Seq<Option<FsStat>>)
    requires
        can_be_added_up(stats),
    ensures
        0 <= total_used_space(stats) <= total_space(stats),
{
    lemma_totals_of_prefix(stats, stats.len() as int);
    assert(stats.take(stats.len() as int) =~= stats);
}

/// A line of the mount table that tells what is mounted, where, and the type of
/// the file system, gives the place, unless the type is one that does not
/// count.
pub proof fn law_mount_line_is_read(
    device: Seq<char>,
    point: Seq<char>,
    fs_type: Seq<char>,
    options: Seq<Seq<char>>,
)
    requires
        text::is_word(device),
        text::is_word(point),
        text::is_word(fs_type),
        forall|i: int| 0 <= i < options.len() ==> text::is_word(#[trigger] options[i]),
    ensures
        mount_point(text::spaced(seq![device, point, fs_type] + options)) == (if is_virtual_fs(
            fs_type,
        ) {
            None
        } else {
            Some(point)
        }),
{
    let w = seq![device, point, fs_type] + options;
    assert forall|i: int| 0 <= i < w.len() implies text::is_word(#[trigger] w[i]) by {
        if i >= 3 {
            assert(w[i] == options[i - 3]);
        }
    }
    text::law_written_words_are_read(w);
}

/// Exactly these types of file systems take no space on a disk.
pub proof fn law_which_file_systems_are_virtual(fs_type: Seq<char>)
    ensures
        is_virtual_fs(fs_type) == seq![
            "tmpfs"@,
            "devtmpfs"@,
            "proc"@,
            "sysfs"@,
            "devpts"@,
            "cgroup"@,
            "cgroup2"@,
            "securityfs"@,
            "debugfs"@,
            "tracefs"@,
            "pstore"@,
            "bpf"@,
            "configfs"@,
            "hugetlbfs"@,
            "mqueue"@,
        ].contains(fs_type),
{
    let types = seq![
        "tmpfs"@,
        "devtmpfs"@,
        "proc"@,
        "sysfs"@,
        "devpts"@,
        "cgroup"@,
        "cgroup2"@,
        "securityfs"@,
        "debugfs"@,
        "tracefs"@,
        "pstore"@,
        "bpf"@,
        "configfs"@,
        "hugetlbfs"@,
        "mqueue"@,
    ];
    assert(types[0] == "tmpfs"@ && types[1] == "devtmpfs"@ && types[2] == "proc"@ && types[3]
        == "sysfs"@ && types[4] == "devpts"@);
    assert(types[5] == "cgroup"@ && types[6] == "cgroup2"@ && types[7] == "securityfs"@ && types[8]
        == "debugfs"@ && types[9] == "tracefs"@);
    assert(types[10] == "pstore"@ && types[11] == "bpf"@ && types[12] == "configfs"@ && types[13]
        == "hugetlbfs"@ && types[14] == "mqueue"@);
}

/// A line with three words or more, white space between them, tells that the
/// second one is the place where a file system of the type of the third one is
/// mounted. It counts unless the type is virtual.
pub proof fn law_second_word_is_the_place(
    a: Seq<char>,
    device: Seq<char>,
    b: Seq<char>,
    point: Seq<char>,
    c: Seq<char>,
    fs_type: Seq<char>,
    rest: Seq<char>,
)
    requires
        text::is_blank(a) && text::is_blank(b) && text::is_blank(c),
        b.len() > 0 && c.len() > 0,
        text::is_word(device) && text::is_word(point) && text::is_word(fs_type),
        rest.len() > 0 ==> text::is_whitespace(rest[0]),
    ensures
        mount_point(a + device + b + point + c + fs_type + rest) == (if is_virtual_fs(fs_type) {
            None
        } else {
            Some(point)
        }),
{
    let third = c + fs_type + rest;
    let second = b + point + third;
    assert(a + device + b + point + c + fs_type + rest =~= a + device + second);
    assert(second[0] == b[0]);
    assert(third[0] == c[0]);
    text::law_words_stand_between_space(a, device, second);
    text::law_words_stand_between_space(b, point, third);
    text::law_words_stand_between_space(c, fs_type, rest);
    let w = text::words(a + device + second);
    assert(w =~= seq![device, point, fs_type] + text::words(rest));
}

/// A line with fewer than three words tells nothing.
pub proof fn law_short_lines_tell_nothing(line: Seq<char>)
    requires
        text::words(line).len() < 3,
    ensures
        mount_point(line) == None::<Seq<char>>,
{
}

/// Every line of the table that tells a place gives it, in the order of the
/// lines, whatever the other lines tell.
pub proof fn law_every_line_gives_its_place(line: Seq<char>, rest: Seq<char>)
    requires
        forall|i: int| 0 <= i < line.len() ==> #[trigger] line[i] != '\n',
        line.len() > 0 ==> line[line.len() - 1] != '\r',
    ensures
        mount_points(line + seq!['\r', '\n'] + rest) == mount_points(line + seq!['\n'] + rest),
        mount_points(line + seq!['\n'] + rest) == (match mount_point(line) {
            Some(point) => seq![point],
            None => Seq::<Seq<char>>::empty(),
        }) + mount_points(rest),
        line.len() > 0 ==> mount_points(line) == (match mount_point(line) {
            Some(point) => seq![point],
            None => Seq::<Seq<char>>::empty(),
        }),
        mount_points(Seq::<char>::empty()) == Seq::<Seq<char>>::empty(),
{
    let f = |l: Seq<char>| mount_point(l);
    let none: Seq<Seq<char>> = seq![];
    let empty: Seq<char> = seq![];
    let returned = line.push('\r');
    assert(line + seq!['\r', '\n'] + rest =~= returned + seq!['\n'] + rest);
    assert(returned.drop_last() =~= line);
    text::law_lines_are_cut_at_each_line_feed(returned, rest);
    text::law_lines_are_cut_at_each_line_feed(line, rest);
    text::law_lines_are_cut_at_each_line_feed(empty, rest);
    text::lemma_filter_map_first(f, line, text::lines(rest));
    text::lemma_filter_map_first(f, line, none);
    reveal(Seq::filter_map);
    assert(none.filter_map(f) =~= none);
    assert(seq![line] + none =~= seq![line]);
    assert(empty =~= Seq::<char>::empty());
}

/// The space of some file systems and of others together is the sum of both; one
/// has as many bytes as its blocks have together, of which those of the blocks
/// that are not free are used; one that tells nothing adds nothing.
pub proof fn law_space_adds_up(
    stats: Seq<Option<FsStat>>,
    others: Seq<Option<FsStat>>,
    stat: FsStat,
)
    ensures
        total_space(stats + others) == total_space(stats) + total_space(others),
        total_used_space(stats + others) == total_used_space(stats) + total_used_space(others),
        total_space(seq![Some(stat)]) == stat.block_size * stat.blocks,
        total_used_space(seq![Some(stat)]) == stat.block_size * (stat.blocks - stat.blocks_free),
        total_space(seq![None]) == 0,
        total_used_space(seq![None]) == 0,
        total_space(Seq::<Option<FsStat>>::empty()) == 0,
        total_used_space(Seq::<Option<FsStat>>::empty()) == 0,
    decreases others.len(),
{
    let none: Seq<Option<FsStat>> = seq![];
    assert(none =~= Seq::<Option<FsStat>>::empty());
    assert(total_space(none) == 0 && total_used_space(none) == 0);
    let one = seq![Some(stat)];
    assert(one.drop_last() =~= none);
    assert(one.last() == Some(stat));
    let unknown: Seq<Option<FsStat>> = seq![None];
    assert(unknown.drop_last() =~= none);
    if others.len() == 0 {
        assert(stats + others =~= stats);
    } else {
        assert((stats + others).drop_last() =~= stats + others.drop_last());
        assert((stats + others).last() == others.last());
        law_space_adds_up(stats, others.drop_last(), stat);
    }
}

/// The space can be added up exactly if every file system has its free blocks
/// among its blocks and the sum is below two to the power of 64.
pub proof fn law_when_space_can_be_added_up(stats: Seq<Option<FsStat>>)
    ensures
        can_be_added_up(stats) == (total_space(stats) < 0x1_0000_0000_0000_0000 && !exists|
            i: int,
        |
            0 <= i < stats.len() && ((#[trigger] stats[i]) matches Some(stat) && stat.blocks
                < stat.blocks_free)),
{
}

} // verus!
