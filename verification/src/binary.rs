//! The version that a library file carries in its data.

use vstd::prelude::*;
use vstd::slice::slice_subrange;

use crate::number;
use crate::outside;
use crate::pattern;
use crate::text;

verus! {

/// A section that may hold text: `.rodata`, or any with `data` in its name.
pub open spec fn is_data_section(name: Option<Seq<char>>) -> bool {
    match name {
        Some(n) => n == ".rodata"@ || text::occurs(n, "data"@),
        None => false,
    }
}

/// Where a section ends, if its bounds are added up without a limit.
pub open spec fn section_end(section: (Option<Seq<char>>, u64, u64)) -> int {
    (section.1 as usize) + (section.2 as usize)
}

/// The end of the section is no number that an offset can be.
pub open spec fn overflows(section: (Option<Seq<char>>, u64, u64)) -> bool {
    is_data_section(section.0) && section_end(section) > usize::MAX
}

/// The sections before the first one that overflows.
pub open spec fn before_overflow(sections: Seq<(Option<Seq<char>>, u64, u64)>) -> Seq<
    (Option<Seq<char>>, u64, u64),
>
    decreases sections.len(),
{
    if sections.len() == 0 || overflows(sections[0]) {
        seq![]
    } else {
        seq![sections[0]] + before_overflow(sections.drop_first())
    }
}

/// The bounds of a section that is to be searched in a file of `len` bytes.
pub open spec fn bounds_in(section: (Option<Seq<char>>, u64, u64), len: nat) -> Option<
    (usize, usize),
> {
    if is_data_section(section.0) && section_end(section) <= len {
        Some((section.1 as usize, section_end(section) as usize))
    } else {
        None
    }
}

/// The bounds of the sections that are to be searched, in order.
pub open spec fn bounds_of(sections: Seq<(Option<Seq<char>>, u64, u64)>, len: nat) -> Seq<
    (usize, usize),
> {
    before_overflow(sections).filter_map(
        |section: (Option<Seq<char>>, u64, u64)| bounds_in(section, len),
    )
}

/// No data section overflows.
pub open spec fn all_bounded(sections: Seq<(Option<Seq<char>>, u64, u64)>) -> bool {
    forall|i: int| 0 <= i < sections.len() ==> !overflows(#[trigger] sections[i])
}

/// The text from the first occurrence of `marker` on.
pub open spec fn from_marker(s: Seq<char>, marker: Seq<char>) -> Option<Seq<char>>
    decreases s.len(),
{
    if text::begins_with(s, marker) {
        Some(s)
    } else if s.len() == 0 {
        None
    } else {
        from_marker(s.drop_first(), marker)
    }
}

/// The first version number behind the first occurrence of `marker`.
pub open spec fn version_behind(s: Seq<char>, marker: Seq<char>) -> Option<Seq<char>> {
    match from_marker(s, marker) {
        Some(rest) => outside::first_capture(pattern::version_pattern(), rest, 1),
        None => None,
    }
}

/// The bytes in these bounds.
pub open spec fn stretch(bytes: Seq<u8>, bounds: (usize, usize)) -> Seq<u8> {
    bytes.subrange(bounds.0 as int, bounds.1 as int)
}

/// The version behind the marker in a stretch of a file.
pub open spec fn version_at(bytes: Seq<u8>, bounds: (usize, usize), marker: Seq<char>) -> Option<
    Seq<char>,
> {
    version_behind(outside::utf8_lossy(stretch(bytes, bounds)), marker)
}

/// The first of these values that is there.
pub open spec fn first_some<A>(values: Seq<Option<A>>) -> Option<A>
    decreases values.len(),
{
    if values.len() == 0 {
        None
    } else if values[0] is Some {
        values[0]
    } else {
        first_some(values.drop_first())
    }
}

/// The version that the first of these stretches of a file has that has one.
pub open spec fn version_within(
    bytes: Seq<u8>,
    bounds: Seq<(usize, usize)>,
    marker: Seq<char>,
) -> Option<Seq<char>> {
    first_some(bounds.map_values(|b: (usize, usize)| version_at(bytes, b, marker)))
}

/// The sections of a file that has any.
pub open spec fn sections_in(bytes: Seq<u8>) -> Seq<(Option<Seq<char>>, u64, u64)> {
    if outside::has_elf_magic(bytes) {
        match outside::elf_sections(bytes) {
            Some(sections) => sections,
            None => seq![],
        }
    } else {
        seq![]
    }
}

/// What is told of a file when the search comes to this version. Without one it
/// is `Not Detected`, but nothing if the search came to a section that overflows.
pub open spec fn told_version(
    found: Option<Seq<char>>,
    sections: Seq<(Option<Seq<char>>, u64, u64)>,
) -> Option<Seq<char>> {
    if found is Some {
        found
    } else if all_bounded(sections) {
        Some("Not Detected"@)
    } else {
        None
    }
}

/// The version that a file with these sections carries behind `marker`.
pub open spec fn version_from(
    bytes: Seq<u8>,
    sections: Seq<(Option<Seq<char>>, u64, u64)>,
    marker: Seq<char>,
) -> Option<Seq<char>> {
    told_version(version_within(bytes, bounds_of(sections, bytes.len()), marker), sections)
}

/// The version that a file carries behind `marker`.
pub open spec fn version_in(file: Option<Seq<u8>>, marker: Seq<char>) -> Option<Seq<char>> {
    match file {
        Some(bytes) => version_from(bytes, sections_in(bytes), marker),
        None => Some("Not Detected"@),
    }
}

/// The bytes of an optional file.
pub open spec fn bytes_of(file: Option<&Vec<u8>>) -> Option<Seq<u8>> {
    match file {
        Some(bytes) => Some(bytes@),
        None => None,
    }
}

/// The bounds of the data sections that are to be searched in a file of `len`
/// bytes, in order, and whether all sections were looked at: a data section
/// that overflows ends the list.
pub fn data_bounds(sections: &Vec<(Option<String>, u64, u64)>, len: usize) -> (res: (
    Vec<(usize, usize)>,
    bool,
))
    ensures
        res.0@ == bounds_of(outside::sections_of(sections@), len as nat),
        res.1 == all_bounded(outside::sections_of(sections@)),
{
    let ghost all = outside::sections_of(sections@);
    let ghost f = |section: (Option<Seq<char>>, u64, u64)| bounds_in(section, len as nat);
    let mut res: Vec<(usize, usize)> = Vec::new();
    let mut i: usize = 0;
    assert(all.skip(0) =~= all);
    assert(all.take(0) + before_overflow(all) =~= before_overflow(all));
    while i < sections.len()
        invariant
            i <= sections@.len(),
            all == outside::sections_of(sections@),
            f == (|section: (Option<Seq<char>>, u64, u64)| bounds_in(section, len as nat)),
            before_overflow(all) == all.take(i as int) + before_overflow(all.skip(i as int)),
            res@ == all.take(i as int).filter_map(f),
            forall|j: int| 0 <= j < i ==> !overflows(#[trigger] all[j]),
        decreases sections@.len() - i,
    {
        let ghost rest = all.skip(i as int);
        let section = &sections[i];
        assert(all[i as int] == (text::text_of(section.0), section.1, section.2));
        assert(rest[0] == all[i as int]);
        let is_data: bool = match &section.0 {
            Some(name) => text::same(name.as_str(), ".rodata") || text::contains(
                name.as_str(),
                "data",
            ),
            None => false,
        };
        if is_data {
            let start: usize = section.1 as usize;
            let size: usize = section.2 as usize;
            if size > usize::MAX - start {
                assert(all.take(i as int) + before_overflow(rest) =~= all.take(i as int));
                assert(overflows(all[i as int]));
                return (res, false);
            }
            if start + size <= len {
                res.push((start, start + size));
            }
        }
        proof {
            assert(!overflows(all[i as int]));
            assert(rest.drop_first() =~= all.skip(i as int + 1));
            assert(all.take(i as int) + before_overflow(rest) =~= all.take(i as int + 1)
                + before_overflow(all.skip(i as int + 1)));
            all.lemma_filter_map_take_succ(f, i as int);
        }
        i += 1;
    }
    assert(all.take(i as int) + before_overflow(all.skip(i as int)) =~= all);
    assert(all.take(i as int) =~= all);
    (res, true)
}

/// What is searched begins with the first occurrence of the marker; without one
/// nothing is searched.
pub proof fn law_first_marker_counts(s: Seq<char>, marker: Seq<char>)
    ensures
        forall|i: int|
            #[trigger] text::first_at(s, marker, i) ==> from_marker(s, marker) == Some(s.skip(i)),
        !text::occurs(s, marker) ==> from_marker(s, marker) is None,
    decreases s.len(),
{
    if text::begins_with(s, marker) {
        assert(s.skip(0) =~= s);
        assert forall|i: int| #[trigger] text::first_at(s, marker, i) implies from_marker(s, marker)
            == Some(s.skip(i)) by {
            assert(!(0 < i) || !text::occurs_at(s, marker, 0));
        }
    } else if s.len() > 0 {
        let rest = s.drop_first();
        law_first_marker_counts(rest, marker);
        assert forall|i: int| 0 <= i implies #[trigger] text::occurs_at(rest, marker, i)
            == text::occurs_at(s, marker, i + 1) by {
            if i <= rest.len() - marker.len() {
                assert(rest.subrange(i, i + marker.len()) =~= s.subrange(
                    i + 1,
                    i + 1 + marker.len(),
                ));
            }
        }
        assert forall|i: int| #[trigger] text::first_at(s, marker, i) implies from_marker(s, marker)
            == Some(s.skip(i)) by {
            assert(i > 0);
            assert(text::occurs_at(rest, marker, i - 1));
            assert forall|j: int| 0 <= j < i - 1 implies !text::occurs_at(rest, marker, j) by {
                assert(!text::occurs_at(s, marker, j + 1));
            }
            assert(text::first_at(rest, marker, i - 1));
            assert(rest.skip(i - 1) =~= s.skip(i));
        }
        if text::occurs(rest, marker) {
            let i = choose|i: int| text::occurs_at(rest, marker, i);
            assert(text::occurs_at(s, marker, i + 1));
        }
    } else {
        assert forall|i: int| !(#[trigger] text::first_at(s, marker, i)) by {
            if text::first_at(s, marker, i) {
                assert(text::occurs_at(s, marker, 0));
            }
        }
    }
}

/// What is left of a plain text is plain.
proof fn lemma_plain_from_marker(s: Seq<char>, marker: Seq<char>)
    ensures
        pattern::is_plain(s) ==> (from_marker(s, marker) matches Some(rest) ==> pattern::is_plain(
            rest,
        )),
    decreases s.len(),
{
    if !text::begins_with(s, marker) && s.len() > 0 {
        let rest = s.drop_first();
        lemma_plain_from_marker(rest, marker);
        if pattern::is_plain(s) {
            assert forall|i: int| 0 <= i < rest.len() implies (#[trigger] rest[i]) as u32 <= 0x7f
                || rest[i] as u32 == 0xfffd by {
                assert(rest[i] == s[i + 1]);
            }
        }
    }
}

/// The text from the first occurrence of `marker` on.
pub fn text_from_marker(s: &str, marker: &str) -> (res: Option<String>)
    ensures
        text::text_of(res) == from_marker(s@, marker@),
{
    proof {
        law_first_marker_counts(s@, marker@);
    }
    match text::find(s, marker) {
        Some(i) => {
            let cs = text::to_chars(s);
            assert(cs@.subrange(i as int, cs@.len() as int) =~= s@.skip(i as int));
            Some(text::from_chars(&cs, i, cs.len()))
        },
        None => None,
    }
}

/// The first version number behind the first occurrence of `marker` in a plain
/// text.
pub open spec fn plain_version_behind(s: Seq<char>, marker: Seq<char>) -> Option<Seq<char>> {
    match from_marker(s, marker) {
        Some(rest) => pattern::first_version(rest),
        None => None,
    }
}

/// The first version number behind the first occurrence of `marker`.
pub fn find_version(s: &str, marker: &str) -> (res: Option<String>)
    ensures
        text::text_of(res) == version_behind(s@, marker@),
        pattern::is_plain(s@) ==> text::text_of(res) == plain_version_behind(s@, marker@),
        from_marker(s@, marker@) is None ==> res is None,
        from_marker(s@, marker@) matches Some(rest) ==> match res {
            Some(version) => text::occurs(rest, version@) && pattern::looks_like_version(version@),
            None => pattern::holds_no_version(rest),
        },
{
    proof {
        lemma_plain_from_marker(s@, marker@);
    }
    match text_from_marker(s, marker) {
        Some(rest) => outside::capture("(\\d+\\.\\d+\\.\\d+)", rest.as_str(), 1),
        None => None,
    }
}

/// The bytes are the UTF-8 of a plain text.
pub open spec fn holds_plain_text(bytes: Seq<u8>) -> bool {
    vstd::utf8::valid_utf8(bytes) && pattern::is_plain(vstd::utf8::decode_utf8(bytes))
}

/// The bytes in all these bounds are the UTF-8 of plain texts.
pub open spec fn all_plain(bytes: Seq<u8>, bounds: Seq<(usize, usize)>) -> bool {
    forall|i: int|
        0 <= i < bounds.len() ==> holds_plain_text(stretch(bytes, #[trigger] bounds[i]))
}

/// The version behind the marker in a stretch of plain text.
pub open spec fn plain_version_at(
    bytes: Seq<u8>,
    bounds: (usize, usize),
    marker: Seq<char>,
) -> Option<Seq<char>> {
    plain_version_behind(vstd::utf8::decode_utf8(stretch(bytes, bounds)), marker)
}

/// The version that the first of these stretches of plain text has that has one.
pub open spec fn plain_version_within(
    bytes: Seq<u8>,
    bounds: Seq<(usize, usize)>,
    marker: Seq<char>,
) -> Option<Seq<char>> {
    first_some(bounds.map_values(|b: (usize, usize)| plain_version_at(bytes, b, marker)))
}

/// All that is searched in a file with these sections is plain text.
pub open spec fn searches_plain_text(
    bytes: Seq<u8>,
    sections: Seq<(Option<Seq<char>>, u64, u64)>,
) -> bool {
    all_plain(bytes, bounds_of(sections, bytes.len()))
}

/// The version that a file with these sections carries behind `marker`, if all
/// that is searched is plain text.
pub open spec fn plain_version_from(
    bytes: Seq<u8>,
    sections: Seq<(Option<Seq<char>>, u64, u64)>,
    marker: Seq<char>,
) -> Option<Seq<char>> {
    told_version(plain_version_within(bytes, bounds_of(sections, bytes.len()), marker), sections)
}

/// The version that a file with these sections carries behind `marker`. A file
/// that carries none has `Not Detected`. There is no answer if the search comes
/// to a data section that overflows.
pub fn version_in_sections(
    bytes: &Vec<u8>,
    sections: &Vec<(Option<String>, u64, u64)>,
    marker: &str,
) -> (res: Option<String>)
    ensures
        text::text_of(res) == version_from(bytes@, outside::sections_of(sections@), marker@),
        searches_plain_text(bytes@, outside::sections_of(sections@)) ==> text::text_of(res)
            == plain_version_from(bytes@, outside::sections_of(sections@), marker@),
        res matches Some(version) ==> version@ == "Not Detected"@ || pattern::looks_like_version(version@),
{
    let ghost all = outside::sections_of(sections@);
    let len: usize = bytes.len();
    let (bounds, complete) = data_bounds(sections, len);
    let ghost plain = all_plain(bytes@, bounds@);
    let ghost found = bounds@.map_values(|b: (usize, usize)| version_at(bytes@, b, marker@));
    let ghost plain_found = bounds@.map_values(
        |b: (usize, usize)| plain_version_at(bytes@, b, marker@),
    );
    let mut i: usize = 0;
    assert(found.skip(0) =~= found);
    assert(plain_found.skip(0) =~= plain_found);
    while i < bounds.len()
        invariant
            i <= bounds@.len(),
            len == bytes@.len(),
            all == outside::sections_of(sections@),
            bounds@ == bounds_of(all, bytes@.len()),
            plain == all_plain(bytes@, bounds@),
            found == bounds@.map_values(|b: (usize, usize)| version_at(bytes@, b, marker@)),
            plain_found == bounds@.map_values(
                |b: (usize, usize)| plain_version_at(bytes@, b, marker@),
            ),
            first_some(found) == first_some(found.skip(i as int)),
            plain ==> first_some(plain_found) == first_some(plain_found.skip(i as int)),
        decreases bounds@.len() - i,
    {
        let (start, end) = bounds[i];
        proof {
            lemma_bounds(all, bytes@.len(), i as int);
            assert(found.skip(i as int).drop_first() =~= found.skip(i as int + 1));
            assert(plain_found.skip(i as int).drop_first() =~= plain_found.skip(i as int + 1));
            assert(found.skip(i as int)[0] == version_at(bytes@, bounds@[i as int], marker@));
            assert(plain_found.skip(i as int)[0] == plain_version_at(
                bytes@,
                bounds@[i as int],
                marker@,
            ));
            if plain {
                assert(holds_plain_text(stretch(bytes@, bounds@[i as int])));
            }
        }
        let decoded = outside::decode_lossy(slice_subrange(bytes.as_slice(), start, end));
        match find_version(decoded.as_str(), marker) {
            Some(version) => {
                return Some(version);
            },
            None => {},
        }
        i += 1;
    }
    if complete {
        Some("Not Detected".to_string())
    } else {
        None
    }
}

/// The version that a library file carries behind `marker`. A file that could
/// not be read, is no ELF file or carries no version has `Not Detected`. There
/// is no answer if the search comes to a data section that overflows.
pub fn extract_version_from_binary(file: Option<&Vec<u8>>, marker: &str) -> (res: Option<String>)
    ensures
        text::text_of(res) == version_in(bytes_of(file), marker@),
        file matches Some(bytes) ==> searches_plain_text(bytes@, sections_in(bytes@))
            ==> text::text_of(res) == plain_version_from(bytes@, sections_in(bytes@), marker@),
        file is None ==> text::text_of(res) == Some("Not Detected"@),
        file matches Some(bytes) ==> !outside::has_elf_magic(bytes@) ==> text::text_of(res) == Some(
            "Not Detected"@,
        ),
        res matches Some(version) ==> version@ == "Not Detected"@ || pattern::looks_like_version(version@),
{
    let bytes = match file {
        Some(bytes) => bytes,
        None => {
            return Some("Not Detected".to_string());
        },
    };
    if bytes.len() < 16 || bytes[0] != 0x7f || bytes[1] != 0x45 || bytes[2] != 0x4c || bytes[3]
        != 0x46 {
        return Some("Not Detected".to_string());
    }
    match outside::parse_elf_sections(bytes.as_slice()) {
        Some(sections) => version_in_sections(bytes, &sections, marker),
        None => Some("Not Detected".to_string()),
    }
}

/// The bounds of a section that is searched lie within the file.
proof fn lemma_bounds(sections: Seq<(Option<Seq<char>>, u64, u64)>, len: nat, i: int)
    requires
        0 <= i < bounds_of(sections, len).len(),
        len <= usize::MAX,
    ensures
        bounds_of(sections, len)[i].0 <= bounds_of(sections, len)[i].1 <= len,
{
    let f = |section: (Option<Seq<char>>, u64, u64)| bounds_in(section, len);
    before_overflow(sections).lemma_filter_map_contains(f, bounds_of(sections, len)[i]);
}

/// The version of the NPU runtime library, from its file.
pub fn get_librknnrt_version(file: Option<&Vec<u8>>) -> (res: Option<String>)
    ensures
        text::text_of(res) == version_in(bytes_of(file), "librknnrt version:"@),
        file matches Some(bytes) ==> searches_plain_text(bytes@, sections_in(bytes@))
            ==> text::text_of(res) == plain_version_from(bytes@, sections_in(bytes@), "librknnrt version:"@),
        res matches Some(version) ==> version@ == "Not Detected"@ || pattern::looks_like_version(version@),
{
    extract_version_from_binary(file, "librknnrt version:")
}

/// The version of the language model runtime library, from its file.
pub fn get_librkllmrt_version(file: Option<&Vec<u8>>) -> (res: Option<String>)
    ensures
        text::text_of(res) == version_in(bytes_of(file), "RKLLM SDK (version:"@),
        file matches Some(bytes) ==> searches_plain_text(bytes@, sections_in(bytes@))
            ==> text::text_of(res) == plain_version_from(bytes@, sections_in(bytes@), "RKLLM SDK (version:"@),
        res matches Some(version) ==> version@ == "Not Detected"@ || pattern::looks_like_version(version@),
{
    extract_version_from_binary(file, "RKLLM SDK (version:")
}

/// A version that is written behind the first occurrence of the marker is found,
/// if the marker and what stands between hold no digits and none follows.
pub proof fn law_written_version_is_found(
    lead: Seq<char>,
    marker: Seq<char>,
    gap: Seq<char>,
    major: Seq<char>,
    minor: Seq<char>,
    patch: Seq<char>,
    behind: Seq<char>,
)
    requires
        text::first_at(
            lead + marker + gap + pattern::dotted(major, minor, patch) + behind,
            marker,
            lead.len() as int,
        ),
        forall|i: int|
            0 <= i < (marker + gap).len() ==> !number::is_digit(#[trigger] (marker + gap)[i]),
        number::is_numeral(major),
        number::is_numeral(minor),
        number::is_numeral(patch),
        behind.len() > 0 ==> !number::is_digit(behind[0]),
    ensures
        plain_version_behind(
            lead + marker + gap + pattern::dotted(major, minor, patch) + behind,
            marker,
        ) == Some(pattern::dotted(major, minor, patch)),
{
    let version = pattern::dotted(major, minor, patch);
    let s = lead + marker + gap + version + behind;
    law_first_marker_counts(s, marker);
    assert(s.skip(lead.len() as int) =~= (marker + gap) + version + behind);
    pattern::law_written_version_is_found(marker + gap, major, minor, patch, behind);
}

/// A value that is there is the first one, whatever stands behind it, if none of
/// those before it is there.
pub proof fn law_first_value_decides<A>(values: Seq<Option<A>>, k: int)
    requires
        0 <= k < values.len(),
        values[k] is Some,
        forall|i: int| 0 <= i < k ==> (#[trigger] values[i]) is None,
    ensures
        first_some(values) == values[k],
    decreases k,
{
    if k > 0 {
        let rest = values.drop_first();
        assert(values[0] is None);
        assert forall|i: int| 0 <= i < k - 1 implies (#[trigger] rest[i]) is None by {
            assert(rest[i] == values[i + 1]);
        }
        law_first_value_decides(rest, k - 1);
    }
}

/// There is no first value only if none is there.
pub proof fn law_no_value_is_found_among_none<A>(values: Seq<Option<A>>)
    ensures
        first_some(values) is None == forall|i: int|
            0 <= i < values.len() ==> (#[trigger] values[i]) is None,
    decreases values.len(),
{
    if values.len() > 0 && values[0] is None {
        let rest = values.drop_first();
        law_no_value_is_found_among_none(rest);
        if first_some(rest) is None {
            assert forall|i: int| 0 <= i < values.len() implies (#[trigger] values[i]) is None by {
                if i > 0 {
                    assert(values[i] == rest[i - 1]);
                }
            }
        } else {
            let i = choose|i: int| 0 <= i < rest.len() && (#[trigger] rest[i]) is Some;
            assert(values[i + 1] is Some);
        }
    } else if values.len() > 0 {
        assert(values[0] is Some);
    }
}

/// A section holds data exactly if `data` stands anywhere in its name; one without
/// a name holds none.
pub proof fn law_which_sections_hold_data(name: Seq<char>)
    ensures
        is_data_section(Some(name)) == exists|a: Seq<char>, b: Seq<char>| name == #[trigger] (a
            + "data"@ + b),
        !is_data_section(None),
{
    text::law_what_occurs_is_part_of_the_text(name, "data"@);
    lemma_read_only_data_is_data();
}

proof fn lemma_read_only_data_is_data()
    ensures
        text::occurs(".rodata"@, "data"@),
{
    reveal_strlit(".rodata");
    reveal_strlit("data");
    assert(".rodata"@.subrange(3, 7) =~= "data"@);
    assert(text::occurs_at(".rodata"@, "data"@, 3));
}

/// Every data section that lies within the file is searched whole, from its offset
/// to its offset plus its size, in the order of the sections. One that ends beyond
/// the file, and one without data, is passed over. One whose end is no number that
/// an offset can be ends the search.
pub proof fn law_data_sections_are_searched_whole(
    name: Option<Seq<char>>,
    offset: u64,
    size: u64,
    rest: Seq<(Option<Seq<char>>, u64, u64)>,
    len: nat,
)
    requires
        offset <= usize::MAX,
        size <= usize::MAX,
        len <= usize::MAX,
    ensures
        bounds_of(Seq::<(Option<Seq<char>>, u64, u64)>::empty(), len) == Seq::<
            (usize, usize),
        >::empty(),
        all_bounded(Seq::<(Option<Seq<char>>, u64, u64)>::empty()),
        is_data_section(name) && offset + size <= len ==> bounds_of(
            seq![(name, offset, size)] + rest,
            len,
        ) == seq![(offset as usize, (offset + size) as usize)] + bounds_of(rest, len),
        !is_data_section(name) || len < offset + size <= usize::MAX ==> bounds_of(
            seq![(name, offset, size)] + rest,
            len,
        ) == bounds_of(rest, len),
        !is_data_section(name) || offset + size <= usize::MAX ==> all_bounded(
            seq![(name, offset, size)] + rest,
        ) == all_bounded(rest),
        is_data_section(name) && offset + size > usize::MAX ==> bounds_of(
            seq![(name, offset, size)] + rest,
            len,
        ) == Seq::<(usize, usize)>::empty() && !all_bounded(seq![(name, offset, size)] + rest),
{
    let section = (name, offset, size);
    let sections = seq![section] + rest;
    let none: Seq<(Option<Seq<char>>, u64, u64)> = seq![];
    let f = |s: (Option<Seq<char>>, u64, u64)| bounds_in(s, len);
    reveal(Seq::filter_map);
    assert(none =~= Seq::<(Option<Seq<char>>, u64, u64)>::empty());
    assert(before_overflow(none) =~= none);
    assert(none.filter_map(f) =~= Seq::<(usize, usize)>::empty());
    assert(sections[0] == section);
    assert(sections.drop_first() =~= rest);
    text::lemma_filter_map_first(f, section, before_overflow(rest));
    assert(section_end(section) == offset + size);
    if overflows(section) {
        assert(!all_bounded(sections));
    } else {
        assert(before_overflow(sections) == seq![section] + before_overflow(rest));
        if all_bounded(rest) {
            assert forall|i: int| 0 <= i < sections.len() implies !overflows(
                #[trigger] sections[i],
            ) by {
                if i > 0 {
                    assert(sections[i] == rest[i - 1]);
                }
            }
        }
        if all_bounded(sections) {
            assert forall|i: int| 0 <= i < rest.len() implies !overflows(#[trigger] rest[i]) by {
                assert(sections[i + 1] == rest[i]);
            }
        }
        if bounds_in(section, len) is None {
            assert(bounds_of(sections, len) =~= bounds_of(rest, len));
        }
    }
}

/// A data section within the file that has a version behind the marker anywhere in
/// it decides, whatever the sections behind it are; if it has none, the sections
/// behind it decide.
pub proof fn law_section_with_a_version_decides(
    bytes: Seq<u8>,
    name: Seq<char>,
    offset: u64,
    size: u64,
    rest: Seq<(Option<Seq<char>>, u64, u64)>,
    marker: Seq<char>,
)
    requires
        bytes.len() <= usize::MAX,
        is_data_section(Some(name)),
        offset + size <= bytes.len(),
    ensures
        match version_behind(
            outside::utf8_lossy(bytes.subrange(offset as int, offset + size)),
            marker,
        ) {
            Some(version) => version_from(bytes, seq![(Some(name), offset, size)] + rest, marker)
                == Some(version),
            None => version_from(bytes, seq![(Some(name), offset, size)] + rest, marker)
                == version_from(bytes, rest, marker),
        },
        match plain_version_behind(
            vstd::utf8::decode_utf8(bytes.subrange(offset as int, offset + size)),
            marker,
        ) {
            Some(version) => plain_version_from(
                bytes,
                seq![(Some(name), offset, size)] + rest,
                marker,
            ) == Some(version),
            None => plain_version_from(bytes, seq![(Some(name), offset, size)] + rest, marker)
                == plain_version_from(bytes, rest, marker),
        },
{
    let sections = seq![(Some(name), offset, size)] + rest;
    law_data_sections_are_searched_whole(Some(name), offset, size, rest, bytes.len());
    let b = (offset as usize, (offset + size) as usize);
    let others = bounds_of(rest, bytes.len());
    let f = |b: (usize, usize)| version_at(bytes, b, marker);
    let g = |b: (usize, usize)| plain_version_at(bytes, b, marker);
    let found = bounds_of(sections, bytes.len()).map_values(f);
    let plain = bounds_of(sections, bytes.len()).map_values(g);
    assert(found[0] == version_at(bytes, b, marker));
    assert(plain[0] == plain_version_at(bytes, b, marker));
    assert(found.drop_first() =~= others.map_values(f));
    assert(plain.drop_first() =~= others.map_values(g));
}

/// A section that holds no data, and one that ends beyond the file, makes no
/// difference to the version. Without sections none is detected, and behind a data
/// section whose end is no offset nothing is told.
pub proof fn law_other_sections_make_no_difference(
    bytes: Seq<u8>,
    name: Option<Seq<char>>,
    offset: u64,
    size: u64,
    rest: Seq<(Option<Seq<char>>, u64, u64)>,
    marker: Seq<char>,
)
    requires
        bytes.len() <= usize::MAX,
        offset <= usize::MAX,
        size <= usize::MAX,
    ensures
        !is_data_section(name) || bytes.len() < offset + size <= usize::MAX ==> version_from(
            bytes,
            seq![(name, offset, size)] + rest,
            marker,
        ) == version_from(bytes, rest, marker) && plain_version_from(
            bytes,
            seq![(name, offset, size)] + rest,
            marker,
        ) == plain_version_from(bytes, rest, marker),
        is_data_section(name) && offset + size > usize::MAX ==> version_from(
            bytes,
            seq![(name, offset, size)] + rest,
            marker,
        ) is None,
        version_from(bytes, Seq::<(Option<Seq<char>>, u64, u64)>::empty(), marker) == Some(
            "Not Detected"@,
        ),
        plain_version_from(bytes, Seq::<(Option<Seq<char>>, u64, u64)>::empty(), marker) == Some(
            "Not Detected"@,
        ),
{
    law_data_sections_are_searched_whole(name, offset, size, rest, bytes.len());
    let none = Seq::<(usize, usize)>::empty();
    let f = |b: (usize, usize)| version_at(bytes, b, marker);
    let g = |b: (usize, usize)| plain_version_at(bytes, b, marker);
    assert(none.map_values(f) =~= seq![]);
    assert(none.map_values(g) =~= seq![]);
}

/// The version is what the pattern takes from the text behind the first marker; in
/// a text without the marker there is none.
pub proof fn law_version_is_taken_from_behind_the_marker(
    a: Seq<char>,
    marker: Seq<char>,
    b: Seq<char>,
    without: Seq<char>,
)
    requires
        text::first_at(a + marker + b, marker, a.len() as int),
        !text::occurs(without, marker),
    ensures
        from_marker(a + marker + b, marker) == Some(marker + b),
        from_marker(without, marker) is None,
        version_behind(a + marker + b, marker) == outside::first_capture(
            "(\\d+\\.\\d+\\.\\d+)"@,
            marker + b,
            1,
        ),
        plain_version_behind(a + marker + b, marker) == pattern::first_version(marker + b),
        version_behind(without, marker) is None,
        plain_version_behind(without, marker) is None,
{
    let s = a + marker + b;
    law_first_marker_counts(s, marker);
    law_first_marker_counts(without, marker);
    assert(s.skip(a.len() as int) =~= marker + b);
}

/// A file that begins with the magic of ELF and is long enough has the sections
/// that the parser finds; any other file has none. A file that could not be read
/// has no version that is detected.
pub proof fn law_sections_are_those_of_elf_files(bytes: Seq<u8>, marker: Seq<char>)
    ensures
        outside::has_elf_magic(bytes) == (bytes.len() >= 16 && bytes.take(4) == seq![
            0x7fu8,
            0x45u8,
            0x4cu8,
            0x46u8,
        ]),
        outside::has_elf_magic(bytes) ==> (outside::elf_sections(bytes) matches Some(sections)
            ==> version_in(Some(bytes), marker) == version_from(bytes, sections, marker)),
        outside::has_elf_magic(bytes) && outside::elf_sections(bytes) is None || !outside::has_elf_magic(
            bytes,
        ) ==> version_in(Some(bytes), marker) == Some("Not Detected"@) && sections_in(bytes)
            == Seq::<(Option<Seq<char>>, u64, u64)>::empty(),
        outside::has_elf_magic(bytes) ==> (outside::elf_sections(bytes) matches Some(sections)
            ==> sections_in(bytes) == sections),
        version_in(None, marker) == Some("Not Detected"@),
        bytes_of(None) == None::<Seq<u8>>,
{
    let magic = seq![0x7fu8, 0x45u8, 0x4cu8, 0x46u8];
    if outside::has_elf_magic(bytes) {
        assert(bytes.take(4) =~= magic);
    }
    if bytes.len() >= 16 && bytes.take(4) == magic {
        assert(bytes[0] == bytes.take(4)[0] && bytes[1] == bytes.take(4)[1] && bytes[2]
            == bytes.take(4)[2] && bytes[3] == bytes.take(4)[3]);
    }
    let none = Seq::<(usize, usize)>::empty();
    let f = |b: (usize, usize)| version_at(bytes, b, marker);
    assert(none.map_values(f) =~= seq![]);
    lemma_no_sections_no_bounds(bytes.len());
}

proof fn lemma_no_sections_no_bounds(len: nat)
    ensures
        bounds_of(Seq::<(Option<Seq<char>>, u64, u64)>::empty(), len) == Seq::<
            (usize, usize),
        >::empty(),
{
    reveal(Seq::filter_map);
    assert(bounds_of(Seq::<(Option<Seq<char>>, u64, u64)>::empty(), len) =~= Seq::<
        (usize, usize),
    >::empty());
}

/// What is told of a list of sections is what it is made of, and the bytes of a
/// file are its bytes.
pub proof fn law_sections_hold_what_they_are_made_of(
    sections: Seq<(Option<String>, u64, u64)>,
    file: &Vec<u8>,
    bounds: Seq<(usize, usize)>,
    table: Seq<(Option<Seq<char>>, u64, u64)>,
    i: int,
)
    ensures
        searches_plain_text(file@, table) == all_plain(file@, bounds_of(table, file@.len())),
        outside::sections_of(sections).len() == sections.len(),
        0 <= i < sections.len() ==> outside::sections_of(sections)[i] == (
            text::text_of(sections[i].0),
            sections[i].1,
            sections[i].2,
        ),
        bytes_of(Some(file)) == Some(file@),
        all_plain(file@, bounds) == !exists|k: int|
            0 <= k < bounds.len() && !holds_plain_text(
                file@.subrange((#[trigger] bounds[k]).0 as int, bounds[k].1 as int),
            ),
        holds_plain_text(file@) == (vstd::utf8::valid_utf8(file@) && pattern::is_plain(
            vstd::utf8::decode_utf8(file@),
        )),
{
}

} // verus!
