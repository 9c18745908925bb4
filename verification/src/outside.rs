//! The functions of other crates and of the standard library that the readings
//! rest on. What is claimed of them here is not proved.

use vstd::prelude::*;

use crate::pattern;
use crate::text;

verus! {

/// `String::push` appends one character to the end of the string.
pub assume_specification[ String::push ](s: &mut String, c: char)
    ensures
        final(s)@ == old(s)@.push(c),
;

/// The text that `String::from_utf8_lossy` makes of some bytes.
pub uninterp spec fn utf8_lossy(bytes: Seq<u8>) -> Seq<char>;

/// `String::from_utf8_lossy` decodes UTF-8 and puts U+FFFD in the place of what
/// is none. Valid UTF-8 is decoded as it stands; which stretches of other bytes
/// become one U+FFFD is not stated, only that it is a function of the bytes.
#[verifier::external_body]
pub(crate) fn decode_lossy(bytes: &[u8]) -> (res: String)
    ensures
        res@ == utf8_lossy(bytes@),
        vstd::utf8::valid_utf8(bytes@) ==> res@ == vstd::utf8::decode_utf8(bytes@),
{
    String::from_utf8_lossy(bytes).into_owned()
}

/// The text that `str::to_uppercase` makes of a text.
pub uninterp spec fn uppercased(s: Seq<char>) -> Seq<char>;

/// An ASCII small letter as its capital letter, any other character as it is.
pub open spec fn upper(c: char) -> char {
    if 'a' <= c <= 'z' {
        (c as u32 - 32) as char
    } else {
        c
    }
}

/// `str::to_uppercase` gives the uppercase equivalent of a text. For a text in
/// ASCII it maps the letters one by one; for any other text it is only stated
/// that the result is a function of the text.
#[verifier::external_body]
pub(crate) fn to_uppercase(s: &str) -> (res: String)
    ensures
        res@ == uppercased(s@),
        vstd::utf8::is_ascii_chars(s@) ==> res@ == s@.map_values(|c: char| upper(c)),
{
    s.to_uppercase()
}

/// The text of a group in the first match of a pattern.
pub uninterp spec fn first_capture(pattern: Seq<char>, haystack: Seq<char>, group: nat) -> Option<
    Seq<char>,
>;

/// `Regex::new` compiles the pattern, and `Regex::captures` finds its leftmost
/// match in the haystack and tells the text of each group. In a plain
/// haystack the group is the first version number or the first model name, as
/// long as it can be. In any other one, where `\d` and `\b` go by the tables of
/// Unicode, the match is left to the name `first_capture`, and it is stated: the
/// text of the group is a part of the haystack that has the form of the pattern,
/// and a haystack in which an ASCII text of that form stands, for a model name
/// one apart from other words, has a match.
#[verifier::external_body]
pub(crate) fn capture(pattern: &str, haystack: &str, group: usize) -> (res: Option<String>)
    requires
        pattern@ == pattern::version_pattern() || pattern@ == pattern::model_pattern(),
        group == 1,
    ensures
        text::text_of(res) == first_capture(pattern@, haystack@, group as nat),
        res matches Some(found) ==> text::occurs(haystack@, found@),
        pattern@ == pattern::version_pattern() ==> match res {
            Some(found) => pattern::looks_like_version(found@),
            None => pattern::holds_no_version(haystack@),
        },
        pattern@ == pattern::version_pattern() && pattern::is_plain(haystack@) ==> text::text_of(
            res,
        ) == pattern::first_version(haystack@),
        pattern@ == pattern::model_pattern() ==> match res {
            Some(found) => pattern::looks_like_model(found@),
            None => pattern::holds_no_model(haystack@),
        },
        pattern@ == pattern::model_pattern() && pattern::is_plain(haystack@) ==> text::text_of(res)
            == pattern::first_model(haystack@),
{
    let re = regex::Regex::new(pattern).unwrap();
    re.captures(haystack).map(|found| found[group].to_string())
}

/// The texts of a group in the successive matches of a pattern.
pub uninterp spec fn all_captures(pattern: Seq<char>, haystack: Seq<char>, group: nat) -> Seq<
    Seq<char>,
>;

/// `Regex::new` compiles the pattern, and `Regex::captures_iter` finds its
/// successive matches that do not overlap and tells the text of each group. In a
/// plain haystack these are the percentages of the entries from left to right.
/// In any other one, where `\d` goes by the tables of Unicode, the matches are
/// left to the name `all_captures`, and it is stated: each text stands in the
/// haystack as the percentage in an entry of a core, and a haystack in which an
/// ASCII entry stands has a match.
#[verifier::external_body]
pub(crate) fn captures(pattern: &str, haystack: &str, group: usize) -> (res: Vec<String>)
    requires
        pattern@ == pattern::core_load_pattern(),
        group == 2,
    ensures
        text::texts(res@) == all_captures(pattern@, haystack@, group as nat),
        forall|k: int|
            0 <= k < res@.len() ==> pattern::tells_percent(haystack@, (#[trigger] res@[k])@),
        res@.len() == 0 ==> pattern::holds_no_core(haystack@),
        pattern::is_plain(haystack@) ==> text::texts(res@) == pattern::core_percents(haystack@),
{
    let re = regex::Regex::new(pattern).unwrap();
    re.captures_iter(haystack).map(|found| found[group].to_string()).collect()
}

/// What a list of sections holds: of each its name, its offset and its size.
pub open spec fn sections_of(sections: Seq<(Option<String>, u64, u64)>) -> Seq<
    (Option<Seq<char>>, u64, u64),
> {
    sections.map_values(
        |section: (Option<String>, u64, u64)|
            (text::text_of(section.0), section.1, section.2),
    )
}

/// What an optional list of sections holds.
pub open spec fn section_table(sections: Option<Vec<(Option<String>, u64, u64)>>) -> Option<
    Seq<(Option<Seq<char>>, u64, u64)>,
> {
    match sections {
        Some(found) => Some(sections_of(found@)),
        None => None,
    }
}

/// The bytes begin as an ELF file does, and are no fewer than the parser looks
/// at to tell the format.
pub open spec fn has_elf_magic(bytes: Seq<u8>) -> bool {
    bytes.len() >= 16 && bytes[0] == 0x7f && bytes[1] == 0x45 && bytes[2] == 0x4c && bytes[3]
        == 0x46
}

/// The sections that the parser finds in an ELF file.
pub uninterp spec fn elf_sections(bytes: Seq<u8>) -> Option<Seq<(Option<Seq<char>>, u64, u64)>>;

/// `goblin::Object::parse` reads an ELF file; `Strtab::get_at` looks up the
/// name of each of its sections. There is no list if the file is malformed.
/// Only files with the magic of ELF may be handed over: on some files in other
/// formats the parser can overflow. What the sections are is left to the name
/// `elf_sections`.
#[verifier::external_body]
pub(crate) fn parse_elf_sections(bytes: &[u8]) -> (res: Option<Vec<(Option<String>, u64, u64)>>)
    requires
        has_elf_magic(bytes@),
    ensures
        section_table(res) == elf_sections(bytes@),
{
    match goblin::Object::parse(bytes) {
        Ok(goblin::Object::Elf(elf)) => Some(
            elf.section_headers.iter().map(
                |s| {
                    let name = elf.shdr_strtab.get_at(s.sh_name).map(|name| name.to_string());
                    (name, s.sh_offset, s.sh_size)
                },
            ).collect(),
        ),
        Ok(_) => None,
        Err(_) => None,
    }
}

/// A capital letter stands at the same place in the alphabet as the small one; any
/// other character stays. A table of sections holds the sections.
pub proof fn law_small_letters_become_capitals(
    c: char,
    sections: Vec<(Option<String>, u64, u64)>,
)
    ensures
        'a' <= c <= 'z' ==> upper(c) as u32 - 'A' as u32 == c as u32 - 'a' as u32,
        !('a' <= c <= 'z') ==> upper(c) == c,
        section_table(Some(sections)) == Some(sections_of(sections@)),
        section_table(None) == None::<Seq<(Option<Seq<char>>, u64, u64)>>,
{
}

} // verus!
