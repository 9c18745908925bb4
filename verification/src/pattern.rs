//! The patterns of version numbers, model names and loads, and what they match.

use vstd::prelude::*;

use crate::number;
use crate::text;

verus! {

/// A character that `\d` may match: a decimal digit, which below U+0080 is one
/// of the ten ASCII digits.
pub open spec fn may_be_digit(c: char) -> bool {
    c as u32 >= 0x80 || number::is_digit(c)
}

/// One or more characters, each of which `\d` may match.
pub open spec fn may_be_digits(s: Seq<char>) -> bool {
    s.len() > 0 && forall|i: int| 0 <= i < s.len() ==> may_be_digit(#[trigger] s[i])
}

/// Three texts with dots between them.
pub open spec fn dotted(major: Seq<char>, minor: Seq<char>, patch: Seq<char>) -> Seq<char> {
    major + "."@ + minor + "."@ + patch
}

/// A model name: `RK` and what stands behind it.
pub open spec fn rk(digits: Seq<char>) -> Seq<char> {
    "RK"@ + digits
}

/// The entry of a core in a list of loads.
pub open spec fn core_entry(core: Seq<char>, gap: Seq<char>, percent: Seq<char>) -> Seq<char> {
    "Core"@ + core + ":"@ + gap + percent + "%"@
}

/// An ASCII character that no word can hold.
pub open spec fn parts_words(c: char) -> bool {
    (c as u32) < 0x80 && !number::is_digit(c) && !('a' <= c <= 'z') && !('A' <= c <= 'Z') && c
        != '_'
}

/// The stretch of `s` from `from` up to `to` stands apart from other words.
pub open spec fn stands_alone(s: Seq<char>, from: int, to: int) -> bool {
    (from == 0 || parts_words(s[from - 1])) && (to == s.len() || parts_words(s[to]))
}

/// Three numbers, which need not be in ASCII, with dots between them.
pub open spec fn looks_like_version(s: Seq<char>) -> bool {
    exists|major: Seq<char>, minor: Seq<char>, patch: Seq<char>|
        s == #[trigger] dotted(major, minor, patch) && may_be_digits(major) && may_be_digits(minor)
            && may_be_digits(patch)
}

/// No version number in ASCII stands in the text.
pub open spec fn holds_no_version(s: Seq<char>) -> bool {
    forall|major: Seq<char>, minor: Seq<char>, patch: Seq<char>|
        number::is_numeral(major) && number::is_numeral(minor) && number::is_numeral(patch)
            ==> !text::occurs(s, #[trigger] dotted(major, minor, patch))
}

/// `RK` and a number, which need not be in ASCII.
pub open spec fn looks_like_model(s: Seq<char>) -> bool {
    exists|digits: Seq<char>| s == #[trigger] rk(digits) && may_be_digits(digits)
}

/// No model name in ASCII stands in the text apart from other words.
pub open spec fn holds_no_model(s: Seq<char>) -> bool {
    forall|digits: Seq<char>, i: int|
        number::is_numeral(digits) && #[trigger] text::occurs_at(s, rk(digits), i)
            ==> !stands_alone(s, i, i + rk(digits).len())
}

/// The percentage, which need not be in ASCII, stands in the text in the entry
/// of a core.
pub open spec fn tells_percent(s: Seq<char>, percent: Seq<char>) -> bool {
    may_be_digits(percent) && exists|core: Seq<char>, gap: Seq<char>|
        may_be_digits(core) && text::is_blank(gap) && text::occurs(
            s,
            #[trigger] core_entry(core, gap, percent),
        )
}

/// No entry of a core in ASCII digits stands in the text.
pub open spec fn holds_no_core(s: Seq<char>) -> bool {
    forall|core: Seq<char>, gap: Seq<char>, percent: Seq<char>|
        number::is_numeral(core) && text::is_blank(gap) && number::is_numeral(percent)
            ==> !text::occurs(s, #[trigger] core_entry(core, gap, percent))
}

/// The pattern of a version number.
pub open spec fn version_pattern() -> Seq<char> {
    "(\\d+\\.\\d+\\.\\d+)"@
}

/// The pattern of the name of a Rockchip model.
pub open spec fn model_pattern() -> Seq<char> {
    "\\b(RK\\d+)\\b"@
}

/// The pattern of the load of an NPU core.
pub open spec fn core_load_pattern() -> Seq<char> {
    "Core(\\d+):\\s*(\\d+)%"@
}

/// A text of ASCII characters and of the character U+FFFD, which is put in the
/// place of what cannot be decoded: no letter or digit of another script.
pub open spec fn is_plain(s: Seq<char>) -> bool {
    forall|i: int| 0 <= i < s.len() ==> (#[trigger] s[i]) as u32 <= 0x7f || s[i] as u32 == 0xfffd
}

/// How many digits a text begins with.
pub open spec fn digits_len(s: Seq<char>) -> nat
    decreases s.len(),
{
    if s.len() > 0 && number::is_digit(s[0]) {
        1 + digits_len(s.drop_first())
    } else {
        0
    }
}

/// What stands behind the number that a text begins with and the character `c`
/// that ends it.
pub open spec fn behind_number(s: Seq<char>, c: char) -> Option<Seq<char>> {
    let n = digits_len(s) as int;
    if 0 < n < s.len() && s[n] == c {
        Some(s.skip(n + 1))
    } else {
        None
    }
}

/// The version number that a text begins with, as long as it can be: three
/// numbers with dots between them.
pub open spec fn leading_version(s: Seq<char>) -> Option<Seq<char>> {
    match behind_number(s, '.') {
        Some(minor) => match behind_number(minor, '.') {
            Some(patch) if digits_len(patch) > 0 => Some(
                s.take(s.len() - patch.len() + digits_len(patch)),
            ),
            _ => None,
        },
        None => None,
    }
}

/// The version number that begins before all others in a text.
pub open spec fn first_version(s: Seq<char>) -> Option<Seq<char>>
    decreases s.len(),
{
    if s.len() == 0 || leading_version(s) is Some {
        leading_version(s)
    } else {
        first_version(s.drop_first())
    }
}

/// A letter, a digit or the underscore.
pub open spec fn in_words(c: char) -> bool {
    number::is_digit(c) || 'a' <= c <= 'z' || 'A' <= c <= 'Z' || c == '_'
}

/// The model name that a text begins with: `RK` and a number behind which the
/// word ends.
pub open spec fn leading_model(s: Seq<char>) -> Option<Seq<char>> {
    if text::begins_with(s, "RK"@) {
        let n = 2 + digits_len(s.skip(2));
        if n > 2 && (n == s.len() || !in_words(s[n as int])) {
            Some(s.take(n as int))
        } else {
            None
        }
    } else {
        None
    }
}

/// The model name that begins before all others from position `i` on, with a
/// word.
pub open spec fn model_from(s: Seq<char>, i: int) -> Option<Seq<char>>
    decreases s.len() - i,
{
    if i < 0 || i >= s.len() {
        None
    } else if (i == 0 || !in_words(s[i - 1])) && leading_model(s.skip(i)) is Some {
        leading_model(s.skip(i))
    } else {
        model_from(s, i + 1)
    }
}

/// The model name that begins before all others in a text.
pub open spec fn first_model(s: Seq<char>) -> Option<Seq<char>> {
    model_from(s, 0)
}

/// The percentage in the entry of a core that a text begins with, and what
/// stands behind the entry.
pub open spec fn leading_core(s: Seq<char>) -> Option<(Seq<char>, Seq<char>)> {
    if text::begins_with(s, "Core"@) {
        match behind_number(s.skip(4), ':') {
            Some(behind) => {
                let load = text::trimmed_start(behind);
                match behind_number(load, '%') {
                    Some(rest) => Some((load.take(digits_len(load) as int), rest)),
                    None => None,
                }
            },
            None => None,
        }
    } else {
        None
    }
}

/// The percentages in the entries of the cores in a text, from left to right.
pub open spec fn core_percents(s: Seq<char>) -> Seq<Seq<char>>
    decreases s.len(),
    via core_percents_decreases
{
    match leading_core(s) {
        Some((percent, rest)) => seq![percent] + core_percents(rest),
        None => if s.len() == 0 {
            seq![]
        } else {
            core_percents(s.drop_first())
        },
    }
}

#[via_fn]
proof fn core_percents_decreases(s: Seq<char>) {
    reveal_strlit("Core");
    if text::begins_with(s, "Core"@) {
        match behind_number(s.skip(4), ':') {
            Some(behind) => {
                text::lemma_trimmed_start(behind);
            },
            None => {},
        }
    }
}

/// The characters that are counted as digits are digits.
pub proof fn lemma_leading_digits(s: Seq<char>)
    ensures
        digits_len(s) <= s.len(),
        forall|i: int| 0 <= i < digits_len(s) ==> number::is_digit(#[trigger] s[i]),
    decreases s.len(),
{
    if s.len() > 0 && number::is_digit(s[0]) {
        let rest = s.drop_first();
        lemma_leading_digits(rest);
        assert forall|i: int| 0 <= i < digits_len(s) implies number::is_digit(#[trigger] s[i]) by {
            if i > 0 {
                assert(s[i] == rest[i - 1]);
            }
        }
    }
}

proof fn lemma_digits_len(digits: Seq<char>, rest: Seq<char>)
    requires
        digits.len() > 0 ==> number::is_numeral(digits),
        rest.len() > 0 ==> !number::is_digit(rest[0]),
    ensures
        digits_len(digits + rest) == digits.len(),
    decreases digits.len(),
{
    if digits.len() == 0 {
        assert(digits + rest =~= rest);
    } else {
        let tail = digits.drop_first();
        assert((digits + rest)[0] == digits[0]);
        assert((digits + rest).drop_first() =~= tail + rest);
        assert forall|i: int| 0 <= i < tail.len() implies number::is_digit(#[trigger] tail[i]) by {
            assert(tail[i] == digits[i + 1]);
        }
        lemma_digits_len(tail, rest);
    }
}

proof fn lemma_behind_number(digits: Seq<char>, c: char, rest: Seq<char>)
    requires
        number::is_numeral(digits),
        !number::is_digit(c),
    ensures
        digits_len(digits + (seq![c] + rest)) == digits.len(),
        behind_number(digits + (seq![c] + rest), c) == Some(rest),
{
    let s = digits + (seq![c] + rest);
    lemma_digits_len(digits, seq![c] + rest);
    assert(s.skip(digits.len() as int + 1) =~= rest);
}

/// A version number that is written behind a text without digits is the first
/// one, if no digit follows it.
pub proof fn law_written_version_is_found(
    before: Seq<char>,
    major: Seq<char>,
    minor: Seq<char>,
    patch: Seq<char>,
    behind: Seq<char>,
)
    requires
        forall|i: int| 0 <= i < before.len() ==> !number::is_digit(#[trigger] before[i]),
        number::is_numeral(major),
        number::is_numeral(minor),
        number::is_numeral(patch),
        behind.len() > 0 ==> !number::is_digit(behind[0]),
    ensures
        first_version(before + dotted(major, minor, patch) + behind) == Some(
            dotted(major, minor, patch),
        ),
    decreases before.len(),
{
    reveal_strlit(".");
    let version = dotted(major, minor, patch);
    let s = before + version + behind;
    if before.len() == 0 {
        let last = patch + behind;
        let middle = minor + (seq!['.'] + last);
        assert(s =~= major + (seq!['.'] + middle));
        lemma_behind_number(major, '.', middle);
        lemma_behind_number(minor, '.', last);
        lemma_digits_len(patch, behind);
        assert(s.take(s.len() - last.len() + patch.len()) =~= version);
    } else {
        let tail = before.drop_first();
        assert(s[0] == before[0]);
        assert(s.drop_first() =~= tail + version + behind);
        assert forall|i: int| 0 <= i < tail.len() implies !number::is_digit(#[trigger] tail[i]) by {
            assert(tail[i] == before[i + 1]);
        }
        law_written_version_is_found(tail, major, minor, patch, behind);
    }
}

/// A model name that is written as a word of its own behind a text without `RK`
/// is the first one.
pub proof fn law_written_model_is_found(before: Seq<char>, digits: Seq<char>, behind: Seq<char>)
    requires
        !text::occurs(before, "RK"@),
        before.len() > 0 ==> !in_words(before.last()),
        number::is_numeral(digits),
        behind.len() > 0 ==> !in_words(behind[0]),
    ensures
        first_model(before + rk(digits) + behind) == Some(rk(digits)),
{
    lemma_model_from(before, digits, behind, 0);
}

proof fn lemma_model_from(before: Seq<char>, digits: Seq<char>, behind: Seq<char>, i: int)
    requires
        0 <= i <= before.len(),
        !text::occurs(before, "RK"@),
        before.len() > 0 ==> !in_words(before.last()),
        number::is_numeral(digits),
        behind.len() > 0 ==> !in_words(behind[0]),
    ensures
        model_from(before + rk(digits) + behind, i) == Some(rk(digits)),
    decreases before.len() - i,
{
    reveal_strlit("RK");
    let s = before + rk(digits) + behind;
    let rest = s.skip(i);
    if i == before.len() {
        assert(rest =~= rk(digits) + behind);
        assert(rest.subrange(0, 2) =~= "RK"@);
        assert(rest.skip(2) =~= digits + behind);
        lemma_digits_len(digits, behind);
        assert(rest.take(2 + digits.len() as int) =~= rk(digits));
        if i > 0 {
            assert(s[i - 1] == before.last());
        }
    } else {
        if text::begins_with(rest, "RK"@) {
            assert(rest.subrange(0, 2)[0] == 'R' && rest.subrange(0, 2)[1] == 'K');
            assert(s[i] == 'R' && s[i + 1] == 'K');
            if i + 1 < before.len() {
                assert(before.subrange(i, i + 2) =~= "RK"@);
                assert(text::occurs_at(before, "RK"@, i));
            } else {
                assert(s[i] == before.last());
            }
        }
        lemma_model_from(before, digits, behind, i + 1);
    }
}

/// What tells the load of one core: a text without the letter `C`, the number
/// of the core, white space and the percentage.
#[verifier::ext_equal]
pub struct CoreLoad {
    pub before: Seq<char>,
    pub core: Seq<char>,
    pub gap: Seq<char>,
    pub percent: Seq<char>,
}

impl CoreLoad {
    /// The parts have the form that they are said to have.
    pub open spec fn is_valid(self) -> bool {
        &&& !self.before.contains('C')
        &&& number::is_numeral(self.core)
        &&& text::is_blank(self.gap)
        &&& number::is_numeral(self.percent)
    }
}

/// The loads of some cores, written one behind the other.
pub open spec fn told_cores(cores: Seq<CoreLoad>, behind: Seq<char>) -> Seq<char>
    decreases cores.len(),
{
    if cores.len() == 0 {
        behind
    } else {
        cores[0].before + core_entry(cores[0].core, cores[0].gap, cores[0].percent) + told_cores(
            cores.drop_first(),
            behind,
        )
    }
}

/// The loads of the cores are read as they are written.
pub proof fn law_told_cores_are_read(cores: Seq<CoreLoad>, behind: Seq<char>)
    requires
        forall|i: int| 0 <= i < cores.len() ==> (#[trigger] cores[i]).is_valid(),
        !behind.contains('C'),
    ensures
        core_percents(told_cores(cores, behind)) == cores.map_values(|c: CoreLoad| c.percent),
    decreases cores.len(),
{
    let percents = cores.map_values(|c: CoreLoad| c.percent);
    if cores.len() == 0 {
        assert(behind + seq![] =~= behind);
        lemma_no_core(behind, seq![]);
        reveal_strlit("Core");
        assert(core_percents(seq![]) =~= percents);
    } else {
        let c = cores[0];
        let others = cores.drop_first();
        assert forall|i: int| 0 <= i < others.len() implies (#[trigger] others[i]).is_valid() by {
            assert(others[i] == cores[i + 1]);
        }
        law_told_cores_are_read(others, behind);
        let rest = told_cores(others, behind);
        let entry = core_entry(c.core, c.gap, c.percent);
        assert(c.before + entry + rest =~= c.before + (entry + rest));
        lemma_no_core(c.before, entry + rest);
        lemma_leading_core(c, rest);
        assert(percents =~= seq![c.percent] + others.map_values(|d: CoreLoad| d.percent));
    }
}

proof fn lemma_no_core(before: Seq<char>, rest: Seq<char>)
    requires
        !before.contains('C'),
    ensures
        core_percents(before + rest) == core_percents(rest),
    decreases before.len(),
{
    reveal_strlit("Core");
    let s = before + rest;
    if before.len() == 0 {
        assert(s =~= rest);
    } else {
        assert(before.contains(before[0]));
        if text::begins_with(s, "Core"@) {
            assert(s.subrange(0, 4)[0] == s[0]);
        }
        let tail = before.drop_first();
        assert(s.drop_first() =~= tail + rest);
        if tail.contains('C') {
            let i = choose|i: int| 0 <= i < tail.len() && tail[i] == 'C';
            assert(before[i + 1] == 'C');
        }
        lemma_no_core(tail, rest);
    }
}

proof fn lemma_leading_core(c: CoreLoad, rest: Seq<char>)
    requires
        c.is_valid(),
    ensures
        leading_core(core_entry(c.core, c.gap, c.percent) + rest) == Some((c.percent, rest)),
{
    reveal_strlit("Core");
    reveal_strlit(":");
    reveal_strlit("%");
    let s = core_entry(c.core, c.gap, c.percent) + rest;
    let load = c.percent + (seq!['%'] + rest);
    let behind = c.gap + load;
    assert(s.subrange(0, 4) =~= "Core"@);
    assert(s.skip(4) =~= c.core + (seq![':'] + behind));
    lemma_behind_number(c.core, ':', behind);
    text::lemma_blank_before(c.gap, load);
    assert(load[0] == c.percent[0]);
    assert(text::trimmed_start(load) == load);
    lemma_behind_number(c.percent, '%', rest);
    assert(load.take(c.percent.len() as int) =~= c.percent);
}

/// Bytes of ASCII are the UTF-8 of a plain text, character by character.
pub proof fn law_ascii_is_plain_text(bytes: Seq<u8>)
    requires
        forall|i: int| 0 <= i < bytes.len() ==> #[trigger] bytes[i] < 0x80,
    ensures
        vstd::utf8::valid_utf8(bytes),
        vstd::utf8::decode_utf8(bytes) == bytes.map_values(|b: u8| b as char),
        is_plain(vstd::utf8::decode_utf8(bytes)),
    decreases bytes.len(),
{
    let s = bytes.map_values(|b: u8| b as char);
    if bytes.len() > 0 {
        let b = bytes[0];
        assert(b < 0x80);
        assert(b & 0x7f == b) by (bit_vector)
            requires
                b < 0x80,
        ;
        let rest = bytes.drop_first();
        assert forall|i: int| 0 <= i < rest.len() implies #[trigger] rest[i] < 0x80 by {
            assert(rest[i] == bytes[i + 1]);
        }
        law_ascii_is_plain_text(rest);
        assert(vstd::utf8::pop_first_scalar(bytes) =~= rest);
        assert(seq![b as char] + rest.map_values(|c: u8| c as char) =~= s);
    }
    assert(vstd::utf8::decode_utf8(bytes) =~= s);
}

/// A version number in ASCII stands at a place: three numbers with dots between
/// them, the last one as long as it can be.
pub open spec fn version_stands_at(
    s: Seq<char>,
    i: int,
    major: Seq<char>,
    minor: Seq<char>,
    patch: Seq<char>,
) -> bool {
    let end = i + major.len() + minor.len() + patch.len() + 2;
    &&& number::is_numeral(major)
    &&& number::is_numeral(minor)
    &&& number::is_numeral(patch)
    &&& 0 <= i
    &&& end <= s.len()
    &&& s.subrange(i, end) == major + seq!['.'] + minor + seq!['.'] + patch
    &&& end < s.len() ==> !number::is_digit(s[end])
}

/// The first version number is one that stands in the text, with none beginning
/// before it; there is none only if no version number stands anywhere in it.
pub proof fn law_first_version_is_the_leftmost(s: Seq<char>)
    ensures
        match first_version(s) {
            Some(found) => exists|i: int, major: Seq<char>, minor: Seq<char>, patch: Seq<char>|
                #[trigger] version_stands_at(s, i, major, minor, patch) && found == major + seq!['.']
                    + minor + seq!['.'] + patch && forall|
                    j: int,
                    x: Seq<char>,
                    y: Seq<char>,
                    z: Seq<char>,
                |
                    j < i ==> !#[trigger] version_stands_at(s, j, x, y, z),
            None => forall|j: int, x: Seq<char>, y: Seq<char>, z: Seq<char>|
                !#[trigger] version_stands_at(s, j, x, y, z),
        },
    decreases s.len(),
{
    lemma_version_at_the_start(s);
    if s.len() > 0 && leading_version(s) is None {
        let rest = s.drop_first();
        law_first_version_is_the_leftmost(rest);
        assert forall|j: int, x: Seq<char>, y: Seq<char>, z: Seq<char>| j > 0 implies
            #[trigger] version_stands_at(s, j, x, y, z) == version_stands_at(rest, j - 1, x, y, z) by {
            let end = j + x.len() + y.len() + z.len() + 2;
            if end <= s.len() {
                assert(s.subrange(j, end) =~= rest.subrange(j - 1, end - 1));
            }
        }
        assert forall|j: int, x: Seq<char>, y: Seq<char>, z: Seq<char>| j <= 0 implies
            !#[trigger] version_stands_at(s, j, x, y, z) by {}
        match first_version(rest) {
            Some(found) => {
                let (i, major, minor, patch) = choose|
                    i: int,
                    major: Seq<char>,
                    minor: Seq<char>,
                    patch: Seq<char>,
                | #[trigger]
                    version_stands_at(rest, i, major, minor, patch) && found == major + seq!['.']
                        + minor + seq!['.'] + patch && forall|
                        j: int,
                        x: Seq<char>,
                        y: Seq<char>,
                        z: Seq<char>,
                    |
                        j < i ==> !#[trigger] version_stands_at(rest, j, x, y, z);
                assert(version_stands_at(s, i + 1, major, minor, patch));
                assert forall|j: int, x: Seq<char>, y: Seq<char>, z: Seq<char>| j < i + 1 implies
                    !#[trigger] version_stands_at(s, j, x, y, z) by {
                    if j > 0 {
                        assert(!version_stands_at(rest, j - 1, x, y, z));
                    }
                }
            },
            None => {
                assert forall|j: int, x: Seq<char>, y: Seq<char>, z: Seq<char>|
                    !#[trigger] version_stands_at(s, j, x, y, z) by {
                    if j > 0 {
                        assert(!version_stands_at(rest, j - 1, x, y, z));
                    }
                }
            },
        }
    } else if s.len() > 0 {
        let (major, minor, patch) = choose|major: Seq<char>, minor: Seq<char>, patch: Seq<char>|
            #[trigger]
            version_stands_at(s, 0, major, minor, patch) && leading_version(s) == Some(
                major + seq!['.'] + minor + seq!['.'] + patch,
            );
        assert(version_stands_at(s, 0, major, minor, patch));
    }
}

proof fn lemma_digits_run(s: Seq<char>)
    ensures
        digits_len(s) <= s.len(),
        digits_len(s) > 0 ==> number::is_numeral(s.take(digits_len(s) as int)),
        digits_len(s) < s.len() ==> !number::is_digit(s[digits_len(s) as int]),
    decreases s.len(),
{
    lemma_leading_digits(s);
    if s.len() > 0 && number::is_digit(s[0]) {
        let rest = s.drop_first();
        lemma_digits_run(rest);
        if digits_len(s) < s.len() {
            assert(s[digits_len(s) as int] == rest[digits_len(rest) as int]);
        }
    }
}

proof fn lemma_version_at_the_start(s: Seq<char>)
    ensures
        match leading_version(s) {
            Some(found) => exists|major: Seq<char>, minor: Seq<char>, patch: Seq<char>| #[trigger]
                version_stands_at(s, 0, major, minor, patch) && found == major + seq!['.'] + minor
                    + seq!['.'] + patch,
            None => forall|x: Seq<char>, y: Seq<char>, z: Seq<char>|
                !#[trigger] version_stands_at(s, 0, x, y, z),
        },
{
    lemma_digits_run(s);
    match leading_version(s) {
        Some(found) => {
            let t = behind_number(s, '.')->0;
            let u = behind_number(t, '.')->0;
            lemma_digits_run(t);
            lemma_digits_run(u);
            let major = s.take(digits_len(s) as int);
            let minor = t.take(digits_len(t) as int);
            let patch = u.take(digits_len(u) as int);
            let end = major.len() + minor.len() + patch.len() + 2;
            assert(found =~= major + seq!['.'] + minor + seq!['.'] + patch);
            assert(s.subrange(0, end as int) =~= found);
            if end < s.len() {
                assert(s[end as int] == u[digits_len(u) as int]);
            }
            assert(version_stands_at(s, 0, major, minor, patch));
        },
        None => {
            assert forall|x: Seq<char>, y: Seq<char>, z: Seq<char>| !#[trigger] version_stands_at(
                s,
                0,
                x,
                y,
                z,
            ) by {
                if version_stands_at(s, 0, x, y, z) {
                    let end = x.len() + y.len() + z.len() + 2;
                    let behind = s.skip(end as int);
                    assert(s =~= s.subrange(0, end as int) + behind);
                    let last = z + behind;
                    let middle = y + (seq!['.'] + last);
                    assert(s =~= x + (seq!['.'] + middle));
                    lemma_behind_number(x, '.', middle);
                    lemma_behind_number(y, '.', last);
                    lemma_digits_len(z, behind);
                }
            }
        },
    }
}

/// A model name in ASCII stands at a place as a word of its own.
pub open spec fn model_stands_at(s: Seq<char>, i: int, digits: Seq<char>) -> bool {
    let end = i + 2 + digits.len();
    &&& number::is_numeral(digits)
    &&& 0 <= i
    &&& end <= s.len()
    &&& s.subrange(i, end) == seq!['R', 'K'] + digits
    &&& i > 0 ==> !in_words(s[i - 1])
    &&& end < s.len() ==> !in_words(s[end])
}

/// The first model name is one that stands in the text as a word of its own, with
/// none beginning before it; there is none only if no model name stands so
/// anywhere in it. Words are made of letters, digits and underscores.
pub proof fn law_first_model_is_the_leftmost(s: Seq<char>, c: char)
    ensures
        match first_model(s) {
            Some(found) => exists|i: int, digits: Seq<char>| #[trigger]
                model_stands_at(s, i, digits) && found == seq!['R', 'K'] + digits && forall|
                    j: int,
                    d: Seq<char>,
                |
                    j < i ==> !#[trigger] model_stands_at(s, j, d),
            None => forall|j: int, d: Seq<char>| !#[trigger] model_stands_at(s, j, d),
        },
        in_words(c) == ('0' <= c <= '9' || 'A' <= c <= 'Z' || 'a' <= c <= 'z' || c == '_'),
{
    lemma_model_from_is_the_leftmost(s, 0);
    match first_model(s) {
        Some(found) => {
            let (i, digits) = choose|i: int, digits: Seq<char>| #[trigger]
                model_stands_at(s, i, digits) && i >= 0 && found == seq!['R', 'K'] + digits
                    && forall|j: int, d: Seq<char>|
                    0 <= j < i ==> !#[trigger] model_stands_at(s, j, d);
            assert(model_stands_at(s, i, digits));
        },
        None => {},
    }
}

proof fn lemma_model_from_is_the_leftmost(s: Seq<char>, from: int)
    requires
        0 <= from,
    ensures
        match model_from(s, from) {
            Some(found) => exists|i: int, digits: Seq<char>| #[trigger]
                model_stands_at(s, i, digits) && i >= from && found == seq!['R', 'K'] + digits
                    && forall|j: int, d: Seq<char>|
                    from <= j < i ==> !#[trigger] model_stands_at(s, j, d),
            None => forall|j: int, d: Seq<char>|
                from <= j ==> !#[trigger] model_stands_at(s, j, d),
        },
    decreases s.len() - from,
{
    if from < s.len() {
        lemma_model_at_the_start(s, from);
        lemma_model_from_is_the_leftmost(s, from + 1);
        if (from == 0 || !in_words(s[from - 1])) && leading_model(s.skip(from)) is Some {
            let digits = choose|digits: Seq<char>| #[trigger]
                model_stands_at(s, from, digits) && leading_model(s.skip(from)) == Some(
                    seq!['R', 'K'] + digits,
                );
            assert(model_stands_at(s, from, digits));
        } else {
            match model_from(s, from + 1) {
                Some(found) => {
                    let (i, digits) = choose|i: int, digits: Seq<char>| #[trigger]
                        model_stands_at(s, i, digits) && i >= from + 1 && found == seq!['R', 'K']
                            + digits && forall|j: int, d: Seq<char>|
                            from + 1 <= j < i ==> !#[trigger] model_stands_at(s, j, d);
                    assert forall|j: int, d: Seq<char>| from <= j < i implies
                        !#[trigger] model_stands_at(s, j, d) by {}
                    assert(model_stands_at(s, i, digits));
                },
                None => {},
            }
        }
    }
}

proof fn lemma_model_at_the_start(s: Seq<char>, i: int)
    requires
        0 <= i < s.len(),
    ensures
        (i == 0 || !in_words(s[i - 1])) ==> match leading_model(s.skip(i)) {
            Some(found) => exists|digits: Seq<char>| #[trigger]
                model_stands_at(s, i, digits) && found == seq!['R', 'K'] + digits,
            None => forall|d: Seq<char>| !#[trigger] model_stands_at(s, i, d),
        },
        i > 0 && in_words(s[i - 1]) ==> forall|d: Seq<char>| !#[trigger] model_stands_at(s, i, d),
{
    reveal_strlit("RK");
    assert("RK"@ =~= seq!['R', 'K']);
    let rest = s.skip(i);
    if i == 0 || !in_words(s[i - 1]) {
        match leading_model(rest) {
            Some(found) => {
                let tail = rest.skip(2);
                lemma_digits_run(tail);
                let digits = tail.take(digits_len(tail) as int);
                assert(rest.subrange(0, 2) =~= seq!['R', 'K']);
                assert(found =~= rest.subrange(0, 2) + digits);
                assert(s.subrange(i, i + 2 + digits.len()) =~= found);
                if i + 2 + digits.len() < s.len() {
                    assert(s[i + 2 + digits.len()] == rest[2 + digits.len() as int]);
                }
                assert(model_stands_at(s, i, digits));
            },
            None => {
                assert forall|d: Seq<char>| !#[trigger] model_stands_at(s, i, d) by {
                    if model_stands_at(s, i, d) {
                        let end = i + 2 + d.len();
                        let found = s.subrange(i, end);
                        let behind = s.skip(end);
                        assert(rest.subrange(0, 2) =~= found.subrange(0, 2));
                        assert(found.subrange(0, 2) =~= seq!['R', 'K']);
                        assert(rest.skip(2) =~= found.skip(2) + behind);
                        assert(found.skip(2) =~= d);
                        if end < s.len() {
                            assert(behind[0] == s[end]);
                            assert(rest[2 + d.len() as int] == s[end]);
                        }
                        lemma_digits_len(d, behind);
                    }
                }
            },
        }
    }
}

/// The first entry of a core in a text gives its percentage, and the others are
/// those of what stands behind it; what does not begin an entry is passed over
/// character by character.
pub proof fn law_entries_are_read_from_left_to_right(
    core: Seq<char>,
    gap: Seq<char>,
    percent: Seq<char>,
    rest: Seq<char>,
    s: Seq<char>,
)
    requires
        number::is_numeral(core),
        text::is_blank(gap),
        number::is_numeral(percent),
        !exists|x: Seq<char>, y: Seq<char>, z: Seq<char>, behind: Seq<char>| #[trigger]
            begins_with_core(s, x, y, z, behind),
    ensures
        core_percents("Core"@ + core + ":"@ + gap + percent + "%"@ + rest) == seq![percent]
            + core_percents(rest),
        s.len() > 0 ==> core_percents(s) == core_percents(s.drop_first()),
        s.len() == 0 ==> core_percents(s) == Seq::<Seq<char>>::empty(),
{
    let c = CoreLoad { before: seq![], core, gap, percent };
    lemma_leading_core(c, rest);
    if leading_core(s) is Some {
        lemma_core_at_the_start(s);
    }
}

/// The text is an entry of a core with `behind` behind it.
pub open spec fn begins_with_core(
    s: Seq<char>,
    core: Seq<char>,
    gap: Seq<char>,
    percent: Seq<char>,
    behind: Seq<char>,
) -> bool {
    &&& number::is_numeral(core)
    &&& text::is_blank(gap)
    &&& number::is_numeral(percent)
    &&& s == "Core"@ + core + ":"@ + gap + percent + "%"@ + behind
}

proof fn lemma_core_at_the_start(s: Seq<char>)
    requires
        leading_core(s) is Some,
    ensures
        exists|x: Seq<char>, y: Seq<char>, z: Seq<char>, behind: Seq<char>| #[trigger]
            begins_with_core(s, x, y, z, behind),
{
    reveal_strlit("Core");
    reveal_strlit(":");
    reveal_strlit("%");
    let t = s.skip(4);
    let u = behind_number(t, ':')->0;
    let load = text::trimmed_start(u);
    let behind = behind_number(load, '%')->0;
    lemma_digits_run(t);
    lemma_digits_run(load);
    text::lemma_blank_is_cut(u);
    let core = t.take(digits_len(t) as int);
    let gap = u.take(u.len() - load.len());
    let percent = load.take(digits_len(load) as int);
    assert(s =~= s.subrange(0, 4) + t);
    assert(t =~= core + seq![':'] + u);
    assert(u =~= gap + load);
    assert(load =~= percent + seq!['%'] + behind);
    assert(":"@ =~= seq![':']);
    assert("%"@ =~= seq!['%']);
    assert(s =~= "Core"@ + core + ":"@ + gap + percent + "%"@ + behind);
    assert(begins_with_core(s, core, gap, percent, behind));
}

/// A text is plain exactly if it holds no character above ASCII but U+FFFD.
pub proof fn law_which_texts_are_plain(s: Seq<char>)
    ensures
        is_plain(s) == !exists|i: int|
            0 <= i < s.len() && (#[trigger] s[i]) as u32 > 0x7f && s[i] as u32 != 0xfffd,
{
}

/// The forms of versions, models and entries, and the digits and the ends of words
/// that they may have in any text.
pub proof fn law_what_the_forms_are(
    a: Seq<char>,
    b: Seq<char>,
    c: Seq<char>,
    d: char,
    s: Seq<char>,
    from: int,
    to: int,
)
    ensures
        dotted(a, b, c) == a + seq!['.'] + b + seq!['.'] + c,
        rk(a) == seq!['R', 'K'] + a,
        core_entry(a, b, c) == seq!['C', 'o', 'r', 'e'] + a + seq![':'] + b + c + seq!['%'],
        may_be_digit(d) == ('0' <= d <= '9' || d as u32 > 0x7f),
        may_be_digits(a) == (a.len() > 0 && !exists|i: int|
            0 <= i < a.len() && !may_be_digit(#[trigger] a[i])),
        parts_words(d) == (d as u32 <= 0x7f && !in_words(d)),
        stands_alone(s, from, to) == ((from != 0 ==> parts_words(s[from - 1])) && (to != s.len()
            ==> parts_words(s[to]))),
{
    reveal_strlit(".");
    reveal_strlit("RK");
    reveal_strlit("Core");
    reveal_strlit(":");
    reveal_strlit("%");
    assert("."@ =~= seq!['.']);
    assert("RK"@ =~= seq!['R', 'K']);
    assert("Core"@ =~= seq!['C', 'o', 'r', 'e']);
    assert(":"@ =~= seq![':']);
    assert("%"@ =~= seq!['%']);
}

/// What is said of a text in any script: it is a version or a model, or holds none
/// in ASCII, or tells a percentage, exactly if the parts for it exist or do not.
pub proof fn law_what_is_said_of_any_text(s: Seq<char>, percent: Seq<char>)
    ensures
        looks_like_version(s) == exists|x: Seq<char>, y: Seq<char>, z: Seq<char>|
            may_be_digits(x) && may_be_digits(y) && may_be_digits(z) && s == #[trigger] dotted(
                x,
                y,
                z,
            ),
        holds_no_version(s) == !exists|x: Seq<char>, y: Seq<char>, z: Seq<char>|
            number::is_numeral(x) && number::is_numeral(y) && number::is_numeral(z)
                && text::occurs(s, #[trigger] dotted(x, y, z)),
        looks_like_model(s) == exists|x: Seq<char>| may_be_digits(x) && s == #[trigger] rk(x),
        holds_no_model(s) == !exists|x: Seq<char>, i: int|
            number::is_numeral(x) && #[trigger] text::occurs_at(s, rk(x), i) && stands_alone(
                s,
                i,
                i + rk(x).len(),
            ),
        tells_percent(s, percent) == (may_be_digits(percent) && exists|x: Seq<char>, y: Seq<char>|
            may_be_digits(x) && text::is_blank(y) && text::occurs(
                s,
                #[trigger] core_entry(x, y, percent),
            )),
        holds_no_core(s) == !exists|x: Seq<char>, y: Seq<char>, z: Seq<char>|
            number::is_numeral(x) && text::is_blank(y) && number::is_numeral(z) && text::occurs(
                s,
                #[trigger] core_entry(x, y, z),
            ),
{
}

} // verus!
