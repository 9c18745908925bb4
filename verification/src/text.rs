//! Text as sequences of characters: white space, lines, words, parts, and
//! where one text stands in another.

use vstd::prelude::*;
use vstd::string::StringExecFns;

verus! {

/// The texts that a sequence of strings holds.
pub open spec fn texts(v: Seq<String>) -> Seq<Seq<char>> {
    v.map_values(|s: String| s@)
}

/// The text of an optional string.
pub open spec fn text_of(s: Option<String>) -> Option<Seq<char>> {
    match s {
        Some(found) => Some(found@),
        None => None,
    }
}

/// The text of an optional string slice.
pub open spec fn view_of(s: Option<&str>) -> Option<Seq<char>> {
    match s {
        Some(found) => Some(found@),
        None => None,
    }
}

/// The characters with the Unicode property `White_Space`.
pub open spec fn is_whitespace(c: char) -> bool {
    let u = c as u32;
    ||| 0x09 <= u <= 0x0d
    ||| u == 0x20
    ||| u == 0x85
    ||| u == 0xa0
    ||| u == 0x1680
    ||| 0x2000 <= u <= 0x200a
    ||| u == 0x2028
    ||| u == 0x2029
    ||| u == 0x202f
    ||| u == 0x205f
    ||| u == 0x3000
}

/// `s` without the white space at its start.
pub open spec fn trimmed_start(s: Seq<char>) -> Seq<char>
    decreases s.len(),
{
    if s.len() > 0 && is_whitespace(s[0]) {
        trimmed_start(s.drop_first())
    } else {
        s
    }
}

/// `s` without the white space at its end.
pub open spec fn trimmed_end(s: Seq<char>) -> Seq<char>
    decreases s.len(),
{
    if s.len() > 0 && is_whitespace(s.last()) {
        trimmed_end(s.drop_last())
    } else {
        s
    }
}

/// `s` without the white space around it.
pub open spec fn trimmed(s: Seq<char>) -> Seq<char> {
    trimmed_end(trimmed_start(s))
}

/// `s` without the run of `c` at its end.
pub open spec fn without_trailing(s: Seq<char>, c: char) -> Seq<char>
    decreases s.len(),
{
    if s.len() > 0 && s.last() == c {
        without_trailing(s.drop_last(), c)
    } else {
        s
    }
}

/// How many characters stand before the first `c`; all of them if there is none.
pub open spec fn position(s: Seq<char>, c: char) -> nat
    decreases s.len(),
{
    if s.len() == 0 || s[0] == c {
        0
    } else {
        1 + position(s.drop_first(), c)
    }
}

/// How many characters stand before the first white space.
pub open spec fn word_len(s: Seq<char>) -> nat
    decreases s.len(),
{
    if s.len() == 0 || is_whitespace(s[0]) {
        0
    } else {
        1 + word_len(s.drop_first())
    }
}

/// The maximal runs of characters that are not white space, in order.
pub open spec fn words(s: Seq<char>) -> Seq<Seq<char>>
    decreases s.len(),
{
    if s.len() == 0 {
        seq![]
    } else if is_whitespace(s[0]) {
        words(s.drop_first())
    } else if word_len(s) >= s.len() {
        seq![s]
    } else {
        seq![s.take(word_len(s) as int)] + words(s.skip(word_len(s) as int + 1))
    }
}

/// The parts of `s` between the separators, in order; at least one.
pub open spec fn parts(s: Seq<char>, sep: char) -> Seq<Seq<char>>
    decreases s.len(),
{
    let n = position(s, sep);
    if n >= s.len() {
        seq![s]
    } else {
        seq![s.take(n as int)] + parts(s.skip(n as int + 1), sep)
    }
}

/// The part behind the first separator, up to the second one.
pub open spec fn second_part(s: Seq<char>, sep: char) -> Option<Seq<char>> {
    if parts(s, sep).len() > 1 {
        Some(parts(s, sep)[1])
    } else {
        None
    }
}

/// A line that a line feed ended, without the carriage return before it.
pub open spec fn without_carriage_return(line: Seq<char>) -> Seq<char> {
    if line.len() > 0 && line.last() == '\r' {
        line.drop_last()
    } else {
        line
    }
}

/// The lines of `s`. A line ends with a line feed, or with a carriage return
/// and a line feed; the last one may have no ending.
pub open spec fn lines(s: Seq<char>) -> Seq<Seq<char>>
    decreases s.len(),
{
    let n = position(s, '\n');
    if s.len() == 0 {
        seq![]
    } else if n >= s.len() {
        seq![s]
    } else {
        seq![without_carriage_return(s.take(n as int))] + lines(s.skip(n as int + 1))
    }
}

/// `pat` stands in `s` from position `i` on.
pub open spec fn occurs_at(s: Seq<char>, pat: Seq<char>, i: int) -> bool {
    0 <= i <= s.len() - pat.len() && s.subrange(i, i + pat.len()) == pat
}

/// `pat` stands somewhere in `s`.
pub open spec fn occurs(s: Seq<char>, pat: Seq<char>) -> bool {
    exists|i: int| occurs_at(s, pat, i)
}

/// `i` is the first position where `pat` stands in `s`.
pub open spec fn first_at(s: Seq<char>, pat: Seq<char>, i: int) -> bool {
    occurs_at(s, pat, i) && forall|j: int| 0 <= j < i ==> !occurs_at(s, pat, j)
}

/// `s` begins with `pat`.
pub open spec fn begins_with(s: Seq<char>, pat: Seq<char>) -> bool {
    occurs_at(s, pat, 0)
}

/// `s` with every occurrence of `pat` taken out, from left to right, an
/// occurrence beginning behind the end of the one before.
pub open spec fn removed(s: Seq<char>, pat: Seq<char>) -> Seq<char>
    decreases s.len(),
{
    if s.len() == 0 || pat.len() == 0 {
        s
    } else if begins_with(s, pat) {
        removed(s.skip(pat.len() as int), pat)
    } else {
        seq![s[0]] + removed(s.drop_first(), pat)
    }
}

/// An ASCII capital letter as its small letter, any other character as it is.
pub open spec fn lower(c: char) -> char {
    if 'A' <= c <= 'Z' {
        (c as u32 + 32) as char
    } else {
        c
    }
}

/// `s` with its ASCII capital letters made small.
pub open spec fn lowered(s: Seq<char>) -> Seq<char> {
    s.map_values(|c: char| lower(c))
}

/// The characters of a string.
pub fn to_chars(s: &str) -> (res: Vec<char>)
    ensures
        res@ == s@,
{
    let mut res: Vec<char> = Vec::new();
    for c in it: s.chars()
        invariant
            it.seq() == s@,
            res@ == it.seq().take(it.index() as int),
    {
        res.push(c);
    }
    assert(s@.take(s@.len() as int) =~= s@);
    res
}

/// The string of the characters from `from` up to `to`.
pub fn from_chars(cs: &Vec<char>, from: usize, to: usize) -> (res: String)
    requires
        from <= to <= cs@.len(),
    ensures
        res@ == cs@.subrange(from as int, to as int),
{
    let mut res = String::new();
    let mut i: usize = from;
    while i < to
        invariant
            from <= i <= to <= cs@.len(),
            res@ == cs@.subrange(from as int, i as int),
        decreases to - i,
    {
        res.push(cs[i]);
        i += 1;
    }
    res
}

/// A list of the same strings.
pub fn copied(v: &Vec<String>) -> (res: Vec<String>)
    ensures
        texts(res@) == texts(v@),
{
    let mut res: Vec<String> = Vec::new();
    let mut i: usize = 0;
    while i < v.len()
        invariant
            i <= v@.len(),
            res@.len() == i,
            forall|j: int| 0 <= j < i ==> (#[trigger] res@[j])@ == v@[j]@,
        decreases v@.len() - i,
    {
        res.push(v[i].clone());
        i += 1;
    }
    assert(texts(res@) =~= texts(v@));
    res
}

/// Whether `c` is white space.
pub fn whitespace(c: char) -> (res: bool)
    ensures
        res == is_whitespace(c),
{
    let u: u32 = c as u32;
    (0x09 <= u && u <= 0x0d) || u == 0x20 || u == 0x85 || u == 0xa0 || u == 0x1680 || (0x2000 <= u
        && u <= 0x200a) || u == 0x2028 || u == 0x2029 || u == 0x202f || u == 0x205f || u == 0x3000
}

/// Whether the two strings are the same text.
pub fn same(a: &str, b: &str) -> (res: bool)
    ensures
        res == (a@ == b@),
{
    let x = to_chars(a);
    let y = to_chars(b);
    if x.len() != y.len() {
        return false;
    }
    let mut i: usize = 0;
    while i < x.len()
        invariant
            i <= x@.len(),
            x@.len() == y@.len(),
            x@ == a@,
            y@ == b@,
            forall|j: int| 0 <= j < i ==> x@[j] == y@[j],
        decreases x@.len() - i,
    {
        if x[i] != y[i] {
            return false;
        }
        i += 1;
    }
    assert(a@ =~= b@);
    true
}

/// The text without the white space around it.
pub fn trim(s: &str) -> (res: String)
    ensures
        res@ == trimmed(s@),
{
    let cs = to_chars(s);
    let mut from: usize = 0;
    assert(cs@.skip(0) =~= cs@);
    while from < cs.len() && whitespace(cs[from])
        invariant
            from <= cs@.len(),
            trimmed_start(cs@) == trimmed_start(cs@.skip(from as int)),
        decreases cs@.len() - from,
    {
        assert(cs@.skip(from as int).drop_first() =~= cs@.skip(from as int + 1));
        from += 1;
    }
    let ghost rest = cs@.skip(from as int);
    assert(trimmed_start(cs@) == rest);
    let mut to: usize = cs.len();
    assert(cs@.subrange(from as int, to as int) =~= rest);
    while from < to && whitespace(cs[to - 1])
        invariant
            from <= to <= cs@.len(),
            trimmed_end(rest) == trimmed_end(cs@.subrange(from as int, to as int)),
        decreases to,
    {
        let ghost cur = cs@.subrange(from as int, to as int);
        assert(cur.drop_last() =~= cs@.subrange(from as int, to as int - 1));
        to -= 1;
    }
    from_chars(&cs, from, to)
}

/// The text without the run of `c` at its end.
pub fn trim_trailing(s: &str, c: char) -> (res: String)
    ensures
        res@ == without_trailing(s@, c),
{
    let cs = to_chars(s);
    let mut to: usize = cs.len();
    assert(cs@.take(to as int) =~= cs@);
    while 0 < to && cs[to - 1] == c
        invariant
            to <= cs@.len(),
            without_trailing(cs@, c) == without_trailing(cs@.take(to as int), c),
        decreases to,
    {
        assert(cs@.take(to as int).drop_last() =~= cs@.take(to as int - 1));
        to -= 1;
    }
    assert(cs@.subrange(0, to as int) =~= cs@.take(to as int));
    from_chars(&cs, 0, to)
}

/// The texts of a sequence of strings with one more string behind it.
pub proof fn lemma_texts_push(v: Seq<String>, s: String)
    ensures
        texts(v.push(s)) == texts(v).push(s@),
{
    assert(texts(v.push(s)) =~= texts(v).push(s@));
}

/// A pattern of one character occurs where the text holds that character.
pub proof fn lemma_single_occurs(s: Seq<char>, pat: Seq<char>)
    requires
        pat.len() == 1,
    ensures
        occurs(s, pat) == s.contains(pat[0]),
{
    if s.contains(pat[0]) {
        let i = choose|i: int| 0 <= i < s.len() && s[i] == pat[0];
        assert(s.subrange(i, i + 1) =~= pat);
        assert(occurs_at(s, pat, i));
    }
    if occurs(s, pat) {
        let i = choose|i: int| occurs_at(s, pat, i);
        assert(s[i] == s.subrange(i, i + 1)[0]);
    }
}

/// The index of the first `c` at or behind `from`; the length if there is none.
fn index_from(cs: &Vec<char>, from: usize, c: char) -> (res: usize)
    requires
        from <= cs@.len(),
    ensures
        from <= res <= cs@.len(),
        res - from == position(cs@.skip(from as int), c),
{
    let mut i: usize = from;
    while i < cs.len() && cs[i] != c
        invariant
            from <= i <= cs@.len(),
            position(cs@.skip(from as int), c) == i - from + position(cs@.skip(i as int), c),
        decreases cs@.len() - i,
    {
        assert(cs@.skip(i as int).drop_first() =~= cs@.skip(i as int + 1));
        i += 1;
    }
    i
}

/// The index of the first `c`; the length if there is none.
pub fn index_of(cs: &Vec<char>, c: char) -> (res: usize)
    ensures
        res <= cs@.len(),
        res == position(cs@, c),
{
    assert(cs@.skip(0) =~= cs@);
    index_from(cs, 0, c)
}

/// The position of `c` is that of its first occurrence.
pub proof fn lemma_position(s: Seq<char>, c: char)
    ensures
        position(s, c) <= s.len(),
        position(s, c) < s.len() ==> s[position(s, c) as int] == c,
        forall|i: int| 0 <= i < position(s, c) ==> s[i] != c,
        s.contains(c) == (position(s, c) < s.len()),
    decreases s.len(),
{
    if s.len() > 0 && s[0] != c {
        let rest = s.drop_first();
        lemma_position(rest, c);
        assert forall|i: int| 0 <= i < position(s, c) implies s[i] != c by {
            if i > 0 {
                assert(s[i] == rest[i - 1]);
            }
        }
    }
}

/// The maximal runs of characters that are not white space, in order.
pub fn split_words(s: &str) -> (res: Vec<String>)
    ensures
        texts(res@) == words(s@),
{
    let cs = to_chars(s);
    let mut res: Vec<String> = Vec::new();
    let mut i: usize = 0;
    assert(cs@.skip(0) =~= cs@);
    assert(texts(res@) + words(cs@) =~= words(cs@));
    while i < cs.len()
        invariant
            i <= cs@.len(),
            texts(res@) + words(cs@.skip(i as int)) == words(cs@),
        decreases cs@.len() - i,
    {
        let ghost rest = cs@.skip(i as int);
        if whitespace(cs[i]) {
            assert(rest.drop_first() =~= cs@.skip(i as int + 1));
            i += 1;
        } else {
            let start: usize = i;
            while i < cs.len() && !whitespace(cs[i])
                invariant
                    start <= i <= cs@.len(),
                    rest == cs@.skip(start as int),
                    word_len(rest) == i - start + word_len(cs@.skip(i as int)),
                decreases cs@.len() - i,
            {
                assert(cs@.skip(i as int).drop_first() =~= cs@.skip(i as int + 1));
                i += 1;
            }
            let word = from_chars(&cs, start, i);
            let ghost before = res@;
            proof {
                lemma_texts_push(res@, word);
                assert(word@ =~= rest.take(word_len(rest) as int));
            }
            res.push(word);
            if i < cs.len() {
                assert(rest.skip(word_len(rest) as int + 1) =~= cs@.skip(i as int + 1));
                assert(texts(res@) + words(cs@.skip(i as int + 1)) =~= texts(before) + words(rest));
                i += 1;
            } else {
                assert(rest.take(word_len(rest) as int) =~= rest);
                assert(texts(res@) + words(cs@.skip(i as int)) =~= texts(before) + words(rest));
            }
        }
    }
    assert(texts(res@) + words(cs@.skip(i as int)) =~= texts(res@));
    res
}

/// The parts of the text between the separators, in order.
pub fn split_parts(s: &str, sep: char) -> (res: Vec<String>)
    ensures
        texts(res@) == parts(s@, sep),
{
    let cs = to_chars(s);
    let mut res: Vec<String> = Vec::new();
    let mut i: usize = 0;
    assert(cs@.skip(0) =~= cs@);
    assert(texts(res@) + parts(cs@, sep) =~= parts(cs@, sep));
    loop
        invariant
            i <= cs@.len(),
            cs@ == s@,
            texts(res@) + parts(cs@.skip(i as int), sep) == parts(cs@, sep),
        decreases cs@.len() - i,
    {
        let ghost rest = cs@.skip(i as int);
        let ghost before = res@;
        let end = index_from(&cs, i, sep);
        let part = from_chars(&cs, i, end);
        proof {
            lemma_texts_push(res@, part);
            assert(part@ =~= rest.take(end - i));
        }
        res.push(part);
        if end >= cs.len() {
            assert(part@ =~= rest);
            assert(texts(res@) =~= texts(before) + parts(rest, sep));
            return res;
        }
        assert(rest.skip(end - i + 1) =~= cs@.skip(end as int + 1));
        assert(texts(res@) + parts(cs@.skip(end as int + 1), sep) =~= texts(before) + parts(
            rest,
            sep,
        ));
        i = end + 1;
    }
}

/// The part behind the first separator, up to the second one.
pub fn split_second(s: &str, sep: char) -> (res: Option<String>)
    ensures
        match res {
            Some(part) => second_part(s@, sep) == Some(part@),
            None => second_part(s@, sep) is None,
        },
{
    let all = split_parts(s, sep);
    assert(texts(all@).len() == all@.len());
    if all.len() > 1 {
        assert(texts(all@)[1] == all@[1]@);
        Some(all[1].clone())
    } else {
        None
    }
}

/// The lines of the text.
pub fn split_lines(s: &str) -> (res: Vec<String>)
    ensures
        texts(res@) == lines(s@),
{
    let cs = to_chars(s);
    let mut res: Vec<String> = Vec::new();
    let mut i: usize = 0;
    assert(cs@.skip(0) =~= cs@);
    assert(texts(res@) + lines(cs@) =~= lines(cs@));
    while i < cs.len()
        invariant
            i <= cs@.len(),
            texts(res@) + lines(cs@.skip(i as int)) == lines(cs@),
        decreases cs@.len() - i,
    {
        let ghost rest = cs@.skip(i as int);
        let ghost before = res@;
        let end = index_from(&cs, i, '\n');
        if end >= cs.len() {
            let line = from_chars(&cs, i, end);
            proof {
                lemma_texts_push(res@, line);
                assert(line@ =~= rest);
            }
            res.push(line);
            i = cs.len();
            assert(texts(res@) + lines(cs@.skip(i as int)) =~= texts(before) + lines(rest));
        } else {
            let ghost whole = rest.take(end - i);
            let stop: usize = if i < end && cs[end - 1] == '\r' { end - 1 } else { end };
            let line = from_chars(&cs, i, stop);
            proof {
                lemma_texts_push(res@, line);
                assert(line@ =~= without_carriage_return(whole));
            }
            res.push(line);
            assert(rest.skip(end - i + 1) =~= cs@.skip(end as int + 1));
            assert(texts(res@) + lines(cs@.skip(end as int + 1)) =~= texts(before) + lines(rest));
            i = end + 1;
        }
    }
    assert(texts(res@) + lines(cs@.skip(i as int)) =~= texts(res@));
    res
}

/// Whether `pat` stands in `cs` from `at` on.
fn matches_at(cs: &Vec<char>, pat: &Vec<char>, at: usize) -> (res: bool)
    requires
        at <= cs@.len(),
    ensures
        res == occurs_at(cs@, pat@, at as int),
{
    let len: usize = cs.len();
    if len - at < pat.len() {
        return false;
    }
    let mut i: usize = 0;
    while i < pat.len()
        invariant
            i <= pat@.len(),
            at + pat@.len() <= len == cs@.len(),
            forall|j: int| 0 <= j < i ==> cs@[at + j] == pat@[j],
        decreases pat@.len() - i,
    {
        if cs[at + i] != pat[i] {
            assert(cs@.subrange(at as int, at + pat@.len())[i as int] != pat@[i as int]);
            return false;
        }
        i += 1;
    }
    assert(cs@.subrange(at as int, at + pat@.len()) =~= pat@);
    true
}

/// Where `pat` stands first in the text, counted in characters.
pub fn find(s: &str, pat: &str) -> (res: Option<usize>)
    ensures
        match res {
            Some(i) => first_at(s@, pat@, i as int),
            None => !occurs(s@, pat@),
        },
{
    let cs = to_chars(s);
    let ps = to_chars(pat);
    let mut i: usize = 0;
    while ps.len() <= cs.len() - i
        invariant
            i <= cs@.len(),
            cs@ == s@,
            ps@ == pat@,
            forall|j: int| 0 <= j < i ==> !occurs_at(s@, pat@, j),
        decreases cs@.len() - i,
    {
        if matches_at(&cs, &ps, i) {
            return Some(i);
        }
        if i == cs.len() {
            return None;
        }
        i += 1;
    }
    None
}

/// Whether `pat` stands somewhere in the text.
pub fn contains(s: &str, pat: &str) -> (res: bool)
    ensures
        res == occurs(s@, pat@),
{
    match find(s, pat) {
        Some(i) => {
            assert(occurs_at(s@, pat@, i as int));
            true
        },
        None => false,
    }
}

/// Whether the text begins with `pat`.
pub fn starts_with(s: &str, pat: &str) -> (res: bool)
    ensures
        res == begins_with(s@, pat@),
{
    let cs = to_chars(s);
    let ps = to_chars(pat);
    matches_at(&cs, &ps, 0)
}

/// The text with every occurrence of `pat` taken out.
pub fn remove(s: &str, pat: &str) -> (res: String)
    ensures
        res@ == removed(s@, pat@),
{
    let cs = to_chars(s);
    let ps = to_chars(pat);
    let mut res = String::new();
    let mut i: usize = 0;
    assert(cs@.skip(0) =~= cs@);
    assert(res@ + removed(cs@, ps@) =~= removed(cs@, ps@));
    if ps.len() == 0 {
        assert(cs@.subrange(0, cs@.len() as int) =~= cs@);
        return from_chars(&cs, 0, cs.len());
    }
    while i < cs.len()
        invariant
            i <= cs@.len(),
            ps@.len() > 0,
            res@ + removed(cs@.skip(i as int), ps@) == removed(cs@, ps@),
        decreases cs@.len() - i,
    {
        let ghost rest = cs@.skip(i as int);
        let ghost before = res@;
        let here = matches_at(&cs, &ps, i);
        proof {
            if occurs_at(cs@, ps@, i as int) {
                assert(rest.subrange(0, ps@.len() as int) =~= cs@.subrange(
                    i as int,
                    i + ps@.len(),
                ));
            }
            if occurs_at(rest, ps@, 0) {
                assert(cs@.subrange(i as int, i + ps@.len()) =~= rest.subrange(
                    0,
                    ps@.len() as int,
                ));
            }
        }
        if here {
            assert(rest.skip(ps@.len() as int) =~= cs@.skip(i + ps@.len()));
            i += ps.len();
        } else {
            assert(rest.drop_first() =~= cs@.skip(i as int + 1));
            res.push(cs[i]);
            assert(res@ + removed(cs@.skip(i as int + 1), ps@) =~= before + removed(rest, ps@));
            i += 1;
        }
    }
    assert(res@ + removed(cs@.skip(i as int), ps@) =~= res@);
    res
}

/// The two texts, one behind the other.
pub fn concat(a: &str, b: &str) -> (res: String)
    ensures
        res@ == a@ + b@,
{
    let mut res = String::new();
    res.append(a);
    res.append(b);
    assert(res@ =~= a@ + b@);
    res
}

/// The three texts, one behind the other.
pub fn concat3(a: &str, b: &str, c: &str) -> (res: String)
    ensures
        res@ == a@ + b@ + c@,
{
    let mut res = concat(a, b);
    res.append(c);
    res
}

/// The text with its ASCII capital letters made small.
pub fn to_lower(s: &str) -> (res: String)
    ensures
        res@ == lowered(s@),
{
    let cs = to_chars(s);
    let mut res = String::new();
    let mut i: usize = 0;
    while i < cs.len()
        invariant
            i <= cs@.len(),
            res@ == lowered(cs@.take(i as int)),
        decreases cs@.len() - i,
    {
        let c = cs[i];
        if 'A' <= c && c <= 'Z' {
            let small: u8 = c as u8 + 32;
            res.push(small as char);
        } else {
            res.push(c);
        }
        assert(res@ =~= lowered(cs@.take(i as int + 1)));
        i += 1;
    }
    assert(cs@.take(i as int) =~= cs@);
    res
}

/// White space only.
pub open spec fn is_blank(s: Seq<char>) -> bool {
    forall|i: int| 0 <= i < s.len() ==> is_whitespace(#[trigger] s[i])
}

/// What is left of a trimmed text neither begins nor ends with white space.
pub proof fn law_trimmed_text_has_no_outer_space(s: Seq<char>)
    ensures
        trimmed(s).len() > 0 ==> !is_whitespace(trimmed(s)[0]) && !is_whitespace(
            trimmed(s).last(),
        ),
{
    lemma_trimmed_start(s);
    lemma_trimmed_end(trimmed_start(s));
}

/// What is left of a text is no longer and does not begin with white space.
pub proof fn lemma_trimmed_start(s: Seq<char>)
    ensures
        trimmed_start(s).len() <= s.len(),
        trimmed_start(s).len() > 0 ==> !is_whitespace(trimmed_start(s)[0]),
    decreases s.len(),
{
    if s.len() > 0 && is_whitespace(s[0]) {
        lemma_trimmed_start(s.drop_first());
    }
}

proof fn lemma_trimmed_end(s: Seq<char>)
    ensures
        trimmed_end(s).len() <= s.len(),
        trimmed_end(s).len() > 0 ==> !is_whitespace(trimmed_end(s).last()) && trimmed_end(s)[0]
            == s[0],
    decreases s.len(),
{
    if s.len() > 0 && is_whitespace(s.last()) {
        lemma_trimmed_end(s.drop_last());
    }
}

/// White space before a text makes no difference to what is left of it.
pub proof fn lemma_blank_before(a: Seq<char>, s: Seq<char>)
    requires
        is_blank(a),
    ensures
        trimmed_start(a + s) == trimmed_start(s),
    decreases a.len(),
{
    if a.len() == 0 {
        assert(a + s =~= s);
    } else {
        assert((a + s).drop_first() =~= a.drop_first() + s);
        assert((a + s)[0] == a[0]);
        lemma_blank_before(a.drop_first(), s);
    }
}

proof fn lemma_blank_behind(s: Seq<char>, b: Seq<char>)
    requires
        is_blank(b),
    ensures
        trimmed_end(s + b) == trimmed_end(s),
    decreases b.len(),
{
    if b.len() == 0 {
        assert(s + b =~= s);
    } else {
        assert((s + b).drop_last() =~= s + b.drop_last());
        assert((s + b).last() == b.last());
        lemma_blank_behind(s, b.drop_last());
    }
}

proof fn lemma_blank_trimmed(b: Seq<char>)
    requires
        is_blank(b),
    ensures
        trimmed_start(b).len() == 0,
    decreases b.len(),
{
    if b.len() > 0 {
        lemma_blank_trimmed(b.drop_first());
    }
}

proof fn lemma_start_of_padded(s: Seq<char>, b: Seq<char>)
    requires
        is_blank(b),
    ensures
        trimmed_start(s).len() > 0 ==> trimmed_start(s + b) == trimmed_start(s) + b,
        trimmed_start(s).len() == 0 ==> trimmed_start(s + b).len() == 0,
    decreases s.len(),
{
    if s.len() == 0 {
        assert(s + b =~= b);
        lemma_blank_trimmed(b);
    } else if is_whitespace(s[0]) {
        assert((s + b).drop_first() =~= s.drop_first() + b);
        assert((s + b)[0] == s[0]);
        lemma_start_of_padded(s.drop_first(), b);
    } else {
        assert((s + b)[0] == s[0]);
    }
}

/// White space around a text makes no difference to what is left of it.
pub proof fn law_padding_is_irrelevant(a: Seq<char>, s: Seq<char>, b: Seq<char>)
    requires
        is_blank(a),
        is_blank(b),
    ensures
        trimmed(a + s + b) == trimmed(s),
{
    assert(a + s + b =~= a + (s + b));
    lemma_blank_before(a, s + b);
    lemma_start_of_padded(s, b);
    if trimmed_start(s).len() > 0 {
        lemma_blank_behind(trimmed_start(s), b);
    } else {
        assert(trimmed_start(s + b) =~= trimmed_start(s));
    }
}

/// A text without white space at its ends is left as it is.
pub proof fn law_trimmed_text_stays(s: Seq<char>)
    requires
        s.len() > 0 ==> !is_whitespace(s[0]) && !is_whitespace(s.last()),
    ensures
        trimmed(s) == s,
{
}

/// One character or more, none of them white space.
pub open spec fn is_word(s: Seq<char>) -> bool {
    s.len() > 0 && forall|i: int| 0 <= i < s.len() ==> !is_whitespace(#[trigger] s[i])
}

/// The words of a text are not empty and hold no white space.
pub proof fn law_words_hold_no_space(s: Seq<char>)
    ensures
        forall|i: int| 0 <= i < words(s).len() ==> is_word(#[trigger] words(s)[i]),
    decreases s.len(),
{
    lemma_word_len(s);
    let n = word_len(s) as int;
    if s.len() == 0 {
    } else if is_whitespace(s[0]) {
        law_words_hold_no_space(s.drop_first());
        assert(words(s) == words(s.drop_first()));
    } else if n < s.len() {
        let rest = words(s.skip(n + 1));
        law_words_hold_no_space(s.skip(n + 1));
        assert(is_word(s.take(n)));
        assert forall|i: int| 0 <= i < words(s).len() implies is_word(#[trigger] words(s)[i]) by {
            if i > 0 {
                assert(words(s)[i] == rest[i - 1]);
            }
        }
    } else {
        assert(words(s) == seq![s]);
    }
}

proof fn lemma_word_len(s: Seq<char>)
    ensures
        word_len(s) <= s.len(),
        forall|i: int| 0 <= i < word_len(s) ==> !is_whitespace(#[trigger] s[i]),
        s.len() > 0 && !is_whitespace(s[0]) ==> word_len(s) > 0,
    decreases s.len(),
{
    if s.len() > 0 && !is_whitespace(s[0]) {
        let rest = s.drop_first();
        lemma_word_len(rest);
        assert forall|i: int| 0 <= i < word_len(s) implies !is_whitespace(#[trigger] s[i]) by {
            if i > 0 {
                assert(s[i] == rest[i - 1]);
            }
        }
    }
}

/// Words written one behind the other, each with a space behind it.
pub open spec fn spaced(ws: Seq<Seq<char>>) -> Seq<char>
    decreases ws.len(),
{
    if ws.len() == 0 {
        seq![]
    } else {
        ws[0] + seq![' '] + spaced(ws.drop_first())
    }
}

proof fn lemma_word_then_space(w: Seq<char>, space: char, rest: Seq<char>)
    requires
        forall|i: int| 0 <= i < w.len() ==> !is_whitespace(#[trigger] w[i]),
        is_whitespace(space),
    ensures
        word_len(w + seq![space] + rest) == w.len(),
    decreases w.len(),
{
    let s = w + seq![space] + rest;
    if w.len() > 0 {
        assert(s.drop_first() =~= w.drop_first() + seq![space] + rest);
        assert(s[0] == w[0]);
        lemma_word_then_space(w.drop_first(), space, rest);
    } else {
        assert(s[0] == space);
    }
}

/// A word with one white space behind it is the only word.
pub proof fn lemma_only_word(w: Seq<char>, space: char)
    requires
        is_word(w),
        is_whitespace(space),
    ensures
        words(w + seq![space]) == seq![w],
{
    let s = w + seq![space];
    let none: Seq<char> = seq![];
    lemma_word_then_space(w, space, none);
    assert(w + seq![space] + none =~= s);
    assert(s[0] == w[0]);
    assert(s.take(w.len() as int) =~= w);
    assert(s.skip(w.len() as int + 1) =~= none);
    assert(words(none) =~= seq![]);
    assert(words(s) =~= seq![w]);
}

/// Words that are written with spaces between them are read back.
pub proof fn law_written_words_are_read(ws: Seq<Seq<char>>)
    requires
        forall|i: int| 0 <= i < ws.len() ==> is_word(#[trigger] ws[i]),
    ensures
        words(spaced(ws)) == ws,
    decreases ws.len(),
{
    if ws.len() == 0 {
        assert(words(spaced(ws)) =~= ws);
    } else {
        let w = ws[0];
        let rest = spaced(ws.drop_first());
        let s = spaced(ws);
        assert(s[0] == w[0]);
        lemma_word_then_space(w, ' ', rest);
        assert(s.take(w.len() as int) =~= w);
        assert(s.skip(w.len() as int + 1) =~= rest);
        assert forall|i: int| 0 <= i < ws.drop_first().len() implies is_word(
            #[trigger] ws.drop_first()[i],
        ) by {
            assert(is_word(ws[i + 1]));
        }
        law_written_words_are_read(ws.drop_first());
        assert(words(s) =~= ws);
    }
}

/// Lines written one behind the other, each with a line feed behind it.
pub open spec fn ended(ls: Seq<Seq<char>>) -> Seq<char>
    decreases ls.len(),
{
    if ls.len() == 0 {
        seq![]
    } else {
        ls[0] + seq!['\n'] + ended(ls.drop_first())
    }
}

/// What stands before the first `c` is counted, whatever stands behind it.
pub proof fn lemma_position_before(a: Seq<char>, c: char, rest: Seq<char>)
    requires
        !a.contains(c),
    ensures
        position(a + seq![c] + rest, c) == a.len(),
        position(a, c) == a.len(),
    decreases a.len(),
{
    let s = a + seq![c] + rest;
    if a.len() > 0 {
        assert(a.contains(a[0]));
        assert(s[0] == a[0]);
        assert(s.drop_first() =~= a.drop_first() + seq![c] + rest);
        assert forall|i: int| 0 <= i < a.drop_first().len() implies a.drop_first()[i] != c by {
            assert(a.contains(a[i + 1]));
        }
        lemma_position_before(a.drop_first(), c, rest);
    } else {
        assert(s[0] == c);
    }
}

/// Lines that are written with a line feed behind each are read back, if no line
/// holds a line feed or ends with a carriage return.
pub proof fn law_written_lines_are_read(ls: Seq<Seq<char>>)
    requires
        forall|i: int|
            0 <= i < ls.len() ==> !(#[trigger] ls[i]).contains('\n') && without_carriage_return(
                ls[i],
            ) == ls[i],
    ensures
        lines(ended(ls)) == ls,
    decreases ls.len(),
{
    if ls.len() == 0 {
        assert(lines(ended(ls)) =~= ls);
    } else {
        let rest = ended(ls.drop_first());
        let s = ended(ls);
        lemma_position_before(ls[0], '\n', rest);
        assert(s.take(ls[0].len() as int) =~= ls[0]);
        assert(s.skip(ls[0].len() as int + 1) =~= rest);
        assert forall|i: int| 0 <= i < ls.drop_first().len() implies !(
        #[trigger] ls.drop_first()[i]).contains('\n') && without_carriage_return(
            ls.drop_first()[i],
        ) == ls.drop_first()[i] by {
            assert(!ls[i + 1].contains('\n'));
        }
        law_written_lines_are_read(ls.drop_first());
        assert(lines(s) =~= ls);
    }
}

/// A name and a value that are written with a separator between them are read
/// back.
pub proof fn law_written_pair_is_read(name: Seq<char>, sep: char, value: Seq<char>)
    requires
        !name.contains(sep),
        !value.contains(sep),
    ensures
        parts(name + seq![sep] + value, sep) == seq![name, value],
        second_part(name + seq![sep] + value, sep) == Some(value),
{
    let s = name + seq![sep] + value;
    lemma_position_before(name, sep, value);
    lemma_position_before(value, sep, seq![]);
    assert(s.take(name.len() as int) =~= name);
    assert(s.skip(name.len() as int + 1) =~= value);
    assert(parts(value, sep) == seq![value]);
    assert(parts(s, sep) =~= seq![name, value]);
}

/// White space is the tab, the four other characters that end or feed lines, the
/// space, the next line, and the spaces and separators of Unicode.
pub proof fn law_what_white_space_is(c: char)
    ensures
        is_whitespace(c) == (c == '\t' || c == '\n' || c == '\u{b}' || c == '\u{c}' || c == '\r' || c
            == ' ' || c == '\u{85}' || c == '\u{a0}' || c == '\u{1680}' || '\u{2000}' <= c
            <= '\u{200a}' || c == '\u{2028}' || c == '\u{2029}' || c == '\u{202f}' || c
            == '\u{205f}' || c == '\u{3000}'),
{
}

/// Of a text with white space around it the text is left, and of white space
/// nothing.
pub proof fn law_what_stands_between_space_is_left(a: Seq<char>, s: Seq<char>, b: Seq<char>)
    requires
        forall|i: int| 0 <= i < a.len() ==> is_whitespace(#[trigger] a[i]),
        forall|i: int| 0 <= i < b.len() ==> is_whitespace(#[trigger] b[i]),
        s.len() > 0 ==> !is_whitespace(s[0]) && !is_whitespace(s[s.len() - 1]),
    ensures
        trimmed(a + s + b) == s,
{
    law_padding_is_irrelevant(a, s, b);
    law_trimmed_text_stays(s);
}

/// Of a text with a run of one character behind it the text is left, if it does
/// not end with that character itself.
pub proof fn law_run_at_the_end_is_cut(s: Seq<char>, c: char, run: Seq<char>)
    requires
        s.len() > 0 ==> s[s.len() - 1] != c,
        forall|i: int| 0 <= i < run.len() ==> #[trigger] run[i] == c,
    ensures
        without_trailing(s + run, c) == s,
    decreases run.len(),
{
    if run.len() == 0 {
        assert(s + run =~= s);
    } else {
        assert((s + run).last() == run[run.len() - 1]);
        assert((s + run).drop_last() =~= s + run.drop_last());
        law_run_at_the_end_is_cut(s, c, run.drop_last());
    }
}

/// The first word of a text is the first run of characters between white space,
/// and the others are those of what stands behind it. White space alone has no
/// words.
pub proof fn law_words_stand_between_space(a: Seq<char>, w: Seq<char>, b: Seq<char>)
    requires
        forall|i: int| 0 <= i < a.len() ==> is_whitespace(#[trigger] a[i]),
        w.len() > 0,
        forall|i: int| 0 <= i < w.len() ==> !is_whitespace(#[trigger] w[i]),
        b.len() > 0 ==> is_whitespace(b[0]),
    ensures
        words(a + w + b) == seq![w] + words(b),
        words(a) == Seq::<Seq<char>>::empty(),
    decreases a.len(),
{
    let s = a + w + b;
    if a.len() > 0 {
        assert(s[0] == a[0]);
        assert(s.drop_first() =~= a.drop_first() + w + b);
        law_words_stand_between_space(a.drop_first(), w, b);
    } else {
        assert(s[0] == w[0]);
        if b.len() > 0 {
            assert(s =~= w + seq![b[0]] + b.drop_first());
            lemma_word_then_space(w, b[0], b.drop_first());
            assert(s.take(w.len() as int) =~= w);
            assert(s.skip(w.len() as int + 1) =~= b.drop_first());
        } else {
            assert(s =~= w);
            lemma_all_of_a_word(w);
            assert(seq![w] + words(b) =~= seq![w]);
        }
    }
}

proof fn lemma_all_of_a_word(w: Seq<char>)
    requires
        forall|i: int| 0 <= i < w.len() ==> !is_whitespace(#[trigger] w[i]),
    ensures
        word_len(w) == w.len(),
    decreases w.len(),
{
    if w.len() > 0 {
        lemma_all_of_a_word(w.drop_first());
    }
}

/// The first part of a text is what stands before the first separator, and the
/// others are those of what stands behind it. Without a separator the text is
/// the only part.
pub proof fn law_parts_are_cut_at_each_separator(a: Seq<char>, sep: char, rest: Seq<char>)
    requires
        forall|i: int| 0 <= i < a.len() ==> #[trigger] a[i] != sep,
    ensures
        parts(a + seq![sep] + rest, sep) == seq![a] + parts(rest, sep),
        parts(a, sep) == seq![a],
{
    let s = a + seq![sep] + rest;
    lemma_position_before(a, sep, rest);
    assert(s.take(a.len() as int) =~= a);
    assert(s.skip(a.len() as int + 1) =~= rest);
}

/// The second part is what stands behind the first separator, up to the second
/// one if there is another. Without a separator there is none.
pub proof fn law_second_part_stands_behind_the_first(
    a: Seq<char>,
    sep: char,
    value: Seq<char>,
    rest: Seq<char>,
)
    requires
        forall|i: int| 0 <= i < a.len() ==> #[trigger] a[i] != sep,
        forall|i: int| 0 <= i < value.len() ==> #[trigger] value[i] != sep,
    ensures
        second_part(a, sep) == None::<Seq<char>>,
        second_part(a + seq![sep] + value, sep) == Some(value),
        second_part(a + seq![sep] + value + seq![sep] + rest, sep) == Some(value),
{
    law_parts_are_cut_at_each_separator(a, sep, value);
    law_parts_are_cut_at_each_separator(value, sep, rest);
    let more = value + seq![sep] + rest;
    law_parts_are_cut_at_each_separator(a, sep, more);
    assert(a + seq![sep] + value + seq![sep] + rest =~= a + seq![sep] + more);
}

/// The first line of a text is what stands before the first line feed, without
/// one carriage return at its end, and the others are those of what stands
/// behind it. What stands behind the last line feed is a line if it is not empty.
pub proof fn law_lines_are_cut_at_each_line_feed(line: Seq<char>, rest: Seq<char>)
    requires
        forall|i: int| 0 <= i < line.len() ==> #[trigger] line[i] != '\n',
    ensures
        lines(line + seq!['\n'] + rest) == seq![
            if line.len() > 0 && line[line.len() - 1] == '\r' {
                line.drop_last()
            } else {
                line
            },
        ] + lines(rest),
        line.len() > 0 ==> lines(line) == seq![line],
        line.len() == 0 ==> lines(line) == Seq::<Seq<char>>::empty(),
{
    let s = line + seq!['\n'] + rest;
    lemma_position_before(line, '\n', rest);
    assert(s.take(line.len() as int) =~= line);
    assert(s.skip(line.len() as int + 1) =~= rest);
}

/// A pattern stands at a place if the text has its characters from there on.
pub proof fn law_where_a_pattern_stands(s: Seq<char>, pat: Seq<char>, i: int)
    ensures
        occurs_at(s, pat, i) == (0 <= i && i + pat.len() <= s.len() && forall|k: int|
            0 <= k < pat.len() ==> s[i + k] == #[trigger] pat[k]),
        first_at(s, pat, i) == (occurs_at(s, pat, i) && !exists|j: int|
            0 <= j < i && #[trigger] occurs_at(s, pat, j)),
        begins_with(s, pat) == occurs_at(s, pat, 0),
{
    if 0 <= i && i + pat.len() <= s.len() {
        let found = s.subrange(i, i + pat.len());
        assert forall|k: int| 0 <= k < pat.len() implies found[k] == s[i + k] by {}
        if forall|k: int| 0 <= k < pat.len() ==> s[i + k] == #[trigger] pat[k] {
            assert(found =~= pat);
        }
        if occurs_at(s, pat, i) {
            assert forall|k: int| 0 <= k < pat.len() implies s[i + k] == #[trigger] pat[k] by {
                assert(found[k] == s[i + k]);
            }
        }
    }
}

/// A pattern occurs in a text exactly if the text is the pattern with something
/// before and something behind it, and begins it exactly if there is nothing
/// before it.
pub proof fn law_what_occurs_is_part_of_the_text(s: Seq<char>, pat: Seq<char>)
    ensures
        occurs(s, pat) == exists|a: Seq<char>, b: Seq<char>| s == #[trigger] (a + pat + b),
        begins_with(s, pat) == exists|b: Seq<char>| s == #[trigger] (pat + b),
{
    if occurs(s, pat) {
        let i = choose|i: int| occurs_at(s, pat, i);
        let (a, b) = (s.take(i), s.skip(i + pat.len()));
        assert(s =~= a + s.subrange(i, i + pat.len()) + b);
        assert(s == a + pat + b);
    }
    if exists|a: Seq<char>, b: Seq<char>| s == #[trigger] (a + pat + b) {
        let (a, b) = choose|a: Seq<char>, b: Seq<char>| s == #[trigger] (a + pat + b);
        assert(s.subrange(a.len() as int, (a.len() + pat.len()) as int) =~= pat);
        assert(occurs_at(s, pat, a.len() as int));
    }
    if begins_with(s, pat) {
        let b = s.skip(pat.len() as int);
        assert(s =~= s.subrange(0, pat.len() as int) + b);
        assert(s == pat + b);
    }
    if exists|b: Seq<char>| s == #[trigger] (pat + b) {
        let b = choose|b: Seq<char>| s == #[trigger] (pat + b);
        assert(s.subrange(0, pat.len() as int) =~= pat);
    }
}

/// Taking a pattern out of a text takes out its first occurrence and then those
/// in what stands behind it. A text without it stays.
pub proof fn law_every_occurrence_is_taken_out(a: Seq<char>, pat: Seq<char>, b: Seq<char>)
    requires
        pat.len() > 0,
    ensures
        first_at(a + pat + b, pat, a.len() as int) ==> removed(a + pat + b, pat) == a + removed(
            b,
            pat,
        ),
        !occurs(a, pat) ==> removed(a, pat) == a,
    decreases a.len(),
{
    let s = a + pat + b;
    if a.len() == 0 {
        assert(s.subrange(0, pat.len() as int) =~= pat);
        assert(s.skip(pat.len() as int) =~= b);
        assert(removed(s, pat) =~= a + removed(b, pat));
        assert(removed(a, pat) =~= a);
    } else {
        let tail = a.drop_first();
        let rest = tail + pat + b;
        law_every_occurrence_is_taken_out(tail, pat, b);
        assert(s.drop_first() =~= rest);
        assert(s[0] == a[0]);
        if first_at(s, pat, a.len() as int) {
            assert(!occurs_at(s, pat, 0));
            assert(rest.subrange(tail.len() as int, (tail.len() + pat.len()) as int) =~= pat);
            assert forall|j: int| 0 <= j < tail.len() implies !occurs_at(rest, pat, j) by {
                assert(!occurs_at(s, pat, j + 1));
                if occurs_at(rest, pat, j) {
                    assert(s.subrange(j + 1, j + 1 + pat.len()) =~= rest.subrange(
                        j,
                        j + pat.len(),
                    ));
                }
            }
            assert(seq![a[0]] + (tail + removed(b, pat)) =~= a + removed(b, pat));
        }
        if !occurs(a, pat) {
            assert(!occurs_at(a, pat, 0));
            assert forall|j: int| !occurs_at(tail, pat, j) by {
                assert(!occurs_at(a, pat, j + 1));
                if occurs_at(tail, pat, j) {
                    assert(a.subrange(j + 1, j + 1 + pat.len()) =~= tail.subrange(
                        j,
                        j + pat.len(),
                    ));
                }
            }
            assert(seq![a[0]] + tail =~= a);
        }
    }
}

/// Making letters small changes the capital letters of ASCII to the small ones at
/// the same place in the alphabet, and nothing else.
pub proof fn law_capitals_become_small(s: Seq<char>, i: int)
    ensures
        lowered(s).len() == s.len(),
        0 <= i < s.len() && 'A' <= s[i] <= 'Z' ==> lowered(s)[i] as u32 - 'a' as u32 == s[i] as u32
            - 'A' as u32,
        0 <= i < s.len() && !('A' <= s[i] <= 'Z') ==> lowered(s)[i] == s[i],
{
}

/// The texts of strings are their characters, string by string.
pub proof fn law_texts_are_those_of_the_strings(v: Seq<String>, s: String, t: &str, i: int)
    ensures
        texts(v).len() == v.len(),
        0 <= i < v.len() ==> texts(v)[i] == v[i]@,
        text_of(Some(s)) == Some(s@),
        text_of(None) == None::<Seq<char>>,
        view_of(Some(t)) == Some(t@),
        view_of(None) == None::<Seq<char>>,
{
}

/// Keeping what a function gives of each value: what it gives of the first one,
/// then what it gives of the others.
pub proof fn lemma_filter_map_first<A, B>(f: spec_fn(A) -> Option<B>, x: A, rest: Seq<A>)
    ensures
        (seq![x] + rest).filter_map(f) == (match f(x) {
            Some(y) => seq![y],
            None => Seq::<B>::empty(),
        }) + rest.filter_map(f),
    decreases rest.len(),
{
    reveal(Seq::filter_map);
    let all = seq![x] + rest;
    if rest.len() == 0 {
        let none: Seq<A> = seq![];
        assert(all.drop_last() =~= none);
        assert(none.filter_map(f) =~= Seq::<B>::empty());
        assert(all.last() == x);
        assert(rest =~= none);
        assert(all.filter_map(f) =~= (match f(x) {
            Some(y) => seq![y],
            None => Seq::<B>::empty(),
        }) + rest.filter_map(f));
    } else {
        assert(all.drop_last() =~= seq![x] + rest.drop_last());
        assert(all.last() == rest.last());
        lemma_filter_map_first(f, x, rest.drop_last());
        assert(all.filter_map(f) =~= (match f(x) {
            Some(y) => seq![y],
            None => Seq::<B>::empty(),
        }) + rest.filter_map(f));
    }
}

/// What is left of a trimmed text is a part of it.
pub proof fn lemma_trimmed_is_part(s: Seq<char>)
    ensures
        exists|p: Seq<char>, q: Seq<char>| s == #[trigger] (p + trimmed(s) + q),
{
    lemma_trimmed_start_is_suffix(s);
    lemma_trimmed_end_is_prefix(trimmed_start(s));
    let t = trimmed_start(s);
    let p = s.take(s.len() - t.len());
    let q = t.skip(trimmed(s).len() as int);
    assert(s =~= p + t);
    assert(t =~= trimmed(s) + q);
    assert(s =~= p + trimmed(s) + q);
}

proof fn lemma_trimmed_start_is_suffix(s: Seq<char>)
    ensures
        trimmed_start(s).len() <= s.len(),
        s.skip(s.len() - trimmed_start(s).len()) == trimmed_start(s),
    decreases s.len(),
{
    if s.len() > 0 && is_whitespace(s[0]) {
        let rest = s.drop_first();
        lemma_trimmed_start_is_suffix(rest);
        assert(rest.skip(rest.len() - trimmed_start(rest).len()) =~= s.skip(
            s.len() - trimmed_start(s).len(),
        ));
    } else {
        assert(s.skip(0) =~= s);
    }
}

proof fn lemma_trimmed_end_is_prefix(s: Seq<char>)
    ensures
        trimmed_end(s).len() <= s.len(),
        s.take(trimmed_end(s).len() as int) == trimmed_end(s),
    decreases s.len(),
{
    if s.len() > 0 && is_whitespace(s.last()) {
        let rest = s.drop_last();
        lemma_trimmed_end_is_prefix(rest);
        assert(rest.take(trimmed_end(rest).len() as int) =~= s.take(trimmed_end(s).len() as int));
    } else {
        assert(s.take(s.len() as int) =~= s);
    }
}

/// A part without white space is still there when the text is trimmed.
pub proof fn lemma_inner_part_stays(a: Seq<char>, pat: Seq<char>, b: Seq<char>)
    requires
        pat.len() > 0,
        forall|i: int| 0 <= i < pat.len() ==> !is_whitespace(#[trigger] pat[i]),
    ensures
        occurs(trimmed(a + pat + b), pat),
    decreases a.len() + b.len(),
{
    let s = a + pat + b;
    if a.len() > 0 && is_whitespace(a[0]) {
        assert(s[0] == a[0]);
        assert(s.drop_first() =~= a.drop_first() + pat + b);
        lemma_inner_part_stays(a.drop_first(), pat, b);
    } else {
        if a.len() > 0 {
            assert(s[0] == a[0]);
        } else {
            assert(s[0] == pat[0]);
        }
        assert(trimmed_start(s) == s);
        lemma_inner_part_stays_at_the_end(a, pat, b);
    }
}

proof fn lemma_inner_part_stays_at_the_end(a: Seq<char>, pat: Seq<char>, b: Seq<char>)
    requires
        pat.len() > 0,
        forall|i: int| 0 <= i < pat.len() ==> !is_whitespace(#[trigger] pat[i]),
    ensures
        occurs(trimmed_end(a + pat + b), pat),
    decreases b.len(),
{
    let s = a + pat + b;
    if b.len() > 0 && is_whitespace(b.last()) {
        assert(s.last() == b.last());
        assert(s.drop_last() =~= a + pat + b.drop_last());
        lemma_inner_part_stays_at_the_end(a, pat, b.drop_last());
    } else {
        if b.len() > 0 {
            assert(s.last() == b.last());
        } else {
            assert(s.last() == pat[pat.len() - 1]);
        }
        assert(trimmed_end(s) == s);
        assert(s.subrange(a.len() as int, (a.len() + pat.len()) as int) =~= pat);
        assert(occurs_at(s, pat, a.len() as int));
    }
}

/// What is cut off at the start of a text is white space.
pub proof fn lemma_blank_is_cut(s: Seq<char>)
    ensures
        trimmed_start(s).len() <= s.len(),
        s == s.take(s.len() - trimmed_start(s).len()) + trimmed_start(s),
        is_blank(s.take(s.len() - trimmed_start(s).len())),
    decreases s.len(),
{
    lemma_trimmed_start_is_suffix(s);
    let n = s.len() - trimmed_start(s).len();
    assert(s =~= s.take(n) + s.skip(n));
    if s.len() > 0 && is_whitespace(s[0]) {
        let rest = s.drop_first();
        lemma_blank_is_cut(rest);
        let cut = rest.take(n - 1);
        assert forall|i: int| 0 <= i < s.take(n).len() implies is_whitespace(
            #[trigger] s.take(n)[i],
        ) by {
            if i > 0 {
                assert(s.take(n)[i] == cut[i - 1]);
            }
        }
    }
}

} // verus!
