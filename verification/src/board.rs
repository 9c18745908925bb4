//! The name of the board and the model of its chip.

use vstd::prelude::*;

use crate::outside;
use crate::pattern;
use crate::text;

verus! {

/// The model in the text of a device tree: without the zeros behind it and the
/// white space around it.
pub open spec fn model_in(s: Seq<char>) -> Seq<char> {
    text::trimmed(text::without_trailing(s, '\0'))
}

/// The first model among these texts that is not empty; `Unknown Board` if
/// there is none.
pub open spec fn board_name(contents: Seq<Option<Seq<char>>>) -> Seq<char>
    decreases contents.len(),
{
    if contents.len() == 0 {
        "Unknown Board"@
    } else {
        match contents[0] {
            Some(s) if model_in(s).len() > 0 => model_in(s),
            _ => board_name(contents.drop_first()),
        }
    }
}

/// The texts of the files that could be read.
pub open spec fn decoded(files: Seq<Option<Vec<u8>>>) -> Seq<Option<Seq<char>>> {
    files.map_values(
        |file: Option<Vec<u8>>|
            match file {
                Some(bytes) => Some(outside::utf8_lossy(bytes@)),
                None => None,
            },
    )
}

/// The texts of the files that could be read, each one being valid UTF-8.
pub open spec fn utf8_texts(files: Seq<Option<Vec<u8>>>) -> Seq<Option<Seq<char>>> {
    files.map_values(
        |file: Option<Vec<u8>>|
            match file {
                Some(bytes) => Some(vstd::utf8::decode_utf8(bytes@)),
                None => None,
            },
    )
}

/// The files that could be read are valid UTF-8.
pub open spec fn all_utf8(files: Seq<Option<Vec<u8>>>) -> bool {
    forall|i: int|
        0 <= i < files.len() ==> ((#[trigger] files[i]) matches Some(bytes)
            ==> vstd::utf8::valid_utf8(bytes@))
}

/// What a list of optional strings holds.
pub open spec fn optional_texts(v: Seq<Option<String>>) -> Seq<Option<Seq<char>>> {
    v.map_values(|s: Option<String>| text::text_of(s))
}

/// The name of the board, given the texts of the files that may tell it.
pub fn board_name_from(contents: &Vec<Option<String>>) -> (res: String)
    ensures
        res@ == board_name(optional_texts(contents@)),
{
    let ghost all = optional_texts(contents@);
    let mut i: usize = 0;
    assert(all.skip(0) =~= all);
    while i < contents.len()
        invariant
            i <= contents@.len(),
            all == optional_texts(contents@),
            board_name(all) == board_name(all.skip(i as int)),
        decreases contents@.len() - i,
    {
        let ghost rest = all.skip(i as int);
        assert(rest[0] == text::text_of(contents@[i as int]));
        if let Some(content) = &contents[i] {
            let model = text::trim(text::trim_trailing(content.as_str(), '\0').as_str());
            if !model.as_str().is_empty() {
                return model;
            }
        }
        assert(rest.drop_first() =~= all.skip(i as int + 1));
        i += 1;
    }
    "Unknown Board".to_string()
}

/// The files that may tell the name of the board, the preferred one first.
pub open spec fn board_name_paths() -> Seq<Seq<char>> {
    seq!["/proc/device-tree/model"@, "/sys/firmware/devicetree/base/model"@]
}

/// The files that may tell the name of the board, the preferred one first.
pub fn board_name_files() -> (res: Vec<String>)
    ensures
        text::texts(res@) == board_name_paths(),
{
    let mut res: Vec<String> = Vec::new();
    res.push("/proc/device-tree/model".to_string());
    res.push("/sys/firmware/devicetree/base/model".to_string());
    assert(text::texts(res@) =~= board_name_paths());
    res
}

/// The name of the board, from the files that may tell it.
pub fn get_board_name(files: &Vec<Option<Vec<u8>>>) -> (res: String)
    ensures
        res@ == board_name(decoded(files@)),
        all_utf8(files@) ==> res@ == board_name(utf8_texts(files@)),
{
    let mut contents: Vec<Option<String>> = Vec::new();
    let mut i: usize = 0;
    while i < files.len()
        invariant
            i <= files@.len(),
            contents@.len() == i,
            forall|j: int|
                0 <= j < i ==> text::text_of(#[trigger] contents@[j]) == decoded(files@)[j],
            all_utf8(files@) ==> forall|j: int|
                0 <= j < i ==> text::text_of(#[trigger] contents@[j]) == utf8_texts(files@)[j],
        decreases files@.len() - i,
    {
        match &files[i] {
            Some(bytes) => {
                contents.push(Some(outside::decode_lossy(bytes.as_slice())));
            },
            None => {
                contents.push(None);
            },
        }
        i += 1;
    }
    assert(optional_texts(contents@) =~= decoded(files@));
    assert(all_utf8(files@) ==> optional_texts(contents@) =~= utf8_texts(files@));
    board_name_from(&contents)
}

/// The model that is told when the name of a board holds this one, in capital
/// letters; `Unknown RK` if it holds none.
pub open spec fn rk_model(found: Option<Seq<char>>) -> Seq<char> {
    match found {
        Some(model) => outside::uppercased(model),
        None => "Unknown RK"@,
    }
}

/// The model of the chip that the name of a board holds.
pub open spec fn rk_model_in(board: Seq<char>) -> Seq<char> {
    rk_model(outside::first_capture(pattern::model_pattern(), board, 1))
}

/// The model of the chip that the plain name of a board holds.
pub open spec fn plain_rk_model_in(board: Seq<char>) -> Seq<char> {
    match pattern::first_model(board) {
        Some(model) => model,
        None => "Unknown RK"@,
    }
}

/// The model name that the name of a board holds.
pub fn find_model(board: &str) -> (res: Option<String>)
    ensures
        text::text_of(res) == outside::first_capture(pattern::model_pattern(), board@, 1),
        pattern::is_plain(board@) ==> text::text_of(res) == pattern::first_model(board@),
        match res {
            Some(model) => text::occurs(board@, model@) && pattern::looks_like_model(model@),
            None => pattern::holds_no_model(board@),
        },
{
    outside::capture("\\b(RK\\d+)\\b", board, 1)
}

/// The model that is told when the name of a board holds this one.
pub fn rk_model_from(found: Option<String>) -> (res: String)
    ensures
        res@ == rk_model(text::text_of(found)),
        found is None ==> res@ == "Unknown RK"@,
        found matches Some(model) ==> vstd::utf8::is_ascii_chars(model@) ==> res@
            == model@.map_values(|c: char| outside::upper(c)),
{
    match found {
        Some(model) => outside::to_uppercase(model.as_str()),
        None => "Unknown RK".to_string(),
    }
}

/// The model of the Rockchip chip, from the files that may tell the name of the
/// board.
pub fn get_rk_model(files: &Vec<Option<Vec<u8>>>) -> (res: String)
    ensures
        res@ == rk_model_in(board_name(decoded(files@))),
        pattern::is_plain(board_name(decoded(files@))) ==> res@ == plain_rk_model_in(
            board_name(decoded(files@)),
        ),
        all_utf8(files@) && pattern::is_plain(board_name(utf8_texts(files@))) ==> res@
            == plain_rk_model_in(board_name(utf8_texts(files@))),
{
    let board = get_board_name(files);
    proof {
        lemma_model_is_in_capitals(board@, 0);
    }
    rk_model_from(find_model(board.as_str()))
}

/// The board always has a name.
pub proof fn law_board_name_is_not_empty(contents: Seq<Option<Seq<char>>>)
    ensures
        board_name(contents).len() > 0,
    decreases contents.len(),
{
    reveal_strlit("Unknown Board");
    if contents.len() > 0 {
        law_board_name_is_not_empty(contents.drop_first());
    }
}

/// A model that is told is found, whatever zeros and white space stand around
/// it, and whatever the files behind tell.
pub proof fn law_told_model_is_the_name(
    model: Seq<char>,
    zeros: Seq<char>,
    others: Seq<Option<Seq<char>>>,
)
    requires
        model.len() > 0,
        text::trimmed(model) == model,
        model.last() != '\0',
        forall|i: int| 0 <= i < zeros.len() ==> zeros[i] == '\0',
    ensures
        board_name(seq![Some(model + zeros)] + others) == model,
{
    lemma_zeros(model, zeros);
    let contents = seq![Some(model + zeros)] + others;
    assert(contents[0] == Some(model + zeros));
}

proof fn lemma_zeros(model: Seq<char>, zeros: Seq<char>)
    requires
        model.len() > 0,
        model.last() != '\0',
        forall|i: int| 0 <= i < zeros.len() ==> zeros[i] == '\0',
    ensures
        text::without_trailing(model + zeros, '\0') == model,
    decreases zeros.len(),
{
    if zeros.len() == 0 {
        assert(model + zeros =~= model);
    } else {
        assert((model + zeros).drop_last() =~= model + zeros.drop_last());
        assert((model + zeros).last() == '\0');
        lemma_zeros(model, zeros.drop_last());
    }
}

/// A model name in a plain text is in ASCII and has no small letters.
proof fn lemma_model_is_in_capitals(s: Seq<char>, i: int)
    ensures
        pattern::model_from(s, i) matches Some(model) ==> vstd::utf8::is_ascii_chars(model)
            && model.map_values(|c: char| outside::upper(c)) == model,
    decreases s.len() - i,
{
    if 0 <= i < s.len() {
        let rest = s.skip(i);
        match pattern::leading_model(rest) {
            Some(model) => {
                reveal_strlit("RK");
                pattern::lemma_leading_digits(rest.skip(2));
                assert(model.subrange(0, 2) =~= rest.subrange(0, 2));
                assert forall|k: int| 0 <= k < model.len() implies outside::upper(
                    #[trigger] model[k],
                ) == model[k] && (model[k] as u32) < 0x80 by {
                    if k < 2 {
                        assert(model[k] == rest.subrange(0, 2)[k]);
                    } else {
                        assert(model[k] == rest.skip(2)[k - 2]);
                    }
                }
                assert(model.map_values(|c: char| outside::upper(c)) =~= model);
            },
            None => {},
        }
        lemma_model_is_in_capitals(s, i + 1);
    }
}

/// A model is told with any white space around it and any zeros behind that; what
/// is left is the model. A text of white space and zeros behind it tells none.
pub proof fn law_model_is_what_stands_between(
    a: Seq<char>,
    model: Seq<char>,
    b: Seq<char>,
    zeros: Seq<char>,
)
    requires
        forall|i: int| 0 <= i < a.len() ==> text::is_whitespace(#[trigger] a[i]),
        forall|i: int| 0 <= i < b.len() ==> text::is_whitespace(#[trigger] b[i]),
        forall|i: int| 0 <= i < zeros.len() ==> #[trigger] zeros[i] == '\0',
        model.len() > 0 ==> !text::is_whitespace(model[0]) && !text::is_whitespace(
            model[model.len() - 1],
        ),
        model.len() > 0 && b.len() == 0 ==> model[model.len() - 1] != '\0',
    ensures
        model_in(a + model + b + zeros) == model,
{
    let told = a + model + b;
    if told.len() > 0 {
        let last = told[told.len() - 1];
        if b.len() > 0 {
            assert(last == b[b.len() - 1]);
        } else if model.len() > 0 {
            assert(last == model[model.len() - 1]);
        } else {
            assert(last == a[a.len() - 1]);
        }
        assert(last != '\0');
    }
    text::law_run_at_the_end_is_cut(told, '\0', zeros);
    text::law_what_stands_between_space_is_left(a, model, b);
}

/// The first file that tells a model names the board, whatever the files behind it
/// tell; one that cannot be read or tells none is passed over.
pub proof fn law_first_model_names_the_board(told: Seq<char>, others: Seq<Option<Seq<char>>>)
    ensures
        model_in(told).len() > 0 ==> board_name(seq![Some(told)] + others) == model_in(told),
        model_in(told).len() == 0 ==> board_name(seq![Some(told)] + others) == board_name(others),
        board_name(seq![None] + others) == board_name(others),
        board_name(Seq::<Option<Seq<char>>>::empty()) == "Unknown Board"@,
{
    let files = seq![Some(told)] + others;
    assert(files[0] == Some(told));
    assert(files.drop_first() =~= others);
    let unread = seq![None::<Seq<char>>] + others;
    assert(unread[0] is None);
    assert(unread.drop_first() =~= others);
}

/// The model of the chip is the one that the pattern takes from the name of the
/// board, in capital letters; it is unknown only if the pattern takes none.
pub proof fn law_model_is_taken_from_the_name(board: Seq<char>, found: Seq<char>)
    ensures
        rk_model(Some(found)) == outside::uppercased(found),
        rk_model(None) == "Unknown RK"@,
        match outside::first_capture("\\b(RK\\d+)\\b"@, board, 1) {
            Some(model) => rk_model_in(board) == outside::uppercased(model),
            None => rk_model_in(board) == "Unknown RK"@,
        },
        match pattern::first_model(board) {
            Some(model) => plain_rk_model_in(board) == model,
            None => plain_rk_model_in(board) == "Unknown RK"@,
        },
{
}

/// Each file that could be read has the text that its bytes are decoded to.
pub proof fn law_files_are_decoded_one_by_one(
    files: Seq<Option<Vec<u8>>>,
    texts: Seq<Option<String>>,
    i: int,
)
    ensures
        decoded(files).len() == files.len(),
        utf8_texts(files).len() == files.len(),
        optional_texts(texts).len() == texts.len(),
        0 <= i < texts.len() ==> optional_texts(texts)[i] == text::text_of(texts[i]),
        0 <= i < files.len() ==> match files[i] {
            Some(bytes) => decoded(files)[i] == Some(outside::utf8_lossy(bytes@)) && utf8_texts(
                files,
            )[i] == Some(vstd::utf8::decode_utf8(bytes@)),
            None => decoded(files)[i] is None && utf8_texts(files)[i] is None,
        },
        all_utf8(files) == !exists|k: int|
            0 <= k < files.len() && ((#[trigger] files[k]) matches Some(bytes)
                && !vstd::utf8::valid_utf8(bytes@)),
{
}

} // verus!
