//! Clock frequencies.

use vstd::prelude::*;

use crate::number;
use crate::text;

verus! {

/// How many hertz a text tells: a number with or without white space around it.
pub open spec fn hertz(content: Seq<char>) -> Option<nat> {
    number::spelled_up_to(text::trimmed(content), u64::MAX as nat)
}

/// The whole megahertz in a number of hertz, as far as 32 bits hold them.
pub open spec fn hertz_to_megahertz(hz: nat) -> nat {
    (hz / 1_000_000) % 0x1_0000_0000
}

/// The frequency in megahertz that a file tells in hertz; none if the file
/// could not be read or holds no number.
pub open spec fn megahertz_in(content: Option<Seq<char>>) -> Option<nat> {
    match content {
        Some(told) => match hertz(told) {
            Some(hz) => Some(hertz_to_megahertz(hz)),
            None => None,
        },
        None => None,
    }
}

/// Reads a frequency in hertz and gives it in megahertz.
pub fn megahertz(content: Option<&str>) -> (res: Option<u32>)
    ensures
        match res {
            Some(mhz) => megahertz_in(text::view_of(content)) == Some(mhz as nat),
            None => megahertz_in(text::view_of(content)) is None,
        },
{
    match content {
        Some(told) => match number::parse_u64(text::trim(told).as_str()) {
            Some(hz) => {
                let whole: u64 = hz / 1_000_000;
                assert(whole as u32 == whole % 0x1_0000_0000) by (bit_vector);
                Some(
                    #[verifier::truncate]
                    (whole as u32),
                )
            },
            None => None,
        },
        None => None,
    }
}

/// A frequency that is written as a number of hertz on a line of its own is
/// read back in megahertz.
pub proof fn law_written_frequency_is_read(hz: u64)
    ensures
        megahertz_in(Some(number::decimal(hz as nat) + "\n"@)) == Some(
            hertz_to_megahertz(hz as nat),
        ),
{
    number::law_written_number_is_read(hz as nat, u64::MAX as nat);
}

/// A text that spells a number of hertz, with or without white space around it,
/// tells the whole megahertz in it, of which 32 bits are kept. Any other text
/// tells none, and neither does a file that cannot be read.
pub proof fn law_whole_megahertz_are_told(a: Seq<char>, s: Seq<char>, b: Seq<char>)
    requires
        forall|i: int| 0 <= i < a.len() ==> text::is_whitespace(#[trigger] a[i]),
        forall|i: int| 0 <= i < b.len() ==> text::is_whitespace(#[trigger] b[i]),
        s.len() > 0 ==> !text::is_whitespace(s[0]) && !text::is_whitespace(s[s.len() - 1]),
    ensures
        megahertz_in(None) == None::<nat>,
        match number::spelled_nat(s) {
            Some(hz) if hz < 0x1_0000_0000_0000_0000 => {
                &&& megahertz_in(Some(a + s + b)) is Some
                &&& megahertz_in(Some(a + s + b))->0 < 0x1_0000_0000
                &&& exists|whole: nat| #[trigger]
                    lies_within(hz, whole, 1_000_000) && whole % 0x1_0000_0000 == megahertz_in(
                        Some(a + s + b),
                    )->0
                &&& hz < 4_294_967_296_000_000 ==> lies_within(
                    hz,
                    megahertz_in(Some(a + s + b))->0,
                    1_000_000,
                )
            },
            _ => megahertz_in(Some(a + s + b)) is None,
        },
{
    text::law_what_stands_between_space_is_left(a, s, b);
    if let Some(hz) = number::spelled_nat(s) {
        if hz < 0x1_0000_0000_0000_0000 {
            assert(lies_within(hz, hz / 1_000_000, 1_000_000));
        }
    }
}

/// `n` holds `whole` times `unit`, and not once more.
pub open spec fn lies_within(n: nat, whole: nat, unit: nat) -> bool {
    whole * unit <= n < (whole + 1) * unit
}

} // verus!
