//! Memory sizes as they are written on the command line and in the config: `8G`.
use vstd::prelude::*;

use crate::text;

verus! {

/// An amount of memory.
#[derive(Debug, Clone, Copy, PartialEq, Eq, Structural)]
pub struct Memory {
    bytes: u64,
}

pub const KIB: u64 = 1024;

pub const MIB: u64 = 1048576;

pub const GIB: u64 = 1073741824;

/// How many bytes a size letter stands for; a size without one counts bytes.
pub open spec fn unit_of(letter: char) -> Option<u64> {
    if letter == 'K' {
        Some(KIB)
    } else if letter == 'M' {
        Some(MIB)
    } else if letter == 'G' {
        Some(GIB)
    } else {
        None
    }
}

/// The number of bytes that a text denotes: a natural number, with a size letter or not.
pub open spec fn bytes_of(s: Seq<char>) -> Option<nat> {
    if s.len() > 0 && unit_of(s.last()) is Some {
        match text::natural_value(s.drop_last()) {
            Some(n) => Some(n * unit_of(s.last())->0 as nat),
            None => None,
        }
    } else {
        text::natural_value(s)
    }
}

/// The text of an amount: in the largest unit that divides it.
pub open spec fn size_text(bytes: u64) -> Seq<char> {
    if bytes == 0 {
        text::decimal(0)
    } else if bytes % GIB == 0 {
        text::decimal((bytes / GIB) as nat) + "G"@
    } else if bytes % MIB == 0 {
        text::decimal((bytes / MIB) as nat) + "M"@
    } else if bytes % KIB == 0 {
        text::decimal((bytes / KIB) as nat) + "K"@
    } else {
        text::decimal(bytes as nat)
    }
}

impl View for Memory {
    type V = u64;

    closed spec fn view(&self) -> u64 {
        self.bytes
    }
}

impl Memory {
    /// That many bytes.
    pub fn from_bytes(bytes: u64) -> (r: Memory)
        ensures
            r@ == bytes,
    {
        Memory { bytes }
    }

    /// How many bytes.
    pub fn bytes(&self) -> (r: u64)
        ensures
            r == self@,
    {
        self.bytes
    }

    /// The amount as text, e.g. `16G`.
    pub fn render(&self) -> (r: String)
        ensures
            r@ == size_text(self@),
    {
        let n: u64 = self.bytes;
        if n == 0 {
            text::decimal_text(0)
        } else if n % GIB == 0 {
            text::cat2(&text::decimal_text(n / GIB), "G")
        } else if n % MIB == 0 {
            text::cat2(&text::decimal_text(n / MIB), "M")
        } else if n % KIB == 0 {
            text::cat2(&text::decimal_text(n / KIB), "K")
        } else {
            text::decimal_text(n)
        }
    }

    /// Reads an amount; `None` for a text that is none, or one that does not fit 64 bits.
    pub fn parse(s: &str) -> (r: Option<Memory>)
        ensures
            match bytes_of(s@) {
                Some(n) if n <= u64::MAX => r matches Some(m) && m@ == n,
                _ => r is None,
            },
    {
        let cs = text::chars_of(s);
        let n: usize = cs.len();
        let unit: u64 = if n == 0 {
            0
        } else if cs[n - 1] == 'K' {
            KIB
        } else if cs[n - 1] == 'M' {
            MIB
        } else if cs[n - 1] == 'G' {
            GIB
        } else {
            0
        };
        if unit == 0 {
            match text::parse_natural(s, 0xffff_ffff_ffff_ffff) {
                Some(v) => Some(Memory { bytes: v }),
                None => None,
            }
        } else {
            let head = text::string_of(&cs, 0, n - 1);
            assert(head@ =~= s@.drop_last());
            proof {
                if let Some(v) = text::natural_value(head@) {
                    assert(v * unit as nat >= v) by (nonlinear_arith)
                        requires
                            unit >= 1,
                    ;
                }
            }
            match text::parse_natural(&head, 0xffff_ffff_ffff_ffff) {
                Some(v) => match v.checked_mul(unit) {
                    Some(b) => Some(Memory { bytes: b }),
                    None => None,
                },
                None => None,
            }
        }
    }
}

/// What an amount is written as reads back as that amount.
pub proof fn law_size_reads_back(bytes: u64)
    ensures
        bytes_of(size_text(bytes)) == Some(bytes as nat),
{
    reveal_strlit("G");
    reveal_strlit("M");
    reveal_strlit("K");
    let unit: u64 = if bytes == 0 {
        1
    } else if bytes % GIB == 0 {
        GIB
    } else if bytes % MIB == 0 {
        MIB
    } else if bytes % KIB == 0 {
        KIB
    } else {
        1
    };
    let count = (bytes / unit) as nat;
    let digits = text::decimal(count);
    text::lemma_decimal(count);
    assert(bytes as nat == count * unit as nat) by (nonlinear_arith)
        requires
            count == (bytes / unit) as nat,
            bytes % unit == 0,
            unit > 0,
    ;
    assert(text::is_digit(digits[0]) && text::is_digit(digits.last()));
    if unit != 1 {
        let s = size_text(bytes);
        assert(s.len() == digits.len() + 1);
        assert(s.drop_last() =~= digits);
    } else {
        assert(count == bytes);
    }
}

/// A number with a size letter is that many of 1024, 1024 times 1024 or 1024 times that again;
/// one without is that many bytes.
pub proof fn law_letters_are_powers_of_1024(n: nat)
    ensures
        bytes_of(text::decimal(n)) == Some(n),
        bytes_of(text::decimal(n) + seq!['K']) == Some(n * 1024),
        bytes_of(text::decimal(n) + seq!['M']) == Some(n * (1024 * 1024)),
        bytes_of(text::decimal(n) + seq!['G']) == Some(n * (1024 * 1024 * 1024)),
{
    text::lemma_decimal(n);
    let digits = text::decimal(n);
    assert(text::is_digit(digits.last()));
    assert((digits + seq!['K']).drop_last() =~= digits);
    assert((digits + seq!['M']).drop_last() =~= digits);
    assert((digits + seq!['G']).drop_last() =~= digits);
}

/// What denotes an amount is a natural number, and behind it one of the three letters or
/// nothing.
pub proof fn law_amounts_are_numbers_with_a_letter(s: Seq<char>)
    ensures
        bytes_of(s) is Some <==> text::natural_value(s) is Some || (s.len() > 0 && (s.last() == 'K'
            || s.last() == 'M' || s.last() == 'G') && text::natural_value(s.drop_last()) is Some),
{
    text::law_numbers_are_their_digits(s);
    if text::natural_value(s) is Some {
        if text::is_digit_run(s) {
            assert('0' <= s[s.len() - 1] <= '9');
        } else {
            let digits = s.skip(1);
            assert('0' <= digits[digits.len() - 1] <= '9');
        }
    }
}

/// An amount is written in the largest unit that it is a whole number of.
pub proof fn law_sizes_are_in_the_largest_unit(bytes: u64)
    ensures
        size_text(bytes).last() == 'G' <==> bytes > 0 && bytes % 1073741824 == 0,
        size_text(bytes).last() == 'M' <==> bytes % 1073741824 != 0 && bytes % 1048576 == 0,
        size_text(bytes).last() == 'K' <==> bytes % 1048576 != 0 && bytes % 1024 == 0,
        bytes % 1024 != 0 ==> text::value_in_base(size_text(bytes), 10) == bytes,
{
    reveal_strlit("G");
    reveal_strlit("M");
    reveal_strlit("K");
    text::law_numerals_denote_their_number(bytes as nat);
    text::law_numerals_denote_their_number(0);
    assert(bytes % 1073741824 == 0 ==> bytes % 1048576 == 0) by (bit_vector);
    assert(bytes % 1048576 == 0 ==> bytes % 1024 == 0) by (bit_vector);
    let all = text::decimal(bytes as nat);
    assert('0' <= all[all.len() - 1] <= '9');
    let none = text::decimal(0);
    assert('0' <= none[none.len() - 1] <= '9');
}

} // verus!
