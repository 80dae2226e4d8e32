use vstd::prelude::*;

verus! {

/// Number of symbols in the alphabet codes are drawn from.
pub const CHARSET_LEN: usize = 36;

/// The symbol with index `d`: `A`..`Z` for 0..25, then `0`..`9` for 26..35.
pub open spec fn symbol(d: int) -> char {
    if d < 26 {
        (65 + d) as char
    } else {
        (48 + (d - 26)) as char
    }
}

/// Whether `c` belongs to the alphabet.
pub open spec fn is_symbol(c: char) -> bool {
    ('A' <= c && c <= 'Z') || ('0' <= c && c <= '9')
}

pub proof fn lemma_symbol_injective(a: int, b: int)
    requires
        0 <= a < 36,
        0 <= b < 36,
        symbol(a) == symbol(b),
    ensures
        a == b,
{
}

pub proof fn lemma_symbol_in_alphabet(d: int)
    requires
        0 <= d < 36,
    ensures
        is_symbol(symbol(d)),
{
}

/// The index of an alphabet symbol.
pub open spec fn digit_of(c: char) -> int {
    if 'A' <= c && c <= 'Z' {
        c as int - 65
    } else {
        c as int - 48 + 26
    }
}

pub proof fn lemma_digit_of_symbol(c: char)
    requires
        is_symbol(c),
    ensures
        0 <= digit_of(c) < 36,
        symbol(digit_of(c)) == c,
{
}

/// Maps a byte to a symbol by `byte % 36` (slightly skewed toward the first
/// symbols, since 256 is not a multiple of 36).
pub fn symbol_for_byte(b: u8) -> (c: char)
    ensures
        c == symbol(b as int % 36),
{
    let d: u8 = b % 36;
    if d < 26 {
        (65u8 + d) as char
    } else {
        (48u8 + (d - 26)) as char
    }
}

} // verus!
