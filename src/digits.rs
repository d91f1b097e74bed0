//! Decimal digits as the `\d` class of regular expressions reads them: any
//! character of Unicode's general category Nd, not only `0` to `9`.
use vstd::prelude::*;

verus! {

#[verifier::external_type_specification]
#[verifier::external_body]
pub struct ExRegex(regex::Regex);

/// Whether `c` belongs to Unicode's general category Nd (decimal digit).
pub uninterp spec fn is_decimal_digit(c: char) -> bool;

/// The class of decimal digits, compiled once and then asked of each character.
pub struct DigitClass {
    re: regex::Regex,
}

impl DigitClass {
    /// Relies on `regex::Regex::new` compiling the pattern `\A\d\z`, which is
    /// valid.
    #[verifier::external_body]
    pub fn new() -> (r: DigitClass) {
        DigitClass { re: regex::Regex::new(r"\A\d\z").unwrap() }
    }

    /// Relies on `regex::Regex::is_match` with the pattern `\A\d\z` that every
    /// `DigitClass` holds: `\d` is `\p{Nd}`, and among ASCII characters only
    /// `0` to `9` are in it.
    #[verifier::external_body]
    pub fn contains(&self, c: char) -> (r: bool)
        ensures
            r == is_decimal_digit(c),
            (c as u32) < 128 ==> (r <==> ('0' <= c && c <= '9')),
    {
        let mut buf = [0u8; 4];
        self.re.is_match(c.encode_utf8(&mut buf))
    }
}

} // verus!
