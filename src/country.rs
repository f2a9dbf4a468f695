use vstd::prelude::*;

verus! {

/// Whether a byte is an ASCII capital letter.
pub open spec fn is_upper(b: u8) -> bool {
    65 <= b && b <= 90
}

/// A two-letter ISO-3166-1 alpha-2 country code, held as its two ASCII bytes.
#[derive(Clone, Copy, Debug, PartialEq, Eq, Structural)]
pub struct CountryCode {
    pub first: u8,
    pub second: u8,
}

impl CountryCode {
    /// Both letters are ASCII capitals.
    pub open spec fn wf(&self) -> bool {
        is_upper(self.first) && is_upper(self.second)
    }

    /// Builds a code from two bytes; `None` unless both are capital letters.
    pub fn from_bytes(first: u8, second: u8) -> (r: Option<CountryCode>)
        ensures
            r is Some <==> is_upper(first) && is_upper(second),
            r matches Some(c) ==> c.first == first && c.second == second && c.wf(),
    {
        if 65 <= first && first <= 90 && 65 <= second && second <= 90 {
            Some(CountryCode { first, second })
        } else {
            None
        }
    }

    /// The code's two letters.
    pub fn letters(&self) -> (r: [u8; 2])
        ensures
            r@ == seq![self.first, self.second],
    {
        let r = [self.first, self.second];
        assert(r@ =~= seq![self.first, self.second]);
        r
    }
}

} // verus!
