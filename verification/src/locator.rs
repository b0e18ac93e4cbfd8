//! Four-character Maidenhead locators as the WSPR encoder reads them.
use vstd::prelude::*;
use vstd::string::*;

verus! {

/// Byte strings that `Locator::from_str` reads without an arithmetic
/// fault: when there are four bytes, the first two are not below `b'A'`.
pub open spec fn locator_bytes_ok(b: Seq<u8>) -> bool {
    b.len() == 4 ==> b[0] >= 65 && b[1] >= 65
}

/// The fields of a four-byte locator: the two field letters counted from
/// `A` = 0, then the two square characters as bytes.
pub open spec fn locator_fields(b: Seq<u8>) -> (u32, u32, u32, u32) {
    ((b[0] - 65) as u32, (b[1] - 65) as u32, b[2] as u32, b[3] as u32)
}

/// A locator in the Maidenhead form: field letters 0 to 17 (`A` to `R`),
/// square characters the digits `'0'` to `'9'`.
pub open spec fn valid_locator(l: (u32, u32, u32, u32)) -> bool {
    l.0 <= 17 && l.1 <= 17 && 48 <= l.2 <= 57 && 48 <= l.3 <= 57
}

/// A Maidenhead locator: field longitude and latitude letters counted from
/// `A`, and the square longitude and latitude characters as bytes.
pub struct Locator(u32, u32, u32, u32);

impl View for Locator {
    type V = (u32, u32, u32, u32);

    closed spec fn view(&self) -> (u32, u32, u32, u32) {
        (self.0, self.1, self.2, self.3)
    }
}

impl Locator {
    /// The four fields: field longitude, field latitude, square longitude,
    /// square latitude.
    pub fn fields(&self) -> (r: (u32, u32, u32, u32))
        ensures
            r == self@,
    {
        (self.0, self.1, self.2, self.3)
    }

    /// Reads a locator of exactly four bytes; any other length gives
    /// `None`.
    pub fn from_str(locator: &str) -> (r: Option<Self>)
        requires
            locator_bytes_ok(locator.spec_bytes()),
        ensures
            r is Some <==> locator.spec_bytes().len() == 4,
            r matches Some(l) ==> l@ == locator_fields(locator.spec_bytes()),
            r matches Some(l) ==> {
                &&& l@.0 + 65 == locator.spec_bytes()[0]
                &&& l@.1 + 65 == locator.spec_bytes()[1]
                &&& l@.2 == locator.spec_bytes()[2]
                &&& l@.3 == locator.spec_bytes()[3]
            },
    {
        let bytes = locator.as_bytes();
        if bytes.len() == 4 {
            Some(Locator(bytes[0] as u32 - 65, bytes[1] as u32 - 65, bytes[2] as u32, bytes[3] as u32))
        } else {
            None
        }
    }

    /// Whether the locator is in the Maidenhead form: field letters `A` to
    /// `R` and square digits.
    pub fn is_valid(&self) -> (r: bool)
        ensures
            r == valid_locator(self@),
    {
        self.0 <= 17 && self.1 <= 17 && 48 <= self.2 && self.2 <= 57 && 48 <= self.3 && self.3 <= 57
    }
}

} // verus!
