use vstd::prelude::*;

verus! {

/// The largest IPv4 address as an integer.
pub const V4_MAX: u128 = 0xffff_ffff;

/// Address family of an IP address.
#[derive(Clone, Copy, Debug, PartialEq, Eq, Structural)]
pub enum Family {
    V4,
    V6,
}

/// An IP address held as its family and its value as an unsigned integer
/// (big-endian reading of its octets).
#[derive(Clone, Copy, Debug, PartialEq, Eq, Structural)]
pub struct IpAddress {
    pub family: Family,
    pub value: u128,
}

impl IpAddress {
    /// An IPv4 value fits in 32 bits.
    pub open spec fn wf(&self) -> bool {
        self.family == Family::V4 ==> self.value <= V4_MAX
    }

    pub fn v4(value: u32) -> (r: IpAddress)
        ensures
            r.family == Family::V4,
            r.value == value as u128,
            r.wf(),
    {
        IpAddress { family: Family::V4, value: value as u128 }
    }

    pub fn v6(value: u128) -> (r: IpAddress)
        ensures
            r.family == Family::V6,
            r.value == value,
            r.wf(),
    {
        IpAddress { family: Family::V6, value }
    }

    /// Builds an IPv4 address from its four octets, most significant first.
    pub fn from_v4_octets(a: u8, b: u8, c: u8, d: u8) -> (r: IpAddress)
        ensures
            r.family == Family::V4,
            r.value == a as int * 0x100_0000 + b as int * 0x1_0000 + c as int * 0x100 + d as int,
            r.wf(),
    {
        let v: u128 = a as u128 * 0x100_0000 + b as u128 * 0x1_0000 + c as u128 * 0x100 + d as u128;
        IpAddress { family: Family::V4, value: v }
    }

    /// Whether this is an IPv6 address of the form `::ffff:a.b.c.d`.
    pub open spec fn is_v4_mapped(&self) -> bool {
        self.family == Family::V6 && self.value / 0x1_0000_0000 == 0xffff
    }

    /// The address in the family that the index is searched in: an
    /// IPv4-mapped IPv6 address becomes the IPv4 address it carries.
    pub open spec fn normal_spec(&self) -> IpAddress {
        if self.is_v4_mapped() {
            IpAddress { family: Family::V4, value: (self.value % 0x1_0000_0000) as u128 }
        } else {
            *self
        }
    }

    pub fn normalize(&self) -> (r: IpAddress)
        requires
            self.wf(),
        ensures
            r == self.normal_spec(),
            r.wf(),
    {
        if self.family == Family::V6 && self.value / 0x1_0000_0000 == 0xffff {
            IpAddress { family: Family::V4, value: self.value % 0x1_0000_0000 }
        } else {
            *self
        }
    }
}

} // verus!
