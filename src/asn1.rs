//! Tag octets of the universal class and the class and form bits.

use vstd::prelude::*;

verus! {

pub const PRIMITIVE: u8 = 0b00000000;
pub const CONSTRUCTED: u8 = 0b00100000;

pub const CLASS_UNIVERSAL: u8 = 0b00000000;
pub const CLASS_APPLICATION: u8 = 0b01000000;
pub const CLASS_CONTEXTSPECIFIC: u8 = 0b10000000;
pub const CLASS_PRIVATE: u8 = 0b11000000;

pub const TYPE_BOOLEAN: u8 = 0x01;
pub const TYPE_INTEGER: u8 = 0x02;
pub const TYPE_OCTETSTRING: u8 = 0x04;
pub const TYPE_NULL: u8 = 0x05;
pub const TYPE_OBJECTIDENTIFIER: u8 = 0x06;
pub const TYPE_SEQUENCE: u8 = 0x30;
pub const TYPE_SET: u8 = 0x31;

} // verus!
