//! Identifiers: 128-bit UUIDs, made at random and shown in hyphenated form.

use vstd::arithmetic::power::pow;
use vstd::prelude::*;

use crate::table::Key;

verus! {

/// Whether a value carries the marks of a random UUID: version 4 in its
/// thirteenth hexadecimal digit and the bits `10` at the head of its
/// seventeenth.
pub open spec fn random_uuid(v: u128) -> bool {
    &&& (v as int / pow(2, 76)) % 16 == 4
    &&& (v as int / pow(2, 62)) % 4 == 2
}

/// The lower-case hexadecimal digit of a number below sixteen.
pub open spec fn hex_char(d: int) -> char {
    if d < 10 {
        (d + 48) as char
    } else {
        (d + 87) as char
    }
}

/// The hexadecimal digit at place `k` of 32, counted from the left.
pub open spec fn hex_digit(v: u128, k: int) -> char {
    hex_char((v as int / pow(16, (31 - k) as nat)) % 16)
}

/// The hyphenated form of a UUID: 32 lower-case hexadecimal digits in groups of
/// 8, 4, 4, 4 and 12.
pub open spec fn hyphenated(v: u128) -> Seq<char> {
    Seq::new(
        36,
        |i: int|
            if i == 8 || i == 13 || i == 18 || i == 23 {
                '-'
            } else if i < 8 {
                hex_digit(v, i)
            } else if i < 13 {
                hex_digit(v, i - 1)
            } else if i < 18 {
                hex_digit(v, i - 2)
            } else if i < 23 {
                hex_digit(v, i - 3)
            } else {
                hex_digit(v, i - 4)
            },
    )
}

/// `Uuid::new_v4` of the uuid crate: a random UUID, as its 128-bit value. Of
/// the outcome only the version and variant bits are known.
#[verifier::external_body]
fn new_v4() -> (r: u128)
    ensures
        random_uuid(r),
{
    uuid::Uuid::new_v4().as_u128()
}

/// `Display` of `Uuid` of the uuid crate: the hyphenated lower-case form of the
/// UUID with the 128-bit value `v`.
#[verifier::external_body]
fn uuid_to_string(v: u128) -> (r: String)
    ensures
        r@ == hyphenated(v),
{
    uuid::Uuid::from_u128(v).to_string()
}

/// Stable identifier of a building.
#[derive(Clone, Copy, Debug, PartialEq, Eq, Hash, Structural)]
pub struct StructureId {
    /// The UUID as a 128-bit value.
    pub uuid: u128,
}

/// Stable identifier of a room.
#[derive(Clone, Copy, Debug, PartialEq, Eq, Hash, Structural)]
pub struct RoomId {
    /// The UUID as a 128-bit value.
    pub uuid: u128,
}

/// Stable identifier of a tracked contact.
#[derive(Clone, Copy, Debug, PartialEq, Eq, Hash, Structural)]
pub struct ContactId {
    /// The UUID as a 128-bit value.
    pub uuid: u128,
}

impl StructureId {
    /// A fresh random id.
    pub fn new() -> (r: StructureId)
        ensures
            random_uuid(r.uuid),
    {
        StructureId { uuid: new_v4() }
    }

    /// The id in hyphenated form.
    pub fn to_text(&self) -> (r: String)
        ensures
            r@ == hyphenated(self.uuid),
    {
        uuid_to_string(self.uuid)
    }
}

impl RoomId {
    /// A fresh random id.
    pub fn new() -> (r: RoomId)
        ensures
            random_uuid(r.uuid),
    {
        RoomId { uuid: new_v4() }
    }

    /// An existing UUID as a room id, for a caller that supplies a stable one.
    pub fn from_uuid(uuid: u128) -> (r: RoomId)
        ensures
            r.uuid == uuid,
    {
        RoomId { uuid }
    }

    /// The id in hyphenated form.
    pub fn to_text(&self) -> (r: String)
        ensures
            r@ == hyphenated(self.uuid),
    {
        uuid_to_string(self.uuid)
    }
}

impl ContactId {
    /// A fresh random id.
    pub fn new() -> (r: ContactId)
        ensures
            random_uuid(r.uuid),
    {
        ContactId { uuid: new_v4() }
    }

    /// The id in hyphenated form.
    pub fn to_text(&self) -> (r: String)
        ensures
            r@ == hyphenated(self.uuid),
    {
        uuid_to_string(self.uuid)
    }
}

impl Default for StructureId {
    fn default() -> (r: StructureId)
        ensures
            random_uuid(r.uuid),
    {
        StructureId::new()
    }
}

impl Default for RoomId {
    fn default() -> (r: RoomId)
        ensures
            random_uuid(r.uuid),
    {
        RoomId::new()
    }
}

impl Default for ContactId {
    fn default() -> (r: ContactId)
        ensures
            random_uuid(r.uuid),
    {
        ContactId::new()
    }
}

impl View for RoomId {
    type V = RoomId;

    open spec fn view(&self) -> RoomId {
        *self
    }
}

impl Key for RoomId {
    fn same(&self, other: &RoomId) -> (r: bool) {
        self.uuid == other.uuid
    }
}

} // verus!
