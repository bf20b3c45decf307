//! Stable identifiers for bitmaps, layers and masks, backed by version 7 UUIDs.

use vstd::prelude::*;

verus! {

/// The lowercase hexadecimal digit for a value in `0..16`.
pub open spec fn hex_digit(n: int) -> char {
    seq!['0', '1', '2', '3', '4', '5', '6', '7', '8', '9', 'a', 'b', 'c', 'd', 'e', 'f'][n]
}

/// The `n` least significant hexadecimal digits of `v`, most significant first.
pub open spec fn hex_digits(v: nat, n: nat) -> Seq<char>
    decreases n,
{
    if n == 0 {
        Seq::empty()
    } else {
        hex_digits(v / 16, (n - 1) as nat).push(hex_digit((v % 16) as int))
    }
}

/// The 32-digit lowercase hexadecimal text of a 128-bit UUID value.
pub open spec fn uuid_simple_text(v: u128) -> Seq<char> {
    hex_digits(v as nat, 32)
}

/// The last seven hexadecimal digits of a UUID's text, used as a short label.
pub open spec fn uuid_short_text(v: u128) -> Seq<char> {
    uuid_simple_text(v).subrange(25, 32)
}

/// Whether a 128-bit value carries the version 7 field and the RFC 9562 variant bits.
pub open spec fn is_version7_uuid(v: u128) -> bool {
    &&& (v as nat / 0x10000000000000000000) % 16 == 7
    &&& (v as nat / 0x4000000000000000) % 4 == 2
}

pub proof fn lemma_hex_digits_len(v: nat, n: nat)
    ensures
        hex_digits(v, n).len() == n,
    decreases n,
{
    if n > 0 {
        lemma_hex_digits_len(v / 16, (n - 1) as nat);
    }
}

/// Calls `uuid::Uuid::now_v7` and hands the new UUID back as its 128-bit value
/// (`Uuid::as_u128`, big-endian). The value depends on the clock and on a random
/// source, so the contract states only what every outcome has: the version
/// nibble 7 and the `10` variant bits that the crate always writes.
#[verifier::external_body]
fn uuid_now_v7() -> (r: u128)
    ensures
        is_version7_uuid(r),
{
    uuid::Uuid::now_v7().as_u128()
}

/// Calls `uuid::Uuid::simple` on the UUID with the 128-bit value `v` and turns the
/// formatter into a `String`. The crate formats it as the 32 lowercase
/// hexadecimal digits of the value, most significant first.
#[verifier::external_body]
fn uuid_simple_string(v: u128) -> (r: String)
    ensures
        r@ == uuid_simple_text(v),
{
    uuid::Uuid::from_u128(v).simple().to_string()
}

/// The last seven hexadecimal digits of the UUID `v`.
fn uuid_short_string(v: u128) -> (r: String)
    ensures
        r@ == uuid_short_text(v),
{
    let text = uuid_simple_string(v);
    proof {
        lemma_hex_digits_len(v as nat, 32);
    }
    let short = text.as_str().substring_char(25, 32);
    String::from_str(short)
}

/// A stable id for bitmaps.
#[derive(Clone, Copy, Debug, PartialEq, Eq, Structural, Hash)]
pub struct BitmapId(u128);

/// A stable id for layers.
///
/// An `Entity` cannot serve as a stable id: when a layer is deleted and the
/// delete is undone, the new entity is a different one.
#[derive(Clone, Copy, Debug, PartialEq, Eq, Structural, Hash)]
pub struct LayerId(u128);

/// A stable id for masks.
///
/// An `Entity` cannot serve as a stable id: when a mask is deleted and the
/// delete is undone, the new entity is a different one.
#[derive(Clone, Copy, Debug, PartialEq, Eq, Structural, Hash)]
pub struct MaskId(u128);

impl BitmapId {
    pub closed spec fn value(self) -> u128 {
        self.0
    }

    /// A fresh id from a new version 7 UUID.
    pub fn new() -> (r: Self)
        ensures
            is_version7_uuid(r.value()),
    {
        BitmapId(uuid_now_v7())
    }

    pub fn from_u128(v: u128) -> (r: Self)
        ensures
            r.value() == v,
    {
        BitmapId(v)
    }

    pub fn as_u128(&self) -> (r: u128)
        ensures
            r == self.value(),
    {
        self.0
    }

    /// The 32-digit lowercase hexadecimal text of the id.
    pub fn to_simple_string(&self) -> (r: String)
        ensures
            r@ == uuid_simple_text(self.value()),
    {
        uuid_simple_string(self.0)
    }
}

impl LayerId {
    pub closed spec fn value(self) -> u128 {
        self.0
    }

    /// A fresh id from a new version 7 UUID.
    pub fn new() -> (r: Self)
        ensures
            is_version7_uuid(r.value()),
    {
        LayerId(uuid_now_v7())
    }

    pub fn from_u128(v: u128) -> (r: Self)
        ensures
            r.value() == v,
    {
        LayerId(v)
    }

    pub fn as_u128(&self) -> (r: u128)
        ensures
            r == self.value(),
    {
        self.0
    }

    /// The 32-digit lowercase hexadecimal text of the id.
    pub fn to_simple_string(&self) -> (r: String)
        ensures
            r@ == uuid_simple_text(self.value()),
    {
        uuid_simple_string(self.0)
    }

    /// The last seven hexadecimal digits of the id.
    pub fn short_string(&self) -> (r: String)
        ensures
            r@ == uuid_short_text(self.value()),
    {
        uuid_short_string(self.0)
    }
}

impl MaskId {
    pub closed spec fn value(self) -> u128 {
        self.0
    }

    /// A fresh id from a new version 7 UUID.
    pub fn new() -> (r: Self)
        ensures
            is_version7_uuid(r.value()),
    {
        MaskId(uuid_now_v7())
    }

    pub fn from_u128(v: u128) -> (r: Self)
        ensures
            r.value() == v,
    {
        MaskId(v)
    }

    pub fn as_u128(&self) -> (r: u128)
        ensures
            r == self.value(),
    {
        self.0
    }

    /// The 32-digit lowercase hexadecimal text of the id.
    pub fn to_simple_string(&self) -> (r: String)
        ensures
            r@ == uuid_simple_text(self.value()),
    {
        uuid_simple_string(self.0)
    }
}

} // verus!
