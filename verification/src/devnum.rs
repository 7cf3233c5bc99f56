//! Device numbers: one number that stands for a major and a minor one.
use vstd::prelude::*;
use vstd::string::StringExecFns;

use crate::text::{decimal, decimal_text};

verus! {

/// The device number of a major and a minor number, as Linux lays it out.
pub open spec fn device_number(major: u32, minor: u32) -> u64 {
    let major = major as u64;
    let minor = minor as u64;
    ((major & 0xfff) << 8) | ((major & 0xfffff000) << 32) | (minor & 0xff) | ((minor & 0xffffff00)
        << 12)
}

/// The major number of a device number.
pub open spec fn major_number(number: u64) -> u32 {
    (((number & 0xfff00) >> 8) | ((number & 0xfffff00000000000) >> 32)) as u32
}

/// The minor number of a device number.
pub open spec fn minor_number(number: u64) -> u32 {
    ((number & 0xff) | ((number & 0xffffff00000) >> 12)) as u32
}

/// Calls `libc::makedev`, which puts the bits of both numbers side by side as
/// [`device_number`] does.
#[verifier::external_body]
pub(crate) fn make_number(major: u32, minor: u32) -> (number: u64)
    ensures
        number == device_number(major, minor),
{
    libc::makedev(major, minor)
}

/// Calls `libc::major`, which collects the bits of the major number as [`major_number`] does.
#[verifier::external_body]
pub(crate) fn major_of(number: u64) -> (major: u32)
    ensures
        major == major_number(number),
{
    libc::major(number)
}

/// Calls `libc::minor`, which collects the bits of the minor number as [`minor_number`] does.
#[verifier::external_body]
pub(crate) fn minor_of(number: u64) -> (minor: u32)
    ensures
        minor == minor_number(number),
{
    libc::minor(number)
}

/// A device number gives back both numbers that it was made of.
pub proof fn number_gives_back_both(major: u32, minor: u32)
    ensures
        major_number(device_number(major, minor)) == major,
        minor_number(device_number(major, minor)) == minor,
{
    let a = major as u64;
    let b = minor as u64;
    assert(((((((a & 0xfff) << 8) | ((a & 0xfffff000) << 32) | (b & 0xff) | ((b & 0xffffff00)
        << 12)) & 0xfff00) >> 8) | (((((a & 0xfff) << 8) | ((a & 0xfffff000) << 32) | (b & 0xff) | ((
    b & 0xffffff00) << 12)) & 0xfffff00000000000) >> 32)) == a) by (bit_vector)
        requires
            a <= 0xffff_ffff,
            b <= 0xffff_ffff,
    ;
    assert((((((a & 0xfff) << 8) | ((a & 0xfffff000) << 32) | (b & 0xff) | ((b & 0xffffff00)
        << 12)) & 0xff) | (((((a & 0xfff) << 8) | ((a & 0xfffff000) << 32) | (b & 0xff) | ((b
        & 0xffffff00) << 12)) & 0xffffff00000) >> 12)) == b) by (bit_vector)
        requires
            a <= 0xffff_ffff,
            b <= 0xffff_ffff,
    ;
}

/// Where sysfs keeps the device behind a device number.
pub open spec fn sysfs_link(number: u64) -> Seq<char> {
    "/sys/dev/char/"@ + decimal(major_number(number) as nat) + ":"@ + decimal(
        minor_number(number) as nat,
    ) + "/device"@
}

/// The path of the link by which sysfs leads from a device number to the device.
pub fn sysfs_link_text(number: u64) -> (path: String)
    ensures
        path@ == sysfs_link(number),
{
    String::from_str("/sys/dev/char/").concat(decimal_text(major_of(number) as u64).as_str()).concat(
        ":",
    ).concat(decimal_text(minor_of(number) as u64).as_str()).concat("/device")
}

} // verus!
