//! Device numbers, and how the inode of a device stores them.

use vstd::prelude::*;

verus! {

/// Words of an inode's block area.
pub const RAW_BLOCK_PTRS_LEN: usize = 15;

/// The device id of a major and a minor number: from the low end eight bits of
/// the minor number, twelve of the major, the rest of the minor and the rest
/// of the major.
pub open spec fn device_id_of(major: u32, minor: u32) -> u64 {
    (minor % 0x100 + (major % 0x1000) * 0x100 + (minor / 0x100) * 0x10_0000 + (major / 0x1000)
        * 0x1000_0000_0000) as u64
}

/// The major number in a device id.
pub open spec fn major_of(id: u64) -> u32 {
    (id / 0x100 % 0x1000 + id / 0x1000_0000_0000 * 0x1000) as u32
}

/// The minor number in a device id.
pub open spec fn minor_of(id: u64) -> u32 {
    (id % 0x100 + id / 0x10_0000 % 0x100_0000 * 0x100) as u32
}

/// Makes a device id.
pub fn encode_device_numbers(major: u32, minor: u32) -> (id: u64)
    ensures
        id == device_id_of(major, minor),
{
    (minor % 0x100) as u64 + (major % 0x1000) as u64 * 0x100 + (minor / 0x100) as u64 * 0x10_0000
        + (major / 0x1000) as u64 * 0x1000_0000_0000
}

/// Takes a device id apart.
pub fn decode_device_numbers(id: u64) -> (r: (u32, u32))
    ensures
        r == (major_of(id), minor_of(id)),
{
    (
        (id / 0x100 % 0x1000 + id / 0x1000_0000_0000 * 0x1000) as u32,
        (id % 0x100 + id / 0x10_0000 % 0x100_0000 * 0x100) as u32,
    )
}

/// A device id is the pair of its numbers.
pub proof fn device_id_round_trips(major: u32, minor: u32)
    ensures
        major_of(device_id_of(major, minor)) == major,
        minor_of(device_id_of(major, minor)) == minor,
{
    let id = device_id_of(major, minor);
    let j = major as u64;
    let n = minor as u64;
    assert(id == n % 0x100 + (j % 0x1000) * 0x100 + (n / 0x100) * 0x10_0000 + (j / 0x1000)
        * 0x1000_0000_0000);
    assert(id / 0x100 % 0x1000 + id / 0x1000_0000_0000 * 0x1000 == j && id % 0x100 + id / 0x10_0000
        % 0x100_0000 * 0x100 == n) by (bit_vector)
        requires
            id == n % 0x100 + (j % 0x1000) * 0x100 + (n / 0x100) * 0x10_0000 + (j / 0x1000)
                * 0x1000_0000_0000,
            j <= 0xFFFF_FFFF,
            n <= 0xFFFF_FFFF,
    ;
}

/// The block area of a device's inode: small numbers go to the first word, and
/// others to the second, twelve bits of the major number between eight and
/// twelve bits of the minor.
pub open spec fn device_words(id: u64) -> Seq<u32> {
    let major = major_of(id);
    let minor = minor_of(id);
    let small = major < 256 && minor < 256;
    Seq::new(
        RAW_BLOCK_PTRS_LEN as nat,
        |i: int|
            if i == 0 && small {
                (major * 256 + minor) as u32
            } else if i == 1 && !small {
                (minor & 0xFF) | (major << 8) | ((minor & !0xFFu32) << 12)
            } else {
                0
            },
    )
}

/// The device id that a block area stores.
pub open spec fn stored_device(block: Seq<u32>) -> u64 {
    if block[0] != 0 {
        device_id_of((block[0] / 0x100 % 0x100) as u32, (block[0] % 0x100) as u32)
    } else {
        device_id_of(
            (block[1] / 0x100 % 0x1000) as u32,
            (block[1] % 0x100 + block[1] / 0x10_0000 * 0x100) as u32,
        )
    }
}

/// Stores a device id in a block area.
pub fn encode_device_block(id: u64) -> (block: [u32; RAW_BLOCK_PTRS_LEN])
    ensures
        block@ == device_words(id),
{
    let (major, minor) = decode_device_numbers(id);
    let mut block = [0u32; RAW_BLOCK_PTRS_LEN];
    if major < 256 && minor < 256 {
        block[0] = major * 256 + minor;
    } else {
        block[1] = (minor & 0xFF) | (major << 8) | ((minor & !0xFFu32) << 12);
    }
    assert(block@ =~= device_words(id));
    block
}

/// Reads the device id that a block area stores.
pub fn decode_device_block(block: &[u32; RAW_BLOCK_PTRS_LEN]) -> (id: u64)
    ensures
        id == stored_device(block@),
{
    if block[0] != 0 {
        encode_device_numbers(block[0] / 0x100 % 0x100, block[0] % 0x100)
    } else {
        let dev: u32 = block[1];
        encode_device_numbers(dev / 0x100 % 0x1000, dev % 0x100 + dev / 0x10_0000 * 0x100)
    }
}

/// A device id that is stored is read back, wherever its numbers have no more
/// than twelve and twenty bits.
pub proof fn device_block_round_trips(major: u32, minor: u32)
    requires
        major < 0x1000,
        minor < 0x10_0000,
    ensures
        stored_device(device_words(device_id_of(major, minor))) == device_id_of(major, minor),
{
    device_id_round_trips(major, minor);
    let id = device_id_of(major, minor);
    let w = device_words(id);
    if major < 256 && minor < 256 {
        assert(w[0] == major * 256 + minor);
        assert(w[1] == 0);
    } else {
        let dev = (minor & 0xFF) | (major << 8) | ((minor & !0xFFu32) << 12);
        assert(w[0] == 0 && w[1] == dev);
        assert(dev / 0x100 % 0x1000 == major && dev % 0x100 + dev / 0x10_0000 * 0x100 == minor)
            by (bit_vector)
            requires
                dev == (minor & 0xFF) | (major << 8) | ((minor & !0xFFu32) << 12),
                major < 0x1000,
                minor < 0x10_0000,
        ;
    }
}

} // verus!
