//! Subnet arithmetic for IPv4, on the address as a 32-bit integer: network
//! and broadcast addresses, host range, mask and wildcard, and the host
//! count, from an address and a prefix length.
use vstd::prelude::*;

verus! {

/// Everything a prefix determines about a subnet.
#[derive(Debug, PartialEq, Eq)]
pub struct SubnetInfo {
    pub network: u32,
    pub broadcast: u32,
    pub first_host: u32,
    pub last_host: u32,
    pub mask: u32,
    pub wildcard: u32,
    pub hosts: u64,
}

/// Why a subnet cannot be described.
#[derive(Debug, PartialEq, Eq)]
pub enum SubnetError {
    /// The prefix length exceeds the 32 bits of an IPv4 address.
    InvalidPrefix,
    /// The subnet holds no host range (a single-address subnet).
    NoHostRange,
}

/// The netmask of a prefix length: the top `prefix` bits set.
pub open spec fn mask_spec(prefix: u8) -> u32 {
    if prefix == 0 {
        0u32
    } else {
        (0xffff_ffffu32 << ((32 - prefix) as u32)) as u32
    }
}

/// Describe the subnet of `ip` with the given prefix length. Fails exactly
/// on a prefix over 32, or one of 32 (no room for a first host).
pub fn subnet_info(ip: u32, prefix: u8) -> (r: Result<SubnetInfo, SubnetError>)
    ensures
        prefix > 32 ==> r == Result::<SubnetInfo, SubnetError>::Err(SubnetError::InvalidPrefix),
        prefix == 32 ==> r == Result::<SubnetInfo, SubnetError>::Err(SubnetError::NoHostRange),
        prefix < 32 ==> (r matches Ok(info) && info == (SubnetInfo {
            network: ip & mask_spec(prefix),
            broadcast: (ip & mask_spec(prefix)) | !mask_spec(prefix),
            first_host: ((ip & mask_spec(prefix)) + 1) as u32,
            last_host: (((ip & mask_spec(prefix)) | !mask_spec(prefix)) - 1) as u32,
            mask: mask_spec(prefix),
            wildcard: !mask_spec(prefix),
            hosts: ((1u64 << ((32 - prefix) as u64)) - 2) as u64,
        })),
{
    if prefix > 32 {
        return Err(SubnetError::InvalidPrefix);
    }
    if prefix == 32 {
        return Err(SubnetError::NoHostRange);
    }
    let mask: u32 = if prefix == 0 {
        0
    } else {
        0xffff_ffffu32 << ((32 - prefix) as u32)
    };
    let wildcard = !mask;
    let network = ip & mask;
    let broadcast = network | wildcard;
    proof {
        let sh = (32 - prefix) as u32;
        if prefix == 0 {
            assert((ip & 0u32) < 0xffff_ffffu32) by (bit_vector);
            assert(((ip & 0u32) | !0u32) >= 1u32) by (bit_vector);
        } else {
            assert(1 <= sh <= 32);
            assert(1 <= sh <= 32 ==> (ip & (0xffff_ffffu32 << sh)) < 0xffff_ffffu32)
                by (bit_vector);
            assert(1 <= sh <= 32 ==> ((ip & (0xffff_ffffu32 << sh)) | !(0xffff_ffffu32 << sh))
                >= 1u32) by (bit_vector);
        }
        assert(mask == mask_spec(prefix));
    }
    let first_host = network + 1;
    let last_host = broadcast - 1;
    let sh64: u64 = (32 - prefix) as u64;
    proof {
        assert(1 <= sh64 <= 32 ==> (1u64 << sh64) >= 2u64) by (bit_vector);
    }
    let hosts = (1u64 << sh64) - 2;
    Ok(SubnetInfo { network, broadcast, first_host, last_host, mask, wildcard, hosts })
}

} // verus!
