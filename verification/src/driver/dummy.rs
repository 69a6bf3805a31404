//! The dummy device driver: a device that discards what is sent through it.

use vstd::prelude::*;

use crate::net::{
    net_device_register, spec_device_name, NetDevice, NetDeviceSpec, NET_DEVICE_TYPE_DUMMY,
};

verus! {

pub const DUMMY_MTU: u16 = 128;

/// The dummy device as the driver sets it up, before registration gives it a
/// name.
pub open spec fn is_dummy_device(d: NetDevice) -> bool {
    &&& d.dev_type == NET_DEVICE_TYPE_DUMMY
    &&& d.mtu == DUMMY_MTU
    &&& d.flags == 0
    &&& d.hlen == 0
    &&& d.alen == 0
    &&& d.addr@ == Seq::new(16, |_i: int| 0u8)
    &&& d.broadcast@ == Seq::new(16, |_i: int| 0u8)
    &&& d.spec == NetDeviceSpec::Loopback
}

/// Sets up a dummy device and registers it; returns its index.
pub fn dummy_init(devices: &mut Vec<NetDevice>) -> (r: i32)
    requires
        old(devices).len() < i32::MAX,
    ensures
        r as int == old(devices).len(),
        final(devices)@.len() == old(devices)@.len() + 1,
        final(devices)@.take(r as int) == old(devices)@,
        is_dummy_device(final(devices)@[r as int]),
        final(devices)@[r as int].name@ == spec_device_name(r as nat),
{
    let mut dev = NetDevice::default();
    dev.dev_type = NET_DEVICE_TYPE_DUMMY;
    dev.mtu = DUMMY_MTU;
    dev.hlen = 0;
    dev.alen = 0;
    let ret: i32 = net_device_register(devices, dev);
    if ret == -1 {
        return -1;
    }
    assert(devices@.take(ret as int) =~= old(devices)@);
    ret
}

} // verus!
