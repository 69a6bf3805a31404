//! The loopback device driver.

use vstd::prelude::*;

use crate::net::{
    net_device_register, spec_device_name, NetDevice, NetDeviceSpec, NET_DEVICE_FLAG_LOOPBACK,
    NET_DEVICE_TYPE_LOOPBACK,
};

verus! {

pub const LOOPBACK_MTU: u16 = u16::MAX;

/// The loopback device as the driver sets it up, before registration gives
/// it a name.
pub open spec fn is_loopback_device(d: NetDevice) -> bool {
    &&& d.dev_type == NET_DEVICE_TYPE_LOOPBACK
    &&& d.mtu == LOOPBACK_MTU
    &&& d.flags == NET_DEVICE_FLAG_LOOPBACK
    &&& d.hlen == 0
    &&& d.alen == 0
    &&& d.addr@ == Seq::new(16, |_i: int| 0u8)
    &&& d.broadcast@ == Seq::new(16, |_i: int| 0u8)
    &&& d.spec == NetDeviceSpec::Loopback
}

/// Sets up a loopback device and registers it; returns its index.
pub fn loopback_init(devices: &mut Vec<NetDevice>) -> (r: i32)
    requires
        old(devices).len() < i32::MAX,
    ensures
        r as int == old(devices).len(),
        final(devices)@.len() == old(devices)@.len() + 1,
        final(devices)@.take(r as int) == old(devices)@,
        is_loopback_device(final(devices)@[r as int]),
        final(devices)@[r as int].name@ == spec_device_name(r as nat),
{
    let mut dev = NetDevice::default();
    dev.dev_type = NET_DEVICE_TYPE_LOOPBACK;
    dev.mtu = LOOPBACK_MTU;
    dev.flags = NET_DEVICE_FLAG_LOOPBACK;
    dev.hlen = 0;
    dev.alen = 0;
    dev.spec = NetDeviceSpec::Loopback;
    let ret: i32 = net_device_register(devices, dev);
    if ret == -1 {
        return -1;
    }
    assert(devices@.take(ret as int) =~= old(devices)@);
    ret
}

/// Output hook of the loopback driver: what is sent comes back as input of
/// the same device.

pub fn loopback_output(dev: &mut NetDevice, dev_type: u16, data: &[u8], dst: Option<()>) -> (r: i32)
    ensures
        r == 0,
        *final(dev) == *old(dev),
{
    dev.input(dev_type, data)
}

} // verus!
