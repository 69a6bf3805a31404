//! Network devices, their registry and the protocol registry.

use vstd::prelude::*;

use crate::driver::loopback::loopback_output;

verus! {

pub const NET_DEVICE_TYPE_DUMMY: u16 = 0x0000;

pub const NET_DEVICE_TYPE_LOOPBACK: u16 = 0x0001;

pub const NET_DEVICE_TYPE_ETHERNET: u16 = 0x0002;

pub const NET_DEVICE_FLAG_UP: u16 = 0x0001;

pub const NET_DEVICE_FLAG_LOOPBACK: u16 = 0x0010;

pub const NET_DEVICE_FLAG_BROADCAST: u16 = 0x0020;

pub const NET_DEVICE_FLAG_P2P: u16 = 0x0040;

pub const NET_DEVICE_FLAG_NEED_ARP: u16 = 0x0100;

pub const NET_DEVICE_ADDR_LEN: usize = 16;

/// Protocol number of IPv4 in the protocol registry (its Ethernet type).
pub const NET_PROTOCOL_TYPE_IP: u16 = 0x0800;

/// The output hook of a driver.
#[derive(PartialEq, Eq, Structural)]
pub enum NetDeviceOpsOutput {
    Loopback,
}

/// The driver behind a device.
#[derive(PartialEq, Eq, Structural)]
pub enum NetDeviceSpec {
    Loopback,
}

impl Default for NetDeviceSpec {
    fn default() -> (r: Self)
        ensures
            r == NetDeviceSpec::Loopback,
    {
        NetDeviceSpec::Loopback
    }
}

/// Runs the open hook of the device's driver; the loopback driver has no work
/// to do on opening.
fn driver_open(dev: &mut NetDevice) -> (r: i32)
    ensures
        r == 0,
        *final(dev) == *old(dev),
{
    match dev.spec {
        NetDeviceSpec::Loopback => 0,
    }
}

/// Runs the close hook of the device's driver; the loopback driver has no work
/// to do on closing.
fn driver_close(dev: &mut NetDevice) -> (r: i32)
    ensures
        r == 0,
        *final(dev) == *old(dev),
{
    match dev.spec {
        NetDeviceSpec::Loopback => 0,
    }
}

impl NetDeviceSpec {
    /// Whether the driver has an open hook: none of the drivers here has one.
    pub fn open(&self) -> (r: bool)
        ensures
            !r,
    {
        false
    }

    /// Whether the driver has a close hook: none of the drivers here has one.
    pub fn close(&self) -> (r: bool)
        ensures
            !r,
    {
        false
    }

    /// The output hook of the driver.
    pub fn output(&self) -> (r: NetDeviceOpsOutput)
        ensures
            r == NetDeviceOpsOutput::Loopback,
    {
        match self {
            NetDeviceSpec::Loopback => NetDeviceOpsOutput::Loopback,
        }
    }
}

/// A network device.
pub struct NetDevice {
    pub name: String,
    pub dev_type: u16,
    pub mtu: u16,
    pub flags: u16,
    pub hlen: u16,
    pub alen: u16,
    pub addr: [u8; NET_DEVICE_ADDR_LEN],
    pub broadcast: [u8; NET_DEVICE_ADDR_LEN],
    pub spec: NetDeviceSpec,
}

/// The up flag (`NET_DEVICE_FLAG_UP`, bit 0) is set in `flags`.
pub open spec fn spec_is_up(flags: u16) -> bool {
    flags % 2 == 1
}

impl NetDevice {
    /// The device with its flags replaced.
    pub open spec fn with_flags(self, flags: u16) -> NetDevice {
        NetDevice { flags, ..self }
    }

    /// The device with its name replaced.
    pub open spec fn with_name(self, name: String) -> NetDevice {
        NetDevice { name, ..self }
    }

    /// The device as a default value: no name, every number zero, loopback driver.
    pub open spec fn is_blank(self) -> bool {
        &&& self.name@ == Seq::<char>::empty()
        &&& self.dev_type == 0
        &&& self.mtu == 0
        &&& self.flags == 0
        &&& self.hlen == 0
        &&& self.alen == 0
        &&& self.addr@ == Seq::new(NET_DEVICE_ADDR_LEN as nat, |_i: int| 0u8)
        &&& self.broadcast@ == Seq::new(NET_DEVICE_ADDR_LEN as nat, |_i: int| 0u8)
        &&& self.spec == NetDeviceSpec::Loopback
    }

    pub fn is_up(&self) -> (r: bool)
        ensures
            r == spec_is_up(self.flags),
    {
        let f: u16 = self.flags;
        assert(f & 1 != 0 <==> f % 2 == 1) by (bit_vector);
        self.flags & NET_DEVICE_FLAG_UP != 0
    }

    pub fn state(&self) -> (r: &'static str)
        ensures
            spec_is_up(self.flags) ==> r@ == "UP"@,
            !spec_is_up(self.flags) ==> r@ == "DOWN"@,
    {
        if self.is_up() {
            "UP"
        } else {
            "DOWN"
        }
    }
}


/// What opening a device returns, and the device afterwards: a device that is
/// already up is refused and left as it is; otherwise its up flag, bit 0,
/// is set (which adds one to the flags).
pub open spec fn spec_open(d: NetDevice) -> (i32, NetDevice) {
    if spec_is_up(d.flags) {
        (-1i32, d)
    } else {
        (0, d.with_flags((d.flags + 1) as u16))
    }
}

/// What closing a device returns, and the device afterwards: a device that is
/// not up is refused and left as it is; otherwise its up flag, bit 0, is
/// cleared (which takes one from the flags).
pub open spec fn spec_close(d: NetDevice) -> (i32, NetDevice) {
    if !spec_is_up(d.flags) {
        (-1i32, d)
    } else {
        (0, d.with_flags((d.flags - 1) as u16))
    }
}

/// What sending `len` bytes through a device returns: failure when the device
/// is down or the data is longer than its MTU.
pub open spec fn spec_output(d: NetDevice, len: nat) -> i32 {
    if !spec_is_up(d.flags) || (d.mtu as nat) < len {
        -1i32
    } else {
        0
    }
}

impl Default for NetDevice {
    fn default() -> (r: Self)
        ensures
            r.is_blank(),
    {
        let d = NetDevice {
            name: String::new(),
            dev_type: 0,
            mtu: 0,
            flags: 0,
            hlen: 0,
            alen: 0,
            addr: [0u8; 16],
            broadcast: [0u8; 16],
            spec: NetDeviceSpec::Loopback,
        };
        assert(d.addr@ =~= Seq::new(NET_DEVICE_ADDR_LEN as nat, |_i: int| 0u8));
        assert(d.broadcast@ =~= Seq::new(NET_DEVICE_ADDR_LEN as nat, |_i: int| 0u8));
        d
    }
}

impl NetDevice {
    pub fn open(&mut self) -> (r: i32)
        ensures
            (r, *final(self)) == spec_open(*old(self)),
    {
        if self.is_up() {
            return -1;
        }
        if self.spec.open() && driver_open(self) == -1 {
            return -1;
        }
        let f: u16 = self.flags;
        assert(f % 2 == 0 ==> f | 1 == f + 1) by (bit_vector);
        self.flags = self.flags | NET_DEVICE_FLAG_UP;
        0
    }

    pub fn close(&mut self) -> (r: i32)
        ensures
            (r, *final(self)) == spec_close(*old(self)),
    {
        if !self.is_up() {
            return -1;
        }
        if self.spec.close() && driver_close(self) == -1 {
            return -1;
        }
        let f: u16 = self.flags;
        assert(f % 2 == 1 ==> f & !1u16 == f - 1) by (bit_vector);
        self.flags = self.flags & !NET_DEVICE_FLAG_UP;
        0
    }

    /// Receives `data` of the given type from the device; it is accepted as it is.
    pub fn input(&mut self, dev_type: u16, data: &[u8]) -> (r: i32)
        ensures
            r == 0,
            *final(self) == *old(self),
    {
        0
    }

    /// Sends `data` of the given type through the device's driver.
    pub fn output(&mut self, dev_type: u16, data: &[u8], dst: Option<()>) -> (r: i32)
        ensures
            r == spec_output(*old(self), data@.len()),
            *final(self) == *old(self),
    {
        if !self.is_up() {
            return -1;
        }
        let failed: bool = match self.spec.output() {
            NetDeviceOpsOutput::Loopback => loopback_output(self, dev_type, data, dst) == -1,
        };
        if failed {
            return -1;
        }
        if (self.mtu as usize) < data.len() {
            return -1;
        }
        0
    }
}

/// The decimal digit `d` (below 10) as a character.
pub open spec fn decimal_digit(d: nat) -> char {
    (48 + d) as char
}

/// The decimal digits of `n`, most significant first.
pub open spec fn spec_decimal(n: nat) -> Seq<char>
    decreases n,
{
    if n < 10 {
        seq![decimal_digit(n)]
    } else {
        spec_decimal(n / 10).push(decimal_digit(n % 10))
    }
}

/// The name given to the device registered at `index`: `net` and the index in decimal.
pub open spec fn spec_device_name(index: nat) -> Seq<char> {
    seq!['n', 'e', 't'] + spec_decimal(index)
}

/// Each device is named after its position in the registry.
pub open spec fn names_match_indices(devices: Seq<NetDevice>) -> bool {
    forall|i: int| 0 <= i < devices.len() ==> #[trigger] devices[i].name@ == spec_device_name(i as nat)
}

/// The characters that ASCII bytes stand for.
pub open spec fn ascii_chars(bytes: Seq<u8>) -> Seq<char> {
    bytes.map_values(|b: u8| b as char)
}

/// Every byte is ASCII.
pub open spec fn all_ascii(bytes: Seq<u8>) -> bool {
    forall|i: int| 0 <= i < bytes.len() ==> #[trigger] bytes[i] < 0x80
}

/// `String::from_utf8`: ASCII bytes are valid UTF-8, and the string holds the
/// character of each byte.
#[verifier::external_body]
fn ascii_to_string(bytes: Vec<u8>) -> (s: String)
    requires
        all_ascii(bytes@),
    ensures
        s@ == ascii_chars(bytes@),
{
    String::from_utf8(bytes).unwrap()
}

proof fn lemma_ascii_chars_push(s: Seq<u8>, b: u8)
    ensures
        ascii_chars(s.push(b)) == ascii_chars(s).push(b as char),
{
    assert(ascii_chars(s.push(b)) =~= ascii_chars(s).push(b as char));
}

/// Appends the decimal digits of `n` to `out`.
fn push_decimal(out: &mut Vec<u8>, n: usize)
    requires
        all_ascii(old(out)@),
    ensures
        all_ascii(final(out)@),
        ascii_chars(final(out)@) == ascii_chars(old(out)@) + spec_decimal(n as nat),
    decreases n,
{
    if n >= 10 {
        push_decimal(out, n / 10);
    }
    let ghost before = out@;
    let d: u8 = (n % 10) as u8;
    out.push(0x30 + d);
    proof {
        lemma_ascii_chars_push(before, (0x30 + d) as u8);
        assert(((0x30 + d) as u8) as char == decimal_digit((n % 10) as nat));
        assert(n < 10 ==> spec_decimal(n as nat) == seq![decimal_digit(n as nat)]);
        assert(ascii_chars(out@) =~= ascii_chars(old(out)@) + spec_decimal(n as nat));
    }
}

/// The name `net<index>`, with the index in decimal.
fn device_name(index: usize) -> (name: String)
    ensures
        name@ == spec_device_name(index as nat),
{
    let mut bytes: Vec<u8> = Vec::new();
    bytes.push(0x6E);
    bytes.push(0x65);
    bytes.push(0x74);
    assert(ascii_chars(bytes@) =~= seq!['n', 'e', 't']);
    push_decimal(&mut bytes, index);
    ascii_to_string(bytes)
}

/// Adds `dev` to the registry under the name `net<index>`, where the index is
/// its position; returns that index.
pub fn net_device_register(devices: &mut Vec<NetDevice>, dev: NetDevice) -> (r: i32)
    requires
        old(devices).len() < i32::MAX,
    ensures
        r as int == old(devices).len(),
        final(devices)@ == old(devices)@.push(dev.with_name(final(devices)@[r as int].name)),
        final(devices)@[r as int].name@ == spec_device_name(r as nat),
        names_match_indices(old(devices)@) ==> names_match_indices(final(devices)@),
{
    let mut dev = dev;
    let index: usize = devices.len();
    dev.name = device_name(index);
    devices.push(dev);
    index as i32
}

/// The registry after every device has been opened.
pub open spec fn spec_run(devices: Seq<NetDevice>) -> Seq<NetDevice> {
    Seq::new(devices.len(), |i: int| spec_open(devices[i]).1)
}

/// The registry after every device has been closed.
pub open spec fn spec_shutdown(devices: Seq<NetDevice>) -> Seq<NetDevice> {
    Seq::new(devices.len(), |i: int| spec_close(devices[i]).1)
}

/// Starts the stack once the platform has been initialised; `platform_ret` is
/// what the platform's initialisation returned.
pub fn net_init(platform_ret: i32) -> (r: i32)
    ensures
        r == if platform_ret == -1 { -1i32 } else { 0i32 },
{
    if platform_ret == -1 {
        return -1;
    }
    0
}

/// Runs the stack: when the platform started (`platform_ret` is what it
/// returned), opens every registered device.
pub fn net_run(devices: &mut Vec<NetDevice>, platform_ret: i32) -> (r: i32)
    ensures
        platform_ret == -1 ==> r == -1 && final(devices)@ == old(devices)@,
        platform_ret != -1 ==> r == 0 && final(devices)@ == spec_run(old(devices)@),
{
    if platform_ret == -1 {
        return -1;
    }
    let ghost start = devices@;
    let mut i: usize = 0;
    while i < devices.len()
        invariant
            i <= devices@.len(),
            devices@.len() == start.len(),
            forall|j: int| 0 <= j < i ==> #[trigger] devices@[j] == spec_open(start[j]).1,
            forall|j: int| i <= j < devices@.len() ==> #[trigger] devices@[j] == start[j],
        decreases devices@.len() - i,
    {
        devices[i].open();
        i = i + 1;
    }
    assert(devices@ =~= spec_run(start));
    0
}

/// Shuts the stack down: when the platform shut down (`platform_ret` is what
/// it returned), closes every registered device.
pub fn net_shutdown(devices: &mut Vec<NetDevice>, platform_ret: i32) -> (r: i32)
    ensures
        platform_ret == -1 ==> r == -1 && final(devices)@ == old(devices)@,
        platform_ret != -1 ==> r == 0 && final(devices)@ == spec_shutdown(old(devices)@),
{
    if platform_ret == -1 {
        return -1;
    }
    let ghost start = devices@;
    let mut i: usize = 0;
    while i < devices.len()
        invariant
            i <= devices@.len(),
            devices@.len() == start.len(),
            forall|j: int| 0 <= j < i ==> #[trigger] devices@[j] == spec_close(start[j]).1,
            forall|j: int| i <= j < devices@.len() ==> #[trigger] devices@[j] == start[j],
        decreases devices@.len() - i,
    {
        devices[i].close();
        i = i + 1;
    }
    assert(devices@ =~= spec_shutdown(start));
    0
}


/// Law of output: sending `len` bytes through a device succeeds (0) exactly
/// when the up bit (`NET_DEVICE_FLAG_UP`) of its flags is set, whatever its
/// other flags, and the data fits its MTU; otherwise it fails (-1).
pub proof fn lemma_output_succeeds_exactly(d: NetDevice, len: nat)
    ensures
        spec_output(d, len) == 0 <==> (d.flags & NET_DEVICE_FLAG_UP != 0 && len <= d.mtu),
        spec_output(d, len) == 0 || spec_output(d, len) == -1,
{
    let f: u16 = d.flags;
    assert(f & 1 != 0 <==> f % 2 == 1) by (bit_vector);
}

/// Closing a device undoes opening it: a device that is down opens, is then
/// up, cannot be opened again, and closes back to exactly what it was.
pub proof fn lemma_close_undoes_open(d: NetDevice)
    requires
        !spec_is_up(d.flags),
    ensures
        spec_open(d).0 == 0,
        spec_is_up(spec_open(d).1.flags),
        spec_open(spec_open(d).1).0 == -1,
        spec_close(spec_open(d).1) == (0i32, d),
{
    assert(d.with_flags(d.flags) == d);
}

/// Opening a device undoes closing it: a device that is up closes, is then
/// down, cannot be closed again, and opens back to exactly what it was.
pub proof fn lemma_open_undoes_close(d: NetDevice)
    requires
        spec_is_up(d.flags),
    ensures
        spec_close(d).0 == 0,
        !spec_is_up(spec_close(d).1.flags),
        spec_close(spec_close(d).1).0 == -1,
        spec_open(spec_close(d).1) == (0i32, d),
{
    assert(d.with_flags(d.flags) == d);
}

/// After the stack runs every device is up, and after it shuts down every
/// device is down; each keeps all else it had.
pub proof fn lemma_run_and_shutdown_states(devices: Seq<NetDevice>)
    ensures
        forall|i: int| 0 <= i < devices.len() ==> spec_is_up(#[trigger] spec_run(devices)[i].flags),
        forall|i: int| 0 <= i < devices.len() ==> !spec_is_up(#[trigger] spec_shutdown(devices)[i].flags),
        forall|i: int| 0 <= i < devices.len() ==> #[trigger] spec_run(devices)[i].with_flags(devices[i].flags) == devices[i],
        forall|i: int| 0 <= i < devices.len() ==> #[trigger] spec_shutdown(devices)[i].with_flags(devices[i].flags) == devices[i],
{
    assert forall|i: int| 0 <= i < devices.len() implies spec_is_up(#[trigger] spec_run(devices)[i].flags) && spec_run(devices)[i].with_flags(devices[i].flags) == devices[i] by {
        assert(devices[i].with_flags(devices[i].flags) == devices[i]);
    }
    assert forall|i: int| 0 <= i < devices.len() implies !spec_is_up(#[trigger] spec_shutdown(devices)[i].flags) && spec_shutdown(devices)[i].with_flags(devices[i].flags) == devices[i] by {
        assert(devices[i].with_flags(devices[i].flags) == devices[i]);
    }
}

/// Shutting the stack down undoes running it when every device was down.
pub proof fn lemma_shutdown_undoes_run(devices: Seq<NetDevice>)
    requires
        forall|i: int| 0 <= i < devices.len() ==> !spec_is_up(#[trigger] devices[i].flags),
    ensures
        spec_shutdown(spec_run(devices)) == devices,
{
    assert forall|i: int| 0 <= i < devices.len() implies #[trigger] spec_shutdown(spec_run(devices))[i] == devices[i] by {
        lemma_close_undoes_open(devices[i]);
    }
    assert(spec_shutdown(spec_run(devices)) =~= devices);
}


/// The input handler of a registered protocol.
#[derive(PartialEq, Eq, Structural)]
pub enum NetProtocolHandler {
    Ip,
}

/// A protocol registered with the stack.
#[derive(PartialEq, Eq, Structural)]
pub struct NetProtocol {
    pub protocol_type: u16,
    pub handler: NetProtocolHandler,
}

/// Some protocol of the given type is registered.
pub open spec fn spec_protocol_registered(protocols: Seq<NetProtocol>, protocol_type: u16) -> bool {
    exists|j: int| 0 <= j < protocols.len() && (#[trigger] protocols[j]).protocol_type == protocol_type
}

/// No two registered protocols have the same type.
pub open spec fn protocols_distinct(protocols: Seq<NetProtocol>) -> bool {
    forall|i: int, j: int|
        0 <= i < j < protocols.len() ==> (#[trigger] protocols[i]).protocol_type
            != (#[trigger] protocols[j]).protocol_type
}

/// Registers a protocol: refused when one of the same type is registered
/// already, else added at the end.
pub fn net_protocol_register(
    protocols: &mut Vec<NetProtocol>,
    protocol_type: u16,
    handler: NetProtocolHandler,
) -> (r: i32)
    ensures
        spec_protocol_registered(old(protocols)@, protocol_type) ==> r == -1 && final(protocols)@
            == old(protocols)@,
        !spec_protocol_registered(old(protocols)@, protocol_type) ==> r == 0 && final(protocols)@
            == old(protocols)@.push(NetProtocol { protocol_type, handler }),
        protocols_distinct(old(protocols)@) ==> protocols_distinct(final(protocols)@),
{
    let mut i: usize = 0;
    while i < protocols.len()
        invariant
            i <= protocols@.len(),
            forall|j: int| 0 <= j < i ==> (#[trigger] protocols@[j]).protocol_type != protocol_type,
        decreases protocols@.len() - i,
    {
        if protocols[i].protocol_type == protocol_type {
            return -1;
        }
        i = i + 1;
    }
    protocols.push(NetProtocol { protocol_type, handler });
    0
}

} // verus!
