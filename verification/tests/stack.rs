use ty_microps::driver::dummy::{dummy_init, DUMMY_MTU};
use ty_microps::driver::loopback::{loopback_init, loopback_output, LOOPBACK_MTU};
use ty_microps::ip::{ip_header_decode, ip_init, ip_input, IpInputError};
use ty_microps::net::{
    net_device_register, net_init, net_protocol_register, net_run, net_shutdown, NetDevice,
    NetDeviceOpsOutput, NetDeviceSpec, NetProtocolHandler, NET_DEVICE_FLAG_LOOPBACK,
    NET_DEVICE_FLAG_UP, NET_DEVICE_TYPE_DUMMY, NET_DEVICE_TYPE_LOOPBACK, NET_PROTOCOL_TYPE_IP,
};
use ty_microps::util::{cksum16, cksum16_endian, hexdump};

const TEST_DATA: [u8; 48] = [
    0x45, 0x00, 0x00, 0x30, 0x00, 0x80, 0x00, 0x00, 0xff, 0x01, 0xbd, 0x4a, 0x7f, 0x00, 0x00, 0x01,
    0x7f, 0x00, 0x00, 0x01, 0x08, 0x00, 0x35, 0x64, 0x00, 0x80, 0x00, 0x01, 0x31, 0x32, 0x33, 0x34,
    0x35, 0x36, 0x37, 0x38, 0x39, 0x30, 0x21, 0x40, 0x23, 0x24, 0x25, 0x5e, 0x26, 0x2a, 0x28, 0x29,
];

/// Recomputes the header checksum of a packet whose header is 20 bytes long.
fn with_checksum(mut data: Vec<u8>) -> Vec<u8> {
    data[10] = 0;
    data[11] = 0;
    let c = cksum16(&data[..20], 0);
    let b = c.to_ne_bytes();
    data[10] = b[0];
    data[11] = b[1];
    data
}

#[test]
fn cksum16_of_valid_header_is_zero() {
    assert_eq!(cksum16(&TEST_DATA[..20], 0), 0);
    assert_eq!(cksum16_endian(&TEST_DATA[..20], 0, true), 0);
    assert_eq!(cksum16_endian(&TEST_DATA[..20], 0, false), 0);
}

#[test]
fn cksum16_fills_checksum_field() {
    let mut header = TEST_DATA[..20].to_vec();
    header[10] = 0;
    header[11] = 0;
    let c = cksum16(&header, 0);
    assert_eq!(c.to_ne_bytes(), [0xbd, 0x4a]);
    let b = c.to_ne_bytes();
    header[10] = b[0];
    header[11] = b[1];
    assert_eq!(cksum16(&header, 0), 0);
}

#[test]
fn cksum16_endian_exact_values() {
    assert_eq!(cksum16_endian(&[0x00, 0x01], 0, true), 0xFEFF);
    assert_eq!(cksum16_endian(&[0x00, 0x01], 0, false), 0xFFFE);
    assert_eq!(cksum16_endian(&[0x01, 0x02, 0x03], 0, true), 0xFDFB);
    assert_eq!(cksum16_endian(&[0x01, 0x02, 0x03], 0, false), 0xFEFA);
    assert_eq!(cksum16_endian(&[], 0, true), 0xFFFF);
    assert_eq!(cksum16_endian(&[], 0x1234, true), 0xEDCB);
    // 0xFFFF + 0xFFFF = 0x1FFFE, folded to 0xFFFF
    assert_eq!(cksum16_endian(&[0xFF, 0xFF, 0xFF, 0xFF], 0, true), 0);
}

#[test]
fn cksum16_uses_machine_byte_order() {
    let little = cksum16_endian(&[0x12, 0x34, 0x56], 7, true);
    let big = cksum16_endian(&[0x12, 0x34, 0x56], 7, false);
    let r = cksum16(&[0x12, 0x34, 0x56], 7);
    assert!(r == little || r == big);
    if u16::from_ne_bytes([1, 0]) == 1 {
        assert_eq!(r, little);
    } else {
        assert_eq!(r, big);
    }
}

const BORDER: &str =
    "+------+-------------------------------------------------+------------------+\n";

#[test]
fn hexdump_empty() {
    let out = String::from_utf8(hexdump(&[])).unwrap();
    assert_eq!(out, format!("{}{}", BORDER, BORDER));
}

#[test]
fn hexdump_short_line() {
    let out = String::from_utf8(hexdump(&[0x41, 0x00, 0x7e, 0x20])).unwrap();
    let line = "| 0000 | 41 00 7e 20                                     | A.~.             |\n";
    assert_eq!(out, format!("{}{}{}", BORDER, line, BORDER));
}

#[test]
fn hexdump_two_lines() {
    let data: Vec<u8> = (0x30u8..0x41).collect();
    let out = String::from_utf8(hexdump(&data)).unwrap();
    let line0 = "| 0000 | 30 31 32 33 34 35 36 37 38 39 3a 3b 3c 3d 3e 3f | 0123456789:;<=>? |\n";
    let line1 = "| 0010 | 40                                              | @                |\n";
    assert_eq!(out, format!("{}{}{}{}", BORDER, line0, line1, BORDER));
}

#[test]
fn hexdump_wide_offset() {
    let data = vec![0xffu8; 0x10001];
    let out = String::from_utf8(hexdump(&data)).unwrap();
    let last = out.lines().rev().nth(1).unwrap().to_string();
    assert!(last.starts_with("| 10000 | ff "));
    assert_eq!(out.lines().count(), 2 + 0x1001);
}

#[test]
fn ip_input_accepts_test_packet() {
    let h = ip_input(&TEST_DATA).unwrap();
    assert_eq!(h.version(), 4);
    assert_eq!(h.header_length(), 20);
    assert_eq!(h.type_of_service(), 0);
    assert_eq!(h.total_length(), 48);
    assert_eq!(h.id(), 0x80);
    assert_eq!(h.flags(), 0);
    assert_eq!(h.fragment_offset(), 0);
    assert_eq!(h.ttl(), 255);
    assert_eq!(h.protocol(), 1);
    assert_eq!(h.checksum(), 0xbd4a);
    assert_eq!(h.source_address(), 0x7f00_0001);
    assert_eq!(h.destination_address(), 0x7f00_0001);
}

#[test]
fn ip_header_decode_fields() {
    let mut data = TEST_DATA[..20].to_vec();
    data[6] = 0x65;
    data[7] = 0x43;
    data[12] = 0x0a;
    data[13] = 0x01;
    data[14] = 0x02;
    data[15] = 0x03;
    let h = ip_header_decode(&data).unwrap();
    assert_eq!(h.flags(), 3);
    assert_eq!(h.fragment_offset(), 0x0543);
    assert_eq!(h.source_address(), 0x0a01_0203);
    assert!(matches!(ip_header_decode(&data[..19]), Err(IpInputError::Decode)));
}

#[test]
fn ip_input_too_short() {
    assert_eq!(ip_input(&TEST_DATA[..19]).err(), Some(IpInputError::TooShort));
    assert_eq!(ip_input(&[]).err(), Some(IpInputError::TooShort));
}

#[test]
fn ip_input_version_error() {
    let mut data = TEST_DATA.to_vec();
    data[0] = 0x65;
    assert_eq!(ip_input(&data).err(), Some(IpInputError::Version));
}

#[test]
fn ip_input_header_length_error() {
    let mut data = TEST_DATA.to_vec();
    data[0] = 0x4f;
    assert_eq!(ip_input(&data).err(), Some(IpInputError::HeaderLength));
}

#[test]
fn ip_input_checksum_error() {
    let mut data = TEST_DATA.to_vec();
    data[8] = 0x40;
    assert_eq!(ip_input(&data).err(), Some(IpInputError::Checksum));
}

#[test]
fn ip_input_total_length_error() {
    assert_eq!(ip_input(&TEST_DATA[..47]).err(), Some(IpInputError::TotalLength));
}

#[test]
fn ip_input_fragment_errors() {
    let mut more = TEST_DATA.to_vec();
    more[6] = 0x20;
    let more = with_checksum(more);
    assert_eq!(ip_input(&more).err(), Some(IpInputError::Fragment));
    let mut offset = TEST_DATA.to_vec();
    offset[7] = 0x01;
    let offset = with_checksum(offset);
    assert_eq!(ip_input(&offset).err(), Some(IpInputError::Fragment));
    let mut dont = TEST_DATA.to_vec();
    dont[6] = 0x40;
    let dont = with_checksum(dont);
    assert!(ip_input(&dont).is_ok());
}

#[test]
fn ip_init_registers_once() {
    let mut protocols = Vec::new();
    assert_eq!(ip_init(&mut protocols), 0);
    assert_eq!(protocols.len(), 1);
    assert_eq!(protocols[0].protocol_type, NET_PROTOCOL_TYPE_IP);
    assert!(protocols[0].handler == NetProtocolHandler::Ip);
    assert_eq!(ip_init(&mut protocols), -1);
    assert_eq!(protocols.len(), 1);
}

#[test]
fn protocol_register_distinct_types() {
    let mut protocols = Vec::new();
    assert_eq!(net_protocol_register(&mut protocols, 0x0806, NetProtocolHandler::Ip), 0);
    assert_eq!(net_protocol_register(&mut protocols, 0x0800, NetProtocolHandler::Ip), 0);
    assert_eq!(net_protocol_register(&mut protocols, 0x0806, NetProtocolHandler::Ip), -1);
    assert_eq!(protocols.len(), 2);
}

fn dummy_device() -> NetDevice {
    let mut dev = NetDevice::default();
    dev.dev_type = NET_DEVICE_TYPE_DUMMY;
    dev.mtu = 128;
    dev
}

#[test]
fn default_device_is_blank_and_down() {
    let dev = NetDevice::default();
    assert_eq!(dev.name, "");
    assert_eq!(dev.flags, 0);
    assert_eq!(dev.mtu, 0);
    assert_eq!(dev.addr, [0u8; 16]);
    assert!(dev.spec == NetDeviceSpec::Loopback);
    assert!(!dev.is_up());
    assert_eq!(dev.state(), "DOWN");
}

#[test]
fn driver_hooks() {
    let spec = NetDeviceSpec::Loopback;
    assert!(!spec.open());
    assert!(!spec.close());
    assert!(spec.output() == NetDeviceOpsOutput::Loopback);
}

#[test]
fn open_close_cycle() {
    let mut dev = dummy_device();
    dev.flags = NET_DEVICE_FLAG_LOOPBACK;
    assert_eq!(dev.close(), -1);
    assert_eq!(dev.open(), 0);
    assert!(dev.is_up());
    assert_eq!(dev.state(), "UP");
    assert_eq!(dev.flags, NET_DEVICE_FLAG_LOOPBACK | NET_DEVICE_FLAG_UP);
    assert_eq!(dev.open(), -1);
    assert_eq!(dev.flags, NET_DEVICE_FLAG_LOOPBACK | NET_DEVICE_FLAG_UP);
    assert_eq!(dev.close(), 0);
    assert_eq!(dev.flags, NET_DEVICE_FLAG_LOOPBACK);
    assert!(!dev.is_up());
}

#[test]
fn output_checks_state_and_mtu() {
    let mut dev = dummy_device();
    assert_eq!(dev.output(0x0800, &TEST_DATA, None), -1);
    dev.open();
    assert_eq!(dev.output(0x0800, &TEST_DATA, None), 0);
    dev.mtu = 47;
    assert_eq!(dev.output(0x0800, &TEST_DATA, None), -1);
    dev.mtu = 48;
    assert_eq!(dev.output(0x0800, &TEST_DATA, None), 0);
    assert_eq!(dev.flags, NET_DEVICE_FLAG_UP);
}

#[test]
fn input_and_loopback_output_accept() {
    let mut dev = dummy_device();
    assert_eq!(dev.input(0x0800, &TEST_DATA), 0);
    assert_eq!(loopback_output(&mut dev, 0x0800, &TEST_DATA, None), 0);
    assert_eq!(dev.mtu, 128);
}

#[test]
fn register_names_devices_by_index() {
    let mut devices = Vec::new();
    assert_eq!(net_device_register(&mut devices, dummy_device()), 0);
    assert_eq!(net_device_register(&mut devices, dummy_device()), 1);
    let mut named = dummy_device();
    named.name = String::from("eth9");
    assert_eq!(net_device_register(&mut devices, named), 2);
    assert_eq!(devices[0].name, "net0");
    assert_eq!(devices[1].name, "net1");
    assert_eq!(devices[2].name, "net2");
    assert_eq!(devices[2].mtu, 128);
}

#[test]
fn register_names_past_ten() {
    let mut devices = Vec::new();
    for i in 0..12 {
        assert_eq!(net_device_register(&mut devices, dummy_device()), i);
    }
    assert_eq!(devices[10].name, "net10");
    assert_eq!(devices[11].name, "net11");
}

#[test]
fn loopback_init_registers_loopback() {
    let mut devices = Vec::new();
    net_device_register(&mut devices, dummy_device());
    assert_eq!(loopback_init(&mut devices), 1);
    let dev = &devices[1];
    assert_eq!(dev.name, "net1");
    assert_eq!(dev.dev_type, NET_DEVICE_TYPE_LOOPBACK);
    assert_eq!(dev.mtu, LOOPBACK_MTU);
    assert_eq!(dev.mtu, u16::MAX);
    assert_eq!(dev.flags, NET_DEVICE_FLAG_LOOPBACK);
    assert_eq!(dev.hlen, 0);
    assert_eq!(dev.alen, 0);
    assert!(dev.spec == NetDeviceSpec::Loopback);
    assert_eq!(devices[0].name, "net0");
}

#[test]
fn net_init_follows_platform() {
    assert_eq!(net_init(0), 0);
    assert_eq!(net_init(-1), -1);
}

#[test]
fn run_then_shutdown_restores_devices() {
    let mut devices = Vec::new();
    loopback_init(&mut devices);
    net_device_register(&mut devices, dummy_device());
    assert_eq!(net_run(&mut devices, 0), 0);
    assert!(devices.iter().all(|d| d.is_up()));
    assert_eq!(devices[0].flags, NET_DEVICE_FLAG_LOOPBACK | NET_DEVICE_FLAG_UP);
    assert_eq!(net_run(&mut devices, 0), 0);
    assert_eq!(devices[0].flags, NET_DEVICE_FLAG_LOOPBACK | NET_DEVICE_FLAG_UP);
    assert_eq!(net_shutdown(&mut devices, 0), 0);
    assert!(devices.iter().all(|d| !d.is_up()));
    assert_eq!(devices[0].flags, NET_DEVICE_FLAG_LOOPBACK);
    assert_eq!(devices[1].flags, 0);
    assert_eq!(devices[1].name, "net1");
}

#[test]
fn platform_failure_leaves_devices() {
    let mut devices = Vec::new();
    loopback_init(&mut devices);
    assert_eq!(net_run(&mut devices, -1), -1);
    assert!(!devices[0].is_up());
    net_run(&mut devices, 0);
    assert_eq!(net_shutdown(&mut devices, -1), -1);
    assert!(devices[0].is_up());
}

#[test]
fn dummy_init_registers_dummy() {
    let mut devices = Vec::new();
    loopback_init(&mut devices);
    assert_eq!(dummy_init(&mut devices), 1);
    let dev = &devices[1];
    assert_eq!(dev.name, "net1");
    assert_eq!(dev.dev_type, NET_DEVICE_TYPE_DUMMY);
    assert_eq!(dev.mtu, DUMMY_MTU);
    assert_eq!(dev.mtu, 128);
    assert_eq!(dev.flags, 0);
    assert!(!dev.is_up());
    assert_eq!(devices[0].name, "net0");
}

#[test]
fn device_spec_default_is_loopback() {
    assert!(NetDeviceSpec::default() == NetDeviceSpec::Loopback);
}

#[test]
fn register_names_large_index() {
    let mut devices: Vec<NetDevice> = Vec::new();
    for _ in 0..105 {
        net_device_register(&mut devices, NetDevice::default());
    }
    assert_eq!(devices[100].name, "net100");
    assert_eq!(devices[104].name, "net104");
    assert_eq!(devices[9].name, "net9");
}
