# ty_microps

A small user-space network protocol stack in Verus.

- `src/util.rs`: the Internet checksum (`cksum16`, `cksum16_endian`) with its
  laws (a stored checksum makes the header verify; whether a checksum verifies
  does not depend on byte order), and the hex dump text (`hexdump`).
- `src/net.rs`: network devices, the device registry (`net_device_register`,
  `net_run`, `net_shutdown`), the protocol registry, and the laws of opening
  and closing devices.
- `src/driver/loopback.rs`, `src/driver/dummy.rs`: the loopback and dummy drivers.
- `src/ip.rs`: the IPv4 header, decoded with `bincode`, and input validation
  (`ip_input`).
- `app/main.rs`: the test program: logging, signals, the global device list
  and the send loop.
