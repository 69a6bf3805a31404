//! A small user-space network protocol stack: device registry, loopback
//! driver, IPv4 header validation and the Internet checksum.

pub mod util;
pub mod driver;
pub mod net;
pub mod ip;
