pub mod dns;
pub mod icmp;
