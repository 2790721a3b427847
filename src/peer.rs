use vstd::prelude::*;

use crate::address::{Addr, Ip, LOCALHOST_V4};

verus! {

/// A point in time: whole seconds since the Unix epoch and the nanoseconds past them.
#[derive(Clone, Copy, Debug, PartialEq, Eq, Hash)]
pub struct Timestamp {
    pub secs: i64,
    pub nanos: u32,
}

/// The descriptor of a gossip node.
#[derive(Clone, Copy, Debug, PartialEq, Eq, Hash)]
pub struct Peer {
    /// When the node started.
    pub started: Timestamp,
    /// Its broadcast interval in seconds; meaningful for the local node only.
    pub period: u64,
    /// The port it listens on.
    pub port: u16,
    /// The address other nodes should use to reach it, if it declared one.
    pub host_alias: Option<Ip>,
}

impl Peer {
    /// The address this peer is reached at: its host alias, else the IPv4 loopback, with its port.
    pub open spec fn spec_socket_addr(self) -> Addr {
        Addr {
            ip: match self.host_alias {
                Some(ip) => ip,
                None => Ip::V4(LOCALHOST_V4),
            },
            port: self.port,
        }
    }

    pub fn socket_addr(&self) -> (r: Addr)
        ensures
            r == self.spec_socket_addr(),
    {
        let ip = match self.host_alias {
            Some(ip) => ip,
            None => Ip::V4(LOCALHOST_V4),
        };
        Addr { ip, port: self.port }
    }
}

/// Why a node's own configuration was refused.
#[derive(Clone, Copy, Debug, PartialEq, Eq, Structural)]
pub enum ConfigError {
    /// The broadcast period is not a whole number of seconds above zero.
    BadPeriod,
    /// The port is not a number from 0 to 65535.
    BadPort,
    /// The host alias is not an IP address.
    BadHostAlias,
}

pub open spec fn is_decimal_digit(c: char) -> bool {
    '0' <= c && c <= '9'
}

/// The value of a string of decimal digits.
pub open spec fn digits_value(s: Seq<char>) -> nat
    decreases s.len(),
{
    if s.len() == 0 {
        0
    } else {
        digits_value(s.drop_last()) * 10 + ((s.last() as u32 - '0' as u32) as nat)
    }
}

/// The number that a text spells as std reads unsigned integers: an optional `+`, then one
/// or more ASCII digits and nothing else.
pub open spec fn unsigned_decimal(s: Seq<char>) -> Option<nat> {
    let d = if s.len() > 0 && s[0] == '+' { s.drop_first() } else { s };
    if d.len() > 0 && forall|i: int| 0 <= i < d.len() ==> is_decimal_digit(#[trigger] d[i]) {
        Some(digits_value(d))
    } else {
        None
    }
}

/// The number that a text spells, if it is at most `max`.
pub open spec fn decimal_at_most(s: Seq<char>, max: nat) -> Option<nat> {
    match unsigned_decimal(s) {
        Some(v) => if v <= max { Some(v) } else { None },
        None => None,
    }
}

/// Relies on `str::parse::<u64>`: it accepts exactly an optional `+` and ASCII digits whose
/// value fits in a `u64`.
#[verifier::external_body]
fn parse_u64(s: &str) -> (r: Option<u64>)
    ensures
        match decimal_at_most(s@, u64::MAX as nat) {
            Some(v) => r == Some(v as u64),
            None => r is None,
        },
{
    s.parse::<u64>().ok()
}

/// Relies on `str::parse::<u16>`: it accepts exactly an optional `+` and ASCII digits whose
/// value fits in a `u16`.
#[verifier::external_body]
fn parse_u16(s: &str) -> (r: Option<u16>)
    ensures
        match decimal_at_most(s@, u16::MAX as nat) {
            Some(v) => r == Some(v as u16),
            None => r is None,
        },
{
    s.parse::<u16>().ok()
}

/// The descriptor a node builds for itself from its configuration texts, or why they are refused;
/// the period is checked before the port.
pub open spec fn configured_peer(started: Timestamp, period: Seq<char>, port: Seq<char>, host_alias: Option<Ip>) -> Result<Peer, ConfigError> {
    match decimal_at_most(period, u64::MAX as nat) {
        Some(secs) => if secs == 0 {
            Err(ConfigError::BadPeriod)
        } else {
            match decimal_at_most(port, u16::MAX as nat) {
                Some(p) => Ok(Peer { started, period: secs as u64, port: p as u16, host_alias }),
                None => Err(ConfigError::BadPort),
            }
        },
        None => Err(ConfigError::BadPeriod),
    }
}

impl Peer {
    /// Builds this node's own descriptor from its start time, the period and port as given on
    /// the command line, and the host alias if one was given.
    pub fn try_from(started: Timestamp, period: &str, port: &str, host_alias: Option<Ip>) -> (r: Result<Peer, ConfigError>)
        ensures
            r == configured_peer(started, period@, port@, host_alias),
    {
        let secs = match parse_u64(period) {
            Some(v) => v,
            None => return Err(ConfigError::BadPeriod),
        };
        if secs == 0 {
            return Err(ConfigError::BadPeriod);
        }
        let p = match parse_u16(port) {
            Some(v) => v,
            None => return Err(ConfigError::BadPort),
        };
        Ok(Peer { started, period: secs, port: p, host_alias })
    }
}

} // verus!
