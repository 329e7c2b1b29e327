//! The connection that connectivity establishment gives: where packets go, and who gets those that
//! come.
use vstd::prelude::*;
use vstd::string::*;

use crate::transports::ice::address::SocketAddr;

verus! {

/// Why nothing can be sent.
#[derive(Debug, Clone, Copy, PartialEq, Eq, Structural)]
pub enum ConnError {
    NoRemoteAddress,
    NoSocket,
}

impl ConnError {
    /// The text of the failure.
    pub open spec fn text(&self) -> Seq<char> {
        match self {
            ConnError::NoRemoteAddress => "Remote address not set"@,
            ConnError::NoSocket => "No selected socket"@,
        }
    }

    /// The text of the failure.
    pub fn message(&self) -> (r: String)
        ensures
            r@ == self.text(),
    {
        String::from_str(
            match self {
                ConnError::NoRemoteAddress => "Remote address not set",
                ConnError::NoSocket => "No selected socket",
            },
        )
    }
}

/// Who gets a packet.
#[derive(Debug, Clone, Copy, PartialEq, Eq, Structural)]
pub enum PacketClass {
    Dtls,
    Rtp,
    Other,
}

/// Where packets go. A port of 0 stands for an address that is not known yet.
#[derive(Debug, Clone, Copy, PartialEq, Eq, Structural)]
pub struct IceConn {
    pub remote_addr: SocketAddr,
    pub remote_rtcp_addr: Option<SocketAddr>,
}

/// Who gets a packet that starts with this byte (RFC 7983).
pub open spec fn class_of(first_byte: u8) -> PacketClass {
    if 20 <= first_byte < 64 {
        PacketClass::Dtls
    } else if 128 <= first_byte < 192 {
        PacketClass::Rtp
    } else {
        PacketClass::Other
    }
}

/// Where packets go after one that starts with this byte came from `addr`.
pub open spec fn learned_address(current: SocketAddr, first_byte: u8, addr: SocketAddr) -> SocketAddr {
    if current.port == 0 || class_of(first_byte) == PacketClass::Dtls {
        addr
    } else {
        current
    }
}

/// Once an address is known, only DTLS packets change where packets go.
pub proof fn law_media_keeps_the_address(current: SocketAddr, first_byte: u8, addr: SocketAddr)
    requires
        current.port != 0,
        learned_address(current, first_byte, addr) != current,
    ensures
        class_of(first_byte) == PacketClass::Dtls,
{
}

/// Where a packet goes, or why it cannot.
pub open spec fn target(addr: SocketAddr, has_socket: bool) -> Result<SocketAddr, ConnError> {
    if !has_socket {
        Err(ConnError::NoSocket)
    } else if addr.port == 0 {
        Err(ConnError::NoRemoteAddress)
    } else {
        Ok(addr)
    }
}

impl IceConn {
    pub fn new(remote_addr: SocketAddr) -> (r: Self)
        ensures
            r == (IceConn { remote_addr, remote_rtcp_addr: None }),
    {
        IceConn { remote_addr, remote_rtcp_addr: None }
    }

    pub fn set_remote_rtcp_addr(&mut self, addr: Option<SocketAddr>)
        ensures
            *final(self) == (IceConn { remote_rtcp_addr: addr, ..*old(self) }),
    {
        self.remote_rtcp_addr = addr;
    }

    /// Where a packet goes, where there is a socket to send it through.
    pub fn send(&self, has_socket: bool) -> (r: Result<SocketAddr, ConnError>)
        ensures
            r == target(self.remote_addr, has_socket),
    {
        if !has_socket {
            Err(ConnError::NoSocket)
        } else if self.remote_addr.port == 0 {
            Err(ConnError::NoRemoteAddress)
        } else {
            Ok(self.remote_addr)
        }
    }

    /// Where an RTCP packet goes: to an address of its own where there is one.
    pub fn send_rtcp(&self, has_socket: bool) -> (r: Result<SocketAddr, ConnError>)
        ensures
            r == target(
                match self.remote_rtcp_addr {
                    Some(a) => a,
                    None => self.remote_addr,
                },
                has_socket,
            ),
    {
        let remote = match self.remote_rtcp_addr {
            Some(a) => a,
            None => self.remote_addr,
        };
        if !has_socket {
            Err(ConnError::NoSocket)
        } else if remote.port == 0 {
            Err(ConnError::NoRemoteAddress)
        } else {
            Ok(remote)
        }
    }

    /// Takes a packet from `addr`: who gets it. An empty packet changes nothing and no one gets it.
    pub fn receive(&mut self, packet: &[u8], addr: SocketAddr) -> (r: PacketClass)
        ensures
            r == if packet@.len() == 0 {
                PacketClass::Other
            } else {
                class_of(packet@[0])
            },
            *final(self) == if packet@.len() == 0 {
                *old(self)
            } else {
                IceConn {
                    remote_addr: learned_address(old(self).remote_addr, packet@[0], addr),
                    ..*old(self)
                }
            },
    {
        if packet.len() == 0 {
            return PacketClass::Other;
        }
        let first_byte: u8 = packet[0];
        let dtls = 20 <= first_byte && first_byte < 64;
        if self.remote_addr.port == 0 {
            self.remote_addr = addr;
        } else if self.remote_addr != addr {
            if dtls {
                self.remote_addr = addr;
            }
        }
        if dtls {
            PacketClass::Dtls
        } else if 128 <= first_byte && first_byte < 192 {
            PacketClass::Rtp
        } else {
            PacketClass::Other
        }
    }
}

} // verus!
