use vstd::prelude::*;

verus! {

/// The fields of an IPv4 header that flow tracking needs.
#[derive(Debug, Clone, PartialEq, Eq)]
pub struct Ipv4Header {
    pub src: [u8; 4],
    pub dst: [u8; 4],
    pub protocol: u8,
    /// Header length in 32-bit words (the IHL field).
    pub header_len: u8,
}

/// Why a packet header could not be read.
#[derive(Debug, Clone, Copy, PartialEq, Eq, Structural)]
pub enum PacketError {
    /// Fewer than 20 bytes: no room for an IPv4 header.
    TooShortForIpv4,
    /// The version nibble is not 4.
    NotIpv4,
    /// The IHL field claims more bytes than the buffer holds.
    TruncatedIpv4,
    /// Fewer than 4 bytes: no room for the TCP ports.
    TooShortForTcp,
}

/// Version nibble of the first IPv4 header byte.
pub open spec fn ipv4_version(b0: u8) -> u8 {
    b0 >> 4u8
}

/// IHL nibble of the first IPv4 header byte.
pub open spec fn ipv4_ihl(b0: u8) -> u8 {
    b0 & 0x0fu8
}

/// What parsing an IPv4 header from `buf` yields.
pub open spec fn ipv4_parse_spec(buf: Seq<u8>) -> Result<(Seq<u8>, Seq<u8>, u8, u8, nat), PacketError> {
    if buf.len() < 20 {
        Err(PacketError::TooShortForIpv4)
    } else if ipv4_version(buf[0]) != 4 {
        Err(PacketError::NotIpv4)
    } else if buf.len() < ipv4_ihl(buf[0]) * 4 {
        Err(PacketError::TruncatedIpv4)
    } else {
        Ok((buf.subrange(12, 16), buf.subrange(16, 20), buf[9], ipv4_ihl(buf[0]), (ipv4_ihl(buf[0]) * 4) as nat))
    }
}

impl Ipv4Header {
    /// Parse the IPv4 header at the start of `buf`; also returns the header length in bytes.
    pub fn parse(buf: &[u8]) -> (r: Result<(Ipv4Header, usize), PacketError>)
        ensures
            match (r, ipv4_parse_spec(buf@)) {
                (Ok((h, n)), Ok((src, dst, proto, ihl, len))) =>
                    h.src@ == src && h.dst@ == dst && h.protocol == proto
                        && h.header_len == ihl && n == len,
                (Err(e), Err(f)) => e == f,
                _ => false,
            },
    {
        if buf.len() < 20 {
            return Err(PacketError::TooShortForIpv4);
        }
        let version_ihl = buf[0];
        let version = version_ihl >> 4u8;
        if version != 4 {
            return Err(PacketError::NotIpv4);
        }
        let ihl = version_ihl & 0x0fu8;
        assert(ihl <= 15) by (bit_vector)
            requires ihl == version_ihl & 0x0fu8;
        let header_bytes = (ihl as usize) * 4;
        if buf.len() < header_bytes {
            return Err(PacketError::TruncatedIpv4);
        }
        let protocol = buf[9];
        let src = [buf[12], buf[13], buf[14], buf[15]];
        let dst = [buf[16], buf[17], buf[18], buf[19]];
        assert(src@ =~= buf@.subrange(12, 16));
        assert(dst@ =~= buf@.subrange(16, 20));
        Ok((Ipv4Header { src, dst, protocol, header_len: ihl }, header_bytes))
    }
}

/// Flow key: the 4-tuple plus the IP protocol number.
#[derive(Debug, Clone, Copy, PartialEq, Eq, Hash)]
pub struct FlowKey {
    pub src: [u8; 4],
    pub dst: [u8; 4],
    pub src_port: u16,
    pub dst_port: u16,
    pub protocol: u8,
}

impl FlowKey {
    pub fn new(src: [u8; 4], dst: [u8; 4], src_port: u16, dst_port: u16, protocol: u8) -> (r: Self)
        ensures
            r == (FlowKey { src, dst, src_port, dst_port, protocol }),
    {
        FlowKey { src, dst, src_port, dst_port, protocol }
    }
}

/// Big-endian value of two bytes.
pub open spec fn be16(hi: u8, lo: u8) -> u16 {
    ((hi as int) * 256 + (lo as int)) as u16
}

/// Read the (source, destination) ports at the start of a TCP header.
pub fn parse_tcp_ports(buf: &[u8]) -> (r: Result<(u16, u16), PacketError>)
    ensures
        buf@.len() < 4 ==> r == Err::<(u16, u16), PacketError>(PacketError::TooShortForTcp),
        buf@.len() >= 4 ==> r == Ok::<(u16, u16), PacketError>(
            (be16(buf@[0], buf@[1]), be16(buf@[2], buf@[3])),
        ),
{
    if buf.len() < 4 {
        return Err(PacketError::TooShortForTcp);
    }
    let src_port = (buf[0] as u16) * 256 + (buf[1] as u16);
    let dst_port = (buf[2] as u16) * 256 + (buf[3] as u16);
    Ok((src_port, dst_port))
}

} // verus!
