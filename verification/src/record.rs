//! The data model: one decoded frame becomes one immutable `FormatedPacket`,
//! fully populated, with its extended `DetailedInfo`; a frame that fails to
//! decode at any layer produces nothing at all.
use vstd::prelude::*;

verus! {

/// Extended, display-oriented information about a decoded frame.
#[derive(Debug)]
pub struct DetailedInfo {
    /// Name of the interface the frame was captured on.
    pub interface: String,
    /// Source MAC address, `aa:bb:cc:dd:ee:ff`.
    pub src_mac: String,
    /// Destination MAC address, `aa:bb:cc:dd:ee:ff`.
    pub dst_mac: String,
    /// Name of the Ethernet frame type (`ARP`, `RARP`, `IPv4`, `IPv6`).
    pub frame_type: String,
    /// Length of the Ethernet payload in bytes.
    pub payload_length: usize,
    /// Length of the whole frame in bytes.
    pub packet_length: usize,
    /// Hex+ASCII dump of the Ethernet payload.
    pub payload_data: String,
}

/// One decoded, stored packet record.
#[derive(Debug)]
pub struct FormatedPacket {
    /// Sequence number, assigned only to frames that decode successfully;
    /// gap-free from 1 within one capture session.
    pub number: u32,
    /// Local time of decode, `hh:mm:ss`.
    pub time: String,
    /// Textual source protocol address.
    pub src_ip: String,
    /// Textual destination protocol address.
    pub dst_ip: String,
    /// Protocol label: `ARP`, `RARP`, `TCP`, `UDP`, `ICMP` or `ICMPv6`.
    pub protocol: String,
    /// Length in bytes of the protocol payload examined.
    pub lenght: usize,
    /// Short protocol-specific summary line.
    pub info: String,
    /// Extended record; always present on records built by the decoder.
    pub detailed_info: Option<DetailedInfo>,
    /// High-resolution capture instant in microseconds since the epoch;
    /// session-local, excluded from snapshot encoding, zero after an import.
    pub timestamp: u64,
}

impl Clone for DetailedInfo {
    /// An exact copy.
    fn clone(&self) -> (res: Self)
        ensures
            res == *self,
    {
        DetailedInfo {
            interface: self.interface.clone(),
            src_mac: self.src_mac.clone(),
            dst_mac: self.dst_mac.clone(),
            frame_type: self.frame_type.clone(),
            payload_length: self.payload_length,
            packet_length: self.packet_length,
            payload_data: self.payload_data.clone(),
        }
    }
}

impl Clone for FormatedPacket {
    /// An exact copy.
    fn clone(&self) -> (res: Self)
        ensures
            res == *self,
    {
        FormatedPacket {
            number: self.number,
            time: self.time.clone(),
            src_ip: self.src_ip.clone(),
            dst_ip: self.dst_ip.clone(),
            protocol: self.protocol.clone(),
            lenght: self.lenght,
            info: self.info.clone(),
            detailed_info: match &self.detailed_info {
                Some(d) => Some(d.clone()),
                None => None,
            },
            timestamp: self.timestamp,
        }
    }
}

} // verus!
