//! TCP sockets.

use vstd::prelude::*;

use crate::addr::IPv4;
use crate::flags;
use crate::flags::TcpFlags;
use crate::frame;
use crate::parse;
use crate::stack::NetConfig;
use crate::userbuf;

verus! {

/// A TCP socket: our port, the peer, and its place in the socket table.
pub struct TCP {
    pub target: IPv4,
    pub sport: u16,
    pub dport: u16,
    pub seq: u32,
    pub ack: u32,
    pub socket_index: usize,
}

/// The acknowledgement and sequence numbers of a reply to a segment with the
/// recorded sequence and acknowledgement numbers; both zero where none is
/// recorded.
pub open spec fn reply_numbers(marks: Option<(u32, u32)>) -> (u32, u32) {
    match marks {
        Some(m) => m,
        None => (0, 0),
    }
}

impl TCP {
    /// A socket at the place `index` that the socket table gave it.
    pub fn new(
        target: IPv4,
        sport: u16,
        dport: u16,
        seq: u32,
        ack: u32,
        index: Option<usize>,
    ) -> (r: TCP)
        requires
            index is Some,
        ensures
            r.target == target,
            r.sport == sport,
            r.dport == dport,
            r.seq == seq,
            r.ack == ack,
            Some(r.socket_index) == index,
    {
        TCP { target, sport, dport, seq, ack, socket_index: index.unwrap() }
    }

    pub fn readable(&self) -> (r: bool)
        ensures
            r,
    {
        true
    }

    pub fn writable(&self) -> (r: bool)
        ensures
            r,
    {
        true
    }

    /// Advances a blocking read into `buf`: data from the socket's queue ends
    /// it; without data the device is to be polled and the queue looked at
    /// again.
    pub fn read(&self, popped: Option<Vec<u8>>, buf: &mut Vec<Vec<u8>>) -> (r: Option<usize>)
        ensures
            match popped {
                Some(data) => {
                    let n = parse::min(
                        userbuf::flat(old(buf)@).len() as int,
                        data@.len() as int,
                    );
                    &&& r == Some(n as usize)
                    &&& final(buf)@.len() == old(buf)@.len()
                    &&& forall|i: int|
                        0 <= i < final(buf)@.len() ==> (#[trigger] final(buf)@[i])@.len() == old(
                            buf,
                        )@[i]@.len()
                    &&& userbuf::flat(final(buf)@) == data@.take(n) + userbuf::flat(
                        old(buf)@,
                    ).skip(n)
                },
                None => r is None && *final(buf) == *old(buf),
            },
    {
        match popped {
            Some(data) => Some(userbuf::copy_to_user(buf, &data)),
            None => None,
        }
    }

    /// Tests whether a write can compute its checksum without overflow.
    pub fn can_write(
        &self,
        config: &NetConfig,
        buffers: &Vec<Vec<u8>>,
        marks: Option<(u32, u32)>,
    ) -> (r: bool)
        ensures
            r == frame::tcp_sum_fits(
                config.ip@,
                self.target@,
                self.sport,
                self.dport,
                reply_numbers(marks).1,
                reply_numbers(marks).0,
                flags::ACK,
                userbuf::flat(buffers@),
            ),
    {
        let data = userbuf::gather(buffers);
        let (ack, seq) = match marks {
            Some(m) => m,
            None => (0, 0),
        };
        frame::can_build_tcp(
            &config.ip,
            &self.target,
            self.sport,
            self.dport,
            seq,
            ack,
            TcpFlags::ack(),
            &data,
        )
    }

    /// The frame that a write sends, and what it returns: all bytes of the
    /// buffers as one acknowledging segment. `marks` are the numbers of the
    /// last segment received: its sequence number is acknowledged, and its
    /// acknowledgement number is where our data goes.
    pub fn write(
        &self,
        config: &NetConfig,
        buffers: &Vec<Vec<u8>>,
        marks: Option<(u32, u32)>,
    ) -> (r: (Vec<u8>, usize))
        requires
            frame::tcp_sum_fits(
                config.ip@,
                self.target@,
                self.sport,
                self.dport,
                reply_numbers(marks).1,
                reply_numbers(marks).0,
                flags::ACK,
                userbuf::flat(buffers@),
            ),
        ensures
            r.0@ == frame::tcp_frame(
                config.mac@,
                config.ip@,
                self.sport,
                self.target@,
                self.dport,
                reply_numbers(marks).1,
                reply_numbers(marks).0,
                flags::ACK,
                userbuf::flat(buffers@),
            ),
            r.1 == userbuf::flat(buffers@).len(),
    {
        let data = userbuf::gather(buffers);
        let len = data.len();
        let (ack, seq) = match marks {
            Some(m) => m,
            None => (0, 0),
        };
        let f = frame::build_tcp_data_packet(
            &config.mac,
            &config.ip,
            self.sport,
            &self.target,
            self.dport,
            seq,
            ack,
            TcpFlags::ack(),
            &data,
        );
        (f, len)
    }
}

/// A write answers the last segment that was received: its sequence number is
/// that segment's acknowledgement number, and it acknowledges that segment's
/// sequence number. Before any segment both are zero.
pub proof fn law_write_answers_last_segment(
    marks: Option<(u32, u32)>,
    last_seq: u32,
    last_ack: u32,
    src_mac: Seq<u8>,
    src_ip: Seq<u8>,
    src_port: u16,
    dst_ip: Seq<u8>,
    dst_port: u16,
    payload: Seq<u8>,
)
    requires
        src_mac.len() == 6,
        src_ip.len() == 4,
        dst_ip.len() == 4,
        marks == Some((last_seq, last_ack)) || (marks is None && last_seq == 0 && last_ack == 0),
    ensures
        reply_numbers(marks) == (last_seq, last_ack),
        ({
            let f = frame::tcp_frame(
                src_mac,
                src_ip,
                src_port,
                dst_ip,
                dst_port,
                reply_numbers(marks).1,
                reply_numbers(marks).0,
                flags::ACK,
                payload,
            );
            &&& ((f[38] * 256 + f[39]) * 256 + f[40]) * 256 + f[41] == last_ack
            &&& ((f[42] * 256 + f[43]) * 256 + f[44]) * 256 + f[45] == last_seq
        }),
{
    frame::law_tcp_frame_layout(
        src_mac,
        src_ip,
        src_port,
        dst_ip,
        dst_port,
        reply_numbers(marks).1,
        reply_numbers(marks).0,
        flags::ACK,
        payload,
    );
}

} // verus!
