use vstd::arithmetic::div_mod::lemma_add_mod_noop;
use vstd::prelude::*;

verus! {

/// Largest number of payload bytes that one data packet carries.
pub const PAYLOAD_SIZE: usize = 128;

/// Start-of-header marker that opens a data packet.
pub const START_OF_HEADER: u8 = 0x01;

/// End-of-transmission marker: the whole on-wire form of a terminal packet.
pub const END_OF_TRANSMISSION: u8 = 0x04;

/// Sum of the bytes of `s`, as an unbounded natural number.
pub open spec fn byte_sum(s: Seq<u8>) -> nat
    decreases s.len(),
{
    if s.len() == 0 {
        0
    } else {
        byte_sum(s.drop_last()) + s.last() as nat
    }
}

/// The check byte of a payload: the sum of its bytes modulo 256.
pub open spec fn checksum_of(s: Seq<u8>) -> u8 {
    (byte_sum(s) % 256) as u8
}

/// What a packet is, without its representation.
pub enum PacketModel {
    Data { block: u8, payload: Seq<u8> },
    Terminal,
}

/// A payload that a data packet may carry: one to `PAYLOAD_SIZE` bytes.
pub open spec fn valid_payload(payload: Seq<u8>) -> bool {
    1 <= payload.len() <= PAYLOAD_SIZE
}

/// The on-wire bytes of a packet.
pub open spec fn wire(p: PacketModel) -> Seq<u8> {
    match p {
        PacketModel::Data { block, payload } => seq![START_OF_HEADER, block, (255 - block) as u8]
            + payload + seq![checksum_of(payload)],
        PacketModel::Terminal => seq![END_OF_TRANSMISSION],
    }
}

/// The packet that a byte string frames, if it frames one.
pub open spec fn unwire(s: Seq<u8>) -> Option<PacketModel> {
    if s =~= seq![END_OF_TRANSMISSION] {
        Some(PacketModel::Terminal)
    } else if 5 <= s.len() <= PAYLOAD_SIZE + 4 && s[0] == START_OF_HEADER && s[2] == (255
        - s[1]) as u8 && s.last() == checksum_of(s.subrange(3, s.len() - 1)) {
        Some(PacketModel::Data { block: s[1], payload: s.subrange(3, s.len() - 1) })
    } else {
        None
    }
}

/// One protocol frame: a numbered block of data, or the end of the transfer.
pub enum Packet {
    Data { block: u8, payload: Vec<u8> },
    Terminal,
}

impl View for Packet {
    type V = PacketModel;

    open spec fn view(&self) -> PacketModel {
        match self {
            Packet::Data { block, payload } => PacketModel::Data { block: *block, payload: payload@ },
            Packet::Terminal => PacketModel::Terminal,
        }
    }
}

/// The view of an optional packet.
pub open spec fn option_view(p: Option<Packet>) -> Option<PacketModel> {
    match p {
        Some(q) => Some(q@),
        None => None,
    }
}

/// Sum of the bytes of `payload`, truncated to one byte.
pub fn checksum(payload: &[u8]) -> (r: u8)
    ensures
        r == checksum_of(payload@),
{
    let mut sum: u8 = 0;
    let mut i: usize = 0;
    while i < payload.len()
        invariant
            i <= payload@.len(),
            sum == checksum_of(payload@.subrange(0, i as int)),
        decreases payload@.len() - i,
    {
        let ghost prefix = payload@.subrange(0, i as int);
        let ghost next = payload@.subrange(0, i + 1);
        assert(next.drop_last() =~= prefix);
        proof {
            lemma_add_mod_noop(byte_sum(prefix) as int, payload@[i as int] as int, 256);
        }
        sum = sum.wrapping_add(payload[i]);
        i = i + 1;
    }
    assert(payload@.subrange(0, i as int) =~= payload@);
    sum
}

impl Packet {
    /// A data packet numbered `block` that carries a copy of `payload`.
    pub fn new(block: u8, payload: &[u8]) -> (r: Packet)
        requires
            valid_payload(payload@),
        ensures
            r@ == (PacketModel::Data { block, payload: payload@ }),
    {
        let mut bytes: Vec<u8> = Vec::with_capacity(payload.len());
        let mut i: usize = 0;
        while i < payload.len()
            invariant
                i <= payload@.len(),
                bytes@ =~= payload@.subrange(0, i as int),
            decreases payload@.len() - i,
        {
            bytes.push(payload[i]);
            i = i + 1;
        }
        assert(bytes@ =~= payload@);
        Packet::Data { block, payload: bytes }
    }

    /// The packet that ends a transfer.
    pub fn terminal() -> (r: Packet)
        ensures
            r@ == PacketModel::Terminal,
    {
        Packet::Terminal
    }

    /// Whether this is the terminal packet.
    pub fn is_terminal(&self) -> (r: bool)
        ensures
            r == (self@ == PacketModel::Terminal),
    {
        match self {
            Packet::Terminal => true,
            Packet::Data { .. } => false,
        }
    }

    /// The on-wire bytes of this packet.
    pub fn data(&self) -> (r: Vec<u8>)
        ensures
            r@ == wire(self@),
    {
        match self {
            Packet::Terminal => {
                let r = vec![END_OF_TRANSMISSION];
                assert(r@ =~= wire(self@));
                r
            },
            Packet::Data { block, payload } => {
                let mut r: Vec<u8> = Vec::new();
                r.push(START_OF_HEADER);
                r.push(*block);
                r.push(255 - *block);
                let mut i: usize = 0;
                while i < payload.len()
                    invariant
                        i <= payload@.len(),
                        r@ =~= seq![START_OF_HEADER, *block, (255 - *block) as u8]
                            + payload@.subrange(0, i as int),
                    decreases payload@.len() - i,
                {
                    r.push(payload[i]);
                    i = i + 1;
                }
                assert(payload@.subrange(0, i as int) =~= payload@);
                r.push(checksum(payload.as_slice()));
                assert(r@ =~= wire(self@));
                r
            },
        }
    }

    /// The packet that `bytes` frames, or `None` where they frame none.
    pub fn deserialize(bytes: &[u8]) -> (r: Option<Packet>)
        ensures
            option_view(r) == unwire(bytes@),
    {
        let n = bytes.len();
        if n == 1 && bytes[0] == END_OF_TRANSMISSION {
            assert(bytes@ =~= seq![END_OF_TRANSMISSION]);
            return Some(Packet::Terminal);
        }
        assert(!(bytes@ =~= seq![END_OF_TRANSMISSION]));
        if n < 5 || n > PAYLOAD_SIZE + 4 || bytes[0] != START_OF_HEADER || bytes[2] != 255
            - bytes[1] {
            return None;
        }
        let payload = vstd::slice::slice_subrange(bytes, 3, n - 1);
        if checksum(payload) == bytes[n - 1] {
            Some(Packet::new(bytes[1], payload))
        } else {
            None
        }
    }
}

/// Framing a data packet and reading the frame back gives the same packet,
/// and the frame's last byte is the payload's sum modulo 256.
pub proof fn lemma_round_trip(block: u8, payload: Seq<u8>)
    requires
        valid_payload(payload),
    ensures
        unwire(wire(PacketModel::Data { block, payload })) == Some(
            PacketModel::Data { block, payload },
        ),
        wire(PacketModel::Data { block, payload }).last() as nat == byte_sum(payload) % 256,
{
    let s = wire(PacketModel::Data { block, payload });
    assert(s.subrange(3, s.len() - 1) =~= payload);
    assert(s.len() != 1);
}

} // verus!
