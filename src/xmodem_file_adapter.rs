use crate::packet::{Packet, PacketModel, PAYLOAD_SIZE, option_view};
use vstd::prelude::*;

verus! {

/// What a packetizer is: its source, how far it has read, the number of the
/// last block it counted, and whether it has handed out the terminal packet.
pub struct AdapterModel {
    pub source: Seq<u8>,
    pub position: nat,
    pub block: u8,
    pub reached_eof: bool,
}

impl AdapterModel {
    pub open spec fn wf(self) -> bool {
        self.position <= self.source.len()
    }

    pub open spec fn with_block(self, block: u8) -> AdapterModel {
        AdapterModel { block, ..self }
    }
}

/// A packetizer that has read nothing of `source` yet.
pub open spec fn fresh(source: Seq<u8>) -> AdapterModel {
    AdapterModel { source, position: 0, block: 0, reached_eof: false }
}

/// The block number after `block`, wrapping from 255 to 0.
pub open spec fn next_block(block: u8) -> u8 {
    ((block + 1) % 256) as u8
}

/// One read: count the next block, take up to `PAYLOAD_SIZE` bytes of the
/// source, and make a data packet of them unless there were none.
pub open spec fn read_step(m: AdapterModel) -> (AdapterModel, Option<PacketModel>) {
    let block = next_block(m.block);
    let rest = m.source.len() - m.position;
    let n = if rest < PAYLOAD_SIZE {
        rest
    } else {
        PAYLOAD_SIZE as int
    };
    if n <= 0 {
        (m.with_block(block), None)
    } else {
        (
            AdapterModel { position: (m.position + n) as nat, ..m.with_block(block) },
            Some(
                PacketModel::Data {
                    block,
                    payload: m.source.subrange(m.position as int, m.position + n),
                },
            ),
        )
    }
}

/// One pull: the next data packet, then once the terminal packet, then nothing.
pub open spec fn pull_step(m: AdapterModel) -> (AdapterModel, Option<PacketModel>) {
    if m.reached_eof {
        (m, None)
    } else {
        let (after, packet) = read_step(m);
        match packet {
            Some(p) => (after, Some(p)),
            None => (AdapterModel { reached_eof: true, ..after }, Some(PacketModel::Terminal)),
        }
    }
}

/// What `k` pulls in a row hand out, starting from `m`.
pub open spec fn pulls(m: AdapterModel, k: nat) -> Seq<Option<PacketModel>>
    decreases k,
{
    if k == 0 {
        Seq::empty()
    } else {
        seq![pull_step(m).1] + pulls(pull_step(m).0, (k - 1) as nat)
    }
}

/// The number of data packets that a source of `len` bytes makes.
pub open spec fn data_count(len: nat) -> nat {
    ((len + PAYLOAD_SIZE - 1) / PAYLOAD_SIZE as int) as nat
}

/// The payload of the `i`-th data packet, counted from zero.
pub open spec fn chunk(source: Seq<u8>, i: nat) -> Seq<u8> {
    let end = PAYLOAD_SIZE * (i + 1);
    source.subrange(
        PAYLOAD_SIZE * i,
        if end < source.len() {
            end
        } else {
            source.len() as int
        },
    )
}

/// Turns a byte source into the packets of a transfer, one at a time.
pub struct XModemFileAdapter {
    source: Vec<u8>,
    position: usize,
    block: u8,
    reached_eof: bool,
}

impl View for XModemFileAdapter {
    type V = AdapterModel;

    closed spec fn view(&self) -> AdapterModel {
        AdapterModel {
            source: self.source@,
            position: self.position as nat,
            block: self.block,
            reached_eof: self.reached_eof,
        }
    }
}

impl XModemFileAdapter {
    /// A packetizer over `source` that has handed out nothing yet.
    pub fn new(source: Vec<u8>) -> (r: XModemFileAdapter)
        ensures
            r@ == fresh(source@),
            r@.wf(),
    {
        XModemFileAdapter { source, position: 0, block: 0, reached_eof: false }
    }

    /// Counts the next block and reads up to `PAYLOAD_SIZE` bytes of the source:
    /// a data packet of the bytes read, or `None` where the source is used up.
    pub fn get_next_packet(&mut self) -> (r: Option<Packet>)
        requires
            old(self)@.wf(),
        ensures
            final(self)@.wf(),
            (final(self)@, option_view(r)) == read_step(old(self)@),
    {
        self.block = self.block.wrapping_add(1);
        let rest = self.source.len() - self.position;
        let n = if rest < PAYLOAD_SIZE {
            rest
        } else {
            PAYLOAD_SIZE
        };
        if n == 0 {
            return None;
        }
        let start = self.position;
        self.position = start + n;
        let payload = vstd::slice::slice_subrange(self.source.as_slice(), start, start + n);
        Some(Packet::new(self.block, payload))
    }

    /// The next packet of the transfer: data packets while the source lasts,
    /// then the terminal packet once, then `None` for good.
    pub fn next(&mut self) -> (r: Option<Packet>)
        requires
            old(self)@.wf(),
        ensures
            final(self)@.wf(),
            (final(self)@, option_view(r)) == pull_step(old(self)@),
    {
        if self.reached_eof {
            return None;
        }
        match self.get_next_packet() {
            Some(p) => Some(p),
            None => {
                self.reached_eof = true;
                Some(Packet::terminal())
            },
        }
    }
}

/// Once the terminal packet is out, no pull hands out anything.
pub proof fn lemma_pulls_after_end(m: AdapterModel, k: nat)
    requires
        m.reached_eof,
    ensures
        pulls(m, k).len() == k,
        forall|i: int| 0 <= i < k ==> pulls(m, k)[i] == None::<PacketModel>,
    decreases k,
{
    if k > 0 {
        lemma_pulls_after_end(m, (k - 1) as nat);
    }
}

proof fn lemma_pulls_from(m: AdapterModel, k: nat, extra: nat)
    requires
        m.wf(),
        !m.reached_eof,
        k <= data_count(m.source.len()),
        m.position == if PAYLOAD_SIZE * k < m.source.len() {
            PAYLOAD_SIZE * k
        } else {
            m.source.len() as int
        },
        m.block == (k % 256) as u8,
    ensures
        ({
            let r = (data_count(m.source.len()) - k) as nat;
            let out = pulls(m, r + 1 + extra);
            &&& out.len() == r + 1 + extra
            &&& forall|i: int|
                0 <= i < r ==> out[i] == Some(
                    PacketModel::Data {
                        block: ((k + i + 1) % 256) as u8,
                        payload: chunk(m.source, (k + i) as nat),
                    },
                )
            &&& out[r as int] == Some(PacketModel::Terminal)
            &&& forall|j: int| r < j < r + 1 + extra ==> out[j] == None::<PacketModel>
        }),
    decreases data_count(m.source.len()) - k,
{
    let len = m.source.len();
    let r = (data_count(len) - k) as nat;
    let (after, packet) = pull_step(m);
    if m.position == len {
        assert(r == 0) by {
            assert(PAYLOAD_SIZE * k >= len);
        }
        assert(after.reached_eof);
        lemma_pulls_after_end(after, extra);
        assert(pulls(m, 1 + extra) == seq![packet] + pulls(after, extra));
    } else {
        assert(PAYLOAD_SIZE * k < len);
        assert(r > 0);
        lemma_pulls_from(after, k + 1, extra);
        let rest = pulls(after, (r - 1 + 1 + extra) as nat);
        let out = pulls(m, r + 1 + extra);
        assert(out == seq![packet] + rest);
        assert(packet == Some(
            PacketModel::Data { block: ((k + 1) % 256) as u8, payload: chunk(m.source, k) },
        ));
        assert forall|i: int| 0 <= i < r implies #[trigger] out[i] == Some(
            PacketModel::Data {
                block: ((k + i + 1) % 256) as u8,
                payload: chunk(m.source, (k + i) as nat),
            },
        ) by {
            if i > 0 {
                assert(out[i] == rest[i - 1]);
                assert((k + 1 + (i - 1)) as nat == (k + i) as nat);
            }
        }
    }
}

/// A source of `L` bytes makes `ceil(L / PAYLOAD_SIZE)` data packets, numbered
/// from 1 and counting up by one modulo 256, whose payloads are the source cut
/// into pieces of `PAYLOAD_SIZE` bytes; then exactly one terminal packet; after
/// it, any number of further pulls hand out nothing.
pub proof fn lemma_packet_sequence(source: Seq<u8>, extra: nat)
    ensures
        ({
            let n = data_count(source.len());
            let out = pulls(fresh(source), n + 1 + extra);
            &&& out.len() == n + 1 + extra
            &&& forall|i: int|
                0 <= i < n ==> out[i] == Some(
                    PacketModel::Data {
                        block: ((i + 1) % 256) as u8,
                        payload: chunk(source, i as nat),
                    },
                )
            &&& forall|i: int|
                0 <= i < n ==> 1 <= #[trigger] chunk(source, i as nat).len() <= PAYLOAD_SIZE
            &&& out[n as int] == Some(PacketModel::Terminal)
            &&& forall|j: int| n < j < n + 1 + extra ==> out[j] == None::<PacketModel>
        }),
{
    lemma_pulls_from(fresh(source), 0, extra);
    let n = data_count(source.len());
    assert forall|i: int| 0 <= i < n implies 1 <= #[trigger] chunk(source, i as nat).len()
        <= PAYLOAD_SIZE by {
        assert(PAYLOAD_SIZE * i < source.len());
    }
}

} // verus!
