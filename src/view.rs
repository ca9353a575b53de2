use vstd::prelude::*;

use crate::comm::{be16, from_be16, MacAddr};
use crate::options::{option_of, OptionAndSub};

verus! {

/// A view of one block's bytes: option, suboption, a two-byte length, a
/// two-byte status, then the data.
#[derive(Debug)]
pub struct BlockPacket {
    packet: Vec<u8>,
}

impl View for BlockPacket {
    type V = Seq<u8>;

    closed spec fn view(&self) -> Seq<u8> {
        self.packet@
    }
}

/// The length field of a block's bytes.
pub open spec fn block_len_of(s: Seq<u8>) -> nat {
    from_be16(s[2], s[3])
}

impl BlockPacket {
    /// The fewest bytes a block view holds.
    pub fn minimum_packet_size() -> (r: usize)
        ensures
            r == 6,
    {
        6
    }

    /// A view of a copy of `packet`; `None` if it is shorter than the minimum.
    pub fn new(packet: &[u8]) -> (r: Option<BlockPacket>)
        ensures
            packet@.len() >= 6 <==> r is Some,
            r matches Some(p) ==> p@ == packet@,
    {
        if packet.len() >= BlockPacket::minimum_packet_size() {
            Some(BlockPacket { packet: vstd::slice::slice_to_vec(packet) })
        } else {
            None
        }
    }

    /// A view that owns `packet`; `None` if it is shorter than the minimum.
    pub fn owned(packet: Vec<u8>) -> (r: Option<BlockPacket>)
        ensures
            packet@.len() >= 6 <==> r is Some,
            r matches Some(p) ==> p@ == packet@,
    {
        if packet.len() >= BlockPacket::minimum_packet_size() {
            Some(BlockPacket { packet })
        } else {
            None
        }
    }

    pub fn to_immutable(&self) -> (r: BlockPacket)
        ensures
            r@ == self@,
    {
        BlockPacket { packet: vstd::slice::slice_to_vec(self.packet.as_slice()) }
    }

    pub fn consume_to_immutable(self) -> (r: BlockPacket)
        ensures
            r@ == self@,
    {
        self
    }

    pub fn packet(&self) -> (r: &[u8])
        ensures
            r@ == self@,
    {
        self.packet.as_slice()
    }

    pub fn get_option(&self) -> (r: u8)
        requires
            self@.len() >= 6,
        ensures
            r == self@[0],
    {
        self.packet[0]
    }

    pub fn get_sub_option(&self) -> (r: u8)
        requires
            self@.len() >= 6,
        ensures
            r == self@[1],
    {
        self.packet[1]
    }

    pub fn get_len(&self) -> (r: u16)
        requires
            self@.len() >= 6,
        ensures
            r == block_len_of(self@),
    {
        crate::comm::to_u16(self.packet[2], self.packet[3])
    }

    pub fn get_status(&self) -> (r: u16)
        requires
            self@.len() >= 6,
        ensures
            r == from_be16(self@[4], self@[5]),
    {
        crate::comm::to_u16(self.packet[4], self.packet[5])
    }

    /// The block's length in bytes: the fixed fields and what the length covers.
    pub fn packet_size(&self) -> (r: usize)
        requires
            self@.len() >= 6,
        ensures
            r == 4 + block_len_of(self@),
    {
        4 + self.get_len() as usize
    }
}

/// A block view whose fields can be written.
#[derive(Debug)]
pub struct MutableBlockPacket {
    packet: Vec<u8>,
}

impl View for MutableBlockPacket {
    type V = Seq<u8>;

    closed spec fn view(&self) -> Seq<u8> {
        self.packet@
    }
}

impl MutableBlockPacket {
    pub fn minimum_packet_size() -> (r: usize)
        ensures
            r == 6,
    {
        6
    }

    pub fn new(packet: &[u8]) -> (r: Option<MutableBlockPacket>)
        ensures
            packet@.len() >= 6 <==> r is Some,
            r matches Some(p) ==> p@ == packet@,
    {
        if packet.len() >= MutableBlockPacket::minimum_packet_size() {
            Some(MutableBlockPacket { packet: vstd::slice::slice_to_vec(packet) })
        } else {
            None
        }
    }

    pub fn owned(packet: Vec<u8>) -> (r: Option<MutableBlockPacket>)
        ensures
            packet@.len() >= 6 <==> r is Some,
            r matches Some(p) ==> p@ == packet@,
    {
        if packet.len() >= MutableBlockPacket::minimum_packet_size() {
            Some(MutableBlockPacket { packet })
        } else {
            None
        }
    }

    pub fn to_immutable(&self) -> (r: BlockPacket)
        ensures
            r@ == self@,
    {
        BlockPacket { packet: vstd::slice::slice_to_vec(self.packet.as_slice()) }
    }

    pub fn consume_to_immutable(self) -> (r: BlockPacket)
        ensures
            r@ == self@,
    {
        BlockPacket { packet: self.packet }
    }

    pub fn packet(&self) -> (r: &[u8])
        ensures
            r@ == self@,
    {
        self.packet.as_slice()
    }

    pub fn get_option(&self) -> (r: u8)
        requires
            self@.len() >= 6,
        ensures
            r == self@[0],
    {
        self.packet[0]
    }

    pub fn get_sub_option(&self) -> (r: u8)
        requires
            self@.len() >= 6,
        ensures
            r == self@[1],
    {
        self.packet[1]
    }

    pub fn get_len(&self) -> (r: u16)
        requires
            self@.len() >= 6,
        ensures
            r == block_len_of(self@),
    {
        crate::comm::to_u16(self.packet[2], self.packet[3])
    }

    pub fn get_status(&self) -> (r: u16)
        requires
            self@.len() >= 6,
        ensures
            r == from_be16(self@[4], self@[5]),
    {
        crate::comm::to_u16(self.packet[4], self.packet[5])
    }

    pub fn set_option(&mut self, val: u8)
        requires
            old(self)@.len() >= 6,
        ensures
            final(self)@ == old(self)@.update(0, val),
    {
        self.packet.set(0, val);
    }

    pub fn set_sub_option(&mut self, val: u8)
        requires
            old(self)@.len() >= 6,
        ensures
            final(self)@ == old(self)@.update(1, val),
    {
        self.packet.set(1, val);
    }

    pub fn set_len(&mut self, val: u16)
        requires
            old(self)@.len() >= 6,
        ensures
            final(self)@ == old(self)@.update(2, be16(val as nat)[0]).update(3, be16(val as nat)[1]),
    {
        let b = crate::comm::u16_to_u8s(val);
        self.packet.set(2, b[0]);
        self.packet.set(3, b[1]);
    }

    pub fn set_status(&mut self, val: u16)
        requires
            old(self)@.len() >= 6,
        ensures
            final(self)@ == old(self)@.update(4, be16(val as nat)[0]).update(5, be16(val as nat)[1]),
    {
        let b = crate::comm::u16_to_u8s(val);
        self.packet.set(4, b[0]);
        self.packet.set(5, b[1]);
    }

    /// Copies `vals` into the data field, from its start.
    pub fn set_data(&mut self, vals: &[u8])
        requires
            old(self)@.len() >= 6,
            vals@.len() + 2 <= block_len_of(old(self)@),
            6 + vals@.len() <= old(self)@.len(),
        ensures
            final(self)@ == old(self)@.subrange(0, 6) + vals@ + old(self)@.subrange(
                6 + vals@.len() as int,
                old(self)@.len() as int,
            ),
    {
        let total = self.packet.len();
        let mut i: usize = 0;
        while i < vals.len()
            invariant
                self@.len() == old(self)@.len(),
                total == self@.len(),
                6 + vals@.len() <= self@.len(),
                i <= vals@.len(),
                self@ == old(self)@.subrange(0, 6) + vals@.subrange(0, i as int) + old(
                    self,
                )@.subrange(6 + i, old(self)@.len() as int),
            decreases vals@.len() - i,
        {
            self.packet.set(6 + i, vals[i]);
            i += 1;
            assert(self@ =~= old(self)@.subrange(0, 6) + vals@.subrange(0, i as int) + old(
                self,
            )@.subrange(6 + i, old(self)@.len() as int));
        }
        assert(vals@.subrange(0, i as int) =~= vals@);
    }
}

/// The address at `at` in `s`.
pub open spec fn mac_in(s: Seq<u8>, at: int) -> MacAddr {
    MacAddr(s[at], s[at + 1], s[at + 2], s[at + 3], s[at + 4], s[at + 5])
}

/// A view of an Ethernet frame: destination, source, ethertype, payload.
#[derive(Debug)]
pub struct EthernetPacket {
    packet: Vec<u8>,
}

impl View for EthernetPacket {
    type V = Seq<u8>;

    closed spec fn view(&self) -> Seq<u8> {
        self.packet@
    }
}

impl EthernetPacket {
    pub fn minimum_packet_size() -> (r: usize)
        ensures
            r == 14,
    {
        14
    }

    pub fn new(packet: &[u8]) -> (r: Option<EthernetPacket>)
        ensures
            packet@.len() >= 14 <==> r is Some,
            r matches Some(p) ==> p@ == packet@,
    {
        if packet.len() >= EthernetPacket::minimum_packet_size() {
            Some(EthernetPacket { packet: vstd::slice::slice_to_vec(packet) })
        } else {
            None
        }
    }

    pub fn owned(packet: Vec<u8>) -> (r: Option<EthernetPacket>)
        ensures
            packet@.len() >= 14 <==> r is Some,
            r matches Some(p) ==> p@ == packet@,
    {
        if packet.len() >= EthernetPacket::minimum_packet_size() {
            Some(EthernetPacket { packet })
        } else {
            None
        }
    }

    pub fn to_immutable(&self) -> (r: EthernetPacket)
        ensures
            r@ == self@,
    {
        EthernetPacket { packet: vstd::slice::slice_to_vec(self.packet.as_slice()) }
    }

    pub fn consume_to_immutable(self) -> (r: EthernetPacket)
        ensures
            r@ == self@,
    {
        self
    }

    /// The frame's length in bytes.
    pub fn packet_size(&self) -> (r: usize)
        ensures
            r == self@.len(),
    {
        self.packet.len()
    }

    pub fn get_destination(&self) -> (r: MacAddr)
        requires
            self@.len() >= 14,
        ensures
            r == mac_in(self@, 0),
    {
        let p = &self.packet;
        MacAddr::new(p[0], p[1], p[2], p[3], p[4], p[5])
    }

    pub fn get_source(&self) -> (r: MacAddr)
        requires
            self@.len() >= 14,
        ensures
            r == mac_in(self@, 6),
    {
        let p = &self.packet;
        MacAddr::new(p[6], p[7], p[8], p[9], p[10], p[11])
    }

    pub fn get_ethertype(&self) -> (r: u16)
        requires
            self@.len() >= 14,
        ensures
            r == from_be16(self@[12], self@[13]),
    {
        crate::comm::to_u16(self.packet[12], self.packet[13])
    }
}

/// An Ethernet frame view whose fields can be written.
#[derive(Debug)]
pub struct MutableEthernetPacket {
    packet: Vec<u8>,
}

impl View for MutableEthernetPacket {
    type V = Seq<u8>;

    closed spec fn view(&self) -> Seq<u8> {
        self.packet@
    }
}

impl MutableEthernetPacket {
    pub fn minimum_packet_size() -> (r: usize)
        ensures
            r == 14,
    {
        14
    }

    pub fn new(packet: &[u8]) -> (r: Option<MutableEthernetPacket>)
        ensures
            packet@.len() >= 14 <==> r is Some,
            r matches Some(p) ==> p@ == packet@,
    {
        if packet.len() >= MutableEthernetPacket::minimum_packet_size() {
            Some(MutableEthernetPacket { packet: vstd::slice::slice_to_vec(packet) })
        } else {
            None
        }
    }

    pub fn owned(packet: Vec<u8>) -> (r: Option<MutableEthernetPacket>)
        ensures
            packet@.len() >= 14 <==> r is Some,
            r matches Some(p) ==> p@ == packet@,
    {
        if packet.len() >= MutableEthernetPacket::minimum_packet_size() {
            Some(MutableEthernetPacket { packet })
        } else {
            None
        }
    }

    pub fn to_immutable(&self) -> (r: EthernetPacket)
        ensures
            r@ == self@,
    {
        EthernetPacket { packet: vstd::slice::slice_to_vec(self.packet.as_slice()) }
    }

    pub fn consume_to_immutable(self) -> (r: EthernetPacket)
        ensures
            r@ == self@,
    {
        EthernetPacket { packet: self.packet }
    }

    pub fn packet_size(&self) -> (r: usize)
        ensures
            r == self@.len(),
    {
        self.packet.len()
    }

    pub fn packet(&self) -> (r: &[u8])
        ensures
            r@ == self@,
    {
        self.packet.as_slice()
    }

    pub fn get_destination(&self) -> (r: MacAddr)
        requires
            self@.len() >= 14,
        ensures
            r == mac_in(self@, 0),
    {
        let p = &self.packet;
        MacAddr::new(p[0], p[1], p[2], p[3], p[4], p[5])
    }

    pub fn get_source(&self) -> (r: MacAddr)
        requires
            self@.len() >= 14,
        ensures
            r == mac_in(self@, 6),
    {
        let p = &self.packet;
        MacAddr::new(p[6], p[7], p[8], p[9], p[10], p[11])
    }

    pub fn get_ethertype(&self) -> (r: u16)
        requires
            self@.len() >= 14,
        ensures
            r == from_be16(self@[12], self@[13]),
    {
        crate::comm::to_u16(self.packet[12], self.packet[13])
    }

    /// Writes `val`'s six octets from byte `at` on.
    fn set_mac(&mut self, at: usize, val: MacAddr)
        requires
            old(self)@.len() >= 14,
            at == 0 || at == 6,
        ensures
            final(self)@.len() == old(self)@.len(),
            mac_in(final(self)@, at as int) == val,
            forall|i: int|
                0 <= i < old(self)@.len() && !(at <= i < at + 6) ==> final(self)@[i] == old(
                    self,
                )@[i],
    {
        self.packet.set(at, val.0);
        self.packet.set(at + 1, val.1);
        self.packet.set(at + 2, val.2);
        self.packet.set(at + 3, val.3);
        self.packet.set(at + 4, val.4);
        self.packet.set(at + 5, val.5);
    }

    pub fn set_destination(&mut self, val: MacAddr)
        requires
            old(self)@.len() >= 14,
        ensures
            final(self)@.len() == old(self)@.len(),
            mac_in(final(self)@, 0) == val,
            final(self)@.skip(6) == old(self)@.skip(6),
    {
        self.set_mac(0, val);
        assert(self@.skip(6) =~= old(self)@.skip(6));
    }

    pub fn set_source(&mut self, val: MacAddr)
        requires
            old(self)@.len() >= 14,
        ensures
            final(self)@.len() == old(self)@.len(),
            mac_in(final(self)@, 6) == val,
            final(self)@.take(6) == old(self)@.take(6),
            final(self)@.skip(12) == old(self)@.skip(12),
    {
        self.set_mac(6, val);
        assert(self@.take(6) =~= old(self)@.take(6));
        assert(self@.skip(12) =~= old(self)@.skip(12));
    }

    pub fn set_ethertype(&mut self, val: u16)
        requires
            old(self)@.len() >= 14,
        ensures
            final(self)@ == old(self)@.update(12, be16(val as nat)[0]).update(13, be16(val as nat)[1]),
    {
        let b = crate::comm::u16_to_u8s(val);
        self.packet.set(12, b[0]);
        self.packet.set(13, b[1]);
    }

    /// Copies `vals` into the payload, from its start.
    pub fn set_payload(&mut self, vals: &[u8])
        requires
            old(self)@.len() >= 14,
            14 + vals@.len() <= old(self)@.len(),
        ensures
            final(self)@ == old(self)@.subrange(0, 14) + vals@ + old(self)@.subrange(
                14 + vals@.len() as int,
                old(self)@.len() as int,
            ),
    {
        let total = self.packet.len();
        let mut i: usize = 0;
        while i < vals.len()
            invariant
                self@.len() == old(self)@.len(),
                total == self@.len(),
                14 + vals@.len() <= self@.len(),
                i <= vals@.len(),
                self@ == old(self)@.subrange(0, 14) + vals@.subrange(0, i as int) + old(
                    self,
                )@.subrange(14 + i, old(self)@.len() as int),
            decreases vals@.len() - i,
        {
            self.packet.set(14 + i, vals[i]);
            i += 1;
            assert(self@ =~= old(self)@.subrange(0, 14) + vals@.subrange(0, i as int) + old(
                self,
            )@.subrange(14 + i, old(self)@.len() as int));
        }
        assert(vals@.subrange(0, i as int) =~= vals@);
    }
}

} // verus!
verus! {

/// One entry of a scanned block list: a block's bytes or a padding byte.
pub enum ScanItem {
    Padding,
    Block(Seq<u8>),
}

/// An entry of a scanned block list.
#[derive(Debug)]
pub enum BlockComm {
    Padding,
    Block(BlockPacket),
}

impl View for BlockComm {
    type V = ScanItem;

    open spec fn view(&self) -> ScanItem {
        match self {
            BlockComm::Padding => ScanItem::Padding,
            BlockComm::Block(b) => ScanItem::Block(b@),
        }
    }
}

impl BlockComm {
    pub fn is_block(&self) -> (r: bool)
        ensures
            r == (self is Block),
    {
        match self {
            BlockComm::Block(_) => true,
            _ => false,
        }
    }

    pub fn is_padding(&self) -> (r: bool)
        ensures
            r == (self is Padding),
    {
        match self {
            BlockComm::Padding => true,
            _ => false,
        }
    }
}

/// The blocks that a loose scan finds at the start of `s`: each block is its
/// fixed fields and what its length covers, and an odd-length block is
/// followed by a padding byte. The scan stops before a block whose length
/// field is below two or runs past the end.
pub open spec fn scan(s: Seq<u8>) -> Seq<ScanItem>
    decreases s.len(),
{
    if s.len() < 6 {
        seq![]
    } else {
        let len = from_be16(s[2], s[3]);
        let n = 4 + len;
        if len < 2 || n > s.len() {
            seq![]
        } else if n % 2 == 1 && n < s.len() {
            seq![ScanItem::Block(s.take(n as int)), ScanItem::Padding] + scan(s.skip(n + 1 as int))
        } else if n % 2 == 1 {
            seq![ScanItem::Block(s.take(n as int))]
        } else {
            seq![ScanItem::Block(s.take(n as int))] + scan(s.skip(n as int))
        }
    }
}

/// The entries of a block list found by a loose scan.
#[derive(Debug)]
pub struct Blocks(Vec<BlockComm>);

impl View for Blocks {
    type V = Seq<ScanItem>;

    closed spec fn view(&self) -> Seq<ScanItem> {
        self.0@.map_values(|b: BlockComm| b@)
    }
}

impl Blocks {
    /// Appends `block` and, when its length is odd, a padding entry.
    pub fn append_block(&mut self, block: BlockPacket)
        requires
            block@.len() >= 6,
        ensures
            final(self)@ == old(self)@ + if (4 + block_len_of(block@)) % 2 == 1 {
                seq![ScanItem::Block(block@), ScanItem::Padding]
            } else {
                seq![ScanItem::Block(block@)]
            },
    {
        let packet_size = block.packet_size();
        let ghost b = block@;
        self.0.push(BlockComm::Block(block));
        if packet_size % 2 == 1 {
            self.0.push(BlockComm::Padding);
            assert(self@ =~= old(self)@ + seq![ScanItem::Block(b), ScanItem::Padding]);
        } else {
            assert(self@ =~= old(self)@ + seq![ScanItem::Block(b)]);
        }
    }

    /// Scans `data` for blocks.
    pub fn new(data: &[u8]) -> (r: Blocks)
        ensures
            r@ == scan(data@),
            scan_ok(data@, r@),
    {
        let r = Blocks::scan_entries(data);
        proof {
            lemma_scan_padding(data@);
        }
        r
    }

    fn scan_entries(data: &[u8]) -> (r: Blocks)
        ensures
            r@ == scan(data@),
    {
        let mut blocks: Vec<BlockComm> = Vec::new();
        let mut index: usize = 0;
        let total = data.len();
        let ghost g = |b: BlockComm| b@;
        assert(data@.skip(0) =~= data@);
        assert(blocks@.map_values(g) + scan(data@.skip(0)) =~= scan(data@));
        while index < total
            invariant
                total == data@.len(),
                index <= total,
                g == (|b: BlockComm| b@),
                scan(data@) == blocks@.map_values(g) + scan(data@.skip(index as int)),
            decreases total - index,
        {
            let ghost s = data@.skip(index as int);
            let ghost before = blocks@.map_values(g);
            if total - index < 6 {
                assert(scan(s) =~= Seq::<ScanItem>::empty());
                assert(scan(data@) =~= blocks@.map_values(g));
                return Blocks(blocks);
            }
            let len = crate::comm::to_u16(data[index + 2], data[index + 3]) as usize;
            assert(s[2] == data@[index + 2] && s[3] == data@[index + 3]);
            let n = 4 + len;
            if len < 2 || n > total - index {
                assert(scan(s) =~= Seq::<ScanItem>::empty());
                assert(scan(data@) =~= blocks@.map_values(g));
                return Blocks(blocks);
            }
            let block = BlockPacket { packet: vstd::slice::slice_to_vec(vstd::slice::slice_subrange(data, index, index + n)) };
            assert(block@ =~= s.take(n as int));
            blocks.push(BlockComm::Block(block));
            if n % 2 == 1 && n < total - index {
                blocks.push(BlockComm::Padding);
                assert(s.skip(n + 1) =~= data@.skip(index + n + 1));
                assert(blocks@.map_values(g) =~= before + seq![
                    ScanItem::Block(s.take(n as int)),
                    ScanItem::Padding,
                ]);
                index = index + n + 1;
            } else if n % 2 == 1 {
                assert(blocks@.map_values(g) =~= before + seq![ScanItem::Block(s.take(n as int))]);
                assert(scan(data@) =~= blocks@.map_values(g));
                return Blocks(blocks);
            } else {
                assert(s.skip(n as int) =~= data@.skip(index + n));
                assert(blocks@.map_values(g) =~= before + seq![ScanItem::Block(s.take(n as int))]);
                index = index + n;
            }
        }
        assert(data@.skip(index as int) =~= Seq::<u8>::empty());
        assert(scan(data@) =~= blocks@.map_values(g));
        Blocks(blocks)
    }

    pub fn len(&self) -> (r: usize)
        ensures
            r == self@.len(),
    {
        self.0.len()
    }

    pub fn get(&self, i: usize) -> (r: Option<&BlockComm>)
        ensures
            i < self@.len() ==> (r matches Some(b) && b@ == self@[i as int]),
            i >= self@.len() ==> r is None,
    {
        if i < self.0.len() {
            Some(&self.0[i])
        } else {
            None
        }
    }
}

/// The option codes of a get request's bare references.
#[derive(Debug)]
pub struct OptionSuboptions(Vec<OptionAndSub>);

impl View for OptionSuboptions {
    type V = Seq<OptionAndSub>;

    closed spec fn view(&self) -> Seq<OptionAndSub> {
        self.0@
    }
}

impl OptionSuboptions {
    /// The codes of the byte pairs of `data`; a last odd byte is left out.
    pub fn new(data: &[u8]) -> (r: OptionSuboptions)
        ensures
            r@ == crate::options::codes_of(data@),
    {
        let mut options: Vec<OptionAndSub> = Vec::new();
        let mut index: usize = 0;
        while index + 1 < data.len()
            invariant
                index % 2 == 0,
                index <= data@.len(),
                options@.len() == index / 2,
                forall|j: int|
                    0 <= j < options@.len() ==> #[trigger] options@[j] == option_of(
                        data@[2 * j],
                        data@[2 * j + 1],
                    ),
            decreases data@.len() - index,
        {
            options.push(OptionAndSub::new(data[index], data[index + 1]));
            index += 2;
        }
        assert(options@ =~= crate::options::codes_of(data@));
        OptionSuboptions(options)
    }

    pub fn len(&self) -> (r: usize)
        ensures
            r == self@.len(),
    {
        self.0.len()
    }

    pub fn get(&self, i: usize) -> (r: Option<&OptionAndSub>)
        ensures
            i < self@.len() ==> r == Some(&self@[i as int]),
            i >= self@.len() ==> r is None,
    {
        if i < self.0.len() {
            Some(&self.0[i])
        } else {
            None
        }
    }
}

} // verus!
verus! {

/// The number of bytes an entry of a scan covers.
pub open spec fn item_len(it: ScanItem) -> nat {
    match it {
        ScanItem::Padding => 1,
        ScanItem::Block(b) => b.len(),
    }
}

/// The number of bytes the entries cover, in order.
pub open spec fn items_len(l: Seq<ScanItem>) -> nat
    decreases l.len(),
{
    if l.len() == 0 {
        0
    } else {
        item_len(l[0]) + items_len(l.skip(1))
    }
}

proof fn lemma_items_len_concat(p: Seq<ScanItem>, q: Seq<ScanItem>)
    ensures
        items_len(p + q) == items_len(p) + items_len(q),
    decreases p.len(),
{
    if p.len() == 0 {
        assert(p + q =~= q);
    } else {
        lemma_items_len_concat(p.skip(1), q);
        assert((p + q).skip(1) =~= p.skip(1) + q);
        assert((p + q)[0] == p[0]);
    }
}

/// Each block among `l` is the bytes of `s` at the offset that the entries
/// before it cover, with the length its length field gives.
pub open spec fn blocks_lie_on(s: Seq<u8>, l: Seq<ScanItem>) -> bool {
    forall|i: int|
        #![trigger l[i]]
        0 <= i < l.len() && l[i] is Block ==> {
            let b = l[i]->Block_0;
            let off = items_len(l.take(i));
            &&& b.len() >= 6
            &&& b.len() == 4 + block_len_of(b)
            &&& off + b.len() <= s.len()
            &&& s.subrange(off as int, (off + b.len()) as int) == b
        }
}

/// A padding entry comes only right after a block of odd length.
pub open spec fn padding_after_odd(l: Seq<ScanItem>) -> bool {
    forall|i: int|
        #![trigger l[i]]
        0 <= i < l.len() && l[i] is Padding ==> i > 0 && l[i - 1] is Block && l[i
            - 1]->Block_0.len() % 2 == 1
}

/// A block of odd length is followed by a padding entry unless it ends `s`.
pub open spec fn odd_padded(s: Seq<u8>, l: Seq<ScanItem>) -> bool {
    forall|i: int|
        #![trigger l[i]]
        0 <= i < l.len() && l[i] is Block && l[i]->Block_0.len() % 2 == 1 ==> (i + 1 < l.len()
            && l[i + 1] is Padding) || (i + 1 == l.len() && items_len(l) == s.len())
}

/// The entries `l` lie on `s` as a scan lays them out: the blocks are the
/// bytes of `s` at their offsets, a padding entry covers the one byte after
/// an odd-length block, which belongs to no block, and every odd-length block
/// but one that ends `s` is so padded.
pub open spec fn scan_ok(s: Seq<u8>, l: Seq<ScanItem>) -> bool {
    &&& items_len(l) <= s.len()
    &&& blocks_lie_on(s, l)
    &&& padding_after_odd(l)
    &&& odd_padded(s, l)
}

proof fn lemma_prefix_blocks(s: Seq<u8>, p: Seq<ScanItem>, rest: Seq<ScanItem>)
    requires
        blocks_lie_on(s, p),
        items_len(p) <= s.len(),
        blocks_lie_on(s.skip(items_len(p) as int), rest),
    ensures
        blocks_lie_on(s, p + rest),
{
    let k = items_len(p);
    let t = s.skip(k as int);
    let l = p + rest;
    lemma_items_len_concat(p, rest);
    assert forall|i: int| 0 <= i < l.len() && (#[trigger] l[i]) is Block implies {
        let b = l[i]->Block_0;
        let off = items_len(l.take(i));
        &&& b.len() >= 6
        &&& b.len() == 4 + block_len_of(b)
        &&& off + b.len() <= s.len()
        &&& s.subrange(off as int, (off + b.len()) as int) == b
    } by {
        if i < p.len() {
            assert(l[i] == p[i]);
            assert(l.take(i) =~= p.take(i));
        } else {
            let j = i - p.len();
            assert(l[i] == rest[j]);
            assert(l.take(i) =~= p + rest.take(j));
            lemma_items_len_concat(p, rest.take(j));
            let b = rest[j]->Block_0;
            let off2 = items_len(rest.take(j));
            assert(s.subrange((k + off2) as int, (k + off2 + b.len()) as int) =~= t.subrange(
                off2 as int,
                (off2 + b.len()) as int,
            ));
        }
    }
}

proof fn lemma_prefix_padding(s: Seq<u8>, p: Seq<ScanItem>, rest: Seq<ScanItem>)
    requires
        padding_after_odd(p),
        padding_after_odd(rest),
        p.len() > 0,
        rest.len() > 0 ==> rest[0] is Block,
    ensures
        padding_after_odd(p + rest),
{
    let k = items_len(p);
    let t = s.skip(k as int);
    let l = p + rest;
    lemma_items_len_concat(p, rest);
    assert forall|i: int| 0 <= i < l.len() && (#[trigger] l[i]) is Padding implies i > 0 && l[i - 1] is Block
        && l[i - 1]->Block_0.len() % 2 == 1 by {
        if i < p.len() {
            assert(l[i] == p[i]);
            assert(l[i - 1] == p[i - 1]);
        } else {
            let j = i - p.len();
            assert(l[i] == rest[j]);
            assert(l[i - 1] == rest[j - 1]);
        }
    }
}

proof fn lemma_prefix_odd(s: Seq<u8>, p: Seq<ScanItem>, rest: Seq<ScanItem>)
    requires
        odd_padded(s, p),
        items_len(p) <= s.len(),
        odd_padded(s.skip(items_len(p) as int), rest),
        items_len(rest) <= s.len() - items_len(p),
        p.len() > 0,
        !(p.last() is Block && p.last()->Block_0.len() % 2 == 1),
    ensures
        odd_padded(s, p + rest),
{
    let k = items_len(p);
    let t = s.skip(k as int);
    let l = p + rest;
    lemma_items_len_concat(p, rest);
    assert forall|i: int|
        0 <= i < l.len() && (#[trigger] l[i]) is Block && l[i]->Block_0.len() % 2 == 1 implies (i + 1
        < l.len() && l[i + 1] is Padding) || (i + 1 == l.len() && items_len(l) == s.len()) by {
        if i < p.len() {
            assert(l[i] == p[i]);
            if i + 1 < p.len() {
                assert(l[i + 1] == p[i + 1]);
            }
        } else {
            let j = i - p.len();
            assert(l[i] == rest[j]);
            if j + 1 < rest.len() {
                assert(l[i + 1] == rest[j + 1]);
            }
        }
    }
}

/// `p` followed by entries laid out on the rest of `s` after the bytes `p`
/// covers lies on `s`, when `p` does and does not end in an unpadded odd block.
proof fn lemma_scan_ok_prefix(s: Seq<u8>, p: Seq<ScanItem>, rest: Seq<ScanItem>)
    requires
        scan_ok(s, p),
        items_len(p) <= s.len(),
        scan_ok(s.skip(items_len(p) as int), rest),
        p.len() > 0,
        !(p.last() is Block && p.last()->Block_0.len() % 2 == 1),
        rest.len() > 0 ==> rest[0] is Block,
    ensures
        scan_ok(s, p + rest),
{
    lemma_items_len_concat(p, rest);
    lemma_prefix_blocks(s, p, rest);
    lemma_prefix_padding(s, p, rest);
    lemma_prefix_odd(s, p, rest);
}

/// What a loose scan returns lies on its input as `scan_ok` says: in
/// particular a padding entry follows exactly the odd-length blocks that do
/// not end the data, and the byte it covers starts no block.
pub proof fn lemma_scan_padding(s: Seq<u8>)
    ensures
        scan_ok(s, scan(s)),
    decreases s.len(),
{
    let l = scan(s);
    if s.len() < 6 {
        assert(items_len(l) == 0);
    } else {
        let len = from_be16(s[2], s[3]);
        let n = 4 + len;
        if len < 2 || n > s.len() {
            assert(items_len(l) == 0);
        } else {
            let t = s.take(n as int);
            assert(t[2] == s[2] && t[3] == s[3]);
            let one = seq![ScanItem::Block(t)];
            assert(items_len(Seq::<ScanItem>::empty()) == 0);
            assert(one.skip(1) =~= Seq::<ScanItem>::empty());
            assert(items_len(one) == n);
            assert(items_len(seq![ScanItem::Padding]) == 1) by {
                assert(seq![ScanItem::Padding].skip(1) =~= Seq::<ScanItem>::empty());
            }
            assert(one.take(0) =~= Seq::<ScanItem>::empty());
            assert(s.subrange(0, n as int) =~= t);
            if n % 2 == 1 && n < s.len() {
                let p = seq![ScanItem::Block(t), ScanItem::Padding];
                assert(p.skip(1) =~= seq![ScanItem::Padding]);
                assert(p.skip(1).skip(1) =~= Seq::<ScanItem>::empty());
                assert(items_len(p) == n + 1);
                assert(p.take(0) =~= Seq::<ScanItem>::empty());
                assert(scan_ok(s, p));
                lemma_scan_padding(s.skip(n + 1 as int));
                lemma_scan_first(s.skip(n + 1 as int));
                lemma_scan_ok_prefix(s, p, scan(s.skip(n + 1 as int)));
            } else if n % 2 == 1 {
                assert(l == one);
                assert(scan_ok(s, one));
            } else {
                assert(scan_ok(s, one));
                lemma_scan_padding(s.skip(n as int));
                lemma_scan_first(s.skip(n as int));
                lemma_scan_ok_prefix(s, one, scan(s.skip(n as int)));
            }
        }
    }
}

/// A scan never starts with a padding entry.
proof fn lemma_scan_first(s: Seq<u8>)
    ensures
        scan(s).len() > 0 ==> scan(s)[0] is Block,
{
}

} // verus!
