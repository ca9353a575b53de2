use vstd::prelude::*;

use crate::block::{
    decode_blocks, encode_blocks, lemma_list_round_trip, lemma_list_wire_concat,
    lemma_parse_list_sound, list_wf, list_wire, models, parse_list, unit, Block, BlockCommon,
    BlockCommonWithoutInfo, BlockIp, BlockModel, BlockOptionAndSub, BlockPadding, BlockResp,
    BlockSet, BlockTrait,
};
use crate::comm::{
    be16, from_be16, lemma_be16_from, lemma_from_be16, BytesWrap, DcpError, MacAddr,
    PROFINET_ETHER_TYPE,
};
use crate::options::{
    BlockError, BlockInfo, BlockQualifier, InnerIpAddr, IpBlockInfo, OptionAndSub,
    OptionAndSubValue, ValueModel,
};
use crate::view::{mac_in, EthernetPacket};

verus! {

/// The message-type tag of a DCP frame.
#[derive(Debug, Clone, Copy, PartialEq, Eq, Structural)]
pub enum PnDcpTy {
    HelloReq,
    HelloRespSuc,
    HelloRespUnsup,
    IdentReq,
    IdentRespSuc,
    GetReq,
    GetRespSuc,
    GetRespUnsup,
    SetReq,
    SetRespSuc,
    SetRespUnsup,
}

/// The message type that four tag bytes stand for, if any.
pub open spec fn tag_of(a: u8, b: u8, c: u8, d: u8) -> Option<PnDcpTy> {
    if a != 0xfe {
        None
    } else if b == 0xfc && c == 0x06 && d == 0x00 {
        Some(PnDcpTy::HelloReq)
    } else if b == 0xfc && c == 0x06 && d == 0x01 {
        Some(PnDcpTy::HelloRespSuc)
    } else if b == 0xfc && c == 0x06 && d == 0x05 {
        Some(PnDcpTy::HelloRespUnsup)
    } else if b == 0xfe && c == 0x05 && d == 0x00 {
        Some(PnDcpTy::IdentReq)
    } else if b == 0xff && c == 0x05 && d == 0x01 {
        Some(PnDcpTy::IdentRespSuc)
    } else if b == 0xfd && c == 0x03 && d == 0x00 {
        Some(PnDcpTy::GetReq)
    } else if b == 0xfd && c == 0x03 && d == 0x01 {
        Some(PnDcpTy::GetRespSuc)
    } else if b == 0xfd && c == 0x03 && d == 0x05 {
        Some(PnDcpTy::GetRespUnsup)
    } else if b == 0xfd && c == 0x04 && d == 0x00 {
        Some(PnDcpTy::SetReq)
    } else if b == 0xfd && c == 0x04 && d == 0x01 {
        Some(PnDcpTy::SetRespSuc)
    } else if b == 0xfd && c == 0x04 && d == 0x05 {
        Some(PnDcpTy::SetRespUnsup)
    } else {
        None
    }
}

impl PnDcpTy {
    /// The four tag bytes of the message type.
    pub open spec fn tag(self) -> Seq<u8> {
        match self {
            PnDcpTy::HelloReq => seq![0xfeu8, 0xfc, 0x06, 0x00],
            PnDcpTy::HelloRespSuc => seq![0xfeu8, 0xfc, 0x06, 0x01],
            PnDcpTy::HelloRespUnsup => seq![0xfeu8, 0xfc, 0x06, 0x05],
            PnDcpTy::IdentReq => seq![0xfeu8, 0xfe, 0x05, 0x00],
            PnDcpTy::IdentRespSuc => seq![0xfeu8, 0xff, 0x05, 0x01],
            PnDcpTy::GetReq => seq![0xfeu8, 0xfd, 0x03, 0x00],
            PnDcpTy::GetRespSuc => seq![0xfeu8, 0xfd, 0x03, 0x01],
            PnDcpTy::GetRespUnsup => seq![0xfeu8, 0xfd, 0x03, 0x05],
            PnDcpTy::SetReq => seq![0xfeu8, 0xfd, 0x04, 0x00],
            PnDcpTy::SetRespSuc => seq![0xfeu8, 0xfd, 0x04, 0x01],
            PnDcpTy::SetRespUnsup => seq![0xfeu8, 0xfd, 0x04, 0x05],
        }
    }

    pub fn to_u8_array(&self) -> (r: [u8; 4])
        ensures
            r@ == self.tag(),
    {
        let r = match self {
            PnDcpTy::HelloReq => [0xfeu8, 0xfc, 0x06, 0x00],
            PnDcpTy::HelloRespSuc => [0xfeu8, 0xfc, 0x06, 0x01],
            PnDcpTy::HelloRespUnsup => [0xfeu8, 0xfc, 0x06, 0x05],
            PnDcpTy::IdentReq => [0xfeu8, 0xfe, 0x05, 0x00],
            PnDcpTy::IdentRespSuc => [0xfeu8, 0xff, 0x05, 0x01],
            PnDcpTy::GetReq => [0xfeu8, 0xfd, 0x03, 0x00],
            PnDcpTy::GetRespSuc => [0xfeu8, 0xfd, 0x03, 0x01],
            PnDcpTy::GetRespUnsup => [0xfeu8, 0xfd, 0x03, 0x05],
            PnDcpTy::SetReq => [0xfeu8, 0xfd, 0x04, 0x00],
            PnDcpTy::SetRespSuc => [0xfeu8, 0xfd, 0x04, 0x01],
            PnDcpTy::SetRespUnsup => [0xfeu8, 0xfd, 0x04, 0x05],
        };
        assert(r@ =~= self.tag());
        r
    }

    /// The message type of four tag bytes; fails with `UnknownMessageType`
    /// on a tag outside the recognised ones.
    pub fn from_u8_array(value: [u8; 4]) -> (r: Result<PnDcpTy, DcpError>)
        ensures
            match tag_of(value[0], value[1], value[2], value[3]) {
                Some(ty) => r == Ok::<PnDcpTy, DcpError>(ty),
                None => r == Err::<PnDcpTy, DcpError>(DcpError::UnknownMessageType),
            },
    {
        let (a, b, c, d) = (value[0], value[1], value[2], value[3]);
        if a != 0xfe {
            Err(DcpError::UnknownMessageType)
        } else if b == 0xfc && c == 0x06 && d == 0x00 {
            Ok(PnDcpTy::HelloReq)
        } else if b == 0xfc && c == 0x06 && d == 0x01 {
            Ok(PnDcpTy::HelloRespSuc)
        } else if b == 0xfc && c == 0x06 && d == 0x05 {
            Ok(PnDcpTy::HelloRespUnsup)
        } else if b == 0xfe && c == 0x05 && d == 0x00 {
            Ok(PnDcpTy::IdentReq)
        } else if b == 0xff && c == 0x05 && d == 0x01 {
            Ok(PnDcpTy::IdentRespSuc)
        } else if b == 0xfd && c == 0x03 && d == 0x00 {
            Ok(PnDcpTy::GetReq)
        } else if b == 0xfd && c == 0x03 && d == 0x01 {
            Ok(PnDcpTy::GetRespSuc)
        } else if b == 0xfd && c == 0x03 && d == 0x05 {
            Ok(PnDcpTy::GetRespUnsup)
        } else if b == 0xfd && c == 0x04 && d == 0x00 {
            Ok(PnDcpTy::SetReq)
        } else if b == 0xfd && c == 0x04 && d == 0x01 {
            Ok(PnDcpTy::SetRespSuc)
        } else if b == 0xfd && c == 0x04 && d == 0x05 {
            Ok(PnDcpTy::SetRespUnsup)
        } else {
            Err(DcpError::UnknownMessageType)
        }
    }
}

/// Every message type's tag decodes back to it.
pub proof fn lemma_tag_round_trip(ty: PnDcpTy)
    ensures
        ty.tag().len() == 4,
        tag_of(ty.tag()[0], ty.tag()[1], ty.tag()[2], ty.tag()[3]) == Some(ty),
{
}

/// The service a frame id names (the first two tag bytes).
#[derive(Debug, Clone, Copy, PartialEq, Eq)]
pub enum FrameId {
    Hello,
    GetOrSet,
    IdentReq,
    IdentResp,
    UnSupport(u8, u8),
}

impl FrameId {
    pub open spec fn bytes(self) -> (u8, u8) {
        match self {
            FrameId::Hello => (0xfe, 0xfc),
            FrameId::GetOrSet => (0xfe, 0xfd),
            FrameId::IdentReq => (0xfe, 0xfe),
            FrameId::IdentResp => (0xfe, 0xff),
            FrameId::UnSupport(a, b) => (a, b),
        }
    }

    pub fn new(a: [u8; 2]) -> (r: FrameId)
        ensures
            r.bytes() == (a[0], a[1]),
            a[0] == 0xfe && 0xfc <= a[1] <= 0xff ==> !(r is UnSupport),
    {
        if a[0] == 0xfe && a[1] == 0xfc {
            FrameId::Hello
        } else if a[0] == 0xfe && a[1] == 0xfd {
            FrameId::GetOrSet
        } else if a[0] == 0xfe && a[1] == 0xfe {
            FrameId::IdentReq
        } else if a[0] == 0xfe && a[1] == 0xff {
            FrameId::IdentResp
        } else {
            FrameId::UnSupport(a[0], a[1])
        }
    }

    pub fn to_u8s(&self) -> (r: [u8; 2])
        ensures
            r@ == seq![self.bytes().0, self.bytes().1],
    {
        let r = match self {
            FrameId::Hello => [0xfeu8, 0xfc],
            FrameId::GetOrSet => [0xfeu8, 0xfd],
            FrameId::IdentReq => [0xfeu8, 0xfe],
            FrameId::IdentResp => [0xfeu8, 0xff],
            FrameId::UnSupport(a, b) => [*a, *b],
        };
        assert(r@ =~= seq![self.bytes().0, self.bytes().1]);
        r
    }
}

/// The 26-byte frame header.
#[derive(Debug, Clone, Copy, PartialEq, Eq)]
pub struct DcpHead {
    pub destination: MacAddr,
    pub source: MacAddr,
    pub ty: PnDcpTy,
    pub xid: [u8; 4],
    pub reserved_or_delay: [u8; 2],
    pub payload_len: u16,
}

/// The header's bytes on the wire.
pub open spec fn head_wire(h: DcpHead) -> Seq<u8> {
    h.destination.octets_spec() + h.source.octets_spec() + be16(PROFINET_ETHER_TYPE as nat)
        + h.ty.tag() + h.xid@ + h.reserved_or_delay@ + be16(h.payload_len as nat)
}

/// The header at the start of `s`.
pub open spec fn parse_head(s: Seq<u8>) -> Result<DcpHead, DcpError> {
    if s.len() < 26 {
        Err(DcpError::Truncated)
    } else if from_be16(s[12], s[13]) != PROFINET_ETHER_TYPE {
        Err(DcpError::NotProfinet)
    } else if tag_of(s[14], s[15], s[16], s[17]) is None {
        Err(DcpError::UnknownMessageType)
    } else if 26 + from_be16(s[24], s[25]) > s.len() {
        Err(DcpError::Truncated)
    } else {
        Ok(
            DcpHead {
                destination: mac_in(s, 0),
                source: mac_in(s, 6),
                ty: tag_of(s[14], s[15], s[16], s[17])->Some_0,
                xid: [s[18], s[19], s[20], s[21]],
                reserved_or_delay: [s[22], s[23]],
                payload_len: from_be16(s[24], s[25]) as u16,
            },
        )
    }
}

impl DcpHead {
    /// Appends the header's 26 bytes.
    pub fn append_data(&self, data: &mut Vec<u8>)
        ensures
            final(data)@ == old(data)@ + head_wire(*self),
    {
        let d = self.destination.octets();
        crate::comm::slice_copy_to_vec(data, d.as_slice());
        let s = self.source.octets();
        crate::comm::slice_copy_to_vec(data, s.as_slice());
        let e = crate::comm::u16_to_u8s(PROFINET_ETHER_TYPE);
        crate::comm::slice_copy_to_vec(data, e.as_slice());
        let t = self.ty.to_u8_array();
        crate::comm::slice_copy_to_vec(data, t.as_slice());
        crate::comm::slice_copy_to_vec(data, self.xid.as_slice());
        crate::comm::slice_copy_to_vec(data, self.reserved_or_delay.as_slice());
        let l = crate::comm::u16_to_u8s(self.payload_len);
        crate::comm::slice_copy_to_vec(data, l.as_slice());
        assert(data@ =~= old(data)@ + head_wire(*self));
    }

    /// A header with zeroed xid and reserved field and no payload.
    pub fn new(destination: MacAddr, source: MacAddr, ty: PnDcpTy) -> (r: DcpHead)
        ensures
            r == (DcpHead {
                destination,
                source,
                ty,
                xid: [0u8, 0u8, 0u8, 0u8],
                reserved_or_delay: [0u8, 0u8],
                payload_len: 0,
            }),
    {
        DcpHead {
            destination,
            source,
            ty,
            xid: [0u8, 0u8, 0u8, 0u8],
            reserved_or_delay: [0u8, 0u8],
            payload_len: 0,
        }
    }

    pub fn set_xid(&mut self, xid: [u8; 4])
        ensures
            *final(self) == (DcpHead { xid, ..*old(self) }),
    {
        self.xid = xid;
    }

    pub fn set_reserved_or_delay(&mut self, reserved_or_delay: [u8; 2])
        ensures
            *final(self) == (DcpHead { reserved_or_delay, ..*old(self) }),
    {
        self.reserved_or_delay = reserved_or_delay;
    }

    pub fn add_payload_len(&mut self, add: u16)
        requires
            old(self).payload_len + add <= 0xffff,
        ensures
            *final(self) == (DcpHead { payload_len: (old(self).payload_len + add) as u16, ..*old(self) }),
    {
        self.payload_len = self.payload_len + add;
    }

    /// The header at the start of `value`.
    pub fn decode(value: &[u8]) -> (r: Result<DcpHead, DcpError>)
        ensures
            r == parse_head(value@),
            value@.len() >= 26 && from_be16(value@[12], value@[13]) != PROFINET_ETHER_TYPE ==> r
                == Err::<DcpHead, DcpError>(DcpError::NotProfinet),
            value@.len() >= 26 && from_be16(value@[12], value@[13]) == PROFINET_ETHER_TYPE
                && tag_of(value@[14], value@[15], value@[16], value@[17]) is Some && 26
                + from_be16(value@[24], value@[25]) > value@.len() ==> r == Err::<
                DcpHead,
                DcpError,
            >(DcpError::Truncated),
    {
        if value.len() < 26 {
            return Err(DcpError::Truncated);
        }
        let ethernet = match EthernetPacket::new(vstd::slice::slice_subrange(value, 0, 14)) {
            Some(ethernet) => ethernet,
            None => return Err(DcpError::Truncated),
        };
        if ethernet.get_ethertype() != PROFINET_ETHER_TYPE {
            return Err(DcpError::NotProfinet);
        }
        let ty = PnDcpTy::from_u8_array([value[14], value[15], value[16], value[17]])?;
        let payload_len = crate::comm::to_u16(value[24], value[25]);
        if payload_len as usize + 26 > value.len() {
            return Err(DcpError::Truncated);
        }
        let destination = ethernet.get_destination();
        let source = ethernet.get_source();
        let xid: [u8; 4] = [value[18], value[19], value[20], value[21]];
        let reserved_or_delay: [u8; 2] = [value[22], value[23]];
        Ok(DcpHead { destination, source, ty, xid, reserved_or_delay, payload_len })
    }
}

/// A header with the bytes of its payload.
pub struct PnDcp {
    pub head: DcpHead,
    pub blocks: BytesWrap,
}

impl PnDcp {
    /// Splits `value` into its header and the `payload_len` bytes after it.
    pub fn decode(value: &[u8]) -> (r: Result<PnDcp, DcpError>)
        ensures
            match r {
                Ok(p) => parse_head(value@) == Ok::<DcpHead, DcpError>(p.head) && p.blocks@
                    == value@.subrange(26, 26 + p.head.payload_len),
                Err(e) => parse_head(value@) == Err::<DcpHead, DcpError>(e),
            },
    {
        let head = DcpHead::decode(value)?;
        let mut data: Vec<u8> = Vec::new();
        let mut i: usize = 26;
        let end: usize = head.payload_len as usize + 26;
        while i < end
            invariant
                end == 26 + head.payload_len,
                end <= value@.len(),
                26 <= i <= end,
                data@ == value@.subrange(26, i as int),
            decreases end - i,
        {
            data.push(value[i]);
            i += 1;
            assert(data@ =~= value@.subrange(26, i as int));
        }
        Ok(PnDcp { head, blocks: BytesWrap::from_vec(data) })
    }
}

} // verus!
verus! {

/// The block shapes a packet of `kind` can hold, padding included.
pub open spec fn shape_ok(kind: PnDcpTy, b: BlockModel) -> bool {
    match b {
        BlockModel::Padding => true,
        BlockModel::OptionRef(_) => kind == PnDcpTy::GetReq,
        BlockModel::CommonWithoutInfo(_) => kind == PnDcpTy::IdentReq,
        BlockModel::SetValue(_, _) => kind == PnDcpTy::SetReq,
        _ => kind != PnDcpTy::GetReq && kind != PnDcpTy::IdentReq && kind != PnDcpTy::SetReq,
    }
}

/// A header and blocks that belong together: the header's tag is `kind`,
/// its payload length is the length of the blocks' bytes, and every block
/// has a shape of `kind` and a length its field holds.
pub open spec fn frame_ok(kind: PnDcpTy, h: DcpHead, l: Seq<BlockModel>) -> bool {
    &&& h.ty == kind
    &&& h.payload_len == list_wire(l).len()
    &&& forall|i: int| 0 <= i < l.len() ==> (#[trigger] l[i]).sized() && shape_ok(kind, l[i])
}

/// The frame's bytes: header, then blocks.
pub open spec fn frame_wire(h: DcpHead, l: Seq<BlockModel>) -> Seq<u8> {
    head_wire(h) + list_wire(l)
}

/// The header and blocks that a frame of `kind` holds.
pub open spec fn parse_frame(kind: PnDcpTy, s: Seq<u8>) -> Result<
    (DcpHead, Seq<BlockModel>),
    DcpError,
> {
    match parse_head(s) {
        Err(e) => Err(e),
        Ok(h) => if h.ty != kind {
            Err(DcpError::WrongKind)
        } else {
            match parse_list(kind, s.subrange(26, 26 + h.payload_len)) {
                Ok(l) => Ok((h, l)),
                Err(e) => Err(e),
            }
        },
    }
}

pub proof fn lemma_wf_blocks(kind: PnDcpTy, l: Seq<BlockModel>)
    requires
        list_wf(kind, l),
    ensures
        forall|i: int| 0 <= i < l.len() ==> (#[trigger] l[i]).sized() && shape_ok(kind, l[i]),
    decreases l.len(),
{
    if l.len() > 0 {
        let k: int = if l[0].wire().len() % 2 == 0 && l[0].allowed(kind) {
            1
        } else {
            2
        };
        lemma_wf_blocks(kind, l.skip(k));
        assert forall|i: int| 0 <= i < l.len() implies (#[trigger] l[i]).sized() && shape_ok(
            kind,
            l[i],
        ) by {
            if i >= k {
                assert(l[i] == l.skip(k)[i - k]);
            }
        }
    }
}

/// The header's bytes decode back to it.
proof fn lemma_head_round_trip(h: DcpHead, rest: Seq<u8>)
    requires
        26 + h.payload_len <= 26 + rest.len(),
    ensures
        parse_head(head_wire(h) + rest) == Ok::<DcpHead, DcpError>(h),
        (head_wire(h) + rest).subrange(26, 26 + h.payload_len) == rest.subrange(
            0,
            h.payload_len as int,
        ),
{
    let s = head_wire(h) + rest;
    lemma_from_be16(PROFINET_ETHER_TYPE as nat);
    lemma_from_be16(h.payload_len as nat);
    lemma_tag_round_trip(h.ty);
    assert(s[12] == be16(PROFINET_ETHER_TYPE as nat)[0]);
    assert(s[13] == be16(PROFINET_ETHER_TYPE as nat)[1]);
    assert(s[14] == h.ty.tag()[0] && s[15] == h.ty.tag()[1] && s[16] == h.ty.tag()[2] && s[17]
        == h.ty.tag()[3]);
    assert(s[24] == be16(h.payload_len as nat)[0] && s[25] == be16(h.payload_len as nat)[1]);
    assert([s[18], s[19], s[20], s[21]] =~= h.xid);
    assert([s[22], s[23]] =~= h.reserved_or_delay);
    assert(mac_in(s, 0) == h.destination);
    assert(mac_in(s, 6) == h.source);
    assert(s.subrange(26, 26 + h.payload_len) =~= rest.subrange(0, h.payload_len as int));
}

/// The header decoded from a buffer is the buffer's first 26 bytes.
proof fn lemma_head_bytes(s: Seq<u8>)
    requires
        parse_head(s) is Ok,
    ensures
        head_wire(parse_head(s)->Ok_0) == s.subrange(0, 26),
{
    let h = parse_head(s)->Ok_0;
    lemma_be16_from(s[12], s[13]);
    lemma_be16_from(s[24], s[25]);
    assert(head_wire(h) =~= s.subrange(0, 26));
}

/// A frame built from a header and well-formed blocks decodes back to the
/// same header and the same blocks.
pub proof fn lemma_frame_round_trip(kind: PnDcpTy, h: DcpHead, l: Seq<BlockModel>)
    requires
        frame_ok(kind, h, l),
        list_wf(kind, l),
    ensures
        parse_frame(kind, frame_wire(h, l)) == Ok::<(DcpHead, Seq<BlockModel>), DcpError>((h, l)),
{
    lemma_head_round_trip(h, list_wire(l));
    assert(list_wire(l).subrange(0, h.payload_len as int) =~= list_wire(l));
    lemma_list_round_trip(kind, l);
}

/// A buffer that decodes as a frame and holds nothing past its payload is
/// exactly the bytes of what it decoded to; what it decoded to is well formed.
pub proof fn lemma_frame_bytes_round_trip(kind: PnDcpTy, s: Seq<u8>)
    requires
        parse_frame(kind, s) is Ok,
        s.len() == 26 + parse_frame(kind, s)->Ok_0.0.payload_len,
    ensures
        ({
            let (h, l) = parse_frame(kind, s)->Ok_0;
            &&& frame_wire(h, l) == s
            &&& frame_ok(kind, h, l)
            &&& list_wf(kind, l)
        }),
{
    let (h, l) = parse_frame(kind, s)->Ok_0;
    let span = s.subrange(26, 26 + h.payload_len);
    lemma_head_bytes(s);
    lemma_parse_list_sound(kind, span);
    lemma_wf_blocks(kind, l);
    assert(s =~= s.subrange(0, 26) + span);
}

/// In well-formed blocks, every block of odd length is followed by exactly one
/// padding block, whose one byte is zero and which starts no block of its own.
pub proof fn lemma_padding_follows_odd(kind: PnDcpTy, l: Seq<BlockModel>)
    requires
        list_wf(kind, l),
    ensures
        forall|i: int|
            0 <= i < l.len() && (#[trigger] l[i]) != BlockModel::Padding ==> (l[i].wire().len()
                % 2 == 1 <==> (i + 1 < l.len() && l[i + 1] == BlockModel::Padding)),
        forall|i: int| 0 <= i < l.len() && (#[trigger] l[i]) == BlockModel::Padding ==> i > 0
            && l[i - 1] != BlockModel::Padding && l[i - 1].wire().len() % 2 == 1,
        BlockModel::Padding.wire() == seq![0u8],
    decreases l.len(),
{
    if l.len() > 0 {
        let k: int = if l[0].wire().len() % 2 == 0 && l[0].allowed(kind) {
            1
        } else {
            2
        };
        lemma_padding_follows_odd(kind, l.skip(k));
        assert(l[0] != BlockModel::Padding);
        if k == 2 {
            assert(l[1] == BlockModel::Padding);
        }
        if l.len() > k {
            assert(l[k] == l.skip(k)[0]);
        }
        assert forall|i: int|
            0 <= i < l.len() && (#[trigger] l[i]) != BlockModel::Padding implies (l[i].wire().len()
            % 2 == 1 <==> (i + 1 < l.len() && l[i + 1] == BlockModel::Padding)) by {
            if i >= k {
                assert(l[i] == l.skip(k)[i - k]);
                if i + 1 < l.len() {
                    assert(l[i + 1] == l.skip(k)[i + 1 - k]);
                }
            }
        }
        assert forall|i: int| 0 <= i < l.len() && (#[trigger] l[i]) == BlockModel::Padding implies i
            > 0 && l[i - 1] != BlockModel::Padding && l[i - 1].wire().len() % 2 == 1 by {
            if i >= k {
                assert(l[i] == l.skip(k)[i - k]);
                if i - 1 >= k {
                    assert(l[i - 1] == l.skip(k)[i - 1 - k]);
                }
            }
        }
    }
}

/// Pushes `block` and, when its length is odd, a padding block, adding both to
/// the header's payload length.
fn push_unit(head: &mut DcpHead, blocks: &mut Vec<Block>, block: Block)
    requires
        frame_ok(old(head).ty, *old(head), models(old(blocks)@)),
        block@.sized(),
        block@ != BlockModel::Padding,
        shape_ok(old(head).ty, block@),
        old(head).payload_len + list_wire(unit(block@)).len() <= 0xffff,
    ensures
        frame_ok(final(head).ty, *final(head), models(final(blocks)@)),
        models(final(blocks)@) == models(old(blocks)@) + unit(block@),
        keeps_wf(old(head).ty, models(old(blocks)@), models(final(blocks)@), block@),
        *final(head) == (DcpHead {
            payload_len: (old(head).payload_len + list_wire(unit(block@)).len()) as u16,
            ..*old(head)
        }),
{
    let ghost b = block@;
    let ghost before = models(blocks@);
    proof {
        if list_wf(head.ty, before) && b.allowed(head.ty) {
            crate::block::lemma_list_wf_append(head.ty, before, b);
        }
        lemma_list_wire_concat(before, unit(b));
        crate::block::lemma_list_wire_one(b);
        if b.wire().len() % 2 == 1 {
            assert(seq![b, BlockModel::Padding] =~= seq![b] + seq![BlockModel::Padding]);
            lemma_list_wire_concat(seq![b], seq![BlockModel::Padding]);
            crate::block::lemma_list_wire_one(BlockModel::Padding);
        }
    }
    let block_len = block.len();
    blocks.push(block);
    head.add_payload_len(block_len as u16);
    if block_len % 2 == 1 {
        blocks.push(Block::Padding(BlockPadding));
        head.add_payload_len(1);
    }
    assert(models(blocks@) =~= before + unit(b));
    assert forall|i: int| 0 <= i < models(blocks@).len() implies (#[trigger] models(blocks@)[i]).sized()
        && shape_ok(head.ty, models(blocks@)[i]) by {
        if i < before.len() {
            assert(models(blocks@)[i] == before[i]);
        }
    }
}

/// The frame's bytes.
fn frame_to_vec(head: &DcpHead, blocks: &Vec<Block>) -> (r: Vec<u8>)
    requires
        frame_ok(head.ty, *head, models(blocks@)),
    ensures
        r@ == frame_wire(*head, models(blocks@)),
{
    let mut data: Vec<u8> = Vec::with_capacity(head.payload_len as usize + 26);
    head.append_data(&mut data);
    proof {
        assert forall|i: int| 0 <= i < blocks@.len() implies (#[trigger] blocks@[i])@.sized() by {
            assert(models(blocks@)[i] == blocks@[i]@);
        }
    }
    encode_blocks(blocks, &mut data);
    assert(data@ =~= frame_wire(*head, models(blocks@)));
    data
}

/// The header and blocks of a frame of `kind` in `value`.
fn decode_frame(kind: PnDcpTy, value: &[u8]) -> (r: Result<(DcpHead, Vec<Block>), DcpError>)
    ensures
        match r {
            Ok((h, v)) => parse_frame(kind, value@) == Ok::<
                (DcpHead, Seq<BlockModel>),
                DcpError,
            >((h, models(v@))) && frame_ok(kind, h, models(v@)),
            Err(e) => parse_frame(kind, value@) == Err::<(DcpHead, Seq<BlockModel>), DcpError>(e),
        },
{
    let dcp = PnDcp::decode(value)?;
    let PnDcp { head, blocks } = dcp;
    if head.ty != kind {
        return Err(DcpError::WrongKind);
    }
    let list = decode_blocks(kind, &blocks)?;
    proof {
        lemma_parse_list_sound(kind, blocks@);
        lemma_wf_blocks(kind, models(list@));
    }
    Ok((head, list))
}

} // verus!
verus! {

/// The option codes of the bare references among `l`, in order.
pub open spec fn refs_of(l: Seq<BlockModel>) -> Seq<OptionAndSub> {
    l.filter(|b: BlockModel| b is OptionRef).map_values(|b: BlockModel| b->OptionRef_0)
}

/// The values of the info-less blocks among `l`, in order.
pub open spec fn values_of(l: Seq<BlockModel>) -> Seq<ValueModel> {
    l.filter(|b: BlockModel| b is CommonWithoutInfo).map_values(
        |b: BlockModel| b->CommonWithoutInfo_0,
    )
}

pub open spec fn is_manufacturer(b: BlockModel) -> bool {
    b matches BlockModel::CommonWithoutInfo(ValueModel::ManufacturerSpecific(_))
}

/// The manufacturer-specific info-less blocks among `l`, in order.
pub open spec fn manufacturer_of(l: Seq<BlockModel>) -> Seq<BlockModel> {
    l.filter(|b: BlockModel| is_manufacturer(b))
}

pub open spec fn commons_of(l: Seq<BlockModel>) -> Seq<BlockModel> {
    l.filter(|b: BlockModel| b is Common)
}

pub open spec fn resps_of(l: Seq<BlockModel>) -> Seq<BlockModel> {
    l.filter(|b: BlockModel| b is Response)
}

pub open spec fn ips_of(l: Seq<BlockModel>) -> Seq<BlockModel> {
    l.filter(|b: BlockModel| b is Ip)
}

proof fn lemma_filter_step(m: Seq<BlockModel>, i: int, p: spec_fn(BlockModel) -> bool)
    requires
        0 <= i < m.len(),
    ensures
        m.take(i + 1).filter(p) == if p(m[i]) {
            m.take(i).filter(p).push(m[i])
        } else {
            m.take(i).filter(p)
        },
{
    reveal(Seq::filter);
    let t = m.take(i + 1);
    assert(t.drop_last() =~= m.take(i));
    assert(t.last() == m[i]);
    assert(t.len() > 0);
    assert(t.filter(p) == if p(t.last()) {
        t.drop_last().filter(p).push(t.last())
    } else {
        t.drop_last().filter(p)
    });
}

fn collect_refs(blocks: &Vec<Block>) -> (r: Vec<OptionAndSub>)
    ensures
        r@ == refs_of(models(blocks@)),
{
    let ghost m = models(blocks@);
    let ghost p = |b: BlockModel| b is OptionRef;
    let ghost f = |b: BlockModel| b->OptionRef_0;
    let mut out: Vec<OptionAndSub> = Vec::new();
    let mut i: usize = 0;
    proof {
        reveal(Seq::filter);
    }
    assert(m.take(0).filter(p) =~= Seq::<BlockModel>::empty());
    assert(out@ =~= m.take(0).filter(p).map_values(f));
    while i < blocks.len()
        invariant
            m == models(blocks@),
            p == (|b: BlockModel| b is OptionRef),
            f == (|b: BlockModel| b->OptionRef_0),
            i <= blocks@.len(),
            out@ == m.take(i as int).filter(p).map_values(f),
        decreases blocks@.len() - i,
    {
        proof {
            lemma_filter_step(m, i as int, p);
            assert(m[i as int] == blocks@[i as int]@);
        }
        match &blocks[i] {
            Block::OptionRef(b) => {
                out.push(b.0);
            },
            _ => {},
        }
        assert(out@ =~= m.take(i + 1).filter(p).map_values(f));
        i += 1;
    }
    assert(m.take(i as int) =~= m);
    out
}

fn collect_values(blocks: &Vec<Block>) -> (r: Vec<OptionAndSubValue>)
    ensures
        r@.map_values(|v: OptionAndSubValue| v@) == values_of(models(blocks@)),
{
    let ghost m = models(blocks@);
    let ghost p = |b: BlockModel| b is CommonWithoutInfo;
    let ghost f = |b: BlockModel| b->CommonWithoutInfo_0;
    let ghost g = |v: OptionAndSubValue| v@;
    let mut out: Vec<OptionAndSubValue> = Vec::new();
    let mut i: usize = 0;
    proof {
        reveal(Seq::filter);
    }
    assert(m.take(0).filter(p) =~= Seq::<BlockModel>::empty());
    assert(out@.map_values(g) =~= m.take(0).filter(p).map_values(f));
    while i < blocks.len()
        invariant
            m == models(blocks@),
            p == (|b: BlockModel| b is CommonWithoutInfo),
            f == (|b: BlockModel| b->CommonWithoutInfo_0),
            g == (|v: OptionAndSubValue| v@),
            i <= blocks@.len(),
            out@.map_values(g) == m.take(i as int).filter(p).map_values(f),
        decreases blocks@.len() - i,
    {
        proof {
            lemma_filter_step(m, i as int, p);
            assert(m[i as int] == blocks@[i as int]@);
        }
        match &blocks[i] {
            Block::CommonWithoutInfo(b) => {
                let v = b.0.clone();
                assert(v@ == b.0@);
                let ghost before = out@;
                out.push(v);
                assert(out@.map_values(g) =~= before.map_values(g).push(v@));
            },
            _ => {},
        }
        assert(out@.map_values(g) =~= m.take(i + 1).filter(p).map_values(f));
        i += 1;
    }
    assert(m.take(i as int) =~= m);
    out
}

fn collect_commons(blocks: &Vec<Block>) -> (r: Vec<BlockCommon>)
    ensures
        r@.map_values(|c: BlockCommon| c.model()) == commons_of(models(blocks@)),
{
    let ghost m = models(blocks@);
    let ghost p = |b: BlockModel| b is Common;
    let ghost g = |c: BlockCommon| c.model();
    let mut out: Vec<BlockCommon> = Vec::new();
    let mut i: usize = 0;
    proof {
        reveal(Seq::filter);
    }
    assert(m.take(0).filter(p) =~= Seq::<BlockModel>::empty());
    assert(out@.map_values(g) =~= m.take(0).filter(p));
    while i < blocks.len()
        invariant
            m == models(blocks@),
            p == (|b: BlockModel| b is Common),
            g == (|c: BlockCommon| c.model()),
            i <= blocks@.len(),
            out@.map_values(g) == m.take(i as int).filter(p),
        decreases blocks@.len() - i,
    {
        proof {
            lemma_filter_step(m, i as int, p);
            assert(m[i as int] == blocks@[i as int]@);
        }
        match &blocks[i] {
            Block::Common(b) => {
                out.push(b.clone());
            },
            _ => {},
        }
        assert(out@.map_values(g) =~= m.take(i + 1).filter(p));
        i += 1;
    }
    assert(m.take(i as int) =~= m);
    out
}

fn collect_resps(blocks: &Vec<Block>) -> (r: Vec<BlockResp>)
    ensures
        r@.map_values(|c: BlockResp| c.model()) == resps_of(models(blocks@)),
{
    let ghost m = models(blocks@);
    let ghost p = |b: BlockModel| b is Response;
    let ghost g = |c: BlockResp| c.model();
    let mut out: Vec<BlockResp> = Vec::new();
    let mut i: usize = 0;
    proof {
        reveal(Seq::filter);
    }
    assert(m.take(0).filter(p) =~= Seq::<BlockModel>::empty());
    assert(out@.map_values(g) =~= m.take(0).filter(p));
    while i < blocks.len()
        invariant
            m == models(blocks@),
            p == (|b: BlockModel| b is Response),
            g == (|c: BlockResp| c.model()),
            i <= blocks@.len(),
            out@.map_values(g) == m.take(i as int).filter(p),
        decreases blocks@.len() - i,
    {
        proof {
            lemma_filter_step(m, i as int, p);
            assert(m[i as int] == blocks@[i as int]@);
        }
        match &blocks[i] {
            Block::Response(b) => {
                out.push(*b);
            },
            _ => {},
        }
        assert(out@.map_values(g) =~= m.take(i + 1).filter(p));
        i += 1;
    }
    assert(m.take(i as int) =~= m);
    out
}

/// The first address block, if there is one.
fn find_ip(blocks: &Vec<Block>) -> (r: Option<BlockIp>)
    ensures
        match r {
            Some(b) => ips_of(models(blocks@)).len() > 0 && b.model() == ips_of(
                models(blocks@),
            )[0],
            None => ips_of(models(blocks@)).len() == 0,
        },
{
    let ghost m = models(blocks@);
    let ghost p = |b: BlockModel| b is Ip;
    let mut i: usize = 0;
    proof {
        reveal(Seq::filter);
    }
    assert(m.take(0).filter(p) =~= Seq::<BlockModel>::empty());
    while i < blocks.len()
        invariant
            m == models(blocks@),
            p == (|b: BlockModel| b is Ip),
            i <= blocks@.len(),
            m.take(i as int).filter(p).len() == 0,
        decreases blocks@.len() - i,
    {
        proof {
            lemma_filter_step(m, i as int, p);
            assert(m[i as int] == blocks@[i as int]@);
        }
        match &blocks[i] {
            Block::Ip(b) => {
                proof {
                    assert(m =~= m.take(i + 1) + m.skip(i + 1));
                    Seq::filter_distributes_over_add(m.take(i + 1), m.skip(i + 1), p);
                }
                return Some(*b);
            },
            _ => {},
        }
        i += 1;
    }
    assert(m.take(i as int) =~= m);
    None
}

} // verus!

verus! {

/// A header with the given addresses and tag, zeroed xid and reserved field
/// and no payload.
pub open spec fn fresh_head(destination: MacAddr, source: MacAddr, ty: PnDcpTy) -> DcpHead {
    DcpHead {
        destination,
        source,
        ty,
        xid: [0u8, 0u8, 0u8, 0u8],
        reserved_or_delay: [0u8, 0u8],
        payload_len: 0,
    }
}

/// A get request: references to the options asked for.
#[derive(Debug, PartialEq, Eq)]
pub struct PacketGetReq {
    head: DcpHead,
    blocks: Vec<Block>,
}

impl View for PacketGetReq {
    type V = (DcpHead, Seq<BlockModel>);

    closed spec fn view(&self) -> (DcpHead, Seq<BlockModel>) {
        (self.head, models(self.blocks@))
    }
}

impl PacketGetReq {
    /// The header and blocks belong together as a get request.
    pub open spec fn wf(&self) -> bool {
        frame_ok(PnDcpTy::GetReq, self@.0, self@.1)
    }

    pub fn header(&self) -> (r: &DcpHead)
        ensures
            *r == self@.0,
    {
        &self.head
    }

    pub fn blocks(&self) -> (r: &Vec<Block>)
        ensures
            models(r@) == self@.1,
    {
        &self.blocks
    }

    pub fn set_xid(&mut self, xid: [u8; 4])
        requires
            old(self).wf(),
        ensures
            final(self).wf(),
            final(self)@ == (DcpHead { xid, ..old(self)@.0 }, old(self)@.1),
    {
        self.head.set_xid(xid);
    }

    pub fn set_reserved_or_delay(&mut self, reserved_or_delay: [u8; 2])
        requires
            old(self).wf(),
        ensures
            final(self).wf(),
            final(self)@ == (DcpHead { reserved_or_delay, ..old(self)@.0 }, old(self)@.1),
    {
        self.head.set_reserved_or_delay(reserved_or_delay);
    }

    /// The frame's bytes: the header, then every block.
    pub fn to_vec(&self) -> (r: Vec<u8>)
        requires
            self.wf(),
        ensures
            r@ == frame_wire(self@.0, self@.1),
    {
        frame_to_vec(&self.head, &self.blocks)
    }

    /// The get request that `value` holds.
    pub fn from_bytes(value: &[u8]) -> (r: Result<PacketGetReq, DcpError>)
        ensures
            match r {
                Ok(p) => parse_frame(PnDcpTy::GetReq, value@) == Ok::<
                    (DcpHead, Seq<BlockModel>),
                    DcpError,
                >(p@) && p.wf(),
                Err(e) => parse_frame(PnDcpTy::GetReq, value@) == Err::<
                    (DcpHead, Seq<BlockModel>),
                    DcpError,
                >(e),
            },
    {
        let (head, blocks) = decode_frame(PnDcpTy::GetReq, value)?;
        Ok(PacketGetReq { head, blocks })
    }
}

/// A get response: values, addresses and error reports.
#[derive(Debug, PartialEq, Eq)]
pub struct PacketGetResp {
    head: DcpHead,
    blocks: Vec<Block>,
}

impl View for PacketGetResp {
    type V = (DcpHead, Seq<BlockModel>);

    closed spec fn view(&self) -> (DcpHead, Seq<BlockModel>) {
        (self.head, models(self.blocks@))
    }
}

impl PacketGetResp {
    /// The header and blocks belong together as a get response.
    pub open spec fn wf(&self) -> bool {
        frame_ok(PnDcpTy::GetRespSuc, self@.0, self@.1)
    }

    pub fn header(&self) -> (r: &DcpHead)
        ensures
            *r == self@.0,
    {
        &self.head
    }

    pub fn blocks(&self) -> (r: &Vec<Block>)
        ensures
            models(r@) == self@.1,
    {
        &self.blocks
    }

    pub fn set_xid(&mut self, xid: [u8; 4])
        requires
            old(self).wf(),
        ensures
            final(self).wf(),
            final(self)@ == (DcpHead { xid, ..old(self)@.0 }, old(self)@.1),
    {
        self.head.set_xid(xid);
    }

    pub fn set_reserved_or_delay(&mut self, reserved_or_delay: [u8; 2])
        requires
            old(self).wf(),
        ensures
            final(self).wf(),
            final(self)@ == (DcpHead { reserved_or_delay, ..old(self)@.0 }, old(self)@.1),
    {
        self.head.set_reserved_or_delay(reserved_or_delay);
    }

    /// The frame's bytes: the header, then every block.
    pub fn to_vec(&self) -> (r: Vec<u8>)
        requires
            self.wf(),
        ensures
            r@ == frame_wire(self@.0, self@.1),
    {
        frame_to_vec(&self.head, &self.blocks)
    }

    /// The get response that `value` holds.
    pub fn from_bytes(value: &[u8]) -> (r: Result<PacketGetResp, DcpError>)
        ensures
            match r {
                Ok(p) => parse_frame(PnDcpTy::GetRespSuc, value@) == Ok::<
                    (DcpHead, Seq<BlockModel>),
                    DcpError,
                >(p@) && p.wf(),
                Err(e) => parse_frame(PnDcpTy::GetRespSuc, value@) == Err::<
                    (DcpHead, Seq<BlockModel>),
                    DcpError,
                >(e),
            },
    {
        let (head, blocks) = decode_frame(PnDcpTy::GetRespSuc, value)?;
        Ok(PacketGetResp { head, blocks })
    }
}

/// An identify request: the values a device must match.
#[derive(Debug, PartialEq, Eq)]
pub struct PacketIdentReq {
    head: DcpHead,
    blocks: Vec<Block>,
}

impl View for PacketIdentReq {
    type V = (DcpHead, Seq<BlockModel>);

    closed spec fn view(&self) -> (DcpHead, Seq<BlockModel>) {
        (self.head, models(self.blocks@))
    }
}

impl PacketIdentReq {
    /// The header and blocks belong together as a identify request.
    pub open spec fn wf(&self) -> bool {
        frame_ok(PnDcpTy::IdentReq, self@.0, self@.1)
    }

    pub fn header(&self) -> (r: &DcpHead)
        ensures
            *r == self@.0,
    {
        &self.head
    }

    pub fn blocks(&self) -> (r: &Vec<Block>)
        ensures
            models(r@) == self@.1,
    {
        &self.blocks
    }

    pub fn set_xid(&mut self, xid: [u8; 4])
        requires
            old(self).wf(),
        ensures
            final(self).wf(),
            final(self)@ == (DcpHead { xid, ..old(self)@.0 }, old(self)@.1),
    {
        self.head.set_xid(xid);
    }

    pub fn set_reserved_or_delay(&mut self, reserved_or_delay: [u8; 2])
        requires
            old(self).wf(),
        ensures
            final(self).wf(),
            final(self)@ == (DcpHead { reserved_or_delay, ..old(self)@.0 }, old(self)@.1),
    {
        self.head.set_reserved_or_delay(reserved_or_delay);
    }

    /// The frame's bytes: the header, then every block.
    pub fn to_vec(&self) -> (r: Vec<u8>)
        requires
            self.wf(),
        ensures
            r@ == frame_wire(self@.0, self@.1),
    {
        frame_to_vec(&self.head, &self.blocks)
    }

    /// The identify request that `value` holds.
    pub fn from_bytes(value: &[u8]) -> (r: Result<PacketIdentReq, DcpError>)
        ensures
            match r {
                Ok(p) => parse_frame(PnDcpTy::IdentReq, value@) == Ok::<
                    (DcpHead, Seq<BlockModel>),
                    DcpError,
                >(p@) && p.wf(),
                Err(e) => parse_frame(PnDcpTy::IdentReq, value@) == Err::<
                    (DcpHead, Seq<BlockModel>),
                    DcpError,
                >(e),
            },
    {
        let (head, blocks) = decode_frame(PnDcpTy::IdentReq, value)?;
        Ok(PacketIdentReq { head, blocks })
    }
}

/// An identify response: the values of a device.
#[derive(Debug, PartialEq, Eq)]
pub struct PacketIdentResp {
    head: DcpHead,
    blocks: Vec<Block>,
}

impl View for PacketIdentResp {
    type V = (DcpHead, Seq<BlockModel>);

    closed spec fn view(&self) -> (DcpHead, Seq<BlockModel>) {
        (self.head, models(self.blocks@))
    }
}

impl PacketIdentResp {
    /// The header and blocks belong together as a identify response.
    pub open spec fn wf(&self) -> bool {
        frame_ok(PnDcpTy::IdentRespSuc, self@.0, self@.1)
    }

    pub fn header(&self) -> (r: &DcpHead)
        ensures
            *r == self@.0,
    {
        &self.head
    }

    pub fn blocks(&self) -> (r: &Vec<Block>)
        ensures
            models(r@) == self@.1,
    {
        &self.blocks
    }

    pub fn set_xid(&mut self, xid: [u8; 4])
        requires
            old(self).wf(),
        ensures
            final(self).wf(),
            final(self)@ == (DcpHead { xid, ..old(self)@.0 }, old(self)@.1),
    {
        self.head.set_xid(xid);
    }

    pub fn set_reserved_or_delay(&mut self, reserved_or_delay: [u8; 2])
        requires
            old(self).wf(),
        ensures
            final(self).wf(),
            final(self)@ == (DcpHead { reserved_or_delay, ..old(self)@.0 }, old(self)@.1),
    {
        self.head.set_reserved_or_delay(reserved_or_delay);
    }

    /// The frame's bytes: the header, then every block.
    pub fn to_vec(&self) -> (r: Vec<u8>)
        requires
            self.wf(),
        ensures
            r@ == frame_wire(self@.0, self@.1),
    {
        frame_to_vec(&self.head, &self.blocks)
    }

    /// The identify response that `value` holds.
    pub fn from_bytes(value: &[u8]) -> (r: Result<PacketIdentResp, DcpError>)
        ensures
            match r {
                Ok(p) => parse_frame(PnDcpTy::IdentRespSuc, value@) == Ok::<
                    (DcpHead, Seq<BlockModel>),
                    DcpError,
                >(p@) && p.wf(),
                Err(e) => parse_frame(PnDcpTy::IdentRespSuc, value@) == Err::<
                    (DcpHead, Seq<BlockModel>),
                    DcpError,
                >(e),
            },
    {
        let (head, blocks) = decode_frame(PnDcpTy::IdentRespSuc, value)?;
        Ok(PacketIdentResp { head, blocks })
    }
}

/// A set request: values to store, each with its qualifier.
#[derive(Debug, PartialEq, Eq)]
pub struct PacketSetReq {
    head: DcpHead,
    blocks: Vec<Block>,
}

impl View for PacketSetReq {
    type V = (DcpHead, Seq<BlockModel>);

    closed spec fn view(&self) -> (DcpHead, Seq<BlockModel>) {
        (self.head, models(self.blocks@))
    }
}

impl PacketSetReq {
    /// The header and blocks belong together as a set request.
    pub open spec fn wf(&self) -> bool {
        frame_ok(PnDcpTy::SetReq, self@.0, self@.1)
    }

    pub fn header(&self) -> (r: &DcpHead)
        ensures
            *r == self@.0,
    {
        &self.head
    }

    pub fn blocks(&self) -> (r: &Vec<Block>)
        ensures
            models(r@) == self@.1,
    {
        &self.blocks
    }

    pub fn set_xid(&mut self, xid: [u8; 4])
        requires
            old(self).wf(),
        ensures
            final(self).wf(),
            final(self)@ == (DcpHead { xid, ..old(self)@.0 }, old(self)@.1),
    {
        self.head.set_xid(xid);
    }

    pub fn set_reserved_or_delay(&mut self, reserved_or_delay: [u8; 2])
        requires
            old(self).wf(),
        ensures
            final(self).wf(),
            final(self)@ == (DcpHead { reserved_or_delay, ..old(self)@.0 }, old(self)@.1),
    {
        self.head.set_reserved_or_delay(reserved_or_delay);
    }

    /// The frame's bytes: the header, then every block.
    pub fn to_vec(&self) -> (r: Vec<u8>)
        requires
            self.wf(),
        ensures
            r@ == frame_wire(self@.0, self@.1),
    {
        frame_to_vec(&self.head, &self.blocks)
    }

    /// The set request that `value` holds.
    pub fn from_bytes(value: &[u8]) -> (r: Result<PacketSetReq, DcpError>)
        ensures
            match r {
                Ok(p) => parse_frame(PnDcpTy::SetReq, value@) == Ok::<
                    (DcpHead, Seq<BlockModel>),
                    DcpError,
                >(p@) && p.wf(),
                Err(e) => parse_frame(PnDcpTy::SetReq, value@) == Err::<
                    (DcpHead, Seq<BlockModel>),
                    DcpError,
                >(e),
            },
    {
        let (head, blocks) = decode_frame(PnDcpTy::SetReq, value)?;
        Ok(PacketSetReq { head, blocks })
    }
}

/// A set response: one report for each value set.
#[derive(Debug, PartialEq, Eq)]
pub struct PacketSetResp {
    head: DcpHead,
    blocks: Vec<Block>,
}

impl View for PacketSetResp {
    type V = (DcpHead, Seq<BlockModel>);

    closed spec fn view(&self) -> (DcpHead, Seq<BlockModel>) {
        (self.head, models(self.blocks@))
    }
}

impl PacketSetResp {
    /// The header and blocks belong together as a set response.
    pub open spec fn wf(&self) -> bool {
        frame_ok(PnDcpTy::SetRespSuc, self@.0, self@.1)
    }

    pub fn header(&self) -> (r: &DcpHead)
        ensures
            *r == self@.0,
    {
        &self.head
    }

    pub fn blocks(&self) -> (r: &Vec<Block>)
        ensures
            models(r@) == self@.1,
    {
        &self.blocks
    }

    pub fn set_xid(&mut self, xid: [u8; 4])
        requires
            old(self).wf(),
        ensures
            final(self).wf(),
            final(self)@ == (DcpHead { xid, ..old(self)@.0 }, old(self)@.1),
    {
        self.head.set_xid(xid);
    }

    pub fn set_reserved_or_delay(&mut self, reserved_or_delay: [u8; 2])
        requires
            old(self).wf(),
        ensures
            final(self).wf(),
            final(self)@ == (DcpHead { reserved_or_delay, ..old(self)@.0 }, old(self)@.1),
    {
        self.head.set_reserved_or_delay(reserved_or_delay);
    }

    /// The frame's bytes: the header, then every block.
    pub fn to_vec(&self) -> (r: Vec<u8>)
        requires
            self.wf(),
        ensures
            r@ == frame_wire(self@.0, self@.1),
    {
        frame_to_vec(&self.head, &self.blocks)
    }

    /// The set response that `value` holds.
    pub fn from_bytes(value: &[u8]) -> (r: Result<PacketSetResp, DcpError>)
        ensures
            match r {
                Ok(p) => parse_frame(PnDcpTy::SetRespSuc, value@) == Ok::<
                    (DcpHead, Seq<BlockModel>),
                    DcpError,
                >(p@) && p.wf(),
                Err(e) => parse_frame(PnDcpTy::SetRespSuc, value@) == Err::<
                    (DcpHead, Seq<BlockModel>),
                    DcpError,
                >(e),
            },
    {
        let (head, blocks) = decode_frame(PnDcpTy::SetRespSuc, value)?;
        Ok(PacketSetResp { head, blocks })
    }
}

} // verus!
verus! {

/// `after` is `before` with `b`, and its padding when `b`'s length is odd,
/// appended, and its payload length grown by their bytes.
pub open spec fn appended(
    before: (DcpHead, Seq<BlockModel>),
    after: (DcpHead, Seq<BlockModel>),
    b: BlockModel,
) -> bool {
    &&& after.1 == before.1 + unit(b)
    &&& after.0 == (DcpHead {
        payload_len: (before.0.payload_len + list_wire(unit(b)).len()) as u16,
        ..before.0
    })
}

/// Appending `b` to well-formed blocks of `kind` keeps them well formed when
/// `b` is allowed there.
pub open spec fn keeps_wf(
    kind: PnDcpTy,
    before: Seq<BlockModel>,
    after: Seq<BlockModel>,
    b: BlockModel,
) -> bool {
    list_wf(kind, before) && b.allowed(kind) ==> list_wf(kind, after)
}

/// The payload length stays within its two bytes once `b` is appended.
pub open spec fn room_for(h: DcpHead, b: BlockModel) -> bool {
    h.payload_len + list_wire(unit(b)).len() <= 0xffff
}

proof fn lemma_unit_len(b: BlockModel)
    ensures
        list_wire(unit(b)).len() >= b.wire().len(),
        b.wire().len() >= 4 + b.declared() || b is OptionRef || b is Padding,
{
    crate::block::lemma_list_wire_one(b);
    if b.wire().len() % 2 == 1 {
        lemma_list_wire_concat(seq![b], seq![BlockModel::Padding]);
        assert(seq![b, BlockModel::Padding] =~= seq![b] + seq![BlockModel::Padding]);
    }
}

proof fn lemma_empty_frame(kind: PnDcpTy, h: DcpHead, v: Seq<Block>)
    requires
        h.ty == kind,
        h.payload_len == 0,
        v.len() == 0,
    ensures
        frame_ok(kind, h, models(v)),
        models(v) == Seq::<BlockModel>::empty(),
        list_wf(kind, models(v)),
{
    assert(models(v) =~= Seq::<BlockModel>::empty());
    assert(list_wire(Seq::<BlockModel>::empty()) == Seq::<u8>::empty());
}

impl PacketGetReq {
    pub fn new(source: MacAddr, dest: MacAddr) -> (r: PacketGetReq)
        ensures
            r.wf(),
            list_wf(PnDcpTy::GetReq, r@.1),
            r@ == (fresh_head(dest, source, PnDcpTy::GetReq), Seq::<BlockModel>::empty()),
    {
        let head = DcpHead::new(dest, source, PnDcpTy::GetReq);
        let blocks: Vec<Block> = Vec::new();
        proof {
            lemma_empty_frame(PnDcpTy::GetReq, head, blocks@);
        }
        PacketGetReq { head, blocks }
    }

    /// Appends a reference to `option`.
    pub fn append_block(&mut self, option: OptionAndSub)
        requires
            old(self).wf(),
            room_for(old(self)@.0, BlockModel::OptionRef(option)),
        ensures
            final(self).wf(),
            appended(old(self)@, final(self)@, BlockModel::OptionRef(option)),
            keeps_wf(PnDcpTy::GetReq, old(self)@.1, final(self)@.1, BlockModel::OptionRef(option)),
    {
        push_unit(&mut self.head, &mut self.blocks, Block::OptionRef(BlockOptionAndSub(option)));
    }

    /// The option codes asked for, in order.
    pub fn options(&self) -> (r: Vec<OptionAndSub>)
        ensures
            r@ == refs_of(self@.1),
    {
        collect_refs(&self.blocks)
    }
}

impl PacketGetResp {
    pub fn new(source: MacAddr, dest: MacAddr) -> (r: PacketGetResp)
        ensures
            r.wf(),
            list_wf(PnDcpTy::GetRespSuc, r@.1),
            r@ == (fresh_head(dest, source, PnDcpTy::GetRespSuc), Seq::<BlockModel>::empty()),
    {
        let head = DcpHead::new(dest, source, PnDcpTy::GetRespSuc);
        let blocks: Vec<Block> = Vec::new();
        proof {
            lemma_empty_frame(PnDcpTy::GetRespSuc, head, blocks@);
        }
        PacketGetResp { head, blocks }
    }

    pub fn append_block_ip(&mut self, ip: InnerIpAddr, info: IpBlockInfo)
        requires
            old(self).wf(),
            room_for(old(self)@.0, BlockModel::Ip(ip, info)),
        ensures
            final(self).wf(),
            appended(old(self)@, final(self)@, BlockModel::Ip(ip, info)),
            keeps_wf(PnDcpTy::GetRespSuc, old(self)@.1, final(self)@.1, BlockModel::Ip(ip, info)),
    {
        push_unit(&mut self.head, &mut self.blocks, Block::Ip(BlockIp { ip, info }));
    }

    pub fn append_block_common(&mut self, option: OptionAndSubValue, info: BlockInfo)
        requires
            old(self).wf(),
            room_for(old(self)@.0, BlockModel::Common(option@, info)),
        ensures
            final(self).wf(),
            appended(old(self)@, final(self)@, BlockModel::Common(option@, info)),
            keeps_wf(PnDcpTy::GetRespSuc, old(self)@.1, final(self)@.1, BlockModel::Common(option@, info)),
    {
        proof {
            lemma_unit_len(BlockModel::Common(option@, info));
        }
        push_unit(&mut self.head, &mut self.blocks, Block::Common(BlockCommon { option, info }));
    }

    pub fn append_block_resp(&mut self, option: OptionAndSub, error: BlockError)
        requires
            old(self).wf(),
            room_for(old(self)@.0, BlockModel::Response(crate::options::Response(option, error))),
        ensures
            final(self).wf(),
            appended(
                old(self)@,
                final(self)@,
                BlockModel::Response(crate::options::Response(option, error)),
            ),
            keeps_wf(PnDcpTy::GetRespSuc, old(self)@.1, final(self)@.1, BlockModel::Response(crate::options::Response(option, error))),
    {
        push_unit(&mut self.head, &mut self.blocks, Block::Response(BlockResp(option, error)));
    }

    /// The first address block, if any.
    pub fn block_ip(&self) -> (r: Option<BlockIp>)
        ensures
            match r {
                Some(b) => ips_of(self@.1).len() > 0 && b.model() == ips_of(self@.1)[0],
                None => ips_of(self@.1).len() == 0,
            },
    {
        find_ip(&self.blocks)
    }

    /// The common blocks, in order.
    pub fn block_commons(&self) -> (r: Vec<BlockCommon>)
        ensures
            r@.map_values(|c: BlockCommon| c.model()) == commons_of(self@.1),
    {
        collect_commons(&self.blocks)
    }

    /// The response blocks, in order.
    pub fn block_resps(&self) -> (r: Vec<BlockResp>)
        ensures
            r@.map_values(|c: BlockResp| c.model()) == resps_of(self@.1),
    {
        collect_resps(&self.blocks)
    }
}

/// The multicast address identify requests go to.
pub open spec fn ident_multicast() -> MacAddr {
    MacAddr(0x01, 0x0e, 0xcf, 0x00, 0x00, 0x00)
}

impl PacketIdentReq {
    /// A request from `source` to the identify multicast address.
    pub fn new(source: MacAddr) -> (r: PacketIdentReq)
        ensures
            r.wf(),
            list_wf(PnDcpTy::IdentReq, r@.1),
            r@ == (fresh_head(ident_multicast(), source, PnDcpTy::IdentReq), Seq::<
                BlockModel,
            >::empty()),
    {
        let destination = MacAddr::new(0x01, 0x0e, 0xcf, 0x00, 0x00, 0x00);
        let head = DcpHead::new(destination, source, PnDcpTy::IdentReq);
        let blocks: Vec<Block> = Vec::new();
        proof {
            lemma_empty_frame(PnDcpTy::IdentReq, head, blocks@);
        }
        PacketIdentReq { head, blocks }
    }

    /// Appends a filter value.
    pub fn append_block_by_option(&mut self, option: OptionAndSubValue)
        requires
            old(self).wf(),
            room_for(old(self)@.0, BlockModel::CommonWithoutInfo(option@)),
        ensures
            final(self).wf(),
            appended(old(self)@, final(self)@, BlockModel::CommonWithoutInfo(option@)),
            keeps_wf(PnDcpTy::IdentReq, old(self)@.1, final(self)@.1, BlockModel::CommonWithoutInfo(option@)),
    {
        proof {
            lemma_unit_len(BlockModel::CommonWithoutInfo(option@));
        }
        push_unit(
            &mut self.head,
            &mut self.blocks,
            Block::CommonWithoutInfo(BlockCommonWithoutInfo(option)),
        );
    }

    /// The bytes of the first manufacturer-specific filter value, if any.
    pub fn get_manufacturer_pecific_block(&self) -> (r: Option<BytesWrap>)
        ensures
            match r {
                Some(b) => manufacturer_of(self@.1).len() > 0 && manufacturer_of(self@.1)[0]
                    == BlockModel::CommonWithoutInfo(ValueModel::ManufacturerSpecific(b@)),
                None => manufacturer_of(self@.1).len() == 0,
            },
    {
        let ghost m = self@.1;
        let ghost p = |b: BlockModel| is_manufacturer(b);
        let mut i: usize = 0;
        proof {
            reveal(Seq::filter);
        }
        assert(m.take(0).filter(p) =~= Seq::<BlockModel>::empty());
        while i < self.blocks.len()
            invariant
                m == models(self.blocks@),
                p == (|b: BlockModel| is_manufacturer(b)),
                i <= self.blocks@.len(),
                m.take(i as int).filter(p).len() == 0,
            decreases self.blocks@.len() - i,
        {
            proof {
                lemma_filter_step(m, i as int, p);
                assert(m[i as int] == self.blocks@[i as int]@);
            }
            match &self.blocks[i] {
                Block::CommonWithoutInfo(BlockCommonWithoutInfo(
                    OptionAndSubValue::ManufacturerSpecific(data),
                )) => {
                    proof {
                        assert(m =~= m.take(i + 1) + m.skip(i + 1));
                        Seq::filter_distributes_over_add(m.take(i + 1), m.skip(i + 1), p);
                    }
                    return Some(data.clone());
                },
                _ => {},
            }
            i += 1;
        }
        assert(m.take(i as int) =~= m);
        None
    }

    /// The filter values, in order.
    pub fn options(&self) -> (r: Vec<OptionAndSubValue>)
        ensures
            r@.map_values(|v: OptionAndSubValue| v@) == values_of(self@.1),
    {
        collect_values(&self.blocks)
    }
}

impl PacketIdentResp {
    pub fn new(source: MacAddr, dest: MacAddr) -> (r: PacketIdentResp)
        ensures
            r.wf(),
            list_wf(PnDcpTy::IdentRespSuc, r@.1),
            r@ == (fresh_head(dest, source, PnDcpTy::IdentRespSuc), Seq::<BlockModel>::empty()),
    {
        let head = DcpHead::new(dest, source, PnDcpTy::IdentRespSuc);
        let blocks: Vec<Block> = Vec::new();
        proof {
            lemma_empty_frame(PnDcpTy::IdentRespSuc, head, blocks@);
        }
        PacketIdentResp { head, blocks }
    }

    /// An empty response from `source` to the sender of `ident_req`, with its xid.
    pub fn from_req(source: MacAddr, ident_req: &PacketIdentReq) -> (r: PacketIdentResp)
        ensures
            r.wf(),
            list_wf(PnDcpTy::IdentRespSuc, r@.1),
            r@ == (DcpHead {
                xid: ident_req@.0.xid,
                ..fresh_head(ident_req@.0.source, source, PnDcpTy::IdentRespSuc)
            }, Seq::<BlockModel>::empty()),
    {
        let req_head = ident_req.header();
        let mut head = DcpHead::new(req_head.source, source, PnDcpTy::IdentRespSuc);
        head.set_xid(req_head.xid);
        let blocks: Vec<Block> = Vec::new();
        proof {
            lemma_empty_frame(PnDcpTy::IdentRespSuc, head, blocks@);
        }
        PacketIdentResp { head, blocks }
    }

    pub fn append_block_ip(&mut self, ip: InnerIpAddr, info: IpBlockInfo)
        requires
            old(self).wf(),
            room_for(old(self)@.0, BlockModel::Ip(ip, info)),
        ensures
            final(self).wf(),
            appended(old(self)@, final(self)@, BlockModel::Ip(ip, info)),
            keeps_wf(PnDcpTy::IdentRespSuc, old(self)@.1, final(self)@.1, BlockModel::Ip(ip, info)),
    {
        push_unit(&mut self.head, &mut self.blocks, Block::Ip(BlockIp { ip, info }));
    }

    pub fn append_block_common(&mut self, option: OptionAndSubValue, info: BlockInfo)
        requires
            old(self).wf(),
            room_for(old(self)@.0, BlockModel::Common(option@, info)),
        ensures
            final(self).wf(),
            appended(old(self)@, final(self)@, BlockModel::Common(option@, info)),
            keeps_wf(PnDcpTy::IdentRespSuc, old(self)@.1, final(self)@.1, BlockModel::Common(option@, info)),
    {
        proof {
            lemma_unit_len(BlockModel::Common(option@, info));
        }
        push_unit(&mut self.head, &mut self.blocks, Block::Common(BlockCommon { option, info }));
    }

    /// Appends `option` with the reserved info.
    pub fn append_block_common_default(&mut self, option: OptionAndSubValue)
        requires
            old(self).wf(),
            room_for(old(self)@.0, BlockModel::Common(option@, BlockInfo::Reserved)),
        ensures
            final(self).wf(),
            appended(old(self)@, final(self)@, BlockModel::Common(option@, BlockInfo::Reserved)),
            keeps_wf(PnDcpTy::IdentRespSuc, old(self)@.1, final(self)@.1, BlockModel::Common(option@, BlockInfo::Reserved)),
    {
        self.append_block_common(option, BlockInfo::Reserved);
    }

    /// The first address block, if any.
    pub fn block_ip(&self) -> (r: Option<BlockIp>)
        ensures
            match r {
                Some(b) => ips_of(self@.1).len() > 0 && b.model() == ips_of(self@.1)[0],
                None => ips_of(self@.1).len() == 0,
            },
    {
        find_ip(&self.blocks)
    }

    /// The common blocks, in order.
    pub fn block_commons(&self) -> (r: Vec<BlockCommon>)
        ensures
            r@.map_values(|c: BlockCommon| c.model()) == commons_of(self@.1),
    {
        collect_commons(&self.blocks)
    }
}

impl PacketIdentResp {
    pub fn append_block_resp(&mut self, option: OptionAndSub, error: BlockError)
        requires
            old(self).wf(),
            room_for(old(self)@.0, BlockModel::Response(crate::options::Response(option, error))),
        ensures
            final(self).wf(),
            appended(
                old(self)@,
                final(self)@,
                BlockModel::Response(crate::options::Response(option, error)),
            ),
            keeps_wf(
                PnDcpTy::IdentRespSuc,
                old(self)@.1,
                final(self)@.1,
                BlockModel::Response(crate::options::Response(option, error)),
            ),
    {
        push_unit(&mut self.head, &mut self.blocks, Block::Response(BlockResp(option, error)));
    }

    /// The response blocks, in order.
    pub fn block_resps(&self) -> (r: Vec<BlockResp>)
        ensures
            r@.map_values(|c: BlockResp| c.model()) == resps_of(self@.1),
    {
        collect_resps(&self.blocks)
    }
}

impl InnerIpAddr {
    pub fn append_to_ident_resp(self, packet: &mut PacketIdentResp, info: IpBlockInfo)
        requires
            old(packet).wf(),
            room_for(old(packet)@.0, BlockModel::Ip(self, info)),
        ensures
            final(packet).wf(),
            appended(old(packet)@, final(packet)@, BlockModel::Ip(self, info)),
            keeps_wf(PnDcpTy::IdentRespSuc, old(packet)@.1, final(packet)@.1, BlockModel::Ip(self, info)),
    {
        packet.append_block_ip(self, info)
    }
}

impl OptionAndSubValue {
    pub fn append_to_ident_resp_default(self, packet: &mut PacketIdentResp)
        requires
            old(packet).wf(),
            room_for(old(packet)@.0, BlockModel::Common(self@, BlockInfo::Reserved)),
        ensures
            final(packet).wf(),
            appended(old(packet)@, final(packet)@, BlockModel::Common(self@, BlockInfo::Reserved)),
            keeps_wf(PnDcpTy::IdentRespSuc, old(packet)@.1, final(packet)@.1, BlockModel::Common(self@, BlockInfo::Reserved)),
    {
        packet.append_block_common_default(self);
    }

    pub fn append_to_ident_resp(self, packet: &mut PacketIdentResp, info: BlockInfo)
        requires
            old(packet).wf(),
            room_for(old(packet)@.0, BlockModel::Common(self@, info)),
        ensures
            final(packet).wf(),
            appended(old(packet)@, final(packet)@, BlockModel::Common(self@, info)),
            keeps_wf(PnDcpTy::IdentRespSuc, old(packet)@.1, final(packet)@.1, BlockModel::Common(self@, info)),
    {
        packet.append_block_common(self, info);
    }
}

impl PacketSetReq {
    /// A request that sets one value.
    pub fn new(
        source: MacAddr,
        dest: MacAddr,
        option: OptionAndSubValue,
        qualifier: BlockQualifier,
    ) -> (r: PacketSetReq)
        requires
            room_for(fresh_head(dest, source, PnDcpTy::SetReq), BlockModel::SetValue(option@, qualifier)),
        ensures
            r.wf(),
            appended(
                (fresh_head(dest, source, PnDcpTy::SetReq), Seq::<BlockModel>::empty()),
                r@,
                BlockModel::SetValue(option@, qualifier),
            ),
            BlockModel::SetValue(option@, qualifier).allowed(PnDcpTy::SetReq) ==> list_wf(
                PnDcpTy::SetReq,
                r@.1,
            ),
    {
        let head = DcpHead::new(dest, source, PnDcpTy::SetReq);
        let blocks: Vec<Block> = Vec::new();
        proof {
            lemma_empty_frame(PnDcpTy::SetReq, head, blocks@);
        }
        let mut packet = PacketSetReq { head, blocks };
        packet.append_block_set(option, qualifier);
        packet
    }

    pub fn append_block_set(&mut self, option: OptionAndSubValue, qualifier: BlockQualifier)
        requires
            old(self).wf(),
            room_for(old(self)@.0, BlockModel::SetValue(option@, qualifier)),
        ensures
            final(self).wf(),
            appended(old(self)@, final(self)@, BlockModel::SetValue(option@, qualifier)),
            keeps_wf(PnDcpTy::SetReq, old(self)@.1, final(self)@.1, BlockModel::SetValue(option@, qualifier)),
    {
        proof {
            lemma_unit_len(BlockModel::SetValue(option@, qualifier));
        }
        push_unit(&mut self.head, &mut self.blocks, Block::SetValue(BlockSet { option, qualifier }));
    }
}

impl PacketSetResp {
    /// A response that reports on one option.
    pub fn new(source: MacAddr, dest: MacAddr, option: OptionAndSub, error: BlockError) -> (r:
        PacketSetResp)
        ensures
            r.wf(),
            appended(
                (fresh_head(dest, source, PnDcpTy::SetRespSuc), Seq::<BlockModel>::empty()),
                r@,
                BlockModel::Response(crate::options::Response(option, error)),
            ),
            BlockModel::Response(crate::options::Response(option, error)).allowed(
                PnDcpTy::SetRespSuc,
            ) ==> list_wf(PnDcpTy::SetRespSuc, r@.1),
    {
        let head = DcpHead::new(dest, source, PnDcpTy::SetRespSuc);
        let blocks: Vec<Block> = Vec::new();
        proof {
            lemma_empty_frame(PnDcpTy::SetRespSuc, head, blocks@);
            lemma_unit_len(BlockModel::Response(crate::options::Response(option, error)));
            crate::block::lemma_list_wire_one(BlockModel::Response(crate::options::Response(option, error)));
            let b = BlockModel::Response(crate::options::Response(option, error));
            lemma_list_wire_concat(seq![b], seq![BlockModel::Padding]);
            crate::block::lemma_list_wire_one(BlockModel::Padding);
            assert(b.wire().len() == 7);
            assert(unit(b) =~= seq![b] + seq![BlockModel::Padding]);
        }
        let mut packet = PacketSetResp { head, blocks };
        packet.append_block_resp(option, error);
        packet
    }

    pub fn append_block_resp(&mut self, option: OptionAndSub, error: BlockError)
        requires
            old(self).wf(),
            room_for(old(self)@.0, BlockModel::Response(crate::options::Response(option, error))),
        ensures
            final(self).wf(),
            appended(
                old(self)@,
                final(self)@,
                BlockModel::Response(crate::options::Response(option, error)),
            ),
            keeps_wf(PnDcpTy::SetRespSuc, old(self)@.1, final(self)@.1, BlockModel::Response(crate::options::Response(option, error))),
    {
        push_unit(&mut self.head, &mut self.blocks, Block::Response(BlockResp(option, error)));
    }

    /// The response blocks, in order.
    pub fn block_resps(&self) -> (r: Vec<BlockResp>)
        ensures
            r@.map_values(|c: BlockResp| c.model()) == resps_of(self@.1),
    {
        collect_resps(&self.blocks)
    }

    pub fn append_block_common(&mut self, option: OptionAndSubValue, info: BlockInfo)
        requires
            old(self).wf(),
            room_for(old(self)@.0, BlockModel::Common(option@, info)),
        ensures
            final(self).wf(),
            appended(old(self)@, final(self)@, BlockModel::Common(option@, info)),
            keeps_wf(PnDcpTy::SetRespSuc, old(self)@.1, final(self)@.1, BlockModel::Common(option@, info)),
    {
        proof {
            lemma_unit_len(BlockModel::Common(option@, info));
        }
        push_unit(&mut self.head, &mut self.blocks, Block::Common(BlockCommon { option, info }));
    }

    /// The common blocks, in order.
    pub fn block_commons(&self) -> (r: Vec<BlockCommon>)
        ensures
            r@.map_values(|c: BlockCommon| c.model()) == commons_of(self@.1),
    {
        collect_commons(&self.blocks)
    }
}

} // verus!
verus! {

/// A decoded frame of any of the six packet kinds.
#[derive(Debug, PartialEq, Eq)]
pub enum DcpPacket {
    IdentReq(PacketIdentReq),
    IdentResp(PacketIdentResp),
    GetReq(PacketGetReq),
    GetResp(PacketGetResp),
    SetReq(PacketSetReq),
    SetResp(PacketSetResp),
}

/// The message types that a packet kind exists for.
pub open spec fn is_packet_kind(ty: PnDcpTy) -> bool {
    ty == PnDcpTy::IdentReq || ty == PnDcpTy::IdentRespSuc || ty == PnDcpTy::GetReq || ty
        == PnDcpTy::GetRespSuc || ty == PnDcpTy::SetReq || ty == PnDcpTy::SetRespSuc
}

impl DcpPacket {
    /// The message type and the header and blocks of the packet.
    pub open spec fn model(&self) -> (PnDcpTy, (DcpHead, Seq<BlockModel>)) {
        match self {
            DcpPacket::IdentReq(p) => (PnDcpTy::IdentReq, p@),
            DcpPacket::IdentResp(p) => (PnDcpTy::IdentRespSuc, p@),
            DcpPacket::GetReq(p) => (PnDcpTy::GetReq, p@),
            DcpPacket::GetResp(p) => (PnDcpTy::GetRespSuc, p@),
            DcpPacket::SetReq(p) => (PnDcpTy::SetReq, p@),
            DcpPacket::SetResp(p) => (PnDcpTy::SetRespSuc, p@),
        }
    }

    /// The packet that `value` holds, of the kind its tag names; a tag with no
    /// packet kind fails with `WrongKind`.
    pub fn from_bytes(value: &[u8]) -> (r: Result<DcpPacket, DcpError>)
        ensures
            match parse_head(value@) {
                Err(e) => r == Err::<DcpPacket, DcpError>(e),
                Ok(h) => if !is_packet_kind(h.ty) {
                    r == Err::<DcpPacket, DcpError>(DcpError::WrongKind)
                } else {
                    match r {
                        Ok(p) => p.model().0 == h.ty && parse_frame(h.ty, value@) == Ok::<
                            (DcpHead, Seq<BlockModel>),
                            DcpError,
                        >(p.model().1),
                        Err(e) => parse_frame(h.ty, value@) == Err::<
                            (DcpHead, Seq<BlockModel>),
                            DcpError,
                        >(e),
                    }
                },
            },
    {
        let head = DcpHead::decode(value)?;
        match head.ty {
            PnDcpTy::IdentReq => Ok(DcpPacket::IdentReq(PacketIdentReq::from_bytes(value)?)),
            PnDcpTy::IdentRespSuc => Ok(DcpPacket::IdentResp(PacketIdentResp::from_bytes(value)?)),
            PnDcpTy::GetReq => Ok(DcpPacket::GetReq(PacketGetReq::from_bytes(value)?)),
            PnDcpTy::GetRespSuc => Ok(DcpPacket::GetResp(PacketGetResp::from_bytes(value)?)),
            PnDcpTy::SetReq => Ok(DcpPacket::SetReq(PacketSetReq::from_bytes(value)?)),
            PnDcpTy::SetRespSuc => Ok(DcpPacket::SetResp(PacketSetResp::from_bytes(value)?)),
            _ => Err(DcpError::WrongKind),
        }
    }

    pub fn is_set_req(&self) -> (r: bool)
        ensures
            r == (self is SetReq),
    {
        match self {
            DcpPacket::SetReq(_) => true,
            _ => false,
        }
    }

    pub fn is_set_resp(&self) -> (r: bool)
        ensures
            r == (self is SetResp),
    {
        match self {
            DcpPacket::SetResp(_) => true,
            _ => false,
        }
    }

    pub fn is_get_resp(&self) -> (r: bool)
        ensures
            r == (self is GetResp),
    {
        match self {
            DcpPacket::GetResp(_) => true,
            _ => false,
        }
    }

    pub fn is_get_req(&self) -> (r: bool)
        ensures
            r == (self is GetReq),
    {
        match self {
            DcpPacket::GetReq(_) => true,
            _ => false,
        }
    }

    pub fn is_ident_resp(&self) -> (r: bool)
        ensures
            r == (self is IdentResp),
    {
        match self {
            DcpPacket::IdentResp(_) => true,
            _ => false,
        }
    }

    pub fn is_ident_req(&self) -> (r: bool)
        ensures
            r == (self is IdentReq),
    {
        match self {
            DcpPacket::IdentReq(_) => true,
            _ => false,
        }
    }
}

} // verus!
