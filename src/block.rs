use vstd::prelude::*;

use crate::comm::{be16, from_be16, lemma_be16_from, lemma_from_be16, BytesWrap, DcpError};
use crate::options::{
    block_info_of, block_qualifier_of, ip_block_info_of, lemma_option_round_trip,
    lemma_small_fields, lemma_value_round_trip, option_of, parse_value, response_of, BlockError,
    BlockInfo, BlockQualifier, InnerIpAddr, IpBlockInfo, OptionAndSub, OptionAndSubValue,
    Response, ValueModel,
};
use crate::packet::PnDcpTy;

verus! {

/// What a block holds, with values as their models.
pub enum BlockModel {
    OptionRef(OptionAndSub),
    Common(ValueModel, BlockInfo),
    CommonWithoutInfo(ValueModel),
    Ip(InnerIpAddr, IpBlockInfo),
    SetValue(ValueModel, BlockQualifier),
    Response(Response),
    Padding,
}

/// The largest value of a two-byte length field.
pub const MAX_BLOCK_LEN: usize = 0xffff;

impl BlockModel {
    /// The block's bytes on the wire (a padding byte is a block of its own).
    pub open spec fn wire(self) -> Seq<u8> {
        match self {
            BlockModel::OptionRef(c) => c.wire(),
            BlockModel::Common(v, info) => v.code().wire() + be16(v.bytes().len() + 2)
                + info.bytes() + v.bytes(),
            BlockModel::CommonWithoutInfo(v) => v.code().wire() + be16(v.bytes().len())
                + v.bytes(),
            BlockModel::Ip(ip, info) => OptionAndSub::IpAddr.wire() + be16(14) + info.bytes()
                + ip.bytes(),
            BlockModel::SetValue(v, q) => v.code().wire() + be16(v.bytes().len() + 2) + q.bytes()
                + v.bytes(),
            BlockModel::Response(r) => OptionAndSub::Response.wire() + be16(3) + r.bytes(),
            BlockModel::Padding => seq![0u8],
        }
    }

    /// The value of the block's length field (none for a bare reference or padding).
    pub open spec fn declared(self) -> nat {
        match self {
            BlockModel::OptionRef(_) => 0,
            BlockModel::Common(v, _) => v.bytes().len() + 2,
            BlockModel::CommonWithoutInfo(v) => v.bytes().len(),
            BlockModel::Ip(_, _) => 14,
            BlockModel::SetValue(v, _) => v.bytes().len() + 2,
            BlockModel::Response(_) => 3,
            BlockModel::Padding => 0,
        }
    }

    /// The length field can hold what the block declares.
    pub open spec fn sized(self) -> bool {
        self.declared() <= MAX_BLOCK_LEN
    }

    /// The block may stand, as a block of its own, in a packet of `kind`, and
    /// decodes back to itself there.
    pub open spec fn allowed(self, kind: PnDcpTy) -> bool {
        &&& self.sized()
        &&& match kind {
            PnDcpTy::GetReq => self matches BlockModel::OptionRef(c) && c.canonical(),
            PnDcpTy::IdentReq => self matches BlockModel::CommonWithoutInfo(v) && v.canonical(),
            PnDcpTy::SetReq => self matches BlockModel::SetValue(v, q) && v.canonical()
                && q.canonical(),
            _ => match self {
                BlockModel::Ip(_, info) => info.canonical(),
                BlockModel::Response(r) => r.canonical(),
                BlockModel::Common(v, info) => v.canonical() && info.canonical() && v.code()
                    != OptionAndSub::IpAddr && v.code() != OptionAndSub::Response,
                _ => false,
            },
        }
    }
}

/// The block that starts `s` in a packet of `kind`, with the number of bytes
/// it takes (the padding byte after it not counted).
///
/// A get request holds bare references; an identify request holds info-less
/// blocks and a set request qualified blocks, whatever their code. In the
/// other kinds the address code gives an address block, the response code a
/// response block, and any other code a common block.
#[verifier::opaque]
pub open spec fn parse_block(kind: PnDcpTy, s: Seq<u8>) -> Result<(BlockModel, nat), DcpError> {
    if kind == PnDcpTy::GetReq {
        if s.len() < 2 {
            Err(DcpError::Truncated)
        } else {
            Ok((BlockModel::OptionRef(option_of(s[0], s[1])), 2))
        }
    } else if s.len() < 4 {
        Err(DcpError::Truncated)
    } else {
        let code = option_of(s[0], s[1]);
        let len = from_be16(s[2], s[3]);
        if 4 + len > s.len() {
            Err(DcpError::Truncated)
        } else {
            let body = s.subrange(4, 4 + len as int);
            let n = (4 + len) as nat;
            if kind == PnDcpTy::IdentReq {
                match parse_value(code, body) {
                    Ok(v) => if v.bytes().len() != len {
                        Err(DcpError::LengthMismatch)
                    } else {
                        Ok((BlockModel::CommonWithoutInfo(v), n))
                    },
                    Err(e) => Err(e),
                }
            } else if code == OptionAndSub::Response && kind != PnDcpTy::SetReq {
                if len < 3 {
                    Err(DcpError::Truncated)
                } else if len > 3 {
                    Err(DcpError::LengthMismatch)
                } else {
                    Ok((BlockModel::Response(response_of(body)), n))
                }
            } else if len < 2 {
                Err(DcpError::Truncated)
            } else {
                let value = body.subrange(2, len as int);
                match parse_value(code, value) {
                    Err(e) => Err(e),
                    Ok(v) => if v.bytes().len() != value.len() {
                        Err(DcpError::LengthMismatch)
                    } else if kind == PnDcpTy::SetReq {
                        Ok((BlockModel::SetValue(v, block_qualifier_of(body[0], body[1])), n))
                    } else if code == OptionAndSub::IpAddr {
                        Ok((BlockModel::Ip(v->IpAddr_0, ip_block_info_of(body[0], body[1])), n))
                    } else {
                        Ok((BlockModel::Common(v, block_info_of(body[0], body[1])), n))
                    },
                }
            }
        }
    }
}

/// `r` with `p` put in front of its blocks.
pub open spec fn with_prefix(p: Seq<BlockModel>, r: Result<Seq<BlockModel>, DcpError>) -> Result<
    Seq<BlockModel>,
    DcpError,
> {
    match r {
        Ok(rest) => Ok(p + rest),
        Err(e) => Err(e),
    }
}

/// The blocks that `s` holds in a packet of `kind`.
pub open spec fn parse_list(kind: PnDcpTy, s: Seq<u8>) -> Result<Seq<BlockModel>, DcpError>
    decreases s.len(),
{
    if s.len() == 0 {
        Ok(seq![])
    } else {
        match parse_block(kind, s) {
            Err(e) => Err(e),
            Ok((b, n)) => if n == 0 || n > s.len() {
                Err(DcpError::Truncated)
            } else if n % 2 == 1 {
                if s.len() < n + 1 {
                    Err(DcpError::Truncated)
                } else if s[n as int] != 0 {
                    Err(DcpError::BadPadding)
                } else {
                    with_prefix(seq![b, BlockModel::Padding], parse_list(kind, s.skip(n + 1 as int)))
                }
            } else {
                with_prefix(seq![b], parse_list(kind, s.skip(n as int)))
            },
        }
    }
}

/// The bytes of a list of blocks.
pub open spec fn list_wire(l: Seq<BlockModel>) -> Seq<u8>
    decreases l.len(),
{
    if l.len() == 0 {
        seq![]
    } else {
        list_wire(l.drop_last()) + l.last().wire()
    }
}

/// The list is made of blocks allowed in `kind`, each odd-length one followed
/// by exactly one padding block.
pub open spec fn list_wf(kind: PnDcpTy, l: Seq<BlockModel>) -> bool
    decreases l.len(),
{
    if l.len() == 0 {
        true
    } else if l[0].allowed(kind) && l[0].wire().len() % 2 == 0 {
        list_wf(kind, l.skip(1))
    } else if l[0].allowed(kind) && l.len() >= 2 && l[1] == BlockModel::Padding {
        list_wf(kind, l.skip(2))
    } else {
        false
    }
}

} // verus!
verus! {

/// The header bytes of a length-prefixed block: code, then length.
proof fn lemma_tlv_head(code: OptionAndSub, len: nat, body: Seq<u8>, rest: Seq<u8>)
    requires
        code.canonical(),
        len < 0x10000,
        body.len() == len,
    ensures
        ({
            let s = code.wire() + be16(len) + body + rest;
            &&& s.len() >= 4 + len
            &&& option_of(s[0], s[1]) == code
            &&& from_be16(s[2], s[3]) == len
            &&& s.subrange(4, 4 + len as int) == body
            &&& s.skip(4 + len as int) == rest
        }),
{
    lemma_from_be16(len);
    let s = code.wire() + be16(len) + body + rest;
    assert(s[0] == code.pair().0 && s[1] == code.pair().1);
    assert(s[2] == be16(len)[0] && s[3] == be16(len)[1]);
    assert(s.subrange(4, 4 + len as int) =~= body);
    assert(s.skip(4 + len as int) =~= rest);
}

proof fn lemma_parse_common(kind: PnDcpTy, v: ValueModel, info: BlockInfo, rest: Seq<u8>)
    requires
        BlockModel::Common(v, info).allowed(kind),
    ensures
        parse_block(kind, BlockModel::Common(v, info).wire() + rest) == Ok::<
            (BlockModel, nat),
            DcpError,
        >((BlockModel::Common(v, info), BlockModel::Common(v, info).wire().len())),
{
    reveal(parse_block);
    let body = info.bytes() + v.bytes();
    lemma_value_round_trip(v, v.code(), v.bytes());
    lemma_tlv_head(v.code(), body.len(), body, rest);
    assert(v.code().wire() + be16(v.bytes().len() + 2) + info.bytes() + v.bytes()
        =~= v.code().wire() + be16(body.len()) + body);
    assert(body.subrange(2, body.len() as int) =~= v.bytes());
    assert(body[0] == info.bytes()[0] && body[1] == info.bytes()[1]);
}

proof fn lemma_parse_set(kind: PnDcpTy, v: ValueModel, q: BlockQualifier, rest: Seq<u8>)
    requires
        BlockModel::SetValue(v, q).allowed(kind),
    ensures
        parse_block(kind, BlockModel::SetValue(v, q).wire() + rest) == Ok::<
            (BlockModel, nat),
            DcpError,
        >((BlockModel::SetValue(v, q), BlockModel::SetValue(v, q).wire().len())),
{
    reveal(parse_block);
    let body = q.bytes() + v.bytes();
    lemma_value_round_trip(v, v.code(), v.bytes());
    lemma_tlv_head(v.code(), body.len(), body, rest);
    assert(v.code().wire() + be16(v.bytes().len() + 2) + q.bytes() + v.bytes()
        =~= v.code().wire() + be16(body.len()) + body);
    assert(body.subrange(2, body.len() as int) =~= v.bytes());
    assert(body[0] == q.bytes()[0] && body[1] == q.bytes()[1]);
}

proof fn lemma_parse_ip(kind: PnDcpTy, ip: InnerIpAddr, info: IpBlockInfo, rest: Seq<u8>)
    requires
        BlockModel::Ip(ip, info).allowed(kind),
    ensures
        parse_block(kind, BlockModel::Ip(ip, info).wire() + rest) == Ok::<
            (BlockModel, nat),
            DcpError,
        >((BlockModel::Ip(ip, info), BlockModel::Ip(ip, info).wire().len())),
{
    reveal(parse_block);
    let body = info.bytes() + ip.bytes();
    lemma_value_round_trip(ValueModel::IpAddr(ip), OptionAndSub::IpAddr, ip.bytes());
    lemma_tlv_head(OptionAndSub::IpAddr, body.len(), body, rest);
    assert(OptionAndSub::IpAddr.wire() + be16(14) + info.bytes() + ip.bytes()
        =~= OptionAndSub::IpAddr.wire() + be16(body.len()) + body);
    assert(body.subrange(2, body.len() as int) =~= ip.bytes());
    assert(body[0] == info.bytes()[0] && body[1] == info.bytes()[1]);
}

proof fn lemma_parse_response(kind: PnDcpTy, r: Response, rest: Seq<u8>)
    requires
        BlockModel::Response(r).allowed(kind),
    ensures
        parse_block(kind, BlockModel::Response(r).wire() + rest) == Ok::<
            (BlockModel, nat),
            DcpError,
        >((BlockModel::Response(r), BlockModel::Response(r).wire().len())),
{
    reveal(parse_block);
    lemma_value_round_trip(ValueModel::Response(r), OptionAndSub::Response, r.bytes());
    lemma_tlv_head(OptionAndSub::Response, 3, r.bytes(), rest);
}

proof fn lemma_parse_without_info(kind: PnDcpTy, v: ValueModel, rest: Seq<u8>)
    requires
        BlockModel::CommonWithoutInfo(v).allowed(kind),
    ensures
        parse_block(kind, BlockModel::CommonWithoutInfo(v).wire() + rest) == Ok::<
            (BlockModel, nat),
            DcpError,
        >((BlockModel::CommonWithoutInfo(v), BlockModel::CommonWithoutInfo(v).wire().len())),
{
    reveal(parse_block);
    lemma_value_round_trip(v, v.code(), v.bytes());
    lemma_tlv_head(v.code(), v.bytes().len(), v.bytes(), rest);
}

/// An allowed block decodes back to itself from its own bytes, whatever follows.
pub proof fn lemma_parse_block_wire(kind: PnDcpTy, b: BlockModel, rest: Seq<u8>)
    requires
        b.allowed(kind),
    ensures
        parse_block(kind, b.wire() + rest) == Ok::<(BlockModel, nat), DcpError>(
            (b, b.wire().len()),
        ),
        b.wire().len() > 0,
{
    match b {
        BlockModel::OptionRef(c) => {
            reveal(parse_block);
            let s = b.wire() + rest;
            assert(s[0] == c.pair().0 && s[1] == c.pair().1);
        },
        BlockModel::CommonWithoutInfo(v) => lemma_parse_without_info(kind, v, rest),
        BlockModel::Response(r) => lemma_parse_response(kind, r, rest),
        BlockModel::Common(v, info) => lemma_parse_common(kind, v, info, rest),
        BlockModel::SetValue(v, q) => lemma_parse_set(kind, v, q, rest),
        BlockModel::Ip(ip, info) => lemma_parse_ip(kind, ip, info, rest),
        BlockModel::Padding => {},
    }
}

} // verus!
verus! {

/// A decoded block is allowed in its packet kind and is exactly the bytes it
/// was decoded from.
pub proof fn lemma_parse_block_sound(kind: PnDcpTy, s: Seq<u8>)
    ensures
        parse_block(kind, s) is Ok ==> {
            let (b, n) = parse_block(kind, s)->Ok_0;
            &&& b.allowed(kind)
            &&& n == b.wire().len()
            &&& 0 < n <= s.len()
            &&& s.subrange(0, n as int) == b.wire()
        },
{
    reveal(parse_block);
    if parse_block(kind, s) is Ok {
        let (b, n) = parse_block(kind, s)->Ok_0;
        lemma_option_round_trip(s[0], s[1]);
        if kind == PnDcpTy::GetReq {
            assert(s.subrange(0, 2) =~= b.wire());
        } else {
            let code = option_of(s[0], s[1]);
            let len = from_be16(s[2], s[3]);
            let body = s.subrange(4, 4 + len as int);
            lemma_be16_from(s[2], s[3]);
            let head = code.wire() + be16(len);
            assert(s.subrange(0, 4) =~= head);
            assert(s.subrange(0, n as int) =~= head + body);
            if kind == PnDcpTy::IdentReq {
                lemma_value_round_trip(b->CommonWithoutInfo_0, code, body);
                let v = parse_value(code, body)->Ok_0;
                assert(v.bytes() =~= body);
            } else if code == OptionAndSub::Response && kind != PnDcpTy::SetReq {
                lemma_value_round_trip(ValueModel::Response(b->Response_0), code, body);
                assert(response_of(body).bytes() =~= body.take(3));
                assert(body.take(3) =~= body);
            } else {
                let value = body.subrange(2, len as int);
                lemma_small_fields(body[0], body[1]);
                lemma_value_round_trip(ValueModel::Response(response_of(body)), code, value);
                assert(body =~= seq![body[0], body[1]] + value);
                let v = parse_value(code, value)->Ok_0;
                assert(v.bytes() =~= value);
                if kind == PnDcpTy::SetReq {
                    assert(body =~= block_qualifier_of(body[0], body[1]).bytes() + v.bytes());
                } else if code == OptionAndSub::IpAddr {
                    assert(body =~= ip_block_info_of(body[0], body[1]).bytes()
                        + v->IpAddr_0.bytes());
                } else {
                    assert(body =~= block_info_of(body[0], body[1]).bytes() + v.bytes());
                }
            }
        }
    }
}

} // verus!
verus! {

/// A block with the padding block that follows it when its length is odd.
pub open spec fn unit(b: BlockModel) -> Seq<BlockModel> {
    if b.wire().len() % 2 == 1 {
        seq![b, BlockModel::Padding]
    } else {
        seq![b]
    }
}

pub proof fn lemma_list_wire_concat(a: Seq<BlockModel>, b: Seq<BlockModel>)
    ensures
        list_wire(a + b) == list_wire(a) + list_wire(b),
    decreases b.len(),
{
    if b.len() == 0 {
        assert(a + b =~= a);
        assert(list_wire(a) + list_wire(b) =~= list_wire(a));
    } else {
        lemma_list_wire_concat(a, b.drop_last());
        assert((a + b).drop_last() =~= a + b.drop_last());
        assert((a + b).last() == b.last());
        assert(list_wire(a + b) =~= list_wire(a) + list_wire(b));
    }
}

pub proof fn lemma_list_wire_one(b: BlockModel)
    ensures
        list_wire(seq![b]) == b.wire(),
{
    assert(seq![b].drop_last() =~= Seq::<BlockModel>::empty());
    assert(list_wire(Seq::<BlockModel>::empty()) == Seq::<u8>::empty());
    assert(list_wire(seq![b]) =~= b.wire());
}

pub proof fn lemma_list_wire_front(l: Seq<BlockModel>)
    requires
        l.len() > 0,
    ensures
        list_wire(l) == l[0].wire() + list_wire(l.skip(1)),
{
    assert(l =~= seq![l[0]] + l.skip(1));
    lemma_list_wire_concat(seq![l[0]], l.skip(1));
    lemma_list_wire_one(l[0]);
}

/// Appending a block with its padding keeps a list well formed.
pub proof fn lemma_list_wf_append(kind: PnDcpTy, l: Seq<BlockModel>, b: BlockModel)
    requires
        list_wf(kind, l),
        b.allowed(kind),
    ensures
        list_wf(kind, l + unit(b)),
    decreases l.len(),
{
    let u = unit(b);
    if l.len() == 0 {
        assert(l + u =~= u);
        assert(list_wf(kind, Seq::<BlockModel>::empty()));
        if b.wire().len() % 2 == 1 {
            assert(u.skip(2) =~= Seq::<BlockModel>::empty());
        } else {
            assert(u.skip(1) =~= Seq::<BlockModel>::empty());
        }
    } else if l[0].allowed(kind) && l[0].wire().len() % 2 == 0 {
        lemma_list_wf_append(kind, l.skip(1), b);
        assert((l + u).skip(1) =~= l.skip(1) + u);
    } else {
        lemma_list_wf_append(kind, l.skip(2), b);
        assert((l + u).skip(2) =~= l.skip(2) + u);
    }
}

/// A well-formed list decodes back to itself from its own bytes.
pub proof fn lemma_list_round_trip(kind: PnDcpTy, l: Seq<BlockModel>)
    requires
        list_wf(kind, l),
    ensures
        parse_list(kind, list_wire(l)) == Ok::<Seq<BlockModel>, DcpError>(l),
    decreases l.len(),
{
    if l.len() == 0 {
        assert(list_wire(l) =~= Seq::<u8>::empty());
        assert(l =~= Seq::<BlockModel>::empty());
    } else {
        let b = l[0];
        let w = list_wire(l);
        lemma_list_wire_front(l);
        lemma_parse_block_wire(kind, b, list_wire(l.skip(1)));
        let n = b.wire().len();
        if n % 2 == 0 {
            lemma_list_round_trip(kind, l.skip(1));
            assert(w.skip(n as int) =~= list_wire(l.skip(1)));
            assert(seq![b] + l.skip(1) =~= l);
        } else {
            assert(l[1] == BlockModel::Padding);
            lemma_list_wire_front(l.skip(1));
            assert(l.skip(1).skip(1) =~= l.skip(2));
            lemma_list_round_trip(kind, l.skip(2));
            assert(w =~= b.wire() + seq![0u8] + list_wire(l.skip(2)));
            assert(w[n as int] == 0);
            assert(w.skip(n + 1 as int) =~= list_wire(l.skip(2)));
            assert(seq![b, BlockModel::Padding] + l.skip(2) =~= l);
        }
    }
}

/// A decoded list is well formed and is exactly the bytes it came from.
pub proof fn lemma_parse_list_sound(kind: PnDcpTy, s: Seq<u8>)
    ensures
        parse_list(kind, s) is Ok ==> list_wire(parse_list(kind, s)->Ok_0) == s && list_wf(
            kind,
            parse_list(kind, s)->Ok_0,
        ),
    decreases s.len(),
{
    if s.len() > 0 && parse_list(kind, s) is Ok {
        let l = parse_list(kind, s)->Ok_0;
        let (b, n) = parse_block(kind, s)->Ok_0;
        lemma_parse_block_sound(kind, s);
        lemma_list_wire_front(l);
        if n % 2 == 1 {
            let rest = parse_list(kind, s.skip(n + 1 as int))->Ok_0;
            lemma_parse_list_sound(kind, s.skip(n + 1 as int));
            assert(l =~= seq![b, BlockModel::Padding] + rest);
            assert(l.skip(1) =~= seq![BlockModel::Padding] + rest);
            assert(l.skip(1).skip(1) =~= rest);
            assert(l.skip(2) =~= rest);
            lemma_list_wire_front(l.skip(1));
            assert(s =~= s.subrange(0, n as int) + seq![0u8] + s.skip(n + 1 as int));
        } else {
            let rest = parse_list(kind, s.skip(n as int))->Ok_0;
            lemma_parse_list_sound(kind, s.skip(n as int));
            assert(l =~= seq![b] + rest);
            assert(l.skip(1) =~= rest);
            assert(s =~= s.subrange(0, n as int) + s.skip(n as int));
        }
    }
}

} // verus!
verus! {

/// The contract shared by every block shape: its length, its declared
/// length field and its bytes.
pub trait BlockTrait {
    spec fn model(&self) -> BlockModel;

    fn len(&self) -> (r: usize)
        requires
            self.model().sized(),
        ensures
            r == self.model().wire().len(),
    ;

    fn payload(&self) -> (r: u16)
        requires
            self.model().sized(),
        ensures
            r == self.model().declared(),
    ;

    fn append_data(&self, data: &mut Vec<u8>)
        requires
            self.model().sized(),
        ensures
            final(data)@ == old(data)@ + self.model().wire(),
    ;
}

/// Appends a code and a two-byte length.
fn append_head(code: OptionAndSub, len: u16, data: &mut Vec<u8>)
    ensures
        final(data)@ == old(data)@ + code.wire() + be16(len as nat),
{
    code.append_to(data);
    let l = crate::comm::u16_to_u8s(len);
    crate::comm::slice_copy_to_vec(data, l.as_slice());
}

/// The single zero byte after an odd-length block.
#[derive(Debug, Clone, Copy, PartialEq, Eq)]
pub struct BlockPadding;

impl BlockTrait for BlockPadding {
    open spec fn model(&self) -> BlockModel {
        BlockModel::Padding
    }

    fn len(&self) -> (r: usize) {
        1
    }

    fn payload(&self) -> (r: u16) {
        0
    }

    fn append_data(&self, data: &mut Vec<u8>) {
        data.push(0u8);
        assert(data@ =~= old(data)@ + self.model().wire());
    }
}

/// A bare option reference, as a get request carries it.
#[derive(Debug, Clone, Copy, PartialEq, Eq)]
pub struct BlockOptionAndSub(pub OptionAndSub);

impl BlockTrait for BlockOptionAndSub {
    open spec fn model(&self) -> BlockModel {
        BlockModel::OptionRef(self.0)
    }

    fn len(&self) -> (r: usize) {
        2
    }

    fn payload(&self) -> (r: u16) {
        0
    }

    fn append_data(&self, data: &mut Vec<u8>) {
        self.0.append_to(data);
    }
}

/// The address block: code, length 14, info, then the three addresses.
#[derive(Debug, Clone, Copy, PartialEq, Eq)]
pub struct BlockIp {
    pub ip: InnerIpAddr,
    pub info: IpBlockInfo,
}

impl BlockIp {
    pub fn new(ip: InnerIpAddr, info: IpBlockInfo) -> (r: BlockIp)
        ensures
            r.ip == ip,
            r.info == info,
    {
        BlockIp { ip, info }
    }

    pub fn ip(&self) -> (r: &InnerIpAddr)
        ensures
            *r == self.ip,
    {
        &self.ip
    }

    pub fn info(&self) -> (r: &IpBlockInfo)
        ensures
            *r == self.info,
    {
        &self.info
    }
}

impl BlockTrait for BlockIp {
    open spec fn model(&self) -> BlockModel {
        BlockModel::Ip(self.ip, self.info)
    }

    fn len(&self) -> (r: usize) {
        self.ip.payload_size() + 6
    }

    fn payload(&self) -> (r: u16) {
        14
    }

    fn append_data(&self, data: &mut Vec<u8>) {
        append_head(OptionAndSub::IpAddr, 14, data);
        let info = self.info.to_u8_array();
        crate::comm::slice_copy_to_vec(data, info.as_slice());
        self.ip.append_value_to_data(data);
        assert(data@ =~= old(data)@ + self.model().wire());
    }
}

/// A set request's block: code, length, qualifier, then the value.
#[derive(Debug, PartialEq, Eq)]
pub struct BlockSet {
    pub option: OptionAndSubValue,
    pub qualifier: BlockQualifier,
}

impl BlockSet {
    pub fn new(option: OptionAndSubValue, qualifier: BlockQualifier) -> (r: BlockSet)
        ensures
            r.option == option,
            r.qualifier == qualifier,
    {
        BlockSet { option, qualifier }
    }

    pub fn option(&self) -> (r: &OptionAndSubValue)
        ensures
            *r == self.option,
    {
        &self.option
    }

    pub fn qualifier(&self) -> (r: &BlockQualifier)
        ensures
            *r == self.qualifier,
    {
        &self.qualifier
    }
}

impl Clone for BlockSet {
    fn clone(&self) -> (r: BlockSet)
        ensures
            r.model() == self.model(),
    {
        BlockSet { option: self.option.clone(), qualifier: self.qualifier }
    }
}

impl BlockTrait for BlockSet {
    open spec fn model(&self) -> BlockModel {
        BlockModel::SetValue(self.option@, self.qualifier)
    }

    fn len(&self) -> (r: usize) {
        self.option.payload_size() + 6
    }

    fn payload(&self) -> (r: u16) {
        (self.option.payload_size() + 2) as u16
    }

    fn append_data(&self, data: &mut Vec<u8>) {
        let code = self.option.code();
        append_head(code, (self.option.payload_size() + 2) as u16, data);
        let q = self.qualifier.to_u8_array();
        crate::comm::slice_copy_to_vec(data, q.as_slice());
        self.option.append_value_to_data(data);
        assert(data@ =~= old(data)@ + self.model().wire());
    }
}

/// A response's common block: code, length, info, then the value.
#[derive(Debug, PartialEq, Eq)]
pub struct BlockCommon {
    pub option: OptionAndSubValue,
    pub info: BlockInfo,
}

impl BlockCommon {
    pub fn option(&self) -> (r: &OptionAndSubValue)
        ensures
            *r == self.option,
    {
        &self.option
    }

    pub fn info(&self) -> (r: &BlockInfo)
        ensures
            *r == self.info,
    {
        &self.info
    }

    /// A block with the reserved info.
    pub fn new(option: OptionAndSubValue) -> (r: BlockCommon)
        ensures
            r.option == option,
            r.info == BlockInfo::Reserved,
    {
        BlockCommon { option, info: BlockInfo::Reserved }
    }

    pub fn set_block_info(&mut self, info: BlockInfo)
        ensures
            final(self).info == info,
            final(self).option == old(self).option,
    {
        self.info = info;
    }
}

impl Clone for BlockCommon {
    fn clone(&self) -> (r: BlockCommon)
        ensures
            r.model() == self.model(),
    {
        BlockCommon { option: self.option.clone(), info: self.info }
    }
}

impl BlockTrait for BlockCommon {
    open spec fn model(&self) -> BlockModel {
        BlockModel::Common(self.option@, self.info)
    }

    fn len(&self) -> (r: usize) {
        self.option.payload_size() + 6
    }

    fn payload(&self) -> (r: u16) {
        (self.option.payload_size() + 2) as u16
    }

    fn append_data(&self, data: &mut Vec<u8>) {
        let code = self.option.code();
        append_head(code, (self.option.payload_size() + 2) as u16, data);
        let info = self.info.to_u8_array();
        crate::comm::slice_copy_to_vec(data, info.as_slice());
        self.option.append_value_to_data(data);
        assert(data@ =~= old(data)@ + self.model().wire());
    }
}

/// A response block: the echoed code and its error, seven bytes in all.
#[derive(Debug, Clone, Copy, PartialEq, Eq)]
pub struct BlockResp(pub OptionAndSub, pub BlockError);

impl BlockTrait for BlockResp {
    open spec fn model(&self) -> BlockModel {
        BlockModel::Response(Response(self.0, self.1))
    }

    fn len(&self) -> (r: usize) {
        7
    }

    fn payload(&self) -> (r: u16) {
        3
    }

    fn append_data(&self, data: &mut Vec<u8>) {
        append_head(OptionAndSub::Response, 3, data);
        Response(self.0, self.1).append_value_to_data(data);
        assert(data@ =~= old(data)@ + self.model().wire());
    }
}

/// An identify request's block: code, length, then the value.
#[derive(Debug, PartialEq, Eq)]
pub struct BlockCommonWithoutInfo(pub OptionAndSubValue);

impl Clone for BlockCommonWithoutInfo {
    fn clone(&self) -> (r: BlockCommonWithoutInfo)
        ensures
            r.model() == self.model(),
    {
        BlockCommonWithoutInfo(self.0.clone())
    }
}

impl BlockTrait for BlockCommonWithoutInfo {
    open spec fn model(&self) -> BlockModel {
        BlockModel::CommonWithoutInfo(self.0@)
    }

    fn len(&self) -> (r: usize) {
        self.0.payload_size() + 4
    }

    fn payload(&self) -> (r: u16) {
        self.0.payload_size() as u16
    }

    fn append_data(&self, data: &mut Vec<u8>) {
        let code = self.0.code();
        append_head(code, self.0.payload_size() as u16, data);
        self.0.append_value_to_data(data);
        assert(data@ =~= old(data)@ + self.model().wire());
    }
}

/// A block of any shape.
#[derive(Debug, PartialEq, Eq)]
pub enum Block {
    OptionRef(BlockOptionAndSub),
    Common(BlockCommon),
    CommonWithoutInfo(BlockCommonWithoutInfo),
    Ip(BlockIp),
    SetValue(BlockSet),
    Response(BlockResp),
    Padding(BlockPadding),
}

impl View for Block {
    type V = BlockModel;

    open spec fn view(&self) -> BlockModel {
        match self {
            Block::OptionRef(b) => b.model(),
            Block::Common(b) => b.model(),
            Block::CommonWithoutInfo(b) => b.model(),
            Block::Ip(b) => b.model(),
            Block::SetValue(b) => b.model(),
            Block::Response(b) => b.model(),
            Block::Padding(b) => b.model(),
        }
    }
}

impl Clone for Block {
    fn clone(&self) -> (r: Block)
        ensures
            r@ == self@,
    {
        match self {
            Block::OptionRef(b) => Block::OptionRef(*b),
            Block::Common(b) => Block::Common(b.clone()),
            Block::CommonWithoutInfo(b) => Block::CommonWithoutInfo(b.clone()),
            Block::Ip(b) => Block::Ip(*b),
            Block::SetValue(b) => Block::SetValue(b.clone()),
            Block::Response(b) => Block::Response(*b),
            Block::Padding(b) => Block::Padding(*b),
        }
    }
}

impl BlockTrait for Block {
    open spec fn model(&self) -> BlockModel {
        self@
    }

    fn len(&self) -> (r: usize) {
        match self {
            Block::OptionRef(b) => b.len(),
            Block::Common(b) => b.len(),
            Block::CommonWithoutInfo(b) => b.len(),
            Block::Ip(b) => b.len(),
            Block::SetValue(b) => b.len(),
            Block::Response(b) => b.len(),
            Block::Padding(b) => b.len(),
        }
    }

    fn payload(&self) -> (r: u16) {
        match self {
            Block::OptionRef(b) => b.payload(),
            Block::Common(b) => b.payload(),
            Block::CommonWithoutInfo(b) => b.payload(),
            Block::Ip(b) => b.payload(),
            Block::SetValue(b) => b.payload(),
            Block::Response(b) => b.payload(),
            Block::Padding(b) => b.payload(),
        }
    }

    fn append_data(&self, data: &mut Vec<u8>) {
        match self {
            Block::OptionRef(b) => b.append_data(data),
            Block::Common(b) => b.append_data(data),
            Block::CommonWithoutInfo(b) => b.append_data(data),
            Block::Ip(b) => b.append_data(data),
            Block::SetValue(b) => b.append_data(data),
            Block::Response(b) => b.append_data(data),
            Block::Padding(b) => b.append_data(data),
        }
    }
}

/// A two-byte big-endian length field.
pub struct Len(pub usize);

impl Len {
    /// The length at the start of `value`; fails with `Truncated` on fewer than two bytes.
    pub fn from_bytes(value: &[u8]) -> (r: Result<Len, DcpError>)
        ensures
            value@.len() >= 2 ==> (r matches Ok(l) && l.0 == from_be16(value@[0], value@[1])),
            value@.len() < 2 ==> r is Err,
    {
        if value.len() < 2 {
            return Err(DcpError::Truncated);
        }
        Ok(Len(crate::comm::to_u16(value[0], value[1]) as usize))
    }
}

} // verus!
verus! {

/// The models of a sequence of blocks.
pub open spec fn models(v: Seq<Block>) -> Seq<BlockModel> {
    v.map_values(|b: Block| b@)
}

/// The block that starts at `index` in `span`, and the number of bytes it takes.
pub fn decode_block(kind: PnDcpTy, span: &BytesWrap, index: usize) -> (r: Result<
    (Block, usize),
    DcpError,
>)
    requires
        index <= span@.len(),
    ensures
        match r {
            Ok((b, n)) => parse_block(kind, span@.skip(index as int)) == Ok::<
                (BlockModel, nat),
                DcpError,
            >((b@, n as nat)),
            Err(e) => parse_block(kind, span@.skip(index as int)) == Err::<
                (BlockModel, nat),
                DcpError,
            >(e),
        },
{
    reveal(parse_block);
    let rest = match span.slice_from(index) {
        Ok(rest) => rest,
        Err(e) => return Err(e),
    };
    let bytes = rest.as_bytes();
    let avail = bytes.len();
    assert(bytes@ =~= span@.skip(index as int));
    if kind == PnDcpTy::GetReq {
        if avail < 2 {
            return Err(DcpError::Truncated);
        }
        let code = OptionAndSub::new(bytes[0], bytes[1]);
        return Ok((Block::OptionRef(BlockOptionAndSub(code)), 2));
    }
    if avail < 4 {
        return Err(DcpError::Truncated);
    }
    let code = OptionAndSub::new(bytes[0], bytes[1]);
    let len = crate::comm::to_u16(bytes[2], bytes[3]) as usize;
    if 4 + len > avail {
        return Err(DcpError::Truncated);
    }
    let n = 4 + len;
    let body = match rest.slice(4, n) {
        Ok(body) => body,
        Err(e) => return Err(e),
    };
    if kind == PnDcpTy::IdentReq {
        let ghost body_bytes = body@;
        let v = OptionAndSubValue::init_by_ty(code, body)?;
        proof {
            lemma_value_round_trip(v@, code, body_bytes);
        }
        if v.payload_size() != len {
            return Err(DcpError::LengthMismatch);
        }
        return Ok((Block::CommonWithoutInfo(BlockCommonWithoutInfo(v)), n));
    }
    if code == OptionAndSub::Response && kind != PnDcpTy::SetReq {
        if len < 3 {
            return Err(DcpError::Truncated);
        }
        if len > 3 {
            return Err(DcpError::LengthMismatch);
        }
        let resp = match Response::from_bytes(&body) {
            Ok(resp) => resp,
            Err(e) => return Err(e),
        };
        return Ok((Block::Response(BlockResp(resp.0, resp.1)), n));
    }
    if len < 2 {
        return Err(DcpError::Truncated);
    }
    let b = body.as_bytes();
    let meta = [b[0], b[1]];
    let value = match body.slice(2, len) {
        Ok(value) => value,
        Err(e) => return Err(e),
    };
    let ghost value_bytes = value@;
    let v = OptionAndSubValue::init_by_ty(code, value)?;
    proof {
        lemma_value_round_trip(v@, code, value_bytes);
    }
    if v.payload_size() != len - 2 {
        return Err(DcpError::LengthMismatch);
    }
    if kind == PnDcpTy::SetReq {
        let qualifier = BlockQualifier::from_u8_array(meta);
        Ok((Block::SetValue(BlockSet { option: v, qualifier }), n))
    } else if code == OptionAndSub::IpAddr {
        let info = IpBlockInfo::from_u8_array(meta);
        match v {
            OptionAndSubValue::IpAddr(ip) => Ok((Block::Ip(BlockIp { ip, info }), n)),
            _ => Err(DcpError::UnsupportedOption),
        }
    } else {
        let info = BlockInfo::from_u8_array(meta);
        Ok((Block::Common(BlockCommon { option: v, info }), n))
    }
}

/// The blocks that `span` holds in a packet of `kind`.
pub fn decode_blocks(kind: PnDcpTy, span: &BytesWrap) -> (r: Result<Vec<Block>, DcpError>)
    ensures
        match r {
            Ok(v) => parse_list(kind, span@) == Ok::<Seq<BlockModel>, DcpError>(models(v@)),
            Err(e) => parse_list(kind, span@) == Err::<Seq<BlockModel>, DcpError>(e),
        },
{
    let len = span.len();
    let bytes = span.as_bytes();
    let mut blocks: Vec<Block> = Vec::new();
    let mut index: usize = 0;
    assert(span@.skip(0) =~= span@);
    assert(models(blocks@) =~= Seq::<BlockModel>::empty());
    while index < len
        invariant
            len == span@.len(),
            bytes@ == span@,
            index <= len,
            parse_list(kind, span@) == with_prefix(
                models(blocks@),
                parse_list(kind, span@.skip(index as int)),
            ),
        decreases len - index,
    {
        let ghost s = span@.skip(index as int);
        let ghost prefix = models(blocks@);
        let (b, n) = match decode_block(kind, span, index) {
            Ok(found) => found,
            Err(e) => {
                return Err(e);
            },
        };
        proof {
            lemma_parse_block_sound(kind, s);
        }
        if n % 2 == 1 {
            if len - index < n + 1 {
                return Err(DcpError::Truncated);
            }
            if bytes[index + n] != 0 {
                assert(s[n as int] == bytes@[index + n]);
                return Err(DcpError::BadPadding);
            }
            assert(s[n as int] == bytes@[index + n]);
            blocks.push(b);
            blocks.push(Block::Padding(BlockPadding));
            proof {
                assert(s.skip(n + 1 as int) =~= span@.skip(index + n + 1));
                assert(models(blocks@) =~= prefix + seq![b@, BlockModel::Padding]);
                let tail = parse_list(kind, span@.skip(index + n + 1));
                if tail is Ok {
                    assert(prefix + (seq![b@, BlockModel::Padding] + tail->Ok_0) =~= prefix
                        + seq![b@, BlockModel::Padding] + tail->Ok_0);
                }
            }
            index = index + n + 1;
        } else {
            blocks.push(b);
            proof {
                assert(s.skip(n as int) =~= span@.skip(index + n));
                assert(models(blocks@) =~= prefix + seq![b@]);
                let tail = parse_list(kind, span@.skip(index + n));
                if tail is Ok {
                    assert(prefix + (seq![b@] + tail->Ok_0) =~= prefix + seq![b@] + tail->Ok_0);
                }
            }
            index = index + n;
        }
    }
    assert(span@.skip(index as int) =~= Seq::<u8>::empty());
    assert(models(blocks@) + Seq::<BlockModel>::empty() =~= models(blocks@));
    Ok(blocks)
}

/// Appends the bytes of every block in order.
pub fn encode_blocks(blocks: &Vec<Block>, data: &mut Vec<u8>)
    requires
        forall|i: int| 0 <= i < blocks@.len() ==> (#[trigger] blocks@[i])@.sized(),
    ensures
        final(data)@ == old(data)@ + list_wire(models(blocks@)),
{
    let mut i: usize = 0;
    assert(models(blocks@).take(0) =~= Seq::<BlockModel>::empty());
    while i < blocks.len()
        invariant
            i <= blocks@.len(),
            forall|i: int| 0 <= i < blocks@.len() ==> (#[trigger] blocks@[i])@.sized(),
            data@ == old(data)@ + list_wire(models(blocks@).take(i as int)),
        decreases blocks@.len() - i,
    {
        blocks[i].append_data(data);
        proof {
            let m = models(blocks@);
            assert(m.take(i + 1).drop_last() =~= m.take(i as int));
            assert(m.take(i + 1).last() == blocks@[i as int]@);
        }
        i += 1;
        assert(data@ =~= old(data)@ + list_wire(models(blocks@).take(i as int)));
    }
    assert(models(blocks@).take(i as int) =~= models(blocks@));
}

} // verus!
