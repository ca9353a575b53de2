use vstd::prelude::*;

use crate::comm::{BytesWrap, DcpError};

verus! {

/// The two-byte (option, suboption) key of a block.
#[derive(Debug, Clone, Copy, PartialEq, Eq, Structural, Hash)]
pub enum OptionAndSub {
    MarAddr,
    IpAddr,
    FullIpSuite,
    ManufacturerSpecific,
    NameOfStation,
    DeviceId,
    DeviceRole,
    DeviceOptions,
    AliasName,
    StartTransaction,
    EndTransaction,
    Signal,
    Response,
    ResetFactory,
    DevicecInitiative,
    All,
    DHCP(u8),
    LLDP(u8),
    Other(u8, u8),
}

/// The code that a pair of bytes stands for.
pub open spec fn option_of(a: u8, b: u8) -> OptionAndSub {
    if a == 1 && b == 1 {
        OptionAndSub::MarAddr
    } else if a == 1 && b == 2 {
        OptionAndSub::IpAddr
    } else if a == 1 && b == 3 {
        OptionAndSub::FullIpSuite
    } else if a == 2 && b == 1 {
        OptionAndSub::ManufacturerSpecific
    } else if a == 2 && b == 2 {
        OptionAndSub::NameOfStation
    } else if a == 2 && b == 3 {
        OptionAndSub::DeviceId
    } else if a == 2 && b == 4 {
        OptionAndSub::DeviceRole
    } else if a == 2 && b == 5 {
        OptionAndSub::DeviceOptions
    } else if a == 2 && b == 6 {
        OptionAndSub::AliasName
    } else if a == 5 && b == 1 {
        OptionAndSub::StartTransaction
    } else if a == 5 && b == 2 {
        OptionAndSub::EndTransaction
    } else if a == 5 && b == 3 {
        OptionAndSub::Signal
    } else if a == 5 && b == 4 {
        OptionAndSub::Response
    } else if a == 5 && b == 6 {
        OptionAndSub::ResetFactory
    } else if a == 6 && b == 1 {
        OptionAndSub::DevicecInitiative
    } else if a == 255 && b == 255 {
        OptionAndSub::All
    } else if a == 3 {
        OptionAndSub::DHCP(b)
    } else if a == 4 {
        OptionAndSub::LLDP(b)
    } else {
        OptionAndSub::Other(a, b)
    }
}

impl OptionAndSub {
    /// The (option, suboption) bytes of the code.
    pub open spec fn pair(self) -> (u8, u8) {
        match self {
            OptionAndSub::MarAddr => (1, 1),
            OptionAndSub::IpAddr => (1, 2),
            OptionAndSub::FullIpSuite => (1, 3),
            OptionAndSub::ManufacturerSpecific => (2, 1),
            OptionAndSub::NameOfStation => (2, 2),
            OptionAndSub::DeviceId => (2, 3),
            OptionAndSub::DeviceRole => (2, 4),
            OptionAndSub::DeviceOptions => (2, 5),
            OptionAndSub::AliasName => (2, 6),
            OptionAndSub::StartTransaction => (5, 1),
            OptionAndSub::EndTransaction => (5, 2),
            OptionAndSub::Signal => (5, 3),
            OptionAndSub::Response => (5, 4),
            OptionAndSub::ResetFactory => (5, 6),
            OptionAndSub::DevicecInitiative => (6, 1),
            OptionAndSub::All => (255, 255),
            OptionAndSub::DHCP(a) => (3, a),
            OptionAndSub::LLDP(a) => (4, a),
            OptionAndSub::Other(a, b) => (a, b),
        }
    }

    /// The two wire bytes of the code.
    pub open spec fn wire(self) -> Seq<u8> {
        seq![self.pair().0, self.pair().1]
    }

    /// The code is the one its own bytes decode to (an `Other` pair that a
    /// named code or a `DHCP` / `LLDP` code covers is not).
    pub open spec fn canonical(self) -> bool {
        option_of(self.pair().0, self.pair().1) == self
    }

    pub fn new(b: u8, c: u8) -> (r: OptionAndSub)
        ensures
            r == option_of(b, c),
    {
        if b == 1 && c == 1 {
            OptionAndSub::MarAddr
        } else if b == 1 && c == 2 {
            OptionAndSub::IpAddr
        } else if b == 1 && c == 3 {
            OptionAndSub::FullIpSuite
        } else if b == 2 && c == 1 {
            OptionAndSub::ManufacturerSpecific
        } else if b == 2 && c == 2 {
            OptionAndSub::NameOfStation
        } else if b == 2 && c == 3 {
            OptionAndSub::DeviceId
        } else if b == 2 && c == 4 {
            OptionAndSub::DeviceRole
        } else if b == 2 && c == 5 {
            OptionAndSub::DeviceOptions
        } else if b == 2 && c == 6 {
            OptionAndSub::AliasName
        } else if b == 5 && c == 1 {
            OptionAndSub::StartTransaction
        } else if b == 5 && c == 2 {
            OptionAndSub::EndTransaction
        } else if b == 5 && c == 3 {
            OptionAndSub::Signal
        } else if b == 5 && c == 4 {
            OptionAndSub::Response
        } else if b == 5 && c == 6 {
            OptionAndSub::ResetFactory
        } else if b == 6 && c == 1 {
            OptionAndSub::DevicecInitiative
        } else if b == 255 && c == 255 {
            OptionAndSub::All
        } else if b == 3 {
            OptionAndSub::DHCP(c)
        } else if b == 4 {
            OptionAndSub::LLDP(c)
        } else {
            OptionAndSub::Other(b, c)
        }
    }

    /// The code of a pair given as a tuple.
    pub fn get(a: (u8, u8)) -> (r: OptionAndSub)
        ensures
            r == option_of(a.0, a.1),
    {
        OptionAndSub::new(a.0, a.1)
    }

    pub fn to_u8s(&self) -> (r: (u8, u8))
        ensures
            r == self.pair(),
    {
        match *self {
            OptionAndSub::MarAddr => (1, 1),
            OptionAndSub::IpAddr => (1, 2),
            OptionAndSub::FullIpSuite => (1, 3),
            OptionAndSub::ManufacturerSpecific => (2, 1),
            OptionAndSub::NameOfStation => (2, 2),
            OptionAndSub::DeviceId => (2, 3),
            OptionAndSub::DeviceRole => (2, 4),
            OptionAndSub::DeviceOptions => (2, 5),
            OptionAndSub::AliasName => (2, 6),
            OptionAndSub::StartTransaction => (5, 1),
            OptionAndSub::EndTransaction => (5, 2),
            OptionAndSub::Signal => (5, 3),
            OptionAndSub::Response => (5, 4),
            OptionAndSub::ResetFactory => (5, 6),
            OptionAndSub::DevicecInitiative => (6, 1),
            OptionAndSub::All => (255, 255),
            OptionAndSub::DHCP(a) => (3, a),
            OptionAndSub::LLDP(a) => (4, a),
            OptionAndSub::Other(a, b) => (a, b),
        }
    }

    pub fn to_u8_array(&self) -> (r: [u8; 2])
        ensures
            r@ == self.wire(),
    {
        let (a, b) = self.to_u8s();
        let r = [a, b];
        assert(r@ =~= self.wire());
        r
    }

    /// Appends the two bytes of the code.
    pub fn append_to(&self, data: &mut Vec<u8>)
        ensures
            final(data)@ == old(data)@ + self.wire(),
    {
        let (a, b) = self.to_u8s();
        data.push(a);
        data.push(b);
        assert(data@ =~= old(data)@ + self.wire());
    }
}

/// Decoding any two bytes and encoding the code gives the same two bytes back.
pub proof fn lemma_option_round_trip(a: u8, b: u8)
    ensures
        option_of(a, b).pair() == (a, b),
        option_of(a, b).canonical(),
{
}

} // verus!
verus! {

/// The two-byte info field of a common block.
#[derive(Debug, Clone, Copy, PartialEq, Eq)]
pub enum BlockInfo {
    Reserved,
    UnSupport([u8; 2]),
}

pub open spec fn block_info_of(a: u8, b: u8) -> BlockInfo {
    if a == 0 && b == 0 {
        BlockInfo::Reserved
    } else {
        BlockInfo::UnSupport([a, b])
    }
}

impl BlockInfo {
    pub open spec fn bytes(self) -> Seq<u8> {
        match self {
            BlockInfo::Reserved => seq![0u8, 0u8],
            BlockInfo::UnSupport(d) => d@,
        }
    }

    /// The value is the one its own bytes decode to.
    pub open spec fn canonical(self) -> bool {
        block_info_of(self.bytes()[0], self.bytes()[1]) == self
    }

    pub fn to_u8_array(&self) -> (r: [u8; 2])
        ensures
            r@ == self.bytes(),
    {
        let r = match self {
            BlockInfo::Reserved => [0u8, 0u8],
            BlockInfo::UnSupport(a) => *a,
        };
        assert(r@ =~= self.bytes());
        r
    }

    pub fn from_u8_array(data: [u8; 2]) -> (r: BlockInfo)
        ensures
            r == block_info_of(data[0], data[1]),
    {
        if data[0] == 0 && data[1] == 0 {
            BlockInfo::Reserved
        } else {
            BlockInfo::UnSupport([data[0], data[1]])
        }
    }
}

/// The two-byte qualifier of a set block.
#[derive(Debug, Clone, Copy, PartialEq, Eq)]
pub enum BlockQualifier {
    UseTemporary,
    SavePermanent,
    UnSupport([u8; 2]),
}

pub open spec fn block_qualifier_of(a: u8, b: u8) -> BlockQualifier {
    if a == 0 && b == 0 {
        BlockQualifier::UseTemporary
    } else if a == 0 && b == 1 {
        BlockQualifier::SavePermanent
    } else {
        BlockQualifier::UnSupport([a, b])
    }
}

impl BlockQualifier {
    pub open spec fn bytes(self) -> Seq<u8> {
        match self {
            BlockQualifier::UseTemporary => seq![0u8, 0u8],
            BlockQualifier::SavePermanent => seq![0u8, 1u8],
            BlockQualifier::UnSupport(d) => d@,
        }
    }

    pub open spec fn canonical(self) -> bool {
        block_qualifier_of(self.bytes()[0], self.bytes()[1]) == self
    }

    pub fn to_u8_array(&self) -> (r: [u8; 2])
        ensures
            r@ == self.bytes(),
    {
        let r = match self {
            BlockQualifier::UnSupport(a) => *a,
            BlockQualifier::UseTemporary => [0u8, 0u8],
            BlockQualifier::SavePermanent => [0u8, 1u8],
        };
        assert(r@ =~= self.bytes());
        r
    }

    pub fn from_u8_array(data: [u8; 2]) -> (r: BlockQualifier)
        ensures
            r == block_qualifier_of(data[0], data[1]),
    {
        if data[0] == 0 && data[1] == 0 {
            BlockQualifier::UseTemporary
        } else if data[0] == 0 && data[1] == 1 {
            BlockQualifier::SavePermanent
        } else {
            BlockQualifier::UnSupport([data[0], data[1]])
        }
    }
}

/// The two-byte info field of an IP block.
#[derive(Debug, Clone, Copy, PartialEq, Eq)]
pub enum IpBlockInfo {
    IpNotSet,
    IpSet,
    IpSetByDhcp,
    IpNotSetConflict,
    IpSetConflict,
    IpSetByDhcpConflict,
    UnSupport([u8; 2]),
}

pub open spec fn ip_block_info_of(a: u8, b: u8) -> IpBlockInfo {
    if a == 0 && b == 0 {
        IpBlockInfo::IpNotSet
    } else if a == 0 && b == 1 {
        IpBlockInfo::IpSet
    } else if a == 0 && b == 2 {
        IpBlockInfo::IpSetByDhcp
    } else if a == 0 && b == 0x80 {
        IpBlockInfo::IpNotSetConflict
    } else if a == 0 && b == 0x81 {
        IpBlockInfo::IpSetConflict
    } else if a == 0 && b == 0x82 {
        IpBlockInfo::IpSetByDhcpConflict
    } else {
        IpBlockInfo::UnSupport([a, b])
    }
}

impl IpBlockInfo {
    pub open spec fn bytes(self) -> Seq<u8> {
        match self {
            IpBlockInfo::IpNotSet => seq![0u8, 0u8],
            IpBlockInfo::IpSet => seq![0u8, 1u8],
            IpBlockInfo::IpSetByDhcp => seq![0u8, 2u8],
            IpBlockInfo::IpNotSetConflict => seq![0u8, 0x80u8],
            IpBlockInfo::IpSetConflict => seq![0u8, 0x81u8],
            IpBlockInfo::IpSetByDhcpConflict => seq![0u8, 0x82u8],
            IpBlockInfo::UnSupport(d) => d@,
        }
    }

    pub open spec fn canonical(self) -> bool {
        ip_block_info_of(self.bytes()[0], self.bytes()[1]) == self
    }

    pub fn to_u8_array(&self) -> (r: [u8; 2])
        ensures
            r@ == self.bytes(),
    {
        let r = match self {
            IpBlockInfo::IpNotSet => [0x00u8, 0x00u8],
            IpBlockInfo::IpSet => [0x00u8, 0x01u8],
            IpBlockInfo::IpSetByDhcp => [0x00u8, 0x02u8],
            IpBlockInfo::IpNotSetConflict => [0x00u8, 0x80u8],
            IpBlockInfo::IpSetConflict => [0x00u8, 0x81u8],
            IpBlockInfo::IpSetByDhcpConflict => [0x00u8, 0x82u8],
            IpBlockInfo::UnSupport(data) => *data,
        };
        assert(r@ =~= self.bytes());
        r
    }

    pub fn from_u8_array(data: [u8; 2]) -> (r: IpBlockInfo)
        ensures
            r == ip_block_info_of(data[0], data[1]),
    {
        if data[0] != 0 {
            IpBlockInfo::UnSupport([data[0], data[1]])
        } else if data[1] == 0 {
            IpBlockInfo::IpNotSet
        } else if data[1] == 1 {
            IpBlockInfo::IpSet
        } else if data[1] == 2 {
            IpBlockInfo::IpSetByDhcp
        } else if data[1] == 0x80 {
            IpBlockInfo::IpNotSetConflict
        } else if data[1] == 0x81 {
            IpBlockInfo::IpSetConflict
        } else if data[1] == 0x82 {
            IpBlockInfo::IpSetByDhcpConflict
        } else {
            IpBlockInfo::UnSupport([data[0], data[1]])
        }
    }
}

impl Default for IpBlockInfo {
    fn default() -> (r: IpBlockInfo)
        ensures
            r == IpBlockInfo::IpSet,
    {
        IpBlockInfo::IpSet
    }
}

/// The error byte of a response block.
#[derive(Debug, Clone, Copy, PartialEq, Eq)]
pub enum BlockError {
    NoError,
    OptionUnsupp,
    SuboptionUnsuppOrNoDataSetAvail,
    SuboptionNotSet,
    ResourceError,
    SETNotPossibleByLocalReasons,
    InOoperationSETNotPossible,
    UnSupport(u8),
}

pub open spec fn block_error_of(a: u8) -> BlockError {
    if a == 0 {
        BlockError::NoError
    } else if a == 1 {
        BlockError::OptionUnsupp
    } else if a == 2 {
        BlockError::SuboptionUnsuppOrNoDataSetAvail
    } else if a == 3 {
        BlockError::SuboptionNotSet
    } else if a == 4 {
        BlockError::ResourceError
    } else if a == 5 {
        BlockError::SETNotPossibleByLocalReasons
    } else if a == 6 {
        BlockError::InOoperationSETNotPossible
    } else {
        BlockError::UnSupport(a)
    }
}

impl BlockError {
    pub open spec fn byte(self) -> u8 {
        match self {
            BlockError::NoError => 0,
            BlockError::OptionUnsupp => 1,
            BlockError::SuboptionUnsuppOrNoDataSetAvail => 2,
            BlockError::SuboptionNotSet => 3,
            BlockError::ResourceError => 4,
            BlockError::SETNotPossibleByLocalReasons => 5,
            BlockError::InOoperationSETNotPossible => 6,
            BlockError::UnSupport(a) => a,
        }
    }

    pub open spec fn canonical(self) -> bool {
        block_error_of(self.byte()) == self
    }

    pub fn to_u8(&self) -> (r: u8)
        ensures
            r == self.byte(),
    {
        match self {
            BlockError::NoError => 0x00,
            BlockError::OptionUnsupp => 0x01,
            BlockError::SuboptionUnsuppOrNoDataSetAvail => 0x02,
            BlockError::SuboptionNotSet => 0x03,
            BlockError::ResourceError => 0x04,
            BlockError::SETNotPossibleByLocalReasons => 0x05,
            BlockError::InOoperationSETNotPossible => 0x06,
            BlockError::UnSupport(a) => *a,
        }
    }

    pub fn from_u8(value: u8) -> (r: BlockError)
        ensures
            r == block_error_of(value),
    {
        if value == 0x00 {
            BlockError::NoError
        } else if value == 0x01 {
            BlockError::OptionUnsupp
        } else if value == 0x02 {
            BlockError::SuboptionUnsuppOrNoDataSetAvail
        } else if value == 0x03 {
            BlockError::SuboptionNotSet
        } else if value == 0x04 {
            BlockError::ResourceError
        } else if value == 0x05 {
            BlockError::SETNotPossibleByLocalReasons
        } else if value == 0x06 {
            BlockError::InOoperationSETNotPossible
        } else {
            BlockError::UnSupport(value)
        }
    }
}

/// Decoding the bytes of any small field gives a canonical value with those
/// same bytes, and a canonical value decodes from its own bytes.
pub proof fn lemma_small_fields(a: u8, b: u8)
    ensures
        block_info_of(a, b).bytes() == seq![a, b],
        block_info_of(a, b).canonical(),
        block_qualifier_of(a, b).bytes() == seq![a, b],
        block_qualifier_of(a, b).canonical(),
        ip_block_info_of(a, b).bytes() == seq![a, b],
        ip_block_info_of(a, b).canonical(),
        block_error_of(a).byte() == a,
        block_error_of(a).canonical(),
{
    assert(block_info_of(a, b).bytes() =~= seq![a, b]);
    assert(block_qualifier_of(a, b).bytes() =~= seq![a, b]);
    assert(ip_block_info_of(a, b).bytes() =~= seq![a, b]);
}

} // verus!
verus! {

/// Address, subnet mask and gateway, each as four octets.
#[derive(Debug, Clone, Copy, PartialEq, Eq)]
pub struct InnerIpAddr(pub [u8; 4], pub [u8; 4], pub [u8; 4]);

/// Four bytes of `s` from `at` on, as an array.
pub open spec fn quad_at(s: Seq<u8>, at: int) -> [u8; 4] {
    [s[at], s[at + 1], s[at + 2], s[at + 3]]
}

pub open spec fn ip_of(s: Seq<u8>) -> InnerIpAddr {
    InnerIpAddr(quad_at(s, 0), quad_at(s, 4), quad_at(s, 8))
}

impl InnerIpAddr {
    pub open spec fn bytes(self) -> Seq<u8> {
        self.0@ + self.1@ + self.2@
    }

    /// The first twelve bytes of `data`; fails with `RangeError` on fewer.
    pub fn new(data: BytesWrap) -> (r: Result<InnerIpAddr, DcpError>)
        ensures
            data@.len() >= 12 ==> r == Ok::<InnerIpAddr, DcpError>(ip_of(data@)),
            data@.len() < 12 ==> r == Err::<InnerIpAddr, DcpError>(DcpError::RangeError),
    {
        let val = data.slice(0, 12)?;
        let v = val.as_bytes();
        Ok(
            InnerIpAddr(
                [v[0], v[1], v[2], v[3]],
                [v[4], v[5], v[6], v[7]],
                [v[8], v[9], v[10], v[11]],
            ),
        )
    }

    pub fn new_by_ipv4(ip: [u8; 4], subnetmask: [u8; 4], gateway: [u8; 4]) -> (r: InnerIpAddr)
        ensures
            r == InnerIpAddr(ip, subnetmask, gateway),
    {
        InnerIpAddr(ip, subnetmask, gateway)
    }

    pub fn append_value_to_data(&self, data: &mut Vec<u8>)
        ensures
            final(data)@ == old(data)@ + self.bytes(),
    {
        crate::comm::slice_copy_to_vec(data, self.0.as_slice());
        crate::comm::slice_copy_to_vec(data, self.1.as_slice());
        crate::comm::slice_copy_to_vec(data, self.2.as_slice());
        assert(data@ =~= old(data)@ + self.bytes());
    }

    pub fn payload_size(&self) -> (r: usize)
        ensures
            r == self.bytes().len(),
    {
        12
    }

    pub fn to_option(self) -> (r: OptionAndSubValue)
        ensures
            r@ == ValueModel::IpAddr(self),
    {
        OptionAndSubValue::IpAddr(self)
    }
}

/// An echoed option code and the error byte for it.
#[derive(Debug, Clone, Copy, PartialEq, Eq)]
pub struct Response(pub OptionAndSub, pub BlockError);

pub open spec fn response_of(s: Seq<u8>) -> Response {
    Response(option_of(s[0], s[1]), block_error_of(s[2]))
}

impl Response {
    pub open spec fn bytes(self) -> Seq<u8> {
        self.0.wire().push(self.1.byte())
    }

    pub open spec fn canonical(self) -> bool {
        self.0.canonical() && self.1.canonical()
    }

    /// The length of the value with its two-byte length field.
    pub fn len(&self) -> (r: usize)
        ensures
            r == self.bytes().len() + 2,
    {
        5
    }

    /// The length of the value.
    pub fn payload(&self) -> (r: u16)
        ensures
            r == self.bytes().len(),
    {
        3
    }

    pub fn append_value_to_data(&self, data: &mut Vec<u8>)
        ensures
            final(data)@ == old(data)@ + self.bytes(),
    {
        self.0.append_to(data);
        data.push(self.1.to_u8());
        assert(data@ =~= old(data)@ + self.bytes());
    }

    pub fn to_option(self) -> (r: OptionAndSubValue)
        ensures
            r@ == ValueModel::Response(self),
    {
        OptionAndSubValue::Response(self)
    }

    /// The first three bytes of `data`; fails with `RangeError` on fewer.
    pub fn from_bytes(data: &BytesWrap) -> (r: Result<Response, DcpError>)
        ensures
            data@.len() >= 3 ==> r == Ok::<Response, DcpError>(response_of(data@)),
            data@.len() < 3 ==> r == Err::<Response, DcpError>(DcpError::RangeError),
    {
        let val = data.slice(0, 3)?;
        let v = val.as_bytes();
        Ok(Response(OptionAndSub::new(v[0], v[1]), BlockError::from_u8(v[2])))
    }
}

/// The bytes of a list of codes, two for each.
pub open spec fn codes_wire(s: Seq<OptionAndSub>) -> Seq<u8>
    decreases s.len(),
{
    if s.len() == 0 {
        seq![]
    } else {
        codes_wire(s.drop_last()) + s.last().wire()
    }
}

/// The codes that the byte pairs of `s` stand for.
pub open spec fn codes_of(s: Seq<u8>) -> Seq<OptionAndSub> {
    Seq::new((s.len() / 2) as nat, |i: int| option_of(s[2 * i], s[2 * i + 1]))
}

pub proof fn lemma_codes_wire_index(s: Seq<OptionAndSub>)
    ensures
        codes_wire(s).len() == 2 * s.len(),
        forall|i: int|
            0 <= i < s.len() ==> #[trigger] codes_wire(s)[2 * i] == s[i].pair().0 && codes_wire(
                s,
            )[2 * i + 1] == s[i].pair().1,
    decreases s.len(),
{
    if s.len() > 0 {
        lemma_codes_wire_index(s.drop_last());
        assert forall|i: int| 0 <= i < s.len() implies #[trigger] codes_wire(s)[2 * i]
            == s[i].pair().0 && codes_wire(s)[2 * i + 1] == s[i].pair().1 by {
            if i < s.len() - 1 {
                assert(s.drop_last()[i] == s[i]);
            }
        }
    }
}

/// Canonical codes come back from their bytes.
pub proof fn lemma_codes_round_trip(s: Seq<OptionAndSub>)
    requires
        forall|i: int| 0 <= i < s.len() ==> #[trigger] s[i].canonical(),
    ensures
        codes_of(codes_wire(s)) == s,
{
    lemma_codes_wire_index(s);
    let w = codes_wire(s);
    assert(w.len() == 2 * s.len());
    assert(codes_of(w).len() == s.len());
    assert forall|i: int| 0 <= i < s.len() implies #[trigger] codes_of(w)[i] == s[i] by {
        assert(codes_wire(s)[2 * i] == s[i].pair().0);
        assert(codes_wire(s)[2 * i + 1] == s[i].pair().1);
        assert(s[i].canonical());
    }
    assert(codes_of(w) =~= s);
}

/// Even-length bytes come back from the codes they decode to.
pub proof fn lemma_codes_of_wire(b: Seq<u8>)
    requires
        b.len() % 2 == 0,
    ensures
        codes_wire(codes_of(b)) == b,
        forall|i: int| 0 <= i < codes_of(b).len() ==> #[trigger] codes_of(b)[i].canonical(),
{
    let s = codes_of(b);
    lemma_codes_wire_index(s);
    assert forall|k: int| 0 <= k < b.len() implies #[trigger] codes_wire(s)[k] == b[k] by {
        let i = k / 2;
        lemma_option_round_trip(b[2 * i], b[2 * i + 1]);
        assert(s[i] == option_of(b[2 * i], b[2 * i + 1]));
        assert(codes_wire(s)[2 * i] == s[i].pair().0 && codes_wire(s)[2 * i + 1] == s[i].pair().1);
        assert(k == 2 * i || k == 2 * i + 1);
    }
    assert(codes_wire(s) =~= b);
    assert forall|i: int| 0 <= i < s.len() implies #[trigger] s[i].canonical() by {
        lemma_option_round_trip(b[2 * i], b[2 * i + 1]);
    }
}

/// What a decoded option value holds, with byte blobs as sequences.
pub enum ValueModel {
    IpAddr(InnerIpAddr),
    ManufacturerSpecific(Seq<u8>),
    NameOfStation(Seq<u8>),
    DeviceId([u8; 2], [u8; 2]),
    DeviceRole(u8, u8),
    DeviceOptions(Seq<OptionAndSub>),
    Response(Response),
}

impl ValueModel {
    /// The option code of the value.
    pub open spec fn code(self) -> OptionAndSub {
        match self {
            ValueModel::IpAddr(_) => OptionAndSub::IpAddr,
            ValueModel::ManufacturerSpecific(_) => OptionAndSub::ManufacturerSpecific,
            ValueModel::NameOfStation(_) => OptionAndSub::NameOfStation,
            ValueModel::DeviceId(_, _) => OptionAndSub::DeviceId,
            ValueModel::DeviceRole(_, _) => OptionAndSub::DeviceRole,
            ValueModel::DeviceOptions(_) => OptionAndSub::DeviceOptions,
            ValueModel::Response(_) => OptionAndSub::Response,
        }
    }

    /// The encoded value bytes.
    pub open spec fn bytes(self) -> Seq<u8> {
        match self {
            ValueModel::IpAddr(ip) => ip.bytes(),
            ValueModel::ManufacturerSpecific(b) => b,
            ValueModel::NameOfStation(b) => b,
            ValueModel::DeviceId(a, b) => a@ + b@,
            ValueModel::DeviceRole(a, b) => seq![a, b],
            ValueModel::DeviceOptions(s) => codes_wire(s),
            ValueModel::Response(r) => r.bytes(),
        }
    }

    /// Every code inside the value is canonical.
    pub open spec fn canonical(self) -> bool {
        match self {
            ValueModel::DeviceOptions(s) => forall|i: int| 0 <= i < s.len() ==> #[trigger] s[i].canonical(),
            ValueModel::Response(r) => r.canonical(),
            _ => true,
        }
    }
}

/// The value that `body` decodes to under `code`.
pub open spec fn parse_value(code: OptionAndSub, body: Seq<u8>) -> Result<ValueModel, DcpError> {
    match code {
        OptionAndSub::IpAddr => if body.len() >= 12 {
            Ok(ValueModel::IpAddr(ip_of(body)))
        } else {
            Err(DcpError::Truncated)
        },
        OptionAndSub::ManufacturerSpecific => Ok(ValueModel::ManufacturerSpecific(body)),
        OptionAndSub::NameOfStation => Ok(ValueModel::NameOfStation(body)),
        OptionAndSub::DeviceId => if body.len() >= 4 {
            Ok(ValueModel::DeviceId([body[0], body[1]], [body[2], body[3]]))
        } else {
            Err(DcpError::Truncated)
        },
        OptionAndSub::DeviceRole => if body.len() >= 2 {
            Ok(ValueModel::DeviceRole(body[0], body[1]))
        } else {
            Err(DcpError::Truncated)
        },
        OptionAndSub::DeviceOptions => if body.len() % 2 == 0 {
            Ok(ValueModel::DeviceOptions(codes_of(body)))
        } else {
            Err(DcpError::Truncated)
        },
        OptionAndSub::Response => if body.len() >= 3 {
            Ok(ValueModel::Response(response_of(body)))
        } else {
            Err(DcpError::Truncated)
        },
        _ => Err(DcpError::UnsupportedOption),
    }
}

/// The value that `body` decodes to under `code` has that code, is canonical
/// and is encoded as the first bytes of `body` (all of them for the
/// variable-length values); a canonical value decodes from its own code and
/// bytes.
pub proof fn lemma_value_round_trip(v: ValueModel, code: OptionAndSub, body: Seq<u8>)
    ensures
        v.canonical() ==> parse_value(v.code(), v.bytes()) == Ok::<ValueModel, DcpError>(v),
        parse_value(code, body) is Ok ==> {
            let w = parse_value(code, body)->Ok_0;
            &&& w.code() == code
            &&& w.bytes().len() <= body.len()
            &&& w.bytes() == body.take(w.bytes().len() as int)
            &&& w.canonical()
        },
{
    match v {
        ValueModel::IpAddr(ip) => {
            assert(quad_at(ip.bytes(), 0) =~= ip.0);
            assert(quad_at(ip.bytes(), 4) =~= ip.1);
            assert(quad_at(ip.bytes(), 8) =~= ip.2);
        },
        ValueModel::DeviceId(a, b) => {
            assert([(a@ + b@)[0], (a@ + b@)[1]] =~= a);
            assert([(a@ + b@)[2], (a@ + b@)[3]] =~= b);
        },
        ValueModel::DeviceOptions(s) => {
            if v.canonical() {
                lemma_codes_round_trip(s);
                lemma_codes_wire_index(s);
            }
        },
        ValueModel::Response(r) => {
            if v.canonical() {
                let b = r.bytes();
                assert(b[0] == r.0.pair().0 && b[1] == r.0.pair().1 && b[2] == r.1.byte());
            }
        },
        _ => {},
    }
    match code {
        OptionAndSub::IpAddr => {
            if body.len() >= 12 {
                assert(ip_of(body).bytes() =~= body.take(12));
            }
        },
        OptionAndSub::DeviceId => {
            if body.len() >= 4 {
                assert([body[0], body[1]]@ + [body[2], body[3]]@ =~= body.take(4));
            }
        },
        OptionAndSub::DeviceRole => {
            if body.len() >= 2 {
                assert(seq![body[0], body[1]] =~= body.take(2));
            }
        },
        OptionAndSub::DeviceOptions => {
            if body.len() % 2 == 0 {
                lemma_codes_of_wire(body);
                assert(body.take(body.len() as int) =~= body);
            }
        },
        OptionAndSub::Response => {
            if body.len() >= 3 {
                lemma_option_round_trip(body[0], body[1]);
                lemma_small_fields(body[2], 0);
                assert(response_of(body).bytes() =~= body.take(3));
            }
        },
        _ => {},
    }
}

} // verus!
verus! {

/// A decoded option value.
#[derive(Debug, PartialEq, Eq)]
pub enum OptionAndSubValue {
    IpAddr(InnerIpAddr),
    ManufacturerSpecific(BytesWrap),
    NameOfStation(BytesWrap),
    DeviceId([u8; 2], [u8; 2]),
    DeviceRole(u8, u8),
    DeviceOptions(Vec<OptionAndSub>),
    Response(Response),
}

impl View for OptionAndSubValue {
    type V = ValueModel;

    open spec fn view(&self) -> ValueModel {
        match self {
            OptionAndSubValue::IpAddr(ip) => ValueModel::IpAddr(*ip),
            OptionAndSubValue::ManufacturerSpecific(b) => ValueModel::ManufacturerSpecific(b@),
            OptionAndSubValue::NameOfStation(b) => ValueModel::NameOfStation(b@),
            OptionAndSubValue::DeviceId(a, b) => ValueModel::DeviceId(*a, *b),
            OptionAndSubValue::DeviceRole(a, b) => ValueModel::DeviceRole(*a, *b),
            OptionAndSubValue::DeviceOptions(v) => ValueModel::DeviceOptions(v@),
            OptionAndSubValue::Response(r) => ValueModel::Response(*r),
        }
    }
}

impl Clone for OptionAndSubValue {
    fn clone(&self) -> (r: OptionAndSubValue)
        ensures
            r@ == self@,
    {
        match self {
            OptionAndSubValue::IpAddr(ip) => OptionAndSubValue::IpAddr(*ip),
            OptionAndSubValue::ManufacturerSpecific(b) => OptionAndSubValue::ManufacturerSpecific(
                b.clone(),
            ),
            OptionAndSubValue::NameOfStation(b) => OptionAndSubValue::NameOfStation(b.clone()),
            OptionAndSubValue::DeviceId(a, b) => OptionAndSubValue::DeviceId(*a, *b),
            OptionAndSubValue::DeviceRole(a, b) => OptionAndSubValue::DeviceRole(*a, *b),
            OptionAndSubValue::DeviceOptions(v) => {
                let mut out: Vec<OptionAndSub> = Vec::new();
                let mut i: usize = 0;
                while i < v.len()
                    invariant
                        i <= v@.len(),
                        out@ == v@.subrange(0, i as int),
                    decreases v@.len() - i,
                {
                    out.push(v[i]);
                    i += 1;
                    assert(out@ =~= v@.subrange(0, i as int));
                }
                assert(out@ =~= v@);
                OptionAndSubValue::DeviceOptions(out)
            },
            OptionAndSubValue::Response(r) => OptionAndSubValue::Response(*r),
        }
    }
}

impl OptionAndSubValue {
    pub fn code(&self) -> (r: OptionAndSub)
        ensures
            r == self@.code(),
    {
        match self {
            OptionAndSubValue::IpAddr(_) => OptionAndSub::IpAddr,
            OptionAndSubValue::ManufacturerSpecific(_) => OptionAndSub::ManufacturerSpecific,
            OptionAndSubValue::NameOfStation(_) => OptionAndSub::NameOfStation,
            OptionAndSubValue::DeviceId(_, _) => OptionAndSub::DeviceId,
            OptionAndSubValue::DeviceRole(_, _) => OptionAndSub::DeviceRole,
            OptionAndSubValue::DeviceOptions(_) => OptionAndSub::DeviceOptions,
            OptionAndSubValue::Response(_) => OptionAndSub::Response,
        }
    }

    pub fn append_option_to_data(&self, data: &mut Vec<u8>)
        ensures
            final(data)@ == old(data)@ + self@.code().wire(),
    {
        let code = self.code();
        code.append_to(data);
    }

    pub fn append_value_to_data(&self, data: &mut Vec<u8>)
        ensures
            final(data)@ == old(data)@ + self@.bytes(),
    {
        match self {
            OptionAndSubValue::IpAddr(a) => {
                a.append_value_to_data(data);
            },
            OptionAndSubValue::ManufacturerSpecific(val) => {
                crate::comm::slice_copy_to_vec(data, val.as_bytes());
            },
            OptionAndSubValue::NameOfStation(val) => {
                crate::comm::slice_copy_to_vec(data, val.as_bytes());
            },
            OptionAndSubValue::DeviceId(a, b) => {
                crate::comm::slice_copy_to_vec(data, a.as_slice());
                crate::comm::slice_copy_to_vec(data, b.as_slice());
                assert(data@ =~= old(data)@ + self@.bytes());
            },
            OptionAndSubValue::DeviceRole(a, b) => {
                data.push(*a);
                data.push(*b);
                assert(data@ =~= old(data)@ + self@.bytes());
            },
            OptionAndSubValue::DeviceOptions(val) => {
                let mut i: usize = 0;
                while i < val.len()
                    invariant
                        i <= val@.len(),
                        data@ == old(data)@ + codes_wire(val@.subrange(0, i as int)),
                    decreases val@.len() - i,
                {
                    let ghost before = data@;
                    val[i].append_to(data);
                    i += 1;
                    assert(val@.subrange(0, i as int).drop_last() =~= val@.subrange(0, i - 1));
                    assert(data@ =~= old(data)@ + codes_wire(val@.subrange(0, i as int)));
                }
                assert(val@.subrange(0, val@.len() as int) =~= val@);
            },
            OptionAndSubValue::Response(a) => {
                a.append_value_to_data(data);
            },
        }
    }

    /// The value that `data` decodes to under `ty`.
    pub fn init_by_ty(ty: OptionAndSub, data: BytesWrap) -> (r: Result<OptionAndSubValue, DcpError>)
        ensures
            match r {
                Ok(v) => parse_value(ty, data@) == Ok::<ValueModel, DcpError>(v@),
                Err(e) => parse_value(ty, data@) == Err::<ValueModel, DcpError>(e),
            },
    {
        let len = data.len();
        match ty {
            OptionAndSub::IpAddr => {
                if len < 12 {
                    return Err(DcpError::Truncated);
                }
                let ip = InnerIpAddr::new(data)?;
                Ok(OptionAndSubValue::IpAddr(ip))
            },
            OptionAndSub::ManufacturerSpecific => Ok(OptionAndSubValue::ManufacturerSpecific(data)),
            OptionAndSub::NameOfStation => Ok(OptionAndSubValue::NameOfStation(data)),
            OptionAndSub::DeviceId => {
                if len < 4 {
                    return Err(DcpError::Truncated);
                }
                let v = data.as_bytes();
                Ok(OptionAndSubValue::DeviceId([v[0], v[1]], [v[2], v[3]]))
            },
            OptionAndSub::DeviceRole => {
                if len < 2 {
                    return Err(DcpError::Truncated);
                }
                let v = data.as_bytes();
                Ok(OptionAndSubValue::DeviceRole(v[0], v[1]))
            },
            OptionAndSub::DeviceOptions => {
                if len % 2 != 0 {
                    return Err(DcpError::Truncated);
                }
                let v = data.as_bytes();
                let mut options: Vec<OptionAndSub> = Vec::new();
                let mut index: usize = 0;
                while index < len
                    invariant
                        len == v@.len(),
                        v@ == data@,
                        len % 2 == 0,
                        index % 2 == 0,
                        index <= len,
                        options@.len() == index / 2,
                        forall|j: int|
                            0 <= j < options@.len() ==> #[trigger] options@[j] == option_of(
                                v@[2 * j],
                                v@[2 * j + 1],
                            ),
                    decreases len - index,
                {
                    options.push(OptionAndSub::new(v[index], v[index + 1]));
                    index += 2;
                }
                assert(options@ =~= codes_of(data@));
                Ok(OptionAndSubValue::DeviceOptions(options))
            },
            OptionAndSub::Response => {
                if len < 3 {
                    return Err(DcpError::Truncated);
                }
                let resp = Response::from_bytes(&data)?;
                Ok(OptionAndSubValue::Response(resp))
            },
            _ => Err(DcpError::UnsupportedOption),
        }
    }

    /// Appends the option code, the two-byte value length and the value.
    pub fn encode(&self, out: &mut Vec<u8>)
        requires
            self@.bytes().len() <= 0xffff,
        ensures
            final(out)@ == old(out)@ + self@.code().wire() + crate::comm::be16(
                self@.bytes().len(),
            ) + self@.bytes(),
    {
        self.append_option_to_data(out);
        let len = crate::comm::u16_to_u8s(self.payload_size() as u16);
        crate::comm::slice_copy_to_vec(out, len.as_slice());
        self.append_value_to_data(out);
        assert(out@ =~= old(out)@ + self@.code().wire() + crate::comm::be16(self@.bytes().len())
            + self@.bytes());
    }

    /// The number of value bytes.
    pub fn payload_size(&self) -> (r: usize)
        requires
            self@.bytes().len() <= usize::MAX,
        ensures
            r == self@.bytes().len(),
    {
        match self {
            OptionAndSubValue::IpAddr(_) => 12,
            OptionAndSubValue::ManufacturerSpecific(val) => val.len(),
            OptionAndSubValue::NameOfStation(val) => val.len(),
            OptionAndSubValue::DeviceId(_, _) => 4,
            OptionAndSubValue::DeviceRole(_, _) => 2,
            OptionAndSubValue::DeviceOptions(val) => {
                proof {
                    lemma_codes_wire_index(val@);
                }
                val.len() * 2
            },
            OptionAndSubValue::Response(_) => 3,
        }
    }
}

/// Collects option codes into a `DeviceOptions` value.
pub struct DeviceOptionsBuilder(Vec<OptionAndSub>);

impl View for DeviceOptionsBuilder {
    type V = Seq<OptionAndSub>;

    closed spec fn view(&self) -> Seq<OptionAndSub> {
        self.0@
    }
}

impl Default for DeviceOptionsBuilder {
    fn default() -> (r: DeviceOptionsBuilder)
        ensures
            r@ == Seq::<OptionAndSub>::empty(),
    {
        DeviceOptionsBuilder(Vec::new())
    }
}

impl DeviceOptionsBuilder {
    pub fn append_option(self, option: OptionAndSub) -> (r: DeviceOptionsBuilder)
        ensures
            r@ == self@.push(option),
    {
        let mut options = self.0;
        options.push(option);
        DeviceOptionsBuilder(options)
    }

    pub fn build(self) -> (r: OptionAndSubValue)
        ensures
            r@ == ValueModel::DeviceOptions(self@),
    {
        OptionAndSubValue::DeviceOptions(self.0)
    }
}

} // verus!
