use vstd::prelude::*;

verus! {

#[verifier::external_type_specification]
#[verifier::external_body]
pub struct ExBytes(bytes::Bytes);

/// What a `bytes::Bytes` buffer holds.
pub uninterp spec fn bytes_content(b: bytes::Bytes) -> Seq<u8>;

/// Relies on `Bytes::from(Vec<u8>)`: the buffer takes over the vector's bytes.
#[verifier::external_body]
fn bytes_from_vec(v: Vec<u8>) -> (r: bytes::Bytes)
    ensures
        bytes_content(r) == v@,
{
    bytes::Bytes::from(v)
}

/// Relies on `Bytes::len`: the number of bytes in the buffer.
#[verifier::external_body]
fn bytes_len(b: &bytes::Bytes) -> (r: usize)
    ensures
        r == bytes_content(*b).len(),
{
    b.len()
}

/// Relies on `Bytes::slice`: a handle on `begin..end` of the buffer; it panics
/// unless `begin <= end <= len`.
#[verifier::external_body]
fn bytes_slice(b: &bytes::Bytes, begin: usize, end: usize) -> (r: bytes::Bytes)
    requires
        begin <= end <= bytes_content(*b).len(),
    ensures
        bytes_content(r) == bytes_content(*b).subrange(begin as int, end as int),
{
    b.slice(begin..end)
}

/// Relies on `Bytes::split_off`: afterwards `b` holds `[0, at)` and the result
/// `[at, len)`; it panics if `at > len`.
#[verifier::external_body]
fn bytes_split_off(b: &mut bytes::Bytes, at: usize) -> (r: bytes::Bytes)
    requires
        at <= bytes_content(*old(b)).len(),
    ensures
        bytes_content(*final(b)) == bytes_content(*old(b)).subrange(0, at as int),
        bytes_content(r) == bytes_content(*old(b)).subrange(
            at as int,
            bytes_content(*old(b)).len() as int,
        ),
{
    b.split_off(at)
}

/// Relies on `Bytes::clone`: a second handle on the same bytes.
#[verifier::external_body]
fn bytes_clone(b: &bytes::Bytes) -> (r: bytes::Bytes)
    ensures
        bytes_content(r) == bytes_content(*b),
{
    b.clone()
}

/// Relies on `Bytes`'s `Deref<Target = [u8]>`: the buffer's bytes as a slice.
#[verifier::external_body]
fn bytes_as_slice(b: &bytes::Bytes) -> (r: &[u8])
    ensures
        r@ == bytes_content(*b),
{
    b.as_ref()
}

/// A cheaply cloneable, bounds-checked view over a byte buffer.
#[derive(Debug)]
pub struct BytesWrap(bytes::Bytes);

impl PartialEq for BytesWrap {
    fn eq(&self, other: &BytesWrap) -> (r: bool) {
        let a = self.as_bytes();
        let b = other.as_bytes();
        if a.len() != b.len() {
            return false;
        }
        let mut i: usize = 0;
        while i < a.len()
            invariant
                a@ == self@,
                b@ == other@,
                a@.len() == b@.len(),
                i <= a@.len(),
                a@.subrange(0, i as int) == b@.subrange(0, i as int),
            decreases a@.len() - i,
        {
            if a[i] != b[i] {
                assert(a@[i as int] != b@[i as int]);
                return false;
            }
            assert(a@.subrange(0, i + 1) =~= a@.subrange(0, i as int).push(a@[i as int]));
            assert(b@.subrange(0, i + 1) =~= b@.subrange(0, i as int).push(b@[i as int]));
            i += 1;
        }
        assert(a@ =~= a@.subrange(0, i as int));
        assert(b@ =~= b@.subrange(0, i as int));
        true
    }
}

impl vstd::std_specs::cmp::PartialEqSpecImpl for BytesWrap {
    open spec fn obeys_eq_spec() -> bool {
        true
    }

    open spec fn eq_spec(&self, other: &BytesWrap) -> bool {
        self@ == other@
    }
}

impl Eq for BytesWrap {}

impl View for BytesWrap {
    type V = Seq<u8>;

    closed spec fn view(&self) -> Seq<u8> {
        bytes_content(self.0)
    }
}

impl BytesWrap {
    pub fn from_vec(v: Vec<u8>) -> (r: BytesWrap)
        ensures
            r@ == v@,
    {
        BytesWrap(bytes_from_vec(v))
    }

    pub fn len(&self) -> (r: usize)
        ensures
            r == self@.len(),
    {
        bytes_len(&self.0)
    }

    pub fn split_off(&mut self, at: usize) -> (r: Result<BytesWrap, DcpError>)
        ensures
            at <= old(self)@.len() ==> (r matches Ok(tail) && tail@ == old(self)@.subrange(
                at as int,
                old(self)@.len() as int,
            ) && final(self)@ == old(self)@.subrange(0, at as int)),
            at > old(self)@.len() ==> r == Err::<BytesWrap, DcpError>(DcpError::RangeError)
                && final(self)@ == old(self)@,
    {
        if at > self.len() {
            return Err(DcpError::RangeError);
        }
        Ok(BytesWrap(bytes_split_off(&mut self.0, at)))
    }

    /// The bytes `begin..end`; fails unless `begin <= end <= len`.
    pub fn slice(&self, begin: usize, end: usize) -> (r: Result<BytesWrap, DcpError>)
        ensures
            begin <= end <= self@.len() ==> (r matches Ok(part) && part@ == self@.subrange(
                begin as int,
                end as int,
            )),
            !(begin <= end <= self@.len()) ==> r == Err::<BytesWrap, DcpError>(
                DcpError::RangeError,
            ),
    {
        if begin > end || end > self.len() {
            return Err(DcpError::RangeError);
        }
        Ok(BytesWrap(bytes_slice(&self.0, begin, end)))
    }

    /// The bytes from `begin` to the end; fails if `begin > len`.
    pub fn slice_from(&self, begin: usize) -> (r: Result<BytesWrap, DcpError>)
        ensures
            begin <= self@.len() ==> (r matches Ok(part) && part@ == self@.subrange(
                begin as int,
                self@.len() as int,
            )),
            begin > self@.len() ==> r == Err::<BytesWrap, DcpError>(DcpError::RangeError),
    {
        let len = self.len();
        self.slice(begin, len)
    }

    pub fn as_bytes(&self) -> (r: &[u8])
        ensures
            r@ == self@,
    {
        bytes_as_slice(&self.0)
    }

    pub fn to_vec(&self) -> (r: Vec<u8>)
        ensures
            r@ == self@,
    {
        let s = self.as_bytes();
        let mut out: Vec<u8> = Vec::new();
        slice_copy_to_vec(&mut out, s);
        out
    }
}

impl Clone for BytesWrap {
    fn clone(&self) -> (r: BytesWrap)
        ensures
            r@ == self@,
    {
        BytesWrap(bytes_clone(&self.0))
    }
}

/// The failures of decoding and of bounds-checked slicing.
#[derive(Debug, Clone, Copy, PartialEq, Eq)]
pub enum DcpError {
    /// A sub-range outside the buffer was asked for.
    RangeError,
    /// A declared length disagrees with the bytes present.
    Truncated,
    /// The ethertype is not the PROFINET one.
    NotProfinet,
    /// The message-type tag is none of the recognised ones.
    UnknownMessageType,
    /// The message type is not the one of the packet being decoded.
    WrongKind,
    /// The option code has no value layout here, or no block shape in this packet kind.
    UnsupportedOption,
    /// The byte after an odd-length block is not zero. The wire format pads
    /// with a zero byte; any other byte is taken as a corrupt frame rather
    /// than passed over, so that every decoded frame encodes back to itself.
    BadPadding,
    /// A block's length field declares more value bytes than its fixed-size
    /// value (an address triple, a device id or role, a response) takes. The
    /// block is refused rather than cut short, for the same reason.
    LengthMismatch,
}

/// The two bytes of `v` in big-endian order.
pub open spec fn be16(v: nat) -> Seq<u8> {
    seq![(v / 256) as u8, (v % 256) as u8]
}

/// The four bytes of `v` in big-endian order.
pub open spec fn be32(v: nat) -> Seq<u8> {
    seq![(v / 0x1000000) as u8, ((v / 0x10000) % 256) as u8, ((v / 256) % 256) as u8, (v % 256) as u8]
}

/// The big-endian value of two bytes.
pub open spec fn from_be16(hi: u8, lo: u8) -> nat {
    (hi as nat) * 256 + lo as nat
}

pub proof fn lemma_be16_from(hi: u8, lo: u8)
    ensures
        from_be16(hi, lo) < 0x10000,
        be16(from_be16(hi, lo)) == seq![hi, lo],
{
    assert(be16(from_be16(hi, lo)) =~= seq![hi, lo]);
}

pub proof fn lemma_from_be16(n: nat)
    requires
        n < 0x10000,
    ensures
        be16(n).len() == 2,
        from_be16(be16(n)[0], be16(n)[1]) == n,
{
}

pub fn u16_to_u8s(a: u16) -> (r: [u8; 2])
    ensures
        r@ == be16(a as nat),
{
    let r = [(a / 256) as u8, (a % 256) as u8];
    assert(r@ =~= be16(a as nat));
    r
}

pub fn u32_to_u8s(a: u32) -> (r: [u8; 4])
    ensures
        r@ == be32(a as nat),
{
    let r = [(a / 0x1000000) as u8, ((a / 0x10000) % 256) as u8, ((a / 256) % 256) as u8, (a % 256) as u8];
    assert(r@ =~= be32(a as nat));
    r
}

pub fn to_u16(a: u8, b: u8) -> (r: u16)
    ensures
        r as nat == from_be16(a, b),
{
    (a as u16) * 256 + b as u16
}

/// Appends every byte of `data` to `vec`.
pub fn slice_copy_to_vec(vec: &mut Vec<u8>, data: &[u8])
    ensures
        final(vec)@ == old(vec)@ + data@,
{
    let mut i: usize = 0;
    while i < data.len()
        invariant
            i <= data@.len(),
            vec@ == old(vec)@ + data@.subrange(0, i as int),
        decreases data@.len() - i,
    {
        vec.push(data[i]);
        i += 1;
        assert(data@.subrange(0, i as int) =~= data@.subrange(0, i - 1) + seq![data@[i - 1]]);
    }
    assert(data@.subrange(0, data@.len() as int) =~= data@);
}

/// Appends the two bytes of `data` to `vec`.
pub fn group_copy_to_vec(vec: &mut Vec<u8>, data: &(u8, u8))
    ensures
        final(vec)@ == old(vec)@ + seq![data.0, data.1],
{
    vec.push(data.0);
    vec.push(data.1);
    assert(vec@ =~= old(vec)@ + seq![data.0, data.1]);
}

/// A 6-byte link-layer address.
#[derive(Debug, Clone, Copy, PartialEq, Eq, Hash)]
pub struct MacAddr(pub u8, pub u8, pub u8, pub u8, pub u8, pub u8);

impl MacAddr {
    pub open spec fn octets_spec(self) -> Seq<u8> {
        seq![self.0, self.1, self.2, self.3, self.4, self.5]
    }

    pub fn new(a: u8, b: u8, c: u8, d: u8, e: u8, f: u8) -> (r: MacAddr)
        ensures
            r == MacAddr(a, b, c, d, e, f),
    {
        MacAddr(a, b, c, d, e, f)
    }

    pub fn octets(&self) -> (r: [u8; 6])
        ensures
            r@ == self.octets_spec(),
    {
        let r = [self.0, self.1, self.2, self.3, self.4, self.5];
        assert(r@ =~= self.octets_spec());
        r
    }
}

/// The ethertype of PROFINET frames.
pub const PROFINET_ETHER_TYPE: u16 = 0x8892;

} // verus!
