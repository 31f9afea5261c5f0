//! The STUN message header and attributes of RFC 5389, read and written in
//! network byte order.
//!
//! A header is twenty bytes:
//!
//! ```text
//!  0                   1                   2                   3
//!  0 1 2 3 4 5 6 7 8 9 0 1 2 3 4 5 6 7 8 9 0 1 2 3 4 5 6 7 8 9 0 1
//! +-+-+-+-+-+-+-+-+-+-+-+-+-+-+-+-+-+-+-+-+-+-+-+-+-+-+-+-+-+-+-+-+
//! |0 0|     STUN Message Type     |         Message Length        |
//! +-+-+-+-+-+-+-+-+-+-+-+-+-+-+-+-+-+-+-+-+-+-+-+-+-+-+-+-+-+-+-+-+
//! |                         Magic Cookie (0x2112A442)             |
//! +-+-+-+-+-+-+-+-+-+-+-+-+-+-+-+-+-+-+-+-+-+-+-+-+-+-+-+-+-+-+-+-+
//! |                     Transaction ID (12 bytes)                 |
//! +-+-+-+-+-+-+-+-+-+-+-+-+-+-+-+-+-+-+-+-+-+-+-+-+-+-+-+-+-+-+-+-+
//! ```

use std::collections::HashMap;
use vstd::prelude::*;

use crate::be::{be_uint, be_value, lemma_be_value_small};

verus! {

/// Length in bytes of a STUN header.
pub const HEADER_LEN: usize = 20;

/// Length in bytes of a transaction ID.
pub const TRANSACTION_ID_LEN: usize = 12;

/// The fixed value of the magic cookie field.
pub const MAGIC_COOKIE: u32 = 0x2112_A442;

/// The message types this client knows: the Binding method in three classes.
#[derive(Debug, Clone, Copy, PartialEq, Eq, Structural)]
pub enum MsgType {
    BindingRequest,
    BindingResponse,
    BindingResponseError,
}

impl MsgType {
    /// The value of the message type field for this type.
    pub open spec fn spec_code(self) -> u16 {
        match self {
            MsgType::BindingRequest => 0x0001,
            MsgType::BindingResponse => 0x0101,
            MsgType::BindingResponseError => 0x0111,
        }
    }

    /// The value of the message type field for this type.
    pub fn code(self) -> (c: u16)
        ensures
            c == self.spec_code(),
    {
        match self {
            MsgType::BindingRequest => 0x0001,
            MsgType::BindingResponse => 0x0101,
            MsgType::BindingResponseError => 0x0111,
        }
    }

    /// The message type that a field value stands for, or the value itself
    /// when it stands for none of them.
    pub fn try_from(v: u16) -> (r: Result<MsgType, u16>)
        ensures
            r == msg_type_from_code(v),
    {
        if v == 0x0001 {
            Ok(MsgType::BindingRequest)
        } else if v == 0x0101 {
            Ok(MsgType::BindingResponse)
        } else if v == 0x0111 {
            Ok(MsgType::BindingResponseError)
        } else {
            Err(v)
        }
    }
}

/// The message type that a field value stands for; `Err` with the value itself otherwise.
pub open spec fn msg_type_from_code(v: u16) -> Result<MsgType, u16> {
    if v == MsgType::BindingRequest.spec_code() {
        Ok(MsgType::BindingRequest)
    } else if v == MsgType::BindingResponse.spec_code() {
        Ok(MsgType::BindingResponse)
    } else if v == MsgType::BindingResponseError.spec_code() {
        Ok(MsgType::BindingResponseError)
    } else {
        Err(v)
    }
}

/// The four bytes of the magic cookie in network order.
pub open spec fn magic_cookie_bytes() -> Seq<u8> {
    seq![0x21u8, 0x12u8, 0xA4u8, 0x42u8]
}

/// The two bytes of `v` in network order.
pub open spec fn be_bytes16(v: u16) -> Seq<u8> {
    seq![(v / 256) as u8, (v % 256) as u8]
}

/// `b` with the bytes from position `i` on replaced by `s`.
pub open spec fn splice(b: Seq<u8>, i: int, s: Seq<u8>) -> Seq<u8> {
    b.take(i) + s + b.skip(i + s.len())
}

/// The message type field of the header bytes `b`.
pub open spec fn type_field(b: Seq<u8>) -> u16 {
    be_value(b.subrange(0, 2)) as u16
}

/// The message length field of the header bytes `b`.
pub open spec fn length_field(b: Seq<u8>) -> u16 {
    be_value(b.subrange(2, 4)) as u16
}

/// The magic cookie field of the header bytes `b`.
pub open spec fn cookie_field(b: Seq<u8>) -> nat {
    be_value(b.subrange(4, 8))
}

/// The transaction ID of the header bytes `b`.
pub open spec fn transaction_id_field(b: Seq<u8>) -> Seq<u8> {
    b.subrange(8, 20)
}

/// Whether the header bytes `b` carry the magic cookie, which is what marks a STUN message.
pub open spec fn has_magic_cookie(b: Seq<u8>) -> bool {
    cookie_field(b) == MAGIC_COOKIE
}

/// The bytes of a binding request with no attributes and the given transaction ID.
pub open spec fn binding_request_bytes(transaction_id: Seq<u8>) -> Seq<u8> {
    seq![0x00u8, 0x01u8, 0x00u8, 0x00u8] + magic_cookie_bytes() + transaction_id
}

/// Storage that holds the twenty bytes of a header, owned or borrowed.
pub trait HeaderBytes {
    /// The twenty bytes held.
    spec fn header_view(&self) -> Seq<u8>;

    /// The twenty bytes held.
    fn header_bytes(&self) -> (b: &[u8; HEADER_LEN])
        ensures
            b@ == self.header_view(),
    ;
}

impl HeaderBytes for [u8; HEADER_LEN] {
    open spec fn header_view(&self) -> Seq<u8> {
        self@
    }

    fn header_bytes(&self) -> (b: &[u8; HEADER_LEN]) {
        self
    }
}

impl<'a> HeaderBytes for &'a [u8; HEADER_LEN] {
    open spec fn header_view(&self) -> Seq<u8> {
        (**self)@
    }

    fn header_bytes(&self) -> (b: &[u8; HEADER_LEN]) {
        *self
    }
}

/// A STUN header over its bytes, owned ([`StunHeader`]) or borrowed ([`StunHeaderRef`]).
#[derive(Debug, Clone, Copy)]
pub struct StunHeaderImpl<T>(pub T);

/// A header that owns its bytes.
pub type StunHeader = StunHeaderImpl<[u8; HEADER_LEN]>;

/// A header that reads bytes it borrows.
pub type StunHeaderRef<'a> = StunHeaderImpl<&'a [u8; HEADER_LEN]>;

impl<T: HeaderBytes> View for StunHeaderImpl<T> {
    type V = Seq<u8>;

    open spec fn view(&self) -> Seq<u8> {
        self.0.header_view()
    }
}

/// Reads the two bytes at `i` and `i + 1` as a big-endian number.
fn be16_at(b: &[u8], i: usize) -> (v: u16)
    requires
        i + 2 <= b@.len(),
    ensures
        v == be_value(b@.subrange(i as int, i + 2)),
{
    proof {
        lemma_be_value_small(b@.subrange(i as int, i + 2));
    }
    (b[i] as u16) * 256 + (b[i + 1] as u16)
}

/// Reads the four bytes from `i` on as a big-endian number.
fn be32_at(b: &[u8], i: usize) -> (v: u32)
    requires
        i + 4 <= b@.len(),
    ensures
        v == be_value(b@.subrange(i as int, i + 4)),
{
    proof {
        lemma_be_value_small(b@.subrange(i as int, i + 4));
    }
    (((b[i] as u32) * 256 + (b[i + 1] as u32)) * 256 + (b[i + 2] as u32)) * 256 + (b[i + 3] as u32)
}

impl<T: HeaderBytes> StunHeaderImpl<T> {
    /// The message type, or the raw field value when it is no type this client knows.
    pub fn message_type(&self) -> (r: Result<MsgType, u16>)
        ensures
            r == msg_type_from_code(type_field(self@)),
    {
        let b = self.0.header_bytes();
        let m = be16_at(b, 0);
        MsgType::try_from(m)
    }

    /// The message length field: the length of what follows the header.
    pub fn length(&self) -> (l: u16)
        ensures
            l == length_field(self@),
    {
        let b = self.0.header_bytes();
        be16_at(b, 2)
    }

    /// The twelve bytes of the transaction ID.
    pub fn transaction_id(&self) -> (id: [u8; TRANSACTION_ID_LEN])
        ensures
            id@ == transaction_id_field(self@),
    {
        let b = self.0.header_bytes();
        let mut id = [0u8; TRANSACTION_ID_LEN];
        let mut k: usize = 0;
        while k < TRANSACTION_ID_LEN
            invariant
                k <= TRANSACTION_ID_LEN,
                b@ == self@,
                b@.len() == HEADER_LEN,
                id@.len() == TRANSACTION_ID_LEN,
                forall|j: int| 0 <= j < k ==> id@[j] == b@[8 + j],
            decreases TRANSACTION_ID_LEN - k,
        {
            id[k] = b[8 + k];
            k = k + 1;
        }
        assert(id@ =~= transaction_id_field(self@));
        id
    }

    /// The header's bytes.
    pub fn as_bytes(&self) -> (b: &[u8; HEADER_LEN])
        ensures
            b@ == self@,
    {
        self.0.header_bytes()
    }
}

impl StunHeaderImpl<[u8; HEADER_LEN]> {
    /// Writes the message type field.
    pub fn set_message_type(&mut self, t: MsgType) -> (r: &mut Self)
        ensures
            r@ == splice(old(self)@, 0, be_bytes16(t.spec_code())),
            *final(self) == *final(r),
    {
        let v = t.code();
        self.0[0] = (v / 256) as u8;
        self.0[1] = (v % 256) as u8;
        assert(self@ =~= splice(old(self)@, 0, be_bytes16(t.spec_code())));
        self
    }

    /// Writes the message length field.
    pub fn set_length(&mut self, l: u16) -> (r: &mut Self)
        ensures
            r@ == splice(old(self)@, 2, be_bytes16(l)),
            *final(self) == *final(r),
    {
        self.0[2] = (l / 256) as u8;
        self.0[3] = (l % 256) as u8;
        assert(self@ =~= splice(old(self)@, 2, be_bytes16(l)));
        self
    }

    /// Writes the magic cookie, in network order.
    pub fn set_magic_cookie(&mut self) -> (r: &mut Self)
        ensures
            r@ == splice(old(self)@, 4, magic_cookie_bytes()),
            *final(self) == *final(r),
    {
        self.0[4] = 0x21;
        self.0[5] = 0x12;
        self.0[6] = 0xA4;
        self.0[7] = 0x42;
        assert(self@ =~= splice(old(self)@, 4, magic_cookie_bytes()));
        self
    }

    /// Writes the transaction ID.
    pub fn set_transaction_id(&mut self, id: [u8; TRANSACTION_ID_LEN]) -> (r: &mut Self)
        ensures
            r@ == splice(old(self)@, 8, id@),
            *final(self) == *final(r),
    {
        let mut k: usize = 0;
        while k < TRANSACTION_ID_LEN
            invariant
                k <= TRANSACTION_ID_LEN,
                self@.len() == HEADER_LEN,
                forall|j: int| 0 <= j < 8 + k ==> self@[j] == splice(old(self)@, 8, id@)[j],
                forall|j: int| 8 + k <= j < HEADER_LEN ==> self@[j] == old(self)@[j],
            decreases TRANSACTION_ID_LEN - k,
        {
            self.0[8 + k] = id[k];
            k = k + 1;
        }
        assert(self@ =~= splice(old(self)@, 8, id@));
        self
    }

    /// A header with every field zero but the magic cookie.
    pub fn new() -> (h: StunHeader)
        ensures
            h@ == splice(Seq::new(20, |i: int| 0u8), 4, magic_cookie_bytes()),
    {
        let mut s = StunHeaderImpl([0u8; HEADER_LEN]);
        s.set_magic_cookie();
        s
    }

    /// A binding request with no attributes, carrying the given transaction ID.
    pub fn new_binding_request(transaction_id: [u8; TRANSACTION_ID_LEN]) -> (h: StunHeader)
        ensures
            h@ == binding_request_bytes(transaction_id@),
    {
        let mut s = StunHeader::new();
        s.set_length(0).set_transaction_id(transaction_id).set_message_type(MsgType::BindingRequest);
        assert(s@ =~= binding_request_bytes(transaction_id@));
        s
    }
}

/// The error of the operating system's random source, as `getrandom` reports it.
#[verifier::external_type_specification]
#[verifier::external_body]
pub struct ExGetrandomError(getrandom::Error);

/// Why a binding request with a random transaction ID could not be made.
#[derive(Debug, Clone, Copy, PartialEq, Eq, Structural)]
pub enum RandomSourceError {
    /// The operating system's random source failed.
    Unavailable,
}

/// Draws twelve bytes from the operating system's random source with
/// `getrandom::fill`. Trusted: nothing is claimed of the bytes, which are
/// random, nor of when the source fails; `fill` fills the whole array when it
/// returns `Ok`.
#[verifier::external_body]
fn random_transaction_id() -> (r: Result<[u8; TRANSACTION_ID_LEN], getrandom::Error>) {
    let mut id = [0u8; TRANSACTION_ID_LEN];
    match getrandom::fill(&mut id) {
        Ok(()) => Ok(id),
        Err(e) => Err(e),
    }
}

impl StunHeaderImpl<[u8; HEADER_LEN]> {
    /// A binding request with no attributes and a transaction ID drawn from
    /// the operating system's random source; an error when the source fails.
    pub fn new_random_binding_request() -> (r: Result<StunHeader, RandomSourceError>)
        ensures
            match r {
                Ok(h) => {
                    &&& h@.subrange(0, 8) == seq![0x00u8, 0x01u8, 0x00u8, 0x00u8, 0x21u8, 0x12u8, 0xA4u8, 0x42u8]
                    &&& h@ == binding_request_bytes(transaction_id_field(h@))
                },
                Err(e) => e == RandomSourceError::Unavailable,
            },
    {
        match random_transaction_id() {
            Ok(id) => {
                let h = StunHeader::new_binding_request(id);
                assert(transaction_id_field(h@) =~= id@);
                assert(h@.subrange(0, 8) =~= seq![0x00u8, 0x01u8, 0x00u8, 0x00u8, 0x21u8, 0x12u8, 0xA4u8, 0x42u8]);
                Ok(h)
            },
            Err(_) => Err(RandomSourceError::Unavailable),
        }
    }
}

/// Why a received header was refused.
#[derive(Debug, Clone, Copy, PartialEq, Eq, Structural)]
pub enum HeaderError {
    /// The magic cookie field does not hold the magic cookie: not a STUN message.
    MissingMagicCookie,
}

impl<'a> StunHeaderImpl<&'a [u8; HEADER_LEN]> {
    /// Reads received bytes as a STUN header; refused when they lack the magic cookie.
    pub fn new(d: &'a [u8; HEADER_LEN]) -> (r: Result<StunHeaderRef<'a>, HeaderError>)
        ensures
            match r {
                Ok(h) => h.0 == d && has_magic_cookie(d@),
                Err(e) => e == HeaderError::MissingMagicCookie && !has_magic_cookie(d@),
            },
    {
        let s = StunHeaderImpl(d);
        if !s.valid() {
            return Err(HeaderError::MissingMagicCookie);
        }
        Ok(s)
    }

    /// Whether the header carries the magic cookie.
    pub fn valid(self) -> (b: bool)
        ensures
            b == has_magic_cookie(self@),
    {
        be32_at(self.0, 4) == MAGIC_COOKIE
    }
}

/// Two bytes written in network order read back as the value written.
pub proof fn lemma_be_bytes16(v: u16)
    ensures
        be_value(be_bytes16(v)) == v,
{
    lemma_be_value_small(be_bytes16(v));
}

/// The magic cookie bytes read back as the magic cookie.
pub proof fn lemma_magic_cookie_bytes()
    ensures
        be_value(magic_cookie_bytes()) == MAGIC_COOKIE,
{
    lemma_be_value_small(magic_cookie_bytes());
}

/// Reading the message type field gives back each message type from its code,
/// and only a code of a message type reads as that type.
pub proof fn law_msg_type_code_roundtrip(t: MsgType, v: u16)
    ensures
        msg_type_from_code(t.spec_code()) == Ok::<MsgType, u16>(t),
        msg_type_from_code(v) == Ok::<MsgType, u16>(t) ==> t.spec_code() == v,
        msg_type_from_code(v) is Err ==> msg_type_from_code(v) == Err::<MsgType, u16>(v),
{
}

/// Writing a message type into a header reads back as that type, and leaves
/// the length, cookie and transaction ID as they were.
pub proof fn law_set_message_type(b: Seq<u8>, t: MsgType)
    requires
        b.len() == HEADER_LEN,
    ensures
        ({
            let n = splice(b, 0, be_bytes16(t.spec_code()));
            &&& n.len() == HEADER_LEN
            &&& msg_type_from_code(type_field(n)) == Ok::<MsgType, u16>(t)
            &&& length_field(n) == length_field(b)
            &&& cookie_field(n) == cookie_field(b)
            &&& transaction_id_field(n) == transaction_id_field(b)
        }),
{
    let n = splice(b, 0, be_bytes16(t.spec_code()));
    assert(n.subrange(0, 2) =~= be_bytes16(t.spec_code()));
    assert(n.subrange(2, 4) =~= b.subrange(2, 4));
    assert(n.subrange(4, 8) =~= b.subrange(4, 8));
    assert(n.subrange(8, 20) =~= b.subrange(8, 20));
    lemma_be_bytes16(t.spec_code());
}

/// Writing a length into a header reads back as that length, and leaves the
/// type, cookie and transaction ID as they were.
pub proof fn law_set_length(b: Seq<u8>, l: u16)
    requires
        b.len() == HEADER_LEN,
    ensures
        ({
            let n = splice(b, 2, be_bytes16(l));
            &&& n.len() == HEADER_LEN
            &&& length_field(n) == l
            &&& type_field(n) == type_field(b)
            &&& cookie_field(n) == cookie_field(b)
            &&& transaction_id_field(n) == transaction_id_field(b)
        }),
{
    let n = splice(b, 2, be_bytes16(l));
    assert(n.subrange(2, 4) =~= be_bytes16(l));
    assert(n.subrange(0, 2) =~= b.subrange(0, 2));
    assert(n.subrange(4, 8) =~= b.subrange(4, 8));
    assert(n.subrange(8, 20) =~= b.subrange(8, 20));
    lemma_be_bytes16(l);
}

/// Writing the magic cookie makes a header carry it, and leaves the type,
/// length and transaction ID as they were.
pub proof fn law_set_magic_cookie(b: Seq<u8>)
    requires
        b.len() == HEADER_LEN,
    ensures
        ({
            let n = splice(b, 4, magic_cookie_bytes());
            &&& n.len() == HEADER_LEN
            &&& has_magic_cookie(n)
            &&& type_field(n) == type_field(b)
            &&& length_field(n) == length_field(b)
            &&& transaction_id_field(n) == transaction_id_field(b)
        }),
{
    let n = splice(b, 4, magic_cookie_bytes());
    assert(n.subrange(4, 8) =~= magic_cookie_bytes());
    assert(n.subrange(0, 2) =~= b.subrange(0, 2));
    assert(n.subrange(2, 4) =~= b.subrange(2, 4));
    assert(n.subrange(8, 20) =~= b.subrange(8, 20));
    lemma_magic_cookie_bytes();
}

/// Writing a transaction ID reads back as that ID, and leaves the type,
/// length and cookie as they were.
pub proof fn law_set_transaction_id(b: Seq<u8>, id: Seq<u8>)
    requires
        b.len() == HEADER_LEN,
        id.len() == TRANSACTION_ID_LEN,
    ensures
        ({
            let n = splice(b, 8, id);
            &&& n.len() == HEADER_LEN
            &&& transaction_id_field(n) == id
            &&& type_field(n) == type_field(b)
            &&& length_field(n) == length_field(b)
            &&& cookie_field(n) == cookie_field(b)
        }),
{
    let n = splice(b, 8, id);
    assert(n.subrange(8, 20) =~= id);
    assert(n.subrange(0, 2) =~= b.subrange(0, 2));
    assert(n.subrange(2, 4) =~= b.subrange(2, 4));
    assert(n.subrange(4, 8) =~= b.subrange(4, 8));
}

/// A fresh header carries the magic cookie, a zero length, and a zero type
/// field, which is no known message type.
pub proof fn law_new_header()
    ensures
        ({
            let n = splice(Seq::new(20, |i: int| 0u8), 4, magic_cookie_bytes());
            &&& has_magic_cookie(n)
            &&& length_field(n) == 0
            &&& msg_type_from_code(type_field(n)) == Err::<MsgType, u16>(0)
            &&& transaction_id_field(n) == Seq::new(12, |i: int| 0u8)
        }),
{
    let z = Seq::new(20, |i: int| 0u8);
    let n = splice(z, 4, magic_cookie_bytes());
    law_set_magic_cookie(z);
    assert(z.subrange(0, 2) =~= seq![0u8, 0u8]);
    assert(z.subrange(2, 4) =~= seq![0u8, 0u8]);
    lemma_be_value_small(z.subrange(0, 2));
    lemma_be_value_small(z.subrange(2, 4));
    assert(transaction_id_field(n) =~= Seq::new(12, |i: int| 0u8));
}

/// A binding request is a STUN message of type binding request, with no
/// attributes and the transaction ID it was made with.
pub proof fn law_binding_request(id: Seq<u8>)
    requires
        id.len() == TRANSACTION_ID_LEN,
    ensures
        ({
            let n = binding_request_bytes(id);
            &&& n.len() == HEADER_LEN
            &&& has_magic_cookie(n)
            &&& msg_type_from_code(type_field(n)) == Ok::<MsgType, u16>(MsgType::BindingRequest)
            &&& length_field(n) == 0
            &&& transaction_id_field(n) == id
        }),
{
    let n = binding_request_bytes(id);
    assert(n.subrange(0, 2) =~= seq![0u8, 1u8]);
    assert(n.subrange(2, 4) =~= seq![0u8, 0u8]);
    assert(n.subrange(4, 8) =~= magic_cookie_bytes());
    assert(n.subrange(8, 20) =~= id);
    lemma_be_value_small(n.subrange(0, 2));
    lemma_be_value_small(n.subrange(2, 4));
    lemma_magic_cookie_bytes();
}

/// One call of a header setter, by what it writes.
#[derive(Debug, Clone, Copy)]
pub enum HeaderWrite {
    MessageType(MsgType),
    Length(u16),
    MagicCookie,
    TransactionId([u8; TRANSACTION_ID_LEN]),
}

/// The header bytes `b` after the setter call `w`.
pub open spec fn apply_write(b: Seq<u8>, w: HeaderWrite) -> Seq<u8> {
    match w {
        HeaderWrite::MessageType(t) => splice(b, 0, be_bytes16(t.spec_code())),
        HeaderWrite::Length(l) => splice(b, 2, be_bytes16(l)),
        HeaderWrite::MagicCookie => splice(b, 4, magic_cookie_bytes()),
        HeaderWrite::TransactionId(id) => splice(b, 8, id@),
    }
}

/// The header bytes `b` after the setter calls `ws`, in order.
pub open spec fn apply_writes(b: Seq<u8>, ws: Seq<HeaderWrite>) -> Seq<u8>
    decreases ws.len(),
{
    if ws.len() == 0 {
        b
    } else {
        apply_write(apply_writes(b, ws.drop_last()), ws.last())
    }
}

/// Any number of setter calls other than the message type's leave the
/// message type field as it was.
pub proof fn law_writes_keep_type(b: Seq<u8>, ws: Seq<HeaderWrite>)
    requires
        b.len() == HEADER_LEN,
        forall|i: int| 0 <= i < ws.len() ==> !(#[trigger] ws[i] is MessageType),
    ensures
        apply_writes(b, ws).len() == HEADER_LEN,
        type_field(apply_writes(b, ws)) == type_field(b),
    decreases ws.len(),
{
    if ws.len() > 0 {
        let r = ws.drop_last();
        assert forall|i: int| 0 <= i < r.len() implies !(#[trigger] r[i] is MessageType) by {
            assert(r[i] == ws[i]);
        }
        law_writes_keep_type(b, r);
        let c = apply_writes(b, r);
        assert(!(ws[ws.len() - 1] is MessageType));
        match ws.last() {
            HeaderWrite::MessageType(_) => {},
            HeaderWrite::Length(l) => law_set_length(c, l),
            HeaderWrite::MagicCookie => law_set_magic_cookie(c),
            HeaderWrite::TransactionId(id) => law_set_transaction_id(c, id@),
        }
    }
}

/// Any number of setter calls other than the length's leave the message
/// length field as it was.
pub proof fn law_writes_keep_length(b: Seq<u8>, ws: Seq<HeaderWrite>)
    requires
        b.len() == HEADER_LEN,
        forall|i: int| 0 <= i < ws.len() ==> !(#[trigger] ws[i] is Length),
    ensures
        apply_writes(b, ws).len() == HEADER_LEN,
        length_field(apply_writes(b, ws)) == length_field(b),
    decreases ws.len(),
{
    if ws.len() > 0 {
        let r = ws.drop_last();
        assert forall|i: int| 0 <= i < r.len() implies !(#[trigger] r[i] is Length) by {
            assert(r[i] == ws[i]);
        }
        law_writes_keep_length(b, r);
        let c = apply_writes(b, r);
        assert(!(ws[ws.len() - 1] is Length));
        match ws.last() {
            HeaderWrite::MessageType(t) => law_set_message_type(c, t),
            HeaderWrite::Length(_) => {},
            HeaderWrite::MagicCookie => law_set_magic_cookie(c),
            HeaderWrite::TransactionId(id) => law_set_transaction_id(c, id@),
        }
    }
}

/// After the message type is set to `t`, any number of calls of the other
/// setters leave a header whose message type reads as `t`.
pub proof fn law_message_type_after_writes(b: Seq<u8>, t: MsgType, ws: Seq<HeaderWrite>)
    requires
        b.len() == HEADER_LEN,
        forall|i: int| 0 <= i < ws.len() ==> !(#[trigger] ws[i] is MessageType),
    ensures
        msg_type_from_code(
            type_field(apply_writes(apply_write(b, HeaderWrite::MessageType(t)), ws)),
        ) == Ok::<MsgType, u16>(t),
{
    law_set_message_type(b, t);
    law_writes_keep_type(apply_write(b, HeaderWrite::MessageType(t)), ws);
}

/// After the length is set to `l`, any number of calls of the other setters
/// leave a header whose length reads as `l`.
pub proof fn law_length_after_writes(b: Seq<u8>, l: u16, ws: Seq<HeaderWrite>)
    requires
        b.len() == HEADER_LEN,
        forall|i: int| 0 <= i < ws.len() ==> !(#[trigger] ws[i] is Length),
    ensures
        length_field(apply_writes(apply_write(b, HeaderWrite::Length(l)), ws)) == l,
{
    law_set_length(b, l);
    law_writes_keep_length(apply_write(b, HeaderWrite::Length(l)), ws);
}

// After the header come zero or more attributes, each type-length-value
// encoded with a 16-bit type and a 16-bit length, and padded to end on a
// 32-bit boundary:
//
//  0                   1                   2                   3
//  0 1 2 3 4 5 6 7 8 9 0 1 2 3 4 5 6 7 8 9 0 1 2 3 4 5 6 7 8 9 0 1
// +-+-+-+-+-+-+-+-+-+-+-+-+-+-+-+-+-+-+-+-+-+-+-+-+-+-+-+-+-+-+-+-+
// |         Type                  |            Length             |
// +-+-+-+-+-+-+-+-+-+-+-+-+-+-+-+-+-+-+-+-+-+-+-+-+-+-+-+-+-+-+-+-+
// |                         Value (variable)                ....
// +-+-+-+-+-+-+-+-+-+-+-+-+-+-+-+-+-+-+-+-+-+-+-+-+-+-+-+-+-+-+-+-+

/// The attribute types this client reads.
#[derive(Debug, Clone, Copy, PartialEq, Eq, Structural)]
pub enum AttributeType {
    XorMappedAddress,
}

impl AttributeType {
    /// The value of the type field for this attribute type.
    pub open spec fn spec_code(self) -> u16 {
        match self {
            AttributeType::XorMappedAddress => 0x0020,
        }
    }

    /// The value of the type field for this attribute type.
    pub fn code(self) -> (c: u16)
        ensures
            c == self.spec_code(),
    {
        match self {
            AttributeType::XorMappedAddress => 0x0020,
        }
    }

    /// The attribute type that a field value stands for, or the value itself
    /// when it stands for none.
    pub fn try_from(v: u16) -> (r: Result<AttributeType, u16>)
        ensures
            r == attribute_type_from_code(v),
    {
        if v == 0x0020 {
            Ok(AttributeType::XorMappedAddress)
        } else {
            Err(v)
        }
    }
}

/// The attribute type that a field value stands for; `Err` with the value itself otherwise.
pub open spec fn attribute_type_from_code(v: u16) -> Result<AttributeType, u16> {
    if v == AttributeType::XorMappedAddress.spec_code() {
        Ok(AttributeType::XorMappedAddress)
    } else {
        Err(v)
    }
}

/// An IP address by its bits: IPv4 in 32, IPv6 in 128, most significant first.
#[derive(Debug, Clone, Copy, PartialEq, Eq, Structural)]
pub enum IpAddress {
    V4(u32),
    V6(u128),
}

/// The transport address that the server saw the request come from.
#[derive(Debug, Clone, Copy, PartialEq, Eq, Structural)]
pub struct XorMappedAddress {
    pub port: u16,
    pub address: IpAddress,
}

/// An attribute that was read.
#[derive(Debug, Clone, Copy, PartialEq, Eq, Structural)]
pub enum Attribute {
    XorMappedAddress(XorMappedAddress),
}

impl Attribute {
    /// The type of this attribute.
    pub open spec fn spec_attribute_type(self) -> AttributeType {
        match self {
            Attribute::XorMappedAddress(_) => AttributeType::XorMappedAddress,
        }
    }

    /// The type of this attribute.
    pub fn attribute_type(&self) -> (t: AttributeType)
        ensures
            t == self.spec_attribute_type(),
    {
        match self {
            Attribute::XorMappedAddress(_) => AttributeType::XorMappedAddress,
        }
    }
}

/// The port is sent XOR-ed with the high half of the magic cookie.
pub const MAGIC_COOKIE_HIGH: u16 = 0x2112;

/// Whether a XOR-MAPPED-ADDRESS value is long enough for the fields that its
/// family calls for: family and port; four address bytes for IPv4, sixteen for IPv6.
pub open spec fn xor_mapped_address_fits(v: Seq<u8>) -> bool {
    &&& v.len() >= 4
    &&& v[1] == 0x01 ==> v.len() >= 8
    &&& v[1] == 0x02 ==> v.len() >= 20
}

/// The key that an IPv6 address is XOR-ed with: the magic cookie followed by
/// the transaction ID.
pub open spec fn ipv6_key(transaction_id: Seq<u8>) -> Seq<u8> {
    magic_cookie_bytes() + transaction_id
}

/// The address that a XOR-MAPPED-ADDRESS value `v` carries, in a message with
/// the given transaction ID; `None` for a family other than IPv4 (1) and IPv6 (2).
pub open spec fn xor_mapped_address_of(transaction_id: Seq<u8>, v: Seq<u8>) -> Option<XorMappedAddress> {
    let port = (be_value(v.subrange(2, 4)) as u16) ^ MAGIC_COOKIE_HIGH;
    if v[1] == 0x01 {
        Some(XorMappedAddress {
            port,
            address: IpAddress::V4((be_value(v.subrange(4, 8)) as u32) ^ MAGIC_COOKIE),
        })
    } else if v[1] == 0x02 {
        Some(XorMappedAddress {
            port,
            address: IpAddress::V6(
                (be_value(v.subrange(4, 20)) as u128) ^ (be_value(ipv6_key(transaction_id)) as u128),
            ),
        })
    } else {
        None
    }
}

/// Reads the value of a XOR-MAPPED-ADDRESS attribute of the message whose
/// header is given; `None` when the address family is neither IPv4 nor IPv6.
pub fn parse_xor_mapped_address(header: StunHeaderRef, val: &[u8]) -> (r: Option<XorMappedAddress>)
    requires
        xor_mapped_address_fits(val@),
    ensures
        r == xor_mapped_address_of(transaction_id_field(header@), val@),
{
    let mut port: u16 = be16_at(val, 2);
    port = port ^ MAGIC_COOKIE_HIGH;

    let address: IpAddress = match val[1] {
        0x01 => {
            let mut address: u32 = be32_at(val, 4);
            address = address ^ MAGIC_COOKIE;
            IpAddress::V4(address)
        },
        0x02 => {
            let mut address: u128 = be_uint(&val[4..20]);
            let id = header.transaction_id();
            let mut key = [0u8; 16];
            key[0] = 0x21;
            key[1] = 0x12;
            key[2] = 0xA4;
            key[3] = 0x42;
            let mut k: usize = 0;
            while k < TRANSACTION_ID_LEN
                invariant
                    k <= TRANSACTION_ID_LEN,
                    id@.len() == TRANSACTION_ID_LEN,
                    key@.len() == 16,
                    forall|j: int| 0 <= j < 4 + k ==> key@[j] == ipv6_key(id@)[j],
                decreases TRANSACTION_ID_LEN - k,
            {
                key[4 + k] = id[k];
                k = k + 1;
            }
            assert(key@ =~= ipv6_key(id@));
            let key = be_uint(&key);
            address = address ^ key;
            IpAddress::V6(address)
        },
        _ => return None,
    };

    Some(XorMappedAddress { port, address })
}

/// The value of a XOR-MAPPED-ADDRESS attribute that carries the IPv4 address
/// `a` and the port `port`: reserved byte, family 1, then the port XOR-ed with
/// 0x2112 and the address XOR-ed with 0x2112A442, each in network order.
pub open spec fn xor_mapped_ipv4_value(reserved: u8, port: u16, a: u32) -> Seq<u8> {
    let xp = port ^ 0x2112u16;
    let xa = a ^ 0x2112A442u32;
    seq![
        reserved,
        0x01u8,
        (xp >> 8u16) as u8,
        (xp & 0xffu16) as u8,
        (xa >> 24u32) as u8,
        ((xa >> 16u32) & 0xffu32) as u8,
        ((xa >> 8u32) & 0xffu32) as u8,
        (xa & 0xffu32) as u8,
    ]
}

/// An IPv4 XOR-MAPPED-ADDRESS value decodes to the port whose two bytes,
/// XOR-ed with 0x2112, are bytes 2 and 3, and to the address whose four
/// bytes, XOR-ed with the magic cookie 0x2112A442, are bytes 4 to 7.
pub proof fn law_xor_mapped_ipv4_decoding(transaction_id: Seq<u8>, v: Seq<u8>)
    requires
        v.len() >= 8,
        v[1] == 0x01,
    ensures
        xor_mapped_address_fits(v),
        xor_mapped_address_of(transaction_id, v) == Some(
            XorMappedAddress {
                port: ((v[2] as int * 256 + v[3] as int) as u16) ^ 0x2112u16,
                address: IpAddress::V4(
                    ((((v[4] as int * 256 + v[5] as int) * 256 + v[6] as int) * 256
                        + v[7] as int) as u32) ^ 0x2112A442u32,
                ),
            },
        ),
{
    lemma_be_value_small(v.subrange(2, 4));
    lemma_be_value_small(v.subrange(4, 8));
}

/// Decoding the XOR-MAPPED-ADDRESS value that carries an IPv4 address and a
/// port gives back that address and port, whatever the reserved byte and
/// the transaction ID.
pub proof fn law_xor_mapped_ipv4_roundtrip(transaction_id: Seq<u8>, reserved: u8, port: u16, a: u32)
    ensures
        xor_mapped_address_of(transaction_id, xor_mapped_ipv4_value(reserved, port, a)) == Some(
            XorMappedAddress { port, address: IpAddress::V4(a) },
        ),
{
    let v = xor_mapped_ipv4_value(reserved, port, a);
    law_xor_mapped_ipv4_decoding(transaction_id, v);
    let xp = port ^ 0x2112u16;
    let xa = a ^ 0x2112A442u32;
    assert((((xp >> 8u16) as u8) as u16) * 256u16 + (((xp & 0xffu16) as u8) as u16) == xp)
        by (bit_vector);
    assert(xp ^ 0x2112u16 == port) by (bit_vector)
        requires
            xp == port ^ 0x2112u16,
    ;
    assert(((((((xa >> 24u32) as u8) as u32) * 256u32 + ((((xa >> 16u32) & 0xffu32) as u8) as u32))
        * 256u32 + ((((xa >> 8u32) & 0xffu32) as u8) as u32)) * 256u32 + (((xa & 0xffu32) as u8)
        as u32)) == xa) by (bit_vector);
    assert(xa ^ 0x2112A442u32 == a) by (bit_vector)
        requires
            xa == a ^ 0x2112A442u32,
    ;
}

/// An IPv6 XOR-MAPPED-ADDRESS value decodes to the port whose two bytes,
/// XOR-ed with 0x2112, are bytes 2 and 3, and to the address whose sixteen
/// bytes, XOR-ed with the magic cookie 21 12 A4 42 followed by the twelve
/// bytes of the transaction ID, are bytes 4 to 19.
pub proof fn law_xor_mapped_ipv6_decoding(transaction_id: Seq<u8>, v: Seq<u8>)
    requires
        v.len() >= 20,
        v[1] == 0x02,
    ensures
        xor_mapped_address_fits(v),
        xor_mapped_address_of(transaction_id, v) == Some(
            XorMappedAddress {
                port: ((v[2] as int * 256 + v[3] as int) as u16) ^ 0x2112u16,
                address: IpAddress::V6(
                    (be_value(v.subrange(4, 20)) as u128) ^ (be_value(
                        seq![0x21u8, 0x12u8, 0xA4u8, 0x42u8] + transaction_id,
                    ) as u128),
                ),
            },
        ),
{
    lemma_be_value_small(v.subrange(2, 4));
}

/// Only the type code 0x0020 reads as an attribute type (XOR-MAPPED-ADDRESS);
/// every other code is given back as it came.
pub proof fn law_attribute_type_codes(v: u16)
    ensures
        AttributeType::XorMappedAddress.spec_code() == 0x0020u16,
        attribute_type_from_code(v) == (if v == 0x0020u16 {
            Ok::<AttributeType, u16>(AttributeType::XorMappedAddress)
        } else {
            Err::<AttributeType, u16>(v)
        }),
{
}

/// Only the codes 0x0001, 0x0101 and 0x0111 read as message types (binding
/// request, success response, error response); every other code is given
/// back as it came.
pub proof fn law_msg_type_codes(v: u16)
    ensures
        msg_type_from_code(v) == (if v == 0x0001u16 {
            Ok::<MsgType, u16>(MsgType::BindingRequest)
        } else if v == 0x0101u16 {
            Ok::<MsgType, u16>(MsgType::BindingResponse)
        } else if v == 0x0111u16 {
            Ok::<MsgType, u16>(MsgType::BindingResponseError)
        } else {
            Err::<MsgType, u16>(v)
        }),
{
}

/// A header carries the magic cookie exactly when its bytes 4 to 7 are
/// 21 12 A4 42.
pub proof fn law_magic_cookie_bytes(b: Seq<u8>)
    requires
        b.len() >= 8,
    ensures
        has_magic_cookie(b) <==> (b[4] == 0x21u8 && b[5] == 0x12u8 && b[6] == 0xA4u8 && b[7]
            == 0x42u8),
{
    lemma_be_value_small(b.subrange(4, 8));
    let (b4, b5, b6, b7) = (b[4], b[5], b[6], b[7]);
    assert((((b4 as u32) * 256u32 + (b5 as u32)) * 256u32 + (b6 as u32)) * 256u32 + (b7 as u32)
        == 0x2112A442u32 <==> (b4 == 0x21u8 && b5 == 0x12u8 && b6 == 0xA4u8 && b7 == 0x42u8))
        by (bit_vector);
}

/// The attribute at the start of `d`, when complete and of a type code other
/// than 0x0020, contributes nothing: reading goes on after it as if it were
/// not there.
pub proof fn law_other_type_contributes_nothing(transaction_id: Seq<u8>, d: Seq<u8>)
    requires
        d.len() >= 4,
        attribute_size(d, 0) <= d.len(),
        d[0] as int * 256 + d[1] as int != 0x0020,
    ensures
        attributes_from(transaction_id, d, 0) == attributes_from(
            transaction_id,
            d.skip(attribute_size(d, 0) as int),
            0,
        ),
{
    lemma_be_value_small(d.subrange(0, 2));
    lemma_attributes_from_step(transaction_id, d);
    assert(first_attribute(transaction_id, d) =~= Seq::<Attribute>::empty());
    assert(Seq::<Attribute>::empty() + attributes_from(
        transaction_id,
        d.skip(attribute_size(d, 0) as int),
        0,
    ) =~= attributes_from(transaction_id, d.skip(attribute_size(d, 0) as int), 0));
}

/// Padding brings every attribute value to a 32-bit boundary, by fewer than
/// four bytes.
pub proof fn law_padding(len: nat)
    ensures
        padding(len) < 4,
        (len + padding(len)) % 4 == 0,
{
}

/// The padding that brings an attribute value of length `len` to a 32-bit boundary.
pub open spec fn padding(len: nat) -> nat {
    ((4 - len % 4) % 4) as nat
}

/// The attribute that a type field and a value stand for, when this client
/// reads that type and the value holds an address of a known family.
pub open spec fn attribute_of(transaction_id: Seq<u8>, ty: u16, val: Seq<u8>) -> Option<Attribute> {
    if attribute_type_from_code(ty) == Ok::<AttributeType, u16>(AttributeType::XorMappedAddress)
        && xor_mapped_address_fits(val) {
        match xor_mapped_address_of(transaction_id, val) {
            Some(a) => Some(Attribute::XorMappedAddress(a)),
            None => None,
        }
    } else {
        None
    }
}

/// The attributes read from position `i` of the attribute bytes `d` on, in
/// order. Reading stops at the end of `d`, and at an attribute whose length
/// runs past it; attributes of an unknown type, or whose value cannot be read,
/// are skipped.
#[verifier::opaque]
pub open spec fn attributes_from(transaction_id: Seq<u8>, d: Seq<u8>, i: nat) -> Seq<Attribute>
    decreases d.len() - i,
{
    if i + 4 > d.len() {
        Seq::empty()
    } else {
        let ty = be_value(d.subrange(i as int, i + 2int)) as u16;
        let len = be_value(d.subrange(i + 2int, i + 4int));
        if i + 4 + len > d.len() {
            Seq::empty()
        } else {
            let next = i + 4 + len + padding(len);
            let rest = if next < d.len() {
                attributes_from(transaction_id, d, next)
            } else {
                Seq::empty()
            };
            match attribute_of(transaction_id, ty, d.subrange(i + 4int, i + 4int + len)) {
                Some(a) => seq![a] + rest,
                None => rest,
            }
        }
    }
}

/// The attributes read from the attribute bytes `d`; none when `d` is not a
/// whole number of 32-bit words.
pub open spec fn parsed_attributes(transaction_id: Seq<u8>, d: Seq<u8>) -> Seq<Attribute> {
    if d.len() % 4 != 0 {
        Seq::empty()
    } else {
        attributes_from(transaction_id, d, 0)
    }
}

/// The attributes of `s` grouped by the code of their type, each group in the order of `s`.
pub open spec fn group_by_type(s: Seq<Attribute>) -> Map<u16, Seq<Attribute>>
    decreases s.len(),
{
    if s.len() == 0 {
        Map::empty()
    } else {
        let m = group_by_type(s.drop_last());
        let a = s.last();
        let k = a.spec_attribute_type().spec_code();
        if m.contains_key(k) {
            m.insert(k, m[k].push(a))
        } else {
            m.insert(k, seq![a])
        }
    }
}

/// Whether an attribute's type has the code `k`.
pub open spec fn has_type_code(k: u16) -> spec_fn(Attribute) -> bool {
    |a: Attribute| a.spec_attribute_type().spec_code() == k
}

/// Grouping by type keeps every attribute, in order, in the group of its
/// type's code, and nothing else: a code has a group exactly when some
/// attribute has a type of that code, and its group is the attributes of
/// that type in the order in which they came.
pub proof fn law_group_by_type(s: Seq<Attribute>, k: u16)
    ensures
        group_by_type(s).contains_key(k) <==> s.filter(has_type_code(k)).len() > 0,
        group_by_type(s).contains_key(k) ==> group_by_type(s)[k] == s.filter(has_type_code(k)),
    decreases s.len(),
{
    reveal(Seq::filter);
    if s.len() > 0 {
        law_group_by_type(s.drop_last(), k);
    }
}

/// The size on the wire of the attribute at position `i` of `d`: header,
/// value and padding.
pub open spec fn attribute_size(d: Seq<u8>, i: int) -> nat {
    let len = be_value(d.subrange(i + 2, i + 4));
    4 + len + padding(len)
}

/// Whether `d` is a sequence of complete attributes, each with its value and
/// its padding, that ends exactly at the end of `d`.
pub open spec fn well_formed_attributes(d: Seq<u8>) -> bool
    decreases d.len(),
{
    if d.len() == 0 {
        true
    } else {
        d.len() >= 4 && attribute_size(d, 0) <= d.len() && well_formed_attributes(
            d.skip(attribute_size(d, 0) as int),
        )
    }
}

/// Reading from the end of the bytes or past it gives no attributes.
proof fn lemma_attributes_from_end(txid: Seq<u8>, d: Seq<u8>, i: nat)
    requires
        i >= d.len(),
    ensures
        attributes_from(txid, d, i) == Seq::<Attribute>::empty(),
{
    reveal(attributes_from);
}

/// Reading from a position past a prefix reads as if the prefix were not there.
proof fn lemma_attributes_from_shift(txid: Seq<u8>, x: Seq<u8>, y: Seq<u8>, j: nat)
    ensures
        attributes_from(txid, x + y, x.len() + j) == attributes_from(txid, y, j),
    decreases y.len() - j,
{
    reveal(attributes_from);
    let d = x + y;
    let i: int = (x.len() + j) as int;
    let jj: int = j as int;
    if jj + 4 <= y.len() {
        assert(d.subrange(i, i + 2) =~= y.subrange(jj, jj + 2));
        assert(d.subrange(i + 2, i + 4) =~= y.subrange(jj + 2, jj + 4));
        let len: int = be_value(y.subrange(jj + 2, jj + 4)) as int;
        if jj + 4 + len <= y.len() {
            assert(d.subrange(i + 4, i + 4 + len) =~= y.subrange(jj + 4, jj + 4 + len));
            let next = jj + 4 + len + padding(len as nat);
            if next < y.len() {
                lemma_attributes_from_shift(txid, x, y, next as nat);
            }
        }
    }
}

/// A word-aligned sequence of complete attributes is a whole number of words.
pub proof fn lemma_well_formed_attributes_aligned(d: Seq<u8>)
    requires
        well_formed_attributes(d),
    ensures
        d.len() % 4 == 0,
    decreases d.len(),
{
    if d.len() > 0 {
        let n = attribute_size(d, 0);
        lemma_well_formed_attributes_aligned(d.skip(n as int));
        lemma_aligned_step(0, be_value(d.subrange(2, 4)) as int);
    }
}

/// The attributes that the first attribute of `d` contributes: one, or none
/// when its type is not read or its value cannot be.
pub open spec fn first_attribute(txid: Seq<u8>, d: Seq<u8>) -> Seq<Attribute> {
    let len = be_value(d.subrange(2, 4));
    match attribute_of(txid, be_value(d.subrange(0, 2)) as u16, d.subrange(4, 4int + len)) {
        Some(a) => seq![a],
        None => Seq::empty(),
    }
}

/// Reading a complete first attribute, then going on after it.
proof fn lemma_attributes_from_step(txid: Seq<u8>, d: Seq<u8>)
    requires
        d.len() >= 4,
        attribute_size(d, 0) <= d.len(),
    ensures
        attributes_from(txid, d, 0) == first_attribute(txid, d) + attributes_from(
            txid,
            d.skip(attribute_size(d, 0) as int),
            0,
        ),
{
    reveal(attributes_from);
    let n = attribute_size(d, 0);
    let head = d.take(n as int);
    let tail = d.skip(n as int);
    assert(d =~= head + tail);
    lemma_attributes_from_shift(txid, head, tail, 0);
    if n >= d.len() {
        lemma_attributes_from_end(txid, d, n);
        assert(tail =~= Seq::<u8>::empty());
    }
    assert(first_attribute(txid, d) + attributes_from(txid, tail, 0) =~= match attribute_of(
        txid,
        be_value(d.subrange(0, 2)) as u16,
        d.subrange(4, 4int + be_value(d.subrange(2, 4))),
    ) {
        Some(a) => seq![a] + attributes_from(txid, tail, 0),
        None => attributes_from(txid, tail, 0),
    });
}

/// The attributes read from complete attributes followed by more bytes are
/// those of the complete attributes followed by those of the bytes: later
/// attributes are appended, and every one is kept, in order.
#[verifier::spinoff_prover]
pub proof fn law_attributes_concat(txid: Seq<u8>, p: Seq<u8>, q: Seq<u8>)
    requires
        well_formed_attributes(p),
    ensures
        attributes_from(txid, p + q, 0) == attributes_from(txid, p, 0) + attributes_from(txid, q, 0),
        q.len() % 4 == 0 ==> parsed_attributes(txid, p + q) == parsed_attributes(txid, p)
            + parsed_attributes(txid, q),
    decreases p.len(),
{
    lemma_well_formed_attributes_aligned(p);
    if p.len() == 0 {
        assert(p + q =~= q);
        lemma_attributes_from_end(txid, p, 0);
    } else {
        let n = attribute_size(p, 0);
        let d = p + q;
        let tail = p.skip(n as int);
        assert(d.subrange(0, 2) =~= p.subrange(0, 2));
        assert(d.subrange(2, 4) =~= p.subrange(2, 4));
        assert(attribute_size(d, 0) == n);
        let len: int = be_value(p.subrange(2, 4)) as int;
        assert(d.subrange(4, 4 + len) =~= p.subrange(4, 4 + len));
        assert(first_attribute(txid, d) == first_attribute(txid, p));
        assert(d.skip(n as int) =~= tail + q);
        lemma_attributes_from_step(txid, p);
        lemma_attributes_from_step(txid, d);
        law_attributes_concat(txid, tail, q);
        assert(first_attribute(txid, p) + (attributes_from(txid, tail, 0) + attributes_from(txid, q, 0))
            =~= first_attribute(txid, p) + attributes_from(txid, tail, 0) + attributes_from(txid, q, 0));
    }
    if q.len() % 4 == 0 {
        assert((p + q).len() % 4 == 0);
    }
}

/// A single complete attribute of a type this client does not read is well
/// formed, a whole number of words, and contributes nothing.
proof fn lemma_unknown_attribute(txid: Seq<u8>, u: Seq<u8>)
    requires
        u.len() >= 4,
        u.len() == attribute_size(u, 0),
        attribute_type_from_code(be_value(u.subrange(0, 2)) as u16) is Err,
    ensures
        well_formed_attributes(u),
        u.len() % 4 == 0,
        attributes_from(txid, u, 0) == Seq::<Attribute>::empty(),
{
    assert(u.skip(attribute_size(u, 0) as int) =~= Seq::<u8>::empty());
    assert(well_formed_attributes(u)) by {
        reveal_with_fuel(well_formed_attributes, 2);
    }
    lemma_well_formed_attributes_aligned(u);
    lemma_attributes_from_step(txid, u);
    lemma_attributes_from_end(txid, Seq::<u8>::empty(), 0);
    assert(first_attribute(txid, u) =~= Seq::<Attribute>::empty());
    assert(attributes_from(txid, u, 0) =~= Seq::<Attribute>::empty());
}

/// An attribute of a type this client does not read, inserted between
/// complete attributes and what follows them, changes nothing that is read.
#[verifier::spinoff_prover]
pub proof fn law_unknown_attribute_skipped(txid: Seq<u8>, p: Seq<u8>, u: Seq<u8>, q: Seq<u8>)
    requires
        well_formed_attributes(p),
        u.len() >= 4,
        u.len() == attribute_size(u, 0),
        attribute_type_from_code(be_value(u.subrange(0, 2)) as u16) is Err,
    ensures
        attributes_from(txid, p + u + q, 0) == attributes_from(txid, p + q, 0),
        parsed_attributes(txid, p + u + q) == parsed_attributes(txid, p + q),
{
    lemma_unknown_attribute(txid, u);
    let a = attributes_from(txid, p, 0);
    let c = attributes_from(txid, q, 0);
    assert(attributes_from(txid, u + q, 0) == c) by {
        law_attributes_concat(txid, u, q);
        assert(Seq::<Attribute>::empty() + c =~= c);
    }
    assert(attributes_from(txid, p + u + q, 0) == a + c) by {
        law_attributes_concat(txid, p, u + q);
        assert(p + u + q =~= p + (u + q));
    }
    assert(attributes_from(txid, p + q, 0) == a + c) by {
        law_attributes_concat(txid, p, q);
    }
    lemma_well_formed_attributes_aligned(p);
    assert((p + u + q).len() % 4 == (p + q).len() % 4);
}

/// An attribute whose length runs past the end of the bytes ends reading:
/// the complete attributes before it are read, and nothing from it on.
pub proof fn law_corrupt_attribute_ends_reading(txid: Seq<u8>, p: Seq<u8>, q: Seq<u8>)
    requires
        well_formed_attributes(p),
        q.len() >= 4,
        4 + be_value(q.subrange(2, 4)) > q.len(),
    ensures
        attributes_from(txid, p + q, 0) == attributes_from(txid, p, 0),
        q.len() % 4 == 0 ==> parsed_attributes(txid, p + q) == parsed_attributes(txid, p),
{
    law_attributes_concat(txid, p, q);
    assert(attributes_from(txid, q, 0) =~= Seq::<Attribute>::empty()) by {
        reveal(attributes_from);
    }
    assert(attributes_from(txid, p, 0) + Seq::<Attribute>::empty() =~= attributes_from(txid, p, 0));
    lemma_well_formed_attributes_aligned(p);
}

/// The attributes of one type code read from complete attributes followed by
/// more bytes: those read from the first followed by those read from the
/// second (a missing group counts as empty).
pub proof fn law_groups_concat(txid: Seq<u8>, p: Seq<u8>, q: Seq<u8>, k: u16)
    requires
        well_formed_attributes(p),
        q.len() % 4 == 0,
    ensures
        group_of(group_by_type(parsed_attributes(txid, p + q)), k) == group_of(
            group_by_type(parsed_attributes(txid, p)),
            k,
        ) + group_of(group_by_type(parsed_attributes(txid, q)), k),
{
    law_attributes_concat(txid, p, q);
    let a = parsed_attributes(txid, p);
    let b = parsed_attributes(txid, q);
    law_group_by_type(a + b, k);
    law_group_by_type(a, k);
    law_group_by_type(b, k);
    Seq::filter_distributes_over_add(a, b, has_type_code(k));
    if a.filter(has_type_code(k)).len() == 0 {
        assert(a.filter(has_type_code(k)) =~= Seq::<Attribute>::empty());
    }
    if b.filter(has_type_code(k)).len() == 0 {
        assert(b.filter(has_type_code(k)) =~= Seq::<Attribute>::empty());
    }
    if (a + b).filter(has_type_code(k)).len() == 0 {
        assert((a + b).filter(has_type_code(k)) =~= Seq::<Attribute>::empty());
    }
}

/// The group of a type code in a grouping; empty when there is none.
pub open spec fn group_of(m: Map<u16, Seq<Attribute>>, k: u16) -> Seq<Attribute> {
    if m.contains_key(k) {
        m[k]
    } else {
        Seq::empty()
    }
}

/// The contents of each vector of a map from type codes to attribute vectors.
pub open spec fn grouped_view(m: Map<u16, Vec<Attribute>>) -> Map<u16, Seq<Attribute>> {
    m.map_values(|v: Vec<Attribute>| v@)
}

/// Below the end of a whole number of words, a word-aligned position has a
/// whole word after it.
proof fn lemma_aligned_room(i: int, n: int)
    requires
        0 <= i < n,
        i % 4 == 0,
        n % 4 == 0,
    ensures
        i + 4 <= n,
{
}

/// An attribute read from a word-aligned position, with its padding, ends on
/// a word boundary.
pub proof fn lemma_aligned_step(i: int, len: int)
    requires
        i >= 0,
        len >= 0,
        i % 4 == 0,
    ensures
        (i + 4 + len + (4 - len % 4) % 4) % 4 == 0,
{
}

/// Reads the attributes that follow a header, grouped by the code of their
/// type, in the order in which they come.
pub fn parse_attributes(header: StunHeaderRef, d: &[u8]) -> (attrs: HashMap<u16, Vec<Attribute>>)
    ensures
        grouped_view(attrs@) == group_by_type(
            parsed_attributes(transaction_id_field(header@), d@),
        ),
{
    broadcast use vstd::std_specs::hash::group_hash_axioms;

    reveal(attributes_from);
    let mut attrs: HashMap<u16, Vec<Attribute>> = HashMap::new();
    let ghost txid = transaction_id_field(header@);
    proof {
        assert(grouped_view(attrs@) =~= group_by_type(Seq::empty()));
    }

    if d.len() % 4 != 0 {
        return attrs;
    }

    let ghost mut seen: Seq<Attribute> = Seq::empty();
    let mut i: usize = 0;
    while i < d.len()
        invariant
            i <= d@.len(),
            d@.len() % 4 == 0,
            i % 4 == 0,
            txid == transaction_id_field(header@),
            seen + attributes_from(txid, d@, i as nat) == parsed_attributes(txid, d@),
            grouped_view(attrs@) == group_by_type(seen),
        decreases d@.len() - i,
    {
        proof {
            reveal(attributes_from);
            lemma_aligned_room(i as int, d@.len() as int);
        }
        let ty = be16_at(d, i);
        let len = be16_at(d, i + 2) as usize;
        let start = i + 4;
        if len > d.len() - start {
            proof {
                assert(seen + attributes_from(txid, d@, i as nat) =~= seen);
            }
            return attrs;
        }
        let end = start + len;
        let val = &d[start..end];
        let pad = (4 - len % 4) % 4;
        let next = if pad < d.len() - end {
            end + pad
        } else {
            d.len()
        };
        proof {
            lemma_aligned_step(i as int, len as int);
        }
        let ghost rest = if next < d.len() {
            attributes_from(txid, d@, next as nat)
        } else {
            Seq::<Attribute>::empty()
        };
        proof {
            if next >= d.len() {
                assert(attributes_from(txid, d@, next as nat) =~= Seq::<Attribute>::empty());
            }
        }

        let found: Option<Attribute> = match AttributeType::try_from(ty) {
            Ok(AttributeType::XorMappedAddress) => {
                if val.len() >= 4 && (val[1] != 0x01 || val.len() >= 8) && (val[1] != 0x02
                    || val.len() >= 20) {
                    match parse_xor_mapped_address(header, val) {
                        Some(add) => Some(Attribute::XorMappedAddress(add)),
                        None => None,
                    }
                } else {
                    None
                }
            },
            Err(_) => None,
        };
        assert(found == attribute_of(txid, ty, val@));

        match found {
            Some(attr) => {
                let key = attr.attribute_type().code();
                let ghost before = seen;
                proof {
                    seen = seen.push(attr);
                    assert(seen.drop_last() =~= before);
                }
                let ghost m0 = attrs@;
                proof {
                    assert(seen.last() == attr);
                    assert(grouped_view(m0).contains_key(key) == m0.contains_key(key));
                }
                match attrs.remove(&key) {
                    Some(mut v) => {
                        proof {
                            assert(grouped_view(m0)[key] == v@);
                        }
                        v.push(attr);
                        attrs.insert(key, v);
                        proof {
                            assert(attrs@ == m0.remove(key).insert(key, v));
                            assert(grouped_view(attrs@) =~= grouped_view(m0).insert(key, v@));
                        }
                    },
                    None => {
                        let v = vec![attr];
                        attrs.insert(key, v);
                        proof {
                            assert(v@ =~= seq![attr]);
                            assert(grouped_view(attrs@) =~= grouped_view(m0).insert(key, v@));
                        }
                    },
                }
                proof {
                    assert(grouped_view(attrs@) =~= group_by_type(seen));
                    assert(before + attributes_from(txid, d@, i as nat) =~= seen + rest);
                }
            },
            None => {
                proof {
                    assert(seen + attributes_from(txid, d@, i as nat) =~= seen + rest);
                }
            },
        }
        i = next;
    }
    proof {
        assert(attributes_from(txid, d@, i as nat) =~= Seq::<Attribute>::empty());
        assert(seen + Seq::<Attribute>::empty() =~= seen);
    }
    attrs
}

/// The public STUN server asked for our address, by host name and port.
pub const PUBLIC_STUN_SERVER: (&'static str, u16) = ("stun.l.google.com", 19302);

/// How many datagrams are awaited for a reply to a binding request.
pub const STUN_RECEIVE_TRIES: u32 = 10;

/// What a datagram received while awaiting a reply to a binding request turned out to be.
#[derive(Debug)]
pub enum StunReply {
    /// It came from another address than the server, or is shorter than a header.
    OtherSource,
    /// Its header lacks the magic cookie.
    NotStun,
    /// Its message type is none this client knows; the field value.
    UnsupportedMessageType(u16),
    /// A STUN message of a known type, with its header and its attributes
    /// grouped by the code of their type.
    Message {
        msg_type: MsgType,
        header: StunHeader,
        attributes: HashMap<u16, Vec<Attribute>>,
    },
}

impl StunReply {
    /// Whether waiting for a reply ends with this datagram: it does with any
    /// STUN message of a known type.
    pub fn is_final(&self) -> (b: bool)
        ensures
            b == (self is Message),
    {
        match self {
            StunReply::Message { .. } => true,
            _ => false,
        }
    }
}

/// Reads a datagram received while awaiting a reply to a binding request;
/// `from_server` says whether it came from the server's address.
pub fn classify_reply(data: &[u8], from_server: bool) -> (r: StunReply)
    ensures
        !from_server || data@.len() < HEADER_LEN ==> r is OtherSource,
        from_server && data@.len() >= HEADER_LEN ==> ({
            let h = data@.subrange(0, HEADER_LEN as int);
            let body = data@.subrange(HEADER_LEN as int, data@.len() as int);
            if !has_magic_cookie(h) {
                r is NotStun
            } else {
                match msg_type_from_code(type_field(h)) {
                    Err(v) => r == StunReply::UnsupportedMessageType(v),
                    Ok(t) => match r {
                        StunReply::Message { msg_type, header, attributes } => {
                            &&& msg_type == t
                            &&& header@ == h
                            &&& grouped_view(attributes@) == group_by_type(
                                parsed_attributes(transaction_id_field(h), body),
                            )
                        },
                        _ => false,
                    },
                }
            }
        }),
{
    if !from_server || data.len() < HEADER_LEN {
        return StunReply::OtherSource;
    }
    let mut bytes = [0u8; HEADER_LEN];
    let mut k: usize = 0;
    while k < HEADER_LEN
        invariant
            k <= HEADER_LEN <= data@.len(),
            bytes@.len() == HEADER_LEN,
            forall|j: int| 0 <= j < k ==> bytes@[j] == data@[j],
        decreases HEADER_LEN - k,
    {
        bytes[k] = data[k];
        k = k + 1;
    }
    assert(bytes@ =~= data@.subrange(0, HEADER_LEN as int));
    let h = match StunHeaderRef::new(&bytes) {
        Ok(h) => h,
        Err(_) => return StunReply::NotStun,
    };
    let msg_type = match h.message_type() {
        Ok(t) => t,
        Err(v) => return StunReply::UnsupportedMessageType(v),
    };
    let msg = &data[HEADER_LEN..data.len()];
    let attributes = parse_attributes(h, msg);
    StunReply::Message { msg_type, header: StunHeaderImpl(bytes), attributes }
}


/// The first XOR-MAPPED-ADDRESS with an IPv4 address among attributes, in order.
pub open spec fn first_ipv4_mapped(s: Seq<Attribute>) -> Option<XorMappedAddress>
    decreases s.len(),
{
    if s.len() == 0 {
        None
    } else {
        match s[0] {
            Attribute::XorMappedAddress(m) => match m.address {
                IpAddress::V4(_) => Some(m),
                IpAddress::V6(_) => first_ipv4_mapped(s.drop_first()),
            },
        }
    }
}

/// The address picked among attributes is the first with an IPv4 address:
/// it is one of them, every attribute before it holds an IPv6 address, and
/// none is picked only when every one holds an IPv6 address.
pub proof fn law_first_ipv4_mapped(s: Seq<Attribute>)
    ensures
        match first_ipv4_mapped(s) {
            Some(m) => exists|i: int|
                0 <= i < s.len() && #[trigger] s[i] == Attribute::XorMappedAddress(m)
                    && m.address is V4 && forall|j: int|
                    0 <= j < i ==> (#[trigger] s[j] matches Attribute::XorMappedAddress(n)
                        && n.address is V6),
            None => forall|j: int|
                0 <= j < s.len() ==> (#[trigger] s[j] matches Attribute::XorMappedAddress(n)
                    && n.address is V6),
        },
    decreases s.len(),
{
    if s.len() > 0 {
        let r = s.drop_first();
        law_first_ipv4_mapped(r);
        let Attribute::XorMappedAddress(m0) = s[0];
        match m0.address {
            IpAddress::V4(_) => {
                assert(s[0] == Attribute::XorMappedAddress(m0));
            },
            IpAddress::V6(_) => {
                match first_ipv4_mapped(r) {
                    Some(m) => {
                        let i = choose|i: int|
                            0 <= i < r.len() && #[trigger] r[i] == Attribute::XorMappedAddress(m)
                                && m.address is V4 && forall|j: int|
                                0 <= j < i ==> (#[trigger] r[j] matches Attribute::XorMappedAddress(
                                    n,
                                ) && n.address is V6);
                        assert(s[i + 1] == r[i]);
                        assert forall|j: int| 0 <= j < i + 1 implies (#[trigger] s[j] matches Attribute::XorMappedAddress(
                            n,
                        ) && n.address is V6) by {
                            if j > 0 {
                                assert(s[j] == r[j - 1]);
                            }
                        }
                    },
                    None => {
                        assert forall|j: int| 0 <= j < s.len() implies (#[trigger] s[j] matches Attribute::XorMappedAddress(
                            n,
                        ) && n.address is V6) by {
                            if j > 0 {
                                assert(s[j] == r[j - 1]);
                            }
                        }
                    },
                }
            },
        }
    }
}

/// The IPv4 transport address, address and port, that a reply reports us to
/// be seen from: the first IPv4 XOR-MAPPED-ADDRESS of a binding response;
/// `None` for anything else.
pub open spec fn reported_address(reply: StunReply) -> Option<XorMappedAddress> {
    match reply {
        StunReply::Message { msg_type, attributes, .. } => {
            let k = AttributeType::XorMappedAddress.spec_code();
            if msg_type == MsgType::BindingResponse && attributes@.contains_key(k) {
                first_ipv4_mapped(attributes@[k]@)
            } else {
                None
            }
        },
        _ => None,
    }
}

/// The IPv4 transport address that a reply reports us to be seen from; see
/// [`reported_address`].
pub fn reported_address_of(reply: &StunReply) -> (r: Option<XorMappedAddress>)
    ensures
        r == reported_address(*reply),
{
    broadcast use vstd::std_specs::hash::group_hash_axioms;

    match reply {
        StunReply::Message { msg_type, attributes, .. } => {
            match msg_type {
                MsgType::BindingResponse => {},
                _ => return None,
            }
            let v = match attributes.get(&AttributeType::XorMappedAddress.code()) {
                Some(v) => v,
                None => return None,
            };
            let mut k: usize = 0;
            proof {
                assert(v@.skip(0) =~= v@);
            }
            while k < v.len()
                invariant
                    k <= v@.len(),
                    reported_address(*reply) == first_ipv4_mapped(v@),
                    first_ipv4_mapped(v@) == first_ipv4_mapped(v@.skip(k as int)),
                decreases v@.len() - k,
            {
                proof {
                    assert(v@.skip(k as int).drop_first() =~= v@.skip(k + 1));
                    assert(v@.skip(k as int)[0] == v@[k as int]);
                }
                let Attribute::XorMappedAddress(m) = v[k];
                match m.address {
                    IpAddress::V4(_) => {
                        return Some(m);
                    },
                    IpAddress::V6(_) => {},
                }
                k = k + 1;
            }
            None
        },
        _ => None,
    }
}

/// What to do after a datagram has been awaited for a binding request.
#[derive(Debug, Clone, Copy, PartialEq, Eq, Structural)]
pub enum StunStep {
    /// Await another datagram.
    Await,
    /// The server reported this IPv4 transport address: we are seen from it.
    Found(XorMappedAddress),
    /// No address will come: the reply held none, or the tries are used up.
    GiveUp,
}

/// The step after the datagram of try number `tries_done` (counting from
/// zero) was read as `reply`: a final reply ends the wait with the address it
/// reports, or with nothing; any other datagram ends it only on the last try.
pub fn binding_step(tries_done: u32, reply: &StunReply) -> (s: StunStep)
    requires
        tries_done < STUN_RECEIVE_TRIES,
    ensures
        reply is Message ==> s == match reported_address(*reply) {
            Some(a) => StunStep::Found(a),
            None => StunStep::GiveUp,
        },
        !(reply is Message) ==> s == (if tries_done + 1 == STUN_RECEIVE_TRIES {
            StunStep::GiveUp
        } else {
            StunStep::Await
        }),
{
    if reply.is_final() {
        match reported_address_of(reply) {
            Some(a) => StunStep::Found(a),
            None => StunStep::GiveUp,
        }
    } else {
        missed_step(tries_done)
    }
}

/// The step after try number `tries_done` (counting from zero) brought no
/// datagram, or none worth reading: give up on the last try, await another
/// before it.
pub fn missed_step(tries_done: u32) -> (s: StunStep)
    requires
        tries_done < STUN_RECEIVE_TRIES,
    ensures
        s == (if tries_done + 1 == STUN_RECEIVE_TRIES {
            StunStep::GiveUp
        } else {
            StunStep::Await
        }),
{
    if tries_done + 1 == STUN_RECEIVE_TRIES {
        StunStep::GiveUp
    } else {
        StunStep::Await
    }
}

} // verus!
