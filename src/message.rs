use vstd::prelude::*;

use crate::bytes::{
    le_bytes, le_value, lemma_le_bytes_len, lemma_le_bytes_split, lemma_le_bytes_of_value, lemma_le_value_bound,
    lemma_le_value_of_bytes, lemma_pow256_values, pow256, push_le, read_le,
};

verus! {

/// Length in bytes of one record on the wire: 16 for the sender, 1 for the
/// kind, 16 for the timestamp.
pub const RECORD_LEN: usize = 33;

/// 2^64, the weight of a grid id's second coordinate in its flat form.
pub const GRID_SHIFT: u128 = 0x1_0000_0000_0000_0000;

/// A node's identity: a (row, column) place in Maekawa's grid, or an index
/// in the full-quorum variant.
#[derive(Debug, Clone, Copy, PartialEq, Eq, Structural)]
pub enum NodeId {
    Grid(u64, u64),
    Flat(u128),
}

/// Which of the two identity forms a receiver expects on the wire.
#[derive(Debug, Clone, Copy, PartialEq, Eq, Structural)]
pub enum IdShape {
    Grid,
    Flat,
}

pub open spec fn shape_of(id: NodeId) -> IdShape {
    match id {
        NodeId::Grid(_, _) => IdShape::Grid,
        NodeId::Flat(_) => IdShape::Flat,
    }
}

/// The kinds of protocol message.
#[derive(Debug, Clone, Copy, PartialEq, Eq, Structural)]
pub enum MessageType {
    Request,
    Reply,
    Release,
    Failed,
    Inquire,
    Yield,
    Terminate,
}

/// The byte that stands for each kind on the wire.
pub open spec fn type_code(t: MessageType) -> u8 {
    match t {
        MessageType::Request => 1,
        MessageType::Reply => 2,
        MessageType::Release => 3,
        MessageType::Failed => 4,
        MessageType::Inquire => 5,
        MessageType::Yield => 6,
        MessageType::Terminate => 7,
    }
}

pub open spec fn is_type_code(b: u8) -> bool {
    1 <= b <= 7
}

pub open spec fn type_of_code(b: u8) -> MessageType {
    if b == 1 {
        MessageType::Request
    } else if b == 2 {
        MessageType::Reply
    } else if b == 3 {
        MessageType::Release
    } else if b == 4 {
        MessageType::Failed
    } else if b == 5 {
        MessageType::Inquire
    } else if b == 6 {
        MessageType::Yield
    } else {
        MessageType::Terminate
    }
}

impl MessageType {
    /// The kind's byte on the wire.
    pub fn code(&self) -> (r: u8)
        ensures
            r == type_code(*self),
    {
        match self {
            MessageType::Request => 1,
            MessageType::Reply => 2,
            MessageType::Release => 3,
            MessageType::Failed => 4,
            MessageType::Inquire => 5,
            MessageType::Yield => 6,
            MessageType::Terminate => 7,
        }
    }

    /// The kind that a wire byte stands for, if any.
    pub fn from_code(b: u8) -> (r: Option<MessageType>)
        ensures
            r == (if is_type_code(b) {
                Some(type_of_code(b))
            } else {
                None
            }),
    {
        if b == 1 {
            Some(MessageType::Request)
        } else if b == 2 {
            Some(MessageType::Reply)
        } else if b == 3 {
            Some(MessageType::Release)
        } else if b == 4 {
            Some(MessageType::Failed)
        } else if b == 5 {
            Some(MessageType::Inquire)
        } else if b == 6 {
            Some(MessageType::Yield)
        } else if b == 7 {
            Some(MessageType::Terminate)
        } else {
            None
        }
    }
}

/// One protocol message: who sent it, what kind it is, and the sender's
/// logical time.
#[derive(Debug, Clone, Copy, PartialEq, Eq, Structural)]
pub struct Message {
    pub id: NodeId,
    pub typ: MessageType,
    pub ts: u128,
}

/// One message to send: its kind, and the index of the connection or peer
/// it goes to.
#[derive(Debug, Clone, Copy, PartialEq, Eq, Structural)]
pub struct Outgoing {
    pub to: usize,
    pub typ: MessageType,
}

pub open spec fn one(to: usize, typ: MessageType) -> Seq<Outgoing> {
    seq![Outgoing { to, typ }]
}

/// Why a byte string is not a sequence of whole records.
#[derive(Debug, Clone, Copy, PartialEq, Eq, Structural)]
pub enum WireError {
    /// The length is not a whole number of records.
    Length(usize),
    /// The kind byte stands for no message kind.
    UnknownType(u8),
}

/// The 16 bytes of an identity: a grid id as its two coordinates, 8 bytes
/// each; a flat id as one 16-byte number. Least significant byte first.
pub open spec fn id_bytes(id: NodeId) -> Seq<u8> {
    match id {
        NodeId::Grid(a, b) => le_bytes(a as nat, 8) + le_bytes(b as nat, 8),
        NodeId::Flat(x) => le_bytes(x as nat, 16),
    }
}

/// The record that encodes `m`.
pub open spec fn wire_bytes(m: Message) -> Seq<u8> {
    id_bytes(m.id) + seq![type_code(m.typ)] + le_bytes(m.ts as nat, 16)
}

/// The identity that 16 bytes denote, read in the given form.
pub open spec fn id_of_bytes(s: Seq<u8>, shape: IdShape) -> NodeId {
    match shape {
        IdShape::Grid => NodeId::Grid(
            le_value(s.subrange(0, 8)) as u64,
            le_value(s.subrange(8, 16)) as u64,
        ),
        IdShape::Flat => NodeId::Flat(le_value(s) as u128),
    }
}

/// Whether `s` is exactly one well-formed record.
pub open spec fn is_record(s: Seq<u8>) -> bool {
    s.len() == RECORD_LEN && is_type_code(s[16])
}

/// The message that a record denotes.
pub open spec fn message_of(s: Seq<u8>, shape: IdShape) -> Message {
    Message {
        id: id_of_bytes(s.subrange(0, 16), shape),
        typ: type_of_code(s[16]),
        ts: le_value(s.subrange(17, 33)) as u128,
    }
}

/// What decoding one candidate record gives: the message, or the first
/// thing wrong with it.
pub open spec fn decode_spec(s: Seq<u8>, shape: IdShape) -> Result<Message, WireError> {
    if s.len() != RECORD_LEN {
        Err(WireError::Length(s.len() as usize))
    } else if !is_type_code(s[16]) {
        Err(WireError::UnknownType(s[16]))
    } else {
        Ok(message_of(s, shape))
    }
}

/// The `i`-th record-sized chunk of `s`.
pub open spec fn chunk(s: Seq<u8>, i: int) -> Seq<u8> {
    s.subrange(i * RECORD_LEN, (i + 1) * RECORD_LEN)
}

/// The identity in the other form, with the same 16 bytes on the wire: the
/// grid pair (a, b) is the number a + b * 2^64.
pub open spec fn flip_id(id: NodeId) -> NodeId {
    match id {
        NodeId::Grid(a, b) => NodeId::Flat((a + b * GRID_SHIFT) as u128),
        NodeId::Flat(x) => NodeId::Grid((x % GRID_SHIFT) as u64, (x / GRID_SHIFT) as u64),
    }
}

impl Message {
    /// A message from a grid node.
    pub fn new_maekawa(id: (u64, u64), typ: MessageType, ts: u128) -> (r: Message)
        ensures
            r == (Message { id: NodeId::Grid(id.0, id.1), typ, ts }),
    {
        Message { id: NodeId::Grid(id.0, id.1), typ, ts }
    }

    /// A message from a node of the full-quorum variant.
    pub fn new_rc(id: u128, typ: MessageType, ts: u128) -> (r: Message)
        ensures
            r == (Message { id: NodeId::Flat(id), typ, ts }),
    {
        Message { id: NodeId::Flat(id), typ, ts }
    }

    /// Reads the sender's identity in the other form.
    pub fn flip(&mut self)
        ensures
            final(self).id == flip_id(old(self).id),
            final(self).typ == old(self).typ,
            final(self).ts == old(self).ts,
    {
        self.id = match self.id {
            NodeId::Grid(a, b) => {
                assert(a + b * GRID_SHIFT <= u128::MAX) by (nonlinear_arith)
                    requires
                        a < GRID_SHIFT,
                        b < GRID_SHIFT,
                ;
                NodeId::Flat(a as u128 + b as u128 * GRID_SHIFT)
            },
            NodeId::Flat(x) => {
                assert(x / GRID_SHIFT < GRID_SHIFT) by (nonlinear_arith)
                    requires
                        x <= u128::MAX,
                ;
                NodeId::Grid((x % GRID_SHIFT) as u64, (x / GRID_SHIFT) as u64)
            },
        };
    }

    /// The message as one 33-byte record.
    pub fn encode(&self) -> (r: Vec<u8>)
        ensures
            r@ == wire_bytes(*self),
    {
        let mut out: Vec<u8> = Vec::new();
        match self.id {
            NodeId::Grid(a, b) => {
                push_le(&mut out, a as u128, 8);
                push_le(&mut out, b as u128, 8);
            },
            NodeId::Flat(x) => {
                push_le(&mut out, x, 16);
            },
        }
        out.push(self.typ.code());
        push_le(&mut out, self.ts, 16);
        assert(out@ =~= wire_bytes(*self));
        out
    }

    /// Decodes one record; the sender's identity is read in `shape`.
    pub fn decode(bytes: &[u8], shape: IdShape) -> (r: Result<Message, WireError>)
        ensures
            r == decode_spec(bytes@, shape),
    {
        if bytes.len() != RECORD_LEN {
            return Err(WireError::Length(bytes.len()));
        }
        let r = decode_at(bytes, 0, shape);
        assert(bytes@.subrange(0, 33) =~= bytes@);
        r
    }
}

/// Decodes the record at `off`.
fn decode_at(bytes: &[u8], off: usize, shape: IdShape) -> (r: Result<Message, WireError>)
    requires
        off + RECORD_LEN <= bytes@.len(),
    ensures
        r == decode_spec(bytes@.subrange(off as int, off + RECORD_LEN), shape),
{
    let ghost s = bytes@.subrange(off as int, off + RECORD_LEN);
    let len = bytes.len();
    assert(off + RECORD_LEN <= len);
    let typ = match MessageType::from_code(bytes[off + 16]) {
        Some(t) => t,
        None => {
            return Err(WireError::UnknownType(bytes[off + 16]));
        },
    };
    proof {
        lemma_pow256_values();
    }
    let id = match shape {
        IdShape::Grid => {
            let a = read_le(bytes, off, 8);
            let b = read_le(bytes, off + 8, 8);
            assert(s.subrange(0, 16).subrange(0, 8) =~= bytes@.subrange(off as int, off + 8));
            assert(s.subrange(0, 16).subrange(8, 16) =~= bytes@.subrange(off + 8, off + 16));
            NodeId::Grid(a as u64, b as u64)
        },
        IdShape::Flat => {
            let x = read_le(bytes, off, 16);
            assert(s.subrange(0, 16) =~= bytes@.subrange(off as int, off + 16));
            NodeId::Flat(x)
        },
    };
    let ts = read_le(bytes, off + 17, 16);
    assert(s.subrange(17, 33) =~= bytes@.subrange(off + 17, off + 33));
    Ok(Message { id, typ, ts })
}

/// Splits a read into its records and decodes each. The read must be a
/// whole number of records, each of a known kind.
pub fn get_msgs(buf: &[u8], shape: IdShape) -> (r: Result<Vec<Message>, WireError>)
    ensures
        buf@.len() % (RECORD_LEN as nat) != 0 ==> r == Err::<Vec<Message>, WireError>(
            WireError::Length(buf@.len() as usize),
        ),
        buf@.len() % (RECORD_LEN as nat) == 0 ==> match r {
            Ok(v) => v@.len() == buf@.len() / (RECORD_LEN as nat) && forall|i: int|
                0 <= i < v@.len() ==> #[trigger] v@[i] == message_of(chunk(buf@, i), shape)
                    && is_record(chunk(buf@, i)),
            Err(e) => exists|i: int|
                0 <= i < buf@.len() / (RECORD_LEN as nat) && !is_record(#[trigger] chunk(buf@, i))
                    && e == WireError::UnknownType(chunk(buf@, i)[16]),
        },
{
    let len = buf.len();
    if len % RECORD_LEN != 0 {
        return Err(WireError::Length(len));
    }
    let count = len / RECORD_LEN;
    let mut out: Vec<Message> = Vec::new();
    let mut i: usize = 0;
    while i < count
        invariant
            len == buf@.len(),
            len as int % RECORD_LEN as int == 0,
            count == len as int / RECORD_LEN as int,
            i <= count,
            out@.len() == i,
            forall|j: int|
                0 <= j < i ==> #[trigger] out@[j] == message_of(chunk(buf@, j), shape)
                    && is_record(chunk(buf@, j)),
        decreases count - i,
    {
        assert((i + 1) * 33 <= count * 33) by (nonlinear_arith)
            requires
                i < count,
        ;
        let off = i * RECORD_LEN;
        assert(chunk(buf@, i as int) == buf@.subrange(off as int, off + RECORD_LEN));
        match decode_at(buf, off, shape) {
            Ok(m) => {
                out.push(m);
            },
            Err(e) => {
                assert(!is_record(chunk(buf@, i as int)));
                return Err(e);
            },
        }
        i = i + 1;
    }
    Ok(out)
}

/// The two forms of an identity that `flip` moves between have the same 16
/// bytes on the wire.
pub proof fn lemma_flip_keeps_bytes(id: NodeId)
    ensures
        id_bytes(flip_id(id)) == id_bytes(id),
{
    lemma_pow256_values();
    match id {
        NodeId::Grid(a, b) => {
            assert(a + b * GRID_SHIFT <= u128::MAX) by (nonlinear_arith)
                requires
                    a < GRID_SHIFT,
                    b < GRID_SHIFT,
            ;
            lemma_le_bytes_split(a as nat, b as nat, 8, 8);
        },
        NodeId::Flat(x) => {
            let lo = x % GRID_SHIFT;
            let hi = x / GRID_SHIFT;
            vstd::arithmetic::div_mod::lemma_fundamental_div_mod(x as int, GRID_SHIFT as int);
            assert(hi < GRID_SHIFT) by (nonlinear_arith)
                requires
                    x <= u128::MAX,
                    hi == x / GRID_SHIFT,
            ;
            assert(x == lo + hi * GRID_SHIFT) by (nonlinear_arith)
                requires
                    x == GRID_SHIFT * hi + lo,
            ;
            lemma_le_bytes_split(lo as nat, hi as nat, 8, 8);
        },
    }
}

/// Decoding the encoding of any message, in the form of its own identity,
/// gives the message back.
pub proof fn lemma_decode_encode(m: Message)
    ensures
        is_record(wire_bytes(m)),
        decode_spec(wire_bytes(m), shape_of(m.id)) == Ok::<Message, WireError>(m),
{
    lemma_pow256_values();
    let s = wire_bytes(m);
    lemma_le_bytes_len(m.ts as nat, 16);
    lemma_le_value_of_bytes(m.ts as nat, 16);
    match m.id {
        NodeId::Grid(a, b) => {
            lemma_le_bytes_len(a as nat, 8);
            lemma_le_bytes_len(b as nat, 8);
            lemma_le_value_of_bytes(a as nat, 8);
            lemma_le_value_of_bytes(b as nat, 8);
            assert(s.subrange(0, 16).subrange(0, 8) =~= le_bytes(a as nat, 8));
            assert(s.subrange(0, 16).subrange(8, 16) =~= le_bytes(b as nat, 8));
        },
        NodeId::Flat(x) => {
            lemma_le_bytes_len(x as nat, 16);
            lemma_le_value_of_bytes(x as nat, 16);
            assert(s.subrange(0, 16) =~= le_bytes(x as nat, 16));
        },
    }
    assert(s.subrange(17, 33) =~= le_bytes(m.ts as nat, 16));
    assert(s[16] == type_code(m.typ));
    assert(message_of(s, shape_of(m.id)) == m);
}

/// Encoding the message that a well-formed record decodes to, in either
/// form, gives the record back byte for byte.
pub proof fn lemma_encode_decode(s: Seq<u8>, shape: IdShape)
    requires
        is_record(s),
    ensures
        decode_spec(s, shape) is Ok,
        wire_bytes(message_of(s, shape)) == s,
{
    lemma_pow256_values();
    let m = message_of(s, shape);
    let ts_part = s.subrange(17, 33);
    lemma_le_value_bound(ts_part);
    lemma_le_bytes_of_value(ts_part);
    let idp = s.subrange(0, 16);
    match shape {
        IdShape::Grid => {
            let lo = idp.subrange(0, 8);
            let hi = idp.subrange(8, 16);
            lemma_le_value_bound(lo);
            lemma_le_value_bound(hi);
            lemma_le_bytes_of_value(lo);
            lemma_le_bytes_of_value(hi);
            assert(id_bytes(m.id) =~= lo + hi);
            assert(lo + hi =~= idp);
        },
        IdShape::Flat => {
            lemma_le_value_bound(idp);
            lemma_le_bytes_of_value(idp);
        },
    }
    assert(wire_bytes(m) =~= s);
}

} // verus!
