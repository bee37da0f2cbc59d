//! WebSocket frames: parsing the client's bytes and serializing the server's.

use vstd::prelude::*;
use vstd::arithmetic::div_mod::{lemma_mod_breakdown, lemma_small_mod};

verus! {

/// The kind of a frame, from the low four bits of its first byte.
#[derive(Debug, Copy, Clone, PartialEq, Eq, Structural)]
pub enum OpCode {
    Continue,
    Binary,
    Text,
    Reserved,
    Terminate,
    Ping,
    Pong,
}

pub open spec fn opcode_code(op: OpCode) -> u8 {
    match op {
        OpCode::Continue => 0,
        OpCode::Text => 1,
        OpCode::Binary => 2,
        OpCode::Reserved => 3,
        OpCode::Terminate => 8,
        OpCode::Ping => 9,
        OpCode::Pong => 10,
    }
}

/// The opcode that a code stands for; the reserved codes 3-7 and 11-15 stand for none.
pub open spec fn opcode_of(n: nat) -> Option<OpCode> {
    if n == 0 {
        Some(OpCode::Continue)
    } else if n == 1 {
        Some(OpCode::Text)
    } else if n == 2 {
        Some(OpCode::Binary)
    } else if n == 8 {
        Some(OpCode::Terminate)
    } else if n == 9 {
        Some(OpCode::Ping)
    } else if n == 10 {
        Some(OpCode::Pong)
    } else {
        None
    }
}

impl OpCode {
    /// The four-bit code of this opcode.
    pub fn code(self) -> (r: u8)
        ensures
            r == opcode_code(self),
    {
        match self {
            OpCode::Continue => 0,
            OpCode::Binary => 2,
            OpCode::Text => 1,
            OpCode::Reserved => 3,
            OpCode::Terminate => 8,
            OpCode::Ping => 9,
            OpCode::Pong => 10,
        }
    }
}

fn opcode_from(n: u8) -> (r: Option<OpCode>)
    ensures
        r == opcode_of(n as nat),
{
    match n {
        0 => Some(OpCode::Continue),
        1 => Some(OpCode::Text),
        2 => Some(OpCode::Binary),
        8 => Some(OpCode::Terminate),
        9 => Some(OpCode::Ping),
        10 => Some(OpCode::Pong),
        _ => None,
    }
}

/// One WebSocket frame, with its payload unmasked.
#[derive(Debug, Clone)]
pub struct Frame {
    pub fin: bool,
    pub rsv1: bool,
    pub rsv2: bool,
    pub rsv3: bool,
    pub op_code: OpCode,
    pub decoded: Vec<u8>,
}

pub struct FrameV {
    pub fin: bool,
    pub rsv1: bool,
    pub rsv2: bool,
    pub rsv3: bool,
    pub op_code: OpCode,
    pub payload: Seq<u8>,
}

impl Frame {
    pub open spec fn view(&self) -> FrameV {
        FrameV {
            fin: self.fin,
            rsv1: self.rsv1,
            rsv2: self.rsv2,
            rsv3: self.rsv3,
            op_code: self.op_code,
            payload: self.decoded@,
        }
    }
}

/// Why a frame could not be read.
#[derive(Debug, PartialEq, Eq, Structural)]
pub enum ParseFrameError {
    /// A payload came without a masking key.
    MaskNotSet,
    /// The extended length, or the payload of a final frame, was cut short.
    IoError,
    /// The opcode is one of the reserved codes.
    InvalidOpCode,
    /// The header or the masking key was cut short.
    InsufficientData,
    /// A non-final frame's payload lacks this many bytes: more data is to come.
    WaitForNextFrame(u64),
}

/// The number that a big-endian byte sequence spells.
pub open spec fn be_value(s: Seq<u8>) -> nat
    decreases s.len(),
{
    if s.len() == 0 {
        0
    } else {
        be_value(s.drop_last()) * 256 + s.last() as nat
    }
}

/// The low `k` bytes of `n`, big-endian.
pub open spec fn be_bytes(n: nat, k: nat) -> Seq<u8>
    decreases k,
{
    if k == 0 {
        Seq::empty()
    } else {
        be_bytes(n / 256, (k - 1) as nat).push((n % 256) as u8)
    }
}

pub open spec fn pow256(k: nat) -> nat
    decreases k,
{
    if k == 0 {
        1
    } else {
        256 * pow256((k - 1) as nat)
    }
}

/// Each payload byte XOR-ed with the masking key byte at its position modulo four.
pub open spec fn mask_bytes(p: Seq<u8>, key: Seq<u8>) -> Seq<u8> {
    Seq::new(p.len(), |i: int| p[i] ^ key[i % 4])
}

/// The first header byte: fin, the three reserved bits, the opcode.
pub open spec fn first_byte(f: FrameV) -> nat {
    opcode_code(f.op_code) as nat + (if f.fin { 128nat } else { 0 }) + (if f.rsv1 {
        64nat
    } else {
        0
    }) + (if f.rsv2 { 32nat } else { 0 }) + (if f.rsv3 { 16nat } else { 0 })
}

/// The seven-bit length field: the length itself below 126, else which extension follows.
pub open spec fn length_indicator(len: nat) -> nat {
    if len < 126 {
        len
    } else if len < 65535 {
        126
    } else {
        127
    }
}

pub open spec fn ext_length(len: nat) -> Seq<u8> {
    if len < 126 {
        Seq::empty()
    } else if len < 65535 {
        be_bytes(len, 2)
    } else {
        be_bytes(len, 8)
    }
}

/// The bytes of a frame; with a masking key, the payload is masked and the key precedes it.
pub open spec fn serialize_spec(f: FrameV, mask: Option<Seq<u8>>) -> Seq<u8> {
    let n = f.payload.len();
    match mask {
        None => seq![first_byte(f) as u8, length_indicator(n) as u8] + ext_length(n) + f.payload,
        Some(key) => seq![first_byte(f) as u8, (128 + length_indicator(n)) as u8] + ext_length(n)
            + key + mask_bytes(f.payload, key),
    }
}

/// The frame at the start of `b` and the number of bytes it takes, or why there is none.
pub open spec fn parse_spec(b: Seq<u8>) -> Result<(FrameV, nat), ParseFrameError> {
    if b.len() < 2 {
        Err(ParseFrameError::InsufficientData)
    } else {
        let b0 = b[0] as nat;
        let b1 = b[1] as nat;
        let fin = b0 >= 128;
        match opcode_of(b0 % 16) {
            None => Err(ParseFrameError::InvalidOpCode),
            Some(op_code) => {
                let masked = b1 >= 128;
                let l7 = b1 % 128;
                let ext: nat = if l7 == 126 {
                    2
                } else if l7 == 127 {
                    8
                } else {
                    0
                };
                let hdr = 2 + ext;
                if b.len() < hdr {
                    Err(ParseFrameError::IoError)
                } else {
                    let len = if ext == 0 {
                        l7
                    } else {
                        be_value(b.subrange(2, hdr as int))
                    };
                    if len > 0 && !masked {
                        Err(ParseFrameError::MaskNotSet)
                    } else if masked && b.len() < hdr + 4 {
                        Err(ParseFrameError::InsufficientData)
                    } else {
                        let start: nat = if masked { hdr + 4 } else { hdr };
                        let avail = (b.len() - start) as nat;
                        if avail < len {
                            if !fin {
                                Err(ParseFrameError::WaitForNextFrame((len - avail) as u64))
                            } else {
                                Err(ParseFrameError::IoError)
                            }
                        } else {
                            let raw = b.subrange(start as int, (start + len) as int);
                            let payload = if masked {
                                mask_bytes(raw, b.subrange(hdr as int, hdr + 4int))
                            } else {
                                raw
                            };
                            Ok(
                                (
                                    FrameV {
                                        fin,
                                        rsv1: b0 % 128 >= 64,
                                        rsv2: b0 % 64 >= 32,
                                        rsv3: b0 % 32 >= 16,
                                        op_code,
                                        payload,
                                    },
                                    start + len,
                                ),
                            )
                        }
                    }
                }
            },
        }
    }
}

proof fn lemma_be_value_bound(s: Seq<u8>)
    ensures
        be_value(s) < pow256(s.len()),
    decreases s.len(),
{
    if s.len() > 0 {
        lemma_be_value_bound(s.drop_last());
    }
}

proof fn lemma_be_bytes_len(n: nat, k: nat)
    ensures
        be_bytes(n, k).len() == k,
    decreases k,
{
    if k > 0 {
        lemma_be_bytes_len(n / 256, (k - 1) as nat);
    }
}

proof fn lemma_be_round_trip(n: nat, k: nat)
    ensures
        be_value(be_bytes(n, k)) == n % pow256(k),
    decreases k,
{
    if k == 0 {
        assert(n % 1 == 0);
    } else {
        let p = pow256((k - 1) as nat);
        lemma_be_round_trip(n / 256, (k - 1) as nat);
        assert(be_bytes(n, k).drop_last() =~= be_bytes(n / 256, (k - 1) as nat));
        lemma_pow256_positive((k - 1) as nat);
        lemma_mod_breakdown(n as int, 256, p as int);
    }
}

proof fn lemma_pow256_positive(k: nat)
    ensures
        pow256(k) > 0,
    decreases k,
{
    if k > 0 {
        lemma_pow256_positive((k - 1) as nat);
    }
}

proof fn lemma_unmask(p: Seq<u8>, key: Seq<u8>)
    requires
        key.len() == 4,
    ensures
        mask_bytes(mask_bytes(p, key), key) == p,
{
    assert forall|i: int| 0 <= i < p.len() implies mask_bytes(mask_bytes(p, key), key)[i] == p[i] by {
        let x = p[i];
        let k = key[i % 4];
        assert((x ^ k) ^ k == x) by (bit_vector);
    }
    assert(mask_bytes(mask_bytes(p, key), key) =~= p);
}

proof fn lemma_first_byte(f: FrameV)
    requires
        f.op_code != OpCode::Reserved,
    ensures
        first_byte(f) < 256,
        opcode_of(first_byte(f) % 16) == Some(f.op_code),
        (first_byte(f) >= 128) == f.fin,
        (first_byte(f) % 128 >= 64) == f.rsv1,
        (first_byte(f) % 64 >= 32) == f.rsv2,
        (first_byte(f) % 32 >= 16) == f.rsv3,
{
}

/// The extended length field reads back as the payload length.
proof fn lemma_ext_length(len: nat)
    requires
        len < 18446744073709551616,
    ensures
        ext_length(len).len() == (if length_indicator(len) == 126 {
            2nat
        } else if length_indicator(len) == 127 {
            8nat
        } else {
            0nat
        }),
        length_indicator(len) >= 126 ==> be_value(ext_length(len)) == len,
        length_indicator(len) < 128,
{
    reveal_with_fuel(pow256, 9);
    if len >= 126 && len < 65535 {
        lemma_be_bytes_len(len, 2);
        lemma_be_round_trip(len, 2);
        assert(pow256(2) == 65536);
        lemma_small_mod(len, 65536);
    } else if len >= 65535 {
        lemma_be_bytes_len(len, 8);
        lemma_be_round_trip(len, 8);
        assert(pow256(8) == 18446744073709551616);
        lemma_small_mod(len, 18446744073709551616);
    }
}

/// A frame that a client serializes with a masking key parses back to itself, and takes all
/// of the bytes.
pub proof fn lemma_frame_round_trip_masked(f: FrameV, key: Seq<u8>)
    requires
        f.op_code != OpCode::Reserved,
        key.len() == 4,
        f.payload.len() < 18446744073709551616,
    ensures
        parse_spec(serialize_spec(f, Some(key))) == Ok::<(FrameV, nat), ParseFrameError>(
            (f, serialize_spec(f, Some(key)).len()),
        ),
{
    let n = f.payload.len();
    let b = serialize_spec(f, Some(key));
    let ext = ext_length(n);
    lemma_first_byte(f);
    lemma_ext_length(n);
    let hdr: int = 2 + ext.len() as int;
    assert(b.subrange(2, hdr) =~= ext);
    assert(b.subrange(hdr, hdr + 4) =~= key);
    assert(b.subrange(hdr + 4, hdr + 4 + n) =~= mask_bytes(f.payload, key));
    lemma_unmask(f.payload, key);
    assert((b[1] as nat) % 128 == length_indicator(n));
    let r = parse_spec(b);
    assert(r matches Ok((g, m)) && g.payload =~= f.payload && m == b.len());
}

/// A frame with no payload, serialized as the server does (unmasked), parses back to itself.
/// A payload needs a mask to be read, so this holds of empty payloads alone.
pub proof fn lemma_frame_round_trip_unmasked(f: FrameV)
    requires
        f.op_code != OpCode::Reserved,
        f.payload.len() == 0,
    ensures
        parse_spec(serialize_spec(f, None)) == Ok::<(FrameV, nat), ParseFrameError>((f, 2)),
{
    let b = serialize_spec(f, None);
    lemma_first_byte(f);
    assert(ext_length(0) =~= Seq::<u8>::empty());
    assert(b.len() == 2);
    let r = parse_spec(b);
    assert(r matches Ok((g, m)) && g.payload =~= f.payload && m == 2);
}

/// Reads `k` bytes from `start` as a big-endian number.
fn read_be(b: &[u8], start: usize, k: usize) -> (r: u64)
    requires
        start + k <= b@.len(),
        k <= 8,
    ensures
        r as nat == be_value(b@.subrange(start as int, start + k)),
{
    let mut acc: u64 = 0;
    let mut i: usize = 0;
    proof {
        reveal_with_fuel(pow256, 9);
        assert(pow256(8) == 18446744073709551616nat);
    }
    while i < k
        invariant
            0 <= i <= k,
            k <= 8,
            start + k <= b@.len(),
            b@.len() == b.len(),
            acc as nat == be_value(b@.subrange(start as int, start + i)),
            pow256(8) == 18446744073709551616nat,
        decreases k - i,
    {
        let ghost s = b@.subrange(start as int, start + i + 1);
        proof {
            assert(s.drop_last() =~= b@.subrange(start as int, start + i));
            lemma_be_value_bound(s);
            lemma_pow256_mono((i + 1) as nat, 8);
        }
        acc = acc * 256 + b[start + i] as u64;
        i += 1;
    }
    acc
}

proof fn lemma_pow256_mono(a: nat, b: nat)
    requires
        a <= b,
    ensures
        pow256(a) <= pow256(b),
    decreases b,
{
    if a < b {
        lemma_pow256_mono(a, (b - 1) as nat);
    }
}

/// Appends the low `k` bytes of `n`, big-endian.
fn push_be(out: &mut Vec<u8>, n: u64, k: usize)
    ensures
        final(out)@ == old(out)@ + be_bytes(n as nat, k as nat),
    decreases k,
{
    if k > 0 {
        push_be(out, n / 256, k - 1);
        out.push((n % 256) as u8);
        proof {
            assert(final(out)@ =~= old(out)@ + be_bytes(n as nat, k as nat));
        }
    }
}

impl Frame {
    /// Reads the frame at the start of `bytes`: the frame and how many bytes it took.
    pub fn parse(bytes: &[u8]) -> (r: Result<(Frame, usize), ParseFrameError>)
        ensures
            match r {
                Ok((f, n)) => parse_spec(bytes@) == Ok::<(FrameV, nat), ParseFrameError>(
                    (f@, n as nat),
                ),
                Err(e) => parse_spec(bytes@) == Err::<(FrameV, nat), ParseFrameError>(e),
            },
    {
        if bytes.len() < 2 {
            return Err(ParseFrameError::InsufficientData);
        }
        let first = bytes[0];
        let second = bytes[1];
        let fin = first >= 128;
        let rsv1 = first % 128 >= 64;
        let rsv2 = first % 64 >= 32;
        let rsv3 = first % 32 >= 16;
        let op_code = match opcode_from(first % 16) {
            Some(op) => op,
            None => return Err(ParseFrameError::InvalidOpCode),
        };
        let masked = second >= 128;
        let l7 = second % 128;
        let ext: usize = if l7 == 126 {
            2
        } else if l7 == 127 {
            8
        } else {
            0
        };
        let hdr = 2 + ext;
        if bytes.len() < hdr {
            return Err(ParseFrameError::IoError);
        }
        let payload_length: u64 = if ext == 0 {
            l7 as u64
        } else {
            read_be(bytes, 2, ext)
        };
        if payload_length > 0 && !masked {
            return Err(ParseFrameError::MaskNotSet);
        }
        if masked && bytes.len() < hdr + 4 {
            return Err(ParseFrameError::InsufficientData);
        }
        let start = if masked { hdr + 4 } else { hdr };
        let avail = (bytes.len() - start) as u64;
        if avail < payload_length {
            if !fin {
                return Err(ParseFrameError::WaitForNextFrame(payload_length - avail));
            }
            return Err(ParseFrameError::IoError);
        }
        let len = payload_length as usize;
        let mut decoded: Vec<u8> = Vec::new();
        let mut i: usize = 0;
        while i < len
            invariant
                0 <= i <= len,
                start + len <= bytes@.len(),
                bytes@.len() == bytes.len(),
                masked ==> hdr + 4 <= bytes@.len(),
                decoded@ =~= (if masked {
                    mask_bytes(
                        bytes@.subrange(start as int, start + len),
                        bytes@.subrange(hdr as int, hdr + 4),
                    )
                } else {
                    bytes@.subrange(start as int, start + len)
                }).take(i as int),
            decreases len - i,
        {
            let b = bytes[start + i];
            if masked {
                decoded.push(b ^ bytes[hdr + i % 4]);
            } else {
                decoded.push(b);
            }
            i += 1;
        }
        let frame = Frame { fin, rsv1, rsv2, rsv3, op_code, decoded };
        proof {
            assert(frame@.payload =~= parse_spec(bytes@)->Ok_0.0.payload);
        }
        Ok((frame, start + len))
    }

    /// Whether this is the final frame of its message.
    pub fn fin(&self) -> (r: bool)
        ensures
            r == self.fin,
    {
        self.fin
    }

    /// The frame's opcode.
    pub fn op_code(&self) -> (r: OpCode)
        ensures
            r == self.op_code,
    {
        self.op_code
    }

    /// The unmasked payload.
    pub fn decoded(&self) -> (r: &Vec<u8>)
        ensures
            r@ == self.decoded@,
    {
        &self.decoded
    }

    /// Takes the unmasked payload.
    pub fn take_decoded(self) -> (r: Vec<u8>)
        ensures
            r@ == self.decoded@,
    {
        self.decoded
    }

    /// The seven-bit length field for a payload of `len` bytes.
    pub fn format_length(len: u64) -> (r: u8)
        ensures
            r as nat == length_indicator(len as nat),
    {
        if len < 126 {
            len as u8
        } else if len < 65535 {
            126
        } else {
            127
        }
    }

    fn first_header_byte(&self) -> (r: u8)
        ensures
            r as nat == first_byte(self@),
    {
        let code = self.op_code.code();
        let f: u8 = if self.fin { 128 } else { 0 };
        let r1: u8 = if self.rsv1 { 64 } else { 0 };
        let r2: u8 = if self.rsv2 { 32 } else { 0 };
        let r3: u8 = if self.rsv3 { 16 } else { 0 };
        code + f + r1 + r2 + r3
    }

    /// The header: first byte, length byte (with the mask bit when `masked`), extended length.
    fn header(&self, masked: bool) -> (r: Vec<u8>)
        ensures
            r@ == seq![
                first_byte(self@) as u8,
                (if masked { 128 + length_indicator(self@.payload.len()) } else { length_indicator(self@.payload.len()) }) as u8,
            ] + ext_length(self@.payload.len()),
    {
        let len = self.decoded.len();
        let indicator = Self::format_length(len as u64);
        let two: u8 = if masked { indicator + 128 } else { indicator };
        let mut out: Vec<u8> = Vec::new();
        out.push(self.first_header_byte());
        out.push(two);
        let ghost two_bytes = out@;
        if len >= 126 && len < 65535 {
            push_be(&mut out, len as u64, 2);
        } else if len >= 126 {
            push_be(&mut out, len as u64, 8);
        }
        proof {
            assert(out@ =~= two_bytes + ext_length(len as nat));
        }
        out
    }

    /// The bytes of this frame as the server sends it: unmasked.
    pub fn format(&self) -> (r: Vec<u8>)
        ensures
            r@ == serialize_spec(self@, None),
    {
        let mut out = self.header(false);
        let ghost head = out@;
        let len = self.decoded.len();
        let mut i: usize = 0;
        while i < len
            invariant
                0 <= i <= len,
                len == self.decoded@.len(),
                out@ =~= head + self.decoded@.take(i as int),
            decreases len - i,
        {
            out.push(self.decoded[i]);
            i += 1;
        }
        proof {
            assert(self.decoded@.take(len as int) =~= self.decoded@);
        }
        out
    }

    /// The bytes of this frame as a client sends it: masked with `key`.
    pub fn format_masked(&self, key: [u8; 4]) -> (r: Vec<u8>)
        ensures
            r@ == serialize_spec(self@, Some(key@)),
    {
        let mut out = self.header(true);
        out.push(key[0]);
        out.push(key[1]);
        out.push(key[2]);
        out.push(key[3]);
        let ghost head = out@;
        let ghost masked = mask_bytes(self.decoded@, key@);
        let len = self.decoded.len();
        let mut i: usize = 0;
        while i < len
            invariant
                0 <= i <= len,
                len == self.decoded@.len(),
                masked == mask_bytes(self.decoded@, key@),
                out@ =~= head + masked.take(i as int),
            decreases len - i,
        {
            out.push(self.decoded[i] ^ key[i % 4]);
            i += 1;
        }
        proof {
            assert(masked.take(len as int) =~= masked);
            assert(head =~= seq![
                first_byte(self@) as u8,
                (128 + length_indicator(self@.payload.len())) as u8,
            ] + ext_length(self@.payload.len()) + key@);
        }
        out
    }
}

} // verus!
