//! The framed serial protocol: 64-byte requests, 36-byte replies, each closed
//! by a checksum of the bytes before it.
use vstd::prelude::*;

use crate::bytes::{get_u64_le, le_u32, le_u64, put_u32_le, put_u64_le, u64_from_le};

verus! {

/// Initial value of the running checksum.
pub const CHECKSUM_SEED: u32 = 0xDEADBEEF;

/// Multiplier applied to the running checksum before each byte.
pub const CHECKSUM_FACTOR: u32 = 31337;

/// Each byte is xored with this before it is added.
pub const CHECKSUM_BYTE_MASK: u8 = 0x5A;

/// The running checksum is xored with this at the end.
pub const CHECKSUM_FINAL_MASK: u32 = 0xADDEDBAD;

/// The running checksum after the bytes of `s`, in 32-bit wrapping arithmetic.
pub open spec fn checksum_state(s: Seq<u8>) -> u32
    decreases s.len(),
{
    if s.len() == 0 {
        CHECKSUM_SEED
    } else {
        vstd::wrapping::u32_specs::wrapping_add(
            vstd::wrapping::u32_specs::wrapping_mul(checksum_state(s.drop_last()), CHECKSUM_FACTOR),
            (s.last() ^ CHECKSUM_BYTE_MASK) as u32,
        )
    }
}

/// The checksum of the bytes `s`.
pub open spec fn checksum_of(s: Seq<u8>) -> u32 {
    checksum_state(s) ^ CHECKSUM_FINAL_MASK
}

/// The checksum of `buffer`: for each byte, `sum = sum * 31337 + (byte ^ 0x5A)`
/// from `sum = 0xDEADBEEF`, all wrapping, and the sum xored with `0xADDEDBAD`.
pub fn checksum(buffer: &[u8]) -> (r: u32)
    ensures
        r == checksum_of(buffer@),
{
    let mut sum: u32 = CHECKSUM_SEED;
    let mut i: usize = 0;
    while i < buffer.len()
        invariant
            i <= buffer@.len(),
            sum == checksum_state(buffer@.subrange(0, i as int)),
        decreases buffer@.len() - i,
    {
        assert(buffer@.subrange(0, i + 1).drop_last() =~= buffer@.subrange(0, i as int));
        sum = sum.wrapping_mul(CHECKSUM_FACTOR).wrapping_add((buffer[i] ^ CHECKSUM_BYTE_MASK) as u32);
        i = i + 1;
    }
    assert(buffer@.subrange(0, i as int) =~= buffer@);
    sum ^ CHECKSUM_FINAL_MASK
}


/// Length of a request frame.
pub const REQUEST_LEN: usize = 64;

/// Length of a reply frame.
pub const REPLY_LEN: usize = 36;

/// Low 24 bits of the first word of every frame: the bytes `FF 55 AA`.
pub const FRAME_MAGIC: u32 = 0x00AA55FF;

/// The command codes a request may carry.
#[derive(PartialEq, Eq, Structural, Clone, Copy, Debug)]
pub enum CommandId {
    NoOperation,
    Proxy,
    MemoryRead,
    MemoryWrite,
    Boot,
}

/// The code of a command on the wire.
pub open spec fn command_code(c: CommandId) -> u8 {
    match c {
        CommandId::NoOperation => 0,
        CommandId::Proxy => 1,
        CommandId::MemoryRead => 2,
        CommandId::MemoryWrite => 3,
        CommandId::Boot => 4,
    }
}

/// The command whose code is `code`, if any.
pub open spec fn command_of_code(code: u8) -> Option<CommandId> {
    if code == 0 {
        Some(CommandId::NoOperation)
    } else if code == 1 {
        Some(CommandId::Proxy)
    } else if code == 2 {
        Some(CommandId::MemoryRead)
    } else if code == 3 {
        Some(CommandId::MemoryWrite)
    } else if code == 4 {
        Some(CommandId::Boot)
    } else {
        None
    }
}

/// The first word of a reply to command code `code`: the code in the high
/// byte above the frame magic.
pub open spec fn command_word_of(code: u8) -> u32 {
    ((code as u32) << 24u32) | FRAME_MAGIC
}

impl CommandId {
    /// The code of this command on the wire.
    pub fn code(self) -> (r: u8)
        ensures
            r == command_code(self),
    {
        match self {
            CommandId::NoOperation => 0,
            CommandId::Proxy => 1,
            CommandId::MemoryRead => 2,
            CommandId::MemoryWrite => 3,
            CommandId::Boot => 4,
        }
    }

    /// The command with wire code `code`; `None` for an unknown code.
    pub fn from_code(code: u8) -> (r: Option<CommandId>)
        ensures
            r == command_of_code(code),
    {
        match code {
            0 => Some(CommandId::NoOperation),
            1 => Some(CommandId::Proxy),
            2 => Some(CommandId::MemoryRead),
            3 => Some(CommandId::MemoryWrite),
            4 => Some(CommandId::Boot),
            _ => None,
        }
    }

    /// The command named by a frame's first word; `None` when its low 24 bits
    /// are not the frame magic or its high byte is no known code.
    pub fn from_word(word: u32) -> (r: Option<CommandId>)
        ensures
            r == (if word & 0x00FF_FFFF == FRAME_MAGIC {
                command_of_code((word >> 24u32) as u8)
            } else {
                None
            }),
    {
        if word & 0x00FF_FFFF != FRAME_MAGIC {
            return None;
        }
        CommandId::from_code((word >> 24u32) as u8)
    }

    /// The first word of a reply to this command.
    pub fn word(self) -> (r: u32)
        ensures
            r == command_word_of(command_code(self)),
    {
        command_word(self.code())
    }
}

/// The first word of a reply to command code `code`.
pub fn command_word(code: u8) -> (r: u32)
    ensures
        r == command_word_of(code),
{
    ((code as u32) << 24u32) | FRAME_MAGIC
}

/// The status a reply reports.
#[derive(PartialEq, Eq, Structural, Clone, Copy, Debug)]
pub enum Status {
    Success,
    BadCommand,
    Invalid,
    TransferError,
    ChecksumMismatch,
}

/// The signed code of a status on the wire.
pub open spec fn status_code(s: Status) -> i32 {
    match s {
        Status::Success => 0i32,
        Status::BadCommand => -1i32,
        Status::Invalid => -2i32,
        Status::TransferError => -3i32,
        Status::ChecksumMismatch => -4i32,
    }
}

impl Status {
    /// The signed code of this status on the wire.
    pub fn code(self) -> (r: i32)
        ensures
            r == status_code(self),
    {
        match self {
            Status::Success => 0,
            Status::BadCommand => -1,
            Status::Invalid => -2,
            Status::TransferError => -3,
            Status::ChecksumMismatch => -4,
        }
    }

    /// The status with wire code `code`; `None` for any other code.
    pub fn from_code(code: i32) -> (r: Option<Status>)
        ensures
            match r {
                Some(s) => status_code(s) == code,
                None => !(-4 <= code <= 0),
            },
    {
        match code {
            0 => Some(Status::Success),
            -1 => Some(Status::BadCommand),
            -2 => Some(Status::Invalid),
            -3 => Some(Status::TransferError),
            -4 => Some(Status::ChecksumMismatch),
            _ => None,
        }
    }
}

/// What a proxy call returned.
#[derive(PartialEq, Eq, Structural, Clone, Copy, Debug)]
pub struct ProxyReply {
    pub opcode: u64,
    pub status: i64,
    pub return_value: u64,
}

/// A reply frame. `command` is the code of the command answered, echoed as
/// the request carried it.
#[derive(PartialEq, Eq, Structural, Clone, Copy, Debug)]
pub enum UartReply {
    Simple { command: u8, status: Status },
    Proxy { command: u8, status: Status, reply: ProxyReply },
}

/// The 32 bytes of a reply that its checksum covers.
pub open spec fn reply_body(r: UartReply) -> Seq<u8> {
    match r {
        UartReply::Simple { command, status } => le_u32(command_word_of(command)) + le_u32(
            status_code(status) as u32,
        ) + Seq::new(24, |i: int| 0u8),
        UartReply::Proxy { command, status, reply } => le_u32(command_word_of(command)) + le_u32(
            status_code(status) as u32,
        ) + le_u64(reply.opcode) + le_u64(reply.status as u64) + le_u64(reply.return_value),
    }
}

/// The 36 bytes sent for a reply: its body, then the body's checksum.
pub open spec fn reply_frame(r: UartReply) -> Seq<u8> {
    reply_body(r) + le_u32(checksum_of(reply_body(r)))
}

impl UartReply {
    /// The reply to a no-operation request.
    pub fn no_operation() -> (r: UartReply)
        ensures
            r == (UartReply::Simple { command: 0, status: Status::Success }),
    {
        UartReply::Simple { command: CommandId::NoOperation.code(), status: Status::Success }
    }

    /// The reply that announces a booted stub.
    pub fn boot() -> (r: UartReply)
        ensures
            r == (UartReply::Simple { command: 4, status: Status::Success }),
    {
        UartReply::Simple { command: CommandId::Boot.code(), status: Status::Success }
    }

    /// The reply that carries the result of a proxy call.
    pub fn proxy(reply: ProxyReply) -> (r: UartReply)
        ensures
            r == (UartReply::Proxy { command: 1, status: Status::Success, reply }),
    {
        UartReply::Proxy { command: CommandId::Proxy.code(), status: Status::Success, reply }
    }

    /// A reply without payload to `command_id`, reporting `status`.
    pub fn simple_error(command_id: CommandId, status: Status) -> (r: UartReply)
        ensures
            r == (UartReply::Simple { command: command_code(command_id), status }),
    {
        UartReply::Simple { command: command_id.code(), status }
    }

    /// A reply without payload to `request`, reporting `status`.
    pub fn simple_error_from_request(request: UartRequest, status: Status) -> (r: UartReply)
        ensures
            r == (UartReply::Simple { command: command_code(request.command_id()), status }),
    {
        UartReply::Simple { command: request.get_command_id().code(), status }
    }

    /// The 36 bytes sent for this reply.
    pub fn to_raw_packet(&self) -> (r: [u8; 36])
        ensures
            r@ == reply_frame(*self),
    {
        let mut result = [0u8; 36];
        match *self {
            UartReply::Simple { command, status } => {
                put_u32_le(&mut result, 0, command_word(command));
                put_u32_le(&mut result, 4, status.code() as u32);
            },
            UartReply::Proxy { command, status, reply } => {
                put_u32_le(&mut result, 0, command_word(command));
                put_u32_le(&mut result, 4, status.code() as u32);
                put_u64_le(&mut result, 8, reply.opcode);
                put_u64_le(&mut result, 16, reply.status as u64);
                put_u64_le(&mut result, 24, reply.return_value);
            },
        }
        let sum = checksum(&result[0..32]);
        assert(result@.subrange(0, 32) =~= reply_body(*self));
        put_u32_le(&mut result, 32, sum);
        assert(result@ =~= reply_frame(*self));
        result
    }
}

/// The arguments of a proxy call.
#[derive(PartialEq, Eq, Clone, Copy, Debug)]
pub struct ProxyRequest {
    pub opcode: u64,
    pub args: [u64; 6],
}

/// A decoded request.
#[derive(PartialEq, Eq, Clone, Copy, Debug)]
pub enum UartRequest {
    Simple { command_id: CommandId },
    Proxy { command_id: CommandId, request: ProxyRequest },
    Memory { command_id: CommandId },
}

impl UartRequest {
    /// The command this request carries.
    pub open spec fn command_id(self) -> CommandId {
        match self {
            UartRequest::Simple { command_id } => command_id,
            UartRequest::Proxy { command_id, .. } => command_id,
            UartRequest::Memory { command_id } => command_id,
        }
    }

    /// The command this request carries.
    pub fn get_command_id(&self) -> (r: CommandId)
        ensures
            r == self.command_id(),
    {
        match *self {
            UartRequest::Simple { command_id } => command_id,
            UartRequest::Proxy { command_id, .. } => command_id,
            UartRequest::Memory { command_id } => command_id,
        }
    }
}


/// The three bytes that open every request: `FF 55 AA`.
pub open spec fn preamble() -> Seq<u8> {
    seq![0xFFu8, 0x55u8, 0xAAu8]
}

/// Whether the last four bytes of request `f` hold the checksum of the 60
/// bytes before them.
pub open spec fn request_checksum_ok(f: Seq<u8>) -> bool {
    f.subrange(60, 64) == le_u32(checksum_of(f.subrange(0, 60)))
}

/// Argument `i` of a proxy request `f`: the little-endian word at `12 + 8 * i`.
pub open spec fn proxy_arg_of(f: Seq<u8>, i: int) -> u64 {
    u64_from_le(f.subrange(12 + 8 * i, 20 + 8 * i))
}

/// Whether `p` holds the opcode and the six arguments of proxy request `f`.
pub open spec fn proxy_request_of(f: Seq<u8>, p: ProxyRequest) -> bool {
    &&& p.opcode == u64_from_le(f.subrange(4, 12))
    &&& forall|i: int| 0 <= i < 6 ==> #[trigger] p.args@[i] == proxy_arg_of(f, i)
}

/// The reply that request `r` gets: only a no-operation is served; every
/// other command is answered as a bad command.
pub open spec fn handled(r: UartRequest) -> UartReply {
    match r {
        UartRequest::Simple { command_id: CommandId::NoOperation } => UartReply::Simple {
            command: 0,
            status: Status::Success,
        },
        _ => UartReply::Simple { command: command_code(r.command_id()), status: Status::BadCommand },
    }
}

/// The reply that request frame `f` gets.
pub open spec fn response_to(f: Seq<u8>) -> UartReply {
    if !request_checksum_ok(f) {
        UartReply::Simple { command: f[3], status: Status::ChecksumMismatch }
    } else if f[3] == 0 {
        UartReply::Simple { command: 0, status: Status::Success }
    } else {
        UartReply::Simple { command: f[3], status: Status::BadCommand }
    }
}

/// Decodes a request frame. A frame whose checksum does not match, or whose
/// command is neither a no-operation nor a proxy call, is answered at once:
/// the reply comes back as the error.
pub fn decode_request(frame: &[u8; 64]) -> (r: Result<UartRequest, UartReply>)
    ensures
        !request_checksum_ok(frame@) ==> r == Err::<UartRequest, UartReply>(
            UartReply::Simple { command: frame@[3], status: Status::ChecksumMismatch },
        ),
        request_checksum_ok(frame@) && frame@[3] == 0 ==> r == Ok::<UartRequest, UartReply>(
            UartRequest::Simple { command_id: CommandId::NoOperation },
        ),
        request_checksum_ok(frame@) && frame@[3] == 1 ==> (r matches Ok(
            UartRequest::Proxy { command_id, request },
        ) && command_id == CommandId::Proxy && proxy_request_of(frame@, request)),
        request_checksum_ok(frame@) && frame@[3] >= 2 ==> r == Err::<UartRequest, UartReply>(
            UartReply::Simple { command: frame@[3], status: Status::BadCommand },
        ),
{
    let sum = checksum(&frame[0..60]);
    let raw = frame[3];
    let ok = frame[60] == sum as u8 && frame[61] == (sum >> 8u32) as u8 && frame[62] == (sum
        >> 16u32) as u8 && frame[63] == (sum >> 24u32) as u8;
    if ok {
        assert(frame@.subrange(60, 64) =~= le_u32(sum));
    } else {
        assert(frame@.subrange(60, 64)[0] == frame@[60]);
        assert(frame@.subrange(60, 64)[1] == frame@[61]);
        assert(frame@.subrange(60, 64)[2] == frame@[62]);
        assert(frame@.subrange(60, 64)[3] == frame@[63]);
        return Err(UartReply::Simple { command: raw, status: Status::ChecksumMismatch });
    }
    match CommandId::from_code(raw) {
        Some(CommandId::NoOperation) => Ok(UartRequest::Simple { command_id: CommandId::NoOperation }),
        Some(CommandId::Proxy) => {
            let mut args = [0u64; 6];
            let mut i: usize = 0;
            while i < 6
                invariant
                    i <= 6,
                    frame@.len() == 64,
                    forall|j: int| 0 <= j < i ==> #[trigger] args@[j] == proxy_arg_of(frame@, j),
                decreases 6 - i,
            {
                args[i] = get_u64_le(frame, 12 + 8 * i);
                i = i + 1;
            }
            let request = ProxyRequest { opcode: get_u64_le(frame, 4), args };
            Ok(UartRequest::Proxy { command_id: CommandId::Proxy, request })
        },
        _ => Err(UartReply::Simple { command: raw, status: Status::BadCommand }),
    }
}

/// The reply to a decoded request.
pub fn handle_packet(packet: UartRequest) -> (r: UartReply)
    ensures
        r == handled(packet),
{
    match packet {
        UartRequest::Simple { command_id: CommandId::NoOperation } => UartReply::no_operation(),
        _ => UartReply::simple_error_from_request(packet, Status::BadCommand),
    }
}

/// The reply to a complete request frame.
pub fn respond(frame: &[u8; 64]) -> (r: UartReply)
    ensures
        r == response_to(frame@),
{
    match decode_request(frame) {
        Ok(request) => handle_packet(request),
        Err(reply) => reply,
    }
}

/// Collects request frames out of a byte stream. Bytes are dropped until the
/// preamble `FF 55 AA` arrives in order. A byte that breaks it starts the
/// search again, and opens a new preamble when it is `FF` itself. The 61
/// bytes after a preamble complete the frame.
pub struct FrameReader {
    buffer: [u8; 64],
    filled: usize,
}

/// The bytes kept and the frame completed, if any, after `b` arrives at a
/// reader that holds `pending`.
pub open spec fn reader_step(pending: Seq<u8>, b: u8) -> (Seq<u8>, Option<Seq<u8>>) {
    if pending.len() < 3 {
        if b == preamble()[pending.len() as int] {
            (pending.push(b), None)
        } else if b == 0xFF {
            (seq![0xFFu8], None)
        } else {
            (Seq::empty(), None)
        }
    } else if pending.len() + 1 == 64 {
        (Seq::empty(), Some(pending.push(b)))
    } else {
        (pending.push(b), None)
    }
}

impl View for FrameReader {
    type V = Seq<u8>;

    /// The bytes of the frame received so far.
    closed spec fn view(&self) -> Seq<u8> {
        self.buffer@.subrange(0, self.filled as int)
    }
}

impl FrameReader {
    #[verifier::type_invariant]
    spec fn inv(self) -> bool {
        &&& self.filled < 64
        &&& forall|i: int| 0 <= i < self.filled && i < 3 ==> self.buffer@[i] == #[trigger] preamble()[i]
    }

    /// A reader that holds nothing yet.
    pub fn new() -> (r: FrameReader)
        ensures
            r@ == Seq::<u8>::empty(),
    {
        let r = FrameReader { buffer: [0u8; 64], filled: 0 };
        assert(r@ =~= Seq::<u8>::empty());
        r
    }

    /// Takes the next byte of the stream; returns the frame it completes.
    pub fn push(&mut self, byte: u8) -> (r: Option<[u8; 64]>)
        ensures
            final(self)@ == reader_step(old(self)@, byte).0,
            match r {
                Some(f) => reader_step(old(self)@, byte).1 == Some(f@) && f@.subrange(0, 3)
                    == preamble(),
                None => reader_step(old(self)@, byte).1 is None,
            },
            final(self)@.len() < 64,
    {
        proof {
            use_type_invariant(&*self);
        }
        if self.filled < 3 {
            let expected: u8 = if self.filled == 0 {
                0xFF
            } else if self.filled == 1 {
                0x55
            } else {
                0xAA
            };
            if byte == expected {
                let at = self.filled;
                self.buffer[at] = byte;
                self.filled = at + 1;
                assert(self@ =~= old(self)@.push(byte));
            } else if byte == 0xFF {
                self.buffer[0] = byte;
                self.filled = 1;
                assert(self@ =~= seq![0xFFu8]);
            } else {
                self.filled = 0;
                assert(self@ =~= Seq::<u8>::empty());
            }
            None
        } else {
            let at = self.filled;
            self.buffer[at] = byte;
            if at == 63 {
                let frame = self.buffer;
                self.filled = 0;
                assert(frame@ =~= old(self)@.push(byte));
                assert(self@ =~= Seq::<u8>::empty());
                assert(frame@.subrange(0, 3) =~= preamble());
                Some(frame)
            } else {
                self.filled = at + 1;
                assert(self@ =~= old(self)@.push(byte));
                None
            }
        }
    }
}

proof fn lemma_command_word_bytes(c: u8)
    ensures
        le_u32(command_word_of(c)) == seq![0xFFu8, 0x55u8, 0xAAu8, c],
{
    let w = command_word_of(c);
    assert(w as u8 == 0xFF && (w >> 8u32) as u8 == 0x55 && (w >> 16u32) as u8 == 0xAA && (w
        >> 24u32) as u8 == c) by (bit_vector)
        requires
            w == ((c as u32) << 24u32) | 0x00AA55FFu32,
    ;
    assert(le_u32(w) =~= seq![0xFFu8, 0x55u8, 0xAAu8, c]);
}

/// A request frame with a matching checksum gets a reply that opens with
/// `FF 55 AA` and the request's command byte, and closes with the checksum of
/// its first 32 bytes.
pub proof fn lemma_reply_echoes_request(f: Seq<u8>)
    requires
        f.len() == 64,
        f.subrange(0, 3) == preamble(),
        request_checksum_ok(f),
    ensures
        reply_frame(response_to(f)).len() == 36,
        reply_frame(response_to(f)).subrange(0, 4) == seq![0xFFu8, 0x55u8, 0xAAu8, f[3]],
        reply_frame(response_to(f)).subrange(32, 36) == le_u32(
            checksum_of(reply_frame(response_to(f)).subrange(0, 32)),
        ),
{
    let r = response_to(f);
    lemma_command_word_bytes(f[3]);
    assert(reply_frame(r).subrange(0, 4) =~= seq![0xFFu8, 0x55u8, 0xAAu8, f[3]]);
    assert(reply_frame(r).subrange(0, 32) =~= reply_body(r));
    assert(reply_frame(r).subrange(32, 36) =~= le_u32(checksum_of(reply_body(r))));
}

/// A request frame whose checksum does not match gets a reply without
/// payload that echoes its command and reports a checksum mismatch, the
/// status bytes `FC FF FF FF`.
pub proof fn lemma_bad_checksum_reply(f: Seq<u8>)
    requires
        f.len() == 64,
        !request_checksum_ok(f),
    ensures
        response_to(f) == (UartReply::Simple { command: f[3], status: Status::ChecksumMismatch }),
        reply_frame(response_to(f)).subrange(4, 8) == seq![0xFCu8, 0xFFu8, 0xFFu8, 0xFFu8],
        reply_frame(response_to(f)).subrange(8, 32) == Seq::new(24, |i: int| 0u8),
{
    let r = response_to(f);
    let c: i32 = status_code(Status::ChecksumMismatch);
    assert(c as u32 == 0xFFFF_FFFCu32) by (bit_vector)
        requires
            c == -4i32,
    ;
    let s: u32 = c as u32;
    assert(s as u8 == 0xFC && (s >> 8u32) as u8 == 0xFF && (s >> 16u32) as u8 == 0xFF && (s
        >> 24u32) as u8 == 0xFF) by (bit_vector)
        requires
            s == 0xFFFF_FFFCu32,
    ;
    assert(reply_frame(r).subrange(4, 8) =~= seq![0xFCu8, 0xFFu8, 0xFFu8, 0xFFu8]);
    assert(reply_frame(r).subrange(8, 32) =~= Seq::new(24, |i: int| 0u8));
}

/// The bytes kept and the frames completed, in order, after the bytes of
/// `s` arrive one by one at a reader that holds `pending`.
pub open spec fn reader_run(pending: Seq<u8>, s: Seq<u8>) -> (Seq<u8>, Seq<Seq<u8>>)
    decreases s.len(),
{
    if s.len() == 0 {
        (pending, Seq::empty())
    } else {
        let (next, done) = reader_step(pending, s[0]);
        let (last, frames) = reader_run(next, s.drop_first());
        match done {
            Some(f) => (last, seq![f] + frames),
            None => (last, frames),
        }
    }
}

/// The frames of `fs` sent one after another.
pub open spec fn concat_frames(fs: Seq<Seq<u8>>) -> Seq<u8>
    decreases fs.len(),
{
    if fs.len() == 0 {
        Seq::empty()
    } else {
        fs[0] + concat_frames(fs.drop_first())
    }
}

proof fn lemma_reader_run_append(p: Seq<u8>, a: Seq<u8>, b: Seq<u8>)
    ensures
        reader_run(p, a + b) == (reader_run(reader_run(p, a).0, b).0, reader_run(p, a).1 + reader_run(
            reader_run(p, a).0,
            b,
        ).1),
    decreases a.len(),
{
    if a.len() == 0 {
        assert(a + b =~= b);
        assert(Seq::<Seq<u8>>::empty() + reader_run(p, b).1 =~= reader_run(p, b).1);
    } else {
        let next = reader_step(p, a[0]).0;
        assert((a + b).drop_first() =~= a.drop_first() + b);
        lemma_reader_run_append(next, a.drop_first(), b);
        let rest = reader_run(reader_run(next, a.drop_first()).0, b).1;
        let fs = reader_run(next, a.drop_first()).1;
        match reader_step(p, a[0]).1 {
            Some(f) => {
                assert(seq![f] + (fs + rest) =~= (seq![f] + fs) + rest);
            },
            None => {},
        }
    }
}

proof fn lemma_reader_run_frame_tail(f: Seq<u8>, i: int)
    requires
        f.len() == 64,
        f.subrange(0, 3) == preamble(),
        0 <= i < 64,
    ensures
        reader_run(f.subrange(0, i), f.subrange(i, 64)) == (Seq::<u8>::empty(), seq![f]),
    decreases 64 - i,
{
    let pending = f.subrange(0, i);
    let rest = f.subrange(i, 64);
    assert(rest[0] == f[i]);
    if i < 3 {
        assert(f[i] == f.subrange(0, 3)[i]);
    }
    assert(pending.push(f[i]) =~= f.subrange(0, i + 1));
    assert(rest.drop_first() =~= f.subrange(i + 1, 64));
    assert(pending.len() == i);
    if i + 1 == 64 {
        assert(f.subrange(0, 64) =~= f);
        assert(reader_step(pending, f[i]) == (Seq::<u8>::empty(), Some(f)));
        assert(rest.drop_first().len() == 0);
        assert(reader_run(Seq::<u8>::empty(), rest.drop_first()) == (
            Seq::<u8>::empty(),
            Seq::<Seq<u8>>::empty(),
        ));
        assert(seq![f] + Seq::<Seq<u8>>::empty() =~= seq![f]);
    } else {
        assert(reader_step(pending, f[i]) == (f.subrange(0, i + 1), Option::<Seq<u8>>::None));
        lemma_reader_run_frame_tail(f, i + 1);
    }
}

/// Request frames sent back to back, each opening with `FF 55 AA` and
/// closing with a matching checksum, reach an empty reader as exactly those
/// frames, in order, and leave it empty; each gets a reply that opens with
/// `FF 55 AA` and its command byte and closes with the checksum of the
/// reply's first 32 bytes.
pub proof fn lemma_stream_of_requests(frames: Seq<Seq<u8>>)
    requires
        forall|k: int|
            0 <= k < frames.len() ==> (#[trigger] frames[k]).len() == 64 && frames[k].subrange(0, 3)
                == preamble() && request_checksum_ok(frames[k]),
    ensures
        reader_run(Seq::empty(), concat_frames(frames)) == (Seq::<u8>::empty(), frames),
        forall|k: int|
            0 <= k < frames.len() ==> {
                let reply = reply_frame(response_to(#[trigger] frames[k]));
                &&& reply.len() == 36
                &&& reply.subrange(0, 4) == seq![0xFFu8, 0x55u8, 0xAAu8, frames[k][3]]
                &&& reply.subrange(32, 36) == le_u32(checksum_of(reply.subrange(0, 32)))
            },
    decreases frames.len(),
{
    if frames.len() > 0 {
        let f = frames[0];
        assert(f.subrange(0, 0) =~= Seq::<u8>::empty());
        assert(f.subrange(0, 64) =~= f);
        lemma_reader_run_frame_tail(f, 0);
        lemma_reader_run_append(Seq::empty(), f, concat_frames(frames.drop_first()));
        assert forall|k: int| 0 <= k < frames.drop_first().len() implies #[trigger] frames.drop_first()[k].len()
            == 64 && frames.drop_first()[k].subrange(0, 3) == preamble() && request_checksum_ok(
            frames.drop_first()[k],
        ) by {
            assert(frames.drop_first()[k] == frames[k + 1]);
        }
        lemma_stream_of_requests(frames.drop_first());
        assert(seq![f] + frames.drop_first() =~= frames);
    } else {
        assert(concat_frames(frames).len() == 0);
    }
    assert forall|k: int| 0 <= k < frames.len() implies {
        let reply = reply_frame(response_to(#[trigger] frames[k]));
        &&& reply.len() == 36
        &&& reply.subrange(0, 4) == seq![0xFFu8, 0x55u8, 0xAAu8, frames[k][3]]
        &&& reply.subrange(32, 36) == le_u32(checksum_of(reply.subrange(0, 32)))
    } by {
        lemma_reply_echoes_request(frames[k]);
    }
}

} // verus!
