//! Frames on a connection between two nodes: one byte that says what the
//! payload is, four bytes with its length, most significant first, and the
//! payload.

use vstd::prelude::*;

verus! {

/// What the payload of a frame is.
#[derive(Debug, Clone, Copy, PartialEq, Eq, Structural)]
pub enum DispatchKind {
    /// A message of the Raft protocol.
    Raft,
    /// A vote on a transaction.
    Vote,
}

/// The first byte of a frame that holds a message of the Raft protocol.
pub const RAFT_FRAME: u8 = 0x01;

/// The first byte of a frame that holds a vote on a transaction.
pub const VOTE_FRAME: u8 = 0x02;

/// The length of what stands before the payload.
pub const HEADER_LEN: usize = 5;

/// Why a frame cannot be read.
#[derive(Debug, Clone, Copy, PartialEq, Eq, Structural)]
pub enum FrameError {
    /// The bytes end before the frame does.
    Incomplete,
    /// No kind of payload has this byte.
    UnknownKind(u8),
}

/// The byte of a kind.
pub open spec fn kind_byte(kind: DispatchKind) -> u8 {
    match kind {
        DispatchKind::Raft => RAFT_FRAME,
        DispatchKind::Vote => VOTE_FRAME,
    }
}

/// The kind of a byte.
pub open spec fn kind_of(byte: u8) -> Option<DispatchKind> {
    if byte == RAFT_FRAME {
        Some(DispatchKind::Raft)
    } else if byte == VOTE_FRAME {
        Some(DispatchKind::Vote)
    } else {
        None
    }
}

/// The number that four bytes hold, most significant first.
pub open spec fn be_u32(a: u8, b: u8, c: u8, d: u8) -> int {
    a * 16_777_216 + b * 65_536 + c * 256 + d
}

/// What stands before a payload of `len` bytes.
pub open spec fn header(kind: DispatchKind, len: int) -> Seq<u8> {
    seq![
        kind_byte(kind),
        (len / 16_777_216) as u8,
        (len / 65_536 % 256) as u8,
        (len / 256 % 256) as u8,
        (len % 256) as u8,
    ]
}

/// A frame.
pub open spec fn frame_bytes(kind: DispatchKind, payload: Seq<u8>) -> Seq<u8> {
    header(kind, payload.len() as int) + payload
}

/// What a header says: the kind and the length of the payload.
pub open spec fn header_of(bytes: Seq<u8>) -> Result<(DispatchKind, int), FrameError> {
    if bytes.len() < HEADER_LEN {
        Err(FrameError::Incomplete)
    } else {
        match kind_of(bytes[0]) {
            Some(kind) => Ok((kind, be_u32(bytes[1], bytes[2], bytes[3], bytes[4]))),
            None => Err(FrameError::UnknownKind(bytes[0])),
        }
    }
}

/// The frame that `bytes` begin with: its kind and its payload.
pub open spec fn frame_of(bytes: Seq<u8>) -> Result<(DispatchKind, Seq<u8>), FrameError> {
    match header_of(bytes) {
        Ok((kind, len)) => if bytes.len() - HEADER_LEN < len {
            Err(FrameError::Incomplete)
        } else {
            Ok((kind, bytes.subrange(HEADER_LEN as int, HEADER_LEN + len)))
        },
        Err(e) => Err(e),
    }
}

/// A frame around `payload`.
pub fn frame(kind: DispatchKind, payload: &Vec<u8>) -> (bytes: Vec<u8>)
    requires
        payload@.len() <= u32::MAX,
    ensures
        bytes@ == frame_bytes(kind, payload@),
{
    let len: usize = payload.len();
    let first: u8 = match kind {
        DispatchKind::Raft => RAFT_FRAME,
        DispatchKind::Vote => VOTE_FRAME,
    };
    let mut bytes: Vec<u8> = Vec::new();
    bytes.push(first);
    bytes.push((len / 16_777_216) as u8);
    bytes.push((len / 65_536 % 256) as u8);
    bytes.push((len / 256 % 256) as u8);
    bytes.push((len % 256) as u8);
    assert(bytes@ =~= header(kind, payload@.len() as int));
    let mut i: usize = 0;
    while i < payload.len()
        invariant
            i <= payload@.len(),
            bytes@ == header(kind, payload@.len() as int) + payload@.take(i as int),
        decreases payload@.len() - i,
    {
        bytes.push(payload[i]);
        assert(payload@.take(i + 1) =~= payload@.take(i as int).push(payload@[i as int]));
        i = i + 1;
    }
    assert(payload@.take(payload@.len() as int) =~= payload@);
    bytes
}

/// Reads a header.
pub fn read_header(bytes: &Vec<u8>) -> (read: Result<(DispatchKind, u32), FrameError>)
    ensures
        match read {
            Ok((kind, len)) => header_of(bytes@) == Ok::<(DispatchKind, int), FrameError>((kind, len as int)),
            Err(e) => header_of(bytes@) == Err::<(DispatchKind, int), FrameError>(e),
        },
{
    if bytes.len() < HEADER_LEN {
        return Err(FrameError::Incomplete);
    }
    let len: u32 = bytes[1] as u32 * 16_777_216 + bytes[2] as u32 * 65_536 + bytes[3] as u32 * 256 + bytes[4] as u32;
    if bytes[0] == RAFT_FRAME {
        Ok((DispatchKind::Raft, len))
    } else if bytes[0] == VOTE_FRAME {
        Ok((DispatchKind::Vote, len))
    } else {
        Err(FrameError::UnknownKind(bytes[0]))
    }
}

/// Reads the frame that `bytes` begin with.
pub fn read_frame(bytes: &Vec<u8>) -> (read: Result<(DispatchKind, Vec<u8>), FrameError>)
    ensures
        match read {
            Ok((kind, payload)) => frame_of(bytes@) == Ok::<(DispatchKind, Seq<u8>), FrameError>((kind, payload@)),
            Err(e) => frame_of(bytes@) == Err::<(DispatchKind, Seq<u8>), FrameError>(e),
        },
{
    match read_header(bytes) {
        Ok((kind, len)) => {
            if ((bytes.len() - HEADER_LEN) as u64) < len as u64 {
                return Err(FrameError::Incomplete);
            }
            let end: usize = HEADER_LEN + len as usize;
            let mut payload: Vec<u8> = Vec::new();
            let mut i: usize = HEADER_LEN;
            while i < end
                invariant
                    HEADER_LEN <= i <= end <= bytes@.len(),
                    payload@ == bytes@.subrange(HEADER_LEN as int, i as int),
                decreases end - i,
            {
                payload.push(bytes[i]);
                assert(bytes@.subrange(HEADER_LEN as int, i + 1) =~= bytes@.subrange(HEADER_LEN as int, i as int).push(
                    bytes@[i as int],
                ));
                i = i + 1;
            }
            Ok((kind, payload))
        },
        Err(e) => Err(e),
    }
}

/// A frame that was written is read back, whatever follows it.
pub proof fn frame_round_trip(kind: DispatchKind, payload: Seq<u8>, rest: Seq<u8>)
    requires
        payload.len() <= u32::MAX,
    ensures
        frame_of(frame_bytes(kind, payload) + rest) == Ok::<(DispatchKind, Seq<u8>), FrameError>((kind, payload)),
{
    let bytes = frame_bytes(kind, payload) + rest;
    let len = payload.len() as int;
    let head = header(kind, len);
    assert(bytes[0] == head[0] && bytes[1] == head[1] && bytes[2] == head[2] && bytes[3] == head[3] && bytes[4]
        == head[4]);
    assert(be_u32(head[1], head[2], head[3], head[4]) == len);
    assert(bytes.subrange(HEADER_LEN as int, HEADER_LEN + len) =~= payload);
}

/// The start of a frame is no frame.
pub proof fn cut_frames_are_incomplete(kind: DispatchKind, payload: Seq<u8>, cut: int)
    requires
        payload.len() <= u32::MAX,
        0 <= cut < frame_bytes(kind, payload).len(),
    ensures
        frame_of(frame_bytes(kind, payload).take(cut)) == Err::<(DispatchKind, Seq<u8>), FrameError>(
            FrameError::Incomplete,
        ),
{
    let whole = frame_bytes(kind, payload);
    let bytes = whole.take(cut);
    let len = payload.len() as int;
    let head = header(kind, len);
    if cut >= HEADER_LEN {
        assert(bytes[0] == head[0] && bytes[1] == head[1] && bytes[2] == head[2] && bytes[3] == head[3] && bytes[4]
            == head[4]);
        assert(be_u32(head[1], head[2], head[3], head[4]) == len);
    }
}

/// How a frame is laid out: the byte of its kind, 1 for the Raft protocol and 2
/// for a vote; the length of the payload in four bytes, of which the first counts
/// most; and the payload, byte by byte.
pub proof fn frames_are_laid_out_so(kind: DispatchKind, payload: Seq<u8>)
    requires
        payload.len() <= u32::MAX,
    ensures
        ({
            let bytes = frame_bytes(kind, payload);
            &&& bytes.len() == 5 + payload.len()
            &&& bytes[0] == if kind == DispatchKind::Raft {
                1u8
            } else {
                2u8
            }
            &&& ((bytes[1] * 256 + bytes[2]) * 256 + bytes[3]) * 256 + bytes[4] == payload.len()
            &&& forall|i: int| 0 <= i < payload.len() ==> #[trigger] payload[i] == bytes[5 + i]
        }),
{
    let len = payload.len() as int;
    let head = header(kind, len);
    assert(be_u32(head[1], head[2], head[3], head[4]) == len);
    let bytes = frame_bytes(kind, payload);
    assert(bytes[1] == head[1] && bytes[2] == head[2] && bytes[3] == head[3] && bytes[4] == head[4]);
}

/// What is read from bytes, whoever wrote them: a frame where the first byte is
/// that of a kind and as many bytes follow the header as it says; the payload is
/// those bytes. Otherwise the reason tells what is wrong, and a missing header
/// counts before an unknown kind.
pub proof fn frames_are_read_so(bytes: Seq<u8>)
    ensures
        ({
            let len = ((bytes[1] * 256 + bytes[2]) * 256 + bytes[3]) * 256 + bytes[4];
            let whole = bytes.len() >= 5 && (bytes[0] == 1 || bytes[0] == 2) && bytes.len() >= 5 + len;
            &&& frame_of(bytes) is Ok <==> whole
            &&& frame_of(bytes) matches Ok((kind, payload)) ==> {
                &&& kind == DispatchKind::Raft <==> bytes[0] == 1
                &&& payload.len() == len
                &&& forall|i: int| 0 <= i < payload.len() ==> #[trigger] payload[i] == bytes[5 + i]
            }
            &&& bytes.len() >= 5 && bytes[0] != 1 && bytes[0] != 2 ==> frame_of(bytes) == Err::<
                (DispatchKind, Seq<u8>),
                FrameError,
            >(FrameError::UnknownKind(bytes[0]))
            &&& !whole && (bytes.len() < 5 || bytes[0] == 1 || bytes[0] == 2) ==> frame_of(bytes) == Err::<
                (DispatchKind, Seq<u8>),
                FrameError,
            >(FrameError::Incomplete)
            &&& bytes.len() >= 5 && (bytes[0] == 1 || bytes[0] == 2) ==> (header_of(bytes) matches Ok((kind, said))
                && said == len && (kind == DispatchKind::Raft <==> bytes[0] == 1))
        }),
{
}

} // verus!
