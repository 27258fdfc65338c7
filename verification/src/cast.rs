//! The transcript: timestamped events and their framed form on disk.
//!
//! A record is four little-endian bytes of elapsed time, one flags byte (the
//! kind in its low bits, bit 7 set when the payload is stored compressed), the
//! varint of the stored payload's length, and the stored payload.

use crate::wire::le_bytes_u32;
use crate::wire::lemma_le_u32_roundtrip;
use crate::wire::lemma_parse_varint_extend;
use crate::wire::lemma_varint_roundtrip;
use crate::wire::parse_varint;
use crate::wire::put_varint;
use crate::wire::read_u32_le;
use crate::wire::read_varint;
use crate::wire::lemma_le_u16_roundtrip;
use crate::wire::u16_from_le;
use crate::wire::le_bytes_u16;
use crate::wire::u32_from_le;
use crate::wire::u32_le;
use crate::wire::varint;
use vstd::prelude::*;
use vstd::slice::slice_subrange;
use vstd::slice::slice_to_vec;

verus! {

/// Payloads longer than this many bytes are stored compressed.
pub const COMPRESS_ABOVE: usize = 256;

/// Bit of the flags byte that marks a compressed payload.
pub const COMPRESSED_BIT: u8 = 0x80;

/// Compression level of stored payloads.
pub const RECORD_LEVEL: i32 = 1;

/// Bytes of a record before its payload length.
pub const HEADER_LEN: usize = 5;

/// What an event of the transcript records.
#[derive(Clone, Copy, Debug, PartialEq, Eq, Structural)]
pub enum EventKind {
    /// Bytes a viewer typed.
    Input,
    /// Bytes the terminal printed.
    Output,
    /// A change of the terminal's geometry.
    Resize,
}

/// Why a record could not be written or read.
#[derive(Clone, Copy, Debug, PartialEq, Eq, Structural)]
pub enum CastError {
    /// The compressor refused the payload.
    Compress,
    /// The bytes end before the record does.
    Truncated,
    /// The flags byte names no kind of event.
    UnknownKind,
    /// The stored payload is marked compressed and cannot be unpacked.
    Decompress,
}

/// One event of the transcript. `elapsed` holds the bits of a 32-bit float:
/// the seconds since the session began.
#[derive(Clone, Debug, PartialEq, Eq)]
pub struct RawEvt {
    pub elapsed: u32,
    pub kind: EventKind,
    pub payload: Vec<u8>,
}

/// An event as a mathematical value.
pub struct RawEvtView {
    pub elapsed: u32,
    pub kind: EventKind,
    pub payload: Seq<u8>,
}

impl View for RawEvt {
    type V = RawEvtView;

    open spec fn view(&self) -> RawEvtView {
        RawEvtView { elapsed: self.elapsed, kind: self.kind, payload: self.payload@ }
    }
}

/// The outline of a record: its fields as stored and the bytes it takes.
pub struct Frame {
    pub elapsed: u32,
    pub flags: u8,
    pub stored: Seq<u8>,
    pub used: nat,
}

/// The zstd frame that compressing `data` at `level` yields.
pub uninterp spec fn zstd_frame(data: Seq<u8>, level: int) -> Seq<u8>;

/// The data that unpacking the zstd frame `frame` yields.
pub uninterp spec fn zstd_content(frame: Seq<u8>) -> Seq<u8>;

/// The number that stands for a kind in the flags byte.
pub open spec fn kind_code(kind: EventKind) -> u8 {
    match kind {
        EventKind::Input => 0,
        EventKind::Output => 1,
        EventKind::Resize => 2,
    }
}

/// The kind that a number stands for, if it stands for one.
pub open spec fn kind_of_code(code: u8) -> Option<EventKind> {
    if code == 0 {
        Some(EventKind::Input)
    } else if code == 1 {
        Some(EventKind::Output)
    } else if code == 2 {
        Some(EventKind::Resize)
    } else {
        None
    }
}

/// The flags byte of a record.
pub open spec fn flags_byte(kind: EventKind, compressed: bool) -> u8 {
    if compressed {
        (kind_code(kind) + COMPRESSED_BIT) as u8
    } else {
        kind_code(kind)
    }
}

/// The kind that a flags byte names, if it names one.
pub open spec fn flags_kind(flags: u8) -> Option<EventKind> {
    kind_of_code((flags % 128) as u8)
}

/// True when a flags byte marks its payload as compressed.
pub open spec fn flags_compressed(flags: u8) -> bool {
    flags >= COMPRESSED_BIT
}

/// How a payload is stored: compressed exactly when it is longer than 256
/// bytes.
pub open spec fn stored_payload(raw: Seq<u8>) -> (bool, Seq<u8>) {
    if raw.len() > COMPRESS_ABOVE {
        (true, zstd_frame(raw, RECORD_LEVEL as int))
    } else {
        (false, raw)
    }
}

/// The bytes of a record.
pub open spec fn record_bytes(elapsed: u32, flags: u8, stored: Seq<u8>) -> Seq<u8> {
    le_bytes_u32(elapsed) + seq![flags] + varint(stored.len()) + stored
}

/// The record of an event.
pub open spec fn encoded_evt(e: RawEvtView) -> Seq<u8> {
    record_bytes(
        e.elapsed,
        flags_byte(e.kind, stored_payload(e.payload).0),
        stored_payload(e.payload).1,
    )
}

/// The outline of the record at the head of `s`, or what is wrong with it.
pub open spec fn parse_frame(s: Seq<u8>) -> Result<Frame, CastError> {
    if s.len() < HEADER_LEN {
        Err(CastError::Truncated)
    } else if flags_kind(s[4]) is None {
        Err(CastError::UnknownKind)
    } else {
        match parse_varint(s.skip(HEADER_LEN as int)) {
            Some((n, k)) => if HEADER_LEN + k + n <= s.len() {
                Ok(
                    Frame {
                        elapsed: u32_from_le(s),
                        flags: s[4],
                        stored: s.subrange(HEADER_LEN + k, HEADER_LEN + k + n),
                        used: (HEADER_LEN + k + n) as nat,
                    },
                )
            } else {
                Err(CastError::Truncated)
            },
            None => Err(CastError::Truncated),
        }
    }
}

/// The payload that a frame stands for.
pub open spec fn frame_payload(f: Frame) -> Seq<u8> {
    if flags_compressed(f.flags) {
        zstd_content(f.stored)
    } else {
        f.stored
    }
}

/// The event that a frame stands for.
pub open spec fn frame_evt(f: Frame) -> RawEvtView
    recommends
        flags_kind(f.flags) is Some,
{
    RawEvtView { elapsed: f.elapsed, kind: flags_kind(f.flags)->0, payload: frame_payload(f) }
}

/// The event at the head of `s` and the bytes its record takes.
pub open spec fn decoded_evt(s: Seq<u8>) -> Option<(RawEvtView, nat)> {
    match parse_frame(s) {
        Ok(f) => Some((frame_evt(f), f.used)),
        Err(_) => None,
    }
}

/// The events of a transcript: its records decoded one after the other up to
/// its end. `None` when some record is malformed.
pub open spec fn decoded_cast(s: Seq<u8>) -> Option<Seq<RawEvtView>>
    decreases s.len(),
{
    if s.len() == 0 {
        Some(Seq::empty())
    } else {
        match decoded_evt(s) {
            Some((e, used)) => if 0 < used <= s.len() {
                match decoded_cast(s.skip(used as int)) {
                    Some(rest) => Some(seq![e] + rest),
                    None => None,
                }
            } else {
                None
            },
            None => None,
        }
    }
}

/// What is wrong with the first malformed record of a transcript, if any is.
pub open spec fn cast_fault(s: Seq<u8>) -> Option<CastError>
    decreases s.len(),
{
    if s.len() == 0 {
        None
    } else {
        match parse_frame(s) {
            Ok(f) => if 0 < f.used <= s.len() {
                cast_fault(s.skip(f.used as int))
            } else {
                None
            },
            Err(e) => Some(e),
        }
    }
}

/// True when some record of a transcript is stored compressed.
pub open spec fn any_compressed(s: Seq<u8>) -> bool
    decreases s.len(),
{
    if s.len() == 0 {
        false
    } else {
        match parse_frame(s) {
            Ok(f) => flags_compressed(f.flags) || (0 < f.used <= s.len() && any_compressed(
                s.skip(f.used as int),
            )),
            Err(_) => false,
        }
    }
}

/// The events held in a vector, as values.
pub open spec fn evt_views(v: Seq<RawEvt>) -> Seq<RawEvtView> {
    v.map_values(|e: RawEvt| e@)
}

/// A record is self-framing: parsing its bytes, whatever follows them, gives
/// back the fields it was made of and its own length.
pub proof fn lemma_parse_record(elapsed: u32, flags: u8, stored: Seq<u8>, rest: Seq<u8>)
    requires
        flags_kind(flags) is Some,
    ensures
        parse_frame(record_bytes(elapsed, flags, stored) + rest) == Ok::<Frame, CastError>(
            Frame {
                elapsed,
                flags,
                stored,
                used: record_bytes(elapsed, flags, stored).len(),
            },
        ),
        record_bytes(elapsed, flags, stored).len() == HEADER_LEN + varint(stored.len()).len()
            + stored.len(),
{
    let rec = record_bytes(elapsed, flags, stored);
    let s = rec + rest;
    let k = varint(stored.len()).len();
    let after_header = varint(stored.len()) + (stored + rest);
    lemma_le_u32_roundtrip(elapsed, seq![flags] + varint(stored.len()) + stored + rest);
    lemma_varint_roundtrip(stored.len(), stored + rest);
    assert(s =~= le_bytes_u32(elapsed) + (seq![flags] + varint(stored.len()) + stored + rest));
    assert(s[4] == flags);
    assert(s.skip(HEADER_LEN as int) =~= after_header);
    assert(s.subrange(HEADER_LEN + k, HEADER_LEN + k + stored.len()) =~= stored);
}

/// The outline of a record does not depend on what follows the record.
pub proof fn lemma_parse_frame_extend(s: Seq<u8>, rest: Seq<u8>)
    requires
        parse_frame(s) is Ok,
    ensures
        parse_frame(s + rest) == parse_frame(s),
{
    let t = s + rest;
    let f = parse_frame(s)->Ok_0;
    let body = s.skip(HEADER_LEN as int);
    lemma_parse_varint_extend(body, rest);
    assert(t.skip(HEADER_LEN as int) =~= body + rest);
    assert(t[0] == s[0] && t[1] == s[1] && t[2] == s[2] && t[3] == s[3] && t[4] == s[4]);
    assert(t.subrange(f.used - f.stored.len(), f.used as int) =~= f.stored);
}

/// Appending one well-formed record to a transcript appends its event to the
/// events of the transcript.
pub proof fn lemma_decoded_cast_append(
    log: Seq<u8>,
    events: Seq<RawEvtView>,
    record: Seq<u8>,
    e: RawEvtView,
)
    requires
        decoded_cast(log) == Some(events),
        decoded_evt(record) == Some((e, record.len())),
    ensures
        decoded_cast(log + record) == Some(events.push(e)),
    decreases log.len(),
{
    assert(decoded_cast(Seq::<u8>::empty()) == Some(Seq::<RawEvtView>::empty()));
    if log.len() == 0 {
        assert(log + record =~= record);
        assert(record.skip(record.len() as int) =~= Seq::<u8>::empty());
        assert(events =~= Seq::<RawEvtView>::empty());
        assert(seq![e] + Seq::<RawEvtView>::empty() =~= events.push(e));
        assert(decoded_cast(record) == Some(seq![e] + Seq::<RawEvtView>::empty()));
    } else {
        let (head, used) = decoded_evt(log)->0;
        let tail = decoded_cast(log.skip(used as int))->0;
        let both = log + record;
        lemma_parse_frame_extend(log, record);
        lemma_decoded_cast_append(log.skip(used as int), tail, record, e);
        assert(both.skip(used as int) =~= log.skip(used as int) + record);
        assert(seq![head] + tail.push(e) =~= (seq![head] + tail).push(e));
        assert(decoded_evt(both) == Some((head, used)));
        assert(decoded_cast(both) == Some(seq![head] + tail.push(e)));
    }
}

impl EventKind {
    /// The number that stands for the kind in a flags byte.
    pub fn code(self) -> (c: u8)
        ensures
            c == kind_code(self),
    {
        match self {
            EventKind::Input => 0,
            EventKind::Output => 1,
            EventKind::Resize => 2,
        }
    }

    /// The kind that a number stands for.
    pub fn from_code(code: u8) -> (kind: Option<EventKind>)
        ensures
            kind == kind_of_code(code),
    {
        if code == 0 {
            Some(EventKind::Input)
        } else if code == 1 {
            Some(EventKind::Output)
        } else if code == 2 {
            Some(EventKind::Resize)
        } else {
            None
        }
    }
}

/// Compresses `data` into one zstd frame.
///
/// Calls `zstd::stream::encode_all`. Where it succeeds, the frame is the one
/// zstd makes of this data at this level, and unpacking that frame gives the
/// data back. Nothing is claimed of when it fails.
#[verifier::external_body]
pub(crate) fn zstd_compress(data: &[u8], level: i32) -> (res: Option<Vec<u8>>)
    ensures
        res matches Some(frame) ==> frame@ == zstd_frame(data@, level as int) && zstd_content(
            frame@,
        ) == data@,
{
    zstd::stream::encode_all(data, level).ok()
}

/// Unpacks a zstd frame.
///
/// Calls `zstd::stream::decode_all`. Where it succeeds, the result is the
/// content of the frame. Nothing is claimed of when it fails.
#[verifier::external_body]
fn zstd_decompress(frame: &[u8]) -> (res: Option<Vec<u8>>)
    ensures
        res matches Some(data) ==> data@ == zstd_content(frame@),
{
    zstd::stream::decode_all(frame).ok()
}

/// What is stored for a payload that was handed to the compressor: the frame
/// it made, marked compressed, or the failure.
pub fn compressed_payload(frame: Option<Vec<u8>>) -> (res: Result<(bool, Vec<u8>), CastError>)
    ensures
        res == match frame {
            Some(f) => Ok::<(bool, Vec<u8>), CastError>((true, f)),
            None => Err::<(bool, Vec<u8>), CastError>(CastError::Compress),
        },
{
    match frame {
        Some(f) => Ok((true, f)),
        None => Err(CastError::Compress),
    }
}

/// Chooses how a payload is stored: as it is when it has at most 256 bytes,
/// as a zstd frame of level 1 when it has more. The flag says which.
pub fn encode_payload(raw: Vec<u8>) -> (res: Result<(bool, Vec<u8>), CastError>)
    ensures
        raw@.len() <= COMPRESS_ABOVE ==> res == Ok::<(bool, Vec<u8>), CastError>((false, raw)),
        raw@.len() > COMPRESS_ABOVE ==> match res {
            Ok((compressed, stored)) => compressed && stored@ == stored_payload(raw@).1
                && zstd_content(stored@) == raw@,
            Err(e) => e == CastError::Compress,
        },
        res matches Ok((compressed, _)) ==> compressed == (raw@.len() > COMPRESS_ABOVE),
{
    if raw.len() > COMPRESS_ABOVE {
        compressed_payload(zstd_compress(raw.as_slice(), RECORD_LEVEL))
    } else {
        Ok((false, raw))
    }
}

/// Frames a stored payload as one record.
pub fn frame_record(elapsed: u32, kind: EventKind, compressed: bool, stored: &[u8]) -> (out: Vec<
    u8,
>)
    ensures
        out@ == record_bytes(elapsed, flags_byte(kind, compressed), stored@),
        out@[4] == flags_byte(kind, compressed),
        flags_kind(out@[4]) == Some(kind),
        flags_compressed(out@[4]) == compressed,
        parse_frame(out@) == Ok::<Frame, CastError>(
            Frame {
                elapsed,
                flags: flags_byte(kind, compressed),
                stored: stored@,
                used: out@.len(),
            },
        ),
{
    let flags: u8 = if compressed {
        kind.code() + COMPRESSED_BIT
    } else {
        kind.code()
    };
    let mut out: Vec<u8> = u32_le(elapsed);
    out.push(flags);
    put_varint(&mut out, stored.len());
    out.extend_from_slice(stored);
    proof {
        lemma_parse_record(elapsed, flags, stored@, Seq::empty());
        assert(out@ =~= record_bytes(elapsed, flags, stored@));
        assert(out@ + Seq::<u8>::empty() =~= out@);
    }
    out
}

/// Encodes an event as one record.
///
/// The record decodes to the event. It is owed whenever the payload is short
/// enough to be stored as it is; for a longer one the compressor decides.
pub fn encode_evt(e: &RawEvt) -> (res: Result<Vec<u8>, CastError>)
    ensures
        match res {
            Ok(bytes) => bytes@ == encoded_evt(e@) && decoded_evt(bytes@) == Some(
                (e@, bytes@.len()),
            ) && flags_compressed(bytes@[4]) == (e.payload@.len() > COMPRESS_ABOVE),
            Err(err) => err == CastError::Compress && e.payload@.len() > COMPRESS_ABOVE,
        },
{
    let raw: Vec<u8> = slice_to_vec(e.payload.as_slice());
    match encode_payload(raw) {
        Ok((compressed, stored)) => {
            let bytes = frame_record(e.elapsed, e.kind, compressed, stored.as_slice());
            assert(frame_evt(parse_frame(bytes@)->Ok_0) == e@);
            Ok(bytes)
        },
        Err(err) => Err(err),
    }
}

/// The payload that was unpacked from a compressed frame, or the failure.
pub fn unpacked_payload(content: Option<Vec<u8>>) -> (res: Result<Vec<u8>, CastError>)
    ensures
        res == match content {
            Some(data) => Ok::<Vec<u8>, CastError>(data),
            None => Err::<Vec<u8>, CastError>(CastError::Decompress),
        },
{
    match content {
        Some(data) => Ok(data),
        None => Err(CastError::Decompress),
    }
}

/// The payload that stored bytes stand for: themselves, or what they unpack
/// to when they are marked compressed.
pub fn open_payload(stored: &[u8], compressed: bool) -> (res: Result<Vec<u8>, CastError>)
    ensures
        match res {
            Ok(data) => data@ == if compressed {
                zstd_content(stored@)
            } else {
                stored@
            },
            Err(e) => e == CastError::Decompress && compressed,
        },
{
    if compressed {
        unpacked_payload(zstd_decompress(stored))
    } else {
        Ok(slice_to_vec(stored))
    }
}

/// Decodes the record at the head of `bytes`: the event, and how many bytes
/// the record takes.
///
/// A malformed record is refused with what is wrong with it. A well-formed
/// one is decoded, unless its payload is marked compressed and cannot be
/// unpacked.
pub fn decode_evt(bytes: &[u8]) -> (res: Result<(RawEvt, usize), CastError>)
    ensures
        match res {
            Ok((e, used)) => decoded_evt(bytes@) == Some((e@, used as nat)) && 0 < used
                <= bytes@.len(),
            Err(err) => match parse_frame(bytes@) {
                Ok(f) => err == CastError::Decompress && flags_compressed(f.flags),
                Err(fault) => err == fault,
            },
        },
{
    if bytes.len() < HEADER_LEN {
        return Err(CastError::Truncated);
    }
    let flags: u8 = bytes[4];
    let kind: EventKind = match EventKind::from_code(flags % 128) {
        Some(kind) => kind,
        None => {
            return Err(CastError::UnknownKind);
        },
    };
    let (n, k): (usize, usize) = match read_varint(bytes, HEADER_LEN) {
        Some(parsed) => parsed,
        None => {
            return Err(CastError::Truncated);
        },
    };
    let start: usize = HEADER_LEN + k;
    if n > bytes.len() - start {
        return Err(CastError::Truncated);
    }
    let elapsed: u32 = read_u32_le(bytes, 0);
    assert(bytes@.skip(0) =~= bytes@);
    assert(parse_frame(bytes@) == Ok::<Frame, CastError>(
        Frame {
            elapsed,
            flags,
            stored: bytes@.subrange(start as int, start + n),
            used: (start + n) as nat,
        },
    ));
    match open_payload(slice_subrange(bytes, start, start + n), flags >= COMPRESSED_BIT) {
        Ok(payload) => Ok((RawEvt { elapsed, kind, payload }, start + n)),
        Err(err) => Err(err),
    }
}

/// Decodes a whole transcript: every record up to the end of `bytes`.
///
/// The first malformed record stops the decoding with what is wrong with it;
/// so does a compressed payload that cannot be unpacked.
pub fn decode_cast(bytes: &[u8]) -> (res: Result<Vec<RawEvt>, CastError>)
    ensures
        match res {
            Ok(events) => decoded_cast(bytes@) == Some(evt_views(events@)),
            Err(err) => if err == CastError::Decompress {
                any_compressed(bytes@)
            } else {
                cast_fault(bytes@) == Some(err)
            },
        },
{
    let mut events: Vec<RawEvt> = Vec::new();
    let mut pos: usize = 0;
    assert(bytes@.skip(0) =~= bytes@);
    assert(evt_views(events@) =~= Seq::<RawEvtView>::empty());
    while pos < bytes.len()
        invariant
            pos <= bytes@.len(),
            decoded_cast(bytes@) == match decoded_cast(bytes@.skip(pos as int)) {
                Some(rest) => Some(evt_views(events@) + rest),
                None => None,
            },
            cast_fault(bytes@) == cast_fault(bytes@.skip(pos as int)),
            any_compressed(bytes@.skip(pos as int)) ==> any_compressed(bytes@),
        decreases bytes@.len() - pos,
    {
        let ghost here = bytes@.skip(pos as int);
        let ghost before = evt_views(events@);
        match decode_evt(slice_subrange(bytes, pos, bytes.len())) {
            Ok((e, used)) => {
                proof {
                    assert(here =~= bytes@.subrange(pos as int, bytes@.len() as int));
                    assert(here.skip(used as int) =~= bytes@.skip(pos + used));
                    assert(evt_views(events@.push(e)) =~= before.push(e@));
                    match decoded_cast(here.skip(used as int)) {
                        Some(rest) => {
                            assert(before + (seq![e@] + rest) =~= before.push(e@) + rest);
                        },
                        None => {},
                    }
                }
                events.push(e);
                pos = pos + used;
            },
            Err(err) => {
                assert(here =~= bytes@.subrange(pos as int, bytes@.len() as int));
                return Err(err);
            },
        }
    }
    assert(bytes@.skip(pos as int) =~= Seq::<u8>::empty());
    assert(evt_views(events@) + Seq::<RawEvtView>::empty() =~= evt_views(events@));
    Ok(events)
}

/// The payload of a resize event: the rows, then the columns, each as two
/// little-endian bytes.
pub open spec fn resize_payload(rows: u16, cols: u16) -> Seq<u8> {
    le_bytes_u16(rows) + le_bytes_u16(cols)
}

/// The rows and columns that the payload of a resize event holds; `None`
/// when it is not four bytes long.
pub open spec fn resize_dims(payload: Seq<u8>) -> Option<(u16, u16)> {
    if payload.len() == 4 {
        Some((u16_from_le(payload), u16_from_le(payload.skip(2))))
    } else {
        None
    }
}

/// A resize payload holds the rows and columns it was made of.
pub proof fn lemma_resize_roundtrip(rows: u16, cols: u16)
    ensures
        resize_payload(rows, cols).len() == 4,
        resize_dims(resize_payload(rows, cols)) == Some((rows, cols)),
{
    let payload = resize_payload(rows, cols);
    lemma_le_u16_roundtrip(rows, le_bytes_u16(cols));
    lemma_le_u16_roundtrip(cols, Seq::empty());
    assert(payload.skip(2) =~= le_bytes_u16(cols) + Seq::<u8>::empty());
}

/// Reads the rows and columns out of the payload of a resize event.
pub fn read_resize(payload: &[u8]) -> (dims: Option<(u16, u16)>)
    ensures
        dims == resize_dims(payload@),
{
    if payload.len() != 4 {
        return None;
    }
    let rows: u16 = payload[0] as u16 + 256 * (payload[1] as u16);
    let cols: u16 = payload[2] as u16 + 256 * (payload[3] as u16);
    Some((rows, cols))
}

} // verus!
