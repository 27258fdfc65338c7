//! The transcript recorder: what the single writer of a session does with
//! each event, heartbeat and telemetry tick that reaches it.
//!
//! The recorder decides which bytes go to the transcript and its sidecar;
//! writing them is left to whoever owns the files.

use crate::cast::decoded_cast;
use crate::cast::encode_evt;
use crate::cast::encoded_evt;
use crate::cast::lemma_decoded_cast_append;
use crate::cast::lemma_resize_roundtrip;
use crate::cast::resize_dims;
use crate::cast::resize_payload;
use crate::cast::zstd_frame;
use crate::cast::zstd_compress;
use crate::cast::CastError;
use crate::cast::EventKind;
use crate::cast::RawEvt;
use crate::cast::RawEvtView;
use crate::cast::COMPRESS_ABOVE;
use crate::wire::le_bytes_u32;
use crate::wire::u16_le;
use crate::wire::u32_le;
use vstd::prelude::*;

verus! {

/// Compression level of the telemetry blob.
pub const TELEMETRY_LEVEL: i32 = 3;

/// The text of `data` in base64: standard alphabet, padded.
pub uninterp spec fn base64_standard(data: Seq<u8>) -> Seq<char>;

/// True when data of this length can be put in base64 without its length
/// leaving the machine's range.
pub open spec fn fits_base64(len: nat) -> bool {
    len / 3 < usize::MAX / 4
}

/// The blob that a telemetry tick reports for what the compressor made of the
/// pending records: the frame in base64, or a fixed word when there is none.
pub open spec fn telemetry_text(frame: Option<Seq<u8>>) -> Seq<char> {
    match frame {
        Some(f) => base64_standard(f),
        None => "ErrorParsingString"@,
    }
}

/// The seconds of a heartbeat as they are recorded: reduced to 32 bits.
pub open spec fn heartbeat_stamp(unix_secs: u64) -> u32 {
    (unix_secs % 0x1_0000_0000) as u32
}

/// Text of `data` in base64.
///
/// Calls `base64::Engine::encode` on the engine
/// `base64::engine::general_purpose::STANDARD`, which panics where the
/// encoded length would overflow; such lengths are kept out.
#[verifier::external_body]
fn base64_encode(data: &[u8]) -> (text: String)
    requires
        fits_base64(data@.len()),
    ensures
        text@ == base64_standard(data@),
{
    base64::Engine::encode(&base64::engine::general_purpose::STANDARD, data)
}

/// The blob for what the compressor made of the pending records.
pub fn telemetry_blob(frame: Option<Vec<u8>>) -> (blob: String)
    requires
        frame matches Some(f) ==> fits_base64(f@.len()),
    ensures
        blob@ == telemetry_text(
            match frame {
                Some(f) => Some(f@),
                None => None,
            },
        ),
{
    match frame {
        Some(f) => base64_encode(f.as_slice()),
        None => "ErrorParsingString".to_owned(),
    }
}

/// The four bytes that a heartbeat adds to the sidecar.
pub fn heartbeat_record(stamp: u32) -> (out: Vec<u8>)
    ensures
        out@ == le_bytes_u32(stamp),
{
    u32_le(stamp)
}

/// Recorder of a session with optional verbose telemetry.
pub struct Caster {
    timestamp: u128,
    verbose_log: bool,
    verbose_interval: u32,
    verbose_buf: Vec<u8>,
    written: Ghost<Seq<u8>>,
    recorded: Ghost<Seq<RawEvtView>>,
}

impl Caster {
    /// When the session began, as handed to [`Caster::new`].
    pub closed spec fn session_start(&self) -> u128 {
        self.timestamp
    }

    pub closed spec fn verbose(&self) -> bool {
        self.verbose_log
    }

    /// Seconds between two telemetry ticks.
    pub closed spec fn interval(&self) -> u32 {
        self.verbose_interval
    }

    /// Record bytes that wait for the next telemetry tick.
    pub closed spec fn pending(&self) -> Seq<u8> {
        self.verbose_buf@
    }

    /// Every byte handed out for the transcript so far.
    pub closed spec fn written(&self) -> Seq<u8> {
        self.written@
    }

    /// Every event recorded so far.
    pub closed spec fn recorded(&self) -> Seq<RawEvtView> {
        self.recorded@
    }

    /// The transcript decodes to the events recorded, and what waits for the
    /// telemetry tick is the end of the transcript.
    pub closed spec fn wf(&self) -> bool {
        &&& decoded_cast(self.written@) == Some(self.recorded@)
        &&& self.verbose_buf@.len() <= self.written@.len()
        &&& self.written@.skip(self.written@.len() - self.verbose_buf@.len()) == self.verbose_buf@
        &&& !self.verbose_log ==> self.verbose_buf@.len() == 0
    }

    /// A recorder for a session that began at `timestamp`.
    pub fn new(timestamp: u128, verbose_log: bool, verbose_interval: u32) -> (caster: Caster)
        ensures
            caster.wf(),
            caster.session_start() == timestamp,
            caster.verbose() == verbose_log,
            caster.interval() == verbose_interval,
            caster.pending() == Seq::<u8>::empty(),
            caster.written() == Seq::<u8>::empty(),
            caster.recorded() == Seq::<RawEvtView>::empty(),
    {
        let caster = Caster {
            timestamp,
            verbose_log,
            verbose_interval,
            verbose_buf: Vec::new(),
            written: Ghost(Seq::empty()),
            recorded: Ghost(Seq::empty()),
        };
        assert(caster.written@.skip(0) =~= caster.verbose_buf@);
        caster
    }

    pub fn timestamp(&self) -> (t: u128)
        ensures
            t == self.session_start(),
    {
        self.timestamp
    }

    pub fn verbose_log(&self) -> (v: bool)
        ensures
            v == self.verbose(),
    {
        self.verbose_log
    }

    pub fn verbose_interval(&self) -> (secs: u32)
        ensures
            secs == self.interval(),
    {
        self.verbose_interval
    }

    /// The event that a viewer typed `bytes`.
    pub fn input(elapsed: u32, bytes: Vec<u8>) -> (e: RawEvt)
        ensures
            e@ == (RawEvtView { elapsed, kind: EventKind::Input, payload: bytes@ }),
    {
        RawEvt { elapsed, kind: EventKind::Input, payload: bytes }
    }

    /// The event that the terminal printed `bytes`.
    pub fn output(elapsed: u32, bytes: Vec<u8>) -> (e: RawEvt)
        ensures
            e@ == (RawEvtView { elapsed, kind: EventKind::Output, payload: bytes@ }),
    {
        RawEvt { elapsed, kind: EventKind::Output, payload: bytes }
    }

    /// The event that the terminal was resized to `rows` by `cols`.
    pub fn resize(elapsed: u32, rows: u16, cols: u16) -> (e: RawEvt)
        ensures
            e@ == (RawEvtView {
                elapsed,
                kind: EventKind::Resize,
                payload: resize_payload(rows, cols),
            }),
            e.payload@.len() == 4,
            resize_dims(e.payload@) == Some((rows, cols)),
    {
        let mut payload: Vec<u8> = u16_le(rows);
        let mut tail: Vec<u8> = u16_le(cols);
        payload.append(&mut tail);
        proof {
            lemma_resize_roundtrip(rows, cols);
        }
        RawEvt { elapsed, kind: EventKind::Resize, payload }
    }

    /// The stamp of a heartbeat that arrived `unix_secs` seconds after the
    /// epoch.
    pub fn heartbeat(unix_secs: u64) -> (stamp: u32)
        ensures
            stamp == heartbeat_stamp(unix_secs),
    {
        (unix_secs % 0x1_0000_0000) as u32
    }

    /// Takes in one event: returns the record to append to the transcript
    /// and, in verbose mode, keeps a copy of it for the next telemetry tick.
    /// Where the event cannot be encoded, nothing changes.
    pub fn record(&mut self, evt: &RawEvt) -> (res: Result<Vec<u8>, CastError>)
        requires
            old(self).wf(),
        ensures
            final(self).wf(),
            final(self).session_start() == old(self).session_start(),
            final(self).verbose() == old(self).verbose(),
            final(self).interval() == old(self).interval(),
            match res {
                Ok(bytes) => {
                    &&& bytes@ == encoded_evt(evt@)
                    &&& final(self).written() == old(self).written() + bytes@
                    &&& final(self).recorded() == old(self).recorded().push(evt@)
                    &&& final(self).pending() == if old(self).verbose() {
                        old(self).pending() + bytes@
                    } else {
                        old(self).pending()
                    }
                },
                Err(e) => {
                    &&& e == CastError::Compress
                    &&& evt.payload@.len() > COMPRESS_ABOVE
                    &&& final(self).written() == old(self).written()
                    &&& final(self).recorded() == old(self).recorded()
                    &&& final(self).pending() == old(self).pending()
                },
            },
    {
        match encode_evt(evt) {
            Ok(bytes) => {
                let ghost before = self.written@;
                let ghost waiting = self.verbose_buf@;
                proof {
                    lemma_decoded_cast_append(before, self.recorded@, bytes@, evt@);
                }
                if self.verbose_log {
                    self.verbose_buf.extend_from_slice(bytes.as_slice());
                }
                self.written = Ghost(before + bytes@);
                self.recorded = Ghost(self.recorded@.push(evt@));
                assert(self.written@.skip(self.written@.len() - self.verbose_buf@.len())
                    =~= self.verbose_buf@) by {
                    assert(before.skip(before.len() - waiting.len()) == waiting);
                }
                Ok(bytes)
            },
            Err(e) => Err(e),
        }
    }

    /// A telemetry tick: where records are pending, hands out their blob and
    /// forgets them. The blob is the base64 text of the pending bytes
    /// compressed at level 3, or a fixed word where the compressor failed.
    /// Nothing is handed out, and nothing forgotten, when the recorder is
    /// not verbose, when nothing is pending, or when the compressed bytes are
    /// too long for base64.
    pub fn tick(&mut self) -> (res: Option<String>)
        requires
            old(self).wf(),
        ensures
            final(self).wf(),
            final(self).session_start() == old(self).session_start(),
            final(self).verbose() == old(self).verbose(),
            final(self).interval() == old(self).interval(),
            final(self).written() == old(self).written(),
            final(self).recorded() == old(self).recorded(),
            !old(self).verbose() || old(self).pending().len() == 0 ==> res is None,
            match res {
                Some(blob) => {
                    &&& old(self).verbose()
                    &&& old(self).pending().len() > 0
                    &&& final(self).pending() == Seq::<u8>::empty()
                    &&& (blob@ == telemetry_text(
                        Some(zstd_frame(old(self).pending(), TELEMETRY_LEVEL as int)),
                    ) || blob@ == telemetry_text(None))
                },
                None => {
                    &&& final(self).pending() == old(self).pending()
                    &&& (!old(self).verbose() || old(self).pending().len() == 0 || !fits_base64(
                        zstd_frame(old(self).pending(), TELEMETRY_LEVEL as int).len(),
                    ))
                },
            },
    {
        if !self.verbose_log || self.verbose_buf.len() == 0 {
            return None;
        }
        let frame: Option<Vec<u8>> = zstd_compress(self.verbose_buf.as_slice(), TELEMETRY_LEVEL);
        let fits: bool = match &frame {
            Some(f) => f.len() / 3 < usize::MAX / 4,
            None => true,
        };
        if !fits {
            return None;
        }
        let blob = telemetry_blob(frame);
        self.verbose_buf.clear();
        assert(self.written@.skip(self.written@.len() as int) =~= self.verbose_buf@);
        Some(blob)
    }
}

/// What a recorder has handed out decodes to what it has recorded: the
/// transcript written from its records, in order, decodes to the events
/// that were taken in, in order. What waits for the telemetry tick is the
/// end of that transcript.
pub proof fn lemma_caster_transcript(caster: &Caster)
    requires
        caster.wf(),
    ensures
        decoded_cast(caster.written()) == Some(caster.recorded()),
        caster.pending().len() <= caster.written().len(),
        caster.pending() == caster.written().skip(
            caster.written().len() - caster.pending().len(),
        ),
        !caster.verbose() ==> caster.pending().len() == 0,
{
}

/// Recorder of a session without telemetry.
pub struct Logger {
    written: Ghost<Seq<u8>>,
    recorded: Ghost<Seq<RawEvtView>>,
}

impl Logger {
    /// Every byte handed out for the transcript so far.
    pub closed spec fn written(&self) -> Seq<u8> {
        self.written@
    }

    /// Every event recorded so far.
    pub closed spec fn recorded(&self) -> Seq<RawEvtView> {
        self.recorded@
    }

    /// The transcript decodes to the events recorded.
    pub closed spec fn wf(&self) -> bool {
        decoded_cast(self.written@) == Some(self.recorded@)
    }

    pub fn new() -> (logger: Logger)
        ensures
            logger.wf(),
            logger.written() == Seq::<u8>::empty(),
            logger.recorded() == Seq::<RawEvtView>::empty(),
    {
        Logger { written: Ghost(Seq::empty()), recorded: Ghost(Seq::empty()) }
    }

    /// The event that a viewer typed `bytes`.
    pub fn input(elapsed: u32, bytes: Vec<u8>) -> (e: RawEvt)
        ensures
            e@ == (RawEvtView { elapsed, kind: EventKind::Input, payload: bytes@ }),
    {
        Caster::input(elapsed, bytes)
    }

    /// The event that the terminal printed `bytes`.
    pub fn output(elapsed: u32, bytes: Vec<u8>) -> (e: RawEvt)
        ensures
            e@ == (RawEvtView { elapsed, kind: EventKind::Output, payload: bytes@ }),
    {
        Caster::output(elapsed, bytes)
    }

    /// The event that the terminal was resized to `rows` by `cols`.
    pub fn resize(elapsed: u32, rows: u16, cols: u16) -> (e: RawEvt)
        ensures
            e@ == (RawEvtView {
                elapsed,
                kind: EventKind::Resize,
                payload: resize_payload(rows, cols),
            }),
            e.payload@.len() == 4,
            resize_dims(e.payload@) == Some((rows, cols)),
    {
        Caster::resize(elapsed, rows, cols)
    }

    /// The stamp of a heartbeat that arrived `unix_secs` seconds after the
    /// epoch.
    pub fn heartbeat(unix_secs: u64) -> (stamp: u32)
        ensures
            stamp == heartbeat_stamp(unix_secs),
    {
        Caster::heartbeat(unix_secs)
    }

    /// Takes in one event and returns the record to append to the
    /// transcript. Where the event cannot be encoded, nothing changes.
    pub fn record(&mut self, evt: &RawEvt) -> (res: Result<Vec<u8>, CastError>)
        requires
            old(self).wf(),
        ensures
            final(self).wf(),
            match res {
                Ok(bytes) => {
                    &&& bytes@ == encoded_evt(evt@)
                    &&& final(self).written() == old(self).written() + bytes@
                    &&& final(self).recorded() == old(self).recorded().push(evt@)
                },
                Err(e) => {
                    &&& e == CastError::Compress
                    &&& evt.payload@.len() > COMPRESS_ABOVE
                    &&& final(self).written() == old(self).written()
                    &&& final(self).recorded() == old(self).recorded()
                },
            },
    {
        match encode_evt(evt) {
            Ok(bytes) => {
                proof {
                    lemma_decoded_cast_append(self.written@, self.recorded@, bytes@, evt@);
                }
                self.written = Ghost(self.written@ + bytes@);
                self.recorded = Ghost(self.recorded@.push(evt@));
                Ok(bytes)
            },
            Err(e) => Err(e),
        }
    }
}

/// The transcript written from a logger's records decodes to the events
/// that were taken in, in order.
pub proof fn lemma_logger_transcript(logger: &Logger)
    requires
        logger.wf(),
    ensures
        decoded_cast(logger.written()) == Some(logger.recorded()),
{
}

} // verus!
