//! Real-time scanning: decoding camera frames and collecting burst streams until a
//! payload is complete.
use vstd::prelude::*;

use crate::cv::{profile_for, VisionProfile};
use crate::assembler::{assembled, offer, BurstAssembler, ScannerError};
use crate::decode::{DecodeError, DecodeOptions, RasterDecoder};
use crate::frame::{Frame, FrameHeader};
use crate::mode::TransmissionMode;
use crate::raster::{grid_outcome, options_grid, LumaImage};
use crate::recovery::RecoveryTelemetry;
use crate::error::GlyphError;
use crate::wire::copy_range;

verus! {

/// Axis-aligned scan region in pixel coordinates.
#[derive(Debug, Clone, Copy, PartialEq, Eq, Structural)]
pub struct ScanRegion {
    /// Left pixel.
    pub x: u32,
    /// Top pixel.
    pub y: u32,
    /// Width in pixels.
    pub width: u32,
    /// Height in pixels.
    pub height: u32,
}

/// Candidate detector family of still-image scanning.
#[derive(Debug, Clone, Copy, PartialEq, Eq)]
pub enum CandidateDetector {
    /// Clean rendered symbol on a simple background.
    GeneratedContent,
    /// Layout-agnostic dark-component and band detector.
    GenericBinary,
    /// Matrix finder-pattern detector.
    Matrix,
    /// RibbonWeave rail, totem, and wide-symbol recovery detector.
    RibbonWeave,
}

/// The stable name of a detector family.
pub open spec fn detector_name(d: CandidateDetector) -> &'static str {
    match d {
        CandidateDetector::GeneratedContent => "generated-content",
        CandidateDetector::GenericBinary => "generic-binary",
        CandidateDetector::Matrix => "matrix",
        CandidateDetector::RibbonWeave => "ribbon-weave",
    }
}

impl CandidateDetector {
    /// The stable name of this detector family, for diagnostics.
    pub fn as_str(self) -> (r: &'static str)
        ensures
            r == detector_name(self),
    {
        match self {
            CandidateDetector::GeneratedContent => "generated-content",
            CandidateDetector::GenericBinary => "generic-binary",
            CandidateDetector::Matrix => "matrix",
            CandidateDetector::RibbonWeave => "ribbon-weave",
        }
    }
}

/// Timing diagnostics for one still scan, in microseconds per stage.
#[derive(Debug, Clone, Copy, PartialEq, Eq)]
pub struct ScanTimings {
    /// Complete still-scan duration.
    pub total_micros: u64,
    /// Full-frame decode attempt duration.
    pub full_frame_micros: u64,
    /// Grayscale conversion duration.
    pub grayscale_micros: u64,
    /// Adaptive threshold duration.
    pub threshold_micros: u64,
    /// Anchor and quad estimation duration.
    pub quad_micros: u64,
    /// Candidate region generation duration.
    pub candidate_micros: u64,
    /// Candidate crop/decode loop duration.
    pub decode_attempts_micros: u64,
}

impl Default for ScanTimings {
    fn default() -> (r: Self)
        ensures
            r == (ScanTimings {
                total_micros: 0,
                full_frame_micros: 0,
                grayscale_micros: 0,
                threshold_micros: 0,
                quad_micros: 0,
                candidate_micros: 0,
                decode_attempts_micros: 0,
            }),
    {
        ScanTimings {
            total_micros: 0,
            full_frame_micros: 0,
            grayscale_micros: 0,
            threshold_micros: 0,
            quad_micros: 0,
            candidate_micros: 0,
            decode_attempts_micros: 0,
        }
    }
}

/// Camera frame passed into the scanner.
#[derive(Debug, Clone)]
pub struct CameraFrame {
    /// Grayscale image of the frame.
    pub image: LumaImage,
    /// Monotonic timestamp in microseconds.
    pub timestamp_micros: u64,
}

/// Pull-based camera source abstraction.
pub trait FrameSource {
    /// Return the next frame, or `None` when the source is exhausted.
    fn next_frame(&mut self) -> Option<CameraFrame>;
}

/// Scanner configuration.
#[derive(Debug, Clone, PartialEq, Eq)]
pub struct ScannerConfig {
    /// Expected mode used for vision tuning.
    pub mode: TransmissionMode,
    /// Raster decode options.
    pub decode: DecodeOptions,
    /// Maximum frames to consume in a single scan loop.
    pub max_frames: usize,
}

impl Default for ScannerConfig {
    fn default() -> (r: Self)
        ensures
            r.mode == TransmissionMode::Print,
            r.decode == (DecodeOptions {
                module_px: 8,
                quiet_zone_modules: 4,
                threshold: 192,
                layout: crate::descriptor::LayoutFamily::RibbonWeave,
            }),
            r.max_frames == 120,
    {
        ScannerConfig { mode: TransmissionMode::Print, decode: DecodeOptions::default(), max_frames: 120 }
    }
}

/// Result of scanning one frame.
#[derive(Debug, Clone, PartialEq, Eq)]
pub struct ScanEvent {
    /// Decoded protocol frame.
    pub frame: Frame,
    /// Complete payload when a static symbol or full burst stream is available.
    pub complete_payload: Option<Vec<u8>>,
    /// Capture timestamp for diagnostics.
    pub timestamp_micros: u64,
}

/// The state of one burst stream: its frame count and the chunks stored so far.
pub type BurstState = (u16, Seq<(u16, Seq<u8>)>);

/// The state of burst stream `id` among the first `n` tracked streams.
pub open spec fn burst_in(streams: Seq<(u64, BurstState)>, id: u64, n: int) -> Option<BurstState>
    decreases n,
{
    if n <= 0 {
        None
    } else if streams[n - 1].0 == id {
        Some(streams[n - 1].1)
    } else {
        burst_in(streams, id, n - 1)
    }
}

/// What scanning a decoded frame `f` does to the state of its burst stream, when the
/// stream was in state `state`: the frame's chunk is offered to the stream (opened
/// with the frame's count when new); `None` when the counts disagree.
pub open spec fn burst_step(state: Option<BurstState>, f: (FrameHeader, Seq<u8>)) -> Option<BurstState> {
    let (count, entries) = match state {
        Some(s) => s,
        None => (f.0.frame_count, Seq::empty()),
    };
    if f.0.frame_count != count {
        None
    } else {
        Some((count, offer(entries, f.0.frame_index, f.1)))
    }
}


/// The tracked burst streams as a function of stream id.
pub type BurstStates = spec_fn(u64) -> Option<BurstState>;

/// What scanning one camera frame does, from the burst streams `bursts` with decode
/// options `cfg`: the new streams and the outcome (a complete payload, nothing yet,
/// or the error).
pub open spec fn frame_step(bursts: BurstStates, cfg: DecodeOptions, frame: CameraFrame) -> (
    BurstStates,
    Result<Option<Seq<u8>>, ScannerError>,
) {
    match options_grid(frame.image, cfg) {
        None => (bursts, Err(ScannerError::Decode(DecodeError::InvalidImageDimensions))),
        Some(g) => match grid_outcome(frame.image, g) {
            Err(Some(e)) => (bursts, Err(ScannerError::Decode(DecodeError::Core(e)))),
            Err(None) => (bursts, Err(ScannerError::Decode(DecodeError::EccMismatch))),
            Ok((_, f, _)) => if f.0.frame_count == 1 {
                (bursts, Ok(Some(f.1)))
            } else {
                match burst_step(bursts(f.0.stream_id), f) {
                    None => (bursts, Err(ScannerError::InconsistentBurst(f.0.stream_id))),
                    Some((count, e)) => (
                        |k: u64| if k == f.0.stream_id { Some((count, e)) } else { bursts(k) },
                        if e.len() == count {
                            Ok(Some(assembled(e, count as nat)))
                        } else {
                            Ok(None)
                        },
                    ),
                }
            },
        },
    }
}

/// What scanning the camera frames `frames` in turn does: each frame is scanned until
/// one completes a payload or fails; the frames after it are not scanned.
pub open spec fn run_frames(bursts: BurstStates, cfg: DecodeOptions, frames: Seq<CameraFrame>) -> (
    BurstStates,
    Result<Option<Seq<u8>>, ScannerError>,
)
    decreases frames.len(),
{
    if frames.len() == 0 {
        (bursts, Ok(None))
    } else {
        let (b, o) = run_frames(bursts, cfg, frames.drop_last());
        if o == Ok::<Option<Seq<u8>>, ScannerError>(None) {
            frame_step(b, cfg, frames.last())
        } else {
            (b, o)
        }
    }
}

/// The outcome of a scan, with payloads by their bytes.
pub open spec fn outcome_view(r: Result<Option<Vec<u8>>, ScannerError>) -> Result<Option<Seq<u8>>, ScannerError> {
    match r {
        Ok(Some(p)) => Ok(Some(p@)),
        Ok(None) => Ok(None),
        Err(e) => Err(e),
    }
}

/// `after` and `r` are what scanning the frames `frames` from `before` gives.
pub open spec fn scanned_frames(
    before: Scanner,
    after: Scanner,
    frames: Seq<CameraFrame>,
    r: Result<Option<Vec<u8>>, ScannerError>,
) -> bool {
    let (b, o) = run_frames(|k: u64| before.burst(k), before.spec_config().decode, frames);
    &&& o == outcome_view(r)
    &&& forall|k: u64| after.burst(k) == b(k)
}

/// Stateful real-time scanner.
#[derive(Debug)]
pub struct Scanner {
    config: ScannerConfig,
    decoder: RasterDecoder,
    bursts: Vec<(u64, BurstAssembler)>,
}

impl Scanner {
    /// The configuration.
    pub closed spec fn spec_config(&self) -> ScannerConfig {
        self.config
    }

    /// The tracked burst streams, each under its stream id.
    pub closed spec fn streams(&self) -> Seq<(u64, BurstState)> {
        self.bursts@.map_values(
            |b: (u64, BurstAssembler)| (b.0, (b.1.spec_frame_count(), b.1.entries())),
        )
    }

    /// The state of burst stream `id`, if it is tracked.
    pub open spec fn burst(&self, id: u64) -> Option<BurstState> {
        burst_in(self.streams(), id, self.streams().len() as int)
    }

    /// The scanner's invariant: its decoder follows its configuration and each
    /// tracked stream is assembled consistently.
    pub closed spec fn well_formed(&self) -> bool {
        &&& self.decoder@ == self.config.decode
        &&& forall|i: int| 0 <= i < self.bursts@.len() ==> (#[trigger] self.bursts@[i]).1.well_formed()
    }

    /// Create a scanner from configuration.
    pub fn new(config: ScannerConfig) -> (r: Self)
        ensures
            r.well_formed(),
            r.spec_config() == config,
            forall|id: u64| r.burst(id) is None,
    {
        let r = Scanner { decoder: RasterDecoder::new(config.decode), config, bursts: Vec::new() };
        assert(r.streams() =~= Seq::<(u64, BurstState)>::empty());
        r
    }

    /// The configuration.
    pub fn config(&self) -> (r: &ScannerConfig)
        ensures
            *r == self.spec_config(),
    {
        &self.config
    }

    /// The vision profile of the configured mode.
    pub fn vision_profile(&self) -> (r: VisionProfile)
        ensures
            r == profile_for(self.spec_config().mode),
    {
        VisionProfile::for_mode(self.config.mode)
    }

    /// The position of stream `id` among the tracked ones.
    fn position(&self, id: u64) -> (r: Option<usize>)
        ensures
            r is None <==> self.burst(id) is None,
            r matches Some(i) ==> i < self.bursts@.len() && self.bursts@[i as int].0 == id
                && self.burst(id) == Some(self.streams()[i as int].1) && forall|j: int|
                i < j < self.bursts@.len() ==> (#[trigger] self.bursts@[j]).0 != id,
    {
        let ghost s = self.streams();
        let mut found: Option<usize> = None;
        let mut i: usize = 0;
        while i < self.bursts.len()
            invariant
                s == self.streams(),
                s.len() == self.bursts@.len(),
                i <= s.len(),
                found is None <==> burst_in(s, id, i as int) is None,
                found matches Some(j) ==> j < i && self.bursts@[j as int].0 == id && burst_in(
                    s,
                    id,
                    i as int,
                ) == Some(s[j as int].1) && forall|l: int|
                    j < l < i ==> (#[trigger] self.bursts@[l]).0 != id,
            decreases s.len() - i,
        {
            if self.bursts[i].0 == id {
                found = Some(i);
            }
            i = i + 1;
        }
        found
    }

    /// Feed a decoded frame to its burst stream and return the complete payload, if the
    /// stream is now complete. A single-frame symbol is complete on its own.
    fn track(&mut self, frame: &Frame) -> (r: Result<Option<Vec<u8>>, ScannerError>)
        requires
            old(self).well_formed(),
        ensures
            final(self).well_formed(),
            final(self).spec_config() == old(self).spec_config(),
            frame.header.frame_count == 1 ==> (r matches Ok(Some(p)) && p@ == frame.payload@),
            frame.header.frame_count == 1 ==> forall|k: u64| final(self).burst(k) == old(self).burst(k),
            frame.header.frame_count != 1 ==> match burst_step(
                old(self).burst(frame.header.stream_id),
                frame@,
            ) {
                None => (r matches Err(ScannerError::InconsistentBurst(id)) && id
                    == frame.header.stream_id) && forall|k: u64| final(self).burst(k) == old(
                    self,
                ).burst(k),
                Some((count, e)) => {
                    &&& final(self).burst(frame.header.stream_id) == Some((count, e))
                    &&& forall|k: u64| k != frame.header.stream_id ==> final(self).burst(k) == old(
                        self,
                    ).burst(k)
                    &&& e.len() == count ==> (r matches Ok(Some(p)) && p@ == assembled(e, count as nat))
                    &&& e.len() != count ==> (r matches Ok(None))
                },
            },
    {
        if frame.header.frame_count == 1 {
            let payload = copy_range(frame.payload.as_slice(), 0, frame.payload.len());
            proof {
                assert(payload@ =~= frame.payload@);
            }
            return Ok(Some(payload));
        }
        let id = frame.header.stream_id;
        let ghost before = self.streams();
        let index = match self.position(id) {
            Some(i) => i,
            None => {
                self.bursts.push((id, BurstAssembler::new(frame.header.frame_count)));
                proof {
                    assert(self.streams() =~= before.push((id, (frame.header.frame_count, Seq::empty()))));
                    lemma_burst_push(before, id, (frame.header.frame_count, Seq::empty()));
                }
                self.bursts.len() - 1
            },
        };
        let ghost mid = self.streams();
        let ghost mid_bursts = self.bursts@;
        assert(self.bursts@[index as int].1.well_formed());
        let (stream, mut assembler) = self.bursts.remove(index);
        let result = assembler.push(frame);
        self.bursts.insert(index, (stream, assembler));
        proof {
            assert(self.bursts@ =~= mid_bursts.update(index as int, (stream, assembler)));
            assert(self.streams() =~= mid.update(
                index as int,
                (stream, (assembler.spec_frame_count(), assembler.entries())),
            ));
            lemma_burst_update(mid, index as int, (assembler.spec_frame_count(), assembler.entries()));
            assert forall|i: int| 0 <= i < self.bursts@.len() implies (#[trigger] self.bursts@[i]).1.well_formed() by {
                if i != index {
                    assert(self.bursts@[i] == mid_bursts[i]);
                }
            }
        }
        result
    }

    /// Scan a single camera frame: decode it with the configured options, then feed it
    /// to its burst stream. A frame that does not decode changes nothing.
    pub fn scan_frame(&mut self, frame: CameraFrame) -> (r: Result<ScanEvent, ScannerError>)
        requires
            old(self).well_formed(),
            frame.image.well_formed(),
            old(self).spec_config().decode.quiet_zone_modules <= 0x7fff_ffff,
        ensures
            final(self).well_formed(),
            final(self).spec_config() == old(self).spec_config(),
            match options_grid(frame.image, old(self).spec_config().decode) {
                None => (r matches Err(ScannerError::Decode(DecodeError::InvalidImageDimensions)))
                    && forall|k: u64| final(self).burst(k) == old(self).burst(k),
                Some(g) => match grid_outcome(frame.image, g) {
                    Err(Some(e)) => (r matches Err(ScannerError::Decode(DecodeError::Core(x)))
                        && x == e) && forall|k: u64| final(self).burst(k) == old(self).burst(k),
                    Err(None) => (r matches Err(ScannerError::Decode(DecodeError::EccMismatch)))
                        && forall|k: u64| final(self).burst(k) == old(self).burst(k),
                    Ok((_, f, _)) => scanned(*old(self), *final(self), f, frame.timestamp_micros, r),
                },
            },
    {
        let decoded = match self.decoder.decode(&frame.image) {
            Ok(d) => d,
            Err(e) => return Err(ScannerError::Decode(e)),
        };
        let protocol_frame = decoded.frame;
        let complete_payload = match self.track(&protocol_frame) {
            Ok(p) => p,
            Err(e) => return Err(e),
        };
        Ok(ScanEvent { frame: protocol_frame, complete_payload, timestamp_micros: frame.timestamp_micros })
    }

    /// Consume frames until a payload is complete, the source runs dry, or the
    /// configured frame limit is reached.
    pub fn scan_source<S: FrameSource>(&mut self, source: &mut S) -> (r: Result<
        Option<Vec<u8>>,
        ScannerError,
    >)
        requires
            old(self).well_formed(),
            old(self).spec_config().decode.quiet_zone_modules <= 0x7fff_ffff,
        ensures
            final(self).well_formed(),
            final(self).spec_config() == old(self).spec_config(),
            exists|frames: Seq<CameraFrame>|
                frames.len() <= old(self).spec_config().max_frames && scanned_frames(
                    *old(self),
                    *final(self),
                    frames,
                    r,
                ),
    {
        let ghost start = *self;
        let ghost start_fn = |k: u64| start.burst(k);
        let ghost cfg = start.spec_config().decode;
        let ghost mut seen: Seq<CameraFrame> = Seq::empty();
        let max_frames = self.config.max_frames;
        let mut n: usize = 0;
        while n < max_frames
            invariant
                self.well_formed(),
                self.spec_config() == start.spec_config(),
                start.spec_config() == old(self).spec_config(),
                start == *old(self),
                start_fn == (|k: u64| start.burst(k)),
                cfg == start.spec_config().decode,
                max_frames == self.spec_config().max_frames,
                self.spec_config().decode.quiet_zone_modules <= 0x7fff_ffff,
                n <= max_frames,
                seen.len() == n,
                run_frames(start_fn, cfg, seen).1 == Ok::<Option<Seq<u8>>, ScannerError>(None),
                forall|k: u64| self.burst(k) == (run_frames(start_fn, cfg, seen).0)(k),
            decreases max_frames - n,
        {
            let frame = match source.next_frame() {
                Some(f) => f,
                None => {
                    assert(scanned_frames(start, *self, seen, Ok(None)));
                    return Ok(None);
                },
            };
            proof {
                use_type_invariant(&frame.image);
            }
            let ghost pre = *self;
            let ghost next = seen.push(frame);
            proof {
                assert(next.drop_last() =~= seen);
                assert(run_frames(start_fn, cfg, seen).0 =~= (|k: u64| pre.burst(k)));
                assert(run_frames(start_fn, cfg, next) == frame_step(
                    |k: u64| pre.burst(k),
                    cfg,
                    frame,
                ));
            }
            let event = match self.scan_frame(frame) {
                Ok(e) => e,
                Err(e) => {
                    let r = Err(e);
                    proof {
                        assert(scanned_frames(start, *self, next, r));
                    }
                    return r;
                },
            };
            proof {
                seen = next;
            }
            if let Some(payload) = event.complete_payload {
                let r = Ok(Some(payload));
                assert(scanned_frames(start, *self, seen, r));
                return r;
            }
            n = n + 1;
        }
        assert(scanned_frames(start, *self, seen, Ok(None)));
        Ok(None)
    }
}

impl Default for Scanner {
    fn default() -> (r: Self)
        ensures
            r.well_formed(),
            r.spec_config().mode == TransmissionMode::Print,
            r.spec_config().max_frames == 120,
            r.spec_config().decode.module_px == 8,
            r.spec_config().decode.quiet_zone_modules == 4,
            r.spec_config().decode.threshold == 192,
            forall|id: u64| r.burst(id) is None,
    {
        Scanner::new(ScannerConfig::default())
    }
}

/// `r` and the new scanner state are what scanning a frame that decoded to `f` at
/// time `ts` gives.
pub open spec fn scanned(
    before: Scanner,
    after: Scanner,
    f: (FrameHeader, Seq<u8>),
    ts: u64,
    r: Result<ScanEvent, ScannerError>,
) -> bool {
    if f.0.frame_count == 1 {
        &&& r matches Ok(ev) && ev.frame@ == f && ev.timestamp_micros == ts
        &&& r matches Ok(ev) && (ev.complete_payload matches Some(p) && p@ == f.1)
        &&& forall|k: u64| after.burst(k) == before.burst(k)
    } else {
        match burst_step(before.burst(f.0.stream_id), f) {
            None => (r matches Err(ScannerError::InconsistentBurst(id)) && id == f.0.stream_id)
                && forall|k: u64| after.burst(k) == before.burst(k),
            Some((count, e)) => {
                &&& after.burst(f.0.stream_id) == Some((count, e))
                &&& forall|k: u64| k != f.0.stream_id ==> after.burst(k) == before.burst(k)
                &&& r matches Ok(ev) && ev.frame@ == f && ev.timestamp_micros == ts
                &&& e.len() == count ==> (r matches Ok(ev) && (ev.complete_payload matches Some(p)
                    && p@ == assembled(e, count as nat)))
                &&& e.len() != count ==> (r matches Ok(ev) && ev.complete_payload is None)
            },
        }
    }
}

proof fn lemma_burst_prefix(s: Seq<(u64, BurstState)>, e: (u64, BurstState), id: u64, n: int)
    requires
        0 <= n <= s.len(),
    ensures
        burst_in(s.push(e), id, n) == burst_in(s, id, n),
    decreases n,
{
    if n > 0 {
        lemma_burst_prefix(s, e, id, n - 1);
    }
}

proof fn lemma_burst_push(s: Seq<(u64, BurstState)>, id: u64, st: BurstState)
    requires
        burst_in(s, id, s.len() as int) is None,
    ensures
        forall|k: u64|
            burst_in(s.push((id, st)), k, s.len() as int + 1) == if k == id {
                Some(st)
            } else {
                burst_in(s, k, s.len() as int)
            },
{
    assert forall|k: u64|
        burst_in(s.push((id, st)), k, s.len() as int + 1) == if k == id {
            Some(st)
        } else {
            burst_in(s, k, s.len() as int)
        } by {
        lemma_burst_prefix(s, (id, st), k, s.len() as int);
    }
}

proof fn lemma_burst_update_in(s: Seq<(u64, BurstState)>, i: int, st: BurstState, k: u64, n: int)
    requires
        0 <= i < s.len(),
        0 <= n <= s.len(),
        forall|j: int| i < j < s.len() ==> (#[trigger] s[j]).0 != s[i].0,
    ensures
        burst_in(s.update(i, (s[i].0, st)), k, n) == if n > i && k == s[i].0 {
            Some(st)
        } else {
            burst_in(s, k, n)
        },
    decreases n,
{
    if n > 0 {
        lemma_burst_update_in(s, i, st, k, n - 1);
    }
}

proof fn lemma_burst_update(s: Seq<(u64, BurstState)>, i: int, st: BurstState)
    requires
        0 <= i < s.len(),
        forall|j: int| i < j < s.len() ==> (#[trigger] s[j]).0 != s[i].0,
    ensures
        forall|k: u64|
            burst_in(s.update(i, (s[i].0, st)), k, s.len() as int) == if k == s[i].0 {
                Some(st)
            } else {
                burst_in(s, k, s.len() as int)
            },
{
    assert forall|k: u64|
        burst_in(s.update(i, (s[i].0, st)), k, s.len() as int) == if k == s[i].0 {
            Some(st)
        } else {
            burst_in(s, k, s.len() as int)
        } by {
        lemma_burst_update_in(s, i, st, k, s.len() as int);
    }
}

} // verus!
