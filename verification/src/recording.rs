//! Screen recording: which video packets go into the file, and when they show.
//!
//! A recorder is fed the packets of a scrcpy H.264 stream. It remembers the
//! stream's config packets (SPS/PPS), asks for the file to be opened on the
//! first keyframe whose size and config are known (an MP4 must begin on one),
//! puts the config in front of keyframes, lets timestamps start at zero and
//! keeps them strictly increasing, nudging duplicates and regressions by one
//! microsecond rather than dropping them.
//!
//! The file itself is the caller's: the recorder says when to open it and what
//! to write, and is told what came of it.
//!
//! A rotation of the screen mid-recording is not handled: frames keep going
//! into the file that was opened at the original size.
use vstd::prelude::*;

verus! {

/// One video frame to be written to the file.
pub struct Sample {
    /// When the frame shows, in microseconds since the start of the recording.
    pub pts_us: u128,
    /// The frame in Annex-B form, keyframes with the config in front.
    pub data: Vec<u8>,
    pub is_key: bool,
}

/// What to do with a packet that was fed.
pub enum FeedAction {
    /// Nothing.
    Skip,
    /// Open the file at this size. If that succeeds, go on with
    /// [`Recorder::muxer_opened`]; if it fails, drop the packet.
    Open { width: u32, height: u32 },
    /// Write the frame. If that succeeds, say so with [`Recorder::written`].
    Write(Sample),
}

/// A single recording in progress.
pub struct Recorder {
    pub task_id: String,
    path: String,
    open: bool,
    last_config: Option<Vec<u8>>,
    base_pts_us: Option<u64>,
    last_pts_us: Option<u128>,
    offered_pts_us: Option<u128>,
    frames: u64,
}

// ---------------------------------------------------------------------------
// Model
// ---------------------------------------------------------------------------

/// What a recorder knows.
pub struct Recording {
    /// Whether the file has been opened.
    pub open: bool,
    /// The stream's SPS/PPS.
    pub config: Option<Seq<u8>>,
    /// The stream time at which the recording started.
    pub base: Option<u64>,
    /// The timestamp of the last frame written.
    pub last: Option<nat>,
    /// The timestamp of the frame that was last handed out, until the next packet.
    pub offered: Option<nat>,
    /// The number of frames written.
    pub frames: nat,
}

/// One parsed packet of the stream, with what the receiver knows besides.
pub struct Packet {
    pub is_config: bool,
    pub is_key: bool,
    pub pts_us: u64,
    pub width: u32,
    pub height: u32,
    pub nal: Seq<u8>,
    /// The SPS/PPS that the receiver has seen last, if any.
    pub loop_config: Option<Seq<u8>>,
}

/// A [`Sample`] in terms of sequences.
pub struct Frame {
    pub pts_us: nat,
    pub data: Seq<u8>,
    pub is_key: bool,
}

/// A [`FeedAction`] in terms of sequences.
pub enum FeedDoing {
    Skip,
    Open { width: u32, height: u32 },
    Write(Frame),
}

impl Sample {
    /// The frame in terms of sequences.
    pub open spec fn frame(self) -> Frame {
        Frame { pts_us: self.pts_us as nat, data: self.data@, is_key: self.is_key }
    }
}

impl FeedAction {
    /// The action in terms of sequences.
    pub open spec fn doing(self) -> FeedDoing {
        match self {
            FeedAction::Skip => FeedDoing::Skip,
            FeedAction::Open { width, height } => FeedDoing::Open { width, height },
            FeedAction::Write(sample) => FeedDoing::Write(sample.frame()),
        }
    }
}

/// A recorder that has not been fed anything.
pub open spec fn fresh() -> Recording {
    Recording { open: false, config: None, base: None, last: None, offered: None, frames: 0 }
}

impl Recording {
    /// What always holds of a recorder.
    pub open spec fn well_formed(self) -> bool {
        &&& self.open ==> self.config is Some
        &&& !self.open ==> self.base is None && self.offered is None && self.frames == 0
        &&& self.last is None <==> self.frames == 0
        &&& self.last is Some ==> self.base is Some && self.last->0 <= u64::MAX + self.frames
        &&& self.offered is Some ==> {
            &&& self.base is Some
            &&& self.offered->0 <= u64::MAX + self.frames + 1
            &&& self.last is Some ==> self.offered->0 > self.last->0
        }
    }

    /// The recorder with the config that applies to an ordinary packet: its own,
    /// else the one that the receiver knows.
    pub open spec fn adopting(self, loop_config: Option<Seq<u8>>) -> Recording {
        Recording {
            config: if self.config is Some {
                self.config
            } else {
                loop_config
            },
            offered: None,
            ..self
        }
    }

    /// The timestamp for a frame that arrived at `pts_us`.
    pub open spec fn timestamp(self, pts_us: u64) -> nat {
        let base = match self.base {
            Some(b) => b,
            None => pts_us,
        };
        let since: nat = if pts_us >= base {
            (pts_us - base) as nat
        } else {
            0
        };
        match self.last {
            Some(last) => if since <= last {
                last + 1
            } else {
                since
            },
            None => since,
        }
    }

    /// The bytes to write for a frame.
    pub open spec fn data(self, is_key: bool, nal: Seq<u8>) -> Seq<u8> {
        if is_key && self.config is Some {
            self.config->0 + nal
        } else {
            nal
        }
    }

    /// Hands a frame out to be written.
    pub open spec fn offering(self, is_key: bool, pts_us: u64, nal: Seq<u8>) -> (Recording, Frame) {
        let pts = self.timestamp(pts_us);
        (
            Recording {
                base: if self.base is Some {
                    self.base
                } else {
                    Some(pts_us)
                },
                offered: Some(pts),
                ..self
            },
            Frame { pts_us: pts, data: self.data(is_key, nal), is_key },
        )
    }

    /// Takes a packet.
    pub open spec fn fed(self, p: Packet) -> (Recording, FeedDoing) {
        let s = self.adopting(p.loop_config);
        if p.is_config {
            (Recording { config: Some(p.nal), offered: None, ..self }, FeedDoing::Skip)
        } else if s.open {
            let (after, frame) = s.offering(p.is_key, p.pts_us, p.nal);
            (after, FeedDoing::Write(frame))
        } else if p.is_key && p.width != 0 && p.height != 0 && s.config is Some {
            (s, FeedDoing::Open { width: p.width, height: p.height })
        } else {
            (s, FeedDoing::Skip)
        }
    }

    /// Has the file open, and hands out the keyframe that it was opened for.
    pub open spec fn opened(self, pts_us: u64, nal: Seq<u8>) -> (Recording, Frame) {
        (Recording { open: true, ..self }).offering(true, pts_us, nal)
    }

    /// Has the frame that was handed out written.
    pub open spec fn having_written(self) -> Recording {
        Recording { last: self.offered, offered: None, frames: self.frames + 1, ..self }
    }
}

impl View for Recorder {
    type V = Recording;

    closed spec fn view(&self) -> Recording {
        Recording {
            open: self.open,
            config: match self.last_config {
                Some(c) => Some(c@),
                None => None,
            },
            base: self.base_pts_us,
            last: match self.last_pts_us {
                Some(p) => Some(p as nat),
                None => None,
            },
            offered: match self.offered_pts_us {
                Some(p) => Some(p as nat),
                None => None,
            },
            frames: self.frames as nat,
        }
    }
}

// ---------------------------------------------------------------------------
// Execution
// ---------------------------------------------------------------------------

fn bytes_of(s: &[u8]) -> (r: Vec<u8>)
    ensures
        r@ == s@,
{
    let mut out: Vec<u8> = Vec::new();
    out.extend_from_slice(s);
    proof {
        assert(out@ =~= s@);
    }
    out
}

impl Recorder {
    /// Where the file goes.
    pub closed spec fn path_text(self) -> Seq<char> {
        self.path@
    }

    /// The task that the recording belongs to.
    pub closed spec fn task_text(self) -> Seq<char> {
        self.task_id@
    }

    /// A recording of `task_id` into the file at `path`.
    pub fn new(path: String, task_id: String) -> (r: Self)
        ensures
            r@ == fresh(),
            r@.well_formed(),
            r.path_text() == path@,
            r.task_text() == task_id@,
    {
        Recorder {
            task_id,
            path,
            open: false,
            last_config: None,
            base_pts_us: None,
            last_pts_us: None,
            offered_pts_us: None,
            frames: 0,
        }
    }

    /// Where the file goes.
    pub fn path(&self) -> (r: &str)
        ensures
            r@ == self.path_text(),
    {
        self.path.as_str()
    }

    /// The number of frames written.
    pub fn frames(&self) -> (r: u64)
        ensures
            r == self@.frames,
    {
        self.frames
    }

    fn offer(&mut self, is_key: bool, pts_us: u64, nal: &[u8]) -> (r: Sample)
        requires
            old(self)@.open,
            old(self)@.well_formed(),
        ensures
            final(self)@.well_formed(),
            (final(self)@, r.frame()) == old(self)@.offering(is_key, pts_us, nal@),
            final(self).path_text() == old(self).path_text(),
            final(self).task_text() == old(self).task_text(),
    {
        let data: Vec<u8> = if is_key {
            match &self.last_config {
                Some(cfg) => {
                    let mut v = bytes_of(cfg.as_slice());
                    v.extend_from_slice(nal);
                    proof {
                        assert(v@ =~= cfg@ + nal@);
                    }
                    v
                },
                None => bytes_of(nal),
            }
        } else {
            bytes_of(nal)
        };
        let base: u64 = match self.base_pts_us {
            Some(b) => b,
            None => pts_us,
        };
        self.base_pts_us = Some(base);
        let since: u128 = pts_us.saturating_sub(base) as u128;
        let pts: u128 = match self.last_pts_us {
            Some(last) => if since <= last {
                last + 1
            } else {
                since
            },
            None => since,
        };
        self.offered_pts_us = Some(pts);
        Sample { pts_us: pts, data, is_key }
    }

    /// Feeds one parsed scrcpy packet. `nal` is Annex-B, `pts_us` microseconds.
    /// `loop_config` is the stream's current SPS/PPS, so that a recorder
    /// registered mid-stream still gets a config that it never saw arrive.
    pub fn feed(
        &mut self,
        is_config: bool,
        is_key: bool,
        pts_us: u64,
        width: u32,
        height: u32,
        nal: &[u8],
        loop_config: Option<&[u8]>,
    ) -> (r: FeedAction)
        requires
            old(self)@.well_formed(),
        ensures
            final(self)@.well_formed(),
            (final(self)@, r.doing()) == old(self)@.fed(
                Packet {
                    is_config,
                    is_key,
                    pts_us,
                    width,
                    height,
                    nal: nal@,
                    loop_config: match loop_config {
                        Some(c) => Some(c@),
                        None => None,
                    },
                },
            ),
            final(self).path_text() == old(self).path_text(),
            final(self).task_text() == old(self).task_text(),
    {
        self.offered_pts_us = None;
        if is_config {
            self.last_config = Some(bytes_of(nal));
            return FeedAction::Skip;
        }
        if self.last_config.is_none() {
            if let Some(cfg) = loop_config {
                self.last_config = Some(bytes_of(cfg));
            }
        }
        if !self.open {
            if !is_key || width == 0 || height == 0 || self.last_config.is_none() {
                return FeedAction::Skip;
            }
            return FeedAction::Open { width, height };
        }
        let sample = self.offer(is_key, pts_us, nal);
        FeedAction::Write(sample)
    }

    /// The file was opened for the keyframe `nal` of time `pts_us`: returns it as
    /// the first frame to write.
    pub fn muxer_opened(&mut self, pts_us: u64, nal: &[u8]) -> (r: Sample)
        requires
            old(self)@.well_formed(),
            !old(self)@.open,
            old(self)@.config is Some,
        ensures
            final(self)@.well_formed(),
            (final(self)@, r.frame()) == old(self)@.opened(pts_us, nal@),
            final(self).path_text() == old(self).path_text(),
            final(self).task_text() == old(self).task_text(),
    {
        self.open = true;
        self.offer(true, pts_us, nal)
    }

    /// The frame that was handed out last has been written.
    pub fn written(&mut self)
        requires
            old(self)@.well_formed(),
            old(self)@.offered is Some,
            old(self)@.frames < u64::MAX,
        ensures
            final(self)@.well_formed(),
            final(self)@ == old(self)@.having_written(),
            final(self).path_text() == old(self).path_text(),
            final(self).task_text() == old(self).task_text(),
    {
        self.last_pts_us = self.offered_pts_us;
        self.offered_pts_us = None;
        self.frames = self.frames + 1;
    }

    /// Ends the recording. `closed` says how closing the file went, if it was
    /// ever opened. Returns the path and the number of frames written.
    pub fn finish(self, closed: Result<(), String>) -> (r: Result<(String, u64), String>)
        ensures
            match closed {
                Err(e) if self@.open => r == Err::<(String, u64), String>(e),
                _ => r is Ok && r->Ok_0.0@ == self.path_text() && r->Ok_0.1 == self@.frames,
            },
    {
        if self.open {
            if let Err(e) = closed {
                return Err(e);
            }
        }
        Ok((self.path, self.frames))
    }
}

// ---------------------------------------------------------------------------
// Laws
// ---------------------------------------------------------------------------

/// A packet, and whether opening the file and writing the frame succeed if it
/// comes to that.
pub struct Arrival {
    pub packet: Packet,
    pub opens: bool,
    pub writes: bool,
}

impl Recording {
    /// What becomes of one arrival: the recorder afterwards, and the frame that
    /// was handed out to be written, if any.
    pub open spec fn receiving(self, a: Arrival) -> (Recording, Option<Frame>) {
        let (s, doing) = self.fed(a.packet);
        match doing {
            FeedDoing::Skip => (s, None),
            FeedDoing::Open { .. } => if a.opens {
                let (o, frame) = s.opened(a.packet.pts_us, a.packet.nal);
                (
                    if a.writes {
                        o.having_written()
                    } else {
                        o
                    },
                    Some(frame),
                )
            } else {
                (s, None)
            },
            FeedDoing::Write(frame) => (
                if a.writes {
                    s.having_written()
                } else {
                    s
                },
                Some(frame),
            ),
        }
    }
}

/// The recorder after a series of arrivals.
pub open spec fn after_all(arrivals: Seq<Arrival>) -> Recording
    decreases arrivals.len(),
{
    if arrivals.len() == 0 {
        fresh()
    } else {
        after_all(arrivals.drop_last()).receiving(arrivals.last()).0
    }
}

/// The frames that a series of arrivals puts into the file.
pub open spec fn frames_written(arrivals: Seq<Arrival>) -> Seq<Frame>
    decreases arrivals.len(),
{
    if arrivals.len() == 0 {
        Seq::empty()
    } else {
        let before = frames_written(arrivals.drop_last());
        match after_all(arrivals.drop_last()).receiving(arrivals.last()).1 {
            Some(frame) if arrivals.last().writes => before.push(frame),
            _ => before,
        }
    }
}

/// Timestamps in the file strictly increase, whatever the stream does, and the
/// frame count is the number of frames in the file.
pub proof fn law_timestamps_strictly_increase(arrivals: Seq<Arrival>)
    ensures
        after_all(arrivals).well_formed(),
        after_all(arrivals).frames == frames_written(arrivals).len(),
        forall|i: int, j: int|
            0 <= i < j < frames_written(arrivals).len() ==> (#[trigger] frames_written(
                arrivals,
            )[i]).pts_us < (#[trigger] frames_written(arrivals)[j]).pts_us,
{
    lemma_written(arrivals);
}

proof fn lemma_written(arrivals: Seq<Arrival>)
    ensures
        after_all(arrivals).well_formed(),
        after_all(arrivals).frames == frames_written(arrivals).len(),
        frames_written(arrivals).len() > 0 ==> after_all(arrivals).last == Some(
            frames_written(arrivals).last().pts_us,
        ),
        forall|i: int, j: int|
            0 <= i < j < frames_written(arrivals).len() ==> (#[trigger] frames_written(
                arrivals,
            )[i]).pts_us < (#[trigger] frames_written(arrivals)[j]).pts_us,
    decreases arrivals.len(),
{
    if arrivals.len() > 0 {
        let init = arrivals.drop_last();
        lemma_written(init);
        let before = frames_written(init);
        let now = frames_written(arrivals);
        if now.len() > before.len() {
            assert forall|i: int, j: int| 0 <= i < j < now.len() implies (
            #[trigger] now[i]).pts_us < (#[trigger] now[j]).pts_us by {
                assert(now[i] == before[i]);
                if j < before.len() {
                    assert(now[j] == before[j]);
                } else if i < before.len() - 1 {
                    assert(before[i].pts_us < before[before.len() - 1].pts_us);
                }
            }
        } else {
            assert(now == before);
        }
    }
}

/// The frames that a series of arrivals hands out, whether or not they could be
/// written.
pub open spec fn frames_offered(arrivals: Seq<Arrival>) -> Seq<Frame>
    decreases arrivals.len(),
{
    if arrivals.len() == 0 {
        Seq::empty()
    } else {
        match after_all(arrivals.drop_last()).receiving(arrivals.last()).1 {
            Some(frame) => frames_offered(arrivals.drop_last()).push(frame),
            None => frames_offered(arrivals.drop_last()),
        }
    }
}

/// Whether `frame` is the keyframe that arrived as number `k`, with known sizes,
/// behind the config that was known then.
pub open spec fn opens_with(arrivals: Seq<Arrival>, k: int, frame: Frame) -> bool {
    let p = arrivals[k].packet;
    let config = after_all(arrivals.take(k)).adopting(p.loop_config).config;
    &&& 0 <= k < arrivals.len()
    &&& p.is_key && !p.is_config && p.width != 0 && p.height != 0
    &&& arrivals[k].opens
    &&& config is Some
    &&& frame.is_key && frame.pts_us == 0 && frame.data == config->0 + p.nal
}

/// The file begins on a keyframe: the first frame ever handed out is one, with
/// known sizes, shows at time zero and has the config in front.
pub proof fn law_begins_on_a_keyframe(arrivals: Seq<Arrival>)
    requires
        frames_offered(arrivals).len() > 0,
    ensures
        exists|k: int| #[trigger] opens_with(arrivals, k, frames_offered(arrivals)[0]),
{
    let k = lemma_first_offer(arrivals);
    assert(opens_with(arrivals, k, frames_offered(arrivals)[0]));
}

proof fn lemma_offered(arrivals: Seq<Arrival>)
    ensures
        after_all(arrivals).well_formed(),
        after_all(arrivals).open <==> frames_offered(arrivals).len() > 0,
    decreases arrivals.len(),
{
    if arrivals.len() > 0 {
        lemma_offered(arrivals.drop_last());
        lemma_written(arrivals);
    }
}

/// The arrival that brought the first frame.
proof fn lemma_first_offer(arrivals: Seq<Arrival>) -> (k: int)
    requires
        frames_offered(arrivals).len() > 0,
    ensures
        0 <= k < arrivals.len(),
        !after_all(arrivals.take(k)).open,
        after_all(arrivals.take(k)).well_formed(),
        after_all(arrivals.take(k)).receiving(arrivals[k]).1 == Some(frames_offered(arrivals)[0]),
    decreases arrivals.len(),
{
    let init = arrivals.drop_last();
    lemma_offered(init);
    if frames_offered(init).len() > 0 {
        let k = lemma_first_offer(init);
        assert(init.take(k) =~= arrivals.take(k));
        k
    } else {
        let k = arrivals.len() - 1;
        assert(arrivals.take(k) =~= init);
        k
    }
}

/// Every keyframe handed out carries a config in front of the packet's bytes,
/// every other frame is the packet's bytes alone, and config packets are never
/// written as frames.
pub proof fn law_keyframes_carry_the_config(arrivals: Seq<Arrival>, a: Arrival)
    requires
        after_all(arrivals).receiving(a).1 is Some,
    ensures
        ({
            let frame = after_all(arrivals).receiving(a).1->0;
            let config = after_all(arrivals).adopting(a.packet.loop_config).config;
            &&& !a.packet.is_config
            &&& frame.is_key == a.packet.is_key
            &&& config is Some
            &&& frame.is_key ==> frame.data == config->0 + a.packet.nal
            &&& !frame.is_key ==> frame.data == a.packet.nal
        }),
{
    lemma_written(arrivals);
}

/// Whether the frames of a stream come in strictly increasing time.
pub open spec fn orderly(arrivals: Seq<Arrival>) -> bool {
    forall|i: int, j: int|
        0 <= i < j < arrivals.len() && !(#[trigger] arrivals[i]).packet.is_config && !(
        #[trigger] arrivals[j]).packet.is_config ==> arrivals[i].packet.pts_us
            < arrivals[j].packet.pts_us
}

/// The arrival, not a config packet, that had this stream time.
spec fn seen(arrivals: Seq<Arrival>, k: int, pts_us: int) -> bool {
    &&& 0 <= k < arrivals.len()
    &&& !arrivals[k].packet.is_config
    &&& arrivals[k].packet.pts_us == pts_us
}

/// In an orderly stream, the time at which the recording started and that of the
/// last frame written are times of frames that have arrived.
proof fn lemma_orderly(arrivals: Seq<Arrival>)
    requires
        orderly(arrivals),
    ensures
        after_all(arrivals).well_formed(),
        after_all(arrivals).base is Some ==> exists|k: int| #[trigger]
            seen(arrivals, k, after_all(arrivals).base->0 as int),
        after_all(arrivals).last is Some ==> exists|k: int| #[trigger]
            seen(arrivals, k, after_all(arrivals).base->0 + after_all(arrivals).last->0),
    decreases arrivals.len(),
{
    lemma_written(arrivals);
    if arrivals.len() > 0 {
        let init = arrivals.drop_last();
        let n = arrivals.len() - 1;
        let a = arrivals.last();
        let before = after_all(init);
        let after = after_all(arrivals);
        assert forall|i: int, j: int|
            0 <= i < j < init.len() && !(#[trigger] init[i]).packet.is_config && !(
            #[trigger] init[j]).packet.is_config implies init[i].packet.pts_us
            < init[j].packet.pts_us by {
            assert(arrivals[i].packet.pts_us < arrivals[j].packet.pts_us);
        }
        lemma_orderly(init);
        if before.base is Some {
            let k = choose|k: int| #[trigger] seen(init, k, before.base->0 as int);
            assert(seen(arrivals, k, before.base->0 as int));
        } else if after.base is Some {
            assert(seen(arrivals, n, after.base->0 as int));
        }
        if before.last is Some {
            let k = choose|k: int| #[trigger] seen(init, k, before.base->0 + before.last->0);
            assert(seen(arrivals, k, before.base->0 + before.last->0));
        }
        if before.receiving(a).1 is Some {
            assert(init.push(a) =~= arrivals);
            lemma_spacing(init, a);
            assert(seen(arrivals, n, a.packet.pts_us as int));
            if a.writes {
                assert(after.last == Some(before.receiving(a).1->0.pts_us));
                assert(after.base->0 + after.last->0 == a.packet.pts_us as int);
            }
        }
    }
}

proof fn lemma_spacing(arrivals: Seq<Arrival>, a: Arrival)
    requires
        orderly(arrivals.push(a)),
        after_all(arrivals).well_formed(),
        after_all(arrivals).base is Some ==> exists|k: int| #[trigger]
            seen(arrivals, k, after_all(arrivals).base->0 as int),
        after_all(arrivals).last is Some ==> exists|k: int| #[trigger]
            seen(arrivals, k, after_all(arrivals).base->0 + after_all(arrivals).last->0),
        after_all(arrivals).receiving(a).1 is Some,
    ensures
        after_all(arrivals).receiving(a).0.base is Some,
        after_all(arrivals).receiving(a).1->0.pts_us == a.packet.pts_us - after_all(
            arrivals,
        ).receiving(a).0.base->0,
{
    let s = after_all(arrivals);
    let all = arrivals.push(a);
    assert(all[arrivals.len() as int] == a);
    if s.base is Some {
        let k = choose|k: int| #[trigger] seen(arrivals, k, s.base->0 as int);
        assert(all[k] == arrivals[k]);
    }
    if s.last is Some {
        let k = choose|k: int| #[trigger] seen(arrivals, k, s.base->0 + s.last->0);
        assert(all[k] == arrivals[k]);
    }
}

/// A stream whose frames come in strictly increasing time keeps its spacing: each
/// frame shows exactly as long after the start of the recording as it arrived
/// after it, and that start, once there, never changes.
pub proof fn law_good_timestamps_are_kept(arrivals: Seq<Arrival>, a: Arrival)
    requires
        orderly(arrivals.push(a)),
        after_all(arrivals).receiving(a).1 is Some,
    ensures
        ({
            let (after, frame) = after_all(arrivals).receiving(a);
            &&& after.base is Some
            &&& frame->0.pts_us == a.packet.pts_us - after.base->0
            &&& after_all(arrivals).base is Some ==> after.base == after_all(arrivals).base
        }),
{
    let all = arrivals.push(a);
    assert forall|i: int, j: int|
        0 <= i < j < arrivals.len() && !(#[trigger] arrivals[i]).packet.is_config && !(
        #[trigger] arrivals[j]).packet.is_config implies arrivals[i].packet.pts_us
        < arrivals[j].packet.pts_us by {
        assert(all[i].packet.pts_us < all[j].packet.pts_us);
    }
    lemma_orderly(arrivals);
    lemma_spacing(arrivals, a);
}

/// Once the file is open, every packet that is not a config packet is handed out to
/// be written, whatever it holds and however long it is: a keyframe behind the
/// config, any other frame as it came.
pub proof fn law_every_frame_is_recorded(arrivals: Seq<Arrival>, a: Arrival)
    requires
        after_all(arrivals).open,
        !a.packet.is_config,
    ensures
        after_all(arrivals).receiving(a).1 is Some,
        after_all(arrivals).receiving(a).1->0.is_key == a.packet.is_key,
        !a.packet.is_key ==> after_all(arrivals).receiving(a).1->0.data == a.packet.nal,
        a.packet.is_key ==> after_all(arrivals).config is Some && after_all(arrivals).receiving(
            a,
        ).1->0.data == after_all(arrivals).config->0 + a.packet.nal,
        after_all(arrivals).receiving(a).0.open,
        a.writes ==> after_all(arrivals).receiving(a).0.frames == after_all(arrivals).frames + 1,
{
    lemma_written(arrivals);
}

/// A keyframe of known size whose config is known opens a file that is not open
/// yet, at its size, and is the first frame in it.
pub proof fn law_the_first_good_keyframe_opens_the_file(arrivals: Seq<Arrival>, a: Arrival)
    requires
        !after_all(arrivals).open,
        !a.packet.is_config,
        a.packet.is_key,
        a.packet.width > 0,
        a.packet.height > 0,
        after_all(arrivals).config is Some || a.packet.loop_config is Some,
    ensures
        after_all(arrivals).fed(a.packet).1 == (FeedDoing::Open {
            width: a.packet.width,
            height: a.packet.height,
        }),
        a.opens ==> after_all(arrivals).receiving(a).1 is Some && after_all(arrivals).receiving(
            a,
        ).0.open,
        a.opens ==> after_all(arrivals).receiving(a).1->0.is_key && after_all(arrivals).receiving(
            a,
        ).1->0.pts_us == 0,
        a.opens ==> after_all(arrivals).receiving(a).1->0.data == (if after_all(
            arrivals,
        ).config is Some {
            after_all(arrivals).config->0
        } else {
            a.packet.loop_config->0
        }) + a.packet.nal,
        a.opens ==> after_all(arrivals).receiving(a).0.base == Some(a.packet.pts_us),
        !a.opens ==> !after_all(arrivals).receiving(a).0.open && after_all(arrivals).receiving(
            a,
        ).1 is None,
{
    lemma_written(arrivals);
}

/// Nothing else opens the file, and nothing is handed out while it is not open.
pub proof fn law_nothing_else_opens_the_file(arrivals: Seq<Arrival>, a: Arrival)
    requires
        !after_all(arrivals).open,
        a.packet.is_config || !a.packet.is_key || a.packet.width == 0 || a.packet.height == 0 || (
        after_all(arrivals).config is None && a.packet.loop_config is None),
    ensures
        after_all(arrivals).fed(a.packet).1 == FeedDoing::Skip,
        after_all(arrivals).receiving(a).1 is None,
        !after_all(arrivals).receiving(a).0.open,
        after_all(arrivals).receiving(a).0.frames == 0,
{
    lemma_written(arrivals);
}

/// The config in use is that of the last config packet; before the first one it is
/// what the receiver knew when it was first asked; and it is never forgotten.
pub proof fn law_the_latest_config_is_used(arrivals: Seq<Arrival>, a: Arrival)
    ensures
        a.packet.is_config ==> after_all(arrivals).receiving(a).0.config == Some(a.packet.nal)
            && after_all(arrivals).receiving(a).1 is None && after_all(arrivals).fed(a.packet).1
            == FeedDoing::Skip,
        !a.packet.is_config && after_all(arrivals).config is Some ==> after_all(arrivals).receiving(
            a,
        ).0.config == after_all(arrivals).config,
        !a.packet.is_config && after_all(arrivals).config is None ==> after_all(arrivals).receiving(
            a,
        ).0.config == a.packet.loop_config,
        after_all(Seq::empty()).config is None,
        a.packet.is_config ==> after_all(arrivals).receiving(a).0.open == after_all(arrivals).open
            && after_all(arrivals).receiving(a).0.base == after_all(arrivals).base && after_all(
            arrivals,
        ).receiving(a).0.last == after_all(arrivals).last && after_all(arrivals).receiving(
            a,
        ).0.frames == after_all(arrivals).frames,
{
}

/// When a frame shows: as long after the start of the recording as it arrived after
/// it, or at the start if it arrived before; but never at or before the last frame
/// written, which it then follows by one microsecond.
pub proof fn law_when_a_frame_shows(arrivals: Seq<Arrival>, a: Arrival, start: u64, since: nat)
    requires
        after_all(arrivals).receiving(a).1 is Some,
        after_all(arrivals).receiving(a).0.base == Some(start),
        a.packet.pts_us >= start ==> since == a.packet.pts_us - start,
        a.packet.pts_us < start ==> since == 0,
    ensures
        ({
            let shows = after_all(arrivals).receiving(a).1->0.pts_us;
            match after_all(arrivals).last {
                None => shows == since,
                Some(last) => shows > last && (since > last ==> shows == since) && (since <= last
                    ==> shows == last + 1),
            }
        }),
        after_all(arrivals).base is Some ==> start == after_all(arrivals).base->0,
        after_all(arrivals).base is None ==> start == a.packet.pts_us,
{
    lemma_written(arrivals);
}

/// A frame that was written is the last one and is counted; one that was not leaves
/// count and last frame as they were.
pub proof fn law_only_written_frames_count(arrivals: Seq<Arrival>, a: Arrival)
    ensures
        after_all(arrivals).receiving(a).1 is Some && a.writes ==> after_all(arrivals).receiving(
            a,
        ).0.last == Some(after_all(arrivals).receiving(a).1->0.pts_us) && after_all(
            arrivals,
        ).receiving(a).0.frames == after_all(arrivals).frames + 1,
        after_all(arrivals).receiving(a).1 is None || !a.writes ==> after_all(arrivals).receiving(
            a,
        ).0.last == after_all(arrivals).last && after_all(arrivals).receiving(a).0.frames
            == after_all(arrivals).frames,
        after_all(Seq::empty()).frames == 0,
        after_all(Seq::empty()).last is None,
        !after_all(Seq::empty()).open,
        after_all(Seq::empty()).base is None,
{
}

/// How many of the arrivals from number `k` on are not config packets.
pub open spec fn ordinary_from(arrivals: Seq<Arrival>, k: int) -> nat
    decreases arrivals.len() - k,
{
    if !(0 <= k < arrivals.len()) {
        0
    } else if arrivals[k].packet.is_config {
        ordinary_from(arrivals, k + 1)
    } else {
        ordinary_from(arrivals, k + 1) + 1
    }
}

proof fn lemma_ordinary_push(arrivals: Seq<Arrival>, a: Arrival, k: int)
    requires
        0 <= k <= arrivals.len(),
    ensures
        ordinary_from(arrivals.push(a), k) == ordinary_from(arrivals, k) + (if a.packet.is_config {
            0nat
        } else {
            1nat
        }),
    decreases arrivals.len() - k,
{
    let all = arrivals.push(a);
    if k < arrivals.len() {
        assert(all[k] == arrivals[k]);
        lemma_ordinary_push(arrivals, a, k + 1);
    } else {
        assert(all[k] == a);
        assert(ordinary_from(all, k + 1) == 0);
    }
}

/// No frame is dropped: from the arrival that opened the file on, there is one frame
/// for every packet that is not a config packet.
pub proof fn law_no_frame_is_dropped(arrivals: Seq<Arrival>, k: int)
    requires
        0 <= k < arrivals.len(),
        !after_all(arrivals.take(k)).open,
        after_all(arrivals.take(k + 1)).open,
    ensures
        frames_offered(arrivals).len() == ordinary_from(arrivals, k),
        after_all(arrivals).open,
    decreases arrivals.len(),
{
    let init = arrivals.drop_last();
    let a = arrivals.last();
    assert(init.push(a) =~= arrivals);
    if k == init.len() {
        assert(arrivals.take(k) =~= init);
        assert(arrivals.take(k + 1) =~= arrivals);
        lemma_offered(init);
        lemma_ordinary_push(init, a, k);
        assert(ordinary_from(init, k) == 0);
    } else {
        assert(init.take(k) =~= arrivals.take(k));
        assert(init.take(k + 1) =~= arrivals.take(k + 1));
        law_no_frame_is_dropped(init, k);
        lemma_ordinary_push(init, a, k);
        lemma_written(init);
    }
}

/// A finished recording gives its path and the number of its frames; only a file
/// that was opened can fail to close, and the failure is passed on.
pub proof fn law_finishing(
    recorder: Recorder,
    closed: Result<(), String>,
    r: Result<(String, u64), String>,
)
    requires
        call_ensures(Recorder::finish, (recorder, closed), r),
    ensures
        closed is Ok || !recorder@.open ==> r is Ok,
        r is Ok ==> r->Ok_0.0@ == recorder.path_text() && r->Ok_0.1 == recorder@.frames,
        closed is Err && recorder@.open ==> r is Err && r->Err_0@ == closed->Err_0@,
{
}

/// A new recorder knows nothing but its file and its task.
pub proof fn law_new_recorders_are_empty(path: String, task_id: String, r: Recorder)
    requires
        call_ensures(Recorder::new, (path, task_id), r),
    ensures
        r.path_text() == path@,
        r.task_text() == task_id@,
        !r@.open,
        r@.config is None,
        r@.base is None,
        r@.last is None,
        r@.offered is None,
        r@.frames == 0,
{
}

/// What an action says is what it means: the parts that the laws speak of are the parts
/// that the caller sees.
pub proof fn law_actions_mean_what_they_say(action: FeedAction)
    ensures
        action is Skip <==> action.doing() is Skip,
        action matches FeedAction::Open { width, height } ==> action.doing() == (FeedDoing::Open {
            width,
            height,
        }),
        action matches FeedAction::Write(s) ==> action.doing() == FeedDoing::Write(
            Frame { pts_us: s.pts_us as nat, data: s.data@, is_key: s.is_key },
        ),
{
}

/// What feeding a packet does is what the laws speak of, and the recording keeps its file
/// and its task.
pub proof fn law_feeding(
    recorder: &mut Recorder,
    is_config: bool,
    is_key: bool,
    pts_us: u64,
    width: u32,
    height: u32,
    nal: &[u8],
    loop_config: Option<&[u8]>,
    r: FeedAction,
)
    requires
        call_ensures(
            Recorder::feed,
            (recorder, is_config, is_key, pts_us, width, height, nal, loop_config),
            r,
        ),
    ensures
        (final(recorder)@, r.doing()) == old(recorder)@.fed(
            Packet {
                is_config,
                is_key,
                pts_us,
                width,
                height,
                nal: nal@,
                loop_config: match loop_config {
                    Some(c) => Some(c@),
                    None => None,
                },
            },
        ),
        final(recorder).path_text() == old(recorder).path_text(),
        final(recorder).task_text() == old(recorder).task_text(),
        is_config ==> r is Skip && final(recorder)@.config == Some(nal@),
        !is_config && old(recorder)@.open ==> r is Write && r->Write_0.is_key == is_key,
        !is_config && old(recorder)@.open && !is_key ==> r->Write_0.data@ == nal@,
        !is_config && old(recorder)@.open && is_key && old(recorder)@.config is Some
            ==> r->Write_0.data@ == old(recorder)@.config->0 + nal@,
        !is_config && !old(recorder)@.open && is_key && width > 0 && height > 0 && (old(
            recorder,
        )@.config is Some || loop_config is Some) ==> r == (FeedAction::Open { width, height }),
        !is_config && !old(recorder)@.open && (!is_key || width == 0 || height == 0 || (old(
            recorder,
        )@.config is None && loop_config is None)) ==> r is Skip,
        final(recorder)@.frames == old(recorder)@.frames,
        final(recorder)@.open == old(recorder)@.open,
{
}

/// What opening the file and writing a frame do is what the laws speak of.
pub proof fn law_opening_and_writing(
    opening: &mut Recorder,
    pts_us: u64,
    nal: &[u8],
    first: Sample,
    writing: &mut Recorder,
)
    requires
        call_ensures(Recorder::muxer_opened, (opening, pts_us, nal), first),
        call_ensures(Recorder::written, (writing,), ()),
    ensures
        (final(opening)@, first.frame()) == old(opening)@.opened(pts_us, nal@),
        final(opening)@.open,
        first.is_key,
        final(opening).path_text() == old(opening).path_text(),
        final(opening).task_text() == old(opening).task_text(),
        final(writing)@.frames == old(writing)@.frames + 1,
        final(writing)@.last == old(writing)@.offered,
        final(writing)@.open == old(writing)@.open,
        final(writing)@.config == old(writing)@.config,
        final(writing)@.base == old(writing)@.base,
        final(writing).path_text() == old(writing).path_text(),
        final(writing).task_text() == old(writing).task_text(),
{
}

/// A recorder tells its file and the number of frames written.
pub proof fn law_recorders_tell(recorder: &Recorder, path: &str, frames: u64)
    requires
        call_ensures(Recorder::path, (recorder,), path),
        call_ensures(Recorder::frames, (recorder,), frames),
    ensures
        path@ == recorder.path_text(),
        frames == recorder@.frames,
{
}

} // verus!
