//! The wake-word pipeline: the decisions between the microphone and the
//! three models.
//!
//! Audio arrives as blocks of 16 kHz mono samples. [`SampleChunker`] cuts it
//! into chunks of 1280 samples (80 ms). For each chunk an energy squelch decides
//! whether the models run at all; quiet chunks are kept in a short pre-roll
//! so that the quiet start of a word is not lost. While the squelch is open,
//! every chunk goes through the spectrogram model, whose frames are buffered;
//! every 8 new frames the embedding model runs over the last 76 frames, and
//! once 16 embeddings are there the classifier runs over the last 16. A
//! detection clears the buffers and starts a cooldown.
//!
//! The models themselves, the sample arithmetic and the energy measurement
//! belong to the caller: this module decides what runs on which input, and
//! what is kept.

use vstd::prelude::*;
use crate::text::text_eq;

verus! {

/// Sample rate of the audio the models take, in Hz.
pub const SAMPLE_RATE: usize = 16_000;

/// Samples per chunk (80 ms at 16 kHz).
pub const CHUNK: usize = 1280;

/// Values per spectrogram frame.
pub const MEL_BINS: usize = 32;

/// Spectrogram frames per embedding window.
pub const EMB_WINDOW: usize = 76;

/// New spectrogram frames per embedding.
pub const EMB_STEP: usize = 8;

/// Embeddings per classifier window.
pub const WW_WINDOW: usize = 16;

/// Spectrogram frames kept.
pub const MEL_KEEP: usize = 120;

/// Embeddings kept.
pub const EMB_KEEP: usize = 24;

/// Quiet chunks kept as pre-roll (about 640 ms).
pub const PREROLL_CHUNKS: usize = 8;

/// Embedding width assumed when no embedding is buffered.
pub const DEFAULT_EMBEDDING_SIZE: usize = 96;

/// How long the squelch stays open after the last loud chunk, in nanoseconds.
pub const SQUELCH_HANGOVER_NS: u64 = 1_500_000_000;

/// How long the classifier rests after a detection, in nanoseconds.
pub const COOLDOWN_NS: u64 = 2_000_000_000;

/// The last `k` elements of `s` (all of `s` if it is shorter).
pub open spec fn keep_last<A>(s: Seq<A>, k: nat) -> Seq<A> {
    if s.len() > k {
        s.subrange(s.len() - k, s.len() as int)
    } else {
        s
    }
}

/// The concatenation of the sequences in `s`, in order.
pub open spec fn flatten<A>(s: Seq<Seq<A>>) -> Seq<A>
    decreases s.len(),
{
    if s.len() == 0 {
        Seq::empty()
    } else {
        flatten(s.drop_last()) + s.last()
    }
}

/// The complete spectrogram frames of a model output: consecutive runs of
/// [`MEL_BINS`] values; a shorter rest is dropped.
pub open spec fn mel_frames_of<T>(data: Seq<T>) -> Seq<Seq<T>> {
    Seq::new(data.len() / 32, |i: int| data.subrange(32 * i, 32 * i + 32))
}

/// Abstract state of a [`WakeWordPipeline`].
pub struct PipelineView<T> {
    /// Quiet chunks kept for the next opening of the squelch, oldest first.
    pub preroll: Seq<Seq<T>>,
    /// Buffered spectrogram frames, oldest first.
    pub mel_frames: Seq<Seq<T>>,
    /// Buffered embeddings, oldest first.
    pub embeddings: Seq<Seq<T>>,
    /// Spectrogram frames not yet covered by an embedding step.
    pub new_mel_frames: nat,
    /// Time of the last loud chunk, if there was one.
    pub last_voice: Option<nat>,
    /// Whether the squelch was open for the previous chunk.
    pub was_active: bool,
    /// The classifier does not run before this time.
    pub cooldown_until: nat,
}

/// Whether the squelch is open at `now`, given the time of the last loud chunk.
pub open spec fn squelch_open(last_voice: Option<nat>, now: nat) -> bool {
    match last_voice {
        Some(t) => (if now >= t {
            now - t
        } else {
            0
        }) < SQUELCH_HANGOVER_NS,
        None => false,
    }
}

impl<T> PipelineView<T> {
    /// The state before the first chunk.
    pub open spec fn initial() -> PipelineView<T> {
        PipelineView {
            preroll: Seq::empty(),
            mel_frames: Seq::empty(),
            embeddings: Seq::empty(),
            new_mel_frames: 0,
            last_voice: None,
            was_active: false,
            cooldown_until: 0,
        }
    }

    /// The bounds that every reachable state keeps.
    pub open spec fn bounded(self) -> bool {
        &&& self.preroll.len() <= PREROLL_CHUNKS
        &&& self.mel_frames.len() <= MEL_KEEP
        &&& self.embeddings.len() <= EMB_KEEP
    }

    /// The energy squelch for one chunk at time `now`: the new state, and the
    /// chunks that go through the spectrogram model (none when the squelch is
    /// closed).
    pub open spec fn squelch(self, chunk: Seq<T>, now: nat, loud: bool) -> (
        PipelineView<T>,
        Option<Seq<Seq<T>>>,
    ) {
        let voice = if loud {
            Some(now)
        } else {
            self.last_voice
        };
        if !squelch_open(voice, now) {
            let preroll = keep_last(self.preroll.push(chunk), PREROLL_CHUNKS as nat);
            if self.was_active {
                (
                    PipelineView {
                        preroll,
                        mel_frames: Seq::empty(),
                        embeddings: Seq::empty(),
                        new_mel_frames: 0,
                        last_voice: voice,
                        was_active: false,
                        ..self
                    },
                    None,
                )
            } else {
                (PipelineView { preroll, last_voice: voice, ..self }, None)
            }
        } else if !self.was_active {
            (
                PipelineView {
                    preroll: Seq::empty(),
                    last_voice: voice,
                    was_active: true,
                    ..self
                },
                Some(self.preroll.push(chunk)),
            )
        } else {
            (PipelineView { last_voice: voice, ..self }, Some(seq![chunk]))
        }
    }

    /// Buffering the frames of one spectrogram model output.
    pub open spec fn add_mel_output(self, data: Seq<T>) -> PipelineView<T> {
        PipelineView {
            mel_frames: self.mel_frames + mel_frames_of(data),
            new_mel_frames: self.new_mel_frames + data.len() / 32,
            ..self
        }
    }

    /// Dropping the oldest frames beyond [`MEL_KEEP`].
    pub open spec fn trim_mel(self) -> PipelineView<T> {
        PipelineView { mel_frames: keep_last(self.mel_frames, MEL_KEEP as nat), ..self }
    }

    /// Whether the embedding model runs next.
    pub open spec fn embedding_due(self) -> bool {
        self.new_mel_frames >= EMB_STEP && self.mel_frames.len() >= EMB_WINDOW
    }

    /// The input of the embedding model: the last [`EMB_WINDOW`] frames,
    /// concatenated.
    pub open spec fn embedding_input(self) -> Seq<T> {
        flatten(
            self.mel_frames.subrange(
                self.mel_frames.len() - EMB_WINDOW,
                self.mel_frames.len() as int,
            ),
        )
    }

    /// Buffering one embedding.
    pub open spec fn add_embedding(self, embedding: Seq<T>) -> PipelineView<T> {
        PipelineView {
            embeddings: keep_last(self.embeddings.push(embedding), EMB_KEEP as nat),
            new_mel_frames: (self.new_mel_frames - EMB_STEP) as nat,
            ..self
        }
    }

    /// Whether the classifier runs at `now`.
    pub open spec fn classifier_due(self, now: nat) -> bool {
        self.embeddings.len() >= WW_WINDOW && now >= self.cooldown_until
    }

    /// The input of the classifier: the last [`WW_WINDOW`] embeddings,
    /// concatenated.
    pub open spec fn classifier_input(self) -> Seq<T> {
        flatten(
            self.embeddings.subrange(
                self.embeddings.len() - WW_WINDOW,
                self.embeddings.len() as int,
            ),
        )
    }

    /// The width of one embedding as the classifier is told it: that of the
    /// newest embedding.
    pub open spec fn embedding_size(self) -> nat {
        if self.embeddings.len() > 0 {
            self.embeddings.last().len()
        } else {
            DEFAULT_EMBEDDING_SIZE as nat
        }
    }

    /// The classifier's verdict at `now`: a detection starts the cooldown
    /// and clears the buffers.
    pub open spec fn verdict(self, now: nat, detected: bool) -> PipelineView<T> {
        if detected {
            PipelineView {
                cooldown_until: now + COOLDOWN_NS as nat,
                mel_frames: Seq::empty(),
                embeddings: Seq::empty(),
                new_mel_frames: 0,
                ..self
            }
        } else {
            self
        }
    }
}

/// What the squelch decided for a chunk.
pub enum SquelchOutcome<T> {
    /// The squelch is closed: the models do not run.
    Quiet,
    /// The squelch is open: these chunks go through the spectrogram model, in
    /// this order (the pre-roll first when the squelch has just opened).
    Process(Vec<Vec<T>>),
}

/// The view of a squelch outcome: the chunks to process, if any.
pub open spec fn outcome_view<T>(o: SquelchOutcome<T>) -> Option<Seq<Seq<T>>> {
    match o {
        SquelchOutcome::Quiet => None,
        SquelchOutcome::Process(v) => Some(v@.map_values(|c: Vec<T>| c@)),
    }
}

/// State of the wake-word pipeline between chunks.
pub struct WakeWordPipeline<T> {
    preroll: std::collections::VecDeque<Vec<T>>,
    mel_frames: std::collections::VecDeque<Vec<T>>,
    embeddings: std::collections::VecDeque<Vec<T>>,
    new_mel_frames: usize,
    last_voice: Option<u64>,
    was_active: bool,
    cooldown_until: u64,
}

pub open spec fn views_of<T>(s: Seq<Vec<T>>) -> Seq<Seq<T>> {
    s.map_values(|v: Vec<T>| v@)
}

impl<T> View for WakeWordPipeline<T> {
    type V = PipelineView<T>;

    closed spec fn view(&self) -> PipelineView<T> {
        PipelineView {
            preroll: views_of(self.preroll@),
            mel_frames: views_of(self.mel_frames@),
            embeddings: views_of(self.embeddings@),
            new_mel_frames: self.new_mel_frames as nat,
            last_voice: match self.last_voice {
                Some(t) => Some(t as nat),
                None => None,
            },
            was_active: self.was_active,
            cooldown_until: self.cooldown_until as nat,
        }
    }
}

/// Drops elements from the front until at most `k` are left.
fn keep_last_in<A>(d: &mut std::collections::VecDeque<A>, k: usize)
    ensures
        final(d)@ == keep_last(old(d)@, k as nat),
{
    let ghost s = old(d)@;
    while d.len() > k
        invariant
            d@.len() <= s.len(),
            d@ == s.subrange(s.len() - d@.len(), s.len() as int),
            s.len() > k ==> d@.len() >= k,
            s.len() <= k ==> d@ == s,
        decreases d@.len(),
    {
        let _ = d.pop_front();
    }
    assert(s.subrange(0, s.len() as int) =~= s);
}

/// Moves all elements out of `d`, in order.
fn drain_all<A>(d: &mut std::collections::VecDeque<A>) -> (res: Vec<A>)
    ensures
        res@ == old(d)@,
        final(d)@ == Seq::<A>::empty(),
{
    let ghost before = d@;
    let mut out: Vec<A> = Vec::new();
    while d.len() > 0
        invariant
            d@.len() <= before.len(),
            out@ + d@ == before,
        decreases d@.len(),
    {
        match d.pop_front() {
            Some(c) => {
                let ghost rest = d@;
                out.push(c);
                assert(out@ + rest =~= before);
            },
            None => {},
        }
    }
    assert(out@ =~= before);
    out
}


/// A copy of `data[start..end]`.
fn copy_range<T: Copy>(data: &Vec<T>, start: usize, end: usize) -> (res: Vec<T>)
    requires
        start <= end <= data@.len(),
    ensures
        res@ == data@.subrange(start as int, end as int),
{
    let mut out: Vec<T> = Vec::new();
    let mut i: usize = start;
    while i < end
        invariant
            start <= i <= end <= data@.len(),
            out@ == data@.subrange(start as int, i as int),
        decreases end - i,
    {
        out.push(data[i]);
        assert(out@ =~= data@.subrange(start as int, i + 1));
        i = i + 1;
    }
    out
}

/// Appends the complete spectrogram frames of `data` to `frames`.
fn push_mel_frames<T: Copy>(data: &Vec<T>, frames: &mut std::collections::VecDeque<Vec<T>>)
    ensures
        views_of(final(frames)@) == views_of(old(frames)@) + mel_frames_of(data@),
{
    let ghost before = views_of(frames@);
    let n: usize = data.len();
    let count: usize = n / MEL_BINS;
    let mut f: usize = 0;
    while f < count
        invariant
            n == data@.len(),
            count == data@.len() / 32,
            f <= count,
            views_of(frames@) == before + mel_frames_of(data@).subrange(0, f as int),
        decreases count - f,
    {
        assert(32 * f + 32 <= data@.len()) by (nonlinear_arith)
            requires
                f < count,
                count == data@.len() / 32,
        ;
        assert(MEL_BINS * f + MEL_BINS <= data@.len());
        let lo: usize = MEL_BINS * f;
        let frame = copy_range(data, lo, lo + MEL_BINS);
        let ghost prev = frames@;
        frames.push_back(frame);
        assert(views_of(prev.push(frame)) =~= views_of(prev).push(frame@));
        assert(mel_frames_of(data@).subrange(0, f + 1) =~= mel_frames_of(data@).subrange(
            0,
            f as int,
        ).push(frame@));
        f = f + 1;
    }
    assert(mel_frames_of(data@).subrange(0, count as int) =~= mel_frames_of(data@));
}

proof fn lemma_flatten_extend<A>(s: Seq<Seq<A>>, start: int, j: int)
    requires
        0 <= start <= j < s.len(),
    ensures
        flatten(s.subrange(start, j + 1)) == flatten(s.subrange(start, j)) + s[j],
{
    assert(s.subrange(start, j + 1).drop_last() =~= s.subrange(start, j));
}

/// The concatenation of `frames[start..]`.
fn flatten_from<T: Copy>(frames: &std::collections::VecDeque<Vec<T>>, start: usize) -> (res: Vec<T>)
    requires
        start <= frames@.len(),
    ensures
        res@ == flatten(views_of(frames@).subrange(start as int, frames@.len() as int)),
{
    let ghost v = views_of(frames@);
    let mut out: Vec<T> = Vec::new();
    let mut j: usize = start;
    assert(v.subrange(start as int, start as int) =~= Seq::<Seq<T>>::empty());
    while j < frames.len()
        invariant
            v == views_of(frames@),
            start <= j <= frames@.len(),
            out@ == flatten(v.subrange(start as int, j as int)),
        decreases frames@.len() - j,
    {
        let frame = &frames[j];
        let ghost base = out@;
        let mut k: usize = 0;
        while k < frame.len()
            invariant
                k <= frame@.len(),
                out@ == base + frame@.subrange(0, k as int),
            decreases frame@.len() - k,
        {
            out.push(frame[k]);
            assert(out@ =~= base + frame@.subrange(0, k + 1));
            k = k + 1;
        }
        assert(frame@.subrange(0, frame@.len() as int) =~= frame@);
        proof {
            lemma_flatten_extend(v, start as int, j as int);
        }
        j = j + 1;
    }
    out
}

impl<T> WakeWordPipeline<T> {
    /// The pipeline before the first chunk.
    pub fn new() -> (res: WakeWordPipeline<T>)
        ensures
            res@ == PipelineView::<T>::initial(),
    {
        let res = WakeWordPipeline {
            preroll: std::collections::VecDeque::new(),
            mel_frames: std::collections::VecDeque::new(),
            embeddings: std::collections::VecDeque::new(),
            new_mel_frames: 0,
            last_voice: None,
            was_active: false,
            cooldown_until: 0,
        };
        assert(res@.preroll =~= Seq::<Seq<T>>::empty());
        assert(res@.mel_frames =~= Seq::<Seq<T>>::empty());
        assert(res@.embeddings =~= Seq::<Seq<T>>::empty());
        res
    }

    /// Runs the energy squelch for one chunk. `loud` says whether the chunk's
    /// level is above the squelch threshold; `now` is the time in nanoseconds
    /// on a monotonic clock.
    pub fn squelch(&mut self, chunk: Vec<T>, now: u64, loud: bool) -> (res: SquelchOutcome<T>)
        ensures
            (final(self)@, outcome_view(res)) == old(self)@.squelch(chunk@, now as nat, loud),
    {
        let ghost old_view = self@;
        if loud {
            self.last_voice = Some(now);
        }
        let active = match self.last_voice {
            Some(t) => (if now >= t {
                now - t
            } else {
                0
            }) < SQUELCH_HANGOVER_NS,
            None => false,
        };
        if !active {
            let ghost before = self.preroll@;
            self.preroll.push_back(chunk);
            keep_last_in(&mut self.preroll, PREROLL_CHUNKS);
            proof {
                let pushed = before.push(chunk);
                assert(views_of(pushed) =~= views_of(before).push(chunk@));
                let kept = keep_last(pushed, PREROLL_CHUNKS as nat);
                assert(views_of(kept) =~= keep_last(views_of(pushed), PREROLL_CHUNKS as nat));
            }
            if self.was_active {
                self.mel_frames.clear();
                self.embeddings.clear();
                self.new_mel_frames = 0;
                self.was_active = false;
                assert(self@.mel_frames =~= Seq::<Seq<T>>::empty());
                assert(self@.embeddings =~= Seq::<Seq<T>>::empty());
            }
            return SquelchOutcome::Quiet;
        }
        let mut feed: Vec<Vec<T>> = Vec::new();
        if !self.was_active {
            self.was_active = true;
            feed = drain_all(&mut self.preroll);
            assert(self@.preroll =~= Seq::<Seq<T>>::empty());
        }
        let ghost fed = feed@;
        feed.push(chunk);
        assert(views_of(feed@) =~= views_of(fed).push(chunk@));
        proof {
            if old_view.was_active {
                assert(views_of(fed) =~= Seq::<Seq<T>>::empty());
            }
        }
        SquelchOutcome::Process(feed)
    }

    /// Buffers the frames of one spectrogram model output (values already
    /// normalized); a rest shorter than a frame is dropped.
    pub fn add_mel_output(&mut self, data: &Vec<T>)
        where T: Copy
        requires
            old(self)@.new_mel_frames + data@.len() / 32 <= usize::MAX,
        ensures
            final(self)@ == old(self)@.add_mel_output(data@),
    {
        push_mel_frames(data, &mut self.mel_frames);
        self.new_mel_frames = self.new_mel_frames + data.len() / MEL_BINS;
    }

    /// The number of spectrogram frames not yet covered by an embedding.
    pub fn new_mel_frames(&self) -> (res: usize)
        ensures
            res == self@.new_mel_frames,
    {
        self.new_mel_frames
    }

    /// Keeps only the newest [`MEL_KEEP`] spectrogram frames.
    pub fn trim_mel_frames(&mut self)
        ensures
            final(self)@ == old(self)@.trim_mel(),
    {
        let ghost before = self.mel_frames@;
        keep_last_in(&mut self.mel_frames, MEL_KEEP);
        assert(views_of(keep_last(before, MEL_KEEP as nat)) =~= keep_last(
            views_of(before),
            MEL_KEEP as nat,
        ));
    }

    /// The input of the embedding model, when it is due.
    pub fn embedding_input(&self) -> (res: Option<Vec<T>>)
        where T: Copy
        ensures
            res is Some <==> self@.embedding_due(),
            res matches Some(v) ==> v@ == self@.embedding_input(),
    {
        if self.new_mel_frames >= EMB_STEP && self.mel_frames.len() >= EMB_WINDOW {
            Some(flatten_from(&self.mel_frames, self.mel_frames.len() - EMB_WINDOW))
        } else {
            None
        }
    }

    /// Buffers one embedding; this consumes [`EMB_STEP`] new frames.
    pub fn add_embedding(&mut self, embedding: Vec<T>)
        requires
            old(self)@.embedding_due(),
        ensures
            final(self)@ == old(self)@.add_embedding(embedding@),
    {
        let ghost before = self.embeddings@;
        self.new_mel_frames = self.new_mel_frames - EMB_STEP;
        self.embeddings.push_back(embedding);
        keep_last_in(&mut self.embeddings, EMB_KEEP);
        proof {
            let pushed = before.push(embedding);
            assert(views_of(pushed) =~= views_of(before).push(embedding@));
            assert(views_of(keep_last(pushed, EMB_KEEP as nat)) =~= keep_last(
                views_of(pushed),
                EMB_KEEP as nat,
            ));
        }
    }

    /// The input of the classifier and the embedding width to announce,
    /// when the classifier is due at `now`.
    pub fn classifier_input(&self, now: u64) -> (res: Option<(Vec<T>, usize)>)
        where T: Copy
        ensures
            res is Some <==> self@.classifier_due(now as nat),
            res matches Some(r) ==> r.0@ == self@.classifier_input() && r.1
                == self@.embedding_size(),
    {
        if self.embeddings.len() >= WW_WINDOW && now >= self.cooldown_until {
            let last: usize = self.embeddings.len() - 1;
            let size: usize = self.embeddings[last].len();
            Some((flatten_from(&self.embeddings, self.embeddings.len() - WW_WINDOW), size))
        } else {
            None
        }
    }

    /// Applies the classifier's verdict at `now`; returns whether a wake
    /// word is to be announced.
    pub fn classifier_verdict(&mut self, now: u64, detected: bool) -> (res: bool)
        requires
            detected ==> now <= u64::MAX - COOLDOWN_NS,
        ensures
            res == detected,
            final(self)@ == old(self)@.verdict(now as nat, detected),
    {
        if detected {
            self.cooldown_until = now + COOLDOWN_NS;
            self.mel_frames.clear();
            self.embeddings.clear();
            self.new_mel_frames = 0;
            assert(self@.mel_frames =~= Seq::<Seq<T>>::empty());
            assert(self@.embeddings =~= Seq::<Seq<T>>::empty());
        }
        detected
    }
}

} // verus!

verus! {

/// Cuts a stream of samples into chunks of [`CHUNK`] samples.
pub struct SampleChunker<T> {
    buffer: Vec<T>,
}

impl<T> View for SampleChunker<T> {
    type V = Seq<T>;

    /// The samples received and not yet handed out, oldest first.
    closed spec fn view(&self) -> Seq<T> {
        self.buffer@
    }
}

impl<T> SampleChunker<T> {
    /// A chunker holding no samples.
    pub fn new() -> (res: SampleChunker<T>)
        ensures
            res@ == Seq::<T>::empty(),
    {
        SampleChunker { buffer: Vec::new() }
    }

    /// Appends a block of samples.
    pub fn push_samples(&mut self, samples: Vec<T>)
        ensures
            final(self)@ == old(self)@ + samples@,
    {
        let mut samples = samples;
        self.buffer.append(&mut samples);
    }

    /// The oldest [`CHUNK`] samples, once that many are there.
    pub fn next_chunk(&mut self) -> (res: Option<Vec<T>>)
        ensures
            old(self)@.len() >= CHUNK ==> (res matches Some(c) && c@ == old(self)@.subrange(
                0,
                CHUNK as int,
            )) && final(self)@ == old(self)@.subrange(CHUNK as int, old(self)@.len() as int),
            old(self)@.len() < CHUNK ==> res is None && final(self)@ == old(self)@,
    {
        if self.buffer.len() >= CHUNK {
            let mut rest = self.buffer.split_off(CHUNK);
            std::mem::swap(&mut self.buffer, &mut rest);
            Some(rest)
        } else {
            None
        }
    }
}

/// No sample is lost, duplicated or reordered: a chunk handed out followed
/// by the samples that stay is exactly what was buffered.
pub proof fn law_chunks_preserve_samples<T>(buffered: Seq<T>)
    requires
        buffered.len() >= CHUNK,
    ensures
        buffered.subrange(0, CHUNK as int) + buffered.subrange(CHUNK as int, buffered.len() as int)
            == buffered,
{
    assert(buffered.subrange(0, CHUNK as int) + buffered.subrange(
        CHUNK as int,
        buffered.len() as int,
    ) =~= buffered);
}

/// File name of the spectrogram model.
pub const MEL_MODEL_FILE: &'static str = "melspectrogram.onnx";

/// File name of the embedding model.
pub const EMBEDDING_MODEL_FILE: &'static str = "embedding_model.onnx";

/// File name of the spectrogram model.
pub open spec fn mel_model_name() -> Seq<char> {
    "melspectrogram.onnx"@
}

/// File name of the embedding model.
pub open spec fn embedding_model_name() -> Seq<char> {
    "embedding_model.onnx"@
}

/// A file name has the extension `onnx`: it ends in `.onnx` after a
/// non-empty stem.
pub open spec fn has_onnx_extension(name: Seq<char>) -> bool {
    name.len() > 5 && name.subrange(name.len() - 5, name.len() as int) == ".onnx"@
}

/// A file that can be the wake-word model: an ONNX model that is neither of
/// the two base models.
pub open spec fn is_wake_model_name(name: Seq<char>) -> bool {
    &&& has_onnx_extension(name)
    &&& name != mel_model_name()
    &&& name != embedding_model_name()
}

fn is_wake_model_file(name: &str) -> (res: bool)
    ensures
        res == is_wake_model_name(name@),
{
    let n: usize = name.unicode_len();
    if n <= 5 {
        return false;
    }
    let suffix = name.substring_char(n - 5, n);
    text_eq(suffix, ".onnx") && !text_eq(name, MEL_MODEL_FILE) && !text_eq(
        name,
        EMBEDDING_MODEL_FILE,
    )
}

/// The first entry of a directory listing that can be the wake-word model.
pub fn select_wake_model(names: &Vec<String>) -> (res: Option<usize>)
    ensures
        match res {
            Some(i) => i < names@.len() && is_wake_model_name(names@[i as int]@) && forall|j: int|
                0 <= j < i ==> !is_wake_model_name(#[trigger] names@[j]@),
            None => forall|j: int|
                0 <= j < names@.len() ==> !is_wake_model_name(#[trigger] names@[j]@),
        },
{
    let mut i: usize = 0;
    while i < names.len()
        invariant
            i <= names@.len(),
            forall|j: int| 0 <= j < i ==> !is_wake_model_name(#[trigger] names@[j]@),
        decreases names@.len() - i,
    {
        if is_wake_model_file(names[i].as_str()) {
            return Some(i);
        }
        i = i + 1;
    }
    None
}

/// The index of the first name in a listing that can be the wake-word
/// model, if there is one.
pub open spec fn first_wake_model(names: Seq<Seq<char>>) -> Option<int> {
    if exists|i: int| 0 <= i < names.len() && is_wake_model_name(names[i]) {
        Some(
            choose|i: int|
                0 <= i < names.len() && is_wake_model_name(names[i]) && forall|j: int|
                    0 <= j < i ==> !is_wake_model_name(names[j]),
        )
    } else {
        None
    }
}

/// Plain view of a listing of file names.
pub open spec fn names_view(names: Seq<String>) -> Seq<Seq<char>> {
    names.map_values(|n: String| n@)
}

/// Where a model file is taken from.
#[derive(PartialEq, Eq, Structural, Clone, Copy, Debug)]
pub enum ModelSource {
    /// The user's model folder.
    User,
    /// The models shipped with the installer.
    Bundled,
}

/// The wake word chosen in the settings.
#[derive(PartialEq, Eq, Structural, Clone, Copy, Debug)]
pub enum WakeWord {
    /// "Hey Jarvis", the default.
    HeyJarvis,
    /// "Alexa".
    Alexa,
    /// "Hey Mycroft".
    HeyMycroft,
    /// The user's own model, from the user's model folder.
    Custom,
}

/// The wake word a setting names: `alexa`, `hey_mycroft` or `custom`;
/// anything else, or no setting, is the default "Hey Jarvis".
pub open spec fn wake_word_of(setting: Option<Seq<char>>) -> WakeWord {
    match setting {
        Some(s) => if s == "alexa"@ {
            WakeWord::Alexa
        } else if s == "hey_mycroft"@ {
            WakeWord::HeyMycroft
        } else if s == "custom"@ {
            WakeWord::Custom
        } else {
            WakeWord::HeyJarvis
        },
        None => WakeWord::HeyJarvis,
    }
}

/// The wake word a setting names (see [`wake_word_of`]).
pub fn wake_word_setting(setting: Option<&str>) -> (res: WakeWord)
    ensures
        res == wake_word_of(
            match setting {
                Some(s) => Some(s@),
                None => None,
            },
        ),
{
    match setting {
        Some(s) => if text_eq(s, "alexa") {
            WakeWord::Alexa
        } else if text_eq(s, "hey_mycroft") {
            WakeWord::HeyMycroft
        } else if text_eq(s, "custom") {
            WakeWord::Custom
        } else {
            WakeWord::HeyJarvis
        },
        None => WakeWord::HeyJarvis,
    }
}

/// The file of a shipped wake word.
pub open spec fn wake_word_file(word: WakeWord) -> Seq<char> {
    match word {
        WakeWord::HeyJarvis => "hey_jarvis_v0.1.onnx"@,
        WakeWord::Alexa => "alexa_v0.1.onnx"@,
        WakeWord::HeyMycroft => "hey_mycroft_v0.1.onnx"@,
        WakeWord::Custom => Seq::empty(),
    }
}

fn shipped_file(word: WakeWord) -> (res: String)
    requires
        word != WakeWord::Custom,
    ensures
        res@ == wake_word_file(word),
{
    match word {
        WakeWord::HeyJarvis => String::from_str("hey_jarvis_v0.1.onnx"),
        WakeWord::Alexa => String::from_str("alexa_v0.1.onnx"),
        _ => String::from_str("hey_mycroft_v0.1.onnx"),
    }
}

/// Where a model named `name` is taken from: the user's folder wins over
/// the shipped models, also when both hold a file of that name.
pub open spec fn source_of(name: Seq<char>, user: Seq<Seq<char>>, bundled: Seq<Seq<char>>) -> Option<
    ModelSource,
> {
    if user.contains(name) {
        Some(ModelSource::User)
    } else if bundled.contains(name) {
        Some(ModelSource::Bundled)
    } else {
        None
    }
}

fn listed(names: &Vec<String>, name: &str) -> (res: bool)
    ensures
        res == names_view(names@).contains(name@),
{
    let ghost v = names_view(names@);
    let mut i: usize = 0;
    while i < names.len()
        invariant
            v == names_view(names@),
            i <= names@.len(),
            forall|j: int| 0 <= j < i ==> #[trigger] v[j] != name@,
        decreases names@.len() - i,
    {
        if text_eq(names[i].as_str(), name) {
            assert(v[i as int] == name@);
            return true;
        }
        i = i + 1;
    }
    false
}

/// Where the model named `name` is taken from, given the listings of the
/// user's folder and of the shipped models.
pub fn locate_model(name: &str, user: &Vec<String>, bundled: &Vec<String>) -> (res: Option<
    ModelSource,
>)
    ensures
        res == source_of(name@, names_view(user@), names_view(bundled@)),
{
    if listed(user, name) {
        Some(ModelSource::User)
    } else if listed(bundled, name) {
        Some(ModelSource::Bundled)
    } else {
        None
    }
}

/// The three model files the engine loads, and where each comes from.
pub struct ModelChoice {
    pub mel: ModelSource,
    pub embedding: ModelSource,
    pub wake_source: ModelSource,
    pub wake_file: String,
}

/// Why no engine can be started.
#[derive(PartialEq, Eq, Structural, Clone, Copy, Debug)]
pub enum ModelError {
    /// The spectrogram or the embedding model is in neither place.
    BaseModelsMissing,
    /// The chosen wake-word model is in neither place (for the user's own
    /// model: the user's folder holds none).
    WakeWordMissing,
}

/// The models for `word`: each base model and a shipped wake word from the
/// user's folder if it has that file, else from the shipped models; the
/// user's own model is the first one in the user's folder.
pub open spec fn model_choice(user: Seq<Seq<char>>, bundled: Seq<Seq<char>>, word: WakeWord) -> Result<
    (ModelSource, ModelSource, ModelSource, Seq<char>),
    ModelError,
> {
    let mel = source_of(mel_model_name(), user, bundled);
    let embedding = source_of(embedding_model_name(), user, bundled);
    if mel is None || embedding is None {
        Err(ModelError::BaseModelsMissing)
    } else if word == WakeWord::Custom {
        match first_wake_model(user) {
            Some(i) => Ok((mel->0, embedding->0, ModelSource::User, user[i])),
            None => Err(ModelError::WakeWordMissing),
        }
    } else {
        match source_of(wake_word_file(word), user, bundled) {
            Some(s) => Ok((mel->0, embedding->0, s, wake_word_file(word))),
            None => Err(ModelError::WakeWordMissing),
        }
    }
}

/// Plain view of a model choice.
pub open spec fn choice_view(c: ModelChoice) -> (ModelSource, ModelSource, ModelSource, Seq<char>) {
    (c.mel, c.embedding, c.wake_source, c.wake_file@)
}

/// Chooses the model files for `word` from the listings of the user's
/// model folder and of the shipped models (see [`model_choice`]).
pub fn find_models(user: &Vec<String>, bundled: &Vec<String>, word: WakeWord) -> (res: Result<
    ModelChoice,
    ModelError,
>)
    ensures
        match res {
            Ok(c) => model_choice(names_view(user@), names_view(bundled@), word) == Ok::<
                (ModelSource, ModelSource, ModelSource, Seq<char>),
                ModelError,
            >(choice_view(c)),
            Err(e) => model_choice(names_view(user@), names_view(bundled@), word) == Err::<
                (ModelSource, ModelSource, ModelSource, Seq<char>),
                ModelError,
            >(e),
        },
{
    let mel = locate_model(MEL_MODEL_FILE, user, bundled);
    let embedding = locate_model(EMBEDDING_MODEL_FILE, user, bundled);
    let (mel, embedding) = match (mel, embedding) {
        (Some(m), Some(e)) => (m, e),
        _ => return Err(ModelError::BaseModelsMissing),
    };
    match word {
        WakeWord::Custom => match select_wake_model(user) {
            Some(i) => {
                proof {
                    let v = names_view(user@);
                    assert(v[i as int] == user@[i as int]@);
                    assert(0 <= i < v.len() && is_wake_model_name(v[i as int]) && forall|j: int|
                        0 <= j < i ==> !is_wake_model_name(v[j])) by {
                        assert forall|j: int| 0 <= j < i implies !is_wake_model_name(v[j]) by {
                            assert(v[j] == user@[j]@);
                        }
                    }
                    let k = choose|k: int|
                        0 <= k < v.len() && is_wake_model_name(v[k]) && forall|j: int|
                            0 <= j < k ==> !is_wake_model_name(v[j]);
                    if k < i {
                        assert(!is_wake_model_name(v[k]));
                    } else if k > i {
                        assert(!is_wake_model_name(v[i as int]));
                    }
                }
                Ok(
                    ModelChoice {
                        mel,
                        embedding,
                        wake_source: ModelSource::User,
                        wake_file: user[i].clone(),
                    },
                )
            },
            None => {
                proof {
                    let v = names_view(user@);
                    assert forall|j: int| 0 <= j < v.len() implies !is_wake_model_name(v[j]) by {
                        assert(v[j] == user@[j]@);
                    }
                }
                Err(ModelError::WakeWordMissing)
            },
        },
        _ => {
            let file = shipped_file(word);
            match locate_model(file.as_str(), user, bundled) {
                Some(source) => Ok(
                    ModelChoice { mel, embedding, wake_source: source, wake_file: file },
                ),
                None => Err(ModelError::WakeWordMissing),
            }
        },
    }
}

/// With nothing in the user's folder and the shipped models in place, the
/// engine starts with no setup, on "Hey Jarvis" unless another shipped word
/// is chosen; a file in the user's folder wins over a shipped one of the
/// same name.
pub proof fn law_shipped_models_suffice(
    user: Seq<Seq<char>>,
    bundled: Seq<Seq<char>>,
    word: WakeWord,
    name: Seq<char>,
)
    requires
        word != WakeWord::Custom,
        bundled.contains(mel_model_name()),
        bundled.contains(embedding_model_name()),
        bundled.contains(wake_word_file(word)),
    ensures
        model_choice(user, bundled, word) is Ok,
        user.len() == 0 ==> model_choice(Seq::empty(), bundled, word) == Ok::<
            (ModelSource, ModelSource, ModelSource, Seq<char>),
            ModelError,
        >((ModelSource::Bundled, ModelSource::Bundled, ModelSource::Bundled, wake_word_file(word))),
        wake_word_of(None) == WakeWord::HeyJarvis,
        user.contains(name) ==> source_of(name, user, bundled) == Some(ModelSource::User),
{
    if user.len() == 0 {
        let e = Seq::<Seq<char>>::empty();
        assert(!e.contains(mel_model_name()));
        assert(!e.contains(embedding_model_name()));
        assert(!e.contains(wake_word_file(word)));
    }
}

/// Every model file the engine loads is held by the place it is loaded
/// from, and the user's folder wins whenever it holds a file of that name;
/// a shipped word loads its own file, the user's own model comes from the
/// user's folder. The choice fails on missing base models exactly when the
/// spectrogram or the embedding model is in neither place.
pub proof fn law_user_folder_wins(user: Seq<Seq<char>>, bundled: Seq<Seq<char>>, word: WakeWord)
    ensures
        model_choice(user, bundled, word) matches Ok((m, e, w, f)) ==> {
            &&& (m == ModelSource::User <==> user.contains(mel_model_name()))
            &&& (m == ModelSource::Bundled ==> bundled.contains(mel_model_name()))
            &&& (e == ModelSource::User <==> user.contains(embedding_model_name()))
            &&& (e == ModelSource::Bundled ==> bundled.contains(embedding_model_name()))
            &&& (w == ModelSource::User <==> user.contains(f))
            &&& (w == ModelSource::Bundled ==> bundled.contains(f))
            &&& (word != WakeWord::Custom ==> f == wake_word_file(word))
            &&& (word == WakeWord::Custom ==> w == ModelSource::User && exists|i: int|
                0 <= i < user.len() && user[i] == f && is_wake_model_name(f) && forall|j: int|
                    0 <= j < i ==> !is_wake_model_name(#[trigger] user[j]))
        },
        word == WakeWord::Custom && (user.contains(mel_model_name()) || bundled.contains(
            mel_model_name(),
        )) && (user.contains(embedding_model_name()) || bundled.contains(embedding_model_name()))
            ==> (model_choice(user, bundled, word) is Ok <==> exists|i: int|
            0 <= i < user.len() && is_wake_model_name(#[trigger] user[i])),
        (model_choice(user, bundled, word) == Err::<
            (ModelSource, ModelSource, ModelSource, Seq<char>),
            ModelError,
        >(ModelError::BaseModelsMissing)) <==> !((user.contains(mel_model_name())
            || bundled.contains(mel_model_name())) && (user.contains(embedding_model_name())
            || bundled.contains(embedding_model_name()))),
{
    if word == WakeWord::Custom {
        if exists|i: int| 0 <= i < user.len() && is_wake_model_name(user[i]) {
            let k = choose|i: int| 0 <= i < user.len() && is_wake_model_name(user[i]);
            lemma_first_wake_model_exists(user, k);
            let i = first_wake_model(user)->0;
            assert(0 <= i < user.len() && is_wake_model_name(user[i]));
            assert(user.contains(user[i]));
            assert(user[i] == user[i]);
        }
    }
}

/// Below a wake-model name at `k` there is a first one.
proof fn lemma_first_wake_model_exists(names: Seq<Seq<char>>, k: int)
    requires
        0 <= k < names.len(),
        is_wake_model_name(names[k]),
    ensures
        exists|i: int|
            0 <= i < names.len() && is_wake_model_name(names[i]) && forall|j: int|
                0 <= j < i ==> !is_wake_model_name(names[j]),
    decreases k,
{
    if exists|j: int| 0 <= j < k && is_wake_model_name(names[j]) {
        let j = choose|j: int| 0 <= j < k && is_wake_model_name(names[j]);
        lemma_first_wake_model_exists(names, j);
    } else {
        assert(forall|j: int| 0 <= j < k ==> !is_wake_model_name(names[j]));
    }
}

/// Every step keeps the pipeline within its bounds (the spectrogram buffer
/// once trimmed): at most 8 pre-roll chunks, 120 frames and 24 embeddings.
pub proof fn law_steps_keep_bounds<T>(
    s: PipelineView<T>,
    chunk: Seq<T>,
    now: nat,
    loud: bool,
    embedding: Seq<T>,
    detected: bool,
)
    requires
        s.bounded(),
    ensures
        s.squelch(chunk, now, loud).0.bounded(),
        s.trim_mel().bounded(),
        s.embedding_due() ==> s.add_embedding(embedding).bounded(),
        s.verdict(now, detected).bounded(),
        s.mel_frames.len() <= MEL_KEEP ==> s.add_mel_output(embedding).trim_mel().bounded(),
{
}

/// The models never see a chunk while the squelch is closed, and the pre-roll
/// then holds the newest quiet chunks, the current one last.
pub proof fn law_closed_squelch_runs_nothing<T>(s: PipelineView<T>, chunk: Seq<T>, now: nat, loud: bool)
    requires
        !squelch_open(if loud { Some(now) } else { s.last_voice }, now),
    ensures
        s.squelch(chunk, now, loud).1 is None,
        s.squelch(chunk, now, loud).0.preroll == keep_last(s.preroll.push(chunk), PREROLL_CHUNKS as nat),
        s.squelch(chunk, now, loud).0.preroll.last() == chunk,
{
}

/// A loud chunk always opens the squelch, and the squelch stays open for the
/// hangover after it.
pub proof fn law_loud_opens_squelch<T>(s: PipelineView<T>, chunk: Seq<T>, t: nat, now: nat)
    requires
        t <= now < t + SQUELCH_HANGOVER_NS,
    ensures
        s.squelch(chunk, t, true).1 is Some,
        squelch_open(s.squelch(chunk, t, true).0.last_voice, now),
{
}

/// When the squelch opens, the pre-roll is not lost: it goes through the
/// spectrogram model first, in order, followed by the current chunk.
pub proof fn law_preroll_fed_on_opening<T>(s: PipelineView<T>, chunk: Seq<T>, now: nat, loud: bool)
    requires
        !s.was_active,
        squelch_open(if loud { Some(now) } else { s.last_voice }, now),
    ensures
        s.squelch(chunk, now, loud).1 == Some(s.preroll.push(chunk)),
        s.squelch(chunk, now, loud).0.preroll.len() == 0,
{
}

/// When the squelch closes, the spectrogram and embedding buffers are dropped.
pub proof fn law_closing_squelch_resets<T>(s: PipelineView<T>, chunk: Seq<T>, now: nat, loud: bool)
    requires
        s.was_active,
        !squelch_open(if loud { Some(now) } else { s.last_voice }, now),
    ensures
        s.squelch(chunk, now, loud).0.mel_frames.len() == 0,
        s.squelch(chunk, now, loud).0.embeddings.len() == 0,
        s.squelch(chunk, now, loud).0.new_mel_frames == 0,
        !s.squelch(chunk, now, loud).0.was_active,
{
}

/// The pipeline is active exactly after a chunk for which the squelch was
/// open; so a quiet chunk after an open one drops every spectrogram frame and
/// embedding buffered meanwhile, and nothing from before the silence reaches
/// the next utterance.
pub proof fn law_silence_after_voice_resets<T>(
    s: PipelineView<T>,
    first: Seq<T>,
    t1: nat,
    loud1: bool,
    data: Seq<T>,
    second: Seq<T>,
    t2: nat,
    loud2: bool,
)
    ensures
        s.squelch(first, t1, loud1).0.was_active == squelch_open(
            if loud1 { Some(t1) } else { s.last_voice },
            t1,
        ),
        ({
            let a = s.squelch(first, t1, loud1).0.add_mel_output(data);
            let b = a.squelch(second, t2, loud2).0;
            squelch_open(if loud1 { Some(t1) } else { s.last_voice }, t1) && !squelch_open(
                if loud2 { Some(t2) } else { a.last_voice },
                t2,
            ) ==> b.mel_frames.len() == 0 && b.embeddings.len() == 0 && b.new_mel_frames == 0
                && !b.embedding_due()
        }),
{
}

/// The squelch stays open for exactly the hangover after the last loud
/// chunk; while it stays open, each chunk goes alone through the
/// spectrogram model and the buffered frames and embeddings are kept; a
/// loud chunk becomes the last voice.
pub proof fn law_open_squelch_passes_chunks<T>(
    s: PipelineView<T>,
    chunk: Seq<T>,
    t: nat,
    now: nat,
    loud: bool,
)
    ensures
        t <= now ==> (squelch_open(Some(t), now) <==> now < t + SQUELCH_HANGOVER_NS),
        !squelch_open(None, now),
        loud ==> s.squelch(chunk, now, loud).0.last_voice == Some(now),
        !loud ==> s.squelch(chunk, now, loud).0.last_voice == s.last_voice,
        s.was_active && squelch_open(if loud { Some(now) } else { s.last_voice }, now) ==> {
            &&& s.squelch(chunk, now, loud).1 == Some(seq![chunk])
            &&& s.squelch(chunk, now, loud).0.mel_frames == s.mel_frames
            &&& s.squelch(chunk, now, loud).0.embeddings == s.embeddings
            &&& s.squelch(chunk, now, loud).0.new_mel_frames == s.new_mel_frames
            &&& s.squelch(chunk, now, loud).0.preroll == s.preroll
        },
{
}

/// After a detection at `t` the classifier does not run again before
/// `t` plus the cooldown, whatever the other steps do meanwhile: none of
/// them moves the end of the cooldown.
pub proof fn law_cooldown<T>(
    s: PipelineView<T>,
    t: nat,
    now: nat,
    chunk: Seq<T>,
    loud: bool,
    data: Seq<T>,
)
    requires
        now < t + COOLDOWN_NS,
    ensures
        !s.verdict(t, true).classifier_due(now),
        s.squelch(chunk, now, loud).0.cooldown_until == s.cooldown_until,
        s.add_mel_output(data).cooldown_until == s.cooldown_until,
        s.trim_mel().cooldown_until == s.cooldown_until,
        s.add_embedding(data).cooldown_until == s.cooldown_until,
        s.verdict(now, false).cooldown_until == s.cooldown_until,
{
}

/// A detection leaves nothing for the next embedding or classifier run:
/// both wait for fresh frames.
pub proof fn law_detection_clears<T>(s: PipelineView<T>, t: nat)
    ensures
        !s.verdict(t, true).embedding_due(),
        s.verdict(t, true).embeddings.len() == 0,
        s.verdict(t, true).mel_frames.len() == 0,
{
}

/// Each embedding consumes exactly [`EMB_STEP`] new frames, and the
/// embedding window is the newest [`EMB_WINDOW`] frames.
pub proof fn law_embedding_cadence<T>(s: PipelineView<T>, embedding: Seq<T>)
    requires
        s.embedding_due(),
    ensures
        s.add_embedding(embedding).new_mel_frames + EMB_STEP == s.new_mel_frames,
        s.add_embedding(embedding).embeddings.last() == embedding,
        s.add_embedding(embedding).mel_frames == s.mel_frames,
{
}

} // verus!

verus! {

/// What the engine sees and does for one chunk: the chunk, its time and
/// level, the spectrogram outputs of the chunks the squelch hands out, the
/// embeddings computed while they are due, and the classifier's verdict.
pub struct ChunkInput<T> {
    pub chunk: Seq<T>,
    pub now: nat,
    pub loud: bool,
    pub mel_outputs: Seq<Seq<T>>,
    pub embeddings: Seq<Seq<T>>,
    pub detected: bool,
}

impl<T> PipelineView<T> {
    /// Buffering several spectrogram outputs, in order.
    pub open spec fn add_mel_outputs(self, outputs: Seq<Seq<T>>) -> PipelineView<T>
        decreases outputs.len(),
    {
        if outputs.len() == 0 {
            self
        } else {
            self.add_mel_outputs(outputs.drop_last()).add_mel_output(outputs.last())
        }
    }

    /// Buffering embeddings, in order, each one while an embedding is due.
    pub open spec fn add_embeddings(self, embeddings: Seq<Seq<T>>) -> PipelineView<T>
        decreases embeddings.len(),
    {
        if embeddings.len() == 0 {
            self
        } else {
            let before = self.add_embeddings(embeddings.drop_last());
            if before.embedding_due() {
                before.add_embedding(embeddings.last())
            } else {
                before
            }
        }
    }

    /// The whole work on one chunk: the state afterwards and whether a wake
    /// word is announced.
    pub open spec fn process_chunk(self, input: ChunkInput<T>) -> (PipelineView<T>, bool) {
        let (opened, fed) = self.squelch(input.chunk, input.now, input.loud);
        if fed is None {
            (opened, false)
        } else {
            let buffered = opened.add_mel_outputs(input.mel_outputs).trim_mel().add_embeddings(
                input.embeddings,
            );
            if buffered.classifier_due(input.now) {
                (buffered.verdict(input.now, input.detected), input.detected)
            } else {
                (buffered, false)
            }
        }
    }

    /// The state after a run of chunks, in order.
    pub open spec fn run(self, inputs: Seq<ChunkInput<T>>) -> PipelineView<T>
        decreases inputs.len(),
    {
        if inputs.len() == 0 {
            self
        } else {
            self.run(inputs.drop_last()).process_chunk(inputs.last()).0
        }
    }

    /// Whether the chunk at position `i` of a run announces a wake word.
    pub open spec fn fires(self, inputs: Seq<ChunkInput<T>>, i: int) -> bool {
        self.run(inputs.take(i)).process_chunk(inputs[i]).1
    }
}

proof fn lemma_add_mel_outputs<T>(s: PipelineView<T>, outputs: Seq<Seq<T>>)
    ensures
        s.add_mel_outputs(outputs).preroll == s.preroll,
        s.add_mel_outputs(outputs).embeddings == s.embeddings,
        s.add_mel_outputs(outputs).cooldown_until == s.cooldown_until,
    decreases outputs.len(),
{
    if outputs.len() > 0 {
        lemma_add_mel_outputs(s, outputs.drop_last());
    }
}

proof fn lemma_add_embeddings<T>(s: PipelineView<T>, embeddings: Seq<Seq<T>>)
    ensures
        s.add_embeddings(embeddings).preroll == s.preroll,
        s.add_embeddings(embeddings).mel_frames == s.mel_frames,
        s.add_embeddings(embeddings).cooldown_until == s.cooldown_until,
        s.embeddings.len() <= EMB_KEEP ==> s.add_embeddings(embeddings).embeddings.len()
            <= EMB_KEEP,
    decreases embeddings.len(),
{
    if embeddings.len() > 0 {
        lemma_add_embeddings(s, embeddings.drop_last());
    }
}

/// The work on one chunk keeps the bounds and never moves the end of the
/// cooldown back; a chunk that announces a wake word at `now` moves it to
/// `now` plus the cooldown.
pub proof fn law_chunk_step<T>(s: PipelineView<T>, input: ChunkInput<T>)
    ensures
        s.bounded() ==> s.process_chunk(input).0.bounded(),
        s.process_chunk(input).0.cooldown_until >= s.cooldown_until,
        s.process_chunk(input).1 ==> s.process_chunk(input).0.cooldown_until == input.now
            + COOLDOWN_NS && input.now >= s.cooldown_until,
{
    let (opened, fed) = s.squelch(input.chunk, input.now, input.loud);
    if fed is Some {
        let mel = opened.add_mel_outputs(input.mel_outputs);
        lemma_add_mel_outputs(opened, input.mel_outputs);
        let trimmed = mel.trim_mel();
        lemma_add_embeddings(trimmed, input.embeddings);
    }
}

/// Over any run of chunks the retained state stays bounded: at most
/// [`PREROLL_CHUNKS`] pre-roll chunks, [`MEL_KEEP`] frames and [`EMB_KEEP`]
/// embeddings after every chunk, however long the run.
pub proof fn law_run_bounded<T>(s: PipelineView<T>, inputs: Seq<ChunkInput<T>>)
    requires
        s.bounded(),
    ensures
        s.run(inputs).bounded(),
    decreases inputs.len(),
{
    if inputs.len() > 0 {
        law_run_bounded(s, inputs.drop_last());
        law_chunk_step(s.run(inputs.drop_last()), inputs.last());
    }
}

proof fn lemma_cooldown_grows<T>(s: PipelineView<T>, inputs: Seq<ChunkInput<T>>, i: int, k: int)
    requires
        0 <= i <= k <= inputs.len(),
    ensures
        s.run(inputs.take(k)).cooldown_until >= s.run(inputs.take(i)).cooldown_until,
    decreases k - i,
{
    if i < k {
        lemma_cooldown_grows(s, inputs, i, k - 1);
        assert(inputs.take(k).drop_last() =~= inputs.take(k - 1));
        assert(inputs.take(k).last() == inputs[k - 1]);
        law_chunk_step(s.run(inputs.take(k - 1)), inputs[k - 1]);
    }
}

/// Over any run, two wake-word announcements are at least the cooldown
/// apart: after an announcement at `t1` the classifier is not consulted and
/// nothing is announced before `t1` plus two seconds.
pub proof fn law_run_cooldown<T>(s: PipelineView<T>, inputs: Seq<ChunkInput<T>>, i: int, j: int)
    requires
        0 <= i < j < inputs.len(),
        s.fires(inputs, i),
        s.fires(inputs, j),
    ensures
        inputs[j].now >= inputs[i].now + COOLDOWN_NS,
{
    let before_i = s.run(inputs.take(i));
    law_chunk_step(before_i, inputs[i]);
    assert(inputs.take(i + 1).drop_last() =~= inputs.take(i));
    assert(inputs.take(i + 1).last() == inputs[i]);
    assert(s.run(inputs.take(i + 1)).cooldown_until == inputs[i].now + COOLDOWN_NS);
    lemma_cooldown_grows(s, inputs, i + 1, j);
    law_chunk_step(s.run(inputs.take(j)), inputs[j]);
}

} // verus!
