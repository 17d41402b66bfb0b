//! The playback engine: one sample source at a time, replaced by the latest
//! clip that was decoded, repeated without end and spread over the channels
//! of the device.

use vstd::prelude::*;
use vstd::arithmetic::div_mod::{lemma_add_mod_noop, lemma_fundamental_div_mod_converse, lemma_mod_self_0, lemma_mod_twice, lemma_small_mod};
use crate::bank::{AppState, SoundBank};
use crate::bridge::Received;
use crate::sound::KeyEvent;

verus! {

/// The mathematical content of an engine: the samples of the clip that
/// plays, and the place in them of the sample that comes next. An engine
/// that was never given a clip has no samples.
pub struct EngineState {
    pub source: Seq<i16>,
    pub cursor: nat,
}

impl EngineState {
    /// An engine that was never given a clip.
    pub open spec fn silent() -> EngineState {
        EngineState { source: Seq::empty(), cursor: 0 }
    }

    /// An engine at the start of a clip.
    pub open spec fn start(samples: Seq<i16>) -> EngineState {
        EngineState { source: samples, cursor: 0 }
    }

    /// The cursor points into the clip, or at zero where there is none.
    pub open spec fn wf(self) -> bool {
        if self.source.len() == 0 {
            self.cursor == 0
        } else {
            self.cursor < self.source.len()
        }
    }

    /// The sample that comes `k` pulls from now: the clip repeats from its
    /// first sample once its last was played, and without a clip every
    /// sample is silence.
    pub open spec fn sample_at(self, k: nat) -> i16 {
        if self.source.len() == 0 {
            0i16
        } else {
            self.source[((self.cursor + k) % self.source.len()) as int]
        }
    }

    /// The engine after `n` pulls.
    pub open spec fn advance(self, n: nat) -> EngineState {
        if self.source.len() == 0 {
            self
        } else {
            EngineState { cursor: (self.cursor + n) % self.source.len(), ..self }
        }
    }

    /// The next `frames` frames for a device of `channels` channels, frame
    /// after frame: every channel of a frame carries the same sample, and
    /// each frame takes one pull.
    pub open spec fn frames(self, frames: nat, channels: nat) -> Seq<i16> {
        Seq::new(frames * channels, |i: int| self.sample_at((i / (channels as int)) as nat))
    }

    /// The engine after `count` buffers of `size` frames each were filled.
    pub open spec fn after_buffers(self, size: nat, count: nat) -> EngineState
        decreases count,
    {
        if count == 0 {
            self
        } else {
            self.after_buffers(size, (count - 1) as nat).advance(size)
        }
    }

    /// The engine after an input: samples that were decoded replace whatever
    /// played, from their first sample on; nothing else touches the source.
    pub open spec fn step(self, input: EngineInput) -> EngineState {
        match input {
            EngineInput::Decoded(Some(samples)) => EngineState::start(samples@),
            _ => self,
        }
    }
}

/// What the engine is told: what a receive on the bridge gave, or what
/// became of the decoding that the engine asked for.
#[derive(Clone, Debug, PartialEq)]
pub enum EngineInput {
    /// The outcome of one receive on the bridge.
    Bridge(Received),
    /// The samples of the clip that was to be decoded, or nothing where its
    /// bytes are not valid audio.
    Decoded(Option<Vec<i16>>),
}

/// What the engine asks of its driver in answer to an input.
#[derive(Clone, Debug, PartialEq)]
pub enum EngineAction {
    /// Nothing: go on playing.
    Continue,
    /// Decode these bytes and hand the outcome back as `EngineInput::Decoded`.
    Decode(Vec<u8>),
    /// The stream of events has ended: stop.
    Stop,
}

/// The mathematical content of an `EngineAction`.
pub enum EngineRequest {
    Continue,
    Decode(Seq<u8>),
    Stop,
}

impl View for EngineAction {
    type V = EngineRequest;

    open spec fn view(&self) -> EngineRequest {
        match self {
            EngineAction::Continue => EngineRequest::Continue,
            EngineAction::Decode(bytes) => EngineRequest::Decode(bytes@),
            EngineAction::Stop => EngineRequest::Stop,
        }
    }
}

/// What an input makes the engine ask for: a key event for which the bank
/// holds a clip asks for that clip to be decoded, the end of the stream asks
/// to stop, and everything else, an event without a clip among it, asks for
/// nothing.
pub open spec fn request(bank: SoundBank, input: EngineInput) -> EngineRequest {
    match input {
        EngineInput::Bridge(Received::Event(event)) => match bank.lookup(event.0, event.1) {
            Some(bytes) => EngineRequest::Decode(bytes),
            None => EngineRequest::Continue,
        },
        EngineInput::Bridge(Received::Closed) => EngineRequest::Stop,
        _ => EngineRequest::Continue,
    }
}

/// The player's sample source.
pub struct PlaybackEngine {
    source: Vec<i16>,
    cursor: usize,
}

impl View for PlaybackEngine {
    type V = EngineState;

    closed spec fn view(&self) -> EngineState {
        EngineState { source: self.source@, cursor: self.cursor as nat }
    }
}

impl PlaybackEngine {
    /// Every engine keeps its cursor inside its clip.
    #[verifier::type_invariant]
    closed spec fn well_formed(&self) -> bool {
        self@.wf()
    }

    /// An engine that plays silence until a clip is decoded for it.
    pub fn new() -> (engine: Self)
        ensures
            engine@ == EngineState::silent(),
    {
        PlaybackEngine { source: Vec::new(), cursor: 0 }
    }

    /// Takes an input in and says what to do next. A key event only selects
    /// the clip to decode; the source changes when decoded samples arrive,
    /// and then the latest samples win.
    pub fn step(&mut self, bank: &AppState, input: EngineInput) -> (action: EngineAction)
        ensures
            final(self)@ == old(self)@.step(input),
            final(self)@.wf(),
            action@ == request(bank@, input),
    {
        proof {
            use_type_invariant(&*self);
        }
        match input {
            EngineInput::Bridge(received) => match received {
                Received::Event(event) => match bank.get_audio_data(&event) {
                    Some(bytes) => EngineAction::Decode(bytes),
                    None => EngineAction::Continue,
                },
                Received::Empty => EngineAction::Continue,
                Received::Closed => EngineAction::Stop,
            },
            EngineInput::Decoded(decoded) => {
                match decoded {
                    Some(samples) => {
                        *self = PlaybackEngine { source: samples, cursor: 0 };
                    },
                    None => {},
                }
                EngineAction::Continue
            },
        }
    }

    /// Pulls the next sample.
    pub fn next_sample(&mut self) -> (sample: i16)
        ensures
            sample == old(self)@.sample_at(0),
            final(self)@ == old(self)@.advance(1),
            final(self)@.wf(),
    {
        proof {
            use_type_invariant(&*self);
        }
        if self.source.len() == 0 {
            0
        } else {
            let sample = self.source[self.cursor];
            let next = self.cursor + 1;
            proof {
                let len = self.source@.len();
                lemma_small_mod(self.cursor as nat, len);
                if next < len {
                    lemma_small_mod(next as nat, len);
                } else {
                    lemma_mod_self_0(len as int);
                }
            }
            self.cursor = if next == self.source.len() {
                0
            } else {
                next
            };
            sample
        }
    }

    /// Fills one device buffer: `frames` frames of `channels` samples each.
    /// Each frame takes the next sample of the source and carries it on
    /// every channel.
    pub fn render(&mut self, frames: usize, channels: usize) -> (buffer: Vec<i16>)
        ensures
            buffer@ == old(self)@.frames(frames as nat, channels as nat),
            final(self)@ == old(self)@.advance(frames as nat),
            final(self)@.wf(),
    {
        proof {
            use_type_invariant(&*self);
            lemma_advance_none(self@);
        }
        let mut buffer: Vec<i16> = Vec::new();
        let mut frame: usize = 0;
        while frame < frames
            invariant
                frame <= frames,
                old(self)@.wf(),
                self@.wf(),
                self@ == old(self)@.advance(frame as nat),
                buffer@ == old(self)@.frames(frame as nat, channels as nat),
            decreases frames - frame,
        {
            let ghost before = buffer@;
            let sample = self.next_sample();
            let mut channel: usize = 0;
            while channel < channels
                invariant
                    channel <= channels,
                    buffer@ == before + Seq::new(channel as nat, |i: int| sample),
                decreases channels - channel,
            {
                buffer.push(sample);
                assert(buffer@ =~= before + Seq::new((channel + 1) as nat, |i: int| sample));
                channel += 1;
            }
            proof {
                lemma_advance_sample(old(self)@, frame as nat, 0);
                lemma_advance_twice(old(self)@, frame as nat, 1);
                lemma_frames_grow(old(self)@, frame as nat, channels as nat);
            }
            frame += 1;
        }
        buffer
    }
}

/// Zero pulls leave the engine where it is.
pub proof fn lemma_advance_none(engine: EngineState)
    requires
        engine.wf(),
    ensures
        engine.advance(0) == engine,
{
    if engine.source.len() > 0 {
        lemma_small_mod(engine.cursor, engine.source.len());
    }
}

/// Pulls leave no gap: the sample that comes `k` pulls after `n` pulls is the
/// one that comes `n + k` pulls from now.
pub proof fn lemma_advance_sample(engine: EngineState, n: nat, k: nat)
    ensures
        engine.advance(n).sample_at(k) == engine.sample_at(n + k),
{
    let len = engine.source.len() as int;
    let at = engine.cursor as int + n as int;
    if len > 0 {
        lemma_add_mod_noop(at, k as int, len);
        lemma_add_mod_noop(at % len, k as int, len);
        lemma_mod_twice(at, len);
    }
}

/// Pulling `a` times and then `b` times is pulling `a + b` times.
pub proof fn lemma_advance_twice(engine: EngineState, a: nat, b: nat)
    ensures
        engine.advance(a).advance(b) == engine.advance(a + b),
{
    let len = engine.source.len() as int;
    let at = engine.cursor as int + a as int;
    if len > 0 {
        lemma_add_mod_noop(at, b as int, len);
        lemma_add_mod_noop(at % len, b as int, len);
        lemma_mod_twice(at, len);
    }
}

/// One more frame adds the next sample once for each channel.
pub proof fn lemma_frames_grow(engine: EngineState, frames: nat, channels: nat)
    ensures
        engine.frames(frames + 1, channels) == engine.frames(frames, channels) + Seq::new(
            channels,
            |i: int| engine.sample_at(frames),
        ),
{
    let more = engine.frames(frames + 1, channels);
    let grown = engine.frames(frames, channels) + Seq::new(channels, |i: int| engine.sample_at(frames));
    assert((frames + 1) * channels == frames * channels + channels) by (nonlinear_arith);
    assert forall|i: int| 0 <= i < more.len() implies more[i] == grown[i] by {
        if i >= frames * channels {
            lemma_fundamental_div_mod_converse(
                i,
                channels as int,
                frames as int,
                i - (frames * channels) as int,
            );
        }
    }
    assert(more =~= grown);
}

/// Filling `count` buffers of `size` frames takes `count * size` pulls.
pub proof fn lemma_after_buffers(engine: EngineState, size: nat, count: nat)
    requires
        engine.wf(),
    ensures
        engine.after_buffers(size, count) == engine.advance(count * size),
    decreases count,
{
    if count == 0 {
        lemma_advance_none(engine);
    } else {
        let fewer = (count - 1) as nat;
        lemma_after_buffers(engine, size, fewer);
        lemma_advance_twice(engine, fewer * size, size);
        assert(fewer * size + size == count * size) by (nonlinear_arith)
            requires
                fewer + 1 == count,
        ;
    }
}

/// A clip on a one-channel device comes out in order, without a gap between
/// one buffer and the next, and starts over at its first sample after its
/// last: position `i` of the buffer that follows `count` buffers of `size`
/// frames holds sample `count * size + i` of the clip, counted round the
/// clip's length.
pub proof fn lemma_buffers_cycle_through_clip(clip: Seq<i16>, size: nat, count: nat, i: nat)
    requires
        clip.len() > 0,
        i < size,
    ensures
        EngineState::start(clip).after_buffers(size, count).frames(size, 1)[i as int] == clip[((count
            * size + i) % clip.len()) as int],
{
    let engine = EngineState::start(clip);
    lemma_after_buffers(engine, size, count);
    lemma_advance_sample(engine, count * size, i);
    assert(size * 1 == size) by (nonlinear_arith);
}

/// Every channel of a frame carries the same sample: the one that the frame
/// pulled from the source.
pub proof fn lemma_channels_carry_the_same_sample(
    engine: EngineState,
    frames: nat,
    channels: nat,
    frame: nat,
    channel: nat,
)
    requires
        frame < frames,
        channel < channels,
    ensures
        frame * channels + channel < engine.frames(frames, channels).len(),
        engine.frames(frames, channels)[(frame * channels + channel) as int] == engine.sample_at(frame),
{
    assert(frame * channels + channel < frames * channels) by (nonlinear_arith)
        requires
            frame < frames,
            channel < channels,
    ;
    lemma_fundamental_div_mod_converse(
        (frame * channels + channel) as int,
        channels as int,
        frame as int,
        channel as int,
    );
}

/// A key event for which the bank holds no clip asks for nothing and leaves
/// the engine as it is: what was playing goes on from where it was.
pub proof fn lemma_unmapped_event_changes_nothing(
    engine: EngineState,
    bank: SoundBank,
    event: KeyEvent,
    k: nat,
)
    requires
        bank.lookup(event.0, event.1) is None,
    ensures
        request(bank, EngineInput::Bridge(Received::Event(event))) == EngineRequest::Continue,
        engine.step(EngineInput::Bridge(Received::Event(event))) == engine,
        engine.step(EngineInput::Bridge(Received::Event(event))).sample_at(k) == engine.sample_at(k),
{
}

/// The latest clip wins: once the samples of a second clip arrive, however
/// far the first one got, only samples of the second come out, from its
/// first sample on and round its length.
pub proof fn lemma_latest_clip_wins(
    engine: EngineState,
    first: Vec<i16>,
    pulls: nat,
    second: Vec<i16>,
    k: nat,
)
    requires
        second@.len() > 0,
    ensures
        engine.step(EngineInput::Decoded(Some(first))).advance(pulls).step(
            EngineInput::Decoded(Some(second)),
        ) == EngineState::start(second@),
        EngineState::start(second@).sample_at(k) == second@[(k % second@.len()) as int],
{
}

} // verus!
