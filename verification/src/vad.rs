//! The speech/silence state machine of voice activity detection. The
//! per-frame speech decision comes from the model; this tracks speech
//! segments and debounces their end.
use vstd::prelude::*;

verus! {

/// What one frame means for the current speech segment.
#[derive(Debug, Clone, Copy, PartialEq, Eq, Structural)]
pub enum VadEvent {
    Silence,
    SpeechStart,
    SpeechContinue,
    SpeechEnd,
}

/// The tracker's state: whether speech is under way, the silent frames
/// seen since the last speech frame, and the speech frames of the segment.
pub struct VadView {
    pub speaking: bool,
    pub silence_frames: nat,
    pub speech_frames: nat,
}

/// The state of a tracker that has seen no speech.
pub open spec fn idle() -> VadView {
    VadView { speaking: false, silence_frames: 0, speech_frames: 0 }
}

/// One frame's transition. A speech frame starts a segment or continues
/// it; within a segment, `silence_threshold` consecutive silent frames end
/// it, reported as `SpeechEnd` if it held at least `min_speech` speech
/// frames, else discarded as `Silence`.
pub open spec fn vad_step(v: VadView, is_speech: bool, silence_threshold: nat, min_speech: nat) -> (
    VadView,
    VadEvent,
) {
    if !v.speaking {
        if is_speech {
            (VadView { speaking: true, silence_frames: 0, speech_frames: 1 }, VadEvent::SpeechStart)
        } else {
            (v, VadEvent::Silence)
        }
    } else if is_speech {
        (
            VadView { speaking: true, silence_frames: 0, speech_frames: v.speech_frames + 1 },
            VadEvent::SpeechContinue,
        )
    } else if v.silence_frames + 1 >= silence_threshold {
        (idle(), if v.speech_frames >= min_speech {
            VadEvent::SpeechEnd
        } else {
            VadEvent::Silence
        })
    } else {
        (
            VadView {
                speaking: true,
                silence_frames: v.silence_frames + 1,
                speech_frames: v.speech_frames,
            },
            VadEvent::SpeechContinue,
        )
    }
}

/// Speech segment tracking across frames.
pub struct VadState {
    is_speaking: bool,
    silence_frames: u32,
    speech_frames: u32,
}

impl VadState {
    #[verifier::type_invariant]
    spec fn inv(self) -> bool {
        !self.is_speaking ==> self.silence_frames == 0 && self.speech_frames == 0
    }

    /// The tracker's state.
    pub closed spec fn view(&self) -> VadView {
        VadView {
            speaking: self.is_speaking,
            silence_frames: self.silence_frames as nat,
            speech_frames: self.speech_frames as nat,
        }
    }

    /// A tracker that has seen no speech.
    pub fn new() -> (r: Self)
        ensures
            r@ == idle(),
    {
        VadState { is_speaking: false, silence_frames: 0, speech_frames: 0 }
    }

    /// Whether a speech segment is under way.
    pub fn is_speaking(&self) -> (b: bool)
        ensures
            b == self@.speaking,
    {
        self.is_speaking
    }

    /// Silent frames seen since the segment's last speech frame.
    pub fn silence_frames(&self) -> (n: u32)
        ensures
            n == self@.silence_frames,
    {
        self.silence_frames
    }

    /// Speech frames of the current segment.
    pub fn speech_frames(&self) -> (n: u32)
        ensures
            n == self@.speech_frames,
    {
        self.speech_frames
    }

    /// Advances by one frame, given whether the model judged it speech.
    pub fn step(&mut self, is_speech: bool, silence_threshold_frames: u32, min_speech_frames: u32) -> (r: VadEvent)
        requires
            old(self)@.silence_frames < u32::MAX,
            old(self)@.speech_frames < u32::MAX,
        ensures
            (final(self)@, r) == vad_step(
                old(self)@,
                is_speech,
                silence_threshold_frames as nat,
                min_speech_frames as nat,
            ),
    {
        proof {
            use_type_invariant(&*self);
        }
        if self.is_speaking {
            if is_speech {
                self.silence_frames = 0;
                self.speech_frames = self.speech_frames + 1;
                VadEvent::SpeechContinue
            } else {
                let silence = self.silence_frames + 1;
                if silence >= silence_threshold_frames {
                    let total_speech = self.speech_frames;
                    *self = VadState { is_speaking: false, silence_frames: 0, speech_frames: 0 };
                    if total_speech >= min_speech_frames {
                        VadEvent::SpeechEnd
                    } else {
                        VadEvent::Silence
                    }
                } else {
                    self.silence_frames = silence;
                    VadEvent::SpeechContinue
                }
            }
        } else if is_speech {
            *self = VadState { is_speaking: true, silence_frames: 0, speech_frames: 1 };
            VadEvent::SpeechStart
        } else {
            VadEvent::Silence
        }
    }

    /// Forgets the current segment.
    pub fn reset(&mut self)
        ensures
            final(self)@ == idle(),
    {
        *self = VadState { is_speaking: false, silence_frames: 0, speech_frames: 0 };
    }
}

/// A segment is reported ended only after speech was under way, the frame
/// was silent, and the segment held at least `min_speech` speech frames.
pub proof fn law_end_needs_enough_speech(v: VadView, is_speech: bool, t: nat, m: nat)
    requires
        vad_step(v, is_speech, t, m).1 == VadEvent::SpeechEnd,
    ensures
        v.speaking,
        !is_speech,
        v.speech_frames >= m,
        v.silence_frames + 1 >= t,
{
}

/// A segment starts only from silence and on a speech frame.
pub proof fn law_start_only_from_silence(v: VadView, is_speech: bool, t: nat, m: nat)
    requires
        vad_step(v, is_speech, t, m).1 == VadEvent::SpeechStart,
    ensures
        !v.speaking,
        is_speech,
{
}

/// After a frame, speech is under way exactly when the frame started or
/// continued a segment: events come bracketed, a start, continuations,
/// then an end (or a discard as silence).
pub proof fn law_speaking_matches_event(v: VadView, is_speech: bool, t: nat, m: nat)
    ensures
        vad_step(v, is_speech, t, m).0.speaking == (vad_step(v, is_speech, t, m).1
            == VadEvent::SpeechStart || vad_step(v, is_speech, t, m).1 == VadEvent::SpeechContinue),
{
}

/// A segment that holds at least `min_speech` speech frames is never
/// discarded: it goes on, holding at least as many, until it is reported
/// ended with `SpeechEnd`.
pub proof fn law_long_segment_is_kept(v: VadView, is_speech: bool, t: nat, m: nat)
    requires
        v.speaking,
        v.speech_frames >= m,
    ensures
        vad_step(v, is_speech, t, m).1 != VadEvent::Silence,
        vad_step(v, is_speech, t, m).1 != VadEvent::SpeechStart,
        vad_step(v, is_speech, t, m).0.speaking ==> vad_step(v, is_speech, t, m).0.speech_frames >= m,
{
}

/// The state and the events after frames whose speech decisions are
/// `frames`, from the state `v`.
pub open spec fn vad_run(v: VadView, frames: Seq<bool>, t: nat, m: nat) -> (VadView, Seq<VadEvent>)
    decreases frames.len(),
{
    if frames.len() == 0 {
        (v, seq![])
    } else {
        let r = vad_run(v, frames.drop_last(), t, m);
        let s = vad_step(r.0, frames.last(), t, m);
        (s.0, r.1.push(s.1))
    }
}

/// The event belongs to a segment under way.
pub open spec fn in_segment(e: VadEvent) -> bool {
    e == VadEvent::SpeechStart || e == VadEvent::SpeechContinue
}

/// From a tracker that has seen no speech, the events form the pattern
/// `(Silence | SpeechStart SpeechContinue* (SpeechEnd | Silence))*
/// (SpeechStart SpeechContinue*)?`: `SpeechContinue` and `SpeechEnd` only
/// follow `SpeechStart` or `SpeechContinue`, and `SpeechStart` never does.
pub proof fn law_events_are_bracketed(frames: Seq<bool>, t: nat, m: nat)
    ensures
        vad_run(idle(), frames, t, m).1.len() == frames.len(),
        vad_run(idle(), frames, t, m).0.speaking == (frames.len() > 0 && in_segment(
            vad_run(idle(), frames, t, m).1.last(),
        )),
        forall|i: int|
            0 <= i < frames.len() && (#[trigger] vad_run(idle(), frames, t, m).1[i]
                == VadEvent::SpeechContinue || vad_run(idle(), frames, t, m).1[i]
                == VadEvent::SpeechEnd) ==> i > 0 && in_segment(vad_run(idle(), frames, t, m).1[i - 1]),
        forall|i: int|
            0 <= i < frames.len() && #[trigger] vad_run(idle(), frames, t, m).1[i]
                == VadEvent::SpeechStart ==> i == 0 || !in_segment(vad_run(idle(), frames, t, m).1[i - 1]),
    decreases frames.len(),
{
    if frames.len() > 0 {
        let prev = frames.drop_last();
        law_events_are_bracketed(prev, t, m);
        let r = vad_run(idle(), prev, t, m);
        let ev = vad_run(idle(), frames, t, m).1;
        let e = vad_step(r.0, frames.last(), t, m).1;
        assert(ev == r.1.push(e));
        law_speaking_matches_event(r.0, frames.last(), t, m);
        assert forall|i: int|
            0 <= i < frames.len() && (#[trigger] ev[i] == VadEvent::SpeechContinue || ev[i]
                == VadEvent::SpeechEnd) implies i > 0 && in_segment(ev[i - 1]) by {
            if i < prev.len() {
                assert(ev[i] == r.1[i]);
                assert(ev[i - 1] == r.1[i - 1]);
            } else {
                assert(r.0.speaking);
                assert(ev[i - 1] == r.1.last());
            }
        }
        assert forall|i: int|
            0 <= i < frames.len() && #[trigger] ev[i] == VadEvent::SpeechStart implies i == 0
                || !in_segment(ev[i - 1]) by {
            if i < prev.len() {
                assert(ev[i] == r.1[i]);
                if i > 0 {
                    assert(ev[i - 1] == r.1[i - 1]);
                }
            } else if i > 0 {
                assert(!r.0.speaking);
                assert(ev[i - 1] == r.1.last());
            }
        }
    }
}

/// The number of speech frames among `frames`.
pub open spec fn count_speech(frames: Seq<bool>) -> nat
    decreases frames.len(),
{
    if frames.len() == 0 {
        0
    } else {
        count_speech(frames.drop_last()) + if frames.last() {
            1nat
        } else {
            0nat
        }
    }
}

/// The number of silent frames at the end of `frames`, since its last
/// speech frame.
pub open spec fn trailing_silence(frames: Seq<bool>) -> nat
    decreases frames.len(),
{
    if frames.len() == 0 || frames.last() {
        0
    } else {
        trailing_silence(frames.drop_last()) + 1
    }
}

proof fn lemma_trailing_silence(frames: Seq<bool>)
    ensures
        trailing_silence(frames) <= frames.len(),
        forall|j: int|
            frames.len() - trailing_silence(frames) <= j < frames.len() ==> !#[trigger] frames[j],
    decreases frames.len(),
{
    if frames.len() > 0 && !frames.last() {
        let p = frames.drop_last();
        lemma_trailing_silence(p);
        assert forall|j: int|
            frames.len() - trailing_silence(frames) <= j < frames.len() implies !#[trigger] frames[j] by {
            if j < p.len() {
                assert(frames[j] == p[j]);
            }
        }
    }
}

proof fn lemma_count_step(frames: Seq<bool>, s: int, n: int)
    requires
        0 <= s <= n < frames.len(),
    ensures
        count_speech(frames.subrange(s, n + 1)) == count_speech(frames.subrange(s, n)) + if frames[n] {
            1nat
        } else {
            0nat
        },
{
    let q = frames.subrange(s, n + 1);
    assert(q.drop_last() =~= frames.subrange(s, n));
    assert(q.last() == frames[n]);
}

/// Frame `i` is silent and completes a run of at least `t` consecutive
/// silent frames: the `t` frames ending with it exist and are all silent.
pub open spec fn lasting_silence_at(frames: Seq<bool>, i: int, t: nat) -> bool {
    &&& !frames[i]
    &&& i + 1 >= t
    &&& forall|j: int| i - t < j <= i ==> !#[trigger] frames[j]
}

/// Some `SpeechStart` before position `i` begins a stretch that holds at
/// least `m` speech frames up to and including frame `i`.
pub open spec fn enough_speech_before(ev: Seq<VadEvent>, frames: Seq<bool>, i: int, m: nat) -> bool {
    exists|s: int|
        0 <= s < i && #[trigger] ev[s] == VadEvent::SpeechStart && count_speech(
            frames.subrange(s, i + 1),
        ) >= m
}

/// While speech is under way, the state counts the speech frames since the
/// segment's `SpeechStart` and the silent frames since the last speech frame.
pub open spec fn counts_match(v: VadView, ev: Seq<VadEvent>, frames: Seq<bool>) -> bool {
    exists|s: int|
        0 <= s < frames.len() && #[trigger] ev[s] == VadEvent::SpeechStart && v.speech_frames
            == count_speech(frames.subrange(s, frames.len() as int)) && v.silence_frames
            == trailing_silence(frames) && trailing_silence(frames) < frames.len() - s
}

proof fn lemma_run(frames: Seq<bool>, t: nat, m: nat)
    ensures
        vad_run(idle(), frames, t, m).1.len() == frames.len(),
        !vad_run(idle(), frames, t, m).0.speaking ==> vad_run(idle(), frames, t, m).0 == idle(),
        vad_run(idle(), frames, t, m).0.speaking ==> counts_match(
            vad_run(idle(), frames, t, m).0,
            vad_run(idle(), frames, t, m).1,
            frames,
        ),
        forall|i: int|
            0 <= i < frames.len() && #[trigger] vad_run(idle(), frames, t, m).1[i]
                == VadEvent::SpeechEnd ==> lasting_silence_at(frames, i, t) && enough_speech_before(
                vad_run(idle(), frames, t, m).1,
                frames,
                i,
                m,
            ),
    decreases frames.len(),
{
    if frames.len() == 0 {
        return;
    }
    let prev = frames.drop_last();
    lemma_run(prev, t, m);
    let r = vad_run(idle(), prev, t, m);
    let f = frames.last();
    let n = prev.len() as int;
    let st = vad_step(r.0, f, t, m);
    let ev = vad_run(idle(), frames, t, m).1;
    assert(ev == r.1.push(st.1));
    assert(vad_run(idle(), frames, t, m).0 == st.0);
    lemma_trailing_silence(frames);
    assert forall|i: int|
        0 <= i < frames.len() && #[trigger] ev[i] == VadEvent::SpeechEnd implies lasting_silence_at(
        frames,
        i,
        t,
    ) && enough_speech_before(ev, frames, i, m) by {
        if i < n {
            assert(ev[i] == r.1[i]);
            assert(r.1[i] == VadEvent::SpeechEnd);
            assert(0 <= i < prev.len());
            assert(vad_run(idle(), prev, t, m).1[i] == VadEvent::SpeechEnd);
            assert(lasting_silence_at(prev, i, t));
            assert(enough_speech_before(r.1, prev, i, m));
            assert forall|j: int| i - t < j <= i implies !#[trigger] frames[j] by {
                assert(!prev[j]);
                assert(frames[j] == prev[j]);
            }
            assert(frames[i] == prev[i]);
            let s = choose|s: int|
                0 <= s < i && #[trigger] r.1[s] == VadEvent::SpeechStart && count_speech(
                    prev.subrange(s, i + 1),
                ) >= m;
            assert(frames.subrange(s, i + 1) =~= prev.subrange(s, i + 1));
            assert(ev[s] == r.1[s]);
        } else {
            assert(r.0.speaking);
            assert(counts_match(r.0, r.1, prev));
            let s = choose|s: int|
                0 <= s < n && #[trigger] r.1[s] == VadEvent::SpeechStart && r.0.speech_frames
                    == count_speech(prev.subrange(s, n)) && r.0.silence_frames == trailing_silence(
                    prev,
                ) && trailing_silence(prev) < n - s;
            assert(!f);
            assert(frames.drop_last() == prev);
            assert(trailing_silence(frames) == trailing_silence(prev) + 1);
            assert forall|j: int| i - t < j <= i implies !#[trigger] frames[j] by {
                assert(frames.len() - trailing_silence(frames) <= j);
            }
            lemma_count_step(frames, s, n);
            assert(frames.subrange(s, n) =~= prev.subrange(s, n));
            assert(ev[s] == r.1[s]);
        }
    }
    if !r.0.speaking {
        if f {
            assert(ev[n] == VadEvent::SpeechStart);
            lemma_count_step(frames, n, n);
            assert(frames.subrange(n, n) =~= Seq::<bool>::empty());
            assert(count_speech(frames.subrange(n, n + 1)) == 1);
            assert(frames.subrange(n, n + 1) == frames.subrange(n, frames.len() as int));
        }
    } else {
        assert(counts_match(r.0, r.1, prev));
        let s = choose|s: int|
            0 <= s < n && #[trigger] r.1[s] == VadEvent::SpeechStart && r.0.speech_frames
                == count_speech(prev.subrange(s, n)) && r.0.silence_frames == trailing_silence(prev)
                && trailing_silence(prev) < n - s;
        assert(ev[s] == r.1[s]);
        lemma_count_step(frames, s, n);
        assert(frames.subrange(s, n) =~= prev.subrange(s, n));
        assert(frames.drop_last() == prev);
        if st.0.speaking {
            assert(counts_match(st.0, ev, frames));
        }
    }
}

/// Segments end only on silence that lasts: a `SpeechEnd` comes on a
/// silent frame that completes `silence_threshold` consecutive silent
/// frames (a speech frame in between starts the count again), and only for
/// a segment that, since its `SpeechStart`, held at least `min_speech`
/// speech frames (silent frames do not count as speech). While speech is
/// under way, the tracker's counts are the speech frames since the
/// segment's start and the silent frames since the last speech frame.
pub proof fn law_segments_end_on_lasting_silence(frames: Seq<bool>, t: nat, m: nat)
    ensures
        forall|i: int|
            0 <= i < frames.len() && #[trigger] vad_run(idle(), frames, t, m).1[i]
                == VadEvent::SpeechEnd ==> lasting_silence_at(frames, i, t) && enough_speech_before(
                vad_run(idle(), frames, t, m).1,
                frames,
                i,
                m,
            ),
        vad_run(idle(), frames, t, m).0.speaking ==> counts_match(
            vad_run(idle(), frames, t, m).0,
            vad_run(idle(), frames, t, m).1,
            frames,
        ),
{
    lemma_run(frames, t, m);
}

} // verus!
