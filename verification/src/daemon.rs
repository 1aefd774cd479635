//! The daemon's decisions: what a control command does, what a voice
//! activity event does to the speech buffer, and what text a finished
//! speech segment injects. The loop that performs them runs outside.
use vstd::prelude::*;

use crate::agreement::{
    column_agrees, common_prefix_from, common_prefix_len, confirmed_delta, confirms_more,
    lower_words, next_confirmed, next_window, LocalAgreement, Window,
};
use crate::config::Mode;
use crate::sentence::{law_no_text_lost, split_sentences, SentenceDetector};
use crate::text::{join_words, lemma_visible_add, lemma_visible_space, lemma_visible_trim, trim, visible};
use vstd::seq_lib::lemma_flatten_concat;
use crate::vad::VadEvent;

verus! {

/// A command sent to the running daemon.
#[derive(Debug, Clone, Copy, PartialEq, Eq, Structural)]
pub enum Command {
    Toggle,
    Stop,
    Status,
}

/// What the daemon's loop does in answer to a command.
#[derive(Debug, Clone, Copy, PartialEq, Eq, Structural)]
pub enum Effect {
    /// Pause audio capture and drop the speech buffer, the agreement and
    /// sentence state and the voice activity state (VOX to PTT).
    PauseAndReset,
    /// Resume paused audio capture (PTT to VOX).
    ResumeCapture,
    /// Start audio capture, which never ran (PTT to VOX).
    StartCapture,
    /// Leave the loop.
    Stop,
    /// Report the mode and uptime.
    ReportStatus,
}

/// The mode after a toggle and what the toggle does.
pub open spec fn toggled(mode: Mode, capture_paused: bool) -> (Mode, Effect) {
    match mode {
        Mode::Vox => (Mode::Ptt, Effect::PauseAndReset),
        Mode::Ptt => (Mode::Vox, if capture_paused {
            Effect::ResumeCapture
        } else {
            Effect::StartCapture
        }),
    }
}

/// The mode and run flag of the daemon.
pub struct Control {
    mode: Mode,
    running: bool,
}

impl Control {
    /// The current mode.
    pub closed spec fn mode(&self) -> Mode {
        self.mode
    }

    /// Whether the loop goes on.
    pub closed spec fn running(&self) -> bool {
        self.running
    }

    /// A running daemon in `mode`.
    pub fn new(mode: Mode) -> (r: Self)
        ensures
            r.mode() == mode,
            r.running(),
    {
        Control { mode, running: true }
    }

    /// The current mode.
    pub fn current_mode(&self) -> (m: Mode)
        ensures
            m == self.mode(),
    {
        self.mode
    }

    /// Whether the loop goes on.
    pub fn is_running(&self) -> (b: bool)
        ensures
            b == self.running(),
    {
        self.running
    }

    /// Whether audio frames are read and processed: only in VOX mode.
    pub fn listens(&self) -> (b: bool)
        ensures
            b == (self.mode() == Mode::Vox),
    {
        self.mode == Mode::Vox
    }

    /// Applies a command; `capture_paused` tells whether audio capture is
    /// paused at the moment.
    pub fn on_command(&mut self, cmd: Command, capture_paused: bool) -> (e: Effect)
        ensures
            cmd == Command::Toggle ==> (final(self).mode(), e) == toggled(
                old(self).mode(),
                capture_paused,
            ) && final(self).running() == old(self).running(),
            cmd == Command::Stop ==> e == Effect::Stop && !final(self).running()
                && final(self).mode() == old(self).mode(),
            cmd == Command::Status ==> e == Effect::ReportStatus
                && final(self).mode() == old(self).mode()
                && final(self).running() == old(self).running(),
    {
        match cmd {
            Command::Toggle => {
                match self.mode {
                    Mode::Vox => {
                        self.mode = Mode::Ptt;
                        Effect::PauseAndReset
                    },
                    Mode::Ptt => {
                        self.mode = Mode::Vox;
                        if capture_paused {
                            Effect::ResumeCapture
                        } else {
                            Effect::StartCapture
                        }
                    },
                }
            },
            Command::Stop => {
                self.running = false;
                Effect::Stop
            },
            Command::Status => Effect::ReportStatus,
        }
    }
}

/// Two toggles give back the mode one started in.
pub proof fn law_toggle_twice_restores_mode(mode: Mode, p: bool, q: bool)
    ensures
        toggled(toggled(mode, p).0, q).0 == mode,
{
}

/// Leaving VOX always pauses capture and drops all state of the
/// segment, so nothing heard before is typed afterwards; and PTT never
/// listens.
pub proof fn law_ptt_is_silent(p: bool)
    ensures
        toggled(Mode::Vox, p) == (Mode::Ptt, Effect::PauseAndReset),
        toggled(Mode::Ptt, p).0 == Mode::Vox,
{
}

/// How often the speech heard so far is transcribed while speech goes on,
/// in milliseconds: consecutive passes over the growing speech are what the
/// agreement policy compares.
pub const PASS_INTERVAL_MS: u32 = 1000;

/// The frames between two transcription passes during speech: at least one.
pub open spec fn pass_every_of(frame_duration_ms: u32) -> nat {
    if PASS_INTERVAL_MS / frame_duration_ms >= 1 {
        (PASS_INTERVAL_MS / frame_duration_ms) as nat
    } else {
        1
    }
}

/// The number of frames between two transcription passes during speech.
pub fn pass_every_frames(frame_duration_ms: u32) -> (r: usize)
    requires
        frame_duration_ms > 0,
    ensures
        r == pass_every_of(frame_duration_ms),
        r >= 1,
{
    let k = PASS_INTERVAL_MS / frame_duration_ms;
    if k >= 1 {
        k as usize
    } else {
        1
    }
}

/// What a voice activity event does to the speech buffer.
#[derive(Debug, Clone, Copy, PartialEq, Eq, Structural)]
pub enum SegmentStep {
    /// Drop the agreement and sentence state, clear the buffer and put the
    /// frame in it.
    Restart,
    /// Add the frame to the buffer.
    Extend,
    /// Add the frame to the buffer, then transcribe the buffer as one pass.
    ExtendAndPass,
    /// Transcribe the buffer as the last pass and finish the segment.
    Finish,
    /// Nothing.
    Ignore,
}

/// The step for `event`, given the frames already in the speech buffer,
/// the frames between two passes, and whether the segment already holds
/// enough speech that it can no longer be discarded as too short. Passes
/// are made only then, so that whatever they confirm is flushed when the
/// segment is reported ended.
pub open spec fn segment_step_of(
    event: VadEvent,
    buffered_frames: nat,
    pass_every: nat,
    segment_kept: bool,
) -> SegmentStep {
    match event {
        VadEvent::SpeechStart => SegmentStep::Restart,
        VadEvent::SpeechContinue => if segment_kept && ((buffered_frames + 1) as nat) % pass_every
            == 0 {
            SegmentStep::ExtendAndPass
        } else {
            SegmentStep::Extend
        },
        VadEvent::SpeechEnd => if buffered_frames == 0 {
            SegmentStep::Ignore
        } else {
            SegmentStep::Finish
        },
        VadEvent::Silence => SegmentStep::Ignore,
    }
}

/// What the daemon does with the speech buffer on `event`, given the
/// frames already buffered, the frames between two passes, and whether the
/// segment can no longer be discarded.
pub fn segment_step(
    event: VadEvent,
    buffered_frames: usize,
    pass_every: usize,
    segment_kept: bool,
) -> (r: SegmentStep)
    requires
        pass_every > 0,
        buffered_frames < usize::MAX,
    ensures
        r == segment_step_of(event, buffered_frames as nat, pass_every as nat, segment_kept),
{
    match event {
        VadEvent::SpeechStart => SegmentStep::Restart,
        VadEvent::SpeechContinue => if segment_kept && (buffered_frames + 1) % pass_every == 0 {
            SegmentStep::ExtendAndPass
        } else {
            SegmentStep::Extend
        },
        VadEvent::SpeechEnd => if buffered_frames == 0 {
            SegmentStep::Ignore
        } else {
            SegmentStep::Finish
        },
        VadEvent::Silence => SegmentStep::Ignore,
    }
}

/// The end of a segment depends only on whether speech was buffered: a
/// non-empty buffer is always transcribed and finished, whatever the pass
/// schedule and whether the segment was kept; an empty one is left alone.
/// A start always restarts the buffer, silence never touches it, and
/// continued speech always extends it.
pub proof fn law_segment_steps(event: VadEvent, b: nat, p: nat, kept: bool)
    requires
        p > 0,
    ensures
        event == VadEvent::SpeechEnd && b > 0 ==> segment_step_of(event, b, p, kept)
            == SegmentStep::Finish,
        event == VadEvent::SpeechEnd && b == 0 ==> segment_step_of(event, b, p, kept)
            == SegmentStep::Ignore,
        event == VadEvent::SpeechStart ==> segment_step_of(event, b, p, kept) == SegmentStep::Restart,
        event == VadEvent::Silence ==> segment_step_of(event, b, p, kept) == SegmentStep::Ignore,
        event == VadEvent::SpeechContinue ==> (segment_step_of(event, b, p, kept)
            == SegmentStep::Extend || segment_step_of(event, b, p, kept)
            == SegmentStep::ExtendAndPass),
        segment_step_of(event, b, p, kept) == SegmentStep::ExtendAndPass ==> kept && ((b + 1) as nat) % p == 0,
{
}

/// The text of an optional transcript.
pub open spec fn transcript_text(t: Option<&str>) -> Option<Seq<char>> {
    match t {
        Some(s) => Some(s@),
        None => None,
    }
}

/// The words that a pass confirms: a non-empty transcript is fed to the
/// agreement policy.
pub open spec fn pass_delta(w: Window, n: nat, c: nat, t: Seq<char>) -> Option<Seq<char>> {
    if t.len() > 0 {
        confirmed_delta(next_window(w, n, lower_words(t)), n, c)
    } else {
        None
    }
}

/// Each text followed by one space, as it is typed.
pub open spec fn typed_lines(ss: Seq<Seq<char>>) -> Seq<Seq<char>> {
    ss.map_values(|s: Seq<char>| s + seq![' '])
}

/// The texts typed for a pass and the sentence buffer after it: the newly
/// confirmed words are added to the buffer after a space, and each
/// sentence they complete is typed.
pub open spec fn pass_result(w: Window, n: nat, c: nat, buffer: Seq<char>, t: Seq<char>) -> (
    Seq<Seq<char>>,
    Seq<char>,
) {
    match pass_delta(w, n, c, t) {
        Some(d) => {
            let sp = split_sentences(buffer + seq![' '] + d);
            (typed_lines(sp.0), sp.1)
        },
        None => (seq![], buffer),
    }
}

/// What is typed of a sentence buffer at the end of a segment.
pub open spec fn flush_lines(buffer: Seq<char>) -> Seq<Seq<char>> {
    if trim(buffer).len() > 0 {
        seq![trim(buffer) + seq![' ']]
    } else {
        seq![]
    }
}

/// The texts that a finished segment types, in order: those of its last
/// pass (when transcription gave one), then what remains buffered.
pub open spec fn segment_output(
    w: Window,
    n: nat,
    c: nat,
    buffer: Seq<char>,
    transcript: Option<Seq<char>>,
) -> Seq<Seq<char>> {
    match transcript {
        Some(t) => {
            let p = pass_result(w, n, c, buffer, t);
            p.0 + flush_lines(p.1)
        },
        None => flush_lines(buffer),
    }
}

/// Agreement and sentence state of the speech being transcribed.
pub struct Pipeline {
    agreement: LocalAgreement,
    sentences: SentenceDetector,
}

impl Pipeline {
    /// The agreement policy's state.
    pub closed spec fn agreement(&self) -> LocalAgreement {
        self.agreement
    }

    /// The sentence detector's state.
    pub closed spec fn sentences(&self) -> SentenceDetector {
        self.sentences
    }

    /// A pipeline whose agreement needs `n` passes.
    pub fn new(n: usize) -> (r: Self)
        ensures
            r.agreement().n() == if n >= 1 {
                n as nat
            } else {
                1
            },
            r.agreement().window().len() == 0,
            r.agreement().confirmed() == 0,
            r.sentences().buffer().len() == 0,
    {
        Pipeline { agreement: LocalAgreement::new(n), sentences: SentenceDetector::new() }
    }

    /// Drops the state of the current speech.
    pub fn reset(&mut self)
        ensures
            final(self).agreement().n() == old(self).agreement().n(),
            final(self).agreement().window().len() == 0,
            final(self).agreement().confirmed() == 0,
            final(self).sentences().buffer().len() == 0,
    {
        self.agreement.reset();
        self.sentences.reset();
    }

    /// Feeds one transcription pass over the speech heard so far and
    /// returns the texts to type, in order.
    pub fn pass(&mut self, transcript: &str) -> (r: Vec<String>)
        ensures
            r.deep_view() == pass_result(
                old(self).agreement().window(),
                old(self).agreement().n(),
                old(self).agreement().confirmed(),
                old(self).sentences().buffer(),
                transcript@,
            ).0,
            final(self).sentences().buffer() == pass_result(
                old(self).agreement().window(),
                old(self).agreement().n(),
                old(self).agreement().confirmed(),
                old(self).sentences().buffer(),
                transcript@,
            ).1,
            final(self).agreement().n() == old(self).agreement().n(),
            transcript@.len() > 0 ==> final(self).agreement().window() == next_window(
                old(self).agreement().window(),
                old(self).agreement().n(),
                lower_words(transcript@),
            ) && final(self).agreement().confirmed() == next_confirmed(
                final(self).agreement().window(),
                old(self).agreement().n(),
                old(self).agreement().confirmed(),
            ),
            transcript@.len() == 0 ==> final(self).agreement() == old(self).agreement(),
    {
        let ghost buffer = self.sentences.buffer();
        let ghost delta = pass_delta(
            self.agreement.window(),
            self.agreement.n(),
            self.agreement.confirmed(),
            transcript@,
        );
        let ghost split = match delta {
            Some(d) => split_sentences(buffer + seq![' '] + d),
            None => (seq![], buffer),
        };
        let mut out: Vec<String> = Vec::new();
        proof {
            reveal_strlit(" ");
        }
        let mut confirmed: Option<String> = None;
        if !transcript.is_empty() {
            confirmed = self.agreement.process(transcript);
        }
        assert(confirmed.deep_view() == delta);
        if let Some(words) = confirmed {
            let fed = String::from_str(" ").concat(words.as_str());
            assert(buffer + fed@ =~= buffer + seq![' '] + words@);
            let (sentences, _remaining) = self.sentences.process(fed.as_str());
            let mut k: usize = 0;
            while k < sentences.len()
                invariant
                    k <= sentences.len(),
                    sentences.deep_view() == split.0,
                    out.deep_view() == typed_lines(split.0.take(k as int)),
                    " "@ == seq![' '],
                decreases sentences.len() - k,
            {
                let ghost before = out.deep_view();
                let line = sentences[k].clone().concat(" ");
                assert(line@ == split.0[k as int] + seq![' ']);
                out.push(line);
                assert(out.deep_view() =~= before.push(line@));
                assert(split.0.take(k + 1) =~= split.0.take(k as int).push(split.0[k as int]));
                assert(out.deep_view() =~= typed_lines(split.0.take(k + 1)));
                k = k + 1;
            }
            assert(split.0.take(k as int) =~= split.0);
        } else {
            assert(out.deep_view() =~= typed_lines(split.0));
        }
        out
    }

    /// Finishes a speech segment given its last transcript (`None` when
    /// transcription failed) and returns the texts to type, in order;
    /// then drops the state of the segment.
    pub fn finish_segment(&mut self, transcript: Option<&str>) -> (r: Vec<String>)
        ensures
            r.deep_view() == segment_output(
                old(self).agreement().window(),
                old(self).agreement().n(),
                old(self).agreement().confirmed(),
                old(self).sentences().buffer(),
                transcript_text(transcript),
            ),
            final(self).agreement().n() == old(self).agreement().n(),
            final(self).agreement().window().len() == 0,
            final(self).agreement().confirmed() == 0,
            final(self).sentences().buffer().len() == 0,
    {
        let mut out = match transcript {
            Some(t) => self.pass(t),
            None => Vec::new(),
        };
        let ghost rest = self.sentences.buffer();
        let ghost typed = out.deep_view();
        proof {
            reveal_strlit(" ");
        }
        if let Some(remaining) = self.sentences.flush() {
            let line = remaining.concat(" ");
            assert(line@ == trim(rest) + seq![' ']);
            out.push(line);
            assert(out.deep_view() =~= typed + flush_lines(rest));
        } else {
            assert(out.deep_view() =~= typed + flush_lines(rest));
        }
        self.agreement.reset();
        self.sentences.reset();
        out
    }
}

/// The systemd user unit that runs the daemon from `exec_start`.
pub open spec fn service_unit_text(exec_start: Seq<char>) -> Seq<char> {
    "[Unit]\nDescription=whisper-vox always-listening voice daemon\nAfter=pipewire.service\n\n[Service]\nType=simple\nExecStart="@
        + exec_start
        + "\nRestart=on-failure\nRestartSec=3\nEnvironment=DISPLAY=:0\n\n[Install]\nWantedBy=default.target\n"@
}

/// The text of the systemd user unit that runs the daemon's executable
/// at `exec_start`.
pub fn service_unit(exec_start: &str) -> (r: String)
    ensures
        r@ == service_unit_text(exec_start@),
{
    String::from_str(
        "[Unit]\nDescription=whisper-vox always-listening voice daemon\nAfter=pipewire.service\n\n[Service]\nType=simple\nExecStart=",
    ).concat(exec_start).concat(
        "\nRestart=on-failure\nRestartSec=3\nEnvironment=DISPLAY=:0\n\n[Install]\nWantedBy=default.target\n",
    )
}

proof fn lemma_identical_passes(h: Window, k: nat)
    requires
        h.len() == 2,
        h[0] == h[1],
        k <= h[0].len(),
    ensures
        common_prefix_from(h, k) == h[0].len(),
    decreases h[0].len() - k,
{
    if k < h[0].len() {
        assert(column_agrees(h, k as int));
        lemma_identical_passes(h, k + 1);
    }
}

proof fn lemma_visible_typed(ss: Seq<Seq<char>>)
    ensures
        visible(typed_lines(ss).flatten()) == visible(ss.flatten()),
    decreases ss.len(),
{
    if ss.len() > 0 {
        let rest = ss.drop_first();
        lemma_visible_typed(rest);
        assert(typed_lines(ss).drop_first() =~= typed_lines(rest));
        assert(typed_lines(ss).first() == ss[0] + seq![' ']);
        lemma_visible_add(ss[0] + seq![' '], typed_lines(rest).flatten());
        lemma_visible_add(ss[0], seq![' ']);
        lemma_visible_add(ss[0], rest.flatten());
        lemma_visible_space();
        assert(visible(ss[0]) + Seq::<char>::empty() =~= visible(ss[0]));
    } else {
        assert(typed_lines(ss).flatten() =~= Seq::<char>::empty());
    }
}

proof fn lemma_visible_flush(b: Seq<char>)
    ensures
        visible(flush_lines(b).flatten()) == visible(b),
{
    lemma_visible_trim(b);
    let t = trim(b);
    if t.len() > 0 {
        let l = flush_lines(b);
        assert(l.drop_first() =~= Seq::<Seq<char>>::empty());
        assert(Seq::<Seq<char>>::empty().flatten() =~= Seq::<char>::empty());
        assert(l.flatten() =~= t + seq![' ']);
        lemma_visible_add(t, seq![' ']);
        lemma_visible_space();
        assert(visible(t) + Seq::<char>::empty() =~= visible(t));
    } else {
        assert(flush_lines(b).flatten() =~= Seq::<char>::empty());
        assert(visible(t) =~= Seq::<char>::empty());
    }
}

/// With a policy of two passes, two passes over a segment that agree on
/// their words type all of them: the first pass types nothing, and the end
/// of the segment, whose last pass agrees with the first, types the
/// words' text in full (every non-whitespace character, in order).
pub proof fn law_two_agreeing_passes_type_the_words(t1: Seq<char>, t2: Seq<char>)
    requires
        t1.len() > 0,
        t2.len() > 0,
        lower_words(t1) == lower_words(t2),
    ensures
        pass_result(Seq::empty(), 2, 0, Seq::empty(), t1) == (
            Seq::<Seq<char>>::empty(),
            Seq::<char>::empty(),
        ),
        next_confirmed(next_window(Seq::empty(), 2, lower_words(t1)), 2, 0) == 0,
        visible(
            segment_output(
                next_window(Seq::empty(), 2, lower_words(t1)),
                2,
                0,
                Seq::empty(),
                Some(t2),
            ).flatten(),
        ) == visible(join_words(lower_words(t1))),
{
    let lw = lower_words(t1);
    let w0: Window = Seq::empty();
    let w1 = next_window(w0, 2, lw);
    assert(w1 =~= seq![lw]);
    assert(!confirms_more(w1, 2, 0));
    let w2 = next_window(w1, 2, lw);
    assert(w2 =~= seq![lw, lw]);
    lemma_identical_passes(w2, 0);
    assert(common_prefix_len(w2) == lw.len());
    if lw.len() == 0 {
        assert(pass_delta(w1, 2, 0, t2) is None);
        lemma_visible_flush(Seq::<char>::empty());
        assert(join_words(lw) =~= Seq::<char>::empty());
    } else {
        let d = join_words(w2.last().subrange(0, lw.len() as int));
        assert(w2.last().subrange(0, lw.len() as int) =~= lw);
        assert(pass_delta(w1, 2, 0, t2) == Some(d));
        let fed = Seq::<char>::empty() + seq![' '] + d;
        let sp = split_sentences(fed);
        law_no_text_lost(fed);
        lemma_flatten_concat(typed_lines(sp.0), flush_lines(sp.1));
        lemma_visible_add(typed_lines(sp.0).flatten(), flush_lines(sp.1).flatten());
        lemma_visible_typed(sp.0);
        lemma_visible_flush(sp.1);
        lemma_visible_add(sp.0.flatten(), sp.1);
        assert(fed =~= seq![' '] + d);
        lemma_visible_add(seq![' '], d);
        lemma_visible_space();
        assert(Seq::<char>::empty() + visible(d) =~= visible(d));
    }
}

} // verus!
