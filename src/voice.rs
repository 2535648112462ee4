use vstd::prelude::*;
use crate::task::texts_view;

verus! {

/// The sample rate that transcription takes.
pub const TARGET_RATE: u32 = 16000;

/// How often the interactive side takes the worker's messages, in
/// milliseconds. A tuning value: nothing depends on it being exact.
pub const DRAIN_TICK_MS: u64 = 100;

/// Where the voice pipeline stands.
#[derive(Clone, Copy, Debug, PartialEq, Eq, Structural)]
pub enum VoicePhase {
    Idle,
    Recording,
    Transcribing,
}

/// What the capture worker reports back.
#[derive(Debug)]
pub enum WorkerMessage {
    Error(String),
    Transcription(String),
    Transcribing,
    Finished,
}

/// A worker message as a plain value.
pub enum MessageView {
    Error(Seq<char>),
    Transcription(Seq<char>),
    Transcribing,
    Finished,
}

impl View for WorkerMessage {
    type V = MessageView;

    open spec fn view(&self) -> MessageView {
        match self {
            WorkerMessage::Error(s) => MessageView::Error(s@),
            WorkerMessage::Transcription(s) => MessageView::Transcription(s@),
            WorkerMessage::Transcribing => MessageView::Transcribing,
            WorkerMessage::Finished => MessageView::Finished,
        }
    }
}

/// Why recording did not start.
#[derive(Clone, Copy, Debug, PartialEq, Eq, Structural)]
pub enum VoiceError {
    /// The speech model is not on this machine.
    ModelNotFound,
    /// A recording or transcription is already under way.
    Busy,
}

/// The voice pipeline as the interactive side sees it: its phase, the flag
/// that keeps the worker recording, and the text being composed.
pub struct VoiceSession {
    pub phase: VoicePhase,
    pub recording: bool,
    pub compose: String,
}

/// A voice session as plain values.
pub struct SessionView {
    pub phase: VoicePhase,
    pub recording: bool,
    pub compose: Seq<char>,
}

impl View for VoiceSession {
    type V = SessionView;

    open spec fn view(&self) -> SessionView {
        SessionView { phase: self.phase, recording: self.recording, compose: self.compose@ }
    }
}

/// Text appended to what is being composed, with a space between.
pub open spec fn appended(compose: Seq<char>, text: Seq<char>) -> Seq<char> {
    if compose.len() == 0 {
        text
    } else {
        compose + seq![' '] + text
    }
}

/// The session after one message; an error ends the run like `Finished` does.
pub open spec fn after_message(s: SessionView, m: MessageView) -> SessionView {
    match m {
        MessageView::Error(_) => SessionView {
            phase: VoicePhase::Idle,
            recording: false,
            compose: s.compose,
        },
        MessageView::Transcription(t) => SessionView { compose: appended(s.compose, t), ..s },
        MessageView::Transcribing => SessionView { phase: VoicePhase::Transcribing, ..s },
        MessageView::Finished => SessionView { phase: VoicePhase::Idle, recording: false, ..s },
    }
}

/// The session after the messages in turn.
pub open spec fn after_messages(s: SessionView, ms: Seq<MessageView>) -> SessionView
    decreases ms.len(),
{
    if ms.len() == 0 {
        s
    } else {
        after_messages(after_message(s, ms[0]), ms.drop_first())
    }
}

/// The reasons of the error messages among `ms`, in order.
pub open spec fn errors_in(ms: Seq<MessageView>) -> Seq<Seq<char>>
    decreases ms.len(),
{
    if ms.len() == 0 {
        Seq::empty()
    } else {
        match ms[0] {
            MessageView::Error(e) => seq![e] + errors_in(ms.drop_first()),
            _ => errors_in(ms.drop_first()),
        }
    }
}

/// Worker messages as plain values.
pub open spec fn messages_view(ms: Seq<WorkerMessage>) -> Seq<MessageView> {
    ms.map_values(|m: WorkerMessage| m@)
}

impl VoiceSession {
    /// An idle session with an empty text.
    pub fn new() -> (r: VoiceSession)
        ensures
            r@ == (SessionView { phase: VoicePhase::Idle, recording: false, compose: Seq::empty() }),
    {
        VoiceSession { phase: VoicePhase::Idle, recording: false, compose: String::new() }
    }

    /// Starts recording, where the session is idle and the model is present;
    /// otherwise leaves the session as it is and says why not.
    pub fn start(&mut self, model_present: bool) -> (r: Result<(), VoiceError>)
        ensures
            old(self)@.phase != VoicePhase::Idle ==> r == Err::<(), VoiceError>(VoiceError::Busy)
                && final(self)@ == old(self)@,
            old(self)@.phase == VoicePhase::Idle && !model_present ==> r == Err::<(), VoiceError>(
                VoiceError::ModelNotFound,
            ) && final(self)@ == old(self)@,
            old(self)@.phase == VoicePhase::Idle && model_present ==> r is Ok && final(self)@ == (
            SessionView { phase: VoicePhase::Recording, recording: true, ..old(self)@ }),
    {
        if self.phase != VoicePhase::Idle {
            return Err(VoiceError::Busy);
        }
        if !model_present {
            return Err(VoiceError::ModelNotFound);
        }
        self.phase = VoicePhase::Recording;
        self.recording = true;
        Ok(())
    }

    /// Asks the worker to stop recording. What it has buffered is still
    /// transcribed.
    pub fn stop(&mut self)
        ensures
            final(self)@ == (SessionView { recording: false, ..old(self)@ }),
    {
        self.recording = false;
    }

    /// Takes one message from the worker; returns the reason of an error, to
    /// be shown.
    pub fn apply(&mut self, m: WorkerMessage) -> (r: Option<String>)
        ensures
            final(self)@ == after_message(old(self)@, m@),
            match m@ {
                MessageView::Error(e) => (r matches Some(x) && x@ == e),
                _ => r is None,
            },
    {
        match m {
            WorkerMessage::Error(e) => {
                let ghost ev = e@;
                self.phase = VoicePhase::Idle;
                self.recording = false;
                let r = Some(e);
                assert(r matches Some(x) && x@ == ev);
                r
            },
            WorkerMessage::Transcription(t) => {
                let ghost tv = t@;
                if self.compose.unicode_len() == 0 {
                    self.compose = t;
                } else {
                    let mut s = self.compose.clone();
                    proof {
                        reveal_strlit(" ");
                    }
                    s.append(" ");
                    s.append(t.as_str());
                    assert(s@ =~= old(self)@.compose + seq![' '] + tv);
                    self.compose = s;
                }
                assert(self@ == after_message(old(self)@, MessageView::Transcription(tv)));
                None
            },
            WorkerMessage::Transcribing => {
                self.phase = VoicePhase::Transcribing;
                None
            },
            WorkerMessage::Finished => {
                self.phase = VoicePhase::Idle;
                self.recording = false;
                None
            },
        }
    }

    /// Takes the messages that arrived since the last tick, in order; returns
    /// the reasons of the errors among them.
    pub fn drain(&mut self, ms: Vec<WorkerMessage>) -> (r: Vec<String>)
        ensures
            final(self)@ == after_messages(old(self)@, messages_view(ms@)),
            texts_view(r@) == errors_in(messages_view(ms@)),
    {
        let ghost all = messages_view(ms@);
        let ghost start = self@;
        let mut errors: Vec<String> = Vec::new();
        let total = ms.len();
        let mut rest = ms;
        let ghost n = all.len();
        assert(all.skip(0) =~= all);
        let mut i: usize = 0;
        while rest.len() > 0
            invariant
                i + rest@.len() == n,
                n == all.len(),
                n == total,
                messages_view(rest@) == all.skip(i as int),
                after_messages(start, all) == after_messages(self@, all.skip(i as int)),
                errors_in(all) == texts_view(errors@) + errors_in(all.skip(i as int)),
            decreases rest@.len(),
        {
            let ghost before_rest = rest@;
            let m = rest.remove(0);
            let ghost mv = m@;
            assert(messages_view(before_rest)[0] == mv);
            assert(messages_view(rest@) =~= messages_view(before_rest).drop_first());
            assert(mv == all[i as int]);
            assert(all.skip(i as int).drop_first() =~= all.skip(i + 1));
            assert(all.skip(i as int)[0] == mv);
            let ghost before = texts_view(errors@);
            let e = self.apply(m);
            match e {
                Some(x) => {
                    errors.push(x);
                    assert(texts_view(errors@) =~= before.push(x@));
                    assert(before + errors_in(all.skip(i as int)) =~= before.push(x@) + errors_in(
                        all.skip(i + 1),
                    ));
                },
                None => {},
            }
            i = i + 1;
        }
        assert(all.skip(n as int) =~= Seq::<MessageView>::empty());
        assert(texts_view(errors@) + Seq::<Seq<char>>::empty() =~= texts_view(errors@));
        errors
    }
}

// ---- audio ----
/// Integer division that rounds toward zero.
pub open spec fn div_toward_zero(a: int, b: int) -> int {
    if a >= 0 {
        a / b
    } else {
        -((-a) / b)
    }
}

/// The sum of `count` samples from `start` on.
pub open spec fn frame_sum(s: Seq<i16>, start: int, count: nat) -> int
    decreases count,
{
    if count == 0 {
        0
    } else {
        frame_sum(s, start, (count - 1) as nat) + s[start + count - 1] as int
    }
}

/// Mono audio from interleaved frames of `channels` samples: each frame's
/// samples averaged. A trailing partial frame is dropped.
pub open spec fn downmixed(s: Seq<i16>, channels: nat) -> Seq<i16> {
    Seq::new(
        s.len() / channels,
        |i: int| div_toward_zero(frame_sum(s, i * channels, channels), channels as int) as i16,
    )
}

/// Audio taken from rate `from` to rate `to` by picking, for each output
/// sample, the input sample at the same time, rounded down.
pub open spec fn resampled(s: Seq<i16>, from: nat, to: nat) -> Seq<i16> {
    Seq::new(s.len() * to / from, |j: int| s[j * (from as int) / (to as int)])
}

proof fn lemma_frame_sum_bounds(s: Seq<i16>, start: int, count: nat)
    requires
        0 <= start,
        start + count <= s.len(),
    ensures
        -32768 * count <= frame_sum(s, start, count) <= 32767 * count,
    decreases count,
{
    if count > 0 {
        lemma_frame_sum_bounds(s, start, (count - 1) as nat);
    }
}

/// Averages each frame of interleaved audio into one sample.
pub fn downmix(samples: &Vec<i16>, channels: u16) -> (r: Vec<i16>)
    requires
        channels >= 1,
    ensures
        r@ == downmixed(samples@, channels as nat),
{
    let ch = channels as usize;
    let total = samples.len();
    let frames = total / ch;
    let mut out: Vec<i16> = Vec::new();
    let mut i: usize = 0;
    while i < frames
        invariant
            ch == channels as usize,
            ch >= 1,
            frames == samples@.len() / (ch as nat),
            total == samples@.len(),
            i <= frames,
            out@.len() == i,
            forall|a: int| 0 <= a < i ==> #[trigger] out@[a] == downmixed(samples@, ch as nat)[a],
        decreases frames - i,
    {
        assert((i + 1) * ch <= samples@.len()) by (nonlinear_arith)
            requires
                i < frames,
                frames == samples@.len() / (ch as nat),
                ch >= 1,
        ;
        assert(i * ch + ch == (i + 1) * ch) by (nonlinear_arith);
        let base = i * ch;
        let mut sum: i64 = 0;
        let mut c: usize = 0;
        while c < ch
            invariant
                ch >= 1,
                c <= ch,
                base + ch <= samples@.len(),
                total == samples@.len(),
                sum == frame_sum(samples@, base as int, c as nat),
                -32768 * c <= sum <= 32767 * c,
                ch <= 65535,
            decreases ch - c,
        {
            proof {
                lemma_frame_sum_bounds(samples@, base as int, (c + 1) as nat);
            }
            sum = sum + samples[base + c] as i64;
            c = c + 1;
        }
        let avg: i64 = if sum >= 0 {
            sum / (ch as i64)
        } else {
            -((-sum) / (ch as i64))
        };
        assert(-32768 <= avg <= 32767) by (nonlinear_arith)
            requires
                avg == div_toward_zero(sum as int, ch as int),
                -32768 * ch <= sum <= 32767 * ch,
                ch >= 1,
        ;
        out.push(avg as i16);
        i = i + 1;
    }
    assert(out@ =~= downmixed(samples@, ch as nat));
    out
}

/// Takes audio from one sample rate to another by nearest-sample picking.
/// Not band-limited: cheap, and good enough for speech.
pub fn resample(input: &Vec<i16>, from_rate: u32, to_rate: u32) -> (r: Vec<i16>)
    requires
        from_rate > 0,
        to_rate > 0,
        input@.len() * (to_rate as nat) / (from_rate as nat) <= usize::MAX,
    ensures
        r@ == resampled(input@, from_rate as nat, to_rate as nat),
{
    let total = input.len();
    let len = total as u128;
    let from = from_rate as u128;
    let to = to_rate as u128;
    assert(len * to <= 0xffff_ffff_ffff_ffff * 0xffff_ffff) by (nonlinear_arith)
        requires
            len <= 0xffff_ffff_ffff_ffff,
            to <= 0xffff_ffff,
    ;
    let n = (len * to / from) as usize;
    let mut out: Vec<i16> = Vec::new();
    let mut j: usize = 0;
    while j < n
        invariant
            len == input@.len(),
            total == input@.len(),
            from == from_rate,
            to == to_rate,
            from > 0,
            to > 0,
            len <= 0xffff_ffff_ffff_ffff,
            to <= 0xffff_ffff,
            from <= 0xffff_ffff,
            n == (len as int) * (to as int) / (from as int),
            j <= n,
            out@.len() == j,
            forall|a: int| 0 <= a < j ==> #[trigger] out@[a] == input@[a * (from as int) / (to as int)],
        decreases n - j,
    {
        let jj = j as u128;
        assert(jj * from <= len * to) by (nonlinear_arith)
            requires
                jj < n,
                n == (len as int) * (to as int) / (from as int),
                from > 0,
        ;
        assert(len * to <= 0xffff_ffff_ffff_ffff * 0xffff_ffff) by (nonlinear_arith)
            requires
                len <= 0xffff_ffff_ffff_ffff,
                to <= 0xffff_ffff,
        ;
        let idx = jj * from / to;
        assert(idx < len) by (nonlinear_arith)
            requires
                idx == (jj as int) * (from as int) / (to as int),
                jj < n,
                n == (len as int) * (to as int) / (from as int),
                from > 0,
                to > 0,
        ;
        let ghost before = out@;
        out.push(input[idx as usize]);
        assert(out@[j as int] == input@[(j as int) * (from as int) / (to as int)]);
        assert(forall|a: int| 0 <= a < j ==> out@[a] == before[a]);
        j = j + 1;
    }
    assert(out@ =~= resampled(input@, from_rate as nat, to_rate as nat));
    out
}

/// What the worker does once capture has stopped.
pub enum CaptureEnd {
    /// Nothing was recorded: these messages close the run.
    Done(Vec<WorkerMessage>),
    /// Report `Transcribing`, then transcribe this mono audio at the target rate.
    Transcribe(Vec<i16>),
}

/// Decides what follows a capture: an empty buffer ends the run at once;
/// otherwise the audio is downmixed to mono and brought to the target rate.
pub fn end_capture(samples: &Vec<i16>, channels: u16, rate: u32) -> (r: CaptureEnd)
    requires
        channels >= 1,
        rate > 0,
        (samples@.len() / (channels as nat)) * (TARGET_RATE as nat) / (rate as nat) <= usize::MAX,
    ensures
        samples@.len() == 0 ==> (r matches CaptureEnd::Done(ms) && messages_view(ms@) == seq![
            MessageView::Finished,
        ]),
        samples@.len() > 0 ==> (r matches CaptureEnd::Transcribe(a) && a@ == resampled(
            downmixed(samples@, channels as nat),
            rate as nat,
            TARGET_RATE as nat,
        )),
{
    if samples.len() == 0 {
        let ms = vec![WorkerMessage::Finished];
        assert(messages_view(ms@) =~= seq![MessageView::Finished]);
        return CaptureEnd::Done(ms);
    }
    let mono = downmix(samples, channels);
    CaptureEnd::Transcribe(resample(&mono, rate, TARGET_RATE))
}

/// A transcription message for each text.
pub open spec fn transcriptions(texts: Seq<Seq<char>>) -> Seq<MessageView> {
    texts.map_values(|t: Seq<char>| MessageView::Transcription(t))
}

/// The messages that close a run after transcription: each piece of text,
/// then `Finished`; or the error, then `Finished`.
pub open spec fn closing_messages(result: Result<Seq<Seq<char>>, Seq<char>>) -> Seq<MessageView> {
    match result {
        Ok(texts) => transcriptions(texts).push(
            MessageView::Finished,
        ),
        Err(e) => seq![MessageView::Error(e), MessageView::Finished],
    }
}

/// A transcription outcome as plain values.
pub open spec fn result_view(result: Result<Vec<String>, String>) -> Result<Seq<Seq<char>>, Seq<char>> {
    match result {
        Ok(v) => Ok(texts_view(v@)),
        Err(e) => Err(e@),
    }
}

/// The messages that report the outcome of a transcription.
pub fn finish_transcription(result: Result<Vec<String>, String>) -> (r: Vec<WorkerMessage>)
    ensures
        messages_view(r@) == closing_messages(result_view(result)),
{
    let ghost rv = result_view(result);
    let mut out: Vec<WorkerMessage> = Vec::new();
    match result {
        Ok(texts) => {
            let ghost tv = texts_view(texts@);
            let mut rest = texts;
            let ghost n = tv.len();
            assert(tv.skip(0) =~= tv);
            while rest.len() > 0
                invariant
                    n == tv.len(),
                    out@.len() + rest@.len() == n,
                    texts_view(rest@) == tv.skip(out@.len() as int),
                    messages_view(out@) == tv.take(out@.len() as int).map_values(
                        |t: Seq<char>| MessageView::Transcription(t),
                    ),
                decreases rest@.len(),
            {
                let k = out.len();
                let ghost before_rest = rest@;
                let t = rest.remove(0);
                assert(texts_view(before_rest)[0] == t@);
                assert(t@ == tv[k as int]);
                assert(rest@ =~= before_rest.drop_first());
                assert(texts_view(rest@) =~= tv.skip(k + 1)) by {
                    assert forall|a: int| 0 <= a < rest@.len() implies #[trigger] texts_view(rest@)[a]
                        == tv.skip(k + 1)[a] by {
                        assert(rest@[a] == before_rest[a + 1]);
                        assert(texts_view(before_rest)[a + 1] == tv.skip(
                            k as int,
                        )[a + 1]);
                    }
                }
                let ghost prev = messages_view(out@);
                out.push(WorkerMessage::Transcription(t));
                assert(messages_view(out@) =~= prev.push(MessageView::Transcription(tv[k as int])));
                assert(messages_view(out@) =~= tv.take(k + 1).map_values(
                    |t: Seq<char>| MessageView::Transcription(t),
                ));
            }
            out.push(WorkerMessage::Finished);
            assert(tv.take(n as int) =~= tv);
            assert(messages_view(out@) =~= closing_messages(rv));
        },
        Err(e) => {
            out.push(WorkerMessage::Error(e));
            out.push(WorkerMessage::Finished);
            assert(messages_view(out@) =~= closing_messages(rv));
        },
    }
    out
}

/// How many of `ms` are `Finished`.
pub open spec fn finished_count(ms: Seq<MessageView>) -> nat
    decreases ms.len(),
{
    if ms.len() == 0 {
        0
    } else {
        (if ms[0] is Finished {
            1nat
        } else {
            0nat
        }) + finished_count(ms.drop_first())
    }
}

/// How many of `ms` are transcriptions.
pub open spec fn transcription_count(ms: Seq<MessageView>) -> nat
    decreases ms.len(),
{
    if ms.len() == 0 {
        0
    } else {
        (if ms[0] is Transcription {
            1nat
        } else {
            0nat
        }) + transcription_count(ms.drop_first())
    }
}

/// Stopping a capture that recorded nothing yields no transcription and
/// exactly one `Finished`, which ends the sequence.
pub proof fn lemma_empty_capture_messages(ms: Seq<MessageView>)
    requires
        ms == seq![MessageView::Finished],
    ensures
        transcription_count(ms) == 0,
        finished_count(ms) == 1,
        ms.last() is Finished,
{
    assert(ms.drop_first() =~= Seq::<MessageView>::empty());
    assert(transcription_count(ms.drop_first()) == 0);
    assert(finished_count(ms.drop_first()) == 0);
}

proof fn lemma_no_finished(texts: Seq<Seq<char>>)
    ensures
        finished_count(transcriptions(texts)) == 0,
    decreases texts.len(),
{
    if texts.len() > 0 {
        lemma_no_finished(texts.drop_first());
        assert(transcriptions(texts).drop_first()
            =~= transcriptions(texts.drop_first()));
    }
}

proof fn lemma_finished_count_push(ms: Seq<MessageView>, m: MessageView)
    ensures
        finished_count(ms.push(m)) == finished_count(ms) + (if m is Finished {
            1nat
        } else {
            0nat
        }),
    decreases ms.len(),
{
    if ms.len() > 0 {
        assert(ms.push(m).drop_first() =~= ms.drop_first().push(m));
        assert(ms.push(m)[0] == ms[0]);
        lemma_finished_count_push(ms.drop_first(), m);
    } else {
        assert(ms.push(m).drop_first() =~= Seq::<MessageView>::empty());
        assert(finished_count(ms.push(m).drop_first()) == 0);
        assert(ms.push(m)[0] == m);
    }
}

/// Every run that gets as far as transcription closes with exactly one
/// `Finished`, as its last message.
pub proof fn lemma_run_finishes_once(result: Result<Seq<Seq<char>>, Seq<char>>)
    ensures
        finished_count(seq![MessageView::Transcribing] + closing_messages(result)) == 1,
        (seq![MessageView::Transcribing] + closing_messages(result)).last() is Finished,
{
    let ms = seq![MessageView::Transcribing] + closing_messages(result);
    assert(ms.drop_first() =~= closing_messages(result));
    if result is Ok {
        let texts = result->Ok_0;
        {
            let body = transcriptions(texts);
            lemma_no_finished(texts);
            lemma_finished_count_push(body, MessageView::Finished);
            assert(closing_messages(result) == body.push(MessageView::Finished));
            assert(ms[0] == MessageView::Transcribing);
            assert(finished_count(ms) == finished_count(ms.drop_first()));
            assert(finished_count(body) == 0);
            assert(finished_count(body.push(MessageView::Finished)) == 1);
            assert(finished_count(ms.drop_first()) == 1);
            assert(ms.last() == ms.drop_first().last());
        }
    } else {
        {
            let c = closing_messages(result);
            assert(c.drop_first() =~= seq![MessageView::Finished]);
            assert(c.drop_first().drop_first() =~= Seq::<MessageView>::empty());
            assert(finished_count(c.drop_first().drop_first()) == 0);
            assert(finished_count(c.drop_first()) == 1);
            assert(finished_count(c) == 1);
            assert(finished_count(ms) == finished_count(ms.drop_first()));
            assert(ms.last() == ms.drop_first().last());
        }
    }
}

} // verus!
