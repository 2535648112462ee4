use reinschrift::voice::{
    downmix, end_capture, finish_transcription, resample, CaptureEnd, VoiceError, VoicePhase, VoiceSession,
    WorkerMessage, TARGET_RATE,
};

fn is_finished(m: &WorkerMessage) -> bool {
    matches!(m, WorkerMessage::Finished)
}

#[test]
fn empty_capture_sends_only_finished() {
    match end_capture(&Vec::new(), 2, 48000) {
        CaptureEnd::Done(ms) => {
            assert_eq!(ms.len(), 1);
            assert!(is_finished(&ms[0]));
            assert!(!ms.iter().any(|m| matches!(m, WorkerMessage::Transcription(_))));
        }
        CaptureEnd::Transcribe(_) => panic!("nothing was recorded"),
    }
}

#[test]
fn capture_is_downmixed_and_resampled() {
    let samples: Vec<i16> = vec![10, 20, -10, -21, 100, 300, 7, 7];
    match end_capture(&samples, 2, 32000) {
        CaptureEnd::Transcribe(a) => assert_eq!(a, vec![15, 200]),
        CaptureEnd::Done(_) => panic!("audio was recorded"),
    }
    assert_eq!(TARGET_RATE, 16000);
}

#[test]
fn downmix_averages_toward_zero_and_drops_partial_frames() {
    assert_eq!(downmix(&vec![10, 20, -10, -21, 5], 2), vec![15, -15]);
    assert_eq!(downmix(&vec![i16::MAX, i16::MAX, i16::MIN, i16::MIN], 2), vec![i16::MAX, i16::MIN]);
    assert_eq!(downmix(&vec![1, 2, 3], 1), vec![1, 2, 3]);
}

#[test]
fn resample_picks_nearest_earlier_sample() {
    let input: Vec<i16> = (0..12).collect();
    assert_eq!(resample(&input, 48000, 16000), vec![0, 3, 6, 9]);
    assert_eq!(resample(&vec![1, 2], 8000, 16000), vec![1, 1, 2, 2]);
    assert_eq!(resample(&vec![5, 6, 7], 16000, 16000), vec![5, 6, 7]);
    assert!(resample(&Vec::new(), 44100, 16000).is_empty());
}

#[test]
fn transcription_messages_end_with_one_finished() {
    let ms = finish_transcription(Ok(vec!["hello".to_string(), "world".to_string()]));
    assert_eq!(ms.len(), 3);
    assert!(matches!(&ms[0], WorkerMessage::Transcription(t) if t == "hello"));
    assert!(matches!(&ms[1], WorkerMessage::Transcription(t) if t == "world"));
    assert!(is_finished(&ms[2]));
    let ms = finish_transcription(Err("model failed".to_string()));
    assert!(matches!(&ms[0], WorkerMessage::Error(e) if e == "model failed"));
    assert!(is_finished(&ms[1]));
    assert_eq!(ms.len(), 2);
}

#[test]
fn session_starts_only_when_idle_with_model() {
    let mut s = VoiceSession::new();
    assert_eq!(s.start(false), Err(VoiceError::ModelNotFound));
    assert_eq!(s.phase, VoicePhase::Idle);
    assert_eq!(s.start(true), Ok(()));
    assert_eq!(s.phase, VoicePhase::Recording);
    assert!(s.recording);
    assert_eq!(s.start(true), Err(VoiceError::Busy));
    s.stop();
    assert!(!s.recording);
    assert_eq!(s.phase, VoicePhase::Recording);
}

#[test]
fn drained_transcriptions_are_space_separated() {
    let mut s = VoiceSession::new();
    s.start(true).unwrap();
    s.stop();
    let errors = s.drain(vec![
        WorkerMessage::Transcribing,
        WorkerMessage::Transcription("buy".to_string()),
        WorkerMessage::Transcription("milk".to_string()),
    ]);
    assert!(errors.is_empty());
    assert_eq!(s.phase, VoicePhase::Transcribing);
    assert_eq!(s.compose, "buy milk");
    s.drain(vec![WorkerMessage::Finished]);
    assert_eq!(s.phase, VoicePhase::Idle);
}

#[test]
fn error_message_returns_to_idle() {
    let mut s = VoiceSession::new();
    s.start(true).unwrap();
    let errors = s.drain(vec![WorkerMessage::Error("no input device".to_string()), WorkerMessage::Finished]);
    assert_eq!(errors, vec!["no input device".to_string()]);
    assert_eq!(s.phase, VoicePhase::Idle);
    assert!(!s.recording);
    assert_eq!(s.compose, "");
}
