use std::io::Cursor;

use base64::Engine;
use speech_sessions::audio::{
    decode_wav, frame_sums, resample_plan, resampled_length, sample_scale, DecodedAudio,
    ResampleTap, TARGET_SAMPLE_RATE,
};
use speech_sessions::backup::{
    backup_of, decode_audio_base64, prepare_import, sanitize_audio_filename,
};
use speech_sessions::error::SpeechError;
use speech_sessions::language::SpeechLanguage;
use speech_sessions::model::{
    bundled_model_locations, download_status_ok, first_present, provision_next, DownloadTracker,
    ModelStatusKind, ModelStatusResponse, ProvisionAction, ProvisionStep,
};
use speech_sessions::session::{
    text_less, ActiveTranscription, SessionStore, SpeechSession, TranscribeAudioPayload,
    TranscriptSegment, UpdateSpeechSessionPayload,
};
use speech_sessions::transcription::{assemble_transcription, session_for, RawSegment};

fn wav_int(bits: u16, channels: u16, rate: u32, samples: &[i32]) -> Vec<u8> {
    let spec = hound::WavSpec {
        channels,
        sample_rate: rate,
        bits_per_sample: bits,
        sample_format: hound::SampleFormat::Int,
    };
    let mut cursor = Cursor::new(Vec::new());
    {
        let mut w = hound::WavWriter::new(&mut cursor, spec).unwrap();
        for s in samples {
            w.write_sample(*s).unwrap();
        }
        w.finalize().unwrap();
    }
    cursor.into_inner()
}

fn wav_float(channels: u16, rate: u32, samples: &[f32]) -> Vec<u8> {
    let spec = hound::WavSpec {
        channels,
        sample_rate: rate,
        bits_per_sample: 32,
        sample_format: hound::SampleFormat::Float,
    };
    let mut cursor = Cursor::new(Vec::new());
    {
        let mut w = hound::WavWriter::new(&mut cursor, spec).unwrap();
        for s in samples {
            w.write_sample(*s).unwrap();
        }
        w.finalize().unwrap();
    }
    cursor.into_inner()
}

fn session(id: &str, created_at: &str) -> SpeechSession {
    SpeechSession {
        id: id.to_string(),
        title: format!("title {id}"),
        language: SpeechLanguage::English,
        transcript: format!("text {id}"),
        segments: vec![TranscriptSegment { start: 0, end: 150, text: format!("text {id}") }],
        audio_path: format!("sessions/{id}/recording.wav"),
        created_at: created_at.to_string(),
    }
}

#[test]
fn language_tags_resolve_ignoring_case() {
    assert_eq!(SpeechLanguage::parse("EN"), Ok(SpeechLanguage::English));
    assert_eq!(SpeechLanguage::parse("English"), Ok(SpeechLanguage::English));
    assert_eq!(SpeechLanguage::parse("zh-CN"), Ok(SpeechLanguage::Chinese));
    assert_eq!(SpeechLanguage::parse("zh-Hans"), Ok(SpeechLanguage::Chinese));
    assert_eq!(
        SpeechLanguage::parse("FR"),
        Err(SpeechError::UnsupportedLanguage("fr".to_string()))
    );
    assert_eq!(SpeechLanguage::English.code(), "en");
    assert_eq!(SpeechLanguage::Chinese.code(), "zh");
    assert_eq!(SpeechLanguage::English.display_name(), "英语");
    assert_eq!(SpeechLanguage::Chinese.display_name(), "中文");
}

#[test]
fn sample_scale_per_bit_depth() {
    assert_eq!(sample_scale(8), Ok(127));
    assert_eq!(sample_scale(16), Ok(32767));
    assert_eq!(sample_scale(24), Ok(1 << 23));
    assert_eq!(sample_scale(32), Ok(1 << 31));
    assert_eq!(sample_scale(12), Err(SpeechError::UnsupportedBitDepth(12)));
}

#[test]
fn single_tone_amplitude_for_every_depth() {
    for bits in [8u16, 16, 24, 32] {
        let peak: i64 = match bits {
            8 => 63,
            16 => 16383,
            24 => 1 << 22,
            _ => 1 << 30,
        };
        let samples: Vec<i32> = (0..64).map(|i| if i % 2 == 0 { peak as i32 } else { -(peak as i32) }).collect();
        let bytes = wav_int(bits, 1, 16000, &samples);
        match decode_wav(&bytes).unwrap() {
            DecodedAudio::Pcm { frame_sums, divisor, sample_rate } => {
                assert_eq!(sample_rate, 16000);
                assert_eq!(frame_sums.len(), 64);
                let max = frame_sums.iter().map(|s| (*s as f64 / divisor as f64).abs()).fold(0.0, f64::max);
                assert!((max - 0.5).abs() < 0.01, "bits {bits}: {max}");
            }
            other => panic!("unexpected {other:?}"),
        }
    }
    let bytes = wav_float(2, 8000, &[0.5, -0.5, 0.25, 0.75]);
    assert_eq!(
        decode_wav(&bytes).unwrap(),
        DecodedAudio::Float { channels: 2, sample_rate: 8000 }
    );
}

#[test]
fn decode_rejects_garbage() {
    assert!(matches!(decode_wav(b"not a wav file"), Err(SpeechError::Audio(_))));
    let spec_bytes = {
        let spec = hound::WavSpec {
            channels: 1,
            sample_rate: 16000,
            bits_per_sample: 8,
            sample_format: hound::SampleFormat::Int,
        };
        let mut cursor = Cursor::new(Vec::new());
        {
            let mut w = hound::WavWriter::new(&mut cursor, spec).unwrap();
            w.write_sample(1i8).unwrap();
            w.finalize().unwrap();
        }
        cursor.into_inner()
    };
    assert!(decode_wav(&spec_bytes).is_ok());
}

#[test]
fn downmix_of_channel_index_is_mean() {
    for n in 1u16..=6 {
        let frames = 5;
        let samples: Vec<i32> = (0..frames * n as usize).map(|i| (i % n as usize) as i32 + 1).collect();
        let sums = frame_sums(&samples, n);
        assert_eq!(sums.len(), frames);
        for s in sums {
            assert_eq!(s, (n as i64) * (n as i64 + 1) / 2);
            assert_eq!(s as f64 / n as f64, (n as f64 + 1.0) / 2.0);
        }
    }
    let bytes = wav_int(16, 3, 16000, &[1, 2, 3, 1, 2, 3]);
    match decode_wav(&bytes).unwrap() {
        DecodedAudio::Pcm { frame_sums, divisor, .. } => {
            assert_eq!(frame_sums, vec![6, 6]);
            assert_eq!(divisor, 3 * 32767);
        }
        other => panic!("unexpected {other:?}"),
    }
}

#[test]
fn trailing_partial_frame_is_kept() {
    assert_eq!(frame_sums(&vec![1, 2, 3, 4, 5], 2), vec![3, 7, 5]);
    assert_eq!(frame_sums(&vec![], 2), Vec::<i64>::new());
}

#[test]
fn resample_round_trip_keeps_duration() {
    for (r1, r2) in [(48000u32, 16000u32), (44100, 16000), (8000, 16000), (16000, 16000), (22050, 16000)] {
        for n in [0usize, 1, 2, 3, 100, 44100, 48001] {
            let m = resampled_length(n, r1, r2);
            let back = resampled_length(m, r2, r1);
            let drift = (back as i64 - n as i64).abs() as u64;
            assert!(drift * (r1.min(r2) as u64) < r1 as u64, "{n} {r1} {r2} {back}");
        }
    }
    assert_eq!(resampled_length(48000, 48000, TARGET_SAMPLE_RATE), 16000);
    assert_eq!(resampled_length(4, 8000, 16000), 8);
}

#[test]
fn resample_plan_taps() {
    let plan = resample_plan(4, 2, 1);
    assert_eq!(
        plan,
        vec![
            ResampleTap { index: 0, next: 1, frac_num: 0, frac_den: 1 },
            ResampleTap { index: 2, next: 3, frac_num: 0, frac_den: 1 },
        ]
    );
    let up = resample_plan(2, 1, 2);
    assert_eq!(
        up,
        vec![
            ResampleTap { index: 0, next: 1, frac_num: 0, frac_den: 2 },
            ResampleTap { index: 0, next: 1, frac_num: 1, frac_den: 2 },
            ResampleTap { index: 1, next: 1, frac_num: 0, frac_den: 2 },
            ResampleTap { index: 1, next: 1, frac_num: 1, frac_den: 2 },
        ]
    );
    assert!(resample_plan(0, 44100, 16000).is_empty());
}

#[test]
fn single_flight_admission() {
    let mut store = SessionStore::new(vec![]);
    assert_eq!(store.try_admit(), Ok(()));
    assert_eq!(store.try_admit(), Err(SpeechError::TranscriptionInProgress));
    assert!(!store.release_transcription());
    assert_eq!(store.try_admit(), Ok(()));
    assert!(store.cancel_transcription());
    assert!(store.release_transcription());
    assert_eq!(store.try_admit(), Ok(()));
}

#[test]
fn cancel_without_job_reports_false() {
    let mut store = SessionStore::new(vec![]);
    assert!(!store.cancel_transcription());
    assert!(store.active.is_none());
    let mut job = ActiveTranscription::new();
    assert!(!job.cancel_requested);
    job.cancel();
    assert!(job.cancel_requested);
}

#[test]
fn cancelled_job_resolves_with_cancelled_error() {
    let mut store = SessionStore::new(vec![]);
    store.try_admit().unwrap();
    assert!(store.cancel_transcription());
    let r = store.finish_transcription(Err(SpeechError::Whisper("aborted".to_string())));
    assert!(matches!(r, Err(SpeechError::TranscriptionCancelled)));
    assert!(store.active.is_none());
    store.try_admit().unwrap();
    let r = store.finish_transcription(Err(SpeechError::Whisper("boom".to_string())));
    assert!(matches!(r, Err(SpeechError::Whisper(m)) if m == "boom"));
}

#[test]
fn delete_removes_and_unknown_is_silent() {
    let mut store = SessionStore::new(vec![session("a", "2024-01-02"), session("b", "2024-01-01")]);
    let removed = store.delete_session("a").unwrap();
    assert_eq!(removed.id, "a");
    let ids: Vec<String> = store.list_sessions().into_iter().map(|s| s.id).collect();
    assert_eq!(ids, vec!["b".to_string()]);
    assert!(store.delete_session("zzz").is_none());
    assert_eq!(store.list_sessions().len(), 1);
}

#[test]
fn update_applies_only_non_blank_fields() {
    let mut store = SessionStore::new(vec![session("a", "2024-01-02")]);
    let s = store
        .update_session(UpdateSpeechSessionPayload {
            session_id: "a".to_string(),
            transcript: Some("new text".to_string()),
            title: Some("  New title ".to_string()),
        })
        .unwrap();
    assert_eq!(s.title, "New title");
    assert_eq!(s.transcript, "new text");
    let s = store
        .update_session(UpdateSpeechSessionPayload {
            session_id: "a".to_string(),
            transcript: Some("   ".to_string()),
            title: Some("   ".to_string()),
        })
        .unwrap();
    assert_eq!(s.title, "New title");
    assert_eq!(s.transcript, "new text");
    assert_eq!(store.list_sessions()[0].title, "New title");
    let e = store.update_session(UpdateSpeechSessionPayload {
        session_id: "missing".to_string(),
        transcript: None,
        title: None,
    });
    assert!(matches!(e, Err(SpeechError::SessionNotFound(id)) if id == "missing"));
}

#[test]
fn filename_with_separator_falls_back() {
    assert_eq!(sanitize_audio_filename("../evil.wav"), "recording.wav");
    assert_eq!(sanitize_audio_filename("a\\b.wav"), "recording.wav");
    assert_eq!(sanitize_audio_filename("   "), "recording.wav");
    assert_eq!(sanitize_audio_filename(".."), "recording.wav");
    assert_eq!(sanitize_audio_filename("  take one.wav "), "take one.wav");
}

#[test]
fn import_with_separator_in_filename_uses_default() {
    let backup = speech_sessions::backup::SpeechSessionBackup {
        id: "x1".to_string(),
        title: "t".to_string(),
        language: SpeechLanguage::Chinese,
        transcript: "tx".to_string(),
        segments: vec![],
        created_at: "2024".to_string(),
        audio_filename: "dir/clip.wav".to_string(),
        audio_base64: "AQID".to_string(),
    };
    let imported = prepare_import(&backup).unwrap();
    assert_eq!(imported.filename, "recording.wav");
    assert_eq!(imported.session.audio_path, "sessions/x1/recording.wav");
    assert_eq!(imported.audio, vec![1, 2, 3]);
}

#[test]
fn base64_payload_with_and_without_data_url() {
    assert_eq!(decode_audio_base64("data:audio/wav;base64,AQID"), Ok(vec![1, 2, 3]));
    assert_eq!(decode_audio_base64("AQID"), Ok(vec![1, 2, 3]));
    assert!(matches!(decode_audio_base64("!!!"), Err(SpeechError::Audio(_))));
}

#[test]
fn export_then_import_round_trip() {
    let originals = vec![session("n2", "2024-05-02T10:00:00+00:00"), session("n1", "2024-05-01T10:00:00+00:00")];
    let audios = vec![vec![9u8, 8, 7, 6, 5], vec![0u8; 300]];
    let mut prepared = Vec::new();
    for (s, a) in originals.iter().zip(audios.iter()) {
        let b = backup_of(s, a);
        assert_eq!(b.audio_filename, "recording.wav");
        assert_eq!(
            b.audio_base64,
            format!("data:audio/wav;base64,{}", base64::engine::general_purpose::STANDARD.encode(a))
        );
        let imported = prepare_import(&b).unwrap();
        assert_eq!(&imported.audio, a);
        prepared.push(imported.session);
    }
    let mut store = SessionStore::new(vec![]);
    assert_eq!(store.import_sessions(prepared), 2);
    let list = store.list_sessions();
    assert_eq!(list.len(), originals.len());
    for (got, want) in list.iter().zip(originals.iter()) {
        assert_eq!(got.id, want.id);
        assert_eq!(got.title, want.title);
        assert_eq!(got.transcript, want.transcript);
        assert_eq!(got.created_at, want.created_at);
        assert_eq!(got.audio_path, want.audio_path);
        assert_eq!(got.segments.len(), want.segments.len());
        assert_eq!(got.segments[0].text, want.segments[0].text);
    }
}

#[test]
fn export_guesses_mime_from_extension() {
    let mut s = session("m", "2024");
    s.audio_path = "sessions/m/clip.MP3".to_string();
    let b = backup_of(&s, &[1]);
    assert_eq!(b.audio_filename, "clip.MP3");
    assert!(b.audio_base64.starts_with("data:application/octet-stream;base64,"));
    s.audio_path = "sessions/m/clip.WAV".to_string();
    assert!(backup_of(&s, &[1]).audio_base64.starts_with("data:audio/wav;base64,"));
}

#[test]
fn import_upserts_and_sorts_newest_first() {
    let mut store = SessionStore::new(vec![session("a", "2024-01-01"), session("b", "2024-03-01")]);
    let mut replacement = session("a", "2024-02-01");
    replacement.title = "replaced".to_string();
    assert_eq!(store.import_sessions(vec![replacement, session("c", "2024-04-01")]), 2);
    let list = store.list_sessions();
    let ids: Vec<&str> = list.iter().map(|s| s.id.as_str()).collect();
    assert_eq!(ids, vec!["c", "b", "a"]);
    assert_eq!(list[2].title, "replaced");
    assert_eq!(store.import_sessions(vec![]), 0);
}

#[test]
fn text_order_is_lexicographic() {
    assert!(text_less("2024-01-01", "2024-01-02"));
    assert!(!text_less("b", "a"));
    assert!(text_less("ab", "abc"));
    assert!(!text_less("same", "same"));
}

#[test]
fn transcript_joins_non_blank_segments() {
    let raw = vec![
        RawSegment { start: 0, end: 100, text: "  hello ".to_string() },
        RawSegment { start: 100, end: 150, text: "   ".to_string() },
        RawSegment { start: 150, end: 300, text: "world".to_string() },
    ];
    let r = assemble_transcription(&raw);
    assert_eq!(r.transcript, "hello\nworld");
    assert_eq!(r.segments.len(), 2);
    assert_eq!(r.segments[0].text, "hello");
    assert_eq!((r.segments[1].start, r.segments[1].end), (150, 300));
    assert_eq!(assemble_transcription(&vec![]).transcript, "");
}

#[test]
fn silent_second_end_to_end_without_engine() {
    let wav = wav_int(16, 1, 16000, &vec![0; 16000]);
    let payload = TranscribeAudioPayload {
        audio_base64: base64::engine::general_purpose::STANDARD.encode(&wav),
        language: "en".to_string(),
        session_title: None,
    };
    let mut store = SessionStore::new(vec![]);
    let pending = store.begin_transcription(&payload).unwrap();
    assert_eq!(pending.audio.len(), wav.len());
    assert_eq!(pending.session_id.len(), 36);
    assert_eq!(pending.audio_path, format!("sessions/{}/recording.wav", pending.session_id));
    match decode_wav(&pending.audio).unwrap() {
        DecodedAudio::Pcm { frame_sums, sample_rate, .. } => {
            assert_eq!(sample_rate, 16000);
            assert_eq!(frame_sums.len(), 16000);
            assert!(frame_sums.iter().all(|s| *s == 0));
        }
        other => panic!("unexpected {other:?}"),
    }
    assert!(matches!(store.begin_transcription(&payload), Err(SpeechError::TranscriptionInProgress)));
    let result = store.finish_transcription(Ok(vec![])).unwrap();
    let id = pending.session_id.clone();
    let s = store.record_transcription(pending, result, None);
    assert_eq!(s.id, id);
    assert!(s.transcript.is_empty());
    assert!(s.title.starts_with("英语转写 "));
    assert_eq!(&s.title["英语转写 ".len()..], &s.created_at[11..19]);
    assert_eq!(store.list_sessions()[0].id, id);
    assert!(store.active.is_none());
}

#[test]
fn begin_rejects_language_before_audio() {
    let mut store = SessionStore::new(vec![]);
    let bad = TranscribeAudioPayload {
        audio_base64: "!!!".to_string(),
        language: "de".to_string(),
        session_title: None,
    };
    assert_eq!(
        store.begin_transcription(&bad).map(|_| ()),
        Err(SpeechError::UnsupportedLanguage("de".to_string()))
    );
    let shouting = TranscribeAudioPayload {
        audio_base64: "AQID".to_string(),
        language: "FR".to_string(),
        session_title: None,
    };
    assert_eq!(
        store.begin_transcription(&shouting).map(|_| ()),
        Err(SpeechError::UnsupportedLanguage("fr".to_string()))
    );
    let bad_audio = TranscribeAudioPayload {
        audio_base64: "!!!".to_string(),
        language: "zh".to_string(),
        session_title: None,
    };
    assert!(matches!(store.begin_transcription(&bad_audio), Err(SpeechError::Audio(_))));
    assert!(store.active.is_none());
}

#[test]
fn session_title_override_and_default() {
    let mk = || speech_sessions::transcription::PendingTranscription {
        language: SpeechLanguage::Chinese,
        audio: vec![],
        session_id: "id".to_string(),
        audio_path: "sessions/id/recording.wav".to_string(),
    };
    let res = || assemble_transcription(&vec![]);
    let s = session_for(mk(), res(), Some(" Mine ".to_string()), "10:11:12", "ts".to_string());
    assert_eq!(s.title, " Mine ");
    let s = session_for(mk(), res(), Some("  ".to_string()), "10:11:12", "ts".to_string());
    assert_eq!(s.title, "中文转写 10:11:12");
    assert_eq!(s.created_at, "ts");
}

#[test]
fn model_provisioning_events() {
    let p = "/m/ggml-small.bin";
    match provision_next(p, ProvisionStep::Start { model_exists: true }) {
        ProvisionAction::Finish { event, response } => {
            assert_eq!(event.status, ModelStatusKind::Exists);
            assert_eq!(event.message, None);
            assert!(response.ready && !response.downloaded);
            assert_eq!(response.model_path.as_deref(), Some(p));
        }
        other => panic!("unexpected {other:?}"),
    }
    assert!(matches!(
        provision_next(p, ProvisionStep::Start { model_exists: false }),
        ProvisionAction::SearchBundles
    ));
    assert!(matches!(
        provision_next(p, ProvisionStep::BundleSearched { found: Some(3) }),
        ProvisionAction::CopyBundle { index: 3 }
    ));
    match provision_next(p, ProvisionStep::BundleSearched { found: None }) {
        ProvisionAction::Download { event } => assert_eq!(event.status, ModelStatusKind::Downloading),
        other => panic!("unexpected {other:?}"),
    }
    match provision_next(p, ProvisionStep::BundleCopied) {
        ProvisionAction::Finish { event, response } => {
            assert_eq!(event.status, ModelStatusKind::Finished);
            assert_eq!(event.message.as_deref(), Some("使用内置模型"));
            assert!(response.ready && !response.downloaded);
        }
        other => panic!("unexpected {other:?}"),
    }
    match provision_next(p, ProvisionStep::DownloadDone { result: Ok(()) }) {
        ProvisionAction::Finish { event, response } => {
            assert_eq!(event.status, ModelStatusKind::Finished);
            assert_eq!(event.message, None);
            assert!(response.ready && response.downloaded);
        }
        other => panic!("unexpected {other:?}"),
    }
    match provision_next(p, ProvisionStep::DownloadDone { result: Err("boom".to_string()) }) {
        ProvisionAction::Fail { event, remove_partial } => {
            assert_eq!(event.status, ModelStatusKind::Failed);
            assert_eq!(event.message.as_deref(), Some("boom"));
            assert_eq!(event.model_path.as_deref(), Some(p));
            assert!(remove_partial);
        }
        other => panic!("unexpected {other:?}"),
    }
    let r = ModelStatusResponse::ready("/p", true);
    assert!(r.ready && r.downloaded);
    assert_eq!(first_present(&vec![false, true, true]), Some(1));
    assert_eq!(first_present(&vec![false, false]), None);
    let mut t = DownloadTracker::new(Some(10));
    assert_eq!(t.on_chunk(4).downloaded_bytes, 4);
    let p = t.on_chunk(6);
    assert_eq!((p.downloaded_bytes, p.total_bytes), (10, Some(10)));
}

#[test]
fn download_status_codes() {
    assert!(download_status_ok(200));
    assert!(download_status_ok(299));
    assert!(!download_status_ok(199));
    assert!(!download_status_ok(300));
    assert!(!download_status_ok(404));
}

#[test]
fn bundled_locations_in_search_order() {
    assert_eq!(
        bundled_model_locations(Some("/res"), Some("/build")),
        vec![
            "/res/models/ggml-small.bin".to_string(),
            "/res/resources/models/ggml-small.bin".to_string(),
            "/res/Resources/models/ggml-small.bin".to_string(),
            "/res/../resources/models/ggml-small.bin".to_string(),
            "/res/../Resources/models/ggml-small.bin".to_string(),
            "/build/resources/models/ggml-small.bin".to_string(),
            "resources/models/ggml-small.bin".to_string(),
            "src-tauri/resources/models/ggml-small.bin".to_string(),
        ]
    );
    assert_eq!(
        bundled_model_locations(None, None),
        vec![
            "resources/models/ggml-small.bin".to_string(),
            "src-tauri/resources/models/ggml-small.bin".to_string(),
        ]
    );
}

#[test]
fn empty_import_leaves_store_untouched() {
    let mut store = SessionStore::new(vec![session("a", "2024-01-01"), session("b", "2024-03-01")]);
    assert_eq!(store.import_sessions(vec![]), 0);
    let ids: Vec<String> = store.list_sessions().into_iter().map(|s| s.id).collect();
    assert_eq!(ids, vec!["a".to_string(), "b".to_string()]);
}

#[test]
fn fresh_session_ids_avoid_stored_ones() {
    let store = SessionStore::new(vec![session("a", "2024")]);
    let id = store.fresh_session_id().unwrap();
    assert_eq!(id.len(), 36);
    assert_ne!(id, "a");
}

#[test]
fn resampled_length_at_large_sizes() {
    let big = usize::MAX / 4;
    assert_eq!(resampled_length(big, 16000, 16000), big);
    assert_eq!(resampled_length(big, 48000, 16000), (big as u128 * 16000 / 48000) as usize + if (big as u128 * 16000 % 48000) * 2 >= 48000 { 1 } else { 0 });
    assert_eq!(resampled_length(u32::MAX as usize, 1, 1), u32::MAX as usize);
}

#[test]
fn admission_succeeds_when_no_stored_id_can_collide() {
    let wav = wav_int(16, 1, 16000, &vec![0; 160]);
    let payload = TranscribeAudioPayload {
        audio_base64: base64::engine::general_purpose::STANDARD.encode(&wav),
        language: "zh".to_string(),
        session_title: None,
    };
    let mut store = SessionStore::new(vec![session("short-id", "2024"), session("x", "2023")]);
    let pending = store.begin_transcription(&payload).unwrap();
    assert_eq!(pending.language, SpeechLanguage::Chinese);
    assert_eq!(pending.audio, wav);
    assert!(store.list_sessions().iter().all(|s| s.id != pending.session_id));
    assert!(store.active.is_some());
}
