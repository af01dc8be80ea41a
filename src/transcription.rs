use vstd::prelude::*;

use crate::backup::{base64_decoded, data_payload, decode_audio_base64};
use crate::error::SpeechError;
use crate::language::{language_of_lower_tag, SpeechLanguage};
use crate::session::{
    has_id,
    segment_views, ActiveTranscription, SegmentView, SessionStore, SpeechSession,
    TranscribeAudioPayload, TranscriptSegment,
};
use crate::text::{
    has_visible_char, is_blank, is_blank_text, lower_of, trim_of, trim_text, unicode_white_space,
};

verus! {

/// A segment as the recogniser reports it: times in hundredths of a
/// second and the raw text.
#[derive(Debug)]
pub struct RawSegment {
    pub start: i64,
    pub end: i64,
    pub text: String,
}

/// The transcript text and the segments kept from one recognition run.
#[derive(Debug)]
pub struct TranscriptionResult {
    pub transcript: String,
    pub segments: Vec<TranscriptSegment>,
}

/// The segments that are kept: trimmed, and only where text remains.
pub open spec fn kept_segments(raw: Seq<RawSegment>) -> Seq<SegmentView>
    decreases raw.len(),
{
    if raw.len() == 0 {
        Seq::empty()
    } else {
        let prefix = kept_segments(raw.drop_last());
        let last = raw.last();
        let t = trim_of(last.text@);
        if t.len() > 0 {
            prefix.push((last.start, last.end, t))
        } else {
            prefix
        }
    }
}

/// The texts of the segments, one per line.
pub open spec fn joined_lines(segs: Seq<SegmentView>) -> Seq<char>
    decreases segs.len(),
{
    if segs.len() == 0 {
        Seq::empty()
    } else if segs.len() == 1 {
        segs[0].2
    } else {
        joined_lines(segs.drop_last()) + seq!['\n'] + segs.last().2
    }
}

/// Builds the transcript from the recogniser's segments: each text is
/// trimmed, blank ones are dropped, and the rest are joined by newlines.
pub fn assemble_transcription(raw: &Vec<RawSegment>) -> (r: TranscriptionResult)
    ensures
        segment_views(r.segments@) == kept_segments(raw@),
        r.transcript@ == joined_lines(kept_segments(raw@)),
{
    let mut transcript = String::new();
    let mut segments: Vec<TranscriptSegment> = Vec::new();
    let mut i: usize = 0;
    proof {
        reveal_strlit("\n");
        assert(raw@.subrange(0, 0) =~= Seq::<RawSegment>::empty());
        assert(segment_views(segments@) =~= Seq::<SegmentView>::empty());
    }
    while i < raw.len()
        invariant
            i <= raw@.len(),
            segment_views(segments@) == kept_segments(raw@.subrange(0, i as int)),
            transcript@ == joined_lines(kept_segments(raw@.subrange(0, i as int))),
        decreases raw@.len() - i,
    {
        let seg = &raw[i];
        let text = trim_text(seg.text.as_str());
        let ghost prev = kept_segments(raw@.subrange(0, i as int));
        let ghost before = transcript@;
        assert(segments@.len() == prev.len());
        proof {
            let sub = raw@.subrange(0, i + 1);
            assert(sub.drop_last() =~= raw@.subrange(0, i as int));
            assert(sub.last() == raw@[i as int]);
        }
        if text.as_str().unicode_len() > 0 {
            if segments.len() > 0 {
                transcript.append("\n");
            }
            transcript.append(text.as_str());
            let ghost tv = text@;
            segments.push(TranscriptSegment { start: seg.start, end: seg.end, text });
            proof {
                let cur = kept_segments(raw@.subrange(0, i + 1));
                assert(cur == prev.push((seg.start, seg.end, tv)));
                assert(segment_views(segments@) =~= cur);
                assert(cur.drop_last() =~= prev);
                if prev.len() == 0 {
                    assert(transcript@ =~= joined_lines(cur));
                } else {
                    reveal_strlit("\n");
                    assert("\n"@ =~= seq!['\n']);
                    assert(transcript@ =~= before + seq!['\n'] + tv);
                    assert(cur.last().2 == tv);
                    assert(transcript@ =~= joined_lines(cur));
                }
            }
        }
        i = i + 1;
    }
    assert(raw@.subrange(0, raw@.len() as int) =~= raw@);
    TranscriptionResult { transcript, segments }
}

/// A job that has been admitted, with its recording ready to be stored.
#[derive(Debug)]
pub struct PendingTranscription {
    pub language: SpeechLanguage,
    pub audio: Vec<u8>,
    pub session_id: String,
    pub audio_path: String,
}

/// Relies on `uuid::Uuid::new_v4` and its hyphenated text form: 36
/// characters of lower-case hex digits and dashes.
#[verifier::external_body]
fn new_session_id() -> (r: String)
    ensures
        r@.len() == 36,
        forall|i: int|
            0 <= i < r@.len() ==> {
                let c = #[trigger] r@[i];
                ('0' <= c && c <= '9') || ('a' <= c && c <= 'f') || c == '-'
            },
{
    uuid::Uuid::new_v4().to_string()
}

/// The stored path of a transcribed recording.
pub open spec fn recording_path(id: Seq<char>) -> Seq<char> {
    "sessions/"@ + id + "/recording.wav"@
}

/// Some stored session has an id of the drawn ids' length, so a draw can
/// collide with it.
pub open spec fn may_collide(s: Seq<SpeechSession>) -> bool {
    exists|i: int| 0 <= i < s.len() && (#[trigger] s[i]).id@.len() == 36
}

/// How many ids are drawn before giving up on finding an unused one.
pub const SESSION_ID_ATTEMPTS: usize = 8;

impl SessionStore {
    /// Draws session ids until one is not in use; `None` where every draw
    /// collided, which needs a stored id of the drawn length.
    pub fn fresh_session_id(&self) -> (r: Option<String>)
        ensures
            r matches Some(id) ==> id@.len() == 36 && !has_id(self.sessions@, id@),
            !may_collide(self.sessions@) ==> r is Some,
    {
        let mut attempt: usize = 0;
        while attempt < SESSION_ID_ATTEMPTS
            invariant
                attempt <= SESSION_ID_ATTEMPTS,
                attempt > 0 ==> may_collide(self.sessions@),
            decreases SESSION_ID_ATTEMPTS - attempt,
        {
            let id = new_session_id();
            match self.position_of(id.as_str()) {
                None => {
                    return Some(id);
                },
                Some(i) => {
                    assert(self.sessions@[i as int].id@.len() == 36);
                },
            }
            attempt = attempt + 1;
        }
        None
    }

    /// Starts a transcription: resolves the language, decodes the audio,
    /// then claims the single-flight slot and names the new session. Each
    /// failure leaves the store as it was. With the slot free, admission
    /// can fail only where a stored id could collide with every draw.
    pub fn begin_transcription(&mut self, payload: &TranscribeAudioPayload) -> (r: Result<
        PendingTranscription,
        SpeechError,
    >)
        ensures
            final(self).sessions@ == old(self).sessions@,
            r is Err ==> final(self).active == old(self).active,
            match language_of_lower_tag(lower_of(payload.language@)) {
                None => r matches Err(SpeechError::UnsupportedLanguage(t)) && t@ == lower_of(
                    payload.language@,
                ),
                Some(l) => match base64_decoded(data_payload(payload.audio_base64@)) {
                    None => r is Err && r->Err_0 is Audio,
                    Some(bytes) => if old(self).active is Some {
                        r == Err::<PendingTranscription, SpeechError>(
                            SpeechError::TranscriptionInProgress,
                        )
                    } else if r is Err {
                        &&& r->Err_0 is Io
                        &&& final(self).active == old(self).active
                        &&& may_collide(old(self).sessions@)
                    } else {
                        &&& r->Ok_0.language == l
                        &&& r->Ok_0.audio@ == bytes
                        &&& r->Ok_0.session_id@.len() == 36
                        &&& r->Ok_0.audio_path@ == recording_path(r->Ok_0.session_id@)
                        &&& !has_id(old(self).sessions@, r->Ok_0.session_id@)
                        &&& final(self).active == Some(
                            ActiveTranscription { cancel_requested: false },
                        )
                    },
                },
            },
    {
        let language = match SpeechLanguage::parse(payload.language.as_str()) {
            Ok(l) => l,
            Err(e) => {
                return Err(e);
            },
        };
        let audio = match decode_audio_base64(payload.audio_base64.as_str()) {
            Ok(a) => a,
            Err(e) => {
                return Err(e);
            },
        };
        match self.try_admit() {
            Ok(()) => {},
            Err(e) => {
                return Err(e);
            },
        }
        let session_id = match self.fresh_session_id() {
            Some(id) => id,
            None => {
                self.release_transcription();
                return Err(SpeechError::Io(String::from_str("no unused session id could be drawn")));
            },
        };
        let mut audio_path = String::from_str("sessions/");
        audio_path.append(session_id.as_str());
        audio_path.append("/recording.wav");
        Ok(PendingTranscription { language, audio, session_id, audio_path })
    }

    /// Ends a job: frees the slot, then reports the outcome. A failed run
    /// that had been asked to stop reports cancellation, whatever the
    /// recogniser said.
    pub fn finish_transcription(&mut self, outcome: Result<Vec<RawSegment>, SpeechError>) -> (r:
        Result<TranscriptionResult, SpeechError>)
        ensures
            final(self).sessions@ == old(self).sessions@,
            final(self).active is None,
            match outcome {
                Ok(raw) => r is Ok && segment_views(r->Ok_0.segments@) == kept_segments(raw@)
                    && r->Ok_0.transcript@ == joined_lines(kept_segments(raw@)),
                Err(e) => if old(self).active is Some && old(
                    self,
                ).active->Some_0.cancel_requested {
                    r == Err::<TranscriptionResult, SpeechError>(
                        SpeechError::TranscriptionCancelled,
                    )
                } else {
                    r == Err::<TranscriptionResult, SpeechError>(e)
                },
            },
    {
        let cancelled = self.release_transcription();
        match outcome {
            Ok(raw) => Ok(assemble_transcription(&raw)),
            Err(e) => {
                if cancelled {
                    Err(SpeechError::TranscriptionCancelled)
                } else {
                    Err(e)
                }
            },
        }
    }
}

/// The title a session gets: the caller's, where given and not blank,
/// else the language's name, the word for transcription, and the clock time.
pub open spec fn session_title(
    title_override: Option<String>,
    language: SpeechLanguage,
    clock: Seq<char>,
) -> Seq<char> {
    if title_override is Some && !is_blank(title_override->Some_0@) {
        title_override->Some_0@
    } else {
        language.spec_display_name() + "转写 "@ + clock
    }
}

/// Builds the session record of a finished job, stamped with the given
/// local clock time (`HH:MM:SS`) and creation timestamp.
pub fn session_for(
    pending: PendingTranscription,
    result: TranscriptionResult,
    title_override: Option<String>,
    clock: &str,
    created_at: String,
) -> (r: SpeechSession)
    ensures
        r.id@ == pending.session_id@,
        r.title@ == session_title(title_override, pending.language, clock@),
        r.language == pending.language,
        r.transcript@ == result.transcript@,
        r.segments@ == result.segments@,
        r.audio_path@ == pending.audio_path@,
        r.created_at@ == created_at@,
        has_visible_char(r.title@),
{
    let title = match title_override {
        Some(t) => {
            if !is_blank_text(t.as_str()) {
                t
            } else {
                default_title(pending.language, clock)
            }
        },
        None => default_title(pending.language, clock),
    };
    SpeechSession {
        id: pending.session_id,
        title,
        language: pending.language,
        transcript: result.transcript,
        segments: result.segments,
        audio_path: pending.audio_path,
        created_at,
    }
}

fn default_title(language: SpeechLanguage, clock: &str) -> (r: String)
    ensures
        r@ == language.spec_display_name() + "转写 "@ + clock@,
        has_visible_char(r@),
{
    proof {
        reveal_strlit("英语");
        reveal_strlit("中文");
        reveal_strlit("转写 ");
        let t = language.spec_display_name() + "转写 "@ + clock@;
        assert(t[0] == language.spec_display_name()[0]);
        assert(!unicode_white_space(t[0]));
    }
    let mut t = String::from_str(language.display_name());
    t.append("转写 ");
    t.append(clock);
    t
}

/// A wall-clock time `HH:MM:SS`: two-digit hour, minute and second.
pub open spec fn is_clock_text(c: Seq<char>) -> bool {
    &&& c.len() == 8
    &&& c[2] == ':' && c[5] == ':'
    &&& forall|k: int|
        0 <= k < 8 && k != 2 && k != 5 ==> '0' <= #[trigger] c[k] && c[k] <= '9'
}

/// Relies on `chrono::Local::now`, formatted by `DateTime::format` as
/// `%H:%M:%S` and by `DateTime::to_rfc3339`: the local time now, as the
/// clock text and as a full timestamp of the same instant, whose time of
/// day follows the `YYYY-MM-DDT` date.
#[verifier::external_body]
fn local_timestamp() -> (r: (String, String))
    ensures
        is_clock_text(r.0@),
        r.1@.len() >= 19 && r.1@.subrange(11, 19) == r.0@,
{
    let now = chrono::Local::now();
    (now.format("%H:%M:%S").to_string(), now.to_rfc3339())
}

impl SessionStore {
    /// Stores the session of a finished job at the front of the list,
    /// stamped with the current local time, and returns a copy of it.
    pub fn record_transcription(
        &mut self,
        pending: PendingTranscription,
        result: TranscriptionResult,
        title_override: Option<String>,
    ) -> (r: SpeechSession)
        ensures
            final(self).active == old(self).active,
            final(self).sessions@.len() == old(self).sessions@.len() + 1,
            final(self).sessions@.subrange(1, final(self).sessions@.len() as int) == old(
                self,
            ).sessions@,
            r@ == final(self).sessions@[0]@,
            r.id@ == pending.session_id@,
            r.language == pending.language,
            r.transcript@ == result.transcript@,
            segment_views(r.segments@) == segment_views(result.segments@),
            r.audio_path@ == pending.audio_path@,
            title_override is Some && !is_blank(title_override->Some_0@) ==> r.title@
                == title_override->Some_0@,
            has_visible_char(r.title@),
            is_clock_text(r.created_at@.subrange(11, 19)),
            r.title@ == session_title(
                title_override,
                pending.language,
                r.created_at@.subrange(11, 19),
            ),
    {
        let (clock, created_at) = local_timestamp();
        let session = session_for(pending, result, title_override, clock.as_str(), created_at);
        let copy = session.clone();
        self.insert_newest(session);
        assert(self.sessions@.subrange(1, self.sessions@.len() as int) =~= old(self).sessions@);
        copy
    }
}

} // verus!
