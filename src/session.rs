use vstd::prelude::*;
use vstd::seq_lib::{to_multiset_build, to_multiset_insert};

use crate::error::SpeechError;
use crate::language::SpeechLanguage;
use crate::text::{is_blank, is_blank_text, text_eq, trim_of, trim_text};

verus! {

/// A timed piece of recognised text; times are in hundredths of a second,
/// the recogniser's own unit.
#[derive(Debug)]
pub struct TranscriptSegment {
    pub start: i64,
    pub end: i64,
    pub text: String,
}

/// A segment as plain values: start, end and text.
pub type SegmentView = (i64, i64, Seq<char>);

impl View for TranscriptSegment {
    type V = SegmentView;

    open spec fn view(&self) -> SegmentView {
        (self.start, self.end, self.text@)
    }
}

/// The views of a segment list.
pub open spec fn segment_views(s: Seq<TranscriptSegment>) -> Seq<SegmentView> {
    s.map_values(|x: TranscriptSegment| x@)
}

impl Clone for TranscriptSegment {
    fn clone(&self) -> (r: Self)
        ensures
            r == *self,
    {
        TranscriptSegment { start: self.start, end: self.end, text: self.text.clone() }
    }
}

/// Copies a segment list element by element.
pub fn clone_segments(v: &Vec<TranscriptSegment>) -> (r: Vec<TranscriptSegment>)
    ensures
        r@ == v@,
        segment_views(r@) == segment_views(v@),
{
    let mut out: Vec<TranscriptSegment> = Vec::new();
    let mut i: usize = 0;
    while i < v.len()
        invariant
            i <= v@.len(),
            out@ == v@.subrange(0, i as int),
        decreases v@.len() - i,
    {
        out.push(v[i].clone());
        i = i + 1;
        assert(out@ == v@.subrange(0, i as int));
    }
    assert(v@.subrange(0, v@.len() as int) == v@);
    out
}

/// One persisted transcription: the recording's location relative to the
/// storage base, the transcript and its timed segments.
#[derive(Debug)]
pub struct SpeechSession {
    pub id: String,
    pub title: String,
    pub language: SpeechLanguage,
    pub transcript: String,
    pub segments: Vec<TranscriptSegment>,
    pub audio_path: String,
    pub created_at: String,
}

/// A session as plain values.
pub struct SessionView {
    pub id: Seq<char>,
    pub title: Seq<char>,
    pub language: SpeechLanguage,
    pub transcript: Seq<char>,
    pub segments: Seq<SegmentView>,
    pub audio_path: Seq<char>,
    pub created_at: Seq<char>,
}

impl View for SpeechSession {
    type V = SessionView;

    open spec fn view(&self) -> SessionView {
        SessionView {
            id: self.id@,
            title: self.title@,
            language: self.language,
            transcript: self.transcript@,
            segments: segment_views(self.segments@),
            audio_path: self.audio_path@,
            created_at: self.created_at@,
        }
    }
}

/// The views of a session list.
pub open spec fn session_views(s: Seq<SpeechSession>) -> Seq<SessionView> {
    s.map_values(|x: SpeechSession| x@)
}

impl Clone for SpeechSession {
    fn clone(&self) -> (r: Self)
        ensures
            r@ == self@,
    {
        SpeechSession {
            id: self.id.clone(),
            title: self.title.clone(),
            language: self.language,
            transcript: self.transcript.clone(),
            segments: clone_segments(&self.segments),
            audio_path: self.audio_path.clone(),
            created_at: self.created_at.clone(),
        }
    }
}

/// Request to transcribe a recording.
#[derive(Debug)]
pub struct TranscribeAudioPayload {
    pub audio_base64: String,
    pub language: String,
    pub session_title: Option<String>,
}

/// Reply to a transcription request.
#[derive(Debug)]
pub struct TranscribeAudioResponse {
    pub session: SpeechSession,
}

/// Partial update of one session.
#[derive(Debug)]
pub struct UpdateSpeechSessionPayload {
    pub session_id: String,
    pub transcript: Option<String>,
    pub title: Option<String>,
}

/// The single in-flight transcription and whether it was asked to stop.
#[derive(Debug, Clone, Copy, PartialEq, Eq, Structural)]
pub struct ActiveTranscription {
    pub cancel_requested: bool,
}

impl ActiveTranscription {
    pub fn new() -> (r: Self)
        ensures
            !r.cancel_requested,
    {
        ActiveTranscription { cancel_requested: false }
    }

    /// Asks the job to stop; the recogniser notices the next time it polls.
    pub fn cancel(&mut self)
        ensures
            final(self).cancel_requested,
    {
        self.cancel_requested = true;
    }
}

/// The single-flight slot after an admission attempt, with its outcome:
/// refused while a job holds it, else taken by a job not asked to stop.
pub open spec fn admission(active: Option<ActiveTranscription>) -> (
    Result<(), SpeechError>,
    Option<ActiveTranscription>,
) {
    if active is Some {
        (Err(SpeechError::TranscriptionInProgress), active)
    } else {
        (Ok(()), Some(ActiveTranscription { cancel_requested: false }))
    }
}

/// The slot after a cancellation request, and whether a job was found.
pub open spec fn cancellation(active: Option<ActiveTranscription>) -> (
    bool,
    Option<ActiveTranscription>,
) {
    match active {
        Some(_) => (true, Some(ActiveTranscription { cancel_requested: true })),
        None => (false, None),
    }
}

/// The slot after release, and whether the released job had been asked to stop.
pub open spec fn release(active: Option<ActiveTranscription>) -> (
    bool,
    Option<ActiveTranscription>,
) {
    (active is Some && active->Some_0.cancel_requested, None)
}

/// At most one job runs at a time: a start while a job holds the slot is
/// refused with the in-progress error, and once that job is released,
/// whether it completed or was cancelled, the next start is admitted.
pub proof fn lemma_single_flight(active: Option<ActiveTranscription>)
    ensures
        active is Some ==> admission(active).0 == Err::<(), SpeechError>(
            SpeechError::TranscriptionInProgress,
        ),
        admission(admission(active).1).0 == Err::<(), SpeechError>(
            SpeechError::TranscriptionInProgress,
        ),
        admission(release(admission(active).1).1).0 is Ok,
        admission(release(cancellation(admission(active).1).1).1).0 is Ok,
{
}

/// Cancelling with no job running reports false and changes nothing;
/// cancelling a running job reports true, and releasing that job then
/// reports that it was asked to stop, so its run resolves as cancelled.
pub proof fn lemma_cancel_reaches_job(active: Option<ActiveTranscription>)
    ensures
        active is None ==> cancellation(active) == (false, active),
        active is Some ==> cancellation(active).0 && release(cancellation(active).1).0,
{
}

/// Whether some session carries the id.
pub open spec fn has_id(s: Seq<SpeechSession>, id: Seq<char>) -> bool {
    exists|i: int| 0 <= i < s.len() && (#[trigger] s[i]).id@ == id
}

/// `i` is the first position whose session carries the id.
pub open spec fn is_first_match(s: Seq<SpeechSession>, id: Seq<char>, i: int) -> bool {
    &&& 0 <= i < s.len()
    &&& s[i].id@ == id
    &&& forall|j: int| 0 <= j < i ==> (#[trigger] s[j]).id@ != id
}

/// No two sessions share an id.
pub open spec fn ids_unique(s: Seq<SpeechSession>) -> bool {
    forall|i: int, j: int| 0 <= i < j < s.len() ==> (#[trigger] s[i]).id@ != (#[trigger] s[j]).id@
}

/// `n` is `s` after a partial update: a title or transcript is applied
/// only where it is given and not blank; a title is stored trimmed.
pub open spec fn session_updated(
    s: SpeechSession,
    n: SpeechSession,
    title: Option<String>,
    transcript: Option<String>,
) -> bool {
    &&& n.id == s.id
    &&& n.language == s.language
    &&& n.segments == s.segments
    &&& n.audio_path == s.audio_path
    &&& n.created_at == s.created_at
    &&& n.title@ == if title is Some && !is_blank(title->Some_0@) {
        trim_of(title->Some_0@)
    } else {
        s.title@
    }
    &&& n.transcript@ == if transcript is Some && !is_blank(transcript->Some_0@) {
        transcript->Some_0@
    } else {
        s.transcript@
    }
}

/// The in-memory session list, newest first, and the single-flight slot.
pub struct SessionStore {
    pub sessions: Vec<SpeechSession>,
    pub active: Option<ActiveTranscription>,
}

impl SessionStore {
    /// A store over a loaded session list, with no job running.
    pub fn new(sessions: Vec<SpeechSession>) -> (r: Self)
        ensures
            r.sessions@ == sessions@,
            r.active is None,
    {
        SessionStore { sessions, active: None }
    }

    /// A snapshot of all sessions.
    pub fn list_sessions(&self) -> (r: Vec<SpeechSession>)
        ensures
            session_views(r@) == session_views(self.sessions@),
    {
        let mut out: Vec<SpeechSession> = Vec::new();
        let mut i: usize = 0;
        while i < self.sessions.len()
            invariant
                i <= self.sessions@.len(),
                out@.len() == i,
                forall|k: int| 0 <= k < i ==> (#[trigger] out@[k])@ == self.sessions@[k]@,
            decreases self.sessions@.len() - i,
        {
            out.push(self.sessions[i].clone());
            i = i + 1;
        }
        assert(session_views(out@) =~= session_views(self.sessions@));
        out
    }

    /// Position of the first session with the id.
    pub fn position_of(&self, id: &str) -> (r: Option<usize>)
        ensures
            match r {
                Some(i) => is_first_match(self.sessions@, id@, i as int),
                None => !has_id(self.sessions@, id@),
            },
    {
        let mut i: usize = 0;
        while i < self.sessions.len()
            invariant
                i <= self.sessions@.len(),
                forall|j: int| 0 <= j < i ==> (#[trigger] self.sessions@[j]).id@ != id@,
            decreases self.sessions@.len() - i,
        {
            if text_eq(self.sessions[i].id.as_str(), id) {
                return Some(i);
            }
            i = i + 1;
        }
        None
    }

    /// Removes the first session with the id; an unknown id changes nothing.
    pub fn delete_session(&mut self, session_id: &str) -> (r: Option<SpeechSession>)
        ensures
            final(self).active == old(self).active,
            match r {
                None => !has_id(old(self).sessions@, session_id@) && final(self).sessions@ == old(
                    self,
                ).sessions@,
                Some(x) => exists|i: int|
                    #![trigger old(self).sessions@[i]]
                    is_first_match(old(self).sessions@, session_id@, i) && x == old(
                        self,
                    ).sessions@[i] && final(self).sessions@ == old(self).sessions@.remove(i),
            },
            ids_unique(old(self).sessions@) ==> !has_id(final(self).sessions@, session_id@)
                && ids_unique(final(self).sessions@),
    {
        match self.position_of(session_id) {
            Some(i) => {
                let ghost before = self.sessions@;
                let removed = self.sessions.remove(i);
                proof {
                    assert(before[i as int] == removed);
                    if ids_unique(before) {
                        assert forall|k: int| 0 <= k < self.sessions@.len() implies (
                        #[trigger] self.sessions@[k]).id@ != session_id@ by {
                            if k < i {
                                assert(self.sessions@[k] == before[k]);
                            } else {
                                assert(self.sessions@[k] == before[k + 1]);
                            }
                        }
                        assert forall|p: int, q: int|
                            0 <= p < q < self.sessions@.len() implies (
                        #[trigger] self.sessions@[p]).id@ != (
                        #[trigger] self.sessions@[q]).id@ by {
                            let pp = if p < i {
                                p
                            } else {
                                p + 1
                            };
                            let qq = if q < i {
                                q
                            } else {
                                q + 1
                            };
                            assert(self.sessions@[p] == before[pp]);
                            assert(self.sessions@[q] == before[qq]);
                        }
                    }
                }
                Some(removed)
            },
            None => None,
        }
    }

    /// Applies a partial update to the first session with the id.
    pub fn update_session(&mut self, payload: UpdateSpeechSessionPayload) -> (r: Result<
        SpeechSession,
        SpeechError,
    >)
        ensures
            final(self).active == old(self).active,
            match r {
                Err(e) => {
                    &&& !has_id(old(self).sessions@, payload.session_id@)
                    &&& e == SpeechError::SessionNotFound(payload.session_id)
                    &&& final(self).sessions@ == old(self).sessions@
                },
                Ok(n) => exists|i: int|
                    #![trigger old(self).sessions@[i]]
                    {
                        &&& is_first_match(old(self).sessions@, payload.session_id@, i)
                        &&& session_updated(
                            old(self).sessions@[i],
                            final(self).sessions@[i],
                            payload.title,
                            payload.transcript,
                        )
                        &&& n@ == final(self).sessions@[i]@
                        &&& final(self).sessions@ == old(self).sessions@.update(
                            i,
                            final(self).sessions@[i],
                        )
                    },
            },
    {
        let UpdateSpeechSessionPayload { session_id, transcript, title } = payload;
        let i = match self.position_of(session_id.as_str()) {
            Some(i) => i,
            None => {
                return Err(SpeechError::SessionNotFound(session_id));
            },
        };
        let ghost before = self.sessions@;
        let mut session = self.sessions.remove(i);
        match &title {
            Some(t) => {
                if !is_blank_text(t.as_str()) {
                    session.title = trim_text(t.as_str());
                }
            },
            None => {},
        }
        match &transcript {
            Some(t) => {
                if !is_blank_text(t.as_str()) {
                    session.transcript = t.clone();
                }
            },
            None => {},
        }
        let result = session.clone();
        self.sessions.insert(i, session);
        assert(self.sessions@ =~= before.update(i as int, self.sessions@[i as int]));
        Ok(result)
    }

    /// Flags the running job for cancellation; reports whether one was running.
    pub fn cancel_transcription(&mut self) -> (r: bool)
        ensures
            final(self).sessions@ == old(self).sessions@,
            (r, final(self).active) == cancellation(old(self).active),
    {
        match &mut self.active {
            Some(active) => {
                active.cancel();
                true
            },
            None => false,
        }
    }

    /// Claims the single-flight slot; fails while another job holds it.
    pub fn try_admit(&mut self) -> (r: Result<(), SpeechError>)
        ensures
            final(self).sessions@ == old(self).sessions@,
            (r, final(self).active) == admission(old(self).active),
    {
        if self.active.is_some() {
            return Err(SpeechError::TranscriptionInProgress);
        }
        self.active = Some(ActiveTranscription::new());
        Ok(())
    }

    /// Frees the single-flight slot; reports whether the job had been
    /// asked to stop. Releasing a free slot changes nothing.
    pub fn release_transcription(&mut self) -> (cancelled: bool)
        ensures
            final(self).sessions@ == old(self).sessions@,
            (cancelled, final(self).active) == release(old(self).active),
    {
        let cancelled = match &self.active {
            Some(active) => active.cancel_requested,
            None => false,
        };
        self.active = None;
        cancelled
    }

    /// Replaces the first session with the same id, or appends a new one;
    /// either way the session ends up last.
    pub fn upsert_session(&mut self, session: SpeechSession)
        ensures
            final(self).active == old(self).active,
            has_id(old(self).sessions@, session.id@) ==> exists|i: int|
                #![trigger old(self).sessions@[i]]
                is_first_match(old(self).sessions@, session.id@, i) && final(self).sessions@
                    == old(self).sessions@.remove(i).push(session),
            !has_id(old(self).sessions@, session.id@) ==> final(self).sessions@ == old(
                self,
            ).sessions@.push(session),
    {
        match self.position_of(session.id.as_str()) {
            Some(i) => {
                self.sessions.remove(i);
            },
            None => {},
        }
        self.sessions.push(session);
    }

    /// Puts a freshly transcribed session at the front (newest first).
    pub fn insert_newest(&mut self, session: SpeechSession)
        ensures
            final(self).active == old(self).active,
            final(self).sessions@ == seq![session] + old(self).sessions@,
    {
        self.sessions.insert(0, session);
        assert(self.sessions@ =~= seq![session] + old(self).sessions@);
    }
}

/// Lexicographic order of texts, character by character (the order of
/// `str`'s comparison, since UTF-8 keeps code-point order).
pub open spec fn text_lt(a: Seq<char>, b: Seq<char>) -> bool
    decreases a.len(),
{
    if a.len() == 0 {
        b.len() > 0
    } else if b.len() == 0 {
        false
    } else if a[0] != b[0] {
        a[0] < b[0]
    } else {
        text_lt(a.drop_first(), b.drop_first())
    }
}

proof fn lemma_text_lt_asymmetric(a: Seq<char>, b: Seq<char>)
    ensures
        text_lt(a, b) ==> !text_lt(b, a),
    decreases a.len(),
{
    if a.len() > 0 && b.len() > 0 && a[0] == b[0] {
        lemma_text_lt_asymmetric(a.drop_first(), b.drop_first());
    }
}

proof fn lemma_text_lt_transitive(a: Seq<char>, b: Seq<char>, c: Seq<char>)
    ensures
        text_lt(a, b) && text_lt(b, c) ==> text_lt(a, c),
    decreases a.len(),
{
    if a.len() > 0 && b.len() > 0 && c.len() > 0 {
        lemma_text_lt_transitive(a.drop_first(), b.drop_first(), c.drop_first());
    }
}

proof fn lemma_text_lt_total(a: Seq<char>, b: Seq<char>)
    ensures
        a != b ==> text_lt(a, b) || text_lt(b, a),
    decreases a.len(),
{
    if a.len() > 0 && b.len() > 0 && a[0] == b[0] {
        lemma_text_lt_total(a.drop_first(), b.drop_first());
        if a != b {
            assert(a =~= seq![a[0]] + a.drop_first());
            assert(b =~= seq![b[0]] + b.drop_first());
        }
    } else if a.len() == 0 && b.len() == 0 {
        assert(a =~= b);
    } else if a.len() > 0 && b.len() > 0 {
        assert(a[0] != b[0]);
    }
}

/// Compares two texts in the order of `text_lt`.
pub fn text_less(a: &str, b: &str) -> (r: bool)
    ensures
        r == text_lt(a@, b@),
{
    let n = a.unicode_len();
    let m = b.unicode_len();
    let mut i: usize = 0;
    assert(a@.subrange(0, n as int) =~= a@);
    assert(b@.subrange(0, m as int) =~= b@);
    while i < n && i < m
        invariant
            n == a@.len(),
            m == b@.len(),
            i <= n,
            i <= m,
            text_lt(a@, b@) == text_lt(a@.subrange(i as int, n as int), b@.subrange(i as int, m as int)),
        decreases n - i,
    {
        let x = a.get_char(i);
        let y = b.get_char(i);
        let ghost sa = a@.subrange(i as int, n as int);
        let ghost sb = b@.subrange(i as int, m as int);
        assert(sa[0] == x && sb[0] == y);
        if x != y {
            return x < y;
        }
        assert(sa.drop_first() =~= a@.subrange(i + 1, n as int));
        assert(sb.drop_first() =~= b@.subrange(i + 1, m as int));
        i = i + 1;
    }
    i < m && i >= n
}

/// Newest first: no session was created before a later one in the list.
pub open spec fn newest_first(s: Seq<SessionView>) -> bool {
    forall|i: int, j: int|
        0 <= i < j < s.len() ==> !text_lt((#[trigger] s[i]).created_at, (#[trigger] s[j]).created_at)
}

impl SessionStore {
    /// Orders the sessions by creation time, newest first.
    pub fn sort_newest_first(&mut self)
        ensures
            final(self).active == old(self).active,
            session_views(final(self).sessions@).to_multiset() == session_views(
                old(self).sessions@,
            ).to_multiset(),
            newest_first(session_views(final(self).sessions@)),
    {
        let n = self.sessions.len();
        let mut out: Vec<SpeechSession> = Vec::new();
        let mut i: usize = 0;
        proof {
            assert(session_views(self.sessions@.subrange(0, 0)) =~= Seq::<SessionView>::empty());
            assert(session_views(out@) =~= Seq::<SessionView>::empty());
        }
        while i < n
            invariant
                n == self.sessions@.len(),
                i <= n,
                session_views(out@).to_multiset() == session_views(
                    self.sessions@.subrange(0, i as int),
                ).to_multiset(),
                newest_first(session_views(out@)),
            decreases n - i,
        {
            let x = self.sessions[i].clone();
            let mut pos: usize = 0;
            while pos < out.len()
                invariant
                    pos <= out@.len(),
                    forall|k: int|
                        0 <= k < pos ==> !text_lt(
                            (#[trigger] out@[k]).created_at@,
                            x.created_at@,
                        ),
                ensures
                    pos <= out@.len(),
                    forall|k: int|
                        0 <= k < pos ==> !text_lt(
                            (#[trigger] out@[k]).created_at@,
                            x.created_at@,
                        ),
                    pos < out@.len() ==> text_lt(out@[pos as int].created_at@, x.created_at@),
                decreases out@.len() - pos,
            {
                if text_less(out[pos].created_at.as_str(), x.created_at.as_str()) {
                    break;
                }
                pos = pos + 1;
            }
            let ghost before = out@;
            let ghost xv = x@;
            out.insert(pos, x);
            proof {
                let vb = session_views(before);
                let va = session_views(out@);
                assert(va =~= vb.insert(pos as int, xv));
                to_multiset_insert(vb, pos as int, xv);
                let sub = self.sessions@.subrange(0, i + 1);
                assert(session_views(sub) =~= session_views(self.sessions@.subrange(0, i as int)).push(
                    xv,
                ));
                to_multiset_build(session_views(self.sessions@.subrange(0, i as int)), xv);
                assert forall|p: int, q: int| 0 <= p < q < va.len() implies !text_lt(
                    (#[trigger] va[p]).created_at,
                    (#[trigger] va[q]).created_at,
                ) by {
                    if q < pos {
                        assert(va[p] == vb[p] && va[q] == vb[q]);
                    } else if q == pos {
                        assert(va[p] == vb[p]);
                        assert(before[p].created_at@ == vb[p].created_at);
                    } else if p == pos {
                        // vb[q-1] <= vb[pos] < x
                        let y = vb[q - 1].created_at;
                        let z = vb[pos as int].created_at;
                        assert(text_lt(z, xv.created_at));
                        if pos < q - 1 {
                            assert(!text_lt(z, y));
                        }
                        lemma_text_lt_total(y, z);
                        lemma_text_lt_transitive(y, z, xv.created_at);
                        lemma_text_lt_asymmetric(y, xv.created_at);
                        lemma_text_lt_asymmetric(z, xv.created_at);
                        assert(va[q] == vb[q - 1]);
                    } else if p < pos {
                        assert(va[p] == vb[p] && va[q] == vb[q - 1]);
                    } else {
                        assert(va[p] == vb[p - 1] && va[q] == vb[q - 1]);
                    }
                }
            }
            i = i + 1;
        }
        assert(self.sessions@.subrange(0, n as int) =~= self.sessions@);
        self.sessions = out;
    }
}

/// No two sessions of the list share an id.
pub open spec fn view_ids_unique(s: Seq<SessionView>) -> bool {
    forall|i: int, j: int| 0 <= i < j < s.len() ==> (#[trigger] s[i]).id != (#[trigger] s[j]).id
}

/// `i` is the first position of the list whose session carries the id.
pub open spec fn is_first_view_match(s: Seq<SessionView>, id: Seq<char>, i: int) -> bool {
    &&& 0 <= i < s.len()
    &&& s[i].id == id
    &&& forall|j: int| 0 <= j < i ==> (#[trigger] s[j]).id != id
}

/// The first position carrying the id, or -1 where none does.
pub open spec fn first_view_match(s: Seq<SessionView>, id: Seq<char>) -> int {
    if exists|i: int| is_first_view_match(s, id, i) {
        choose|i: int| is_first_view_match(s, id, i)
    } else {
        -1
    }
}

/// The list after upserting `x`: the first session with its id goes, and
/// `x` is appended.
pub open spec fn upsert_view(s: Seq<SessionView>, x: SessionView) -> Seq<SessionView> {
    let i = first_view_match(s, x.id);
    if i >= 0 {
        s.remove(i).push(x)
    } else {
        s.push(x)
    }
}

/// The list after upserting each of `items` in turn.
pub open spec fn upsert_all(s: Seq<SessionView>, items: Seq<SessionView>) -> Seq<SessionView>
    decreases items.len(),
{
    if items.len() == 0 {
        s
    } else {
        upsert_view(upsert_all(s, items.drop_last()), items.last())
    }
}

proof fn lemma_first_match_views(s: Seq<SpeechSession>, id: Seq<char>, i: int)
    requires
        is_first_match(s, id, i),
    ensures
        first_view_match(session_views(s), id) == i,
{
    let v = session_views(s);
    assert(is_first_view_match(v, id, i)) by {
        assert forall|j: int| 0 <= j < i implies (#[trigger] v[j]).id != id by {
            assert(v[j] == s[j]@);
        }
    }
    let c = choose|c: int| is_first_view_match(v, id, c);
    if c < i {
        assert(v[c].id == id);
    } else if c > i {
        assert(v[i].id == id);
    }
}

proof fn lemma_no_match_views(s: Seq<SpeechSession>, id: Seq<char>)
    requires
        !has_id(s, id),
    ensures
        first_view_match(session_views(s), id) == -1,
{
    let v = session_views(s);
    if exists|i: int| is_first_view_match(v, id, i) {
        let i = choose|i: int| is_first_view_match(v, id, i);
        assert(v[i] == s[i]@);
        assert(s[i].id@ == id);
    }
}

impl SessionStore {
    /// Upserts each imported session in turn, then re-sorts the whole list
    /// newest first. Returns how many sessions were imported. Into an empty
    /// store, sessions with distinct ids arrive exactly, one each.
    pub fn import_sessions(&mut self, items: Vec<SpeechSession>) -> (r: usize)
        ensures
            r == items@.len(),
            final(self).active == old(self).active,
            items@.len() == 0 ==> final(self).sessions@ == old(self).sessions@,
            items@.len() > 0 ==> newest_first(session_views(final(self).sessions@)),
            session_views(final(self).sessions@).to_multiset() == upsert_all(
                session_views(old(self).sessions@),
                session_views(items@),
            ).to_multiset(),
            old(self).sessions@.len() == 0 && view_ids_unique(session_views(items@))
                ==> session_views(final(self).sessions@).to_multiset() == session_views(
                items@,
            ).to_multiset(),
    {
        if items.len() == 0 {
            proof {
                assert(session_views(items@) =~= Seq::<SessionView>::empty());
                if self.sessions@.len() == 0 {
                    assert(session_views(self.sessions@) =~= Seq::<SessionView>::empty());
                }
            }
            return 0;
        }
        let ghost fresh = self.sessions@.len() == 0 && view_ids_unique(session_views(items@));
        let mut i: usize = 0;
        proof {
            assert(session_views(items@).subrange(0, 0) =~= Seq::<SessionView>::empty());
            if fresh {
                assert(session_views(self.sessions@) =~= session_views(items@).subrange(0, 0));
            }
        }
        while i < items.len()
            invariant
                i <= items@.len(),
                self.active == old(self).active,
                fresh == (old(self).sessions@.len() == 0 && view_ids_unique(session_views(items@))),
                fresh ==> session_views(self.sessions@) == session_views(items@).subrange(0, i as int),
                session_views(self.sessions@) == upsert_all(
                    session_views(old(self).sessions@),
                    session_views(items@).subrange(0, i as int),
                ),
            decreases items@.len() - i,
        {
            let s = items[i].clone();
            proof {
                if fresh {
                    let cur = self.sessions@;
                    assert forall|k: int| 0 <= k < cur.len() implies (#[trigger] cur[k]).id@ != s.id@ by {
                        assert(session_views(cur)[k] == session_views(items@)[k]);
                        assert(session_views(items@)[i as int] == items@[i as int]@);
                    }
                    assert(!has_id(cur, s.id@));
                }
            }
            let ghost sv = s@;
            let ghost cur = self.sessions@;
            self.upsert_session(s);
            proof {
                let sub = session_views(items@).subrange(0, i + 1);
                assert(sub.drop_last() =~= session_views(items@).subrange(0, i as int));
                assert(sub.last() == sv);
                if has_id(cur, sv.id) {
                    let i0 = choose|i0: int|
                        #![trigger cur[i0]]
                        is_first_match(cur, sv.id, i0) && self.sessions@ == cur.remove(i0).push(
                            s,
                        );
                    lemma_first_match_views(cur, sv.id, i0);
                    assert(session_views(self.sessions@) =~= session_views(cur).remove(i0).push(sv));
                } else {
                    lemma_no_match_views(cur, sv.id);
                    assert(session_views(self.sessions@) =~= session_views(cur).push(sv));
                }
            }
            proof {
                if fresh {
                    assert(session_views(self.sessions@) =~= session_views(items@).subrange(0, i + 1));
                }
            }
            i = i + 1;
        }
        proof {
            assert(session_views(items@).subrange(0, items@.len() as int) =~= session_views(items@));
        }
        self.sort_newest_first();
        items.len()
    }
}

} // verus!
