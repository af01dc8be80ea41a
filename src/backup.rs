use base64::Engine;
use vstd::prelude::*;

use crate::error::SpeechError;
use crate::language::SpeechLanguage;
use crate::session::{
    clone_segments, segment_views, SessionView, SpeechSession, TranscriptSegment,
};
use vstd::seq_lib::{to_multiset_contains, to_multiset_len};
use crate::text::{
    lower_of, lowercase, owned, text_eq, trim_of, trim_text, unicode_white_space,
};

verus! {

/// The file name that stands in for a missing or unsafe one.
pub open spec fn default_audio_filename() -> Seq<char> {
    "recording.wav"@
}

/// What the standard base64 engine (with padding) encodes the bytes as.
pub uninterp spec fn base64_of(b: Seq<u8>) -> Seq<char>;

/// What the standard base64 engine decodes the text to; `None` where it
/// rejects the text.
pub uninterp spec fn base64_decoded(s: Seq<char>) -> Option<Seq<u8>>;

/// The characters of the standard base64 alphabet and its padding.
pub open spec fn is_base64_char(c: char) -> bool {
    ('A' <= c && c <= 'Z') || ('a' <= c && c <= 'z') || ('0' <= c && c <= '9') || c == '+' || c
        == '/' || c == '='
}

/// Relies on `base64::engine::general_purpose::STANDARD.encode`: the text
/// uses the standard alphabet and padding only, and decodes back to the
/// bytes.
#[verifier::external_body]
fn base64_encode(b: &[u8]) -> (r: String)
    requires
        b@.len() <= usize::MAX / 2,
    ensures
        r@ == base64_of(b@),
        base64_decoded(r@) == Some(b@),
        forall|i: int| 0 <= i < r@.len() ==> is_base64_char(#[trigger] r@[i]),
{
    base64::engine::general_purpose::STANDARD.encode(b)
}

/// Relies on `base64::engine::general_purpose::STANDARD.decode`.
#[verifier::external_body]
fn base64_decode(s: &str) -> (r: Result<Vec<u8>, String>)
    ensures
        match r {
            Ok(v) => base64_decoded(s@) == Some(v@),
            Err(_) => base64_decoded(s@) is None,
        },
{
    base64::engine::general_purpose::STANDARD.decode(s).map_err(|e| e.to_string())
}

/// Position of the first occurrence of `c`, or the length when absent.
pub open spec fn first_index_of(s: Seq<char>, c: char) -> int
    decreases s.len(),
{
    if s.len() == 0 {
        0
    } else if s[0] == c {
        0
    } else {
        1 + first_index_of(s.drop_first(), c)
    }
}

proof fn lemma_first_index_bounds(s: Seq<char>, c: char)
    ensures
        0 <= first_index_of(s, c) <= s.len(),
        first_index_of(s, c) < s.len() ==> s[first_index_of(s, c)] == c,
        forall|k: int| 0 <= k < first_index_of(s, c) ==> s[k] != c,
    decreases s.len(),
{
    if s.len() > 0 && s[0] != c {
        lemma_first_index_bounds(s.drop_first(), c);
        assert forall|k: int| 0 <= k < first_index_of(s, c) implies s[k] != c by {
            if k > 0 {
                assert(s[k] == s.drop_first()[k - 1]);
            }
        }
    }
}

proof fn lemma_first_index_of_split(a: Seq<char>, b: Seq<char>, c: char)
    requires
        !a.contains(c),
    ensures
        first_index_of(a + seq![c] + b, c) == a.len(),
    decreases a.len(),
{
    let s = a + seq![c] + b;
    if a.len() > 0 {
        assert(s[0] == a[0]);
        assert(s.drop_first() =~= a.drop_first() + seq![c] + b);
        assert(!a.drop_first().contains(c)) by {
            if a.drop_first().contains(c) {
                let k = choose|k: int| 0 <= k < a.drop_first().len() && a.drop_first()[k] == c;
                assert(a[k + 1] == c);
            }
        }
        assert(a[0] != c) by {
            if a[0] == c {
                assert(a.contains(c));
            }
        }
        lemma_first_index_of_split(a.drop_first(), b, c);
    } else {
        assert(s[0] == c);
    }
}

/// The base64 payload of a data URL: what follows the first comma, or the
/// whole text when there is none.
pub open spec fn data_payload(s: Seq<char>) -> Seq<char> {
    let i = first_index_of(s, ',');
    if i < s.len() {
        s.subrange(i + 1, s.len() as int)
    } else {
        s
    }
}

/// Decodes audio carried as base64, with or without a `data:` URL prefix.
pub fn decode_audio_base64(data: &str) -> (r: Result<Vec<u8>, SpeechError>)
    ensures
        match base64_decoded(data_payload(data@)) {
            Some(b) => r is Ok && r->Ok_0@ == b,
            None => r is Err && r->Err_0 is Audio,
        },
{
    let n = data.unicode_len();
    let mut i: usize = 0;
    proof {
        lemma_first_index_bounds(data@, ',');
    }
    while i < n
        invariant
            n == data@.len(),
            i <= n,
            forall|k: int| 0 <= k < i ==> data@[k] != ',',
            i <= first_index_of(data@, ','),
            first_index_of(data@, ',') < n ==> data@[first_index_of(data@, ',')] == ',',
            forall|k: int| 0 <= k < first_index_of(data@, ',') ==> data@[k] != ',',
            first_index_of(data@, ',') <= n,
        ensures
            i <= n,
            i < n ==> data@[i as int] == ',',
            forall|k: int| 0 <= k < i ==> data@[k] != ',',
        decreases n - i,
    {
        if data.get_char(i) == ',' {
            break;
        }
        i = i + 1;
    }
    assert(i == first_index_of(data@, ','));
    let payload = if i < n {
        data.substring_char(i + 1, n)
    } else {
        data
    };
    match base64_decode(payload) {
        Ok(bytes) => Ok(bytes),
        Err(msg) => {
            let mut text = String::from_str("Base64 decode failed: ");
            text.append(msg.as_str());
            Err(SpeechError::Audio(text))
        },
    }
}

/// What an incoming audio file name is stored as: the trimmed name, or the
/// default where it is blank, holds a path separator, or names a directory
/// step.
pub open spec fn sanitized_filename(s: Seq<char>) -> Seq<char> {
    let t = trim_of(s);
    if t.len() == 0 || t.contains('/') || t.contains('\\') || t == "."@ || t == ".."@ {
        default_audio_filename()
    } else {
        t
    }
}

fn contains_char(s: &str, c: char) -> (r: bool)
    ensures
        r == s@.contains(c),
{
    let n = s.unicode_len();
    let mut i: usize = 0;
    while i < n
        invariant
            n == s@.len(),
            i <= n,
            forall|k: int| 0 <= k < i ==> s@[k] != c,
        decreases n - i,
    {
        if s.get_char(i) == c {
            assert(s@[i as int] == c);
            return true;
        }
        i = i + 1;
    }
    false
}

/// Makes a caller-supplied audio file name safe to store: it never leaves
/// the session's directory.
pub fn sanitize_audio_filename(input: &str) -> (r: String)
    ensures
        r@ == sanitized_filename(input@),
        (input@.contains('/') || input@.contains('\\')) ==> r@ == default_audio_filename(),
{
    proof {
        reveal_strlit("recording.wav");
    }
    let trimmed = trim_text(input);
    proof {
        let t = trim_of(input@);
        let (a, b) = choose|a: int, b: int|
            0 <= a <= b <= input@.len() && t == input@.subrange(a, b) && forall|k: int|
                (0 <= k < a || b <= k < input@.len()) ==> unicode_white_space(
                    #[trigger] input@[k],
                );
        if input@.contains('/') {
            let k = choose|k: int| 0 <= k < input@.len() && input@[k] == '/';
            assert(!unicode_white_space(input@[k]));
            assert(t[k - a] == '/');
            assert(t.contains('/'));
        }
        if input@.contains('\\') {
            let k = choose|k: int| 0 <= k < input@.len() && input@[k] == '\\';
            assert(!unicode_white_space(input@[k]));
            assert(t[k - a] == '\\');
            assert(t.contains('\\'));
        }
    }
    let t = trimmed.as_str();
    if t.unicode_len() == 0 || contains_char(t, '/') || contains_char(t, '\\') || text_eq(t, ".")
        || text_eq(t, "..") {
        String::from_str("recording.wav")
    } else {
        trimmed
    }
}

/// A self-contained export record: the session's fields and its audio as
/// a base64 data URL.
#[derive(Debug)]
pub struct SpeechSessionBackup {
    pub id: String,
    pub title: String,
    pub language: SpeechLanguage,
    pub transcript: String,
    pub segments: Vec<TranscriptSegment>,
    pub created_at: String,
    pub audio_filename: String,
    pub audio_base64: String,
}

/// The part of a path after its last `/`.
pub open spec fn after_last_slash(p: Seq<char>) -> Seq<char>
    decreases p.len(),
{
    if p.len() == 0 || p.last() == '/' {
        Seq::empty()
    } else {
        after_last_slash(p.drop_last()).push(p.last())
    }
}

proof fn lemma_after_last_slash_split(a: Seq<char>, b: Seq<char>)
    requires
        !b.contains('/'),
    ensures
        after_last_slash(a + seq!['/'] + b) == b,
    decreases b.len(),
{
    let p = a + seq!['/'] + b;
    if b.len() == 0 {
        assert(p.last() == '/');
    } else {
        assert(p.last() == b.last());
        assert(b.last() != '/') by {
            assert(b[b.len() - 1] == b.last());
        }
        assert(p.drop_last() =~= a + seq!['/'] + b.drop_last());
        assert(!b.drop_last().contains('/')) by {
            if b.drop_last().contains('/') {
                let k = choose|k: int| 0 <= k < b.drop_last().len() && b.drop_last()[k] == '/';
                assert(b[k] == '/');
            }
        }
        lemma_after_last_slash_split(a, b.drop_last());
        assert(b.drop_last().push(b.last()) =~= b);
    }
}

/// The file name an exported recording is given: the last component of
/// its stored path, or the default where that is empty.
pub open spec fn export_filename(audio_path: Seq<char>) -> Seq<char> {
    let f = after_last_slash(audio_path);
    if f.len() == 0 {
        default_audio_filename()
    } else {
        f
    }
}

/// The media type guessed from a file name's extension.
pub open spec fn mime_for(filename: Seq<char>) -> Seq<char> {
    let l = lower_of(filename);
    if l.len() >= 4 && l.subrange(l.len() - 4, l.len() as int) == ".wav"@ {
        "audio/wav"@
    } else {
        "application/octet-stream"@
    }
}

/// The data URL that carries a recording in a backup.
pub open spec fn audio_data_url(filename: Seq<char>, audio: Seq<u8>) -> Seq<char> {
    "data:"@ + mime_for(filename) + ";base64,"@ + base64_of(audio)
}

fn final_component(path: &str) -> (r: String)
    ensures
        r@ == export_filename(path@),
{
    proof {
        reveal_strlit("recording.wav");
    }
    let n = path.unicode_len();
    let mut start: usize = n;
    assert(path@.subrange(0, n as int) =~= path@);
    assert(path@.subrange(n as int, n as int) =~= Seq::<char>::empty());
    while start > 0
        invariant
            n == path@.len(),
            start <= n,
            after_last_slash(path@) == after_last_slash(path@.subrange(0, start as int)) + path@.subrange(
                start as int,
                n as int,
            ),
        ensures
            start <= n,
            after_last_slash(path@) == after_last_slash(path@.subrange(0, start as int)) + path@.subrange(
                start as int,
                n as int,
            ),
            start > 0 ==> path@[start as int - 1] == '/',
        decreases start,
    {
        let c = path.get_char(start - 1);
        if c == '/' {
            proof {
                let pre = path@.subrange(0, start as int);
                assert(pre.last() == '/');
            }
            break;
        }
        proof {
            let pre = path@.subrange(0, start as int);
            assert(pre.drop_last() =~= path@.subrange(0, start - 1));
            assert(pre.last() == c);
            assert(path@.subrange(start - 1, n as int) =~= seq![c] + path@.subrange(
                start as int,
                n as int,
            ));
        }
        start = start - 1;
    }
    proof {
        let pre = path@.subrange(0, start as int);
        if start == 0 {
            assert(pre =~= Seq::<char>::empty());
        } else {
            assert(pre.last() == '/');
        }
        assert(after_last_slash(pre) =~= Seq::<char>::empty());
        assert(path@.subrange(start as int, n as int) =~= after_last_slash(path@));
    }
    if start == n {
        String::from_str("recording.wav")
    } else {
        owned(path.substring_char(start, n))
    }
}

fn mime_type(filename: &str) -> (r: &'static str)
    ensures
        r@ == mime_for(filename@),
{
    let lowered = lowercase(filename);
    let l = lowered.as_str();
    let n = l.unicode_len();
    if n >= 4 && text_eq(l.substring_char(n - 4, n), ".wav") {
        "audio/wav"
    } else {
        "application/octet-stream"
    }
}

/// The export record of a session whose recording holds `audio`.
pub fn backup_of(session: &SpeechSession, audio: &[u8]) -> (r: SpeechSessionBackup)
    requires
        audio@.len() <= usize::MAX / 2,
    ensures
        r.id@ == session.id@,
        r.title@ == session.title@,
        r.language == session.language,
        r.transcript@ == session.transcript@,
        segment_views(r.segments@) == segment_views(session.segments@),
        r.created_at@ == session.created_at@,
        r.audio_filename@ == export_filename(session.audio_path@),
        r.audio_base64@ == audio_data_url(r.audio_filename@, audio@),
        data_payload(r.audio_base64@) == base64_of(audio@),
        base64_decoded(data_payload(r.audio_base64@)) == Some(audio@),
{
    let filename = final_component(session.audio_path.as_str());
    let mime = mime_type(filename.as_str());
    let mut url = String::from_str("data:");
    url.append(mime);
    url.append(";base64,");
    let encoded = base64_encode(audio);
    url.append(encoded.as_str());
    proof {
        reveal_strlit("data:");
        reveal_strlit(";base64,");
        reveal_strlit(";base64");
        reveal_strlit("audio/wav");
        reveal_strlit("application/octet-stream");
        let head = "data:"@ + mime@ + ";base64"@;
        assert(!head.contains(',')) by {
            if head.contains(',') {
                let k = choose|k: int| 0 <= k < head.len() && head[k] == ',';
                assert(head[k] != ',');
            }
        }
        assert(!encoded@.contains(',')) by {
            if encoded@.contains(',') {
                let k = choose|k: int| 0 <= k < encoded@.len() && encoded@[k] == ',';
                assert(is_base64_char(encoded@[k]));
            }
        }
        assert(";base64,"@ =~= ";base64"@ + seq![',']);
        assert(url@ =~= head + seq![','] + encoded@);
        lemma_first_index_of_split(head, encoded@, ',');
        assert(url@.subrange(head.len() as int + 1, url@.len() as int) =~= encoded@);
    }
    SpeechSessionBackup {
        id: session.id.clone(),
        title: session.title.clone(),
        language: session.language,
        transcript: session.transcript.clone(),
        segments: clone_segments(&session.segments),
        created_at: session.created_at.clone(),
        audio_filename: filename,
        audio_base64: url,
    }
}

/// A backup record made ready for the store: its decoded recording, the
/// file name to store it under, and the session that points there.
#[derive(Debug)]
pub struct ImportedSession {
    pub session: SpeechSession,
    pub audio: Vec<u8>,
    pub filename: String,
}

/// The stored path of a session's recording, relative to the storage base.
pub open spec fn session_audio_path(id: Seq<char>, filename: Seq<char>) -> Seq<char> {
    "sessions/"@ + id + "/"@ + filename
}

/// Decodes a backup record into the session to upsert and the recording
/// to write.
pub fn prepare_import(backup: &SpeechSessionBackup) -> (r: Result<ImportedSession, SpeechError>)
    ensures
        match base64_decoded(data_payload(backup.audio_base64@)) {
            None => r is Err && r->Err_0 is Audio,
            Some(bytes) => r is Ok && {
                let x = r->Ok_0;
                &&& x.audio@ == bytes
                &&& x.filename@ == sanitized_filename(backup.audio_filename@)
                &&& x.session.id@ == backup.id@
                &&& x.session.title@ == backup.title@
                &&& x.session.language == backup.language
                &&& x.session.transcript@ == backup.transcript@
                &&& segment_views(x.session.segments@) == segment_views(backup.segments@)
                &&& x.session.created_at@ == backup.created_at@
                &&& x.session.audio_path@ == session_audio_path(backup.id@, x.filename@)
            },
        },
{
    let audio = match decode_audio_base64(backup.audio_base64.as_str()) {
        Ok(a) => a,
        Err(e) => {
            return Err(e);
        },
    };
    let filename = sanitize_audio_filename(backup.audio_filename.as_str());
    let mut path = String::from_str("sessions/");
    path.append(backup.id.as_str());
    path.append("/");
    path.append(filename.as_str());
    let session = SpeechSession {
        id: backup.id.clone(),
        title: backup.title.clone(),
        language: backup.language,
        transcript: backup.transcript.clone(),
        segments: clone_segments(&backup.segments),
        audio_path: path,
        created_at: backup.created_at.clone(),
    };
    Ok(ImportedSession { session, audio, filename })
}

/// The fields a backup carries over unchanged: id, title, language,
/// transcript, segments and creation time.
pub open spec fn same_record(a: SessionView, b: SessionView) -> bool {
    &&& a.id == b.id
    &&& a.title == b.title
    &&& a.language == b.language
    &&& a.transcript == b.transcript
    &&& a.segments == b.segments
    &&& a.created_at == b.created_at
}

/// Some session of the list carries the same record as `x`.
pub open spec fn holds_record(s: Seq<SessionView>, x: SessionView) -> bool {
    exists|k: int| 0 <= k < s.len() && same_record(x, #[trigger] s[k])
}

/// Exporting a list of sessions and importing the records into an empty
/// store reproduces the list: as many sessions, each imported session is
/// one of the originals and each original is among the imported ones.
///
/// `prepared[k]` is what `prepare_import` makes of `backup_of(originals[k])`
/// (same record, recording bytes identical), and `imported` is the store's
/// list after `import_sessions(prepared)` on an empty store.
pub proof fn lemma_export_import_round_trip(
    originals: Seq<SessionView>,
    prepared: Seq<SessionView>,
    imported: Seq<SessionView>,
)
    requires
        prepared.len() == originals.len(),
        forall|k: int| 0 <= k < originals.len() ==> same_record(#[trigger] prepared[k], originals[k]),
        imported.to_multiset() == prepared.to_multiset(),
    ensures
        imported.len() == originals.len(),
        forall|i: int| 0 <= i < imported.len() ==> holds_record(originals, #[trigger] imported[i]),
        forall|k: int| 0 <= k < originals.len() ==> holds_record(imported, #[trigger] originals[k]),
{
    to_multiset_len(imported);
    to_multiset_len(prepared);
    assert forall|i: int| 0 <= i < imported.len() implies holds_record(
        originals,
        #[trigger] imported[i],
    ) by {
        let x = imported[i];
        assert(imported.contains(x));
        to_multiset_contains(imported, x);
        to_multiset_contains(prepared, x);
        let k = choose|k: int| 0 <= k < prepared.len() && prepared[k] == x;
        assert(same_record(prepared[k], originals[k]));
        assert(same_record(x, originals[k]));
    }
    assert forall|k: int| 0 <= k < originals.len() implies holds_record(
        imported,
        #[trigger] originals[k],
    ) by {
        let x = prepared[k];
        assert(prepared.contains(x));
        to_multiset_contains(prepared, x);
        to_multiset_contains(imported, x);
        let i = choose|i: int| 0 <= i < imported.len() && imported[i] == x;
        assert(same_record(prepared[k], originals[k]));
        assert(same_record(originals[k], imported[i]));
    }
}

} // verus!
