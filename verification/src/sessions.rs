//! The on-disk session store: one directory per recording session, named by
//! its session id, holding `audio.wav`, `transcript.json`, `metadata.json`
//! and `summary.md`.
use vstd::prelude::*;
use crate::paths::{
    direct_child, exact_join, is_separator, join, join_text, lemma_join_plain_is_direct_child,
    lemma_join_plain_not_verbatim, platform_separator, plain_component, relative_path,
    verbatim_like,
};
use crate::text::{chars_of, concat, lemma_text_less_order, text_less, text_less_than};
use crate::timestamp::{iso8601_now, iso8601_text, lemma_iso8601_order};

verus! {

/// The recorded audio of a session.
pub const AUDIO_FILE: &'static str = "audio.wav";

/// The transcript of a session.
pub const TRANSCRIPT_FILE: &'static str = "transcript.json";

/// The metadata record of a session.
pub const METADATA_FILE: &'static str = "metadata.json";

/// The summary of a session.
pub const SUMMARY_FILE: &'static str = "summary.md";

/// A character allowed in a session id: an ASCII letter or digit, `-` or `_`.
pub open spec fn is_session_id_char(c: char) -> bool {
    ||| 'a' <= c <= 'z'
    ||| 'A' <= c <= 'Z'
    ||| '0' <= c <= '9'
    ||| c == '-'
    ||| c == '_'
}

/// A session id is used as a directory name: 1 to 128 characters, each an
/// ASCII letter or digit, `-` or `_`.
pub open spec fn is_valid_session_id(s: Seq<char>) -> bool {
    &&& 0 < s.len() <= 128
    &&& forall|i: int| 0 <= i < s.len() ==> is_session_id_char(#[trigger] s[i])
}

/// Checks that `session_id` is safe to use as a directory name.
pub fn valid_session_id(session_id: &str) -> (ok: bool)
    ensures
        ok == is_valid_session_id(session_id@),
{
    if session_id.is_empty() {
        return false;
    }
    let chars = chars_of(session_id);
    let mut i: usize = 0;
    while i < chars.len()
        invariant
            chars@ == session_id@,
            i <= chars@.len(),
            forall|j: int| 0 <= j < i ==> is_session_id_char(#[trigger] chars@[j]),
        decreases chars@.len() - i,
    {
        let c = chars[i];
        let ok = ('a' <= c && c <= 'z') || ('A' <= c && c <= 'Z') || ('0' <= c && c <= '9') || c
            == '-' || c == '_';
        if !ok {
            assert(!is_session_id_char(session_id@[i as int]));
            return false;
        }
        i = i + 1;
    }
    proof {
        assert(vstd::string::is_ascii(session_id));
        vstd::string::is_ascii_spec_bytes(session_id);
    }
    session_id.len() <= 128
}

/// A valid session id is a plain path component: it names one directory
/// right under the store's root, never a parent, a root or a drive.
pub proof fn lemma_valid_session_id_is_plain_component(s: Seq<char>)
    requires
        is_valid_session_id(s),
    ensures
        plain_component(s),
        relative_path(s),
        forall|i: int| 0 <= i < s.len() ==> s[i] != '/' && s[i] != '\\' && s[i] != '.' && s[i] != ':',
{
    assert forall|i: int| 0 <= i < s.len() implies crate::paths::is_component_char(#[trigger] s[i]) by {
        assert(is_session_id_char(s[i]));
    }
    if s.len() > 0 {
        assert(is_session_id_char(s[0]));
        assert(s != seq!['.']);
        assert(s != seq!['.', '.']);
    }
}


/// The session id rule, character by character: an id is accepted exactly
/// when it has 1 to 128 characters, each an ASCII letter, an ASCII digit,
/// `-` or `_`, wherever it stands (a leading digit included).
pub proof fn lemma_session_id_rule(s: Seq<char>)
    ensures
        is_valid_session_id(s) <==> (0 < s.len() <= 128 && forall|i: int|
            0 <= i < s.len() ==> ('a' <= #[trigger] s[i] <= 'z' || 'A' <= s[i] <= 'Z' || '0'
                <= s[i] <= '9' || s[i] == '-' || s[i] == '_')),
{
}

/// What the store records about a session.  (Its length in seconds, a
/// floating-point value, is kept beside it by the application.)
pub struct SessionMetadata {
    pub uuid: String,
    pub created_at: String,
    pub speaker_count: u32,
    pub status: String,
    pub language: Option<String>,
}

impl SessionMetadata {
    /// Marks the session as recorded (its recording has stopped).
    pub fn mark_recorded(&mut self)
        ensures
            final(self).status@ == "recorded"@,
            final(self).uuid == old(self).uuid,
            final(self).created_at == old(self).created_at,
            final(self).speaker_count == old(self).speaker_count,
            final(self).language == old(self).language,
    {
        self.status = String::from_str("recorded");
    }
}

/// A metadata record and the file it is to be written to.
pub struct MetadataWrite {
    pub path: String,
    pub metadata: SessionMetadata,
}

/// The files of one session.
pub struct SessionFiles {
    pub dir: String,
    pub audio: String,
    pub metadata: String,
    pub summary: String,
    pub transcript: String,
}

/// Root directory that holds all `<session_id>/` session folders, with the
/// platform's path separator.
pub struct SessionStore {
    root: String,
    separator: char,
}

impl View for SessionStore {
    type V = (Seq<char>, char);

    /// The root, and the separator its paths are joined with.
    closed spec fn view(&self) -> (Seq<char>, char) {
        (self.root@, self.separator)
    }
}

impl SessionStore {
    #[verifier::type_invariant]
    spec fn separator_is_valid(self) -> bool {
        is_separator(self.separator)
    }
}

/// The path of the file `file` in the directory of session `session_id`
/// under `root`, joined with `sep`.
pub open spec fn session_path(root: Seq<char>, sep: char, session_id: Seq<char>, file: Seq<char>) -> Seq<char> {
    join_text(join_text(root, session_id, sep), file, sep)
}

/// The session paths under `root` are stated exactly: all but a Windows
/// verbatim root, which std rebuilds on a join.
pub open spec fn exact_root(root: Seq<char>, sep: char) -> bool {
    !(sep == '\\' && verbatim_like(root))
}

/// The message for a session id that is not a valid directory name.
pub fn invalid_session_id() -> (message: String)
    ensures
        message@ == "Invalid session ID"@,
{
    String::from_str("Invalid session ID")
}

/// The message for a session whose directory does not exist.
pub fn session_not_found(session_id: &str) -> (message: String)
    ensures
        message@ == "Session '"@ + session_id@ + "' not found"@,
{
    let head = concat("Session '", session_id);
    concat(head.as_str(), "' not found")
}

/// The message for a session directory without a `metadata.json`.
pub fn missing_metadata(session_id: &str) -> (message: String)
    ensures
        message@ == "Session '"@ + session_id@ + "' has no metadata.json"@,
{
    let head = concat("Session '", session_id);
    concat(head.as_str(), "' has no metadata.json")
}

/// The record of session `session_id` for its detail view: refused as not
/// found when its directory does not exist, and as lacking metadata when its
/// `metadata.json` could not be read; the first that holds gives the error.
pub fn session_record<T>(session_id: &str, dir_exists: bool, metadata: Option<T>) -> (r: Result<
    T,
    String,
>)
    ensures
        !dir_exists ==> (r matches Err(e) && e@ == "Session '"@ + session_id@ + "' not found"@),
        dir_exists && metadata is None ==> (r matches Err(e) && e@ == "Session '"@ + session_id@
            + "' has no metadata.json"@),
        dir_exists && metadata is Some ==> r == Ok::<T, String>(metadata->0),
{
    if !dir_exists {
        return Err(session_not_found(session_id));
    }
    match metadata {
        Some(m) => Ok(m),
        None => Err(missing_metadata(session_id)),
    }
}

impl SessionStore {
    /// The store over `root`, joining paths with the platform's separator.
    pub fn new(root: String) -> (store: Self)
        ensures
            store@.0 == root@,
            is_separator(store@.1),
    {
        SessionStore { root, separator: platform_separator() }
    }

    /// The separator this store joins paths with.
    pub fn separator(&self) -> (sep: char)
        ensures
            sep == self@.1,
            is_separator(sep),
    {
        proof {
            use_type_invariant(self);
        }
        self.separator
    }

    /// `<root>/<session_id>`: exactly the root, the separator unless the
    /// root already ends in one, and the id, for any relative id.  For a
    /// valid session id this is a direct child of the root.
    pub fn session_dir(&self, session_id: &str) -> (dir: String)
        ensures
            is_separator(self@.1),
            exact_join(self@.0, session_id@, self@.1) ==> dir@ == join_text(
                self@.0,
                session_id@,
                self@.1,
            ),
            is_valid_session_id(session_id@) && exact_root(self@.0, self@.1) ==> direct_child(
                self@.0,
                session_id@,
                dir@,
            ),
    {
        proof {
            use_type_invariant(self);
        }
        let dir = join(self.root.as_str(), session_id, self.separator);
        proof {
            if is_valid_session_id(session_id@) && exact_root(self@.0, self@.1) {
                lemma_valid_session_id_is_plain_component(session_id@);
                lemma_join_plain_is_direct_child(self@.0, session_id@, self@.1);
            }
        }
        dir
    }

    /// `<root>/<session_id>/<file>`.
    pub fn session_file(&self, session_id: &str, file: &str) -> (path: String)
        ensures
            plain_component(session_id@) && plain_component(file@) && exact_root(self@.0, self@.1)
                ==> path@ == session_path(self@.0, self@.1, session_id@, file@),
    {
        proof {
            use_type_invariant(self);
        }
        let dir = join(self.root.as_str(), session_id, self.separator);
        let path = join(dir.as_str(), file, self.separator);
        proof {
            if plain_component(session_id@) && plain_component(file@) && exact_root(
                self@.0,
                self@.1,
            ) {
                lemma_plain_is_relative(session_id@);
                lemma_plain_is_relative(file@);
                if self@.1 == '\\' {
                    lemma_join_plain_not_verbatim(self@.0, session_id@, self@.1);
                }
            }
        }
        path
    }

    /// The directory to create for a new session; an invalid session id is
    /// refused before anything is touched.
    pub fn create_session_dir(&self, session_id: &str) -> (dir: Result<String, String>)
        ensures
            !is_valid_session_id(session_id@) ==> (dir matches Err(e) && e@ == "Invalid session ID"@),
            is_valid_session_id(session_id@) ==> (dir matches Ok(d) && (exact_root(self@.0, self@.1)
                ==> d@ == join_text(self@.0, session_id@, self@.1) && direct_child(
                self@.0,
                session_id@,
                d@,
            ))),
    {
        if !valid_session_id(session_id) {
            return Err(invalid_session_id());
        }
        proof {
            lemma_valid_session_id_is_plain_component(session_id@);
        }
        Ok(self.session_dir(session_id))
    }

    /// The files to read for the detail view of a session; an invalid
    /// session id is refused before anything is read.
    pub fn read_session_detail(&self, session_id: &str) -> (files: Result<SessionFiles, String>)
        ensures
            !is_valid_session_id(session_id@) ==> (files matches Err(e) && e@
                == "Invalid session ID"@),
            is_valid_session_id(session_id@) ==> (files matches Ok(f) && (exact_root(
                self@.0,
                self@.1,
            ) ==> {
                &&& f.dir@ == join_text(self@.0, session_id@, self@.1)
                &&& direct_child(self@.0, session_id@, f.dir@)
                &&& f.audio@ == session_path(self@.0, self@.1, session_id@, AUDIO_FILE@)
                &&& f.metadata@ == session_path(self@.0, self@.1, session_id@, METADATA_FILE@)
                &&& f.summary@ == session_path(self@.0, self@.1, session_id@, SUMMARY_FILE@)
                &&& f.transcript@ == session_path(self@.0, self@.1, session_id@, TRANSCRIPT_FILE@)
            })),
    {
        if !valid_session_id(session_id) {
            return Err(invalid_session_id());
        }
        proof {
            lemma_valid_session_id_is_plain_component(session_id@);
            lemma_file_names_are_plain();
        }
        Ok(
            SessionFiles {
                dir: self.session_dir(session_id),
                audio: self.session_file(session_id, AUDIO_FILE),
                metadata: self.session_file(session_id, METADATA_FILE),
                summary: self.session_file(session_id, SUMMARY_FILE),
                transcript: self.session_file(session_id, TRANSCRIPT_FILE),
            },
        )
    }

    /// The record written when a recording starts: the session id, the
    /// current time, no speakers yet, status `recording` and no language;
    /// it goes to `<root>/<session_id>/metadata.json`.
    pub fn write_initial_metadata(&self, session_id: &str) -> (write: MetadataWrite)
        ensures
            write.metadata.uuid@ == session_id@,
            exists|secs: u64, millis: u32|
                millis < 1000 && write.metadata.created_at@ == #[trigger] iso8601_text(
                    (secs as i64) as int,
                    millis as nat,
                ),
            write.metadata.speaker_count == 0,
            write.metadata.status@ == "recording"@,
            write.metadata.language is None,
            plain_component(session_id@) && exact_root(self@.0, self@.1) ==> write.path@
                == session_path(self@.0, self@.1, session_id@, METADATA_FILE@),
    {
        let metadata = SessionMetadata {
            uuid: String::from_str(session_id),
            created_at: iso8601_now(),
            speaker_count: 0,
            status: String::from_str("recording"),
            language: None,
        };
        self.write_metadata(session_id, metadata)
    }

    /// `metadata` paired with the file `<root>/<session_id>/metadata.json`.
    pub fn write_metadata(&self, session_id: &str, metadata: SessionMetadata) -> (write:
        MetadataWrite)
        ensures
            write.metadata == metadata,
            plain_component(session_id@) && exact_root(self@.0, self@.1) ==> write.path@
                == session_path(self@.0, self@.1, session_id@, METADATA_FILE@),
    {
        proof {
            lemma_file_names_are_plain();
        }
        MetadataWrite { path: self.session_file(session_id, METADATA_FILE), metadata }
    }
}

proof fn lemma_plain_is_relative(s: Seq<char>)
    requires
        plain_component(s),
    ensures
        relative_path(s),
{
    assert forall|i: int| 0 <= i < s.len() implies #[trigger] s[i] != ':' by {
        assert(crate::paths::is_component_char(s[i]));
    }
    assert(crate::paths::is_component_char(s[0]));
}

proof fn lemma_plain_name(s: Seq<char>)
    requires
        s.len() > 2,
        forall|i: int| 0 <= i < s.len() ==> crate::paths::is_component_char(#[trigger] s[i]),
    ensures
        plain_component(s),
{
}

/// The names of the files in a session directory are plain path components.
pub proof fn lemma_file_names_are_plain()
    ensures
        plain_component(AUDIO_FILE@),
        plain_component(METADATA_FILE@),
        plain_component(SUMMARY_FILE@),
        plain_component(TRANSCRIPT_FILE@),
{
    reveal_strlit("audio.wav");
    reveal_strlit("metadata.json");
    reveal_strlit("summary.md");
    reveal_strlit("transcript.json");
    lemma_plain_name(AUDIO_FILE@);
    lemma_plain_name(METADATA_FILE@);
    lemma_plain_name(SUMMARY_FILE@);
    lemma_plain_name(TRANSCRIPT_FILE@);
}

/// In a listing of sessions, entry `i` comes before entry `j` when its
/// creation stamp is later, or the stamps are equal and `i` came first.
pub open spec fn listed_before(keys: Seq<Seq<char>>, i: int, j: int) -> bool {
    text_less(keys[j], keys[i]) || (keys[i] == keys[j] && i < j)
}

/// The creation stamps as character sequences.
pub open spec fn stamp_views(created_at: Seq<String>) -> Seq<Seq<char>> {
    created_at.map_values(|s: String| s@)
}

/// The order in which to list sessions: newest creation stamp first, and
/// sessions with equal stamps in the order given.  The result is a
/// permutation of the indices of `created_at`.
pub fn newest_first(created_at: &Vec<String>) -> (order: Vec<usize>)
    ensures
        order.len() == created_at.len(),
        forall|p: int| 0 <= p < order.len() ==> order[p] < created_at.len(),
        forall|p: int, q: int|
            0 <= p < q < order.len() ==> order[p] != order[q] && listed_before(
                stamp_views(created_at@),
                order[p] as int,
                order[q] as int,
            ),
{
    let ghost keys = stamp_views(created_at@);
    let n = created_at.len();
    let mut chars: Vec<Vec<char>> = Vec::new();
    for k in 0..n
        invariant
            n == created_at@.len(),
            keys == stamp_views(created_at@),
            chars@.len() == k,
            forall|j: int| 0 <= j < k ==> #[trigger] chars@[j]@ == keys[j],
    {
        chars.push(chars_of(created_at[k].as_str()));
    }
    let mut order: Vec<usize> = Vec::new();
    for i in 0..n
        invariant
            n == created_at@.len() == chars@.len() == keys.len(),
            forall|j: int| 0 <= j < n ==> #[trigger] chars@[j]@ == keys[j],
            order@.len() == i,
            forall|p: int| 0 <= p < order@.len() ==> order@[p] < i,
            forall|p: int, q: int|
                0 <= p < q < order@.len() ==> listed_before(
                    keys,
                    order@[p] as int,
                    order@[q] as int,
                ),
    {
        let mut pos: usize = 0;
        while pos < order.len() && !text_less_than(&chars[order[pos]], &chars[i])
            invariant
                n == chars@.len() == keys.len(),
                i < n,
                forall|j: int| 0 <= j < n ==> #[trigger] chars@[j]@ == keys[j],
                pos <= order@.len(),
                forall|p: int| 0 <= p < order@.len() ==> order@[p] < i,
                forall|r: int| 0 <= r < pos ==> !text_less(keys[#[trigger] order@[r] as int], keys[i as int]),
            decreases order@.len() - pos,
        {
            pos = pos + 1;
        }
        let ghost old_order = order@;
        order.insert(pos, i);
        proof {
            assert forall|p: int, q: int| 0 <= p < q < order@.len() implies listed_before(
                keys,
                order@[p] as int,
                order@[q] as int,
            ) by {
                let a = order@[p] as int;
                let b = order@[q] as int;
                if q < pos {
                    assert(a == old_order[p] && b == old_order[q]);
                } else if q == pos {
                    assert(b == i);
                    assert(a == old_order[p]);
                    lemma_text_less_order(keys[a], keys[i as int], keys[i as int]);
                } else if p == pos {
                    assert(a == i);
                    assert(b == old_order[q - 1]);
                    let c = old_order[pos as int] as int;
                    assert(text_less(keys[c], keys[i as int]));
                    if q - 1 > pos {
                        assert(listed_before(keys, c, b));
                        lemma_text_less_order(keys[b], keys[c], keys[i as int]);
                    }
                } else if p < pos {
                    assert(a == old_order[p] && b == old_order[q - 1]);
                } else {
                    assert(a == old_order[p - 1] && b == old_order[q - 1]);
                }
            }
        }
    }
    proof {
        assert forall|p: int, q: int| 0 <= p < q < order@.len() implies order@[p] != order@[q] by {
            assert(listed_before(keys, order@[p] as int, order@[q] as int));
            lemma_text_less_order(keys[order@[p] as int], keys[order@[q] as int], keys[0]);
        }
    }
    order
}

/// The instant `secs1` s + `millis1` ms is earlier than `secs2` s + `millis2` ms.
pub open spec fn instant_before(secs1: int, millis1: nat, secs2: int, millis2: nat) -> bool {
    secs1 < secs2 || (secs1 == secs2 && millis1 < millis2)
}

/// For sessions stamped by `iso8601_now` between the Unix epoch and the end
/// of year 9999, the listing order is by time: entry `i` is listed before
/// entry `j` exactly when it was created later, or at the same instant and
/// `i` came first.
pub proof fn lemma_listing_follows_time(
    keys: Seq<Seq<char>>,
    i: int,
    j: int,
    secs_i: int,
    millis_i: nat,
    secs_j: int,
    millis_j: nat,
)
    requires
        0 <= i < keys.len(),
        0 <= j < keys.len(),
        0 <= secs_i < 253402300800,
        0 <= secs_j < 253402300800,
        millis_i < 1000,
        millis_j < 1000,
        keys[i] == iso8601_text(secs_i, millis_i),
        keys[j] == iso8601_text(secs_j, millis_j),
    ensures
        listed_before(keys, i, j) <==> (instant_before(secs_j, millis_j, secs_i, millis_i) || (
        secs_i == secs_j && millis_i == millis_j && i < j)),
{
    if instant_before(secs_j, millis_j, secs_i, millis_i) {
        lemma_iso8601_order(secs_j, millis_j, secs_i, millis_i);
    }
    if instant_before(secs_i, millis_i, secs_j, millis_j) {
        lemma_iso8601_order(secs_i, millis_i, secs_j, millis_j);
    }
    lemma_text_less_order(keys[i], keys[j], keys[i]);
    lemma_text_less_order(keys[j], keys[i], keys[j]);
}

} // verus!
