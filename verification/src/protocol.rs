//! The newline-delimited JSON protocol spoken with the audio-processing
//! sidecar: framing commands, cutting its output into lines, and turning
//! each line into a progress event for the user interface.
use vstd::prelude::*;
use crate::sessions::{is_valid_session_id, valid_session_id};
use crate::text::{concat, push_char, same_text, string_from_chars, trim, trim_text};
use crate::timestamp::{push_signed_padded, signed_zero_padded};

verus! {

/// What one output line of the sidecar holds, read from its JSON object
/// `{"event": .., "payload": {..}}`: the event name, and the payload's
/// string members `stage`, `message`, `status`, `sessionId`, `language` and
/// its unsigned member `speakers` (`None` where absent or of another type).
/// The floating-point members `progress` and `duration` are read by the
/// application.
pub struct SidecarMessage {
    pub event: Option<String>,
    pub stage: Option<String>,
    pub message: Option<String>,
    pub status: Option<String>,
    pub session_id: Option<String>,
    pub language: Option<String>,
    pub speakers: Option<u64>,
}

/// The characters of a `SidecarMessage`.
pub struct SidecarMessageView {
    pub event: Option<Seq<char>>,
    pub stage: Option<Seq<char>>,
    pub message: Option<Seq<char>>,
    pub status: Option<Seq<char>>,
    pub session_id: Option<Seq<char>>,
    pub language: Option<Seq<char>>,
    pub speakers: Option<u64>,
}

impl View for SidecarMessage {
    type V = SidecarMessageView;

    open spec fn view(&self) -> SidecarMessageView {
        SidecarMessageView {
            event: opt_view(self.event),
            stage: opt_view(self.stage),
            message: opt_view(self.message),
            status: opt_view(self.status),
            session_id: opt_view(self.session_id),
            language: opt_view(self.language),
            speakers: self.speakers,
        }
    }
}

/// A progress event for the user interface.  `Progress` and `Done` also
/// carry a floating-point value (percent done, seconds of audio) that the
/// application attaches.
#[allow(inconsistent_fields)]
pub enum SidecarEvent {
    /// A pipeline stage began.
    Stage { stage: String, message: String },
    /// Progress within a stage.
    Progress { stage: String, message: String },
    /// The pipeline finished.
    Done { session_id: String, speaker_count: u32, language: Option<String> },
    /// The pipeline, or the sidecar process, failed.
    Error { stage: Option<String>, message: String },
    /// A line that is not one of the above, passed on as is.
    Raw { message: String },
}

/// The characters of a `SidecarEvent`.
#[allow(inconsistent_fields)]
pub enum SidecarEventView {
    Stage { stage: Seq<char>, message: Seq<char> },
    Progress { stage: Seq<char>, message: Seq<char> },
    Done { session_id: Seq<char>, speaker_count: u32, language: Option<Seq<char>> },
    Error { stage: Option<Seq<char>>, message: Seq<char> },
    Raw { message: Seq<char> },
}

impl View for SidecarEvent {
    type V = SidecarEventView;

    open spec fn view(&self) -> SidecarEventView {
        match self {
            SidecarEvent::Stage { stage, message } => SidecarEventView::Stage {
                stage: stage@,
                message: message@,
            },
            SidecarEvent::Progress { stage, message } => SidecarEventView::Progress {
                stage: stage@,
                message: message@,
            },
            SidecarEvent::Done { session_id, speaker_count, language } => SidecarEventView::Done {
                session_id: session_id@,
                speaker_count: *speaker_count,
                language: opt_view(*language),
            },
            SidecarEvent::Error { stage, message } => SidecarEventView::Error {
                stage: opt_view(*stage),
                message: message@,
            },
            SidecarEvent::Raw { message } => SidecarEventView::Raw { message: message@ },
        }
    }
}

/// The characters of an optional string.
pub open spec fn opt_view(o: Option<String>) -> Option<Seq<char>> {
    match o {
        Some(s) => Some(s@),
        None => None,
    }
}

/// The view of an optional message.
pub open spec fn parsed_view(o: Option<SidecarMessage>) -> Option<SidecarMessageView> {
    match o {
        Some(m) => Some(m@),
        None => None,
    }
}

/// The value of `o`, or `default` when there is none.
pub open spec fn or_default(o: Option<Seq<char>>, default: Seq<char>) -> Seq<char> {
    match o {
        Some(s) => s,
        None => default,
    }
}

/// The event for the output line `line`, read as `parsed` (`None` when it is
/// not a protocol object), while processing session `session_id`.
pub open spec fn line_event(
    line: Seq<char>,
    parsed: Option<SidecarMessageView>,
    session_id: Seq<char>,
) -> SidecarEventView {
    match parsed {
        None => SidecarEventView::Raw { message: line },
        Some(m) => {
            let stage = or_default(m.stage, "unknown"@);
            let message = or_default(m.message, ""@);
            if m.event == Some("STAGE"@) {
                SidecarEventView::Stage { stage, message }
            } else if m.event == Some("PROGRESS"@) {
                SidecarEventView::Progress { stage, message }
            } else if m.event == Some("COMPLETE"@) {
                let status = or_default(m.status, "completed"@);
                if status == "completed"@ {
                    SidecarEventView::Done {
                        session_id: or_default(m.session_id, session_id),
                        speaker_count: (match m.speakers {
                            Some(n) => n,
                            None => 0u64,
                        } % 0x1_0000_0000) as u32,
                        language: m.language,
                    }
                } else {
                    SidecarEventView::Error {
                        stage: Some("complete"@),
                        message: "Pipeline reported status: "@ + status,
                    }
                }
            } else if m.event == Some("ERROR"@) {
                SidecarEventView::Error {
                    stage: m.stage,
                    message: or_default(m.message, "Unknown sidecar error"@),
                }
            } else {
                SidecarEventView::Raw { message: line }
            }
        },
    }
}

fn text_or(o: &Option<String>, default: &str) -> (s: String)
    ensures
        s@ == or_default(opt_view(*o), default@),
{
    match o {
        Some(s) => s.clone(),
        None => String::from_str(default),
    }
}

fn is_event(event: &Option<String>, name: &str) -> (b: bool)
    ensures
        b == (opt_view(*event) == Some(name@)),
{
    match event {
        Some(e) => same_text(e.as_str(), name),
        None => false,
    }
}

/// Turns one output line of the sidecar into an event.  `parsed` is what
/// the line holds when it is a protocol object, `None` otherwise;
/// `session_id` is the session being processed.
pub fn parse_line(line: &str, parsed: Option<SidecarMessage>, session_id: &str) -> (event:
    SidecarEvent)
    ensures
        event@ == line_event(line@, parsed_view(parsed), session_id@),
{
    let m = match parsed {
        None => {
            return SidecarEvent::Raw { message: String::from_str(line) };
        },
        Some(m) => m,
    };
    let stage = text_or(&m.stage, "unknown");
    let message = text_or(&m.message, "");
    if is_event(&m.event, "STAGE") {
        SidecarEvent::Stage { stage, message }
    } else if is_event(&m.event, "PROGRESS") {
        SidecarEvent::Progress { stage, message }
    } else if is_event(&m.event, "COMPLETE") {
        let status = text_or(&m.status, "completed");
        if same_text(status.as_str(), "completed") {
            let speakers = match m.speakers {
                Some(n) => n,
                None => 0,
            };
            let speaker_count = #[verifier::truncate] (speakers as u32);
            assert((speakers as u32) == (speakers % 0x1_0000_0000) as u32) by (bit_vector);
            SidecarEvent::Done {
                session_id: text_or(&m.session_id, session_id),
                speaker_count,
                language: m.language,
            }
        } else {
            SidecarEvent::Error {
                stage: Some(String::from_str("complete")),
                message: concat("Pipeline reported status: ", status.as_str()),
            }
        }
    } else if is_event(&m.event, "ERROR") {
        proof {
            reveal_strlit("");
        }
        let message = if message.as_str().is_empty() {
            text_or(&m.message, "Unknown sidecar error")
        } else {
            message
        };
        SidecarEvent::Error { stage: m.stage, message }
    } else {
        SidecarEvent::Raw { message: String::from_str(line) }
    }
}

/// Index of the first `'\n'` in `s`, if there is one.
pub open spec fn first_newline(s: Seq<char>) -> Option<int>
    decreases s.len(),
{
    if s.len() == 0 {
        None
    } else if s[0] == '\n' {
        Some(0)
    } else {
        match first_newline(s.drop_first()) {
            Some(i) => Some(i + 1),
            None => None,
        }
    }
}

/// The lines of `s` that a `'\n'` has ended, each without its trailing
/// `'\r'`s, leaving out the ones that are then empty.
pub open spec fn complete_lines(s: Seq<char>) -> Seq<Seq<char>>
    decreases s.len(),
{
    match first_newline(s) {
        None => Seq::empty(),
        Some(i) => {
            let line = crate::text::trim_trailing_cr(s.take(i));
            let rest = if 0 <= i < s.len() { complete_lines(s.skip(i + 1)) } else { Seq::empty() };
            if line.len() > 0 { seq![line] + rest } else { rest }
        },
    }
}

/// The text of `s` after its last `'\n'` (all of `s` when it has none).
pub open spec fn unfinished_line(s: Seq<char>) -> Seq<char>
    decreases s.len(),
{
    match first_newline(s) {
        None => s,
        Some(i) => if 0 <= i < s.len() { unfinished_line(s.skip(i + 1)) } else { Seq::empty() },
    }
}

proof fn lemma_first_newline(s: Seq<char>, k: int)
    requires
        0 <= k <= s.len(),
        forall|j: int| 0 <= j < k ==> #[trigger] s[j] != '\n',
    ensures
        k < s.len() && s[k] == '\n' ==> first_newline(s) == Some(k),
        k == s.len() ==> first_newline(s) is None,
        first_newline(s) matches Some(i) ==> k <= i < s.len() && s[i] == '\n',
    decreases k,
{
    if k > 0 {
        let t = s.drop_first();
        assert forall|j: int| 0 <= j < k - 1 implies #[trigger] t[j] != '\n' by {
            assert(t[j] == s[j + 1]);
        }
        lemma_first_newline(t, k - 1);
        assert(s[0] != '\n');
    } else {
        lemma_first_newline_found(s);
    }
}

proof fn lemma_first_newline_found(s: Seq<char>)
    ensures
        first_newline(s) matches Some(i) ==> 0 <= i < s.len() && s[i] == '\n' && forall|j: int|
            0 <= j < i ==> #[trigger] s[j] != '\n',
        first_newline(s) is None ==> forall|j: int| 0 <= j < s.len() ==> #[trigger] s[j] != '\n',
    decreases s.len(),
{
    if s.len() > 0 && s[0] != '\n' {
        let t = s.drop_first();
        lemma_first_newline_found(t);
        assert forall|j: int| 1 <= j < s.len() implies s[j] == t[j - 1] by {}
    }
}

/// Feeding the sidecar's output in pieces gives the same lines as feeding
/// it at once: what one piece leaves unfinished is completed by the next.
pub proof fn lemma_lines_across_chunks(a: Seq<char>, b: Seq<char>)
    ensures
        complete_lines(a + b) == complete_lines(a) + complete_lines(unfinished_line(a) + b),
        unfinished_line(a + b) == unfinished_line(unfinished_line(a) + b),
    decreases a.len(),
{
    lemma_first_newline_found(a);
    match first_newline(a) {
        None => {
            let ab = a + b;
            lemma_first_newline_found(ab);
            assert(complete_lines(a) =~= Seq::<Seq<char>>::empty());
            assert(complete_lines(a) + complete_lines(ab) =~= complete_lines(ab));
        },
        Some(i) => {
            let ab = a + b;
            assert forall|j: int| 0 <= j < i implies #[trigger] ab[j] != '\n' by {
                assert(ab[j] == a[j]);
            }
            lemma_first_newline(ab, i);
            assert(ab.take(i) =~= a.take(i));
            assert(ab.skip(i + 1) =~= a.skip(i + 1) + b);
            lemma_lines_across_chunks(a.skip(i + 1), b);
            let line = crate::text::trim_trailing_cr(a.take(i));
            if line.len() > 0 {
                assert(complete_lines(ab) =~= seq![line] + complete_lines(a.skip(i + 1) + b));
                assert(complete_lines(a) =~= seq![line] + complete_lines(a.skip(i + 1)));
            }
        },
    }
}

/// The output of the sidecar received so far that does not yet end a line.
pub struct LineBuffer {
    pending: Vec<char>,
}

impl View for LineBuffer {
    type V = Seq<char>;

    closed spec fn view(&self) -> Seq<char> {
        self.pending@
    }
}

/// The characters of each string in `lines`.
pub open spec fn line_views(lines: Seq<String>) -> Seq<Seq<char>> {
    lines.map_values(|l: String| l@)
}

impl LineBuffer {
    pub fn new() -> (buffer: Self)
        ensures
            buffer@ == Seq::<char>::empty(),
    {
        LineBuffer { pending: Vec::new() }
    }

    /// Takes in a piece of the sidecar's output and returns the lines it
    /// completes, in order, without trailing `'\r'`s and without empty ones;
    /// the text after the last `'\n'` is kept for the next piece.
    pub fn push_chunk(&mut self, chunk: &str) -> (lines: Vec<String>)
        ensures
            line_views(lines@) == complete_lines(old(self)@ + chunk@),
            final(self)@ == unfinished_line(old(self)@ + chunk@),
    {
        let ghost s0 = self.pending@ + chunk@;
        let incoming = crate::text::chars_of(chunk);
        let mut s = Vec::new();
        s.append(&mut self.pending);
        let mut incoming = incoming;
        s.append(&mut incoming);
        assert(s@ =~= s0);
        let mut lines: Vec<String> = Vec::new();
        let mut start: usize = 0;
        assert(s0.skip(0) =~= s0);
        assert(line_views(lines@) + complete_lines(s0) =~= complete_lines(s0));
        let mut j: usize = 0;
        while j < s.len()
            invariant
                s@ == s0,
                start <= j <= s@.len(),
                forall|k: int| start <= k < j ==> #[trigger] s@[k] != '\n',
                complete_lines(s0) == line_views(lines@) + complete_lines(s0.skip(start as int)),
                unfinished_line(s0) == unfinished_line(s0.skip(start as int)),
            decreases s@.len() - j,
        {
            if s[j] == '\n' {
                let ghost rest = s0.skip(start as int);
                proof {
                    assert forall|k: int| 0 <= k < j - start implies #[trigger] rest[k] != '\n' by {
                        assert(rest[k] == s@[start + k]);
                    }
                    lemma_first_newline(rest, j - start);
                    assert(rest.take(j - start) =~= s@.subrange(start as int, j as int));
                    assert(rest.skip(j - start + 1) =~= s0.skip(j + 1));
                }
                let end = start + crate::text::trim_cr_len(&s, start, j);
                let line = string_from_chars(&s.as_slice()[start..end]);
                let ghost before = lines@;
                if end > start {
                    lines.push(line);
                    assert(line_views(lines@) =~= line_views(before) + seq![line@]);
                }
                start = j + 1;
            }
            j = j + 1;
        }
        proof {
            let rest = s0.skip(start as int);
            assert forall|k: int| 0 <= k < rest.len() implies #[trigger] rest[k] != '\n' by {
                assert(rest[k] == s@[start + k]);
            }
            lemma_first_newline(rest, rest.len() as int);
            assert(complete_lines(rest) =~= Seq::<Seq<char>>::empty());
            assert(line_views(lines@) + complete_lines(rest) =~= line_views(lines@));
        }
        self.pending = s.split_off(start);
        lines
    }

    /// The text left when the sidecar's output ends: the unfinished line
    /// with surrounding white space removed, if anything remains of it.
    pub fn finish(self) -> (last: Option<String>)
        ensures
            trim(self@).len() > 0 ==> (last matches Some(l) && l@ == trim(self@)),
            trim(self@).len() == 0 ==> last is None,
    {
        let rest = string_from_chars(self.pending.as_slice());
        let trimmed = trim_text(rest.as_str());
        if trimmed.as_str().is_empty() {
            None
        } else {
            Some(trimmed)
        }
    }
}

/// The message for a sidecar that exited with a failure code, if it did.
pub fn exit_failure(code: Option<i32>) -> (message: Option<String>)
    ensures
        match code {
            Some(c) if c != 0 => message matches Some(m) && m@ == "Sidecar exited with code "@
                + signed_zero_padded(c as int, 1),
            _ => message is None,
        },
{
    match code {
        Some(c) if c != 0 => {
            let mut m = String::from_str("Sidecar exited with code ");
            push_signed_padded(&mut m, c as i64, 1);
            Some(m)
        },
        _ => None,
    }
}

/// The event for a failure of the channel to the sidecar.
pub fn transport_error(error: &str) -> (event: SidecarEvent)
    ensures
        event@ == (SidecarEventView::Error {
            stage: None,
            message: "Sidecar transport error: "@ + error@,
        }),
{
    SidecarEvent::Error { stage: None, message: concat("Sidecar transport error: ", error) }
}

/// One command line for the sidecar's input: the command without
/// surrounding white space, ended by `'\n'`.
pub fn frame_command(command: &str) -> (line: String)
    ensures
        line@ == trim(command@).push('\n'),
{
    let mut line = trim_text(command);
    push_char(&mut line, '\n');
    line
}

/// The compact JSON text of the object whose members are `entries`: each
/// key with its string value, or `null` for `None`.
pub uninterp spec fn json_object(entries: Seq<(Seq<char>, Option<Seq<char>>)>) -> Seq<char>;

/// The characters of the keys and values of `entries`.
pub open spec fn entry_views(entries: Seq<(String, Option<String>)>) -> Seq<(Seq<char>, Option<Seq<char>>)> {
    entries.map_values(|e: (String, Option<String>)| (e.0@, opt_view(e.1)))
}

/// Serializes a JSON object of string-or-null members (serde_json: a `Map`
/// collected from the entries, then `Value::to_string`).  The text is named
/// by `json_object`; nothing else is stated of it.
#[verifier::external_body]
fn json_object_text(entries: &Vec<(String, Option<String>)>) -> (text: String)
    ensures
        text@ == json_object(entry_views(entries@)),
{
    let map: serde_json::Map<String, serde_json::Value> = entries.iter().map(
        |e| (e.0.clone(), serde_json::Value::from(e.1.clone())),
    ).collect();
    serde_json::Value::Object(map).to_string()
}

/// The members of the `PROCESS` command, in key order.
pub open spec fn process_command_entries(
    audio_path: Seq<char>,
    output_dir: Seq<char>,
    session_id: Seq<char>,
    models_dir: Option<Seq<char>>,
    language: Option<Seq<char>>,
    device: Option<Seq<char>>,
) -> Seq<(Seq<char>, Option<Seq<char>>)> {
    seq![
        ("audioPath"@, Some(audio_path)),
        ("command"@, Some("PROCESS"@)),
        ("device"@, device),
        ("language"@, language),
        ("modelsDir"@, models_dir),
        ("outputDir"@, Some(output_dir)),
        ("sessionId"@, Some(session_id)),
    ]
}

fn entry(key: &str, value: Option<String>) -> (e: (String, Option<String>))
    ensures
        e.0@ == key@,
        e.1 == value,
{
    (String::from_str(key), value)
}

/// The JSON text of the command that starts processing the recording at
/// `audio_path`, writing results to `output_dir`.
pub fn process_command(
    audio_path: &str,
    output_dir: &str,
    session_id: &str,
    models_dir: Option<String>,
    language: Option<String>,
    device: Option<String>,
) -> (text: String)
    ensures
        text@ == json_object(
            process_command_entries(
                audio_path@,
                output_dir@,
                session_id@,
                opt_view(models_dir),
                opt_view(language),
                opt_view(device),
            ),
        ),
{
    let mut entries: Vec<(String, Option<String>)> = Vec::new();
    entries.push(entry("audioPath", Some(String::from_str(audio_path))));
    entries.push(entry("command", Some(String::from_str("PROCESS"))));
    entries.push(entry("device", device));
    entries.push(entry("language", language));
    entries.push(entry("modelsDir", models_dir));
    entries.push(entry("outputDir", Some(String::from_str(output_dir))));
    entries.push(entry("sessionId", Some(String::from_str(session_id))));
    assert(entry_views(entries@) =~= process_command_entries(
        audio_path@,
        output_dir@,
        session_id@,
        opt_view(models_dir),
        opt_view(language),
        opt_view(device),
    ));
    json_object_text(&entries)
}

/// Whether processing of `session_id` may start: the id must be valid, no
/// processing may be running and the session must hold a recording; the
/// first condition that fails gives the error.
pub fn check_process_request(session_id: &str, running: bool, audio_exists: bool) -> (r: Result<
    (),
    String,
>)
    ensures
        !is_valid_session_id(session_id@) ==> (r matches Err(e) && e@ == "Invalid session ID"@),
        is_valid_session_id(session_id@) && running ==> (r matches Err(e) && e@
            == "Audio processing is already running"@),
        is_valid_session_id(session_id@) && !running && !audio_exists ==> (r matches Err(e) && e@
            == "No audio.wav found for session '"@ + session_id@ + "'. Record audio first."@),
        is_valid_session_id(session_id@) && !running && audio_exists ==> r is Ok,
{
    if !valid_session_id(session_id) {
        return Err(String::from_str("Invalid session ID"));
    }
    if running {
        return Err(String::from_str("Audio processing is already running"));
    }
    if !audio_exists {
        let head = concat("No audio.wav found for session '", session_id);
        return Err(concat(head.as_str(), "'. Record audio first."));
    }
    Ok(())
}

/// The message for a sidecar program missing at `path`.
pub fn sidecar_missing(path: &str) -> (message: String)
    ensures
        message@ == "Frozen sidecar not found at "@ + path@
            + ". Build it first: cd python-sidecar && bash build-mac-intel.sh (macOS) or powershell -File build-windows.ps1 (Windows)."@,
{
    let head = concat("Frozen sidecar not found at ", path);
    concat(
        head.as_str(),
        ". Build it first: cd python-sidecar && bash build-mac-intel.sh (macOS) or powershell -File build-windows.ps1 (Windows).",
    )
}

/// A command framed for the sidecar's input is read back, by the same line
/// splitting that is applied to the sidecar's output, as exactly one line:
/// the command itself, with nothing left over.
pub proof fn lemma_framed_command_read_back(command: Seq<char>)
    requires
        trim(command).len() > 0,
        forall|i: int| 0 <= i < trim(command).len() ==> #[trigger] trim(command)[i] != '\n',
    ensures
        complete_lines(trim(command).push('\n')) == seq![trim(command)],
        unfinished_line(trim(command).push('\n')) == Seq::<char>::empty(),
{
    let t = trim(command);
    let s = t.push('\n');
    assert forall|j: int| 0 <= j < t.len() implies #[trigger] s[j] != '\n' by {
        assert(s[j] == t[j]);
    }
    lemma_first_newline(s, t.len() as int);
    assert(s.take(t.len() as int) =~= t);
    crate::text::lemma_trim_last(command);
    assert(crate::text::trailing_count(t, false) == 0);
    assert(t.take(t.len() as int) =~= t);
    let rest = s.skip(t.len() as int + 1);
    assert(rest =~= Seq::<char>::empty());
    assert(complete_lines(rest) =~= Seq::<Seq<char>>::empty());
    assert(complete_lines(s) =~= seq![t]);
    assert(first_newline(rest) is None);
    assert(unfinished_line(rest) =~= Seq::<char>::empty());
    assert(unfinished_line(s) == unfinished_line(rest));
}

} // verus!

verus! {

/// What a sidecar line shows, field by field: a line that is not a protocol
/// object is shown as it is; `STAGE` and `PROGRESS` carry the payload's
/// stage (`unknown` when absent) and message (empty when absent); a
/// `COMPLETE` whose status is absent or `completed` is done, for the
/// payload's session id (else the session being processed), with the
/// payload's speaker count (0 when absent) and language; a `COMPLETE` with
/// any other status is an error of stage `complete` naming that status; an
/// `ERROR` carries the payload's stage and message (`Unknown sidecar error`
/// when absent); any other event is shown as the line itself.
pub proof fn lemma_line_event_fields(
    line: Seq<char>,
    parsed: Option<SidecarMessageView>,
    session_id: Seq<char>,
)
    ensures
        ({
            let e = line_event(line, parsed, session_id);
            &&& parsed is None ==> e == SidecarEventView::Raw { message: line }
            &&& parsed is Some ==> {
                let m = parsed->0;
                &&& m.event == Some("STAGE"@) ==> {
                    &&& e is Stage
                    &&& m.stage is Some ==> e->Stage_stage == m.stage->0
                    &&& m.stage is None ==> e->Stage_stage == "unknown"@
                    &&& m.message is Some ==> e->Stage_message == m.message->0
                    &&& m.message is None ==> e->Stage_message.len() == 0
                }
                &&& m.event == Some("PROGRESS"@) ==> {
                    &&& e is Progress
                    &&& m.stage is Some ==> e->Progress_stage == m.stage->0
                    &&& m.stage is None ==> e->Progress_stage == "unknown"@
                    &&& m.message is Some ==> e->Progress_message == m.message->0
                    &&& m.message is None ==> e->Progress_message.len() == 0
                }
                &&& m.event == Some("COMPLETE"@) && (m.status is None || m.status == Some(
                    "completed"@,
                )) ==> {
                    &&& e is Done
                    &&& m.session_id is Some ==> e->Done_session_id == m.session_id->0
                    &&& m.session_id is None ==> e->Done_session_id == session_id
                    &&& m.speakers is None ==> e->speaker_count == 0
                    &&& m.speakers is Some && m.speakers->0 < 0x1_0000_0000 ==> e->speaker_count
                        == m.speakers->0
                    &&& e->Done_language == m.language
                }
                &&& m.event == Some("COMPLETE"@) && m.status is Some && m.status->0
                    != "completed"@ ==> e == SidecarEventView::Error {
                    stage: Some("complete"@),
                    message: "Pipeline reported status: "@ + m.status->0,
                }
                &&& m.event == Some("ERROR"@) ==> {
                    &&& e is Error
                    &&& e->Error_stage == m.stage
                    &&& m.message is Some ==> e->Error_message == m.message->0
                    &&& m.message is None ==> e->Error_message == "Unknown sidecar error"@
                }
                &&& m.event != Some("STAGE"@) && m.event != Some("PROGRESS"@) && m.event
                    != Some("COMPLETE"@) && m.event != Some("ERROR"@) ==> e
                    == SidecarEventView::Raw { message: line }
            }
        }),
{
    reveal_strlit("");
    reveal_strlit("STAGE");
    reveal_strlit("PROGRESS");
    reveal_strlit("COMPLETE");
    reveal_strlit("ERROR");
    reveal_strlit("completed");
    assert("STAGE"@[0] == 'S' && "PROGRESS"@[0] == 'P' && "COMPLETE"@[0] == 'C' && "ERROR"@[0]
        == 'E');
    assert("STAGE"@ != "PROGRESS"@ && "STAGE"@ != "COMPLETE"@ && "STAGE"@ != "ERROR"@);
    assert("PROGRESS"@ != "COMPLETE"@ && "PROGRESS"@ != "ERROR"@ && "COMPLETE"@ != "ERROR"@);
}

/// The lookup of `key` among `entries`: the value of the first entry with
/// that key, if any.
pub open spec fn member(entries: Seq<(Seq<char>, Option<Seq<char>>)>, key: Seq<char>) -> Option<
    Option<Seq<char>>,
>
    decreases entries.len(),
{
    if entries.len() == 0 {
        None
    } else if entries[0].0 == key {
        Some(entries[0].1)
    } else {
        member(entries.drop_first(), key)
    }
}

/// The `PROCESS` command has each of its members once, and carries its
/// arguments: `audioPath`, `outputDir` and `sessionId` are the given paths
/// and id, `modelsDir`, `language` and `device` the given options (`null`
/// when `None`), and `command` is `PROCESS`.
pub proof fn lemma_process_command_members(
    audio_path: Seq<char>,
    output_dir: Seq<char>,
    session_id: Seq<char>,
    models_dir: Option<Seq<char>>,
    language: Option<Seq<char>>,
    device: Option<Seq<char>>,
)
    ensures
        ({
            let e = process_command_entries(
                audio_path,
                output_dir,
                session_id,
                models_dir,
                language,
                device,
            );
            &&& e.len() == 7
            &&& forall|i: int, j: int| 0 <= i < j < e.len() ==> e[i].0 != e[j].0
            &&& member(e, "audioPath"@) == Some(Some(audio_path))
            &&& member(e, "command"@) == Some(Some("PROCESS"@))
            &&& member(e, "device"@) == Some(device)
            &&& member(e, "language"@) == Some(language)
            &&& member(e, "modelsDir"@) == Some(models_dir)
            &&& member(e, "outputDir"@) == Some(Some(output_dir))
            &&& member(e, "sessionId"@) == Some(Some(session_id))
        }),
{
    reveal_strlit("audioPath");
    reveal_strlit("command");
    reveal_strlit("device");
    reveal_strlit("language");
    reveal_strlit("modelsDir");
    reveal_strlit("outputDir");
    reveal_strlit("sessionId");
    let e = process_command_entries(audio_path, output_dir, session_id, models_dir, language, device);
    assert("audioPath"@[0] == 'a' && "command"@[0] == 'c' && "device"@[0] == 'd');
    assert("language"@[0] == 'l' && "modelsDir"@[0] == 'm' && "outputDir"@[0] == 'o');
    assert("sessionId"@[0] == 's' && "audioPath"@.len() == 9);
    assert forall|i: int, j: int| 0 <= i < j < e.len() implies e[i].0 != e[j].0 by {
        assert(e[i].0[0] != e[j].0[0]);
    }
    reveal_with_fuel(member, 8);
    let d1 = e.drop_first();
    let d2 = d1.drop_first();
    let d3 = d2.drop_first();
    let d4 = d3.drop_first();
    let d5 = d4.drop_first();
    let d6 = d5.drop_first();
    assert(d1[0] == e[1] && d2[0] == e[2] && d3[0] == e[3] && d4[0] == e[4] && d5[0] == e[5] && d6[0] == e[6]);
}

} // verus!
