//! Decisions of the audio capture: the bounded sample queue between the
//! capture callback and the WAV writer, the choice of input device, and
//! the outcome of starting and stopping a recording.
use vstd::prelude::*;
use std::collections::VecDeque;
use crate::sessions::{is_valid_session_id, valid_session_id};
use crate::text::{chars_of, concat, string_from_chars};

verus! {

/// Sample rate of the recorded audio, in Hz (16 kHz mono 16-bit PCM).
pub const SAMPLE_RATE: u32 = 16_000;

/// Channels of the recorded audio.
pub const CHANNELS: u16 = 1;

/// Bits per sample of the recorded audio.
pub const BITS_PER_SAMPLE: u16 = 16;

/// Soft ceiling on the samples waiting for the writer: four hours at
/// `SAMPLE_RATE`.
pub const MAX_QUEUED_SAMPLES: usize = 16_000 * 60 * 60 * 4;

/// Number of queued samples dropped, oldest first, to make room for
/// `incoming` new ones under `limit`.
pub open spec fn overflow(queued: nat, incoming: nat, limit: nat) -> nat {
    if incoming == 0 || queued + incoming <= limit {
        0
    } else if queued + incoming - limit <= queued {
        (queued + incoming - limit) as nat
    } else {
        queued
    }
}

/// Appends `samples` to `queue`, first dropping the oldest queued samples
/// as far as needed (and possible) to stay within `limit`.  Returns how
/// many were dropped.  An empty `samples` leaves the queue as it is.
pub fn enqueue_bounded(queue: &mut VecDeque<i16>, samples: Vec<i16>, limit: usize) -> (dropped:
    usize)
    requires
        old(queue)@.len() + samples@.len() <= usize::MAX,
    ensures
        dropped == overflow(old(queue)@.len(), samples@.len(), limit as nat),
        final(queue)@ == old(queue)@.skip(dropped as int) + samples@,
{
    if samples.len() == 0 {
        assert(queue@.skip(0) + samples@ =~= queue@);
        return 0;
    }
    let projected = queue.len() + samples.len();
    let mut excess: usize = 0;
    if projected > limit {
        excess = projected - limit;
        if excess > queue.len() {
            excess = queue.len();
        }
    }
    let ghost start = queue@;
    let mut k: usize = 0;
    while k < excess
        invariant
            k <= excess <= start.len(),
            queue@ == start.skip(k as int),
        decreases excess - k,
    {
        let _ = queue.pop_front();
        k = k + 1;
        assert(queue@ =~= start.skip(k as int));
    }
    let ghost kept = queue@;
    for i in 0..samples.len()
        invariant
            queue@ == kept + samples@.take(i as int),
    {
        queue.push_back(samples[i]);
        assert(queue@ =~= kept + samples@.take(i + 1));
    }
    assert(samples@.take(samples@.len() as int) =~= samples@);
    excess
}

/// Once within `limit`, the queue stays within it after `enqueue_bounded`
/// whenever no more than `limit` samples arrive at once.
pub proof fn lemma_queue_stays_bounded(queued: Seq<i16>, samples: Seq<i16>, limit: nat)
    requires
        queued.len() <= limit,
        samples.len() <= limit,
    ensures
        queued.skip(overflow(queued.len(), samples.len(), limit) as int).len() + samples.len()
            <= limit,
{
}

/// Appends `samples` to `queue` within `MAX_QUEUED_SAMPLES`.
pub fn enqueue(queue: &mut VecDeque<i16>, samples: Vec<i16>) -> (dropped: usize)
    requires
        old(queue)@.len() + samples@.len() <= usize::MAX,
    ensures
        dropped == overflow(old(queue)@.len(), samples@.len(), MAX_QUEUED_SAMPLES as nat),
        final(queue)@ == old(queue)@.skip(dropped as int) + samples@,
{
    enqueue_bounded(queue, samples, MAX_QUEUED_SAMPLES)
}

/// The lowercase form of a string (std `str::to_lowercase`, Unicode's
/// `Lowercase` mapping).
pub uninterp spec fn lowercase(s: Seq<char>) -> Seq<char>;

/// Lowercases a string (std `str::to_lowercase`); the result is named by
/// `lowercase` and nothing else is stated of it.
#[verifier::external_body]
fn lowercase_text(s: &str) -> (lower: String)
    ensures
        lower@ == lowercase(s@),
{
    s.to_lowercase()
}

/// Whether `needle` occurs in `hay`.
pub open spec fn contains_text(hay: Seq<char>, needle: Seq<char>) -> bool {
    exists|start: int|
        0 <= start <= hay.len() - needle.len() && #[trigger] hay.subrange(start, start + needle.len())
            == needle
}

fn occurs_at(hay: &Vec<char>, needle: &Vec<char>, i: usize) -> (b: bool)
    requires
        i + needle@.len() <= hay@.len(),
    ensures
        b == (hay@.subrange(i as int, i + needle@.len()) == needle@),
{
    let n = hay.len();
    let mut k: usize = 0;
    while k < needle.len()
        invariant
            n == hay@.len(),
            i + needle@.len() <= hay@.len(),
            k <= needle@.len(),
            hay@.subrange(i as int, i + k) == needle@.take(k as int),
        decreases needle@.len() - k,
    {
        if hay[i + k] != needle[k] {
            assert(hay@.subrange(i as int, i + needle@.len())[k as int] != needle@[k as int]);
            return false;
        }
        k = k + 1;
        assert(hay@.subrange(i as int, i + k) =~= needle@.take(k as int));
    }
    assert(needle@.take(k as int) =~= needle@);
    true
}

/// Whether `needle` occurs in `hay`.
fn text_contains(hay: &Vec<char>, needle: &Vec<char>) -> (found: bool)
    ensures
        found == contains_text(hay@, needle@),
{
    if needle.len() > hay.len() {
        return false;
    }
    if needle.len() == 0 {
        assert(hay@.subrange(0, 0int + needle@.len()) =~= needle@);
        return true;
    }
    let last = hay.len() - needle.len();
    let mut i: usize = 0;
    while i <= last
        invariant
            last == hay@.len() - needle@.len(),
            needle@.len() > 0,
            last < hay@.len(),
            hay@.len() == hay.len(),
            i <= last + 1,
            forall|j: int| 0 <= j < i ==> #[trigger] hay@.subrange(j, j + needle@.len()) != needle@,
        decreases last + 1 - i,
    {
        if occurs_at(hay, needle, i) {
            assert(hay@.subrange(i as int, i + needle@.len()) == needle@);
            return true;
        }
        i = i + 1;
    }
    false
}

/// Whether the device named `name` is the one asked for as `wanted`:
/// the lowercased name contains the lowercased request.
pub open spec fn device_matches(name: Seq<char>, wanted: Seq<char>) -> bool {
    contains_text(lowercase(name), lowercase(wanted))
}

/// Which input device to capture from, given the names of the available
/// devices: the first whose name contains `wanted`, ignoring case.  `None`
/// means the system default, which is used when nothing (or an empty name)
/// is asked for or no name matches.
pub fn select_device(names: &Vec<String>, wanted: Option<&str>) -> (choice: Option<usize>)
    ensures
        match wanted {
            Some(w) if w@.len() > 0 => match choice {
                Some(k) => k < names@.len() && device_matches(names@[k as int]@, w@) && forall|
                    j: int,
                | 0 <= j < k ==> !device_matches(#[trigger] names@[j]@, w@),
                None => forall|j: int|
                    0 <= j < names@.len() ==> !device_matches(#[trigger] names@[j]@, w@),
            },
            _ => choice is None,
        },
{
    let w = match wanted {
        Some(w) if !w.is_empty() => w,
        _ => {
            return None;
        },
    };
    assert(wanted == Some(w));
    let needle = chars_of(lowercase_text(w).as_str());
    let mut i: usize = 0;
    while i < names.len()
        invariant
            wanted == Some(w),
            w@.len() > 0,
            needle@ == lowercase(w@),
            i <= names@.len(),
            forall|j: int| 0 <= j < i ==> !device_matches(#[trigger] names@[j]@, w@),
        decreases names@.len() - i,
    {
        let name = &names[i];
        let hay = chars_of(lowercase_text(name.as_str()).as_str());
        assert(hay@ == lowercase(names@[i as int]@));
        if text_contains(&hay, &needle) {
            return Some(i);
        }
        i = i + 1;
    }
    None
}

/// What the capture thread reported while its input stream was being set up.
pub enum CaptureInit {
    /// The stream is running.
    Ready,
    /// The stream could not be set up, for the given reason.
    Failed(String),
    /// Nothing was reported in time.
    TimedOut,
    /// The thread ended without reporting.
    Disconnected,
}

/// Whether starting a recording succeeded, given what the capture thread
/// reported.
pub fn init_outcome(report: CaptureInit) -> (r: Result<(), String>)
    ensures
        match report {
            CaptureInit::Ready => r is Ok,
            CaptureInit::Failed(detail) => r matches Err(e) && e@ == detail@,
            CaptureInit::TimedOut => r matches Err(e) && e@
                == "Capture stream initialization timed out"@,
            CaptureInit::Disconnected => r matches Err(e) && e@
                == "Capture thread exited during initialization"@,
        },
{
    match report {
        CaptureInit::Ready => Ok(()),
        CaptureInit::Failed(detail) => Err(detail),
        CaptureInit::TimedOut => Err(String::from_str("Capture stream initialization timed out")),
        CaptureInit::Disconnected => Err(
            String::from_str("Capture thread exited during initialization"),
        ),
    }
}

/// How the capture thread ended.
pub enum CaptureEnd {
    /// It stopped when asked to.
    Stopped,
    /// Its stream failed, for the given reason.
    StreamError(String),
    /// It panicked.
    Panicked,
}

/// How the WAV writer thread ended.
pub enum WriterEnd {
    /// It finalized the file after writing this many samples.
    Finished(u64),
    /// Writing failed, for the given reason.
    Failed(String),
    /// It panicked.
    Panicked,
}

/// Whether the capture side of a shutdown went well, given how the capture
/// thread ended.  A stream error during capture does not fail the shutdown.
pub fn capture_outcome(end: CaptureEnd) -> (r: Result<(), String>)
    ensures
        end is Panicked ==> (r matches Err(e) && e@ == "Capture thread panicked"@),
        !(end is Panicked) ==> r is Ok,
{
    match end {
        CaptureEnd::Panicked => Err(String::from_str("Capture thread panicked")),
        _ => Ok(()),
    }
}

/// The number of samples written, or why writing failed, given how the WAV
/// writer thread ended.
pub fn writer_outcome(end: WriterEnd) -> (r: Result<u64, String>)
    ensures
        match end {
            WriterEnd::Finished(n) => r == Ok::<u64, String>(n),
            WriterEnd::Failed(detail) => r matches Err(e) && e@ == "WAV writer failed: "@
                + detail@,
            WriterEnd::Panicked => r matches Err(e) && e@ == "WAV writer thread panicked"@,
        },
{
    match end {
        WriterEnd::Finished(n) => Ok(n),
        WriterEnd::Failed(detail) => Err(concat("WAV writer failed: ", detail.as_str())),
        WriterEnd::Panicked => Err(String::from_str("WAV writer thread panicked")),
    }
}

/// The result of a stopped recording: the path of its audio file, unless
/// the input stream failed during the recording or nothing was captured.
pub fn stop_outcome(stream_failed: bool, samples_written: u64, output_path: String) -> (r: Result<
    String,
    String,
>)
    ensures
        stream_failed ==> (r matches Err(e) && e@
            == "Audio input stream reported an error during recording"@),
        !stream_failed && samples_written == 0 ==> (r matches Err(e) && e@
            == "No audio was captured"@),
        !stream_failed && samples_written > 0 ==> (r matches Ok(p) && p@ == output_path@),
{
    if stream_failed {
        return Err(String::from_str("Audio input stream reported an error during recording"));
    }
    if samples_written == 0 {
        return Err(String::from_str("No audio was captured"));
    }
    Ok(output_path)
}

/// Whether a recording of `session_id` may start: the id must be valid
/// and no recording may be running; the first that fails gives the error.
pub fn check_start_recording(session_id: &str, recording_active: bool) -> (r: Result<(), String>)
    ensures
        !is_valid_session_id(session_id@) ==> (r matches Err(e) && e@ == "Invalid session ID"@),
        is_valid_session_id(session_id@) && recording_active ==> (r matches Err(e) && e@
            == "A recording is already active"@),
        is_valid_session_id(session_id@) && !recording_active ==> r is Ok,
{
    if !valid_session_id(session_id) {
        return Err(String::from_str("Invalid session ID"));
    }
    if recording_active {
        return Err(String::from_str("A recording is already active"));
    }
    Ok(())
}

/// Index of the last `c` in `s[..end]`, or -1 when there is none.
pub open spec fn last_index_before(s: Seq<char>, c: char, end: int) -> int
    decreases end,
{
    if end <= 0 {
        -1
    } else if s[end - 1] == c {
        end - 1
    } else {
        last_index_before(s, c, end - 1)
    }
}

/// The second component from the end of `path` split at `separator`: the
/// text between the last two separators (or from the start to the only
/// one), empty when there is no separator.
pub open spec fn parent_component(path: Seq<char>, separator: char) -> Seq<char> {
    let last = last_index_before(path, separator, path.len() as int);
    if last < 0 {
        Seq::empty()
    } else {
        path.subrange(last_index_before(path, separator, last) + 1, last)
    }
}

proof fn lemma_last_index_before(s: Seq<char>, c: char, end: int)
    requires
        0 <= end <= s.len(),
    ensures
        -1 <= last_index_before(s, c, end) < end,
    decreases end,
{
    if end > 0 && s[end - 1] != c {
        lemma_last_index_before(s, c, end - 1);
    }
}

fn find_last(s: &Vec<char>, c: char, end: usize) -> (found: Option<usize>)
    requires
        end <= s@.len(),
    ensures
        match found {
            Some(i) => i as int == last_index_before(s@, c, end as int) && i < end,
            None => last_index_before(s@, c, end as int) == -1,
        },
{
    let mut k = end;
    while k > 0
        invariant
            k <= end <= s@.len(),
            last_index_before(s@, c, end as int) == last_index_before(s@, c, k as int),
        decreases k,
    {
        if s[k - 1] == c {
            return Some(k - 1);
        }
        k = k - 1;
    }
    None
}

/// The session id of a recording, read from the path of its audio file
/// `<root>/<session_id>/audio.wav`: the second component from the end.
pub fn session_id_from_audio_path(path: &str, separator: char) -> (id: String)
    ensures
        id@ == parent_component(path@, separator),
{
    let chars = chars_of(path);
    match find_last(&chars, separator, chars.len()) {
        None => String::new(),
        Some(last) => {
            proof {
                lemma_last_index_before(chars@, separator, last as int);
            }
            let first = match find_last(&chars, separator, last) {
                Some(j) => j + 1,
                None => 0,
            };
            assert(chars@.subrange(first as int, last as int) == parent_component(path@, separator));
            string_from_chars(&chars.as_slice()[first..last])
        },
    }
}

} // verus!
