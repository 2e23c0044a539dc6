//! Previews of image and video files: what is fetched, where it is kept,
//! and the order of the steps that make one.

use crate::listing::{lowercase_of, to_lowercase};
use crate::media::{media_kind, media_kind_of, MediaKind};
use crate::digest::{digest_key, md5_digest, text_digest};
use crate::numbers::{append_decimal, decimal_digits, hex_fixed, parse_u64, parsed_u64};
use crate::text::{
    after_last, append_chars, append_str, copy_range, find_last, from_chars, to_chars,
};
use base64::Engine;
use vstd::prelude::*;
use vstd::utf8::encode_utf8;

verus! {

/// Files above this size, in bytes, get no preview.
pub const PREVIEW_SIZE_LIMIT: u64 = 50_000_000;

/// A pulled file below this size, in bytes, is taken to be damaged.
pub const MIN_PULLED_SIZE: u64 = 100;

/// The text that the standard Base64 alphabet with padding gives `data`,
/// as `base64`'s `STANDARD` engine encodes it.
pub uninterp spec fn base64_standard(data: Seq<u8>) -> Seq<char>;

/// Data of the length `len` has a Base64 text that fits in memory.
pub open spec fn base64_fits(len: nat) -> bool {
    len / 3 * 4 + 4 <= isize::MAX
}

/// Calls `Engine::encode` on `base64`'s `STANDARD` engine. The text
/// depends on the data alone; the call panics where the length of the
/// text cannot be computed or allocated, which `requires` leaves out.
#[verifier::external_body]
fn base64_of(data: &[u8]) -> (r: String)
    requires
        base64_fits(data@.len()),
    ensures
        r@ == base64_standard(data@),
{
    base64::engine::general_purpose::STANDARD.encode(data)
}

/// A file of the size that `file_size` denotes is too large to preview. A
/// size that cannot be read as a number is not.
pub open spec fn too_large_to_preview(file_size: Seq<char>) -> bool {
    match parsed_u64(file_size) {
        Some(n) => n > PREVIEW_SIZE_LIMIT,
        None => false,
    }
}

/// Tells whether a file of the size that `file_size` denotes is too large
/// to preview.
pub fn is_too_large_to_preview(file_size: &str) -> (r: bool)
    ensures
        r == too_large_to_preview(file_size@),
{
    let s = to_chars(file_size);
    match parse_u64(s.as_slice()) {
        Some(n) => n > PREVIEW_SIZE_LIMIT,
        None => false,
    }
}

/// The text whose digest names the preview of a file on a device.
pub open spec fn cache_subject(device_id: Seq<char>, file_path: Seq<char>) -> Seq<char> {
    device_id + seq![':'] + file_path
}

/// The key under which the preview of a file on a device is kept: the MD5
/// digest of the device's id, a colon and the file's path, in UTF-8.
pub fn thumbnail_cache_key(device_id: &str, file_path: &str) -> (r: String)
    ensures
        r@ == hex_fixed(
            md5_digest(encode_utf8(cache_subject(device_id@, file_path@))) as nat,
            32,
        ),
{
    let mut subject: Vec<char> = Vec::new();
    append_str(&mut subject, device_id);
    subject.push(':');
    append_str(&mut subject, file_path);
    assert(subject@ == cache_subject(device_id@, file_path@));
    let text = from_chars(subject.as_slice());
    digest_key(text_digest(text.as_str()))
}

/// The file name of the preview kept under `key`.
pub fn cached_thumbnail_name(key: &str) -> (r: String)
    ensures
        r@ == "thumb_"@ + key@ + ".png"@,
{
    let mut out: Vec<char> = Vec::new();
    append_str(&mut out, "thumb_");
    append_str(&mut out, key);
    append_str(&mut out, ".png");
    from_chars(out.as_slice())
}

/// The name of the file that a pulled file is kept in for a while: the
/// key, an underscore, and what follows the last slash of its path.
pub fn pulled_file_name(key: &str, file_path: &str) -> (r: String)
    ensures
        r@ == key@ + seq!['_'] + after_last(file_path@, '/'),
{
    let path = to_chars(file_path);
    let from: usize = match find_last(path.as_slice(), '/') {
        Some(i) => i + 1,
        None => 0,
    };
    let base = copy_range(path.as_slice(), from, path.len());
    let mut out: Vec<char> = Vec::new();
    append_str(&mut out, key);
    out.push('_');
    append_chars(&mut out, base.as_slice());
    from_chars(out.as_slice())
}

/// The data URL of a PNG image whose Base64 text is `encoded`.
pub fn png_data_url(encoded: &str) -> (r: String)
    ensures
        r@ == "data:image/png;base64,"@ + encoded@,
{
    let mut out: Vec<char> = Vec::new();
    append_str(&mut out, "data:image/png;base64,");
    append_str(&mut out, encoded);
    from_chars(out.as_slice())
}

/// The data URL of the PNG image that `png` holds.
pub fn thumbnail_data_url(png: &[u8]) -> (r: String)
    requires
        base64_fits(png@.len()),
    ensures
        r@ == "data:image/png;base64,"@ + base64_standard(png@),
{
    let encoded = base64_of(png);
    png_data_url(encoded.as_str())
}

/// The data URL of the PNG image that `png` holds, or `None` where its
/// Base64 text would not fit in memory.
pub fn try_thumbnail_data_url(png: &[u8]) -> (r: Option<String>)
    ensures
        match r {
            Some(url) => base64_fits(png@.len()) && url@ == "data:image/png;base64,"@
                + base64_standard(png@),
            None => !base64_fits(png@.len()),
        },
{
    if fits_base64(png.len()) {
        Some(thumbnail_data_url(png))
    } else {
        None
    }
}

/// What is answered when the making of a preview has ended with
/// `outcome`: one of two words, the data URL of the preview, or the text of
/// the failure.
pub open spec fn answer_of(
    outcome: ThumbnailOutcome,
    preview: Seq<u8>,
    detail: Seq<char>,
    pulled_len: u64,
    file_size: Seq<char>,
) -> Result<Seq<char>, Seq<char>> {
    match outcome {
        ThumbnailOutcome::SizeTooLarge => Ok("size-too-large"@),
        ThumbnailOutcome::VideoPlaceholder => Ok("video-placeholder"@),
        ThumbnailOutcome::DataUrl => Ok("data:image/png;base64,"@ + base64_standard(preview)),
        ThumbnailOutcome::Failed(failure) => Err(
            failure_text(failure, detail, pulled_len, file_size),
        ),
    }
}

/// The answer when the making of a preview has ended with `outcome`.
/// `preview` holds the bytes that were read last, `detail` what the failed
/// step said, `pulled_len` the size of the pulled file, and `file_size` the
/// size that the listing gave.
pub fn thumbnail_answer(
    outcome: ThumbnailOutcome,
    preview: &[u8],
    detail: &str,
    pulled_len: u64,
    file_size: &str,
) -> (r: Result<String, String>)
    requires
        outcome == ThumbnailOutcome::DataUrl ==> base64_fits(preview@.len()),
    ensures
        match r {
            Ok(s) => answer_of(outcome, preview@, detail@, pulled_len, file_size@) == Ok::<
                Seq<char>,
                Seq<char>,
            >(s@),
            Err(m) => answer_of(outcome, preview@, detail@, pulled_len, file_size@) == Err::<
                Seq<char>,
                Seq<char>,
            >(m@),
        },
{
    match outcome {
        ThumbnailOutcome::SizeTooLarge => Ok(String::from_str("size-too-large")),
        ThumbnailOutcome::VideoPlaceholder => Ok(String::from_str("video-placeholder")),
        ThumbnailOutcome::DataUrl => Ok(thumbnail_data_url(preview)),
        ThumbnailOutcome::Failed(failure) => Err(
            failure_message(failure, detail, pulled_len, file_size),
        ),
    }
}

/// Tells whether data of the length `len` has a Base64 text that fits in
/// memory.
pub fn fits_base64(len: usize) -> (r: bool)
    ensures
        r == base64_fits(len as nat),
{
    len / 3 <= (isize::MAX as usize - 4) / 4
}

fn fits(phase: ThumbnailPhase, too_large: bool, kind: MediaKind) -> (r: bool)
    ensures
        r == phase_fits(phase, too_large, kind),
{
    match phase {
        ThumbnailPhase::Start => true,
        ThumbnailPhase::Done => true,
        ThumbnailPhase::CreatingDir => !too_large,
        ThumbnailPhase::ProbingCache => !too_large,
        ThumbnailPhase::ReadingCached => !too_large,
        ThumbnailPhase::Pulling => !too_large,
        ThumbnailPhase::Inspecting => !too_large,
        ThumbnailPhase::Rendering => !too_large && kind == MediaKind::Image,
        ThumbnailPhase::ReadingRendered => !too_large && kind == MediaKind::Image,
        ThumbnailPhase::ProbingFfmpeg => !too_large && kind == MediaKind::Video,
        ThumbnailPhase::ExtractingFrame => !too_large && kind == MediaKind::Video,
        ThumbnailPhase::ReadingFrame => !too_large && kind == MediaKind::Video,
    }
}

/// The kind of preview that a file with the extension `extension` gets,
/// whatever the case it is written in.
pub fn thumbnail_kind(extension: &str) -> (k: MediaKind)
    ensures
        k == media_kind_of(lowercase_of(extension@)),
{
    let lower = to_lowercase(extension);
    media_kind(lower.as_str())
}

/// Why no preview could be made.
#[derive(Clone, Copy, Debug, PartialEq, Eq, Structural)]
pub enum ThumbnailFailure {
    /// The directory for previews could not be made.
    TempDir,
    /// The stored preview could not be read.
    ReadCached,
    /// The pull command could not be run.
    PullNotRun,
    /// The pull command ran and failed.
    PullFailed,
    /// The pull command ran, and the file is not there.
    NotPulled,
    /// The pulled file's size could not be read.
    Metadata,
    /// The pulled file is empty.
    Empty,
    /// The pulled file is too small to be whole.
    TooSmall,
    /// The pulled image could not be opened.
    Open,
    /// The pulled image's format could not be told.
    GuessFormat,
    /// The pulled image could not be decoded.
    Decode,
    /// The preview could not be written.
    Save,
    /// The preview that was written could not be read.
    ReadThumbnail,
    /// The file is neither an image nor a video.
    Unsupported,
    /// A step reported something that it cannot have produced.
    OutOfOrder,
}

/// The stage at which rendering an image stopped.
#[derive(Clone, Copy, Debug, PartialEq, Eq, Structural)]
pub enum RenderStage {
    Open,
    GuessFormat,
    Decode,
    Save,
}

/// How the making of a preview ended.
#[derive(Clone, Copy, Debug, PartialEq, Eq, Structural)]
pub enum ThumbnailOutcome {
    /// The file is too large; the answer is the word `size-too-large`.
    SizeTooLarge,
    /// The bytes that were read last are the preview; the answer is their
    /// data URL.
    DataUrl,
    /// No frame could be taken; the answer is the word `video-placeholder`.
    VideoPlaceholder,
    Failed(ThumbnailFailure),
}

/// Where the making of a preview stands: what was asked for last.
#[derive(Clone, Copy, Debug, PartialEq, Eq, Structural)]
pub enum ThumbnailPhase {
    Start,
    CreatingDir,
    ProbingCache,
    ReadingCached,
    Pulling,
    Inspecting,
    Rendering,
    ReadingRendered,
    ProbingFfmpeg,
    ExtractingFrame,
    ReadingFrame,
    Done,
}

/// What the last step gave.
#[derive(Clone, Copy, Debug, PartialEq, Eq, Structural)]
pub enum ThumbnailEvent {
    /// Nothing yet: the first event.
    Begin,
    /// The step was done.
    Succeeded,
    /// The step could not be done.
    Failed,
    /// A probe: the thing is there, or not.
    Probed(bool),
    /// The pull command ran, with or without success.
    Pulled { success: bool },
    /// The pulled file is there or not, and its size if that could be read.
    Inspected { exists: bool, len: Option<u64> },
    /// Rendering stopped at a stage.
    RenderFailed(RenderStage),
    /// The frame command ran or not, with or without success, and the
    /// preview is there or not.
    Extracted { ran: bool, success: bool, thumbnail_exists: bool },
}

/// What is to be done next.
#[derive(Clone, Copy, Debug, PartialEq, Eq, Structural)]
pub enum ThumbnailAction {
    CreateTempDir,
    ProbeCache,
    ReadCached,
    PullFile,
    InspectPulled,
    RenderImage,
    ReadRendered,
    ProbeFfmpeg,
    ExtractFrame,
    ReadFrame,
    /// Remove the pulled file if `remove_pulled`, then answer.
    Finish { outcome: ThumbnailOutcome, remove_pulled: bool },
}

/// The end of the work with `outcome`.
pub open spec fn finish(outcome: ThumbnailOutcome, remove_pulled: bool) -> (
    ThumbnailPhase,
    ThumbnailAction,
) {
    (ThumbnailPhase::Done, ThumbnailAction::Finish { outcome, remove_pulled })
}

/// The end of the work with a failure.
pub open spec fn fail(failure: ThumbnailFailure, remove_pulled: bool) -> (
    ThumbnailPhase,
    ThumbnailAction,
) {
    finish(ThumbnailOutcome::Failed(failure), remove_pulled)
}

/// The failure that goes with the stage at which rendering stopped.
pub open spec fn render_failure(stage: RenderStage) -> ThumbnailFailure {
    match stage {
        RenderStage::Open => ThumbnailFailure::Open,
        RenderStage::GuessFormat => ThumbnailFailure::GuessFormat,
        RenderStage::Decode => ThumbnailFailure::Decode,
        RenderStage::Save => ThumbnailFailure::Save,
    }
}

/// The phase is one that the making of a preview can be in, for a file of
/// the given kind that is or is not too large to preview: a file that is
/// too large gets no further than the start, only an image is rendered,
/// and only of a video a frame is taken.
pub open spec fn phase_fits(phase: ThumbnailPhase, too_large: bool, kind: MediaKind) -> bool {
    match phase {
        ThumbnailPhase::Start | ThumbnailPhase::Done => true,
        ThumbnailPhase::CreatingDir | ThumbnailPhase::ProbingCache | ThumbnailPhase::ReadingCached
        | ThumbnailPhase::Pulling | ThumbnailPhase::Inspecting => !too_large,
        ThumbnailPhase::Rendering | ThumbnailPhase::ReadingRendered => !too_large && kind
            == MediaKind::Image,
        ThumbnailPhase::ProbingFfmpeg | ThumbnailPhase::ExtractingFrame
        | ThumbnailPhase::ReadingFrame => !too_large && kind == MediaKind::Video,
    }
}

/// The next phase and action, for a file of the given kind that is or is
/// not too large to preview. A phase that such a file cannot be in, and
/// an event that the phase cannot give, end the work as out of order.
///
/// A file that is too large is answered at once. Else the directory for
/// previews is made and a stored preview is used if there is one. Else the
/// file is pulled and inspected: it must be there and hold at least
/// `MIN_PULLED_SIZE` bytes. An image is rendered, and the preview read
/// back. For a video, a frame is taken if `ffmpeg` is there, and the word
/// for a missing preview is the answer if that does not work. The pulled
/// file is removed at the end unless it never came, its size could not be
/// read, or the preview could not be written or read back.
pub open spec fn thumbnail_next(
    phase: ThumbnailPhase,
    too_large: bool,
    kind: MediaKind,
    event: ThumbnailEvent,
) -> (ThumbnailPhase, ThumbnailAction) {
    if !phase_fits(phase, too_large, kind) {
        fail(ThumbnailFailure::OutOfOrder, false)
    } else {
        thumbnail_table(phase, too_large, kind, event)
    }
}

/// The next phase and action from a phase that the file can be in.
pub open spec fn thumbnail_table(
    phase: ThumbnailPhase,
    too_large: bool,
    kind: MediaKind,
    event: ThumbnailEvent,
) -> (ThumbnailPhase, ThumbnailAction) {
    match (phase, event) {
        (ThumbnailPhase::Start, ThumbnailEvent::Begin) => if too_large {
            finish(ThumbnailOutcome::SizeTooLarge, false)
        } else {
            (ThumbnailPhase::CreatingDir, ThumbnailAction::CreateTempDir)
        },
        (ThumbnailPhase::CreatingDir, ThumbnailEvent::Succeeded) => (
            ThumbnailPhase::ProbingCache,
            ThumbnailAction::ProbeCache,
        ),
        (ThumbnailPhase::CreatingDir, ThumbnailEvent::Failed) => fail(
            ThumbnailFailure::TempDir,
            false,
        ),
        (ThumbnailPhase::ProbingCache, ThumbnailEvent::Probed(found)) => if found {
            (ThumbnailPhase::ReadingCached, ThumbnailAction::ReadCached)
        } else {
            (ThumbnailPhase::Pulling, ThumbnailAction::PullFile)
        },
        (ThumbnailPhase::ReadingCached, ThumbnailEvent::Succeeded) => finish(
            ThumbnailOutcome::DataUrl,
            false,
        ),
        (ThumbnailPhase::ReadingCached, ThumbnailEvent::Failed) => fail(
            ThumbnailFailure::ReadCached,
            false,
        ),
        (ThumbnailPhase::Pulling, ThumbnailEvent::Failed) => fail(
            ThumbnailFailure::PullNotRun,
            false,
        ),
        (ThumbnailPhase::Pulling, ThumbnailEvent::Pulled { success }) => if success {
            (ThumbnailPhase::Inspecting, ThumbnailAction::InspectPulled)
        } else {
            fail(ThumbnailFailure::PullFailed, false)
        },
        (ThumbnailPhase::Inspecting, ThumbnailEvent::Inspected { exists, len }) => if !exists {
            fail(ThumbnailFailure::NotPulled, false)
        } else {
            match len {
                None => fail(ThumbnailFailure::Metadata, false),
                Some(n) => if n == 0 {
                    fail(ThumbnailFailure::Empty, true)
                } else if n < MIN_PULLED_SIZE {
                    fail(ThumbnailFailure::TooSmall, true)
                } else {
                    match kind {
                        MediaKind::Image => (
                            ThumbnailPhase::Rendering,
                            ThumbnailAction::RenderImage,
                        ),
                        MediaKind::Video => (
                            ThumbnailPhase::ProbingFfmpeg,
                            ThumbnailAction::ProbeFfmpeg,
                        ),
                        MediaKind::Unsupported => fail(ThumbnailFailure::Unsupported, true),
                    }
                },
            }
        },
        (ThumbnailPhase::Rendering, ThumbnailEvent::Succeeded) => (
            ThumbnailPhase::ReadingRendered,
            ThumbnailAction::ReadRendered,
        ),
        (ThumbnailPhase::Rendering, ThumbnailEvent::RenderFailed(stage)) => fail(
            render_failure(stage),
            stage != RenderStage::Save,
        ),
        (ThumbnailPhase::ReadingRendered, ThumbnailEvent::Succeeded) => finish(
            ThumbnailOutcome::DataUrl,
            true,
        ),
        (ThumbnailPhase::ReadingRendered, ThumbnailEvent::Failed) => fail(
            ThumbnailFailure::ReadThumbnail,
            false,
        ),
        (ThumbnailPhase::ProbingFfmpeg, ThumbnailEvent::Probed(found)) => if found {
            (ThumbnailPhase::ExtractingFrame, ThumbnailAction::ExtractFrame)
        } else {
            finish(ThumbnailOutcome::VideoPlaceholder, true)
        },
        (
            ThumbnailPhase::ExtractingFrame,
            ThumbnailEvent::Extracted { ran, success, thumbnail_exists },
        ) => if ran && success && thumbnail_exists {
            (ThumbnailPhase::ReadingFrame, ThumbnailAction::ReadFrame)
        } else {
            finish(ThumbnailOutcome::VideoPlaceholder, true)
        },
        (ThumbnailPhase::ReadingFrame, ThumbnailEvent::Succeeded) => finish(
            ThumbnailOutcome::DataUrl,
            true,
        ),
        (ThumbnailPhase::ReadingFrame, ThumbnailEvent::Failed) => fail(
            ThumbnailFailure::ReadThumbnail,
            true,
        ),
        _ => fail(ThumbnailFailure::OutOfOrder, false),
    }
}

/// The action, where it ends the work, ends it as the file allows: the
/// word for a file that is too large is given for such a file only, the
/// word for a missing preview for a video only, and no preview is given
/// for a file that is too large.
pub open spec fn answers_fit(action: ThumbnailAction, too_large: bool, kind: MediaKind) -> bool {
    match action {
        ThumbnailAction::Finish { outcome, .. } => match outcome {
            ThumbnailOutcome::SizeTooLarge => too_large,
            ThumbnailOutcome::VideoPlaceholder => !too_large && kind == MediaKind::Video,
            ThumbnailOutcome::DataUrl => !too_large,
            ThumbnailOutcome::Failed(_) => true,
        },
        _ => true,
    }
}

/// Where the making of a preview stands after the events `events`, from
/// the start, and what was asked for last.
pub open spec fn thumbnail_run(
    too_large: bool,
    kind: MediaKind,
    events: Seq<ThumbnailEvent>,
) -> (ThumbnailPhase, Option<ThumbnailAction>)
    decreases events.len(),
{
    if events.len() == 0 {
        (ThumbnailPhase::Start, None)
    } else {
        let next = thumbnail_next(
            thumbnail_run(too_large, kind, events.drop_last()).0,
            too_large,
            kind,
            events.last(),
        );
        (next.0, Some(next.1))
    }
}

/// Whatever the steps report, the making of a preview stays in phases that
/// the file can be in and ends as the file allows. A file that is too
/// large is answered with the word for it at the first step, and no other
/// file is; the word for a missing preview is an answer for videos only.
pub proof fn lemma_thumbnail_run(too_large: bool, kind: MediaKind, events: Seq<ThumbnailEvent>)
    ensures
        phase_fits(thumbnail_run(too_large, kind, events).0, too_large, kind),
        match thumbnail_run(too_large, kind, events).1 {
            Some(action) => answers_fit(action, too_large, kind),
            None => events.len() == 0,
        },
        too_large && events.len() == 1 && events[0] == ThumbnailEvent::Begin ==> thumbnail_run(
            too_large,
            kind,
            events,
        ) == (
            ThumbnailPhase::Done,
            Some(
                ThumbnailAction::Finish {
                    outcome: ThumbnailOutcome::SizeTooLarge,
                    remove_pulled: false,
                },
            ),
        ),
    decreases events.len(),
{
    if events.len() > 0 {
        lemma_thumbnail_run(too_large, kind, events.drop_last());
    }
}

/// The number of steps that can still follow a phase.
pub open spec fn steps_left(phase: ThumbnailPhase) -> nat {
    match phase {
        ThumbnailPhase::Start => 8,
        ThumbnailPhase::CreatingDir => 7,
        ThumbnailPhase::ProbingCache => 6,
        ThumbnailPhase::Pulling => 5,
        ThumbnailPhase::Inspecting => 4,
        ThumbnailPhase::Rendering => 2,
        ThumbnailPhase::ProbingFfmpeg => 3,
        ThumbnailPhase::ExtractingFrame => 2,
        ThumbnailPhase::ReadingCached => 1,
        ThumbnailPhase::ReadingRendered => 1,
        ThumbnailPhase::ReadingFrame => 1,
        ThumbnailPhase::Done => 0,
    }
}

/// Decides what is done next in the making of a preview.
pub fn thumbnail_step(
    phase: ThumbnailPhase,
    too_large: bool,
    kind: MediaKind,
    event: ThumbnailEvent,
) -> (r: (ThumbnailPhase, ThumbnailAction))
    ensures
        r == thumbnail_next(phase, too_large, kind, event),
        (r.1 is Finish) <==> r.0 == ThumbnailPhase::Done,
        phase != ThumbnailPhase::Done ==> steps_left(r.0) < steps_left(phase),
        phase_fits(r.0, too_large, kind),
        answers_fit(r.1, too_large, kind),
{
    let out_of_order = (
        ThumbnailPhase::Done,
        ThumbnailAction::Finish {
            outcome: ThumbnailOutcome::Failed(ThumbnailFailure::OutOfOrder),
            remove_pulled: false,
        },
    );
    if !fits(phase, too_large, kind) {
        return out_of_order;
    }
    match phase {
        ThumbnailPhase::Start => match event {
            ThumbnailEvent::Begin => if too_large {
                done(ThumbnailOutcome::SizeTooLarge, false)
            } else {
                (ThumbnailPhase::CreatingDir, ThumbnailAction::CreateTempDir)
            },
            _ => out_of_order,
        },
        ThumbnailPhase::CreatingDir => match event {
            ThumbnailEvent::Succeeded => (ThumbnailPhase::ProbingCache, ThumbnailAction::ProbeCache),
            ThumbnailEvent::Failed => failed(ThumbnailFailure::TempDir, false),
            _ => out_of_order,
        },
        ThumbnailPhase::ProbingCache => match event {
            ThumbnailEvent::Probed(found) => if found {
                (ThumbnailPhase::ReadingCached, ThumbnailAction::ReadCached)
            } else {
                (ThumbnailPhase::Pulling, ThumbnailAction::PullFile)
            },
            _ => out_of_order,
        },
        ThumbnailPhase::ReadingCached => match event {
            ThumbnailEvent::Succeeded => done(ThumbnailOutcome::DataUrl, false),
            ThumbnailEvent::Failed => failed(ThumbnailFailure::ReadCached, false),
            _ => out_of_order,
        },
        ThumbnailPhase::Pulling => match event {
            ThumbnailEvent::Failed => failed(ThumbnailFailure::PullNotRun, false),
            ThumbnailEvent::Pulled { success } => if success {
                (ThumbnailPhase::Inspecting, ThumbnailAction::InspectPulled)
            } else {
                failed(ThumbnailFailure::PullFailed, false)
            },
            _ => out_of_order,
        },
        ThumbnailPhase::Inspecting => match event {
            ThumbnailEvent::Inspected { exists, len } => if !exists {
                failed(ThumbnailFailure::NotPulled, false)
            } else {
                match len {
                    None => failed(ThumbnailFailure::Metadata, false),
                    Some(n) => if n == 0 {
                        failed(ThumbnailFailure::Empty, true)
                    } else if n < MIN_PULLED_SIZE {
                        failed(ThumbnailFailure::TooSmall, true)
                    } else {
                        match kind {
                            MediaKind::Image => (
                                ThumbnailPhase::Rendering,
                                ThumbnailAction::RenderImage,
                            ),
                            MediaKind::Video => (
                                ThumbnailPhase::ProbingFfmpeg,
                                ThumbnailAction::ProbeFfmpeg,
                            ),
                            MediaKind::Unsupported => failed(ThumbnailFailure::Unsupported, true),
                        }
                    },
                }
            },
            _ => out_of_order,
        },
        ThumbnailPhase::Rendering => match event {
            ThumbnailEvent::Succeeded => (
                ThumbnailPhase::ReadingRendered,
                ThumbnailAction::ReadRendered,
            ),
            ThumbnailEvent::RenderFailed(stage) => match stage {
                RenderStage::Open => failed(ThumbnailFailure::Open, true),
                RenderStage::GuessFormat => failed(ThumbnailFailure::GuessFormat, true),
                RenderStage::Decode => failed(ThumbnailFailure::Decode, true),
                RenderStage::Save => failed(ThumbnailFailure::Save, false),
            },
            _ => out_of_order,
        },
        ThumbnailPhase::ReadingRendered => match event {
            ThumbnailEvent::Succeeded => done(ThumbnailOutcome::DataUrl, true),
            ThumbnailEvent::Failed => failed(ThumbnailFailure::ReadThumbnail, false),
            _ => out_of_order,
        },
        ThumbnailPhase::ProbingFfmpeg => match event {
            ThumbnailEvent::Probed(found) => if found {
                (ThumbnailPhase::ExtractingFrame, ThumbnailAction::ExtractFrame)
            } else {
                done(ThumbnailOutcome::VideoPlaceholder, true)
            },
            _ => out_of_order,
        },
        ThumbnailPhase::ExtractingFrame => match event {
            ThumbnailEvent::Extracted { ran, success, thumbnail_exists } => if ran && success
                && thumbnail_exists {
                (ThumbnailPhase::ReadingFrame, ThumbnailAction::ReadFrame)
            } else {
                done(ThumbnailOutcome::VideoPlaceholder, true)
            },
            _ => out_of_order,
        },
        ThumbnailPhase::ReadingFrame => match event {
            ThumbnailEvent::Succeeded => done(ThumbnailOutcome::DataUrl, true),
            ThumbnailEvent::Failed => failed(ThumbnailFailure::ReadThumbnail, true),
            _ => out_of_order,
        },
        ThumbnailPhase::Done => out_of_order,
    }
}

fn done(outcome: ThumbnailOutcome, remove_pulled: bool) -> (r: (ThumbnailPhase, ThumbnailAction))
    ensures
        r == finish(outcome, remove_pulled),
{
    (ThumbnailPhase::Done, ThumbnailAction::Finish { outcome, remove_pulled })
}

fn failed(failure: ThumbnailFailure, remove_pulled: bool) -> (r: (ThumbnailPhase, ThumbnailAction))
    ensures
        r == fail(failure, remove_pulled),
{
    done(ThumbnailOutcome::Failed(failure), remove_pulled)
}

/// What is reported for a failure. `detail` is what the failed step said,
/// `pulled_len` the size of the pulled file, and `file_size` the size that
/// the listing gave.
pub open spec fn failure_text(
    failure: ThumbnailFailure,
    detail: Seq<char>,
    pulled_len: u64,
    file_size: Seq<char>,
) -> Seq<char> {
    match failure {
        ThumbnailFailure::TempDir => "Failed to create temp directory: "@ + detail,
        ThumbnailFailure::ReadCached => "Failed to read cached thumbnail: "@ + detail,
        ThumbnailFailure::PullNotRun => "Failed to pull file from device: "@ + detail,
        ThumbnailFailure::PullFailed => "ADB pull failed: "@ + detail,
        ThumbnailFailure::NotPulled => "File was not pulled from device"@,
        ThumbnailFailure::Metadata => "Failed to read pulled file metadata: "@ + detail,
        ThumbnailFailure::Empty => "Pulled file is empty (0 bytes)"@,
        ThumbnailFailure::TooSmall => "Pulled file too small ("@ + decimal_digits(
            pulled_len as nat,
        ) + " bytes), possibly corrupted"@,
        ThumbnailFailure::Open => "Failed to open image (pulled "@ + decimal_digits(
            pulled_len as nat,
        ) + " bytes): "@ + detail,
        ThumbnailFailure::GuessFormat => "Failed to guess image format: "@ + detail,
        ThumbnailFailure::Decode => "Failed to decode image (pulled "@ + decimal_digits(
            pulled_len as nat,
        ) + " bytes, expected size "@ + file_size + "): "@ + detail
            + ". File may be corrupted or incomplete."@,
        ThumbnailFailure::Save => "Failed to save thumbnail: "@ + detail,
        ThumbnailFailure::ReadThumbnail => "Failed to read thumbnail: "@ + detail,
        ThumbnailFailure::Unsupported => "Unsupported file type"@,
        ThumbnailFailure::OutOfOrder => "Thumbnail steps out of order"@,
    }
}

/// The text that is reported for a failure.
pub fn failure_message(
    failure: ThumbnailFailure,
    detail: &str,
    pulled_len: u64,
    file_size: &str,
) -> (r: String)
    ensures
        r@ == failure_text(failure, detail@, pulled_len, file_size@),
{
    let mut out: Vec<char> = Vec::new();
    match failure {
        ThumbnailFailure::TempDir => {
            append_str(&mut out, "Failed to create temp directory: ");
            append_str(&mut out, detail);
        },
        ThumbnailFailure::ReadCached => {
            append_str(&mut out, "Failed to read cached thumbnail: ");
            append_str(&mut out, detail);
        },
        ThumbnailFailure::PullNotRun => {
            append_str(&mut out, "Failed to pull file from device: ");
            append_str(&mut out, detail);
        },
        ThumbnailFailure::PullFailed => {
            append_str(&mut out, "ADB pull failed: ");
            append_str(&mut out, detail);
        },
        ThumbnailFailure::NotPulled => {
            append_str(&mut out, "File was not pulled from device");
        },
        ThumbnailFailure::Metadata => {
            append_str(&mut out, "Failed to read pulled file metadata: ");
            append_str(&mut out, detail);
        },
        ThumbnailFailure::Empty => {
            append_str(&mut out, "Pulled file is empty (0 bytes)");
        },
        ThumbnailFailure::TooSmall => {
            append_str(&mut out, "Pulled file too small (");
            append_decimal(&mut out, pulled_len);
            append_str(&mut out, " bytes), possibly corrupted");
        },
        ThumbnailFailure::Open => {
            append_str(&mut out, "Failed to open image (pulled ");
            append_decimal(&mut out, pulled_len);
            append_str(&mut out, " bytes): ");
            append_str(&mut out, detail);
        },
        ThumbnailFailure::GuessFormat => {
            append_str(&mut out, "Failed to guess image format: ");
            append_str(&mut out, detail);
        },
        ThumbnailFailure::Decode => {
            append_str(&mut out, "Failed to decode image (pulled ");
            append_decimal(&mut out, pulled_len);
            append_str(&mut out, " bytes, expected size ");
            append_str(&mut out, file_size);
            append_str(&mut out, "): ");
            append_str(&mut out, detail);
            append_str(&mut out, ". File may be corrupted or incomplete.");
        },
        ThumbnailFailure::Save => {
            append_str(&mut out, "Failed to save thumbnail: ");
            append_str(&mut out, detail);
        },
        ThumbnailFailure::ReadThumbnail => {
            append_str(&mut out, "Failed to read thumbnail: ");
            append_str(&mut out, detail);
        },
        ThumbnailFailure::Unsupported => {
            append_str(&mut out, "Unsupported file type");
        },
        ThumbnailFailure::OutOfOrder => {
            append_str(&mut out, "Thumbnail steps out of order");
        },
    }
    from_chars(out.as_slice())
}

} // verus!
