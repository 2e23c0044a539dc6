use droiddock::media::MediaKind;
use droiddock::storage::{CommandReport, StorageProbe};
use droiddock::digest::{content_digest, digest_key};
use droiddock::thumbnail::{
    cached_thumbnail_name, fits_base64, thumbnail_answer, failure_message, is_too_large_to_preview, png_data_url,
    pulled_file_name, thumbnail_cache_key, thumbnail_data_url, thumbnail_kind, thumbnail_step,
    try_thumbnail_data_url, RenderStage, ThumbnailAction, ThumbnailEvent, ThumbnailFailure,
    ThumbnailOutcome, ThumbnailPhase,
};

#[test]
fn size_limit_for_previews() {
    assert!(!is_too_large_to_preview("50000000"));
    assert!(is_too_large_to_preview("50000001"));
    assert!(is_too_large_to_preview("+50000001"));
    assert!(is_too_large_to_preview("18446744073709551615"));
    // What is no number sets no limit.
    assert!(!is_too_large_to_preview("18446744073709551616"));
    assert!(!is_too_large_to_preview(""));
    assert!(!is_too_large_to_preview("+"));
    assert!(!is_too_large_to_preview("-1"));
    assert!(!is_too_large_to_preview(" 60000000"));
    assert!(!is_too_large_to_preview("6e7"));
    assert!(is_too_large_to_preview("00000000000000000000000060000000"));
}

#[test]
fn size_limit_agrees_with_the_standard_parser() {
    for s in ["0", "+0", "++1", "12a", "99999999999999999999", "50000001", "０", "1 "] {
        let expected = match s.parse::<u64>() {
            Ok(n) => n > 50_000_000,
            Err(_) => false,
        };
        assert_eq!(is_too_large_to_preview(s), expected, "{}", s);
    }
}

#[test]
fn cache_key_is_the_md5_of_device_and_path() {
    let key = thumbnail_cache_key("emulator-5554", "/sdcard/DCIM/a b.jpg");
    assert_eq!(key, format!("{:x}", md5::compute("emulator-5554:/sdcard/DCIM/a b.jpg")));
    assert_eq!(key.len(), 32);
    assert_eq!(thumbnail_cache_key("", ""), "853ae90f0351324bd73ea615e6487517");
    assert_ne!(thumbnail_cache_key("a", "b"), thumbnail_cache_key("a:", "b"));
}

#[test]
fn digest_key_writes_all_32_hex_digits() {
    assert_eq!(digest_key(0), "00000000000000000000000000000000");
    assert_eq!(digest_key(0x000fa0ff9c), "0000000000000000000000000fa0ff9c");
    assert_eq!(digest_key(u128::MAX), "ffffffffffffffffffffffffffffffff");
    assert_eq!(
        digest_key(0x0123456789abcdeffedcba9876543210),
        "0123456789abcdeffedcba9876543210"
    );
}

#[test]
fn content_digest_is_md5() {
    assert_eq!(content_digest(b""), 0xd41d8cd98f00b204e9800998ecf8427e);
    assert_eq!(
        digest_key(content_digest(b"abcdefghijklmnopqrstuvwxyz")),
        "c3fcd3d76192e4007dfb496cca67e13b"
    );
    assert_eq!(content_digest(b"abc"), u128::from_be_bytes(md5::compute(b"abc").0));
}

#[test]
fn preview_file_names() {
    assert_eq!(cached_thumbnail_name("abc"), "thumb_abc.png");
    assert_eq!(pulled_file_name("abc", "/sdcard/DCIM/pic.jpg"), "abc_pic.jpg");
    assert_eq!(pulled_file_name("abc", "pic.jpg"), "abc_pic.jpg");
    assert_eq!(pulled_file_name("abc", "/sdcard/dir/"), "abc_");
}

#[test]
fn data_urls() {
    assert_eq!(png_data_url("QUJD"), "data:image/png;base64,QUJD");
    assert_eq!(thumbnail_data_url(b"hello"), "data:image/png;base64,aGVsbG8=");
    assert_eq!(thumbnail_data_url(b""), "data:image/png;base64,");
    assert_eq!(
        try_thumbnail_data_url(&[0xfb, 0xff, 0xfe]),
        Some("data:image/png;base64,+//+".to_string())
    );
}

#[test]
fn thumbnail_kind_ignores_case() {
    assert_eq!(thumbnail_kind("JPG"), MediaKind::Image);
    assert_eq!(thumbnail_kind("Mp4"), MediaKind::Video);
    assert_eq!(thumbnail_kind("pdf"), MediaKind::Unsupported);
}

fn finish(outcome: ThumbnailOutcome, remove_pulled: bool) -> (ThumbnailPhase, ThumbnailAction) {
    (ThumbnailPhase::Done, ThumbnailAction::Finish { outcome, remove_pulled })
}

#[test]
fn thumbnail_steps_for_an_image() {
    let k = MediaKind::Image;
    let mut at = thumbnail_step(ThumbnailPhase::Start, false, k, ThumbnailEvent::Begin);
    assert_eq!(at, (ThumbnailPhase::CreatingDir, ThumbnailAction::CreateTempDir));
    at = thumbnail_step(at.0, false, k, ThumbnailEvent::Succeeded);
    assert_eq!(at, (ThumbnailPhase::ProbingCache, ThumbnailAction::ProbeCache));
    at = thumbnail_step(at.0, false, k, ThumbnailEvent::Probed(false));
    assert_eq!(at, (ThumbnailPhase::Pulling, ThumbnailAction::PullFile));
    at = thumbnail_step(at.0, false, k, ThumbnailEvent::Pulled { success: true });
    assert_eq!(at, (ThumbnailPhase::Inspecting, ThumbnailAction::InspectPulled));
    at = thumbnail_step(at.0, false, k, ThumbnailEvent::Inspected { exists: true, len: Some(100) });
    assert_eq!(at, (ThumbnailPhase::Rendering, ThumbnailAction::RenderImage));
    at = thumbnail_step(at.0, false, k, ThumbnailEvent::Succeeded);
    assert_eq!(at, (ThumbnailPhase::ReadingRendered, ThumbnailAction::ReadRendered));
    at = thumbnail_step(at.0, false, k, ThumbnailEvent::Succeeded);
    assert_eq!(at, finish(ThumbnailOutcome::DataUrl, true));
}

#[test]
fn thumbnail_steps_that_end_early() {
    let k = MediaKind::Image;
    assert_eq!(
        thumbnail_step(ThumbnailPhase::Start, true, k, ThumbnailEvent::Begin),
        finish(ThumbnailOutcome::SizeTooLarge, false)
    );
    assert_eq!(
        thumbnail_step(ThumbnailPhase::CreatingDir, false, k, ThumbnailEvent::Failed),
        finish(ThumbnailOutcome::Failed(ThumbnailFailure::TempDir), false)
    );
    assert_eq!(
        thumbnail_step(ThumbnailPhase::ProbingCache, false, k, ThumbnailEvent::Probed(true)),
        (ThumbnailPhase::ReadingCached, ThumbnailAction::ReadCached)
    );
    assert_eq!(
        thumbnail_step(ThumbnailPhase::ReadingCached, false, k, ThumbnailEvent::Succeeded),
        finish(ThumbnailOutcome::DataUrl, false)
    );
    assert_eq!(
        thumbnail_step(ThumbnailPhase::Pulling, false, k, ThumbnailEvent::Pulled { success: false }),
        finish(ThumbnailOutcome::Failed(ThumbnailFailure::PullFailed), false)
    );
    assert_eq!(
        thumbnail_step(ThumbnailPhase::Pulling, false, k, ThumbnailEvent::Failed),
        finish(ThumbnailOutcome::Failed(ThumbnailFailure::PullNotRun), false)
    );
    let inspect = |exists, len| {
        thumbnail_step(ThumbnailPhase::Inspecting, false, k, ThumbnailEvent::Inspected { exists, len })
    };
    assert_eq!(inspect(false, None), finish(ThumbnailOutcome::Failed(ThumbnailFailure::NotPulled), false));
    assert_eq!(inspect(true, None), finish(ThumbnailOutcome::Failed(ThumbnailFailure::Metadata), false));
    assert_eq!(inspect(true, Some(0)), finish(ThumbnailOutcome::Failed(ThumbnailFailure::Empty), true));
    assert_eq!(inspect(true, Some(99)), finish(ThumbnailOutcome::Failed(ThumbnailFailure::TooSmall), true));
    assert_eq!(
        thumbnail_step(
            ThumbnailPhase::Inspecting,
            false,
            MediaKind::Unsupported,
            ThumbnailEvent::Inspected { exists: true, len: Some(5000) }
        ),
        finish(ThumbnailOutcome::Failed(ThumbnailFailure::Unsupported), true)
    );
    assert_eq!(
        thumbnail_step(ThumbnailPhase::Rendering, false, k, ThumbnailEvent::RenderFailed(RenderStage::Decode)),
        finish(ThumbnailOutcome::Failed(ThumbnailFailure::Decode), true)
    );
    assert_eq!(
        thumbnail_step(ThumbnailPhase::Rendering, false, k, ThumbnailEvent::RenderFailed(RenderStage::Save)),
        finish(ThumbnailOutcome::Failed(ThumbnailFailure::Save), false)
    );
    assert_eq!(
        thumbnail_step(ThumbnailPhase::Done, false, k, ThumbnailEvent::Begin),
        finish(ThumbnailOutcome::Failed(ThumbnailFailure::OutOfOrder), false)
    );
}

#[test]
fn thumbnail_steps_for_a_video() {
    let k = MediaKind::Video;
    let at = thumbnail_step(
        ThumbnailPhase::Inspecting,
        false,
        k,
        ThumbnailEvent::Inspected { exists: true, len: Some(4096) },
    );
    assert_eq!(at, (ThumbnailPhase::ProbingFfmpeg, ThumbnailAction::ProbeFfmpeg));
    assert_eq!(
        thumbnail_step(at.0, false, k, ThumbnailEvent::Probed(false)),
        finish(ThumbnailOutcome::VideoPlaceholder, true)
    );
    let at = thumbnail_step(at.0, false, k, ThumbnailEvent::Probed(true));
    assert_eq!(at, (ThumbnailPhase::ExtractingFrame, ThumbnailAction::ExtractFrame));
    let extracted = |ran, success, thumbnail_exists| {
        thumbnail_step(
            ThumbnailPhase::ExtractingFrame,
            false,
            k,
            ThumbnailEvent::Extracted { ran, success, thumbnail_exists },
        )
    };
    assert_eq!(extracted(true, true, false), finish(ThumbnailOutcome::VideoPlaceholder, true));
    assert_eq!(extracted(true, false, true), finish(ThumbnailOutcome::VideoPlaceholder, true));
    assert_eq!(extracted(false, true, true), finish(ThumbnailOutcome::VideoPlaceholder, true));
    assert_eq!(extracted(true, true, true), (ThumbnailPhase::ReadingFrame, ThumbnailAction::ReadFrame));
    assert_eq!(
        thumbnail_step(ThumbnailPhase::ReadingFrame, false, k, ThumbnailEvent::Succeeded),
        finish(ThumbnailOutcome::DataUrl, true)
    );
    assert_eq!(
        thumbnail_step(ThumbnailPhase::ReadingFrame, false, k, ThumbnailEvent::Failed),
        finish(ThumbnailOutcome::Failed(ThumbnailFailure::ReadThumbnail), true)
    );
}

#[test]
fn failure_messages() {
    let m = |f| failure_message(f, "boom", 42, "1234");
    assert_eq!(m(ThumbnailFailure::TempDir), "Failed to create temp directory: boom");
    assert_eq!(m(ThumbnailFailure::ReadCached), "Failed to read cached thumbnail: boom");
    assert_eq!(m(ThumbnailFailure::PullNotRun), "Failed to pull file from device: boom");
    assert_eq!(m(ThumbnailFailure::PullFailed), "ADB pull failed: boom");
    assert_eq!(m(ThumbnailFailure::NotPulled), "File was not pulled from device");
    assert_eq!(m(ThumbnailFailure::Metadata), "Failed to read pulled file metadata: boom");
    assert_eq!(m(ThumbnailFailure::Empty), "Pulled file is empty (0 bytes)");
    assert_eq!(m(ThumbnailFailure::TooSmall), "Pulled file too small (42 bytes), possibly corrupted");
    assert_eq!(m(ThumbnailFailure::Open), "Failed to open image (pulled 42 bytes): boom");
    assert_eq!(m(ThumbnailFailure::GuessFormat), "Failed to guess image format: boom");
    assert_eq!(
        m(ThumbnailFailure::Decode),
        "Failed to decode image (pulled 42 bytes, expected size 1234): boom. File may be corrupted or incomplete."
    );
    assert_eq!(m(ThumbnailFailure::Save), "Failed to save thumbnail: boom");
    assert_eq!(m(ThumbnailFailure::ReadThumbnail), "Failed to read thumbnail: boom");
    assert_eq!(m(ThumbnailFailure::Unsupported), "Unsupported file type");
    assert_eq!(
        failure_message(ThumbnailFailure::TooSmall, "", 0, ""),
        "Pulled file too small (0 bytes), possibly corrupted"
    );
    assert_eq!(
        failure_message(ThumbnailFailure::TooSmall, "", u64::MAX, ""),
        "Pulled file too small (18446744073709551615 bytes), possibly corrupted"
    );
}

fn ran(stdout: &str) -> CommandReport {
    CommandReport::Ran { success: true, stdout: stdout.to_string() }
}

fn done(probe: &StorageProbe) -> Option<Result<String, String>> {
    probe.result().cloned()
}

#[test]
fn storage_from_the_environment() {
    let p = StorageProbe::start();
    assert_eq!(p.command(), Some("echo $EXTERNAL_STORAGE".to_string()));
    let p = p.advance(ran("  /sdcard \n"));
    assert_eq!(p.command(), Some("test -d '/sdcard' && echo exists".to_string()));
    let p = p.advance(ran("exists\n"));
    assert_eq!(p.command(), Some("readlink -f '/sdcard'".to_string()));
    let p = p.advance(ran("/storage/emulated/0\n"));
    assert_eq!(p.command(), None);
    assert_eq!(done(&p), Some(Ok("/storage/emulated/0".to_string())));
}

#[test]
fn storage_keeps_the_path_where_resolving_gives_nothing() {
    let p = StorageProbe::start().advance(ran("/sdcard\n")).advance(ran("exists"));
    let q = p.advance(ran("   \n"));
    assert_eq!(done(&q), Some(Ok("/sdcard".to_string())));
    let p = StorageProbe::start().advance(ran("/sdcard\n")).advance(ran("exists"));
    let q = p.advance(CommandReport::NotRun { error: "gone".to_string() });
    assert_eq!(done(&q), Some(Ok("/sdcard".to_string())));
}

#[test]
fn storage_falls_back_to_the_usual_directories() {
    // The variable is not set: the shell prints its name.
    let p = StorageProbe::start().advance(ran("$EXTERNAL_STORAGE\n"));
    assert_eq!(p.command(), Some("test -d '/sdcard' && echo exists".to_string()));
    let p = p.advance(ran(""));
    assert_eq!(p.command(), Some("test -d '/mnt/sdcard' && echo exists".to_string()));
    let p = p.advance(CommandReport::NotRun { error: "x".to_string() });
    assert_eq!(p.command(), Some("test -d '/storage/self/primary' && echo exists".to_string()));
    let q = p.advance(ran("exists"));
    assert_eq!(q.command(), Some("readlink -f '/storage/self/primary'".to_string()));
    let q = q.advance(ran(""));
    assert_eq!(done(&q), Some(Ok("/storage/self/primary".to_string())));
}

#[test]
fn storage_default_and_error() {
    let p = StorageProbe::start()
        .advance(CommandReport::Ran { success: false, stdout: "/sdcard".to_string() })
        .advance(ran("no"))
        .advance(ran("no"))
        .advance(ran("no"));
    assert_eq!(done(&p), Some(Ok("/storage/emulated/0".to_string())));
    let p = StorageProbe::start().advance(CommandReport::NotRun { error: "no adb".to_string() });
    assert_eq!(done(&p), Some(Err("Failed to execute adb command: no adb".to_string())));
    // The end stays the end.
    let p = p.advance(ran("/sdcard"));
    assert_eq!(done(&p), Some(Err("Failed to execute adb command: no adb".to_string())));
    assert_eq!(done(&StorageProbe::start()), None);
}

#[test]
fn steps_that_the_file_cannot_be_in_are_out_of_order() {
    let out_of_order = finish(ThumbnailOutcome::Failed(ThumbnailFailure::OutOfOrder), false);
    // No frame is taken of an image, and no image is rendered of a video.
    assert_eq!(
        thumbnail_step(ThumbnailPhase::ProbingFfmpeg, false, MediaKind::Image, ThumbnailEvent::Probed(false)),
        out_of_order
    );
    assert_eq!(
        thumbnail_step(
            ThumbnailPhase::ExtractingFrame,
            false,
            MediaKind::Unsupported,
            ThumbnailEvent::Extracted { ran: false, success: false, thumbnail_exists: false }
        ),
        out_of_order
    );
    assert_eq!(
        thumbnail_step(ThumbnailPhase::Rendering, false, MediaKind::Video, ThumbnailEvent::Succeeded),
        out_of_order
    );
    // A file that is too large gets no further than the start.
    assert_eq!(
        thumbnail_step(ThumbnailPhase::ReadingCached, true, MediaKind::Image, ThumbnailEvent::Succeeded),
        out_of_order
    );
    assert_eq!(
        thumbnail_step(ThumbnailPhase::ProbingFfmpeg, true, MediaKind::Video, ThumbnailEvent::Probed(false)),
        out_of_order
    );
}

#[test]
fn answers_of_a_preview() {
    let answer = |outcome| thumbnail_answer(outcome, b"hello", "boom", 42, "1234");
    assert_eq!(answer(ThumbnailOutcome::SizeTooLarge), Ok("size-too-large".to_string()));
    assert_eq!(answer(ThumbnailOutcome::VideoPlaceholder), Ok("video-placeholder".to_string()));
    assert_eq!(answer(ThumbnailOutcome::DataUrl), Ok("data:image/png;base64,aGVsbG8=".to_string()));
    assert_eq!(
        answer(ThumbnailOutcome::Failed(ThumbnailFailure::TooSmall)),
        Err("Pulled file too small (42 bytes), possibly corrupted".to_string())
    );
    assert_eq!(
        answer(ThumbnailOutcome::Failed(ThumbnailFailure::PullFailed)),
        Err("ADB pull failed: boom".to_string())
    );
    assert!(fits_base64(0));
    assert!(fits_base64(50_000_000));
    assert!(!fits_base64(usize::MAX));
}

