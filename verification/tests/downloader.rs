use tmd::calendar::DateTime;
use tmd::config::{
    default_date_format, default_file_name_prefix, default_file_name_prefix_split,
    default_file_path_prefix, default_media_types, Config, FileFormats,
};
use tmd::downloader::assembly::{conclude, Assembly, AssemblyError, DiskOp, WorkerEnd};
use tmd::downloader::chunks::{plan_chunks, Stripe};
use tmd::downloader::fetch::{ChunkFetch, FetchError, FetchReply, FetchStep};
use tmd::downloader::finalize::{preallocate, Allocation, FileIds};
use tmd::downloader::media::{
    file_unique_id, open_download, Action, Download, Event, Opening, Phase,
};
use tmd::downloader::metadata::{
    document_kind, file_extension_value, media_duration_value, media_file_name_value,
    media_file_size_value, media_kind_and_ext, media_matches_config, media_resolution_value,
    media_type_value, mime_to_ext, total_size, Document, Media, Message, Photo,
};
use tmd::downloader::paths::{
    build_media_paths, try_build_media_paths, try_build_text_paths, UnsupportedMedia,
};
use tmd::downloader::progress::{
    progress_path, read_progress, resume_offset, write_progress, DOWNLOAD_CHUNK_SIZE,
};

const CHUNK: u64 = DOWNLOAD_CHUNK_SIZE;

// ── progress ─────────────────────────────────────────────────────────────

#[test]
fn sidecar_stands_beside_the_partial_file() {
    assert_eq!(progress_path("a/b.mp4.part"), "a/b.mp4.part.progress");
}

#[test]
fn recorded_progress_is_read_back() {
    for n in [0, 1, 9, 10, 524288, u64::MAX] {
        assert_eq!(write_progress(n), n.to_string().into_bytes());
        assert_eq!(read_progress(&Some(write_progress(n))), n);
    }
}

#[test]
fn unreadable_progress_is_none() {
    assert_eq!(read_progress(&None), 0);
    for bytes in [&b""[..], b"x", b"-1", b"1 2", b"18446744073709551616", b"12\xff", b"+"] {
        assert_eq!(read_progress(&Some(bytes.to_vec())), 0, "{bytes:?}");
    }
    assert_eq!(read_progress(&Some(b" \t+12\r\n".to_vec())), 12);
    assert_eq!(read_progress(&Some("\u{2003}7".as_bytes().to_vec())), 7);
}

#[test]
fn downloads_resume_at_a_chunk_boundary() {
    let total = 10 * CHUNK;
    let sidecar = Some(write_progress(3 * CHUNK + 17));
    let r = resume_offset(Some(total), &sidecar, total);
    assert_eq!((r.offset, r.stale), (3 * CHUNK, false));
}

#[test]
fn complete_downloads_resume_at_their_end() {
    let sidecar = Some(write_progress(700));
    let offset = resume_offset(Some(700), &sidecar, 700).offset;
    assert_eq!(offset, 700);
    assert_eq!(Download::new(700, offset).phase, Phase::Complete);
    assert_eq!(resume_offset(Some(700), &sidecar, 600).offset, 600);
    assert_eq!(resume_offset(Some(700), &sidecar, 0).offset, 0);
}

#[test]
fn stale_sidecars_skip_nothing() {
    let sidecar = Some(write_progress(5 * CHUNK));
    let r = resume_offset(None, &sidecar, 10 * CHUNK);
    assert_eq!((r.offset, r.stale), (0, true));
    assert_eq!(resume_offset(Some(100), &sidecar, 10 * CHUNK).offset, 100);
    assert_eq!(resume_offset(Some(10 * CHUNK), &None, 10 * CHUNK).offset, 0);
}

// ── chunks ───────────────────────────────────────────────────────────────

#[test]
fn plans_use_no_more_workers_than_chunks() {
    let plan = plan_chunks(0, 10 * CHUNK + 1, 4);
    assert_eq!((plan.first, plan.count, plan.workers), (0, 11, 4));
    let plan = plan_chunks(9 * CHUNK, 10 * CHUNK + 1, 4);
    assert_eq!((plan.first, plan.count, plan.workers), (9, 11, 2));
    assert_eq!(plan_chunks(0, 1, 0).workers, 1);
    assert_eq!(plan_chunks(0, 0, 4).workers, 1);
    assert_eq!(plan_chunks(0, 10 * CHUNK, 4).count, 10);
}

#[test]
fn stripes_cover_each_chunk_once() {
    let total = 10 * CHUNK + 5;
    let plan = plan_chunks(2 * CHUNK, total, 3);
    let mut seen = vec![0; 11];
    for worker in 0..plan.workers {
        let mut stripe = Stripe::new(plan, worker);
        let mut last = None;
        while let Some(chunk) = stripe.take() {
            assert_eq!(chunk.offset, chunk.index * CHUNK);
            assert_eq!(chunk.len, if chunk.index == 10 { 5 } else { CHUNK });
            if let Some(before) = last {
                assert_eq!(chunk.index, before + 3);
            }
            last = Some(chunk.index);
            seen[chunk.index as usize] += 1;
        }
        assert!(stripe.take().is_none());
    }
    assert_eq!(seen, [0, 0, 1, 1, 1, 1, 1, 1, 1, 1, 1]);
}

// ── fetching a chunk ─────────────────────────────────────────────────────

#[test]
fn a_whole_piece_is_accepted() {
    let mut fetch = ChunkFetch::new(4, 100);
    assert_eq!(fetch.step(false), FetchStep::Ask);
    assert_eq!(fetch.request_index().unwrap(), 4);
    assert!(fetch.reply(FetchReply::Piece(100)));
}

#[test]
fn a_chunk_is_asked_for_three_times() {
    let mut fetch = ChunkFetch::new(4, 100);
    assert_eq!(fetch.step(false), FetchStep::Ask);
    assert!(!fetch.reply(FetchReply::Piece(99)));
    assert_eq!(fetch.step(false), FetchStep::Wait(5));
    assert!(!fetch.reply(FetchReply::End));
    assert_eq!(fetch.step(false), FetchStep::Wait(5));
    assert!(!fetch.reply(FetchReply::Error("rpc error 420: FLOOD_WAIT_7".to_string())));
    assert_eq!(fetch.step(false), FetchStep::Stop);
    assert_eq!(
        fetch.failure(false).message(),
        "chunk 4: rpc error 420: FLOOD_WAIT_7"
    );
}

#[test]
fn the_server_says_how_long_to_wait() {
    let mut fetch = ChunkFetch::new(0, 1);
    assert!(!fetch.reply(FetchReply::Error("FLOOD_WAIT (value: 31)".to_string())));
    assert_eq!(fetch.step(false), FetchStep::Wait(31));
    assert_eq!(fetch.step(false), FetchStep::Ask);
    assert!(!fetch.reply(FetchReply::Error("timeout".to_string())));
    assert_eq!(fetch.step(false), FetchStep::Wait(5));
}

#[test]
fn a_shutdown_stops_a_fetch() {
    let mut fetch = ChunkFetch::new(0, 1);
    assert_eq!(fetch.step(true), FetchStep::Stop);
    assert_eq!(fetch.failure(true).message(), "download interrupted");
    assert_eq!(ChunkFetch::new(8, 1).failure(false).message(), "chunk 8 failed after retries");
}

#[test]
fn fetch_errors_say_what_happened() {
    assert_eq!(
        FetchError::Short { idx: 3, got: 10, expected: 20 }.message(),
        "chunk 3 short: 10 vs 20 bytes"
    );
    assert_eq!(FetchError::EndedEarly { idx: 3 }.message(), "chunk 3 stream ended early");
    let error = ChunkFetch::new(1 << 31, 1).request_index().unwrap_err();
    assert_eq!(error.message(), i32::try_from(1u64 << 31).unwrap_err().to_string());
    assert_eq!(ChunkFetch::new((1 << 31) - 1, 1).request_index().unwrap(), i32::MAX);
}

// ── putting a file together ──────────────────────────────────────────────

fn content(total: u64) -> Vec<u8> {
    (0..total).map(|i| (i / 1000 % 251) as u8).collect()
}

#[test]
fn pieces_in_any_order_make_the_file() {
    let total = 3 * CHUNK + 100;
    let file = content(total);
    let mut assembly = Assembly::new(0, total);
    let mut written = Vec::new();
    for i in [2u64, 0, 3, 2, 1] {
        let from = i * CHUNK;
        let to = (from + CHUNK).min(total);
        let piece = file[from as usize..to as usize].to_vec();
        for op in assembly.receive(from, piece, i % 2 == 0) {
            match op {
                DiskOp::Write(bytes) => written.extend_from_slice(&bytes),
                DiskOp::Record(at) => assert_eq!(at, written.len() as u64),
            }
        }
        assert_eq!(assembly.next(), written.len() as u64);
    }
    assert_eq!(written, file);
    assert!(matches!(assembly.finish()[..], [DiskOp::Record(at)] if at == total));
    assert_eq!(assembly.next(), total);
    assert_eq!(assembly.fetched(), total);
}

#[test]
fn a_gap_is_not_written_over() {
    let mut assembly = Assembly::new(CHUNK, 3 * CHUNK);
    assert!(assembly.receive(2 * CHUNK, vec![1; CHUNK as usize], false).is_empty());
    assert_eq!(assembly.next(), CHUNK);
    assert!(matches!(assembly.finish()[..], [DiskOp::Record(CHUNK)]));
    assert_eq!(assembly.fetched(), 2 * CHUNK);
    let ops = assembly.receive(CHUNK, vec![2; CHUNK as usize], false);
    assert_eq!(ops.len(), 2);
    assert_eq!(assembly.next(), 3 * CHUNK);
}

#[test]
fn positions_are_recorded_every_16_mib() {
    let total = 40 * CHUNK;
    let mut assembly = Assembly::new(0, total);
    let mut records = Vec::new();
    for i in 0..40 {
        for op in assembly.receive(i * CHUNK, vec![0; CHUNK as usize], false) {
            if let DiskOp::Record(at) = op {
                records.push(at);
            }
        }
    }
    assert_eq!(records, [32 * CHUNK]);
}

#[test]
fn reports_are_told_when_due() {
    let mut assembly = Assembly::new(0, 10);
    assert!(!assembly.unreported());
    assembly.receive(0, vec![0; 4], false);
    assert!(assembly.unreported());
    assembly.receive(4, vec![0; 4], true);
    assert!(!assembly.unreported());
    assert_eq!(assembly.fetched(), 8);
}

#[test]
fn a_download_ends_as_its_workers_did() {
    assert!(conclude(vec![WorkerEnd::Done, WorkerEnd::Done], false, 7, 7).is_ok());
    let text = |r: Result<(), AssemblyError>| r.unwrap_err().message();
    assert_eq!(
        text(conclude(vec![WorkerEnd::Done], false, 5, 7)),
        "incomplete download: wrote 5 of 7 bytes"
    );
    let ends = vec![
        WorkerEnd::Done,
        WorkerEnd::Failed("first".to_string()),
        WorkerEnd::Lost("second".to_string()),
    ];
    assert_eq!(text(conclude(ends, false, 5, 7)), "first");
    assert_eq!(
        text(conclude(vec![WorkerEnd::Lost("gone".to_string())], false, 7, 7)),
        "download worker join failed: gone"
    );
    let ends = vec![WorkerEnd::Failed("first".to_string()), WorkerEnd::Cancelled];
    assert_eq!(text(conclude(ends, false, 7, 7)), "download interrupted");
    assert_eq!(text(conclude(vec![], true, 7, 7)), "download interrupted");
}

// ── messages and media ───────────────────────────────────────────────────

fn document(name: Option<&str>, mime: Option<&str>) -> Media {
    Media::Document(Document {
        id: 77,
        name: name.map(str::to_string),
        mime_type: mime.map(str::to_string),
        size: Some(1234),
        duration: Some(65),
        resolution: Some((640, 480)),
    })
}

fn photo() -> Media {
    Media::Photo(Photo { id: -5, size: None })
}

fn message(media: Option<Media>) -> Message {
    Message {
        id: 42,
        chat_name: Some("My: chat".to_string()),
        chat_label: "PeerId(9)".to_string(),
        date: DateTime { secs: 1_700_000_000, nanos: 0 },
        text: "a / caption".to_string(),
        media,
    }
}

fn config() -> Config {
    Config {
        api_id: 1,
        api_hash: "0123abcd".to_string(),
        chat: Vec::new(),
        media_types: default_media_types(),
        file_formats: FileFormats {
            audio: vec!["all".to_string()],
            document: vec!["pdf".to_string()],
            video: vec!["all".to_string()],
        },
        save_path: "downloads".to_string(),
        file_path_prefix: default_file_path_prefix(),
        file_name_prefix: default_file_name_prefix(),
        file_name_prefix_split: default_file_name_prefix_split(),
        max_download_task: 5,
        download_connections: 4,
        web_host: "0.0.0.0".to_string(),
        web_port: 5000,
        check_interval_secs: 900,
        date_format: default_date_format(),
    }
}

#[test]
fn filter_values_describe_the_media() {
    let msg = message(Some(document(Some("clip.final.mp4"), Some("video/mp4"))));
    assert_eq!(media_type_value(&msg), "document");
    assert_eq!(file_extension_value(&msg), "mp4");
    assert_eq!(media_file_name_value(&msg), "clip.final.mp4");
    assert_eq!(media_file_size_value(&msg), 1234);
    assert_eq!(media_duration_value(&msg), 65);
    assert_eq!(media_resolution_value(&msg), (640, 480));
    let msg = message(Some(photo()));
    assert_eq!(media_type_value(&msg), "photo");
    assert_eq!(file_extension_value(&msg), "jpg");
    assert_eq!(media_file_name_value(&msg), "");
    assert_eq!(media_file_size_value(&msg), 0);
    assert_eq!(media_duration_value(&msg), 0);
    assert_eq!(media_resolution_value(&msg), (0, 0));
    let msg = message(None);
    assert_eq!(media_type_value(&msg), "");
    assert_eq!(file_extension_value(&msg), "");
    assert_eq!(media_file_size_value(&msg), 0);
    assert_eq!(media_type_value(&message(Some(Media::Other))), "");
}

#[test]
fn types_of_data_have_extensions() {
    for (mime, ext) in [
        ("image/jpeg", "jpg"),
        ("image/png", "png"),
        ("image/gif", "gif"),
        ("image/webp", "webp"),
        ("audio/mpeg", "mp3"),
        ("audio/ogg", "ogg"),
        ("audio/mp4", "m4a"),
        ("audio/x-wav", "wav"),
        ("audio/wav", "wav"),
        ("video/mp4", "mp4"),
        ("video/webm", "webm"),
        ("video/x-matroska", "mkv"),
        ("application/pdf", "pdf"),
        ("application/zip", "zip"),
        ("application/x-rar-compressed", "rar"),
        ("application/epub+zip", "epub"),
        ("text/plain", "unknown"),
        ("", "unknown"),
    ] {
        assert_eq!(mime_to_ext(mime), ext);
    }
}

#[test]
fn types_of_data_have_kinds() {
    assert_eq!(document_kind("image/gif"), "animation");
    assert_eq!(document_kind("audio/ogg"), "audio");
    assert_eq!(document_kind("video/x-y"), "video");
    assert_eq!(document_kind("audio"), "document");
    assert_eq!(document_kind("image/png"), "document");
    assert_eq!(document_kind(""), "document");
}

#[test]
fn the_name_of_a_document_gives_its_extension() {
    let of = |media: Media| media_kind_and_ext(&media).map(|(k, e)| (k.to_string(), e));
    let pair = |k: &str, e: &str| Some((k.to_string(), e.to_string()));
    assert_eq!(of(document(Some("a.b.TXT"), Some("audio/ogg"))), pair("audio", "TXT"));
    assert_eq!(of(document(Some("plain"), Some("audio/ogg"))), pair("audio", "ogg"));
    assert_eq!(of(document(None, None)), pair("document", "unknown"));
    assert_eq!(of(document(Some("dot."), None)), pair("document", ""));
    assert_eq!(of(photo()), pair("photo", "jpg"));
    assert_eq!(of(Media::Other), None);
}

#[test]
fn the_configuration_picks_media() {
    let cfg = config();
    assert!(media_matches_config(&photo(), &cfg));
    assert!(media_matches_config(&document(Some("a.mp3"), Some("audio/mpeg")), &cfg));
    assert!(media_matches_config(&document(Some("a.pdf"), None), &cfg));
    assert!(!media_matches_config(&document(Some("a.exe"), None), &cfg));
    assert!(!media_matches_config(&document(None, Some("image/gif")), &cfg));
    assert!(!media_matches_config(&Media::Other, &cfg));
    let mut cfg = config();
    cfg.media_types = vec!["animation".to_string()];
    assert!(media_matches_config(&document(None, Some("image/gif")), &cfg));
    assert!(!media_matches_config(&photo(), &cfg));
}

// ── paths ────────────────────────────────────────────────────────────────

#[test]
fn documents_are_saved_under_their_names() {
    let msg = message(None);
    let (temp, last) =
        build_media_paths(&msg, &document(Some("clip.mp4"), Some("video/mp4")), &config()).unwrap();
    assert_eq!(last, "downloads/My_ chat/2023_11/42 - clip.mp4");
    assert_eq!(temp, "downloads/My_ chat/2023_11/42 - clip.mp4.part");
}

#[test]
fn photos_are_saved_under_their_numbers() {
    let mut cfg = config();
    cfg.file_path_prefix = vec!["media_type".to_string(), "nothing".to_string()];
    let (temp, last) = build_media_paths(&message(None), &photo(), &cfg).unwrap();
    assert_eq!(last, "downloads/photo/42.jpg");
    assert_eq!(temp, "downloads/photo/42.jpg.part");
}

#[test]
fn names_are_made_of_the_configured_parts() {
    let mut cfg = config();
    cfg.file_path_prefix = Vec::new();
    cfg.file_name_prefix = vec!["caption".to_string(), "file_name".to_string()];
    cfg.file_name_prefix_split = "+".to_string();
    let mut msg = message(None);
    let path = |msg: &Message, media: Media, cfg: &Config| {
        build_media_paths(msg, &media, cfg).unwrap().1
    };
    assert_eq!(path(&msg, document(Some("x.pdf"), None), &cfg), "downloads/a _ caption+x.pdf");
    assert_eq!(path(&msg, document(None, None), &cfg), "downloads/a _ caption+file_77.unknown");
    assert_eq!(path(&msg, document(Some(".pdf"), None), &cfg), "downloads/a _ caption+file_77.pdf");
    msg.text = String::new();
    assert_eq!(path(&msg, document(Some("x"), None), &cfg), "downloads/x.unknown");
    cfg.file_name_prefix = vec!["caption".to_string()];
    assert_eq!(path(&msg, document(Some("x"), None), &cfg), "downloads/42.unknown");
}

#[test]
fn a_chat_without_a_name_has_a_label() {
    let mut cfg = config();
    cfg.file_path_prefix = vec!["chat_title".to_string()];
    let mut msg = message(None);
    msg.chat_name = None;
    let (_, last) = build_media_paths(&msg, &photo(), &cfg).unwrap();
    assert_eq!(last, "downloads/PeerId(9)/42.jpg");
}

#[test]
fn long_names_are_cut_to_230_bytes() {
    let name = format!("{}.pdf", "n".repeat(400));
    let (temp, last) =
        build_media_paths(&message(None), &document(Some(&name), None), &config()).unwrap();
    let leaf = last.rsplit('/').next().unwrap();
    assert_eq!(leaf.len(), 230);
    assert!(leaf.starts_with("42 - nnn") && leaf.ends_with("n.pdf"));
    assert_eq!(temp, format!("{last}.part"));
}

#[test]
fn an_extension_beyond_the_limit_is_cut() {
    let mut cfg = config();
    cfg.file_path_prefix = Vec::new();
    cfg.file_name_prefix = vec!["file_name".to_string()];
    let ext = "x".repeat(300);
    let name = format!("ab.{ext}");
    let (temp, last) =
        build_media_paths(&message(None), &document(Some(&name), None), &cfg).unwrap();
    assert_eq!(last, format!("downloads/ab.{}", "x".repeat(227)));
    assert_eq!(temp, format!("downloads/ab.{ext}.part"));
}

#[test]
fn other_media_has_no_path() {
    assert_eq!(
        build_media_paths(&message(None), &Media::Other, &config()),
        Err(UnsupportedMedia)
    );
    assert_eq!(UnsupportedMedia.message(), "unsupported media");
}

#[test]
fn paths_that_cannot_be_made_are_told() {
    let msg = message(None);
    let mut cfg = config();
    assert!(try_build_media_paths(&msg, &document(Some("a.b/c"), None), &cfg).is_none());
    assert!(try_build_media_paths(&msg, &document(Some("a.bc"), None), &cfg).is_some());
    assert!(try_build_text_paths(&msg, &cfg).is_some());
    cfg.date_format = "%!".to_string();
    assert!(try_build_media_paths(&msg, &photo(), &cfg).is_none());
    assert!(try_build_text_paths(&msg, &cfg).is_none());
}

#[test]
fn texts_are_saved_by_number() {
    let mut cfg = config();
    cfg.file_path_prefix.push("media_type".to_string());
    let (dir, file) = try_build_text_paths(&message(None), &cfg).unwrap();
    assert_eq!(dir, "downloads/My_ chat/2023_11");
    assert_eq!(file, "downloads/My_ chat/2023_11/42.txt");
}

// ── known files ──────────────────────────────────────────────────────────

#[test]
fn known_files_are_remembered() {
    let mut ids = FileIds::from_list(&vec!["1".to_string(), "2".to_string(), "1".to_string()]);
    assert_eq!(ids.len(), 2);
    assert!(ids.contains("1") && ids.contains("2") && !ids.contains("3"));
    ids.remember("3");
    ids.remember("");
    ids.note("");
    assert_eq!(ids.len(), 3);
    let mut list = ids.list();
    list.sort();
    assert_eq!(list, ["1", "2", "3"]);
}

#[test]
fn a_full_set_gives_up_a_member() {
    let all: Vec<String> = (0..4096).map(|i| i.to_string()).collect();
    let mut ids = FileIds::from_list(&all);
    assert_eq!(ids.len(), 4096);
    ids.remember("new");
    assert_eq!(ids.len(), 4096);
    assert!(ids.contains("new"));
    assert_eq!(all.iter().filter(|id| ids.contains(id)).count(), 4095);
    ids.note("there");
    assert_eq!(ids.len(), 4097);
    ids.remember_for("newer", Some("there".to_string()));
    assert_eq!(ids.len(), 4097);
    assert!(ids.contains("newer") && !ids.contains("there"));
    assert!(FileIds::new().list().is_empty());
}

#[test]
fn room_is_made_on_the_disk() {
    assert_eq!(preallocate(0), Allocation::Nothing);
    assert_eq!(preallocate(1), Allocation::Bytes(1));
    assert_eq!(preallocate(i64::MAX as u64), Allocation::Bytes(i64::MAX));
    assert_eq!(preallocate(i64::MAX as u64 + 1), Allocation::TooLarge);
}

// ── whole downloads ──────────────────────────────────────────────────────

#[test]
fn downloads_open_as_the_message_says() {
    let known = FileIds::from_list(&vec!["77".to_string()]);
    assert!(matches!(open_download(&message(None), &known), Opening::NoMedia));
    let msg = message(Some(document(None, None)));
    assert!(matches!(open_download(&msg, &known), Opening::Known));
    match open_download(&msg, &FileIds::new()) {
        Opening::Wanted { file_id, total } => {
            assert_eq!(file_id, "77");
            assert_eq!(total, 1234);
        }
        other => panic!("{other:?}"),
    }
    let other = open_download(&message(Some(Media::Other)), &known);
    assert!(matches!(other, Opening::Wanted { file_id, total: 0 } if file_id.is_empty()));
    assert_eq!(file_unique_id(&photo()), "-5");
    assert_eq!(total_size(&photo()), 0);
}

fn start(cancelled: bool) -> Event {
    Event::Start { cancelled }
}

fn failed(text: &str, cancelled: bool) -> Event {
    Event::NotFetched { error: text.to_string(), cancelled }
}

#[test]
fn a_download_is_moved_to_its_place() {
    let mut d = Download::new(1000, 0);
    assert_eq!(d.step(start(false)), Action::FetchPart { from: 0, to: 1000 });
    assert_eq!(d.step(Event::Fetched), Action::Weigh);
    assert_eq!(d.step(Event::Size(1000)), Action::Finalize(1000));
}

#[test]
fn a_failed_part_is_resumed() {
    let mut d = Download::new(1000, 200);
    assert_eq!(d.step(start(false)), Action::FetchPart { from: 200, to: 1000 });
    assert_eq!(d.step(failed("one", false)), Action::Retry { discard: false });
    assert_eq!(d.step(start(false)), Action::Pause(5));
    assert_eq!(d.step(Event::PauseOver { cut: false }), Action::Measure);
    assert_eq!(d.step(Event::ResumeAt(600)), Action::FetchPart { from: 600, to: 1000 });
    assert_eq!(d.step(failed("two", false)), Action::Retry { discard: false });
    assert_eq!(d.step(start(false)), Action::Pause(5));
    assert_eq!(d.step(Event::PauseOver { cut: false }), Action::Measure);
    assert_eq!(d.step(Event::ResumeAt(1000)), Action::Weigh);
    assert_eq!(d.step(Event::Size(999)), Action::Retry { discard: true });
    assert_eq!(d.failure(false), "size mismatch");
    assert_eq!(d.step(start(false)), Action::Stop);
    assert!(!d.keeps_partial(false));
}

#[test]
fn a_file_of_unknown_size_is_fetched_in_one_go() {
    let mut d = Download::new(0, 0);
    assert_eq!(d.step(start(false)), Action::FetchWhole);
    assert_eq!(d.step(failed("one", false)), Action::Retry { discard: true });
    assert_eq!(d.step(start(false)), Action::Pause(5));
    assert_eq!(d.step(Event::PauseOver { cut: false }), Action::Measure);
    assert_eq!(d.step(Event::ResumeAt(0)), Action::FetchWhole);
    assert_eq!(d.step(Event::Fetched), Action::Weigh);
    assert_eq!(d.step(Event::Size(31)), Action::Finalize(31));
}

#[test]
fn a_shutdown_stops_a_download() {
    let mut d = Download::new(0, 0);
    assert_eq!(d.step(start(true)), Action::Stop);
    assert_eq!(d.failure(true), "download interrupted");
    assert_eq!(d.failure(false), "download failed");
    assert!(d.keeps_partial(true));
    let mut d = Download::new(0, 0);
    d.step(start(false));
    assert_eq!(d.step(failed("interrupted", true)), Action::Stop);
    assert_eq!(d.failure(false), "interrupted");
    let mut d = Download::new(0, 0);
    d.step(start(false));
    assert_eq!(d.step(Event::Held), Action::Stop);
    let mut d = Download::new(9, 0);
    d.step(start(false));
    d.step(failed("x", false));
    d.step(start(false));
    assert_eq!(d.step(Event::PauseOver { cut: true }), Action::Stop);
}

#[test]
fn a_complete_file_is_not_fetched_again() {
    assert_eq!(Download::new(10, 10).phase, Phase::Complete);
    assert_eq!(Download::new(0, 0).phase, Phase::Ready);
    assert_eq!(Download::new(10, 9).phase, Phase::Ready);
}
