use rustc_hash::FxHashSet;
use tmd::config::{
    default_date_format, default_file_name_prefix, default_file_name_prefix_split,
    default_file_path_prefix, AppData, ChatConfig, ChatData, Config, FileFormats,
};
use tmd::downloader::finalize::FileIds;
use tmd::session::auth::{password_prompt, LoginRequest, LoginStep};
use tmd::session::cycle::{
    after_cycle, running_status, stopping_status, Cycle, CycleAction, CycleEvent, CyclePhase,
    CycleStep,
};
use tmd::session::shutdown::flood_wait_secs;
use tmd::session::state::{persist_state, sync_retry_set, update_chat_state, ChatTable};
use tmd::session::summary::{log_config_summary, log_shutdown_summary};

fn chat(id: &str, last_read: i32, filter: Option<&str>) -> ChatConfig {
    ChatConfig {
        chat_id: id.to_string(),
        last_read_message_id: last_read,
        download_filter: filter.map(str::to_string),
    }
}

fn config(chats: Vec<ChatConfig>) -> Config {
    Config {
        api_id: 1,
        api_hash: "0123abcd".to_string(),
        chat: chats,
        media_types: vec!["audio".to_string(), "photo".to_string()],
        file_formats: FileFormats::default(),
        save_path: "./downloads".to_string(),
        file_path_prefix: default_file_path_prefix(),
        file_name_prefix: default_file_name_prefix(),
        file_name_prefix_split: default_file_name_prefix_split(),
        max_download_task: 5,
        download_connections: 4,
        web_host: "127.0.0.1".to_string(),
        web_port: 5001,
        check_interval_secs: 900,
        date_format: default_date_format(),
    }
}

fn entry(id: &str, ids: &[i32]) -> ChatData {
    ChatData { chat_id: id.to_string(), ids_to_retry: ids.to_vec() }
}

#[test]
fn waits_prefer_the_value_form() {
    assert_eq!(flood_wait_secs("FLOOD_WAIT_90 (value: 3)"), Some(3));
    assert_eq!(flood_wait_secs("FLOOD_WAIT_90 (value: 0)"), Some(90));
    assert_eq!(flood_wait_secs("FLOOD_WAIT_0"), Some(60));
    assert_eq!(flood_wait_secs("FLOOD_WAIT_ 12x"), Some(12));
    assert_eq!(flood_wait_secs("value: 5"), None);
    assert_eq!(flood_wait_secs("FLOOD_WAIT_99999999999999999999"), Some(60));
}

#[test]
fn a_login_code_is_waited_for_three_times() {
    let mut login = LoginRequest::new();
    for n in 1..=3u32 {
        assert!(matches!(login.refused("FLOOD_WAIT_8"), LoginStep::Wait(8)));
        assert_eq!(login.waits, n);
    }
    match login.refused("FLOOD_WAIT_8") {
        LoginStep::GiveUp(text) => assert_eq!(
            text,
            "auth.sendCode still rate-limited after 3 waits: FLOOD_WAIT_8"
        ),
        other => panic!("{other:?}"),
    }
    assert!(matches!(LoginRequest::new().refused("PHONE_INVALID"), LoginStep::Fail));
}

#[test]
fn the_password_is_asked_for_with_its_hint() {
    assert_eq!(password_prompt(&Some("cat".to_string())), "2FA password (hint: cat): ");
    assert_eq!(password_prompt(&None), "2FA password (hint: ): ");
}

#[test]
fn scans_follow_one_another() {
    match after_cycle(true, false, 900) {
        CycleStep::Sleep { secs, status } => {
            assert_eq!(secs, 900);
            assert_eq!(status, "waiting 900s before next check");
        }
        CycleStep::Stop => panic!("stopped"),
    }
    assert!(matches!(after_cycle(false, false, 900), CycleStep::Stop));
    assert!(matches!(after_cycle(true, true, 900), CycleStep::Stop));
    assert_eq!(running_status(), "running");
    assert_eq!(stopping_status(), "shutting down");
}

#[test]
fn the_state_is_saved_after_every_scan() {
    let mut cycle = Cycle::new(60);
    assert!(matches!(cycle.step(CycleEvent::Scanned { completed: true }), CycleAction::Save));
    match cycle.step(CycleEvent::Saved { cancelled: false }) {
        CycleAction::Sleep { secs, status } => {
            assert_eq!(secs, 60);
            assert_eq!(status, "waiting 60s before next check");
        }
        other => panic!("{other:?}"),
    }
    match cycle.step(CycleEvent::SleepOver { cut: false }) {
        CycleAction::Scan { status } => assert_eq!(status, "running"),
        other => panic!("{other:?}"),
    }
    assert!(matches!(cycle.step(CycleEvent::Scanned { completed: false }), CycleAction::Save));
    match cycle.step(CycleEvent::Saved { cancelled: false }) {
        CycleAction::Stop { status } => assert_eq!(status, "shutting down"),
        other => panic!("{other:?}"),
    }
    assert_eq!(cycle.phase, CyclePhase::Stopped);
}

#[test]
fn a_shutdown_ends_the_scans() {
    let mut cycle = Cycle::new(60);
    cycle.step(CycleEvent::Scanned { completed: true });
    let action = cycle.step(CycleEvent::Saved { cancelled: true });
    assert!(matches!(action, CycleAction::Stop { .. }));
    let mut cycle = Cycle::new(60);
    cycle.step(CycleEvent::Scanned { completed: true });
    cycle.step(CycleEvent::Saved { cancelled: false });
    let action = cycle.step(CycleEvent::SleepOver { cut: true });
    assert!(matches!(action, CycleAction::Stop { .. }));
}

#[test]
fn later_entries_replace_earlier_ones() {
    let table = ChatTable::from_list(&vec![entry("a", &[1]), entry("b", &[2, 3]), entry("a", &[4])]);
    assert_eq!(table.retry_ids("a"), Some(vec![4]));
    assert_eq!(table.retry_ids("b"), Some(vec![2, 3]));
    assert_eq!(table.retry_ids("c"), None);
    assert_eq!(table.retry_count("b"), 2);
    assert_eq!(table.retry_count("c"), 0);
    assert_eq!(table.pending(), 3);
    assert_eq!(ChatTable::new().pending(), 0);
}

#[test]
fn retries_are_kept_in_order() {
    let mut table = ChatTable::from_list(&vec![entry("a", &[1]), entry("b", &[2])]);
    let mut failed: FxHashSet<i32> = FxHashSet::default();
    for id in [9, -3, 5, 9] {
        failed.insert(id);
    }
    sync_retry_set(&mut table, "a", &failed);
    assert_eq!(table.retry_ids("a"), Some(vec![-3, 5, 9]));
    sync_retry_set(&mut table, "c", &failed);
    assert_eq!(table.retry_count("c"), 3);
    sync_retry_set(&mut table, "a", &FxHashSet::default());
    assert_eq!(table.retry_ids("a"), None);
    assert_eq!(table.retry_ids("b"), Some(vec![2]));
}

#[test]
fn saved_state_is_sorted_and_read_back() {
    let files = FileIds::from_list(&vec!["20".to_string(), "3".to_string(), "100".to_string()]);
    let table = ChatTable::from_list(&vec![entry("z", &[7]), entry("-100", &[1, 2]), entry("b", &[])]);
    let data: AppData = persist_state(&files, &table);
    assert_eq!(data.downloaded_file_ids, ["100", "20", "3"]);
    let ids: Vec<&str> = data.chat.iter().map(|c| c.chat_id.as_str()).collect();
    assert_eq!(ids, ["-100", "b", "z"]);
    assert_eq!(data.chat[0].ids_to_retry, [1, 2]);
    let again = ChatTable::from_list(&data.chat);
    assert_eq!(again.retry_ids("z"), Some(vec![7]));
    assert_eq!(again.pending(), 3);
    assert_eq!(FileIds::from_list(&data.downloaded_file_ids).len(), 3);
}

#[test]
fn reading_never_goes_back() {
    let mut cfg = config(vec![chat("a", 10, None), chat("b", 10, Some("x")), chat("b", 1, None)]);
    update_chat_state(&mut cfg, &chat("b", 0, None), 25);
    assert_eq!(cfg.chat[1].last_read_message_id, 25);
    assert_eq!(cfg.chat[2].last_read_message_id, 1);
    update_chat_state(&mut cfg, &chat("b", 0, None), 20);
    assert_eq!(cfg.chat[1].last_read_message_id, 25);
    update_chat_state(&mut cfg, &chat("none", 0, None), 99);
    assert_eq!(cfg.chat[0].last_read_message_id, 10);
    assert_eq!(cfg.chat[1].download_filter.as_deref(), Some("x"));
}

#[test]
fn the_configuration_is_summed_up() {
    let cfg = config(vec![chat("a", 10, None), chat("b", -2, Some("file_size > 1"))]);
    let table = ChatTable::from_list(&vec![entry("b", &[1, 2])]);
    assert_eq!(
        log_config_summary(&cfg, &table, 5),
        [
            "config: 2 chat(s), 5 parallel download slot(s), scan every 900s, \
             save_path=./downloads",
            "config: media_types=[audio,photo] web_ui=127.0.0.1:5001",
            "config: chat 'a' from msg 10 (0 id(s) queued for retry)",
            "config: chat 'b' from msg -2 (2 id(s) queued for retry) filter='file_size > 1'",
            "config: resuming with 2 message id(s) pending retry across all chats",
        ]
    );
    assert_eq!(log_config_summary(&cfg, &ChatTable::new(), 5).len(), 4);
}

#[test]
fn the_run_is_summed_up() {
    let cfg = config(vec![chat("a", 10, None)]);
    let table = ChatTable::from_list(&vec![entry("a", &[1, 2])]);
    let files = FileIds::from_list(&vec!["1".to_string()]);
    assert_eq!(
        log_shutdown_summary(&cfg, &table, &files, "12.5"),
        [
            "shutdown: ran for 12.5s; 1 file id(s) cached, 2 message id(s) pending retry",
            "shutdown: chat 'a' last_read=10 (2 id(s) to retry) - partial downloads kept as .part \
             for resume",
            "shutdown: state flushed to data.yaml and config.yaml",
        ]
    );
}
