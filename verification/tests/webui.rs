use tmd::webui::{listen_address, WebState};

#[test]
fn the_page_starts_empty() {
    let snap = WebState::new().snapshot();
    assert_eq!(snap.status, "starting");
    assert!(!snap.paused);
    assert_eq!((snap.downloaded_files, snap.downloaded_bytes, snap.active_count), (0, 0, 0));
    assert!(snap.active.is_empty());
}

#[test]
fn downloads_come_and_go() {
    let mut web = WebState::new();
    web.download_started(7, "downloads/a/b.mp4", 10, 100);
    web.download_started(-2, "..", 0, 0);
    web.download_progress(7, 60, 25);
    web.download_progress(99, 1, 1);
    let snap = web.snapshot();
    assert_eq!(snap.active_count, 2);
    assert_eq!(snap.active[0].msg_id, -2);
    assert_eq!(snap.active[0].stat.file_name, "..");
    assert_eq!(snap.active[1].msg_id, 7);
    let stat = &snap.active[1].stat;
    assert_eq!((stat.file_name.as_str(), stat.path.as_str()), ("b.mp4", "downloads/a/b.mp4"));
    assert_eq!((stat.downloaded, stat.total, stat.speed_bps), (60, 100, 25));
    web.download_finished(7, 100, true);
    web.download_finished(-2, 5, false);
    let snap = web.snapshot();
    assert_eq!((snap.downloaded_files, snap.downloaded_bytes, snap.active_count), (1, 100, 0));
}

#[test]
fn downloads_can_be_held() {
    let mut web = WebState::new();
    assert_eq!(web.wait_if_paused(), None);
    web.set_paused(true);
    assert_eq!(web.wait_if_paused(), Some(200));
    assert_eq!(web.snapshot().status, "paused");
    assert!(web.snapshot().paused);
    web.set_paused(false);
    assert_eq!(web.wait_if_paused(), None);
    assert_eq!(web.snapshot().status, "running");
    web.set_status("waiting");
    assert_eq!(web.snapshot().status, "waiting");
}

#[test]
fn the_page_is_served_on_an_address() {
    assert_eq!(listen_address("0.0.0.0", 5000), "0.0.0.0:5000");
}
