//! What the web page shows: a status, and how far each download has come.

use std::collections::BTreeMap;

use vstd::prelude::*;
use vstd::std_specs::iter::IteratorSpec;

use crate::filepath;
use crate::filepath::path_file_name;
use crate::text::{copy_str, decimal, u64_text};

verus! {

/// How many milliseconds downloads sleep at a time while they are held.
pub const PAUSE_POLL_MILLIS: u64 = 200;

/// A download under way.
#[derive(Debug)]
pub struct DownloadStat {
    pub file_name: String,
    pub path: String,
    pub downloaded: u64,
    pub total: u64,
    pub speed_bps: u64,
}

/// A download under way.
pub struct StatView {
    pub file_name: Seq<char>,
    pub path: Seq<char>,
    pub downloaded: u64,
    pub total: u64,
    pub speed_bps: u64,
}

impl View for DownloadStat {
    type V = StatView;

    open spec fn view(&self) -> StatView {
        StatView {
            file_name: self.file_name@,
            path: self.path@,
            downloaded: self.downloaded,
            total: self.total,
            speed_bps: self.speed_bps,
        }
    }
}

/// What the web page shows.
#[derive(Debug)]
pub struct WebState {
    paused: bool,
    status: String,
    downloaded_files: u64,
    downloaded_bytes: u64,
    active: BTreeMap<i32, DownloadStat>,
}

/// What the web page shows.
#[verifier::ext_equal]
pub struct WebView {
    /// Whether downloads are held.
    pub paused: bool,
    pub status: Seq<char>,
    /// How many files were downloaded.
    pub downloaded_files: u64,
    /// How many bytes these files have.
    pub downloaded_bytes: u64,
    /// The downloads under way, by the number of their message.
    pub active: Map<i32, StatView>,
}

impl View for WebState {
    type V = WebView;

    closed spec fn view(&self) -> WebView {
        WebView {
            paused: self.paused,
            status: self.status@,
            downloaded_files: self.downloaded_files,
            downloaded_bytes: self.downloaded_bytes,
            active: self.active@.map_values(|d: DownloadStat| d@),
        }
    }
}

/// A download under way, as it is shown.
#[derive(Debug)]
pub struct DownloadSnapshot {
    pub msg_id: i32,
    pub stat: DownloadStat,
}

/// Everything that is shown, at one point in time.
#[derive(Debug)]
pub struct DashboardSnapshot {
    pub status: String,
    pub paused: bool,
    pub downloaded_files: u64,
    pub downloaded_bytes: u64,
    pub active_count: usize,
    pub active: Vec<DownloadSnapshot>,
}

/// How a file is called: by the last part of its path, or by the whole path where there is none.
pub open spec fn shown_name(path: Seq<char>) -> Seq<char> {
    match path_file_name(path) {
        Some(name) => name,
        None => path,
    }
}

/// What is shown once a download has started, in place of any of the same message.
pub open spec fn after_start(
    w: WebView,
    msg_id: i32,
    path: Seq<char>,
    downloaded: u64,
    total: u64,
) -> WebView {
    let stat = StatView { file_name: shown_name(path), path, downloaded, total, speed_bps: 0 };
    WebView { active: w.active.insert(msg_id, stat), ..w }
}

/// What is shown once a download has come further; nothing changes if it is not under way.
pub open spec fn after_progress(
    w: WebView,
    msg_id: i32,
    downloaded: u64,
    speed_bps: u64,
) -> WebView {
    if w.active.contains_key(msg_id) {
        let stat = StatView { downloaded, speed_bps, ..w.active[msg_id] };
        WebView { active: w.active.insert(msg_id, stat), ..w }
    } else {
        w
    }
}

/// What is shown once a download is over; its bytes are counted if it was completed.
pub open spec fn after_finish(w: WebView, msg_id: i32, bytes: u64, completed: bool) -> WebView {
    let w = WebView { active: w.active.remove(msg_id), ..w };
    if completed {
        WebView {
            downloaded_files: (w.downloaded_files + 1) as u64,
            downloaded_bytes: (w.downloaded_bytes + bytes) as u64,
            ..w
        }
    } else {
        w
    }
}

impl WebState {
    /// A program that starts, with nothing downloaded.
    pub fn new() -> (r: WebState)
        ensures
            r@ == (WebView {
                paused: false,
                status: "starting"@,
                downloaded_files: 0,
                downloaded_bytes: 0,
                active: Map::empty(),
            }),
    {
        let r = WebState {
            paused: false,
            status: copy_str("starting"),
            downloaded_files: 0,
            downloaded_bytes: 0,
            active: BTreeMap::new(),
        };
        assert(r@.active =~= Map::<i32, StatView>::empty());
        r
    }

    /// Shows a status.
    pub fn set_status(&mut self, status: &str)
        ensures
            final(self)@ == (WebView { status: status@, ..old(self)@ }),
    {
        self.status = copy_str(status);
    }

    /// Holds downloads, or lets them go on.
    pub fn set_paused(&mut self, paused: bool)
        ensures
            final(self)@ == (WebView {
                paused,
                status: if paused {
                    "paused"@
                } else {
                    "running"@
                },
                ..old(self)@
            }),
    {
        self.paused = paused;
        self.set_status(if paused { "paused" } else { "running" });
    }

    /// How many milliseconds a download sleeps before it asks again, while downloads are held;
    /// `None` where it goes on.
    pub fn wait_if_paused(&self) -> (r: Option<u64>)
        ensures
            r == if self@.paused {
                Some(PAUSE_POLL_MILLIS)
            } else {
                None
            },
    {
        if self.paused {
            Some(PAUSE_POLL_MILLIS)
        } else {
            None
        }
    }

    /// Shows a download that starts, in place of any of the same message.
    pub fn download_started(&mut self, msg_id: i32, path: &str, downloaded: u64, total: u64)
        ensures
            final(self)@ == after_start(old(self)@, msg_id, path@, downloaded, total),
    {
        let file_name = match filepath::file_name(path) {
            Some(name) => name,
            None => copy_str(path),
        };
        let stat = DownloadStat { file_name, path: copy_str(path), downloaded, total, speed_bps: 0 };
        let ghost shown = stat@;
        self.active.insert(msg_id, stat);
        assert(self@.active =~= old(self)@.active.insert(msg_id, shown));
    }

    /// Shows how far a download has come; nothing changes if it is not under way.
    pub fn download_progress(&mut self, msg_id: i32, downloaded: u64, speed_bps: u64)
        ensures
            final(self)@ == after_progress(old(self)@, msg_id, downloaded, speed_bps),
    {
        match self.active.remove(&msg_id) {
            Some(mut item) => {
                item.downloaded = downloaded;
                item.speed_bps = speed_bps;
                let ghost shown = item@;
                self.active.insert(msg_id, item);
                assert(self@.active =~= old(self)@.active.insert(msg_id, shown));
            },
            None => {
                assert(self@.active =~= old(self)@.active);
            },
        }
    }

    /// Shows a download no more, and counts its bytes if it was completed.
    pub fn download_finished(&mut self, msg_id: i32, bytes: u64, completed: bool)
        requires
            completed ==> old(self)@.downloaded_files < u64::MAX,
            completed ==> old(self)@.downloaded_bytes + bytes <= u64::MAX,
        ensures
            final(self)@ == after_finish(old(self)@, msg_id, bytes, completed),
    {
        let _ = self.active.remove(&msg_id);
        assert(self@.active =~= old(self)@.active.remove(msg_id));
        if completed {
            self.downloaded_files = self.downloaded_files + 1;
            self.downloaded_bytes = self.downloaded_bytes + bytes;
        }
    }
}

/// The messages of some downloads.
pub open spec fn message_ids(active: Seq<DownloadSnapshot>) -> Seq<i32> {
    active.map_values(|d: DownloadSnapshot| d.msg_id)
}

/// Whether a snapshot shows everything: each download once, in the order of their messages.
pub open spec fn shows(snap: DashboardSnapshot, w: WebView) -> bool {
    &&& snap.status@ == w.status
    &&& snap.paused == w.paused
    &&& snap.downloaded_files == w.downloaded_files
    &&& snap.downloaded_bytes == w.downloaded_bytes
    &&& snap.active_count == snap.active@.len()
    &&& message_ids(snap.active@).to_set() == w.active.dom()
    &&& forall|i: int, j: int|
        0 <= i < j < snap.active@.len() ==> (#[trigger] snap.active@[i]).msg_id < (
        #[trigger] snap.active@[j]).msg_id
    &&& forall|i: int|
        0 <= i < snap.active@.len() ==> (#[trigger] snap.active@[i]).stat@
            == w.active[snap.active@[i].msg_id]
}

impl DownloadStat {
    fn duplicate(&self) -> (r: DownloadStat)
        ensures
            r@ == self@,
    {
        DownloadStat {
            file_name: copy_str(self.file_name.as_str()),
            path: copy_str(self.path.as_str()),
            downloaded: self.downloaded,
            total: self.total,
            speed_bps: self.speed_bps,
        }
    }
}

impl WebState {
    /// Everything that is shown.
    pub fn snapshot(&self) -> (r: DashboardSnapshot)
        ensures
            shows(r, self@),
    {
        let mut active: Vec<DownloadSnapshot> = Vec::new();
        let entries = self.active.iter();
        let ghost all = entries.remaining();
        let ghost keys = all.map_values(|kv: (&i32, &DownloadStat)| *kv.0);
        for entry in it: entries
            invariant
                it.seq() == all,
                active@.len() == it.index(),
                forall|k: int|
                    0 <= k < active@.len() ==> (#[trigger] active@[k]).msg_id == *all[k].0
                        && active@[k].stat@ == (*all[k].1)@,
        {
            active.push(DownloadSnapshot { msg_id: *entry.0, stat: entry.1.duplicate() });
        }
        proof {
            assert(vstd::laws_cmp::obeys_cmp::<i32>());
            assert(message_ids(active@) =~= keys);
            assert(keys.to_set() =~= self@.active.dom()) by {
                assert forall|k: i32| keys.to_set().contains(k) <==> self@.active.contains_key(k) by {
                    if keys.to_set().contains(k) {
                        let i = choose|i: int| 0 <= i < keys.len() && keys[i] == k;
                        assert(self.active@.contains_key(*all[i].0));
                    }
                    if self.active@.contains_key(k) {
                        assert(all.contains((&k, &self.active@[k])));
                        let i = choose|i: int| 0 <= i < all.len() && all[i] == (&k, &self.active@[k]);
                        assert(keys[i] == k);
                    }
                }
            }
            assert forall|i: int, j: int| 0 <= i < j < active@.len() implies (
            #[trigger] active@[i]).msg_id < (#[trigger] active@[j]).msg_id by {
                assert(vstd::std_specs::cmp::OrdSpec::cmp_spec(&keys[i], &keys[j]) is Less);
                assert(keys[i] < keys[j]);
            }
            assert forall|i: int| 0 <= i < active@.len() implies (#[trigger] active@[i]).stat@
                == self@.active[active@[i].msg_id] by {
                assert(self.active@.contains_key(*all[i].0));
                assert(self.active@[*all[i].0] == *all[i].1);
            }
        }
        DashboardSnapshot {
            status: copy_str(self.status.as_str()),
            paused: self.paused,
            downloaded_files: self.downloaded_files,
            downloaded_bytes: self.downloaded_bytes,
            active_count: self.active.len(),
            active,
        }
    }
}

/// A download that starts, comes further and is over is shown no more, and the others are shown
/// as before; its bytes are counted if it was completed.
pub proof fn lemma_finished_download_is_gone(
    w: WebView,
    msg_id: i32,
    path: Seq<char>,
    existing: u64,
    total: u64,
    downloaded: u64,
    speed_bps: u64,
    bytes: u64,
    completed: bool,
)
    requires
        w.downloaded_files < u64::MAX,
        w.downloaded_bytes + bytes <= u64::MAX,
    ensures
        ({
            let started = after_start(w, msg_id, path, existing, total);
            let under_way = after_progress(started, msg_id, downloaded, speed_bps);
            let over = after_finish(under_way, msg_id, bytes, completed);
            &&& over.active == w.active.remove(msg_id)
            &&& over.downloaded_files == w.downloaded_files + if completed {
                1int
            } else {
                0
            }
            &&& over.downloaded_bytes == w.downloaded_bytes + if completed {
                bytes as int
            } else {
                0
            }
            &&& over.status == w.status && over.paused == w.paused
        }),
{
    let started = after_start(w, msg_id, path, existing, total);
    let under_way = after_progress(started, msg_id, downloaded, speed_bps);
    assert(under_way.active.remove(msg_id) =~= w.active.remove(msg_id));
}

/// The address that the web page is served on.
pub fn listen_address(host: &str, port: u16) -> (r: String)
    ensures
        r@ == host@ + ":"@ + decimal(port as nat),
{
    let mut r = copy_str(host);
    r.append(":");
    r.append(u64_text(port as u64).as_str());
    r
}

/// A download that starts is shown as it starts, under the name of its file, and the others as
/// before; nothing else changes.
pub proof fn lemma_started_downloads_are_shown(
    w: &mut WebState,
    msg_id: i32,
    path: &str,
    downloaded: u64,
    total: u64,
    other: i32,
)
    requires
        call_ensures(WebState::download_started, (w, msg_id, path, downloaded, total), ()),
        other != msg_id,
    ensures
        final(w)@.active.contains_key(msg_id),
        ({
            let stat = final(w)@.active[msg_id];
            &&& stat.path == path@
            &&& path_file_name(path@) matches Some(name) ==> stat.file_name == name
            &&& path_file_name(path@) is None ==> stat.file_name == path@
            &&& stat.downloaded == downloaded
            &&& stat.total == total
            &&& stat.speed_bps == 0
        }),
        final(w)@.active.contains_key(other) <==> old(w)@.active.contains_key(other),
        old(w)@.active.contains_key(other) ==> final(w)@.active[other] == old(w)@.active[other],
        final(w)@.status == old(w)@.status,
        final(w)@.paused == old(w)@.paused,
        final(w)@.downloaded_files == old(w)@.downloaded_files,
        final(w)@.downloaded_bytes == old(w)@.downloaded_bytes,
{
}

/// A download that comes further is shown further, and everything else as before; one that is not
/// under way is not shown.
pub proof fn lemma_progress_is_shown(
    w: &mut WebState,
    msg_id: i32,
    downloaded: u64,
    speed_bps: u64,
    other: i32,
)
    requires
        call_ensures(WebState::download_progress, (w, msg_id, downloaded, speed_bps), ()),
        other != msg_id,
    ensures
        final(w)@.active.contains_key(msg_id) <==> old(w)@.active.contains_key(msg_id),
        old(w)@.active.contains_key(msg_id) ==> {
            let before = old(w)@.active[msg_id];
            let after = final(w)@.active[msg_id];
            &&& after.downloaded == downloaded
            &&& after.speed_bps == speed_bps
            &&& after.total == before.total
            &&& after.path == before.path
            &&& after.file_name == before.file_name
        },
        final(w)@.active.contains_key(other) <==> old(w)@.active.contains_key(other),
        old(w)@.active.contains_key(other) ==> final(w)@.active[other] == old(w)@.active[other],
        final(w)@.status == old(w)@.status,
        final(w)@.paused == old(w)@.paused,
        final(w)@.downloaded_files == old(w)@.downloaded_files,
        final(w)@.downloaded_bytes == old(w)@.downloaded_bytes,
{
}

/// A download that is over is shown no more; it counts as one file with its bytes if it was
/// completed, and not at all otherwise.
pub proof fn lemma_completed_downloads_count(
    w: &mut WebState,
    msg_id: i32,
    bytes: u64,
    completed: bool,
    other: i32,
)
    requires
        call_ensures(WebState::download_finished, (w, msg_id, bytes, completed), ()),
        old(w)@.downloaded_files < u64::MAX,
        old(w)@.downloaded_bytes + bytes <= u64::MAX,
        other != msg_id,
    ensures
        !final(w)@.active.contains_key(msg_id),
        final(w)@.active.contains_key(other) <==> old(w)@.active.contains_key(other),
        old(w)@.active.contains_key(other) ==> final(w)@.active[other] == old(w)@.active[other],
        completed ==> final(w)@.downloaded_files == old(w)@.downloaded_files + 1
            && final(w)@.downloaded_bytes == old(w)@.downloaded_bytes + bytes,
        !completed ==> final(w)@.downloaded_files == old(w)@.downloaded_files
            && final(w)@.downloaded_bytes == old(w)@.downloaded_bytes,
        final(w)@.status == old(w)@.status,
        final(w)@.paused == old(w)@.paused,
{
}

/// Downloads that are held wait for a fifth of a second at a time until they are let go, and the
/// status says which it is; the downloads themselves are left as they are.
pub proof fn lemma_held_downloads_wait(w: &mut WebState, paused: bool)
    requires
        call_ensures(WebState::set_paused, (w, paused), ()),
    ensures
        final(w)@.paused == paused,
        paused ==> final(w)@.status == "paused"@,
        !paused ==> final(w)@.status == "running"@,
        final(w)@.active == old(w)@.active,
        final(w)@.downloaded_files == old(w)@.downloaded_files,
        final(w)@.downloaded_bytes == old(w)@.downloaded_bytes,
{
}

/// A download waits while downloads are held, and only then.
pub proof fn lemma_waiting(w: &WebState, r: Option<u64>)
    requires
        call_ensures(WebState::wait_if_paused, (w,), r),
    ensures
        r is Some <==> w@.paused,
        r matches Some(millis) ==> millis == 200,
{
}

/// A status is shown as it is given, and nothing else changes.
pub proof fn lemma_status_is_shown(w: &mut WebState, status: &str)
    requires
        call_ensures(WebState::set_status, (w, status), ()),
    ensures
        final(w)@.status == status@,
        final(w)@.paused == old(w)@.paused,
        final(w)@.active == old(w)@.active,
        final(w)@.downloaded_files == old(w)@.downloaded_files,
        final(w)@.downloaded_bytes == old(w)@.downloaded_bytes,
{
}

/// A snapshot shows each download under way, once, by the number of its message, and no others.
pub proof fn lemma_snapshots_show_everything(w: &WebState, r: DashboardSnapshot, msg_id: i32)
    requires
        call_ensures(WebState::snapshot, (w,), r),
    ensures
        r.status@ == w@.status,
        r.paused == w@.paused,
        r.downloaded_files == w@.downloaded_files,
        r.downloaded_bytes == w@.downloaded_bytes,
        r.active_count == r.active@.len(),
        w@.active.contains_key(msg_id) <==> exists|i: int|
            0 <= i < r.active@.len() && (#[trigger] r.active@[i]).msg_id == msg_id
                && r.active@[i].stat@ == w@.active[msg_id],
        forall|i: int, j: int|
            0 <= i < j < r.active@.len() ==> (#[trigger] r.active@[i]).msg_id < (
            #[trigger] r.active@[j]).msg_id,
{
    let ids = message_ids(r.active@);
    assert(ids.to_set().contains(msg_id) <==> w@.active.dom().contains(msg_id));
    if ids.contains(msg_id) {
        let i = choose|i: int| 0 <= i < ids.len() && ids[i] == msg_id;
        assert(r.active@[i].msg_id == msg_id);
    }
    if exists|i: int|
        0 <= i < r.active@.len() && (#[trigger] r.active@[i]).msg_id == msg_id
            && r.active@[i].stat@ == w@.active[msg_id] {
        let i = choose|i: int|
            0 <= i < r.active@.len() && (#[trigger] r.active@[i]).msg_id == msg_id
                && r.active@[i].stat@ == w@.active[msg_id];
        assert(ids[i] == msg_id);
    }
}

/// The address is the host and the port, with a colon between them.
pub proof fn lemma_addresses(host: &str, port: u16, r: String)
    requires
        call_ensures(listen_address, (host, port), r),
    ensures
        r@ == host@ + ":"@ + decimal(port as nat),
{
}

} // verus!
