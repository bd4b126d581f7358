//! Configuration and the state that is kept between runs.

use vstd::prelude::*;

use crate::text::{copy_str, texts};

verus! {

/// Configuration of the downloader.
#[derive(Debug)]
pub struct Config {
    pub api_id: i32,
    pub api_hash: String,
    pub chat: Vec<ChatConfig>,
    pub media_types: Vec<String>,
    pub file_formats: FileFormats,
    pub save_path: String,
    pub file_path_prefix: Vec<String>,
    pub file_name_prefix: Vec<String>,
    pub file_name_prefix_split: String,
    pub max_download_task: usize,
    pub download_connections: usize,
    pub web_host: String,
    pub web_port: u16,
    pub check_interval_secs: u64,
    pub date_format: String,
}

/// One chat to download from, and how far it has been read.
#[derive(Debug)]
pub struct ChatConfig {
    pub chat_id: String,
    pub last_read_message_id: i32,
    pub download_filter: Option<String>,
}

/// The file extensions that are wanted of each kind of media.
#[derive(Debug)]
pub struct FileFormats {
    pub audio: Vec<String>,
    pub document: Vec<String>,
    pub video: Vec<String>,
}

/// State kept between runs: the messages to try again, and the files already downloaded.
#[derive(Debug)]
pub struct AppData {
    pub chat: Vec<ChatData>,
    pub downloaded_file_ids: Vec<String>,
}

/// The messages of one chat that are to be tried again.
#[derive(Debug)]
pub struct ChatData {
    pub chat_id: String,
    pub ids_to_retry: Vec<i32>,
}

impl Default for FileFormats {
    /// No format of any kind.
    fn default() -> (r: FileFormats)
        ensures
            r.audio@ == Seq::<String>::empty(),
            r.document@ == Seq::<String>::empty(),
            r.video@ == Seq::<String>::empty(),
    {
        FileFormats { audio: Vec::new(), document: Vec::new(), video: Vec::new() }
    }
}

impl Default for AppData {
    /// Nothing to try again and nothing downloaded.
    fn default() -> (r: AppData)
        ensures
            r.chat@ == Seq::<ChatData>::empty(),
            r.downloaded_file_ids@ == Seq::<String>::empty(),
    {
        AppData { chat: Vec::new(), downloaded_file_ids: Vec::new() }
    }
}

/// The kinds of media that are downloaded where the configuration names none.
pub fn default_media_types() -> (r: Vec<String>)
    ensures
        texts(r@) == seq![
            "audio"@,
            "photo"@,
            "video"@,
            "document"@,
            "voice"@,
            "video_note"@,
        ],
{
    let r = vec![
        copy_str("audio"),
        copy_str("photo"),
        copy_str("video"),
        copy_str("document"),
        copy_str("voice"),
        copy_str("video_note"),
    ];
    assert(texts(r@) =~= seq![
        "audio"@,
        "photo"@,
        "video"@,
        "document"@,
        "voice"@,
        "video_note"@,
    ]);
    r
}

/// The directory that downloads are saved under where the configuration names none.
pub fn default_save_path() -> (r: String)
    ensures
        r@ == "downloads"@,
{
    copy_str("downloads")
}

/// What a download's directory is made of where the configuration says nothing.
pub fn default_file_path_prefix() -> (r: Vec<String>)
    ensures
        texts(r@) == seq!["chat_title"@, "media_datetime"@],
{
    let r = vec![copy_str("chat_title"), copy_str("media_datetime")];
    assert(texts(r@) =~= seq!["chat_title"@, "media_datetime"@]);
    r
}

/// What a download's file name is made of where the configuration says nothing.
pub fn default_file_name_prefix() -> (r: Vec<String>)
    ensures
        texts(r@) == seq!["message_id"@, "file_name"@],
{
    let r = vec![copy_str("message_id"), copy_str("file_name")];
    assert(texts(r@) =~= seq!["message_id"@, "file_name"@]);
    r
}

/// What stands between the parts of a file name where the configuration says nothing.
pub fn default_file_name_prefix_split() -> (r: String)
    ensures
        r@ == " - "@,
{
    copy_str(" - ")
}

/// The layout of dates in paths where the configuration says nothing.
pub fn default_date_format() -> (r: String)
    ensures
        r@ == "%Y_%m"@,
{
    copy_str("%Y_%m")
}

/// The address that the web page is served on where the configuration names none.
pub fn default_web_host() -> (r: String)
    ensures
        r@ == "0.0.0.0"@,
{
    copy_str("0.0.0.0")
}

/// The port that the web page is served on where the configuration names none.
pub fn default_web_port() -> (r: u16)
    ensures
        r == 5000,
{
    5000
}

/// The seconds between two scans where the configuration says nothing: a quarter of an hour.
pub fn default_check_interval_secs() -> (r: u64)
    ensures
        r == 15 * 60,
{
    15 * 60
}

/// The list that accepts every file extension.
pub fn default_all() -> (r: Vec<String>)
    ensures
        texts(r@) == seq!["all"@],
{
    let r = vec![copy_str("all")];
    assert(texts(r@) =~= seq!["all"@]);
    r
}

/// How many downloads run at a time where the configuration says nothing.
pub fn default_max_download_task() -> (r: usize)
    ensures
        r == 5,
{
    5
}

/// How many connections one download uses where the configuration says nothing.
pub fn default_download_connections() -> (r: usize)
    ensures
        r == 4,
{
    4
}

} // verus!
