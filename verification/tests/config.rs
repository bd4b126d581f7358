use tmd::config::{
    default_all, default_check_interval_secs, default_date_format, default_download_connections,
    default_file_name_prefix, default_file_name_prefix_split, default_file_path_prefix,
    default_max_download_task, default_media_types, default_save_path, default_web_host,
    default_web_port, AppData, FileFormats,
};

#[test]
fn defaults_are_as_documented() {
    assert_eq!(
        default_media_types(),
        ["audio", "photo", "video", "document", "voice", "video_note"]
    );
    assert_eq!(default_save_path(), "downloads");
    assert_eq!(default_file_path_prefix(), ["chat_title", "media_datetime"]);
    assert_eq!(default_file_name_prefix(), ["message_id", "file_name"]);
    assert_eq!(default_file_name_prefix_split(), " - ");
    assert_eq!(default_date_format(), "%Y_%m");
    assert_eq!(default_web_host(), "0.0.0.0");
    assert_eq!(default_web_port(), 5000);
    assert_eq!(default_check_interval_secs(), 900);
    assert_eq!(default_all(), ["all"]);
    assert_eq!(default_max_download_task(), 5);
    assert_eq!(default_download_connections(), 4);
}

#[test]
fn empty_values_are_empty() {
    let formats = FileFormats::default();
    assert!(formats.audio.is_empty() && formats.document.is_empty() && formats.video.is_empty());
    let data = AppData::default();
    assert!(data.chat.is_empty() && data.downloaded_file_ids.is_empty());
}
