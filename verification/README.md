# Telegram Media Downloader

A Telegram media downloader whose decisions are verified with [Verus](https://github.com/verus-lang/verus).

`src/` is the verified library `tmd`:

- `filter` - the filter language: tokens, values, numbers, the evaluator and its laws.
- `format`, `dates`, `text` - sizes, titles, file names, dates and plain text.
- `downloader` - what a message carries and where it is saved, the chunks of a file and who fetches
  them, retries, putting the pieces together, and the course of a whole download.
- `session` - signing in, scanning again and again, and the state kept between runs.
- `webui` - what the web page shows.
- `calendar`, `pattern`, `filepath`, `fx` - the calls into `chrono`, `regex`, `std::path` and
  `rustc_hash`, each with the contract that is relied upon.

`app/` is the program around it: the network, the disk, the web server and floating point.

## Configuration

The program reads `config.yaml` from the working directory.

```yaml
api_hash: your_api_hash
api_id: your_api_id
chat:
  - chat_id: telegram_chat_id
    last_read_message_id: 0
    download_filter: "file_size >= 10MB"
media_types:
  - audio
  - document
  - photo
  - video
  - voice
save_path: ./downloads
file_path_prefix:
  - chat_title
  - media_datetime
file_name_prefix:
  - message_id
  - file_name
file_name_prefix_split: " - "
max_download_task: 5
download_connections: 4
web_host: 0.0.0.0
web_port: 5001
check_interval_secs: 900
date_format: "%Y_%m"
```
