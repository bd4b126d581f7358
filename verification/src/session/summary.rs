//! What is said of a run at its start and at its end.

use vstd::prelude::*;

use crate::config::{ChatConfig, Config};
use crate::downloader::finalize::FileIds;
use crate::session::state::{retries_of, total_retries, ChatTable};
use crate::text::{
    copy_str, decimal, i64_text, join_texts, joined, signed_decimal, texts, u128_text, u64_text,
};

verus! {

/// What is said of the configuration as a whole.
pub open spec fn config_line(cfg: Config, concurrency: usize) -> Seq<char> {
    "config: "@ + decimal(cfg.chat@.len()) + " chat(s), "@ + decimal(concurrency as nat)
        + " parallel download slot(s), scan every "@ + decimal(cfg.check_interval_secs as nat)
        + "s, save_path="@ + cfg.save_path@
}

/// What is said of the media that is wanted, and of the web page.
pub open spec fn media_line(cfg: Config) -> Seq<char> {
    "config: media_types=["@ + joined(texts(cfg.media_types@), ","@) + "] web_ui="@ + cfg.web_host@
        + ":"@ + decimal(cfg.web_port as nat)
}

/// What is said of one chat at the start.
pub open spec fn chat_line(chat: ChatConfig, table: Map<Seq<char>, Seq<i32>>) -> Seq<char> {
    "config: chat '"@ + chat.chat_id@ + "' from msg "@ + signed_decimal(
        chat.last_read_message_id as int,
    ) + " ("@ + decimal(retries_of(table, chat.chat_id@)) + " id(s) queued for retry)"@
        + match chat.download_filter {
        Some(filter) => " filter='"@ + filter@ + "'"@,
        None => Seq::empty(),
    }
}

/// What is said of the messages to try again; nothing where there are none.
pub open spec fn resume_lines(table: Map<Seq<char>, Seq<i32>>) -> Seq<Seq<char>> {
    if total_retries(table) > 0 {
        seq![
            "config: resuming with "@ + decimal(total_retries(table))
                + " message id(s) pending retry across all chats"@,
        ]
    } else {
        Seq::empty()
    }
}

/// What is said of the configuration at the start.
pub open spec fn config_summary(
    cfg: Config,
    table: Map<Seq<char>, Seq<i32>>,
    concurrency: usize,
) -> Seq<Seq<char>> {
    seq![config_line(cfg, concurrency), media_line(cfg)] + cfg.chat@.map_values(
        |chat: ChatConfig| chat_line(chat, table),
    ) + resume_lines(table)
}

fn say_config(cfg: &Config, concurrency: usize) -> (r: String)
    ensures
        r@ == config_line(*cfg, concurrency),
{
    let mut r = copy_str("config: ");
    r.append(u64_text(cfg.chat.len() as u64).as_str());
    r.append(" chat(s), ");
    r.append(u64_text(concurrency as u64).as_str());
    r.append(" parallel download slot(s), scan every ");
    r.append(u64_text(cfg.check_interval_secs).as_str());
    r.append("s, save_path=");
    r.append(cfg.save_path.as_str());
    r
}

fn say_media(cfg: &Config) -> (r: String)
    ensures
        r@ == media_line(*cfg),
{
    let mut r = copy_str("config: media_types=[");
    r.append(join_texts(&cfg.media_types, ",").as_str());
    r.append("] web_ui=");
    r.append(cfg.web_host.as_str());
    r.append(":");
    r.append(u64_text(cfg.web_port as u64).as_str());
    r
}

fn say_chat(chat: &ChatConfig, data_chats: &ChatTable) -> (r: String)
    ensures
        r@ == chat_line(*chat, data_chats@),
{
    let mut r = copy_str("config: chat '");
    r.append(chat.chat_id.as_str());
    r.append("' from msg ");
    r.append(i64_text(chat.last_read_message_id as i64).as_str());
    r.append(" (");
    r.append(u64_text(data_chats.retry_count(chat.chat_id.as_str()) as u64).as_str());
    r.append(" id(s) queued for retry)");
    match &chat.download_filter {
        Some(filter) => {
            let mut shown = copy_str(" filter='");
            shown.append(filter.as_str());
            shown.append("'");
            r.append(shown.as_str());
        },
        None => {
            assert(r@ + Seq::<char>::empty() =~= r@);
        },
    }
    r
}

/// What is said of the configuration at the start, line by line.
pub fn log_config_summary(cfg: &Config, data_chats: &ChatTable, concurrency: usize) -> (r: Vec<
    String,
>)
    ensures
        texts(r@) == config_summary(*cfg, data_chats@, concurrency),
{
    let pending: u128 = data_chats.pending();
    let mut r: Vec<String> = vec![say_config(cfg, concurrency), say_media(cfg)];
    let ghost head = seq![config_line(*cfg, concurrency), media_line(*cfg)];
    let ghost said = cfg.chat@.map_values(|chat: ChatConfig| chat_line(chat, data_chats@));
    assert(texts(r@) =~= head + said.take(0));
    let mut i: usize = 0;
    while i < cfg.chat.len()
        invariant
            i <= cfg.chat.len(),
            said == cfg.chat@.map_values(|chat: ChatConfig| chat_line(chat, data_chats@)),
            texts(r@) == head + said.take(i as int),
        decreases cfg.chat.len() - i,
    {
        let ghost before = texts(r@);
        r.push(say_chat(&cfg.chat[i], data_chats));
        assert(texts(r@) =~= before.push(said[i as int]));
        assert(texts(r@) =~= head + said.take(i + 1));
        i = i + 1;
    }
    assert(said.take(i as int) =~= said);
    if pending > 0 {
        let ghost before = texts(r@);
        let mut line = copy_str("config: resuming with ");
        line.append(u128_text(pending).as_str());
        line.append(" message id(s) pending retry across all chats");
        r.push(line);
        assert(texts(r@) =~= before + resume_lines(data_chats@));
    } else {
        assert(texts(r@) =~= texts(r@) + resume_lines(data_chats@));
    }
    r
}

/// What is said of a run at its end, given how many seconds it took, as text.
pub open spec fn run_line(elapsed: Seq<char>, files: nat, pending: nat) -> Seq<char> {
    "shutdown: ran for "@ + elapsed + "s; "@ + decimal(files) + " file id(s) cached, "@ + decimal(
        pending,
    ) + " message id(s) pending retry"@
}

/// What is said of one chat at the end.
pub open spec fn kept_line(chat: ChatConfig, table: Map<Seq<char>, Seq<i32>>) -> Seq<char> {
    "shutdown: chat '"@ + chat.chat_id@ + "' last_read="@ + signed_decimal(
        chat.last_read_message_id as int,
    ) + " ("@ + decimal(retries_of(table, chat.chat_id@))
        + " id(s) to retry) - partial downloads kept as .part for resume"@
}

/// What is said at the end, line by line.
pub open spec fn shutdown_summary(
    cfg: Config,
    table: Map<Seq<char>, Seq<i32>>,
    files: nat,
    elapsed: Seq<char>,
) -> Seq<Seq<char>> {
    seq![run_line(elapsed, files, total_retries(table))] + cfg.chat@.map_values(
        |chat: ChatConfig| kept_line(chat, table),
    ) + seq!["shutdown: state flushed to data.yaml and config.yaml"@]
}

fn say_kept(chat: &ChatConfig, data_chats: &ChatTable) -> (r: String)
    ensures
        r@ == kept_line(*chat, data_chats@),
{
    let mut r = copy_str("shutdown: chat '");
    r.append(chat.chat_id.as_str());
    r.append("' last_read=");
    r.append(i64_text(chat.last_read_message_id as i64).as_str());
    r.append(" (");
    r.append(u64_text(data_chats.retry_count(chat.chat_id.as_str()) as u64).as_str());
    r.append(" id(s) to retry) - partial downloads kept as .part for resume");
    r
}

/// What is said at the end, line by line, so that it is known what the next run goes on with.
/// `elapsed` is how many seconds the run took.
pub fn log_shutdown_summary(
    cfg: &Config,
    data_chats: &ChatTable,
    file_ids: &FileIds,
    elapsed: &str,
) -> (r: Vec<String>)
    ensures
        texts(r@) == shutdown_summary(*cfg, data_chats@, file_ids@.len(), elapsed@),
{
    let mut line = copy_str("shutdown: ran for ");
    line.append(elapsed);
    line.append("s; ");
    line.append(u64_text(file_ids.len() as u64).as_str());
    line.append(" file id(s) cached, ");
    line.append(u128_text(data_chats.pending()).as_str());
    line.append(" message id(s) pending retry");
    let mut r: Vec<String> = vec![line];
    let ghost head = seq![run_line(elapsed@, file_ids@.len(), total_retries(data_chats@))];
    let ghost said = cfg.chat@.map_values(|chat: ChatConfig| kept_line(chat, data_chats@));
    assert(texts(r@) =~= head + said.take(0));
    let mut i: usize = 0;
    while i < cfg.chat.len()
        invariant
            i <= cfg.chat.len(),
            said == cfg.chat@.map_values(|chat: ChatConfig| kept_line(chat, data_chats@)),
            texts(r@) == head + said.take(i as int),
        decreases cfg.chat.len() - i,
    {
        let ghost before = texts(r@);
        r.push(say_kept(&cfg.chat[i], data_chats));
        assert(texts(r@) =~= before.push(said[i as int]));
        assert(texts(r@) =~= head + said.take(i + 1));
        i = i + 1;
    }
    assert(said.take(i as int) =~= said);
    let ghost before = texts(r@);
    r.push(copy_str("shutdown: state flushed to data.yaml and config.yaml"));
    assert(texts(r@) =~= before + seq!["shutdown: state flushed to data.yaml and config.yaml"@]);
    r
}

/// At the start there is a line on the configuration, one on the media, one on each chat in order,
/// and one more if and only if messages are to be tried again.
pub proof fn lemma_lines_at_the_start(
    cfg: &Config,
    table: &ChatTable,
    concurrency: usize,
    r: Vec<String>,
    i: int,
)
    requires
        call_ensures(log_config_summary, (cfg, table, concurrency), r),
        0 <= i < cfg.chat@.len(),
    ensures
        r@.len() == 2 + cfg.chat@.len() + (if total_retries(table@) > 0 {
            1int
        } else {
            0
        }),
        r@[0]@ == "config: "@ + decimal(cfg.chat@.len()) + " chat(s), "@ + decimal(
            concurrency as nat,
        ) + " parallel download slot(s), scan every "@ + decimal(cfg.check_interval_secs as nat)
            + "s, save_path="@ + cfg.save_path@,
        r@[1]@ == "config: media_types=["@ + joined(texts(cfg.media_types@), ","@) + "] web_ui="@
            + cfg.web_host@ + ":"@ + decimal(cfg.web_port as nat),
        ({
            let chat = cfg.chat@[i];
            let line = "config: chat '"@ + chat.chat_id@ + "' from msg "@ + signed_decimal(
                chat.last_read_message_id as int,
            ) + " ("@ + decimal(retries_of(table@, chat.chat_id@)) + " id(s) queued for retry)"@;
            &&& chat.download_filter is None ==> r@[2 + i]@ == line
            &&& chat.download_filter matches Some(filter) ==> r@[2 + i]@ == line + (" filter='"@
                + filter@ + "'"@)
        }),
        total_retries(table@) > 0 ==> r@.last()@ == "config: resuming with "@ + decimal(
            total_retries(table@),
        ) + " message id(s) pending retry across all chats"@,
{
    let all = config_summary(*cfg, table@, concurrency);
    let said = cfg.chat@.map_values(|chat: ChatConfig| chat_line(chat, table@));
    assert(texts(r@).len() == r@.len());
    assert(all[0] == config_line(*cfg, concurrency) && all[1] == media_line(*cfg));
    assert(texts(r@)[0] == r@[0]@ && texts(r@)[1] == r@[1]@);
    assert(all[2 + i] == said[i]);
    assert(texts(r@)[2 + i] == r@[2 + i]@);
    let chat = cfg.chat@[i];
    if chat.download_filter is None {
        let line = "config: chat '"@ + chat.chat_id@ + "' from msg "@ + signed_decimal(
            chat.last_read_message_id as int,
        ) + " ("@ + decimal(retries_of(table@, chat.chat_id@)) + " id(s) queued for retry)"@;
        assert(line + Seq::<char>::empty() =~= line);
    }
    if total_retries(table@) > 0 {
        assert(all.last() == resume_lines(table@)[0]);
        assert(texts(r@).last() == r@.last()@);
    }
}

/// At the end there is a line on the run, one on each chat in order, and one that the state is
/// saved.
pub proof fn lemma_lines_at_the_end(
    cfg: &Config,
    table: &ChatTable,
    files: &FileIds,
    elapsed: &str,
    r: Vec<String>,
    i: int,
)
    requires
        call_ensures(log_shutdown_summary, (cfg, table, files, elapsed), r),
        0 <= i < cfg.chat@.len(),
    ensures
        r@.len() == 2 + cfg.chat@.len(),
        r@[0]@ == "shutdown: ran for "@ + elapsed@ + "s; "@ + decimal(files@.len())
            + " file id(s) cached, "@ + decimal(total_retries(table@))
            + " message id(s) pending retry"@,
        r@[1 + i]@ == "shutdown: chat '"@ + cfg.chat@[i].chat_id@ + "' last_read="@
            + signed_decimal(cfg.chat@[i].last_read_message_id as int) + " ("@ + decimal(
            retries_of(table@, cfg.chat@[i].chat_id@),
        ) + " id(s) to retry) - partial downloads kept as .part for resume"@,
        r@.last()@ == "shutdown: state flushed to data.yaml and config.yaml"@,
{
    let all = shutdown_summary(*cfg, table@, files@.len(), elapsed@);
    let said = cfg.chat@.map_values(|chat: ChatConfig| kept_line(chat, table@));
    assert(texts(r@).len() == r@.len());
    assert(texts(r@)[0] == r@[0]@);
    assert(all[1 + i] == said[i]);
    assert(texts(r@)[1 + i] == r@[1 + i]@);
    assert(texts(r@).last() == r@.last()@);
}

} // verus!
