//! Where downloads are saved.

use vstd::prelude::*;

use crate::calendar::{chrono_format, format_datetime};
use crate::config::Config;
use crate::downloader::metadata::{
    document_ext, kind_and_ext, lemma_kind_follows_the_type, media_kind_and_ext, text_or_empty,
    Document, Media, Message,
};
use crate::filepath;
use crate::filepath::{
    name_stem, path_file_name, path_join, path_separator, path_with_extension,
};
use crate::format::{
    cleaned, lemma_cleaned_keeps_the_rest, short_path, truncate_filename, validate_title,
};
use crate::text::{
    concat2, copy_str, i64_text, join_texts, joined, last_of, lemma_extension_is_split_off,
    lemma_joined_alone, lemma_joined_concat, lemma_split_at_the_last_stop, same_text,
    signed_decimal, split_at_last_stop, split_name, texts, to_chars,
};

verus! {

/// How many bytes the name of a downloaded file may take.
pub const FILE_NAME_LIMIT: usize = 230;

/// The media is of a kind that cannot be downloaded.
#[derive(Debug, Clone, Copy, PartialEq, Eq, Structural)]
pub struct UnsupportedMedia;

impl UnsupportedMedia {
    /// The text of the error.
    pub fn message(&self) -> (r: String)
        ensures
            r@ == "unsupported media"@,
    {
        copy_str("unsupported media")
    }
}

/// How the chat of a message is called in paths.
pub open spec fn chat_title(msg: Message) -> Seq<char> {
    match msg.chat_name {
        Some(name) => cleaned(name@),
        None => msg.chat_label@,
    }
}

fn title_of(msg: &Message) -> (r: String)
    ensures
        r@ == chat_title(*msg),
{
    match &msg.chat_name {
        Some(name) => validate_title(name.as_str()),
        None => copy_str(msg.chat_label.as_str()),
    }
}

/// The date of a message under the configured layout; `None` where the layout cannot be used.
pub open spec fn dated(msg: Message, cfg: Config) -> Option<Seq<char>> {
    chrono_format(msg.date.secs, msg.date.nanos, cfg.date_format@)
}

/// What one segment of the configured directory stands for; `None` for nothing.
pub open spec fn segment(
    name: Seq<char>,
    title: Seq<char>,
    date: Seq<char>,
    kind: Option<Seq<char>>,
) -> Option<Seq<char>> {
    if name == "chat_title"@ {
        Some(title)
    } else if name == "media_datetime"@ {
        Some(date)
    } else if name == "media_type"@ {
        kind
    } else {
        None
    }
}

/// The directory under `base` that the segments lead to. Segments that stand for nothing are left
/// out; there is no kind for a message without media.
pub open spec fn directory(
    base: Seq<char>,
    segments: Seq<Seq<char>>,
    title: Seq<char>,
    date: Seq<char>,
    kind: Option<Seq<char>>,
) -> Seq<char>
    decreases segments.len(),
{
    if segments.len() == 0 {
        base
    } else {
        let dir = directory(base, segments.drop_last(), title, date, kind);
        match segment(segments.last(), title, date, kind) {
            Some(part) => path_join(dir, part),
            None => dir,
        }
    }
}

fn build_directory(cfg: &Config, title: &str, date: &str, kind: Option<&str>) -> (r: String)
    ensures
        r@ == directory(
            cfg.save_path@,
            texts(cfg.file_path_prefix@),
            title@,
            date@,
            match kind {
                Some(k) => Some(k@),
                None => None,
            },
        ),
{
    let ghost all = texts(cfg.file_path_prefix@);
    let ghost known = match kind {
        Some(k) => Some(k@),
        None => None,
    };
    let mut dir = copy_str(cfg.save_path.as_str());
    let mut i: usize = 0;
    assert(all.take(0) =~= Seq::<Seq<char>>::empty());
    while i < cfg.file_path_prefix.len()
        invariant
            i <= cfg.file_path_prefix.len(),
            all == texts(cfg.file_path_prefix@),
            known == match kind {
                Some(k) => Some(k@),
                None => None,
            },
            dir@ == directory(cfg.save_path@, all.take(i as int), title@, date@, known),
        decreases cfg.file_path_prefix.len() - i,
    {
        assert(all.take(i + 1).drop_last() =~= all.take(i as int));
        assert(all.take(i + 1).last() == cfg.file_path_prefix@[i as int]@);
        let name = cfg.file_path_prefix[i].as_str();
        if same_text(name, "chat_title") {
            dir = filepath::join(dir.as_str(), title);
        } else if same_text(name, "media_datetime") {
            dir = filepath::join(dir.as_str(), date);
        } else if same_text(name, "media_type") {
            if let Some(k) = kind {
                dir = filepath::join(dir.as_str(), k);
            }
        }
        i = i + 1;
    }
    assert(all.take(i as int) =~= all);
    dir
}

/// The name of a document without its extension, or `file_` and its number.
pub open spec fn document_stem(doc: Document) -> Seq<char> {
    let name = text_or_empty(doc.name);
    let stem = match split_name(name) {
        Some((stem, _)) => stem,
        None => name,
    };
    if stem.len() == 0 {
        "file_"@ + signed_decimal(doc.id as int)
    } else {
        stem
    }
}

fn stem_of(doc: &Document) -> (r: String)
    ensures
        r@ == document_stem(*doc),
{
    let stem = match &doc.name {
        Some(name) => match split_at_last_stop(name.as_str()) {
            Some((stem, _)) => stem,
            None => copy_str(name.as_str()),
        },
        None => String::new(),
    };
    proof {
        if doc.name is None {
            assert(text_or_empty(doc.name) =~= Seq::<char>::empty());
        }
    }
    if stem.as_str().is_empty() {
        assert(stem@.len() == 0);
        concat2("file_", i64_text(doc.id).as_str())
    } else {
        stem
    }
}

/// The parts that the name of a document is made of: the number of the message, the document's
/// own name and the text of the message, as far as they are configured. A message without text
/// adds none.
pub open spec fn name_parts(
    prefix: Seq<Seq<char>>,
    id: int,
    stem: Seq<char>,
    text: Seq<char>,
) -> Seq<Seq<char>>
    decreases prefix.len(),
{
    if prefix.len() == 0 {
        Seq::empty()
    } else {
        let parts = name_parts(prefix.drop_last(), id, stem, text);
        let name = prefix.last();
        if name == "message_id"@ {
            parts.push(signed_decimal(id))
        } else if name == "file_name"@ {
            parts.push(stem)
        } else if name == "caption"@ && text.len() > 0 {
            parts.push(cleaned(text))
        } else {
            parts
        }
    }
}

fn parts_of_name(cfg: &Config, msg: &Message, stem: &str) -> (r: Vec<String>)
    ensures
        texts(r@) == name_parts(texts(cfg.file_name_prefix@), msg.id as int, stem@, msg.text@),
{
    let ghost all = texts(cfg.file_name_prefix@);
    let mut parts: Vec<String> = Vec::new();
    let mut i: usize = 0;
    assert(all.take(0) =~= Seq::<Seq<char>>::empty());
    assert(texts(parts@) =~= Seq::<Seq<char>>::empty());
    while i < cfg.file_name_prefix.len()
        invariant
            i <= cfg.file_name_prefix.len(),
            all == texts(cfg.file_name_prefix@),
            texts(parts@) == name_parts(all.take(i as int), msg.id as int, stem@, msg.text@),
        decreases cfg.file_name_prefix.len() - i,
    {
        assert(all.take(i + 1).drop_last() =~= all.take(i as int));
        assert(all.take(i + 1).last() == cfg.file_name_prefix@[i as int]@);
        let ghost before = texts(parts@);
        let name = cfg.file_name_prefix[i].as_str();
        if same_text(name, "message_id") {
            parts.push(i64_text(msg.id as i64));
            assert(texts(parts@) =~= before.push(signed_decimal(msg.id as int)));
        } else if same_text(name, "file_name") {
            parts.push(copy_str(stem));
            assert(texts(parts@) =~= before.push(stem@));
        } else if same_text(name, "caption") && !msg.text.as_str().is_empty() {
            parts.push(validate_title(msg.text.as_str()));
            assert(texts(parts@) =~= before.push(cleaned(msg.text@)));
        }
        i = i + 1;
    }
    assert(all.take(i as int) =~= all);
    parts
}

/// The name of the file that a message's media is saved in, without the extension: for a photo
/// the number of the message, for a document its configured parts, or the number of the message
/// where there are none.
pub open spec fn file_stem_of(msg: Message, media: Media, cfg: Config) -> Seq<char> {
    match media {
        Media::Document(doc) => {
            let parts = name_parts(
                texts(cfg.file_name_prefix@),
                msg.id as int,
                document_stem(doc),
                msg.text@,
            );
            if parts.len() == 0 {
                signed_decimal(msg.id as int)
            } else {
                joined(parts, cfg.file_name_prefix_split@)
            }
        },
        _ => signed_decimal(msg.id as int),
    }
}

/// Where media is saved, given its kind, its extension and the date of the message.
pub open spec fn final_path(
    msg: Message,
    media: Media,
    cfg: Config,
    kind: Seq<char>,
    ext: Seq<char>,
    date: Seq<char>,
) -> Seq<char> {
    let dir = directory(
        cfg.save_path@,
        texts(cfg.file_path_prefix@),
        chat_title(msg),
        date,
        Some(kind),
    );
    short_path(
        path_join(dir, file_stem_of(msg, media, cfg) + "."@ + ext),
        FILE_NAME_LIMIT as int,
    )
}

/// Whether a path can be given the extension: it holds no separator.
pub open spec fn fits_extension(ext: Seq<char>) -> bool {
    forall|i: int| 0 <= i < ext.len() ==> !path_separator(#[trigger] ext[i])
}

/// The extension of a partial file.
pub open spec fn partial_ext(ext: Seq<char>) -> Seq<char> {
    ext + ".part"@
}

proof fn lemma_last_of(s: Seq<char>, c: char, i: int)
    requires
        0 <= i < s.len(),
        s[i] == c,
        forall|k: int| i < k < s.len() ==> s[k] != c,
    ensures
        last_of(s, c) == Some(i),
    decreases s.len(),
{
    if i < s.len() - 1 {
        lemma_last_of(s.drop_last(), c, i);
    }
}

/// A partial file is never called as the file is in the end.
pub proof fn lemma_partial_name_differs(name: Seq<char>, ext: Seq<char>)
    ensures
        name_stem(name) + "."@ + partial_ext(ext) != name,
{
    reveal_strlit(".");
    reveal_strlit(".part");
    let partial = name_stem(name) + "."@ + partial_ext(ext);
    if partial == name {
        let i = name.len() - 5;
        assert(partial[i] == '.');
        assert forall|k: int| i < k < partial.len() implies partial[k] != '.' by {
            assert(partial[k] == ".part"@[k - i]);
        }
        lemma_last_of(partial, '.', i);
        assert(name_stem(name).len() == i || i <= 0);
    }
}

/// Whether a path can be made for the media: the date can be written, and the extension holds no
/// separator.
pub open spec fn has_paths(msg: Message, media: Media, cfg: Config) -> bool {
    &&& dated(msg, cfg) is Some
    &&& match kind_and_ext(media) {
        Some((_, ext)) => fits_extension(partial_ext(ext)),
        None => true,
    }
}

fn is_extension(ext: &str) -> (r: bool)
    ensures
        r == fits_extension(ext@),
{
    let v = to_chars(ext);
    let mut i: usize = 0;
    while i < v.len()
        invariant
            v@ == ext@,
            i <= v.len(),
            forall|k: int| 0 <= k < i ==> !path_separator(#[trigger] ext@[k]),
        decreases v.len() - i,
    {
        if filepath::is_separator(v[i]) {
            assert(path_separator(ext@[i as int]));
            return false;
        }
        i = i + 1;
    }
    true
}

fn build_final_path(
    msg: &Message,
    media: &Media,
    cfg: &Config,
    kind: &str,
    ext: &str,
    date: &str,
) -> (r: String)
    ensures
        r@ == final_path(*msg, *media, *cfg, kind@, ext@, date@),
{
    let title = title_of(msg);
    let dir = build_directory(cfg, title.as_str(), date, Some(kind));
    let stem = match media {
        Media::Document(doc) => {
            let parts = parts_of_name(cfg, msg, stem_of(doc).as_str());
            assert(texts(parts@).len() == parts@.len());
            if parts.len() == 0 {
                i64_text(msg.id as i64)
            } else {
                join_texts(&parts, cfg.file_name_prefix_split.as_str())
            }
        },
        _ => i64_text(msg.id as i64),
    };
    let mut name = stem;
    name.append(".");
    name.append(ext);
    let whole = filepath::join(dir.as_str(), name.as_str());
    truncate_filename(whole.as_str(), FILE_NAME_LIMIT)
}

/// Where media is saved while it is partial, and where it is saved in the end, given the date of
/// the message as text.
pub fn media_paths(msg: &Message, media: &Media, cfg: &Config, date: &str) -> (r: Result<
    (String, String),
    UnsupportedMedia,
>)
    requires
        kind_and_ext(*media) matches Some((_, ext)) ==> fits_extension(partial_ext(ext)),
    ensures
        match (r, kind_and_ext(*media)) {
            (Ok((temp, last)), Some((kind, ext))) => {
                &&& last@ == final_path(*msg, *media, *cfg, kind, ext, date@)
                &&& temp@ == path_with_extension(last@, partial_ext(ext))
                &&& path_file_name(last@) is Some ==> temp@ != last@
            },
            (Err(_), None) => true,
            _ => false,
        },
{
    let (kind, ext) = match media_kind_and_ext(media) {
        Some(both) => both,
        None => return Err(UnsupportedMedia),
    };
    let last = build_final_path(msg, media, cfg, kind, ext.as_str(), date);
    let partial = concat2(ext.as_str(), ".part");
    let temp = filepath::with_extension(last.as_str(), partial.as_str());
    proof {
        reveal_strlit(".part");
        if path_file_name(last@) is Some {
            lemma_partial_name_differs(path_file_name(last@)->0, ext@);
        }
    }
    Ok((temp, last))
}

/// Where the media of a message is saved while it is partial, and where it is saved in the end.
pub fn build_media_paths(msg: &Message, media: &Media, cfg: &Config) -> (r: Result<
    (String, String),
    UnsupportedMedia,
>)
    requires
        has_paths(*msg, *media, *cfg),
    ensures
        match (r, kind_and_ext(*media)) {
            (Ok((temp, last)), Some((kind, ext))) => {
                &&& last@ == final_path(*msg, *media, *cfg, kind, ext, dated(*msg, *cfg)->0)
                &&& temp@ == path_with_extension(last@, partial_ext(ext))
                &&& path_file_name(last@) is Some ==> temp@ != last@
            },
            (Err(_), None) => true,
            _ => false,
        },
{
    match format_datetime(msg.date, cfg.date_format.as_str()) {
        Some(date) => media_paths(msg, media, cfg, date.as_str()),
        None => {
            assert(false);
            Err(UnsupportedMedia)
        },
    }
}

/// As [`build_media_paths`], for any message: `None` where no path can be made.
pub fn try_build_media_paths(msg: &Message, media: &Media, cfg: &Config) -> (r: Option<
    Result<(String, String), UnsupportedMedia>,
>)
    ensures
        r is Some <==> has_paths(*msg, *media, *cfg),
        r matches Some(paths) ==> match (paths, kind_and_ext(*media)) {
            (Ok((temp, last)), Some((kind, ext))) => {
                &&& last@ == final_path(*msg, *media, *cfg, kind, ext, dated(*msg, *cfg)->0)
                &&& temp@ == path_with_extension(last@, partial_ext(ext))
                &&& path_file_name(last@) is Some ==> temp@ != last@
            },
            (Err(_), None) => true,
            _ => false,
        },
{
    if format_datetime(msg.date, cfg.date_format.as_str()).is_none() {
        return None;
    }
    if let Some((_, ext)) = media_kind_and_ext(media) {
        let partial = concat2(ext.as_str(), ".part");
        if !is_extension(partial.as_str()) {
            return None;
        }
    }
    Some(build_media_paths(msg, media, cfg))
}

/// The directory and the file that the text of a message is saved in, given its date as text.
pub fn text_paths(msg: &Message, cfg: &Config, date: &str) -> (r: (String, String))
    ensures
        r.0@ == directory(
            cfg.save_path@,
            texts(cfg.file_path_prefix@),
            chat_title(*msg),
            date@,
            None,
        ),
        r.1@ == path_join(r.0@, signed_decimal(msg.id as int) + ".txt"@),
{
    let title = title_of(msg);
    let dir = build_directory(cfg, title.as_str(), date, None);
    let name = concat2(i64_text(msg.id as i64).as_str(), ".txt");
    let file = filepath::join(dir.as_str(), name.as_str());
    (dir, file)
}

/// The directory and the file that the text of a message is saved in; `None` where the date of
/// the message cannot be written under the configured layout.
pub fn try_build_text_paths(msg: &Message, cfg: &Config) -> (r: Option<(String, String)>)
    ensures
        r is Some <==> dated(*msg, *cfg) is Some,
        r matches Some((dir, file)) ==> {
            &&& dir@ == directory(
                cfg.save_path@,
                texts(cfg.file_path_prefix@),
                chat_title(*msg),
                dated(*msg, *cfg)->0,
                None,
            )
            &&& file@ == path_join(dir@, signed_decimal(msg.id as int) + ".txt"@)
        },
{
    match format_datetime(msg.date, cfg.date_format.as_str()) {
        Some(date) => Some(text_paths(msg, cfg, date.as_str())),
        None => None,
    }
}

// ── laws ─────────────────────────────────────────────────────────────────

/// A directory is built segment by segment, each under the ones before.
pub proof fn lemma_directory_goes_on(
    base: Seq<char>,
    a: Seq<Seq<char>>,
    b: Seq<Seq<char>>,
    title: Seq<char>,
    date: Seq<char>,
    kind: Option<Seq<char>>,
)
    ensures
        directory(base, a + b, title, date, kind) == directory(
            directory(base, a, title, date, kind),
            b,
            title,
            date,
            kind,
        ),
    decreases b.len(),
{
    if b.len() == 0 {
        assert(a + b =~= a);
    } else {
        lemma_directory_goes_on(base, a, b.drop_last(), title, date, kind);
        assert((a + b).drop_last() =~= a + b.drop_last());
        assert((a + b).last() == b.last());
    }
}

proof fn lemma_segments_differ()
    ensures
        "chat_title"@ != "media_datetime"@,
        "chat_title"@ != "media_type"@,
        "media_datetime"@ != "media_type"@,
        "message_id"@ != "file_name"@,
        "message_id"@ != "caption"@,
        "file_name"@ != "caption"@,
{
    reveal_strlit("chat_title");
    reveal_strlit("media_datetime");
    reveal_strlit("media_type");
    reveal_strlit("message_id");
    reveal_strlit("file_name");
    reveal_strlit("caption");
    assert("chat_title"@[0] == 'c' && "media_datetime"@[0] == 'm' && "media_type"@[0] == 'm');
    assert("media_datetime"@.len() == 14 && "media_type"@.len() == 10);
    assert("message_id"@[0] == 'm' && "file_name"@[0] == 'f' && "caption"@[0] == 'c');
}

/// What each segment adds to a directory: the title of the chat, the date of the message or the
/// kind of the media, each under its own name; any other name adds nothing, and a message without
/// media has no kind to add.
pub proof fn lemma_segments(
    base: Seq<char>,
    name: Seq<char>,
    title: Seq<char>,
    date: Seq<char>,
    kind: Seq<char>,
)
    ensures
        directory(base, seq!["chat_title"@], title, date, Some(kind)) == path_join(base, title),
        directory(base, seq!["media_datetime"@], title, date, Some(kind)) == path_join(base, date),
        directory(base, seq!["media_type"@], title, date, Some(kind)) == path_join(base, kind),
        directory(base, seq!["chat_title"@], title, date, None) == path_join(base, title),
        directory(base, seq!["media_datetime"@], title, date, None) == path_join(base, date),
        directory(base, seq!["media_type"@], title, date, None) == base,
        name != "chat_title"@ && name != "media_datetime"@ && name != "media_type"@ ==> directory(
            base,
            seq![name],
            title,
            date,
            Some(kind),
        ) == base,
        directory(base, Seq::empty(), title, date, Some(kind)) == base,
{
    lemma_segments_differ();
    lemma_one_segment(base, "chat_title"@, title, date, Some(kind));
    lemma_one_segment(base, "media_datetime"@, title, date, Some(kind));
    lemma_one_segment(base, "media_type"@, title, date, Some(kind));
    lemma_one_segment(base, "chat_title"@, title, date, None);
    lemma_one_segment(base, "media_datetime"@, title, date, None);
    lemma_one_segment(base, "media_type"@, title, date, None);
    lemma_one_segment(base, name, title, date, Some(kind));
}

proof fn lemma_one_segment(
    base: Seq<char>,
    name: Seq<char>,
    title: Seq<char>,
    date: Seq<char>,
    kind: Option<Seq<char>>,
)
    ensures
        directory(base, seq![name], title, date, kind) == match segment(name, title, date, kind) {
            Some(part) => path_join(base, part),
            None => base,
        },
{
    let one = seq![name];
    assert(one.drop_last() =~= Seq::<Seq<char>>::empty());
    assert(directory(base, one.drop_last(), title, date, kind) == base);
    assert(one.last() == name);
}

/// Media is saved in the directory that its own kind, the title of its chat and its date lead to,
/// under its name and its extension, in at most 230 bytes.
pub proof fn lemma_media_is_saved_under_its_kind(
    msg: &Message,
    media: &Media,
    cfg: &Config,
    date: &str,
    kind: Seq<char>,
    ext: Seq<char>,
    temp: String,
    last: String,
)
    requires
        kind_and_ext(*media) == Some((kind, ext)),
        call_ensures(media_paths, (msg, media, cfg, date), Ok((temp, last))),
    ensures
        last@ == short_path(
            path_join(
                directory(
                    cfg.save_path@,
                    texts(cfg.file_path_prefix@),
                    chat_title(*msg),
                    date@,
                    Some(kind),
                ),
                file_stem_of(*msg, *media, *cfg) + "."@ + ext,
            ),
            230,
        ),
        texts(cfg.file_path_prefix@) == seq!["media_type"@] ==> last@ == short_path(
            path_join(
                path_join(cfg.save_path@, kind),
                file_stem_of(*msg, *media, *cfg) + "."@ + ext,
            ),
            230,
        ),
{
    lemma_segments(cfg.save_path@, kind, chat_title(*msg), date@, kind);
}

/// Under the kind of the media alone, a file whose type of data starts with `video/` is saved in
/// `video`, one whose type starts with `audio/` in `audio`, and a photo in `photo`.
pub proof fn lemma_directories_of_kinds(
    msg: &Message,
    media: &Media,
    cfg: &Config,
    date: &str,
    rest: Seq<char>,
    temp: String,
    last: String,
)
    requires
        call_ensures(media_paths, (msg, media, cfg, date), Ok((temp, last))),
        texts(cfg.file_path_prefix@) == seq!["media_type"@],
    ensures
        match *media {
            Media::Photo(_) => last@ == short_path(
                path_join(
                    path_join(cfg.save_path@, "photo"@),
                    signed_decimal(msg.id as int) + "."@ + "jpg"@,
                ),
                230,
            ),
            Media::Document(doc) => {
                let name = file_stem_of(*msg, *media, *cfg) + "."@ + document_ext(doc);
                &&& doc.mime_type is Some && doc.mime_type->0@ == "video/"@ + rest ==> last@
                    == short_path(path_join(path_join(cfg.save_path@, "video"@), name), 230)
                &&& doc.mime_type is Some && doc.mime_type->0@ == "audio/"@ + rest ==> last@
                    == short_path(path_join(path_join(cfg.save_path@, "audio"@), name), 230)
                &&& doc.mime_type is None ==> last@ == short_path(
                    path_join(path_join(cfg.save_path@, "document"@), name),
                    230,
                )
            },
            Media::Other => false,
        },
{
    lemma_kind_follows_the_type(rest, Seq::empty());
    reveal_strlit("image/gif");
    reveal_strlit("audio/");
    reveal_strlit("video/");
    assert("image/gif"@.len() == 9 && "audio/"@.len() == 6 && "video/"@.len() == 6);
    if let Some((kind, ext)) = kind_and_ext(*media) {
        lemma_media_is_saved_under_its_kind(msg, media, cfg, date, kind, ext, temp, last);
    }
}

/// The names of a file's parts follow the configured order, part by part.
pub proof fn lemma_name_parts_go_on(
    a: Seq<Seq<char>>,
    b: Seq<Seq<char>>,
    id: int,
    stem: Seq<char>,
    text: Seq<char>,
)
    ensures
        name_parts(a + b, id, stem, text) == name_parts(a, id, stem, text) + name_parts(
            b,
            id,
            stem,
            text,
        ),
    decreases b.len(),
{
    if b.len() == 0 {
        assert(a + b =~= a);
        assert(name_parts(a, id, stem, text) + name_parts(b, id, stem, text) =~= name_parts(
            a,
            id,
            stem,
            text,
        ));
    } else {
        lemma_name_parts_go_on(a, b.drop_last(), id, stem, text);
        assert((a + b).drop_last() =~= a + b.drop_last());
        assert((a + b).last() == b.last());
        assert(name_parts(a + b, id, stem, text) =~= name_parts(a, id, stem, text) + name_parts(
            b,
            id,
            stem,
            text,
        ));
    }
}

/// What each part of a file's name is: the number of the message, the document's own name, or the
/// text of the message with what has no place in a file name replaced. A message without text has
/// no such part, and any other name is none.
pub proof fn lemma_parts_of_names(name: Seq<char>, id: int, stem: Seq<char>, text: Seq<char>)
    ensures
        name_parts(seq!["message_id"@], id, stem, text) == seq![signed_decimal(id)],
        name_parts(seq!["file_name"@], id, stem, text) == seq![stem],
        text.len() > 0 ==> name_parts(seq!["caption"@], id, stem, text) == seq![cleaned(text)],
        text.len() == 0 ==> name_parts(seq!["caption"@], id, stem, text) == Seq::<
            Seq<char>,
        >::empty(),
        name != "message_id"@ && name != "file_name"@ && name != "caption"@ ==> name_parts(
            seq![name],
            id,
            stem,
            text,
        ) == Seq::<Seq<char>>::empty(),
{
    lemma_segments_differ();
    lemma_one_part("message_id"@, id, stem, text);
    lemma_one_part("file_name"@, id, stem, text);
    lemma_one_part("caption"@, id, stem, text);
    lemma_one_part(name, id, stem, text);
}

proof fn lemma_one_part(name: Seq<char>, id: int, stem: Seq<char>, text: Seq<char>)
    ensures
        name_parts(seq![name], id, stem, text) == (if name == "message_id"@ {
            seq![signed_decimal(id)]
        } else if name == "file_name"@ {
            seq![stem]
        } else if name == "caption"@ && text.len() > 0 {
            seq![cleaned(text)]
        } else {
            Seq::empty()
        }),
{
    let one = seq![name];
    let none = Seq::<Seq<char>>::empty();
    assert(one.drop_last() =~= none);
    assert(name_parts(one.drop_last(), id, stem, text) == none);
    assert(none.push(signed_decimal(id)) =~= seq![signed_decimal(id)]);
    assert(none.push(stem) =~= seq![stem]);
    assert(none.push(cleaned(text)) =~= seq![cleaned(text)]);
}

/// A document is called by the number of its message and its own name, with what separates them
/// between the two, where the configuration asks for these; a photo by the number of its message
/// alone, and so is a document where the configuration asks for nothing.
pub proof fn lemma_names_of_files(msg: Message, media: Media, cfg: Config)
    ensures
        media is Photo ==> file_stem_of(msg, media, cfg) == signed_decimal(msg.id as int),
        match media {
            Media::Document(doc) => {
                &&& texts(cfg.file_name_prefix@) == seq!["message_id"@] + seq!["file_name"@]
                    ==> file_stem_of(msg, media, cfg) == signed_decimal(msg.id as int)
                    + cfg.file_name_prefix_split@ + document_stem(doc)
                &&& texts(cfg.file_name_prefix@) == seq!["file_name"@] ==> file_stem_of(
                    msg,
                    media,
                    cfg,
                ) == document_stem(doc)
                &&& texts(cfg.file_name_prefix@) == seq!["message_id"@] ==> file_stem_of(
                    msg,
                    media,
                    cfg,
                ) == signed_decimal(msg.id as int)
                &&& texts(cfg.file_name_prefix@).len() == 0 ==> file_stem_of(msg, media, cfg)
                    == signed_decimal(msg.id as int)
            },
            _ => true,
        },
{
    if let Media::Document(doc) = media {
        let stem = document_stem(doc);
        let id = signed_decimal(msg.id as int);
        let sep = cfg.file_name_prefix_split@;
        lemma_parts_of_names(stem, msg.id as int, stem, msg.text@);
        lemma_name_parts_go_on(
            seq!["message_id"@],
            seq!["file_name"@],
            msg.id as int,
            stem,
            msg.text@,
        );
        lemma_joined_concat(seq![id], seq![stem], sep);
        lemma_joined_alone(id, sep);
        lemma_joined_alone(stem, sep);
    }
}

/// A document is called as it is without its extension, or, where that leaves nothing, `file_` and
/// its number.
pub proof fn lemma_own_names_of_documents(doc: Document, stem: Seq<char>, ext: Seq<char>)
    requires
        !ext.contains('.'),
        stem.len() > 0,
    ensures
        doc.name is Some && doc.name->0@ == stem + "."@ + ext ==> document_stem(doc) == stem,
        doc.name is Some && doc.name->0@ == stem && !stem.contains('.') ==> document_stem(doc)
            == stem,
        doc.name is Some && doc.name->0@ == "."@ + ext ==> document_stem(doc) == "file_"@
            + signed_decimal(doc.id as int),
        doc.name is None ==> document_stem(doc) == "file_"@ + signed_decimal(doc.id as int),
{
    lemma_extension_is_split_off(stem, ext);
    lemma_extension_is_split_off(Seq::empty(), ext);
    assert(Seq::<char>::empty() + "."@ + ext =~= "."@ + ext);
    lemma_split_at_the_last_stop(stem);
    if let Some((a, b)) = split_name(stem) {
        reveal_strlit(".");
        assert(stem[a.len() as int] == '.');
    }
    lemma_split_at_the_last_stop(Seq::empty());
    if let Some((a, b)) = split_name(Seq::<char>::empty()) {
        reveal_strlit(".");
        assert((a + "."@ + b).len() > 0);
    }
}

/// A chat is called by its name, with what has no place in a file name replaced; one without a
/// name by its label, as it is.
pub proof fn lemma_titles_of_chats(msg: Message, i: int)
    ensures
        msg.chat_name is None ==> chat_title(msg) == msg.chat_label@,
        msg.chat_name is Some ==> chat_title(msg).len() == msg.chat_name->0@.len(),
        msg.chat_name is Some && 0 <= i < msg.chat_name->0@.len() ==> chat_title(msg)[i]
            == (if "/\\:*?\"<>|\n"@.contains(msg.chat_name->0@[i]) {
            '_'
        } else {
            msg.chat_name->0@[i]
        }),
{
    if msg.chat_name is Some && 0 <= i < msg.chat_name->0@.len() {
        lemma_cleaned_keeps_the_rest(msg.chat_name->0@, i);
    }
}

/// A partial file stands beside the file that it becomes: its path is that of the file, with
/// `.part` behind the whole extension of the media.
pub proof fn lemma_partial_files_are_marked(
    msg: &Message,
    media: &Media,
    cfg: &Config,
    date: &str,
    temp: String,
    last: String,
)
    requires
        call_ensures(media_paths, (msg, media, cfg, date), Ok((temp, last))),
    ensures
        match kind_and_ext(*media) {
            Some((_, ext)) => temp@ == path_with_extension(last@, ext + ".part"@),
            None => false,
        },
        path_file_name(last@) is Some ==> temp@ != last@,
{
}

/// The text of a message is saved under the number of the message in `.txt`, in the directory that
/// its chat and its date lead to.
pub proof fn lemma_texts_are_saved_by_number(
    msg: &Message,
    cfg: &Config,
    date: &str,
    r: (String, String),
)
    requires
        call_ensures(text_paths, (msg, cfg, date), r),
    ensures
        r.1@ == path_join(r.0@, signed_decimal(msg.id as int) + ".txt"@),
        r.0@ == directory(
            cfg.save_path@,
            texts(cfg.file_path_prefix@),
            chat_title(*msg),
            date@,
            None,
        ),
{
}

/// Media has a path wherever its date can be written and neither its extension nor `.part` holds a
/// separator: in the directory of its own kind, with its partial file beside it.
pub proof fn lemma_media_has_a_path(
    msg: &Message,
    media: &Media,
    cfg: &Config,
    kind: Seq<char>,
    ext: Seq<char>,
    date: Seq<char>,
    r: Option<Result<(String, String), UnsupportedMedia>>,
)
    requires
        call_ensures(try_build_media_paths, (msg, media, cfg), r),
        kind_and_ext(*media) == Some((kind, ext)),
        chrono_format(msg.date.secs, msg.date.nanos, cfg.date_format@) == Some(date),
        forall|i: int| 0 <= i < ext.len() ==> !path_separator(#[trigger] ext[i]),
        forall|i: int| 0 <= i < 5 ==> !path_separator(#[trigger] ".part"@[i]),
    ensures
        r is Some,
        r->0 is Ok,
        ({
            let (temp, last) = r->0->Ok_0;
            &&& last@ == short_path(
                path_join(
                    directory(
                        cfg.save_path@,
                        texts(cfg.file_path_prefix@),
                        chat_title(*msg),
                        date,
                        Some(kind),
                    ),
                    file_stem_of(*msg, *media, *cfg) + "."@ + ext,
                ),
                230,
            )
            &&& temp@ == path_with_extension(last@, ext + ".part"@)
        }),
{
    reveal_strlit(".part");
    let partial = ext + ".part"@;
    assert forall|i: int| 0 <= i < partial.len() implies !path_separator(#[trigger] partial[i]) by {
        if i < ext.len() {
            assert(partial[i] == ext[i]);
        } else {
            assert(partial[i] == ".part"@[i - ext.len()]);
        }
    }
}

/// What cannot be downloaded has no path, and without a date that can be written there is none.
pub proof fn lemma_other_media_has_no_path(
    msg: &Message,
    media: &Media,
    cfg: &Config,
    r: Option<Result<(String, String), UnsupportedMedia>>,
)
    requires
        call_ensures(try_build_media_paths, (msg, media, cfg), r),
    ensures
        chrono_format(msg.date.secs, msg.date.nanos, cfg.date_format@) is None ==> r is None,
        chrono_format(msg.date.secs, msg.date.nanos, cfg.date_format@) is Some && media is Other
            ==> r is Some && r->0 is Err,
        !(media is Other) && r is Some ==> r->0 is Ok,
{
}

/// The directory of a pair of paths.
pub open spec fn dir_of(paths: Option<(String, String)>) -> Seq<char> {
    match paths {
        Some((dir, _)) => dir@,
        None => Seq::empty(),
    }
}

/// The file of a pair of paths.
pub open spec fn file_of(paths: Option<(String, String)>) -> Seq<char> {
    match paths {
        Some((_, file)) => file@,
        None => Seq::empty(),
    }
}

/// The text of a message has a path wherever its date can be written.
pub proof fn lemma_text_has_a_path(msg: &Message, cfg: &Config, r: Option<(String, String)>)
    requires
        call_ensures(try_build_text_paths, (msg, cfg), r),
    ensures
        match chrono_format(msg.date.secs, msg.date.nanos, cfg.date_format@) {
            Some(date) => {
                &&& r is Some
                &&& dir_of(r) == directory(
                    cfg.save_path@,
                    texts(cfg.file_path_prefix@),
                    chat_title(*msg),
                    date,
                    None,
                )
                &&& file_of(r) == path_join(dir_of(r), signed_decimal(msg.id as int) + ".txt"@)
            },
            None => r is None,
        },
{
}

} // verus!
