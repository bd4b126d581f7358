//! Messages and the media in them.

use vstd::prelude::*;

use crate::calendar::DateTime;
use crate::config::Config;
use crate::text::{
    copy_str, has_text, lemma_extension_is_split_off, lemma_split_at_the_last_stop, same_text,
    split_at_last_stop, split_name, texts, to_chars,
};

verus! {

/// A message, as far as downloads go by it.
#[derive(Debug)]
pub struct Message {
    /// The number of the message in its chat.
    pub id: i32,
    /// The name of the chat, where it has one.
    pub chat_name: Option<String>,
    /// How the chat is called where it has no name.
    pub chat_label: String,
    /// When the message was sent.
    pub date: DateTime,
    /// The text of the message.
    pub text: String,
    /// What the message carries.
    pub media: Option<Media>,
}

/// What a message can carry.
#[derive(Debug)]
pub enum Media {
    /// A photo.
    Photo(Photo),
    /// A file.
    Document(Document),
    /// Something that cannot be downloaded.
    Other,
}

/// A photo.
#[derive(Debug)]
pub struct Photo {
    pub id: i64,
    pub size: Option<usize>,
}

/// A file.
#[derive(Debug)]
pub struct Document {
    pub id: i64,
    pub name: Option<String>,
    pub mime_type: Option<String>,
    pub size: Option<usize>,
    /// How long it plays, in whole seconds.
    pub duration: Option<i64>,
    /// The width and the height of its picture.
    pub resolution: Option<(i32, i32)>,
}

/// The text, empty where there is none.
pub open spec fn text_or_empty(text: Option<String>) -> Seq<char> {
    match text {
        Some(s) => s@,
        None => Seq::empty(),
    }
}

fn copy_or_empty(text: &Option<String>) -> (r: String)
    ensures
        r@ == text_or_empty(*text),
{
    match text {
        Some(s) => copy_str(s.as_str()),
        None => String::new(),
    }
}

// ── values for filters ───────────────────────────────────────────────────

/// What kind of media a message carries; empty for none.
pub fn media_type_value(msg: &Message) -> (r: String)
    ensures
        r@ == match msg.media {
            Some(Media::Photo(_)) => "photo"@,
            Some(Media::Document(_)) => "document"@,
            _ => Seq::<char>::empty(),
        },
{
    match &msg.media {
        Some(Media::Photo(_)) => copy_str("photo"),
        Some(Media::Document(_)) => copy_str("document"),
        _ => String::new(),
    }
}

/// The file extension of a message's media; empty for none.
pub fn file_extension_value(msg: &Message) -> (r: String)
    ensures
        r@ == match msg.media {
            Some(Media::Photo(_)) => "jpg"@,
            Some(Media::Document(doc)) => mime_ext(text_or_empty(doc.mime_type)),
            _ => Seq::<char>::empty(),
        },
{
    match &msg.media {
        Some(Media::Photo(_)) => copy_str("jpg"),
        Some(Media::Document(doc)) => {
            copy_str(mime_to_ext(copy_or_empty(&doc.mime_type).as_str()))
        },
        _ => String::new(),
    }
}

/// The name of the file that a message carries; empty for none.
pub fn media_file_name_value(msg: &Message) -> (r: String)
    ensures
        r@ == match msg.media {
            Some(Media::Document(doc)) => text_or_empty(doc.name),
            _ => Seq::<char>::empty(),
        },
{
    match &msg.media {
        Some(Media::Document(doc)) => copy_or_empty(&doc.name),
        _ => String::new(),
    }
}

/// The size of a message's media; zero where it is not known.
pub fn media_file_size_value(msg: &Message) -> (r: i64)
    ensures
        r == match msg.media {
            Some(media) => media_size(media) as i64,
            None => 0,
        },
{
    match &msg.media {
        Some(media) => total_size(media) as i64,
        None => 0,
    }
}

/// How many seconds a message's media plays; zero where it does not.
pub fn media_duration_value(msg: &Message) -> (r: i64)
    ensures
        r == match msg.media {
            Some(Media::Document(doc)) => match doc.duration {
                Some(secs) => secs,
                None => 0,
            },
            _ => 0,
        },
{
    match &msg.media {
        Some(Media::Document(doc)) => match doc.duration {
            Some(secs) => secs,
            None => 0,
        },
        _ => 0,
    }
}

/// The width and the height of a message's media; zero where they are not known.
pub fn media_resolution_value(msg: &Message) -> (r: (i64, i64))
    ensures
        r == match msg.media {
            Some(Media::Document(doc)) => match doc.resolution {
                Some((width, height)) => (width as i64, height as i64),
                None => (0i64, 0i64),
            },
            _ => (0i64, 0i64),
        },
{
    match &msg.media {
        Some(Media::Document(doc)) => match doc.resolution {
            Some((width, height)) => (width as i64, height as i64),
            None => (0, 0),
        },
        _ => (0, 0),
    }
}

// ── what is downloaded ───────────────────────────────────────────────────

/// The size of media in bytes; zero where it is not known.
pub open spec fn media_size(media: Media) -> u64 {
    match media {
        Media::Photo(Photo { size: Some(n), .. }) => n as u64,
        Media::Document(Document { size: Some(n), .. }) => n as u64,
        _ => 0,
    }
}

/// The size of media in bytes; zero where it is not known.
pub fn total_size(media: &Media) -> (r: u64)
    ensures
        r == media_size(*media),
{
    let size: Option<usize> = match media {
        Media::Photo(photo) => photo.size,
        Media::Document(doc) => doc.size,
        Media::Other => None,
    };
    match size {
        Some(n) => n as u64,
        None => 0,
    }
}

/// The file extension that goes with a type of data.
pub open spec fn mime_ext(mime: Seq<char>) -> Seq<char> {
    if mime == "image/jpeg"@ {
        "jpg"@
    } else if mime == "image/png"@ {
        "png"@
    } else if mime == "image/gif"@ {
        "gif"@
    } else if mime == "image/webp"@ {
        "webp"@
    } else if mime == "audio/mpeg"@ {
        "mp3"@
    } else if mime == "audio/ogg"@ {
        "ogg"@
    } else if mime == "audio/mp4"@ {
        "m4a"@
    } else if mime == "audio/x-wav"@ || mime == "audio/wav"@ {
        "wav"@
    } else if mime == "video/mp4"@ {
        "mp4"@
    } else if mime == "video/webm"@ {
        "webm"@
    } else if mime == "video/x-matroska"@ {
        "mkv"@
    } else if mime == "application/pdf"@ {
        "pdf"@
    } else if mime == "application/zip"@ {
        "zip"@
    } else if mime == "application/x-rar-compressed"@ {
        "rar"@
    } else if mime == "application/epub+zip"@ {
        "epub"@
    } else {
        "unknown"@
    }
}

/// The file extension that goes with a type of data.
pub fn mime_to_ext(mime: &str) -> (r: &'static str)
    ensures
        r@ == mime_ext(mime@),
{
    if same_text(mime, "image/jpeg") {
        "jpg"
    } else if same_text(mime, "image/png") {
        "png"
    } else if same_text(mime, "image/gif") {
        "gif"
    } else if same_text(mime, "image/webp") {
        "webp"
    } else if same_text(mime, "audio/mpeg") {
        "mp3"
    } else if same_text(mime, "audio/ogg") {
        "ogg"
    } else if same_text(mime, "audio/mp4") {
        "m4a"
    } else if same_text(mime, "audio/x-wav") || same_text(mime, "audio/wav") {
        "wav"
    } else if same_text(mime, "video/mp4") {
        "mp4"
    } else if same_text(mime, "video/webm") {
        "webm"
    } else if same_text(mime, "video/x-matroska") {
        "mkv"
    } else if same_text(mime, "application/pdf") {
        "pdf"
    } else if same_text(mime, "application/zip") {
        "zip"
    } else if same_text(mime, "application/x-rar-compressed") {
        "rar"
    } else if same_text(mime, "application/epub+zip") {
        "epub"
    } else {
        "unknown"
    }
}

/// Whether `s` starts with `head`.
pub open spec fn starts_with(s: Seq<char>, head: Seq<char>) -> bool {
    head.len() <= s.len() && s.take(head.len() as int) == head
}

fn begins_with(s: &str, head: &str) -> (r: bool)
    ensures
        r == starts_with(s@, head@),
{
    let v = to_chars(s);
    let h = to_chars(head);
    if h.len() > v.len() {
        return false;
    }
    let mut i: usize = 0;
    while i < h.len()
        invariant
            v@ == s@,
            h@ == head@,
            i <= h.len() <= v.len(),
            forall|k: int| 0 <= k < i ==> v@[k] == h@[k],
        decreases h.len() - i,
    {
        if v[i] != h[i] {
            assert(s@.take(head@.len() as int)[i as int] != head@[i as int]);
            return false;
        }
        i = i + 1;
    }
    assert(s@.take(head@.len() as int) =~= head@);
    true
}

/// The kind of a file with a type of data.
pub open spec fn kind_of_mime(mime: Seq<char>) -> Seq<char> {
    if mime == "image/gif"@ {
        "animation"@
    } else if starts_with(mime, "audio/"@) {
        "audio"@
    } else if starts_with(mime, "video/"@) {
        "video"@
    } else {
        "document"@
    }
}

/// The kind of a file with a type of data.
pub fn document_kind(mime: &str) -> (r: &'static str)
    ensures
        r@ == kind_of_mime(mime@),
{
    if same_text(mime, "image/gif") {
        "animation"
    } else if begins_with(mime, "audio/") {
        "audio"
    } else if begins_with(mime, "video/") {
        "video"
    } else {
        "document"
    }
}

/// The file extension of a document: what stands behind the last full stop of its name, or else
/// what goes with its type of data.
pub open spec fn document_ext(doc: Document) -> Seq<char> {
    match doc.name {
        Some(name) => match split_name(name@) {
            Some((_, ext)) => ext,
            None => mime_ext(text_or_empty(doc.mime_type)),
        },
        None => mime_ext(text_or_empty(doc.mime_type)),
    }
}

/// The kind and the file extension of media; `None` for what cannot be downloaded.
pub open spec fn kind_and_ext(media: Media) -> Option<(Seq<char>, Seq<char>)> {
    match media {
        Media::Photo(_) => Some(("photo"@, "jpg"@)),
        Media::Document(doc) => Some(
            (kind_of_mime(text_or_empty(doc.mime_type)), document_ext(doc)),
        ),
        Media::Other => None,
    }
}

/// The kind and the file extension of media; `None` for what cannot be downloaded.
pub fn media_kind_and_ext(media: &Media) -> (r: Option<(&'static str, String)>)
    ensures
        match r {
            Some((kind, ext)) => kind_and_ext(*media) == Some((kind@, ext@)),
            None => kind_and_ext(*media) is None,
        },
{
    match media {
        Media::Photo(_) => Some(("photo", copy_str("jpg"))),
        Media::Document(doc) => {
            let mime = copy_or_empty(&doc.mime_type);
            let named: Option<String> = match &doc.name {
                Some(name) => match split_at_last_stop(name.as_str()) {
                    Some((_, ext)) => Some(ext),
                    None => None,
                },
                None => None,
            };
            let ext = match named {
                Some(ext) => ext,
                None => copy_str(mime_to_ext(mime.as_str())),
            };
            Some((document_kind(mime.as_str()), ext))
        },
        Media::Other => None,
    }
}

/// Whether a list of file extensions lets `ext` pass: it names it, or it names them all.
pub open spec fn lets_pass(list: Seq<Seq<char>>, ext: Seq<char>) -> bool {
    list.contains("all"@) || list.contains(ext)
}

/// Whether the configuration wants media: its kind is listed, and so is its extension, for the
/// kinds that have a list.
pub open spec fn wanted(media: Media, cfg: Config) -> bool {
    match kind_and_ext(media) {
        Some((kind, ext)) => texts(cfg.media_types@).contains(kind) && (if kind == "audio"@ {
            lets_pass(texts(cfg.file_formats.audio@), ext)
        } else if kind == "document"@ {
            lets_pass(texts(cfg.file_formats.document@), ext)
        } else if kind == "video"@ {
            lets_pass(texts(cfg.file_formats.video@), ext)
        } else {
            true
        }),
        None => false,
    }
}

fn passes(list: &Vec<String>, ext: &str) -> (r: bool)
    ensures
        r == lets_pass(texts(list@), ext@),
{
    has_text(list, "all") || has_text(list, ext)
}

/// Whether the configuration wants media.
pub fn media_matches_config(media: &Media, cfg: &Config) -> (r: bool)
    ensures
        r == wanted(*media, *cfg),
{
    let (kind, ext) = match media_kind_and_ext(media) {
        Some(both) => both,
        None => return false,
    };
    if !has_text(&cfg.media_types, kind) {
        return false;
    }
    if same_text(kind, "audio") {
        passes(&cfg.file_formats.audio, ext.as_str())
    } else if same_text(kind, "document") {
        passes(&cfg.file_formats.document, ext.as_str())
    } else if same_text(kind, "video") {
        passes(&cfg.file_formats.video, ext.as_str())
    } else {
        true
    }
}

// ── laws ─────────────────────────────────────────────────────────────────

proof fn lemma_starts_with(head: Seq<char>, rest: Seq<char>)
    ensures
        starts_with(head + rest, head),
{
    assert((head + rest).take(head.len() as int) =~= head);
}

/// A file is of the kind that its type of data starts with, where that is `audio` or `video`; a
/// GIF picture is an animation, and everything else a document.
pub proof fn lemma_kind_follows_the_type(rest: Seq<char>, mime: Seq<char>)
    ensures
        kind_of_mime("audio/"@ + rest) == "audio"@,
        kind_of_mime("video/"@ + rest) == "video"@,
        kind_of_mime("image/gif"@) == "animation"@,
        mime != "image/gif"@ && !("audio/"@.is_prefix_of(mime)) && !("video/"@.is_prefix_of(mime))
            ==> kind_of_mime(mime) == "document"@,
{
    reveal_strlit("audio/");
    reveal_strlit("video/");
    reveal_strlit("image/gif");
    let a = "audio/"@ + rest;
    let v = "video/"@ + rest;
    lemma_starts_with("audio/"@, rest);
    lemma_starts_with("video/"@, rest);
    assert(a[0] == 'a' && v[0] == 'v' && "image/gif"@[0] == 'i');
    assert(v.take(6)[0] == 'v' && "audio/"@[0] == 'a');
    if starts_with(mime, "audio/"@) {
        assert("audio/"@.is_prefix_of(mime));
    }
    if starts_with(mime, "video/"@) {
        assert("video/"@.is_prefix_of(mime));
    }
}

/// Whether the list holds the text.
pub open spec fn names(list: Seq<String>, text: Seq<char>) -> bool {
    exists|i: int| 0 <= i < list.len() && (#[trigger] list[i])@ == text
}

proof fn lemma_names(list: Seq<String>, text: Seq<char>)
    ensures
        texts(list).contains(text) <==> names(list, text),
{
    if texts(list).contains(text) {
        let i = choose|i: int| 0 <= i < texts(list).len() && texts(list)[i] == text;
        assert(list[i]@ == text);
    }
    if names(list, text) {
        let i = choose|i: int| 0 <= i < list.len() && (#[trigger] list[i])@ == text;
        assert(texts(list)[i] == text);
    }
}

proof fn lemma_kinds_differ()
    ensures
        "audio"@ != "document"@,
        "audio"@ != "video"@,
        "document"@ != "video"@,
        "photo"@ != "audio"@,
        "photo"@ != "video"@,
        "photo"@ != "document"@,
        "animation"@ != "audio"@,
        "animation"@ != "video"@,
        "animation"@ != "document"@,
{
    reveal_strlit("audio");
    reveal_strlit("document");
    reveal_strlit("video");
    reveal_strlit("photo");
    reveal_strlit("animation");
    assert("audio"@[0] == 'a' && "document"@[0] == 'd' && "video"@[0] == 'v' && "photo"@[0] == 'p');
    assert("animation"@[1] == 'n' && "audio"@[1] == 'u' && "animation"@[0] == 'a');
}

/// A file with a type of data that starts with `video/` is wanted if and only if videos are, and
/// the list of videos names its extension or names them all. No other list matters.
pub proof fn lemma_videos_go_by_their_own_list(
    media: &Media,
    doc: Document,
    rest: Seq<char>,
    ext: Seq<char>,
    cfg: &Config,
    r: bool,
)
    requires
        *media == Media::Document(doc),
        doc.mime_type is Some,
        doc.mime_type->0@ == "video/"@ + rest,
        document_ext(doc) == ext,
        call_ensures(media_matches_config, (media, cfg), r),
    ensures
        r <==> names(cfg.media_types@, "video"@) && (names(cfg.file_formats.video@, ext) || names(
            cfg.file_formats.video@,
            "all"@,
        )),
{
    lemma_kind_follows_the_type(rest, rest);
    lemma_kinds_differ();
    lemma_names(cfg.media_types@, "video"@);
    lemma_names(cfg.file_formats.video@, ext);
    lemma_names(cfg.file_formats.video@, "all"@);
}

/// A file with a type of data that starts with `audio/` is wanted if and only if sounds are, and
/// the list of sounds names its extension or names them all. No other list matters.
pub proof fn lemma_sounds_go_by_their_own_list(
    media: &Media,
    doc: Document,
    rest: Seq<char>,
    ext: Seq<char>,
    cfg: &Config,
    r: bool,
)
    requires
        *media == Media::Document(doc),
        doc.mime_type is Some,
        doc.mime_type->0@ == "audio/"@ + rest,
        document_ext(doc) == ext,
        call_ensures(media_matches_config, (media, cfg), r),
    ensures
        r <==> names(cfg.media_types@, "audio"@) && (names(cfg.file_formats.audio@, ext) || names(
            cfg.file_formats.audio@,
            "all"@,
        )),
{
    lemma_kind_follows_the_type(rest, rest);
    lemma_kinds_differ();
    lemma_names(cfg.media_types@, "audio"@);
    lemma_names(cfg.file_formats.audio@, ext);
    lemma_names(cfg.file_formats.audio@, "all"@);
}

/// A file that is no sound, no video and no animation is wanted if and only if documents are, and
/// the list of documents names its extension or names them all. No other list matters.
pub proof fn lemma_documents_go_by_their_own_list(
    media: &Media,
    doc: Document,
    ext: Seq<char>,
    cfg: &Config,
    r: bool,
)
    requires
        *media == Media::Document(doc),
        match doc.mime_type {
            Some(mime) => mime@ != "image/gif"@ && !("audio/"@.is_prefix_of(mime@)) && !(
            "video/"@.is_prefix_of(mime@)),
            None => true,
        },
        document_ext(doc) == ext,
        call_ensures(media_matches_config, (media, cfg), r),
    ensures
        r <==> names(cfg.media_types@, "document"@) && (names(cfg.file_formats.document@, ext)
            || names(cfg.file_formats.document@, "all"@)),
{
    let mime = text_or_empty(doc.mime_type);
    reveal_strlit("image/gif");
    reveal_strlit("audio/");
    reveal_strlit("video/");
    assert("image/gif"@.len() == 9 && "audio/"@.len() == 6 && "video/"@.len() == 6);
    lemma_kind_follows_the_type(mime, mime);
    lemma_kinds_differ();
    lemma_names(cfg.media_types@, "document"@);
    lemma_names(cfg.file_formats.document@, ext);
    lemma_names(cfg.file_formats.document@, "all"@);
}

/// Photos and animations are wanted if and only if their kind is: no list of extensions is asked.
/// What cannot be downloaded is never wanted.
pub proof fn lemma_photos_have_no_list(media: &Media, cfg: &Config, r: bool)
    requires
        call_ensures(media_matches_config, (media, cfg), r),
    ensures
        media is Photo ==> (r <==> names(cfg.media_types@, "photo"@)),
        media is Other ==> !r,
        match *media {
            Media::Document(doc) => doc.mime_type is Some && doc.mime_type->0@ == "image/gif"@ ==> (
            r <==> names(cfg.media_types@, "animation"@)),
            _ => true,
        },
{
    lemma_kinds_differ();
    lemma_kind_follows_the_type(Seq::empty(), Seq::empty());
    lemma_names(cfg.media_types@, "photo"@);
    lemma_names(cfg.media_types@, "animation"@);
}

/// Media is wanted or not by its kind and its extension alone: its number, its size and all else
/// do not matter, nor does anything of the configuration but its kinds and its lists.
pub proof fn lemma_wanted_by_kind_and_extension(
    media: &Media,
    other: &Media,
    a: &Config,
    b: &Config,
    r: bool,
    s: bool,
)
    requires
        kind_and_ext(*media) == kind_and_ext(*other),
        texts(a.media_types@) == texts(b.media_types@),
        texts(a.file_formats.audio@) == texts(b.file_formats.audio@),
        texts(a.file_formats.document@) == texts(b.file_formats.document@),
        texts(a.file_formats.video@) == texts(b.file_formats.video@),
        call_ensures(media_matches_config, (media, a), r),
        call_ensures(media_matches_config, (other, b), s),
    ensures
        r == s,
{
}

/// The extension of a document is what stands behind the last full stop of its name, whatever its
/// type of data; a name without a full stop, and no name, leave it to the type.
pub proof fn lemma_extension_comes_from_the_name(doc: Document, stem: Seq<char>, ext: Seq<char>)
    requires
        !ext.contains('.'),
    ensures
        doc.name is Some && doc.name->0@ == stem + "."@ + ext ==> document_ext(doc) == ext,
        doc.name is None || !doc.name->0@.contains('.') ==> document_ext(doc) == mime_ext(
            text_or_empty(doc.mime_type),
        ),
{
    lemma_extension_is_split_off(stem, ext);
    if doc.name is Some {
        lemma_split_at_the_last_stop(doc.name->0@);
        if let Some((a, b)) = split_name(doc.name->0@) {
            reveal_strlit(".");
            let name = doc.name->0@;
            assert(name[a.len() as int] == '.');
        }
    }
}

/// The types of data whose extension is the second half of their name.
pub open spec fn named_by_subtype(major: Seq<char>, minor: Seq<char>) -> bool {
    ||| major == "image/"@ && (minor == "png"@ || minor == "gif"@ || minor == "webp"@)
    ||| major == "audio/"@ && (minor == "ogg"@ || minor == "wav"@)
    ||| major == "video/"@ && (minor == "mp4"@ || minor == "webm"@)
    ||| major == "application/"@ && (minor == "pdf"@ || minor == "zip"@)
}

/// Most known types of data have the second half of their name as extension.
pub proof fn lemma_extension_is_the_subtype(major: Seq<char>, minor: Seq<char>)
    requires
        named_by_subtype(major, minor),
    ensures
        mime_ext(major + minor) == minor,
{
    let mime = major + minor;
    reveal_strlit("image/");
    reveal_strlit("audio/");
    reveal_strlit("video/");
    reveal_strlit("application/");
    reveal_strlit("png");
    reveal_strlit("gif");
    reveal_strlit("webp");
    reveal_strlit("ogg");
    reveal_strlit("wav");
    reveal_strlit("mp4");
    reveal_strlit("webm");
    reveal_strlit("pdf");
    reveal_strlit("zip");
    lemma_types_differ();
    reveal_strlit("image/png");
    reveal_strlit("image/gif");
    reveal_strlit("image/webp");
    reveal_strlit("audio/ogg");
    reveal_strlit("audio/wav");
    reveal_strlit("video/mp4");
    reveal_strlit("video/webm");
    reveal_strlit("application/pdf");
    reveal_strlit("application/zip");
    assert("image/"@[0] == 'i' && "audio/"@[0] == 'a' && "video/"@[0] == 'v');
    assert("application/"@.len() == 12 && "image/"@.len() == 6 && "audio/"@.len() == 6
        && "video/"@.len() == 6);
    if major == "image/"@ {
        if minor == "png"@ {
            assert(mime =~= "image/png"@);
        } else if minor == "gif"@ {
            assert(mime =~= "image/gif"@);
        } else {
            assert(mime =~= "image/webp"@);
        }
    } else if major == "audio/"@ {
        if minor == "ogg"@ {
            assert(mime =~= "audio/ogg"@);
        } else {
            assert(mime =~= "audio/wav"@);
        }
    } else if major == "video/"@ {
        if minor == "mp4"@ {
            assert(mime =~= "video/mp4"@);
        } else {
            assert(mime =~= "video/webm"@);
        }
    } else {
        if minor == "pdf"@ {
            assert(mime =~= "application/pdf"@);
        } else {
            assert(mime =~= "application/zip"@);
        }
    }
}

/// The types of data are told apart by their length and some of their characters.
proof fn lemma_types_differ()
    ensures
        "image/jpeg"@.len() == 10 && "image/jpeg"@[6] == 'j',
        "image/png"@.len() == 9 && "image/png"@[6] == 'p',
        "image/gif"@.len() == 9 && "image/gif"@[6] == 'g',
        "image/webp"@.len() == 10 && "image/webp"@[6] == 'w',
        "audio/mpeg"@.len() == 10 && "audio/mpeg"@[6] == 'm' && "audio/mpeg"@[0] == 'a',
        "audio/ogg"@.len() == 9 && "audio/ogg"@[6] == 'o',
        "audio/mp4"@.len() == 9 && "audio/mp4"@[6] == 'm' && "audio/mp4"@[0] == 'a',
        "audio/x-wav"@.len() == 11,
        "audio/wav"@.len() == 9 && "audio/wav"@[6] == 'w' && "audio/wav"@[0] == 'a',
        "video/mp4"@.len() == 9 && "video/mp4"@[0] == 'v',
        "video/webm"@.len() == 10 && "video/webm"@[0] == 'v' && "video/webm"@[6] == 'w',
        "video/x-matroska"@.len() == 16,
        "application/pdf"@.len() == 15 && "application/pdf"@[12] == 'p',
        "application/zip"@.len() == 15 && "application/zip"@[12] == 'z',
        "application/x-rar-compressed"@.len() == 28,
        "application/epub+zip"@.len() == 20,
        "image/png"@[0] == 'i' && "image/webp"@[0] == 'i' && "image/jpeg"@[0] == 'i',
{
    reveal_strlit("image/jpeg");
    reveal_strlit("image/png");
    reveal_strlit("image/gif");
    reveal_strlit("image/webp");
    reveal_strlit("audio/mpeg");
    reveal_strlit("audio/ogg");
    reveal_strlit("audio/mp4");
    reveal_strlit("audio/x-wav");
    reveal_strlit("audio/wav");
    reveal_strlit("video/mp4");
    reveal_strlit("video/webm");
    reveal_strlit("video/x-matroska");
    reveal_strlit("application/pdf");
    reveal_strlit("application/zip");
    reveal_strlit("application/x-rar-compressed");
    reveal_strlit("application/epub+zip");
}

/// The other known types of data have an extension of their own, and the unknown ones share one.
pub proof fn lemma_other_types_have_their_own_extension(mime: Seq<char>)
    ensures
        mime_ext("image/jpeg"@) == "jpg"@,
        mime_ext("audio/mpeg"@) == "mp3"@,
        mime_ext("audio/mp4"@) == "m4a"@,
        mime_ext("audio/x-wav"@) == mime_ext("audio/wav"@),
        mime_ext("video/x-matroska"@) == "mkv"@,
        mime_ext("application/x-rar-compressed"@) == "rar"@,
        mime_ext("application/epub+zip"@) == "epub"@,
        ({
            ||| mime == "image/jpeg"@ || mime == "image/png"@ || mime == "image/gif"@
            ||| mime == "image/webp"@ || mime == "audio/mpeg"@ || mime == "audio/ogg"@
            ||| mime == "audio/mp4"@ || mime == "audio/x-wav"@ || mime == "audio/wav"@
            ||| mime == "video/mp4"@ || mime == "video/webm"@ || mime == "video/x-matroska"@
            ||| mime == "application/pdf"@ || mime == "application/zip"@
            ||| mime == "application/x-rar-compressed"@ || mime == "application/epub+zip"@
            ||| mime_ext(mime) == "unknown"@
        }),
{
    lemma_types_differ();
}

/// The values that a filter goes by are those of the message's own media: a photo is a `photo` in
/// `jpg` without a name, a document a `document` with its own name, and a message without media
/// has none of them.
pub proof fn lemma_values_of_media(
    msg: &Message,
    kind: String,
    ext: String,
    name: String,
    size: i64,
    secs: i64,
    dims: (i64, i64),
)
    requires
        call_ensures(media_type_value, (msg,), kind),
        call_ensures(file_extension_value, (msg,), ext),
        call_ensures(media_file_name_value, (msg,), name),
        call_ensures(media_file_size_value, (msg,), size),
        call_ensures(media_duration_value, (msg,), secs),
        call_ensures(media_resolution_value, (msg,), dims),
    ensures
        match msg.media {
            None => kind@.len() == 0 && ext@.len() == 0 && name@.len() == 0 && size == 0 && secs
                == 0 && dims == (0i64, 0i64),
            Some(Media::Photo(photo)) => {
                &&& kind@ == "photo"@
                &&& ext@ == "jpg"@
                &&& name@.len() == 0
                &&& photo.size matches Some(n) ==> (n <= i64::MAX ==> size == n)
                &&& photo.size is None ==> size == 0
                &&& secs == 0
            },
            Some(Media::Document(doc)) => {
                &&& kind@ == "document"@
                &&& doc.mime_type matches Some(mime) ==> ext@ == mime_ext(mime@)
                &&& doc.name matches Some(text) ==> name@ == text@
                &&& doc.name is None ==> name@.len() == 0
                &&& doc.size matches Some(n) ==> (n <= i64::MAX ==> size == n)
                &&& doc.size is None ==> size == 0
                &&& doc.duration matches Some(n) ==> secs == n
                &&& doc.duration is None ==> secs == 0
                &&& doc.resolution matches Some((w, h)) ==> dims.0 == w && dims.1 == h
                &&& doc.resolution is None ==> dims == (0i64, 0i64)
            },
            Some(Media::Other) => kind@.len() == 0 && ext@.len() == 0 && name@.len() == 0 && size
                == 0,
        },
{
}

/// The size of media is the one that it came with, and zero where it came with none.
pub proof fn lemma_size_is_the_media_s_own(media: &Media, r: u64)
    requires
        call_ensures(total_size, (media,), r),
    ensures
        match *media {
            Media::Photo(photo) => match photo.size {
                Some(n) => r == n,
                None => r == 0,
            },
            Media::Document(doc) => match doc.size {
                Some(n) => r == n,
                None => r == 0,
            },
            Media::Other => r == 0,
        },
{
}

} // verus!
