//! The state that is kept between runs.

use rustc_hash::{FxHashMap, FxHashSet};

use vstd::prelude::*;
use vstd::seq_lib::seq_to_set_is_finite;

use crate::config::{AppData, ChatConfig, ChatData, Config};
use crate::downloader::finalize::FileIds;
use crate::fx::{
    insert_list, list_map, list_under, no_lists, number_set, numbers_in, remove_list,
    texts_with_lists,
};
use crate::text::{copy_str, same_text, text_le, text_lt, texts};

verus! {

// ── sorting ──────────────────────────────────────────────────────────────

/// Whether the texts are in order.
pub open spec fn in_text_order(s: Seq<Seq<char>>) -> bool {
    forall|i: int, j: int| 0 <= i < j < s.len() ==> text_le(#[trigger] s[i], #[trigger] s[j])
}

/// Whether the numbers are in order.
pub open spec fn in_number_order(s: Seq<i32>) -> bool {
    forall|i: int, j: int| 0 <= i < j < s.len() ==> #[trigger] s[i] <= #[trigger] s[j]
}

/// `<[T]>::sort` on strings, which are ordered by their characters: the same texts, each as often
/// as before, in order.
#[verifier::external_body]
fn sort_texts(v: &mut Vec<String>)
    ensures
        in_text_order(texts(final(v)@)),
        texts(final(v)@).to_multiset() == texts(old(v)@).to_multiset(),
{
    v.sort();
}

/// `<[T]>::sort_unstable` on numbers: the same numbers, each as often as before, in order.
#[verifier::external_body]
fn sort_numbers(v: &mut Vec<i32>)
    ensures
        in_number_order(final(v)@),
        final(v)@.to_multiset() == old(v)@.to_multiset(),
{
    v.sort_unstable();
}

proof fn lemma_same_members<A>(a: Seq<A>, b: Seq<A>)
    requires
        a.to_multiset() == b.to_multiset(),
        a.no_duplicates(),
    ensures
        b.no_duplicates(),
        b.to_set() == a.to_set(),
{
    broadcast use vstd::seq_lib::group_to_multiset_ensures;

    assert forall|x: A| a.to_set().contains(x) <==> b.to_set().contains(x) by {
        assert(a.contains(x) <==> a.to_multiset().count(x) > 0);
        assert(b.contains(x) <==> b.to_multiset().count(x) > 0);
    }
    assert(b.to_set() =~= a.to_set());
    a.lemma_multiset_has_no_duplicates();
    b.lemma_multiset_has_no_duplicates_conv();
}

// ── what is to be tried again ────────────────────────────────────────────

/// The messages that are to be tried again, by the chat that they belong to.
#[derive(Debug)]
pub struct ChatTable {
    chats: FxHashMap<String, Vec<i32>>,
}

impl View for ChatTable {
    type V = Map<Seq<char>, Seq<i32>>;

    closed spec fn view(&self) -> Map<Seq<char>, Seq<i32>> {
        list_map(self.chats)
    }
}

/// The table that the entries make, a later one of a chat in place of an earlier one.
pub open spec fn table_of(chats: Seq<ChatData>) -> Map<Seq<char>, Seq<i32>>
    decreases chats.len(),
{
    if chats.len() == 0 {
        Map::empty()
    } else {
        table_of(chats.drop_last()).insert(chats.last().chat_id@, chats.last().ids_to_retry@)
    }
}

fn copy_numbers(v: &Vec<i32>) -> (r: Vec<i32>)
    ensures
        r@ == v@,
{
    let mut r: Vec<i32> = Vec::new();
    let mut i: usize = 0;
    while i < v.len()
        invariant
            i <= v.len(),
            r@ == v@.take(i as int),
        decreases v.len() - i,
    {
        r.push(v[i]);
        assert(r@ =~= v@.take(i + 1));
        i = i + 1;
    }
    assert(v@.take(i as int) =~= v@);
    r
}

impl ChatTable {
    /// Nothing to try again.
    pub fn new() -> (r: ChatTable)
        ensures
            r@ == Map::<Seq<char>, Seq<i32>>::empty(),
    {
        let r = ChatTable { chats: no_lists() };
        assert(r@ =~= Map::<Seq<char>, Seq<i32>>::empty());
        r
    }

    /// The table that the entries make, a later one of a chat in place of an earlier one.
    pub fn from_list(chats: &Vec<ChatData>) -> (r: ChatTable)
        ensures
            r@ == table_of(chats@),
            r@.dom().finite(),
    {
        let mut r = ChatTable::new();
        let mut i: usize = 0;
        assert(chats@.take(0) =~= Seq::<ChatData>::empty());
        while i < chats.len()
            invariant
                i <= chats.len(),
                r@ == table_of(chats@.take(i as int)),
                r@.dom().finite(),
            decreases chats.len() - i,
        {
            assert(chats@.take(i + 1).drop_last() =~= chats@.take(i as int));
            let id = copy_str(chats[i].chat_id.as_str());
            insert_list(&mut r.chats, id, copy_numbers(&chats[i].ids_to_retry));
            i = i + 1;
        }
        assert(chats@.take(i as int) =~= chats@);
        r
    }

    /// How many messages of a chat are to be tried again.
    pub fn retry_count(&self, chat_id: &str) -> (r: usize)
        ensures
            r == retries_of(self@, chat_id@),
    {
        match list_under(&self.chats, chat_id) {
            Some(ids) => ids.len(),
            None => 0,
        }
    }

    /// The messages of a chat that are to be tried again.
    pub fn retry_ids(&self, chat_id: &str) -> (r: Option<Vec<i32>>)
        ensures
            r is Some <==> self@.contains_key(chat_id@),
            r matches Some(ids) ==> ids@ == self@[chat_id@],
    {
        match list_under(&self.chats, chat_id) {
            Some(ids) => Some(copy_numbers(ids)),
            None => None,
        }
    }

    /// The chats, in order.
    fn sorted_ids(&self) -> (r: Vec<String>)
        ensures
            in_text_order(texts(r@)),
            texts(r@).no_duplicates(),
            texts(r@).to_set() == self@.dom(),
    {
        let mut ids = texts_with_lists(&self.chats);
        let ghost before = texts(ids@);
        sort_texts(&mut ids);
        proof {
            lemma_same_members(before, texts(ids@));
        }
        ids
    }
}

/// How many messages of a chat are to be tried again.
pub open spec fn retries_of(table: Map<Seq<char>, Seq<i32>>, chat_id: Seq<char>) -> nat {
    if table.contains_key(chat_id) {
        table[chat_id].len()
    } else {
        0
    }
}

/// Whether a list holds each number of a set once, in order.
pub open spec fn lists(list: Seq<i32>, numbers: Set<i32>) -> bool {
    &&& in_number_order(list)
    &&& list.no_duplicates()
    &&& list.to_set() == numbers
}

/// Puts the messages that failed in a scan of a chat in place of those that the table holds for
/// it: each once, in order. A chat with none is taken out of the table.
pub fn sync_retry_set(data_chats: &mut ChatTable, chat_id: &str, live_retry: &FxHashSet<i32>)
    ensures
        if number_set(*live_retry) == Set::<i32>::empty() {
            final(data_chats)@ == old(data_chats)@.remove(chat_id@)
        } else {
            exists|list: Seq<i32>| #[trigger]
                lists(list, number_set(*live_retry)) && final(data_chats)@ == old(
                    data_chats,
                )@.insert(chat_id@, list)
        },
{
    let mut retry = numbers_in(live_retry);
    let ghost before = retry@;
    sort_numbers(&mut retry);
    proof {
        lemma_same_members(before, retry@);
    }
    if retry.len() == 0 {
        assert(retry@.to_set() =~= Set::<i32>::empty());
        remove_list(&mut data_chats.chats, chat_id);
    } else {
        assert(retry@.to_set().contains(retry@[0]));
        assert(lists(retry@, number_set(*live_retry)));
        insert_list(&mut data_chats.chats, copy_str(chat_id), retry);
    }
}

/// There is one list only that holds each number of a set once, in order.
pub proof fn lemma_list_is_unique(a: Seq<i32>, b: Seq<i32>, numbers: Set<i32>)
    requires
        lists(a, numbers),
        lists(b, numbers),
    ensures
        a == b,
    decreases a.len(),
{
    a.unique_seq_to_set();
    b.unique_seq_to_set();
    if a.len() == 0 {
        assert(a =~= b);
    } else {
        let x = a.last();
        let y = b.last();
        assert(a.to_set().contains(x) && b.to_set().contains(y));
        assert(b.contains(x));
        assert(a.contains(y));
        assert(x == y);
        let c = a.drop_last();
        let d = b.drop_last();
        assert(c.to_set() =~= numbers.remove(x)) by {
            lemma_drop_last_set(a);
        }
        assert(d.to_set() =~= numbers.remove(x)) by {
            lemma_drop_last_set(b);
        }
        lemma_list_is_unique(c, d, numbers.remove(x));
        assert(a =~= c.push(x));
        assert(b =~= d.push(x));
    }
}

proof fn lemma_drop_last_set(a: Seq<i32>)
    requires
        a.len() > 0,
        a.no_duplicates(),
    ensures
        a.drop_last().to_set() == a.to_set().remove(a.last()),
{
    let c = a.drop_last();
    assert forall|v: i32| c.to_set().contains(v) <==> a.to_set().remove(a.last()).contains(v) by {
        if c.to_set().contains(v) {
            let k = choose|k: int| 0 <= k < c.len() && c[k] == v;
            assert(a[k] == v);
        }
        if a.to_set().contains(v) && v != a.last() {
            let k = choose|k: int| 0 <= k < a.len() && a[k] == v;
            assert(c[k] == v);
        }
    }
    assert(c.to_set() =~= a.to_set().remove(a.last()));
}

// ── what is saved ────────────────────────────────────────────────────────

/// The chats that some entries belong to.
pub open spec fn chats_of(entries: Seq<ChatData>) -> Seq<Seq<char>> {
    entries.map_values(|d: ChatData| d.chat_id@)
}

/// Whether `data` is what is saved of the files and the table: the files and the entries each
/// once, in order.
pub open spec fn saves(data: AppData, files: Set<Seq<char>>, table: Map<Seq<char>, Seq<i32>>) -> bool {
    &&& in_text_order(texts(data.downloaded_file_ids@))
    &&& texts(data.downloaded_file_ids@).no_duplicates()
    &&& texts(data.downloaded_file_ids@).to_set() == files
    &&& in_text_order(chats_of(data.chat@))
    &&& chats_of(data.chat@).no_duplicates()
    &&& chats_of(data.chat@).to_set() == table.dom()
    &&& forall|i: int|
        0 <= i < data.chat@.len() ==> (#[trigger] data.chat@[i]).ids_to_retry@
            == table[data.chat@[i].chat_id@]
}

/// What is saved of the files and the table.
pub fn persist_state(file_ids: &FileIds, data_chats: &ChatTable) -> (r: AppData)
    ensures
        saves(r, file_ids@, data_chats@),
{
    let mut files = file_ids.list();
    let ghost unsorted = texts(files@);
    sort_texts(&mut files);
    proof {
        lemma_same_members(unsorted, texts(files@));
    }
    let ids = data_chats.sorted_ids();
    let mut chat: Vec<ChatData> = Vec::new();
    let mut i: usize = 0;
    while i < ids.len()
        invariant
            i <= ids.len(),
            texts(ids@).to_set() == data_chats@.dom(),
            chats_of(chat@) == texts(ids@).take(i as int),
            forall|k: int|
                0 <= k < chat@.len() ==> (#[trigger] chat@[k]).ids_to_retry@
                    == data_chats@[chat@[k].chat_id@],
        decreases ids.len() - i,
    {
        let ghost before = chats_of(chat@);
        assert(texts(ids@).to_set().contains(texts(ids@)[i as int]));
        if let Some(ids_to_retry) = data_chats.retry_ids(ids[i].as_str()) {
            chat.push(ChatData { chat_id: copy_str(ids[i].as_str()), ids_to_retry });
        }
        assert(chats_of(chat@) =~= before.push(ids@[i as int]@));
        assert(chats_of(chat@) =~= texts(ids@).take(i + 1));
        i = i + 1;
    }
    assert(texts(ids@).take(i as int) =~= texts(ids@));
    AppData { chat, downloaded_file_ids: files }
}

/// What is saved is read back as it was: the same files, and the same messages to try again.
pub proof fn lemma_saved_state_is_read_back(
    data: AppData,
    files: Set<Seq<char>>,
    table: Map<Seq<char>, Seq<i32>>,
)
    requires
        saves(data, files, table),
    ensures
        texts(data.downloaded_file_ids@).to_set() == files,
        table_of(data.chat@) == table,
{
    lemma_table_of_distinct(data.chat@);
    let made = table_of(data.chat@);
    assert(made.dom() =~= table.dom());
    assert forall|k: Seq<char>| table.contains_key(k) implies made[k] == table[k] by {
        assert(chats_of(data.chat@).to_set().contains(k));
        let i = choose|i: int| 0 <= i < chats_of(data.chat@).len() && chats_of(data.chat@)[i] == k;
        assert(data.chat@[i].chat_id@ == k);
    }
    assert(made =~= table);
}

proof fn lemma_table_of_distinct(chats: Seq<ChatData>)
    requires
        chats_of(chats).no_duplicates(),
    ensures
        table_of(chats).dom() == chats_of(chats).to_set(),
        forall|i: int|
            0 <= i < chats.len() ==> table_of(chats)[(#[trigger] chats[i]).chat_id@]
                == chats[i].ids_to_retry@,
    decreases chats.len(),
{
    let names = chats_of(chats);
    if chats.len() == 0 {
        assert(table_of(chats).dom() =~= names.to_set());
    } else {
        let fewer = chats.drop_last();
        assert(chats_of(fewer) =~= names.drop_last());
        lemma_table_of_distinct(fewer);
        assert(table_of(chats).dom() =~= names.to_set()) by {
            assert forall|k: Seq<char>| table_of(chats).dom().contains(k) <==> names.to_set().contains(
                k,
            ) by {
                if table_of(fewer).dom().contains(k) {
                    let i = choose|i: int| 0 <= i < chats_of(fewer).len() && chats_of(fewer)[i] == k;
                    assert(names[i] == k);
                }
                if names.to_set().contains(k) {
                    let i = choose|i: int| 0 <= i < names.len() && names[i] == k;
                    if i < fewer.len() {
                        assert(chats_of(fewer)[i] == k);
                    }
                }
                assert(names[chats.len() - 1] == chats.last().chat_id@);
            }
        }
        assert forall|i: int| 0 <= i < chats.len() implies table_of(chats)[(
        #[trigger] chats[i]).chat_id@] == chats[i].ids_to_retry@ by {
            if i < fewer.len() {
                assert(fewer[i] == chats[i]);
                assert(names[i] != names[chats.len() - 1]);
            }
        }
    }
}

// ── how far chats are read ───────────────────────────────────────────────

/// The larger of two numbers.
pub open spec fn larger(a: i32, b: i32) -> i32 {
    if a < b {
        b
    } else {
        a
    }
}

/// Whether `after` is `before` with the first entry of a chat read up to `last_read`, unless it
/// was read further.
pub open spec fn read_up_to(
    before: Seq<ChatConfig>,
    after: Seq<ChatConfig>,
    chat_id: Seq<char>,
    last_read: i32,
) -> bool {
    &&& after.len() == before.len()
    &&& forall|i: int|
        0 <= i < before.len() ==> {
            let first = before[i].chat_id@ == chat_id && forall|k: int|
                0 <= k < i ==> (#[trigger] before[k]).chat_id@ != chat_id;
            &&& (#[trigger] after[i]).chat_id == before[i].chat_id
            &&& after[i].download_filter == before[i].download_filter
            &&& after[i].last_read_message_id == if first {
                larger(before[i].last_read_message_id, last_read)
            } else {
                before[i].last_read_message_id
            }
        }
}

/// Whether two configurations differ in their chats at most.
pub open spec fn same_but_chats(a: Config, b: Config) -> bool {
    a == (Config { chat: a.chat, ..b })
}

/// Notes that a chat was read up to `last_read`; how far a chat was read never goes back.
pub fn update_chat_state(cfg: &mut Config, chat_cfg: &ChatConfig, last_read: i32)
    ensures
        read_up_to(old(cfg).chat@, final(cfg).chat@, chat_cfg.chat_id@, last_read),
        same_but_chats(*final(cfg), *old(cfg)),
{
    let mut i: usize = 0;
    while i < cfg.chat.len()
        invariant
            *cfg == *old(cfg),
            i <= cfg.chat.len(),
            forall|k: int|
                0 <= k < i ==> (#[trigger] old(cfg).chat@[k]).chat_id@ != chat_cfg.chat_id@,
        decreases cfg.chat.len() - i,
    {
        if same_text(cfg.chat[i].chat_id.as_str(), chat_cfg.chat_id.as_str()) {
            if cfg.chat[i].last_read_message_id < last_read {
                cfg.chat[i].last_read_message_id = last_read;
            }
            return;
        }
        i = i + 1;
    }
}

/// How far a chat was read never goes back.
pub proof fn lemma_reading_never_goes_back(
    before: Seq<ChatConfig>,
    after: Seq<ChatConfig>,
    chat_id: Seq<char>,
    last_read: i32,
    i: int,
)
    requires
        read_up_to(before, after, chat_id, last_read),
        0 <= i < before.len(),
    ensures
        after[i].last_read_message_id >= before[i].last_read_message_id,
{
    assert(after[i].chat_id == before[i].chat_id);
}

// ── how much is to be tried again ────────────────────────────────────────

/// How many messages are to be tried again in all chats.
pub open spec fn total_retries(table: Map<Seq<char>, Seq<i32>>) -> nat
    decreases table.dom().len(),
{
    if table.dom().finite() && table.dom().len() > 0 {
        let k = table.dom().choose();
        table[k].len() + total_retries(table.remove(k))
    } else {
        0
    }
}

proof fn lemma_total_retries(table: Map<Seq<char>, Seq<i32>>, k: Seq<char>)
    requires
        table.dom().finite(),
        table.contains_key(k),
    ensures
        total_retries(table) == table[k].len() + total_retries(table.remove(k)),
    decreases table.dom().len(),
{
    assert(table.dom().len() > 0) by {
        assert(table.dom().remove(k).len() + 1 == table.dom().len());
    }
    let c = table.dom().choose();
    assert(table.dom().contains(c));
    if c != k {
        lemma_total_retries(table.remove(c), k);
        lemma_total_retries(table.remove(k), c);
        assert(table.remove(c).remove(k) =~= table.remove(k).remove(c));
    }
}

impl ChatTable {
    /// How many messages are to be tried again in all chats.
    pub fn pending(&self) -> (r: u128)
        ensures
            r == total_retries(self@),
    {
        let ids = texts_with_lists(&self.chats);
        proof {
            seq_to_set_is_finite(texts(ids@));
            assert(texts(ids@).skip(0) =~= texts(ids@));
            assert forall|k: Seq<char>| self@.contains_key(k) <==> texts(ids@).skip(0).contains(
                k,
            ) by {
                assert(texts(ids@).to_set().contains(k) <==> texts(ids@).contains(k));
            }
        }
        let mut sum: u128 = 0;
        let mut i: usize = 0;
        let ghost mut left = self@;
        while i < ids.len()
            invariant
                i <= ids.len(),
                left.dom().finite(),
                left.submap_of(self@),
                texts(ids@).no_duplicates(),
                forall|k: Seq<char>| #[trigger]
                    left.contains_key(k) <==> texts(ids@).skip(i as int).contains(k),
                sum + total_retries(left) == total_retries(self@),
                texts(ids@).to_set() == self@.dom(),
                sum <= i * usize::MAX,
            decreases ids.len() - i,
        {
            let ghost rest = texts(ids@).skip(i as int);
            let ghost k = ids@[i as int]@;
            proof {
                assert(rest[0] == k);
                assert(rest.contains(k));
                lemma_total_retries(left, k);
                assert(texts(ids@).to_set().contains(texts(ids@)[i as int]));
                assert(self@[k] == left[k]);
                let next = texts(ids@).skip(i + 1);
                assert forall|x: Seq<char>| left.remove(k).contains_key(x) <==> next.contains(x) by {
                    if next.contains(x) {
                        let j = choose|j: int| 0 <= j < next.len() && next[j] == x;
                        assert(rest[j + 1] == x);
                        assert(texts(ids@)[i + 1 + j] == x);
                        assert(texts(ids@)[i as int] == k);
                    }
                    if rest.contains(x) && x != k {
                        let j = choose|j: int| 0 <= j < rest.len() && rest[j] == x;
                        assert(next[j - 1] == x);
                    }
                }
                left = left.remove(k);
                assert((i + 1) * usize::MAX == i * usize::MAX + usize::MAX) by (nonlinear_arith);
                assert((i + 1) * usize::MAX <= usize::MAX * usize::MAX) by (nonlinear_arith)
                    requires
                        i + 1 <= usize::MAX,
                ;
                assert(usize::MAX * usize::MAX <= u128::MAX) by (nonlinear_arith)
                    requires
                        usize::MAX <= 0xffff_ffff_ffff_ffff,
                ;
            }
            let n: usize = self.retry_count(ids[i].as_str());
            sum = sum + n as u128;
            i = i + 1;
        }
        proof {
            assert(texts(ids@).skip(i as int) =~= Seq::<Seq<char>>::empty());
            assert forall|k: Seq<char>| !left.dom().contains(k) by {
                assert(left.contains_key(k) <==> texts(ids@).skip(i as int).contains(k));
            }
            assert(left.dom() =~= Set::<Seq<char>>::empty());
        }
        sum
    }
}

/// Of the entries of a chat the last one counts.
pub proof fn lemma_last_entry_counts(chats: &Vec<ChatData>, r: ChatTable, i: int)
    requires
        call_ensures(ChatTable::from_list, (chats,), r),
        0 <= i < chats@.len(),
        forall|k: int| i < k < chats@.len() ==> (#[trigger] chats@[k]).chat_id@ != chats@[i].chat_id@,
    ensures
        r@.contains_key(chats@[i].chat_id@),
        r@[chats@[i].chat_id@] == chats@[i].ids_to_retry@,
{
    lemma_table_holds_last(chats@, i);
}

proof fn lemma_table_holds_last(chats: Seq<ChatData>, i: int)
    requires
        0 <= i < chats.len(),
        forall|k: int| i < k < chats.len() ==> (#[trigger] chats[k]).chat_id@ != chats[i].chat_id@,
    ensures
        table_of(chats).contains_key(chats[i].chat_id@),
        table_of(chats)[chats[i].chat_id@] == chats[i].ids_to_retry@,
    decreases chats.len(),
{
    if i < chats.len() - 1 {
        let fewer = chats.drop_last();
        assert forall|k: int| i < k < fewer.len() implies (#[trigger] fewer[k]).chat_id@
            != fewer[i].chat_id@ by {
            assert(fewer[k] == chats[k]);
        }
        assert(fewer[i] == chats[i]);
        lemma_table_holds_last(fewer, i);
        assert(chats[chats.len() - 1].chat_id@ != chats[i].chat_id@);
    }
}

/// A table holds the chats of its entries and no others.
pub proof fn lemma_table_holds_no_more(chats: Seq<ChatData>, id: Seq<char>)
    requires
        forall|k: int| 0 <= k < chats.len() ==> (#[trigger] chats[k]).chat_id@ != id,
    ensures
        !table_of(chats).contains_key(id),
    decreases chats.len(),
{
    if chats.len() > 0 {
        let fewer = chats.drop_last();
        assert forall|k: int| 0 <= k < fewer.len() implies (#[trigger] fewer[k]).chat_id@ != id by {
            assert(fewer[k] == chats[k]);
        }
        assert(chats[chats.len() - 1].chat_id@ != id);
        lemma_table_holds_no_more(fewer, id);
    }
}

/// The messages that failed in a scan of a chat are those that the table holds for it afterwards:
/// each of them, once, from the least to the greatest, and no others. The other chats keep theirs.
pub proof fn lemma_failed_messages_are_kept(
    table: &mut ChatTable,
    chat_id: &str,
    live: &FxHashSet<i32>,
    n: i32,
    other: Seq<char>,
)
    requires
        call_ensures(sync_retry_set, (table, chat_id, live), ()),
        other != chat_id@,
    ensures
        final(table)@.contains_key(chat_id@) <==> number_set(*live) != Set::<i32>::empty(),
        final(table)@.contains_key(chat_id@) ==> {
            let list = final(table)@[chat_id@];
            &&& list.contains(n) <==> number_set(*live).contains(n)
            &&& forall|i: int, j: int|
                0 <= i < j < list.len() ==> #[trigger] list[i] < #[trigger] list[j]
        },
        final(table)@.contains_key(other) <==> old(table)@.contains_key(other),
        old(table)@.contains_key(other) ==> final(table)@[other] == old(table)@[other],
{
    if number_set(*live) != Set::<i32>::empty() {
        let list = choose|list: Seq<i32>| #[trigger]
            lists(list, number_set(*live)) && final(table)@ == old(table)@.insert(chat_id@, list);
        assert(final(table)@[chat_id@] == list);
        assert(list.to_set().contains(n) <==> list.contains(n));
        assert forall|i: int, j: int| 0 <= i < j < list.len() implies #[trigger] list[i]
            < #[trigger] list[j] by {
            assert(list[i] <= list[j]);
            assert(list[i] != list[j]);
        }
    }
}

/// What a table answers for a chat is what it holds for it.
pub proof fn lemma_table_answers(
    table: &ChatTable,
    chat_id: &str,
    count: usize,
    ids: Option<Vec<i32>>,
)
    requires
        call_ensures(ChatTable::retry_count, (table, chat_id), count),
        call_ensures(ChatTable::retry_ids, (table, chat_id), ids),
    ensures
        table@.contains_key(chat_id@) <==> ids is Some,
        ids is Some ==> ids->0@ == table@[chat_id@] && count == table@[chat_id@].len(),
        ids is None ==> count == 0,
{
}

/// What is pending in all is the sum over the chats: nothing for none, and with one chat more, as
/// many more as it has.
pub proof fn lemma_pending_is_the_sum(
    table: Map<Seq<char>, Seq<i32>>,
    chat_id: Seq<char>,
    list: Seq<i32>,
)
    requires
        table.dom().finite(),
        !table.contains_key(chat_id),
    ensures
        total_retries(Map::empty()) == 0,
        total_retries(table.insert(chat_id, list)) == total_retries(table) + list.len(),
{
    let more = table.insert(chat_id, list);
    lemma_total_retries(more, chat_id);
    assert(more.remove(chat_id) =~= table);
}

/// What is saved holds each file and each chat once, in order, with the chat's messages, and nothing
/// else.
pub proof fn lemma_everything_is_saved(
    files: &FileIds,
    table: &ChatTable,
    r: AppData,
    file: Seq<char>,
    chat_id: Seq<char>,
)
    requires
        call_ensures(persist_state, (files, table), r),
    ensures
        files@.contains(file) <==> exists|i: int|
            0 <= i < r.downloaded_file_ids@.len() && (#[trigger] r.downloaded_file_ids@[i])@ == file,
        table@.contains_key(chat_id) <==> exists|i: int|
            0 <= i < r.chat@.len() && (#[trigger] r.chat@[i]).chat_id@ == chat_id
                && r.chat@[i].ids_to_retry@ == table@[chat_id],
        forall|i: int, j: int|
            0 <= i < j < r.downloaded_file_ids@.len() ==> text_lt(
                (#[trigger] r.downloaded_file_ids@[i])@,
                (#[trigger] r.downloaded_file_ids@[j])@,
            ),
        forall|i: int, j: int|
            0 <= i < j < r.chat@.len() ==> text_lt(
                (#[trigger] r.chat@[i]).chat_id@,
                (#[trigger] r.chat@[j]).chat_id@,
            ),
{
    let ids = texts(r.downloaded_file_ids@);
    let names = chats_of(r.chat@);
    assert(files@.contains(file) <==> ids.contains(file)) by {
        assert(ids.to_set().contains(file) <==> ids.contains(file));
    }
    if ids.contains(file) {
        let i = choose|i: int| 0 <= i < ids.len() && ids[i] == file;
        assert(r.downloaded_file_ids@[i]@ == file);
    }
    if exists|i: int|
        0 <= i < r.downloaded_file_ids@.len() && (#[trigger] r.downloaded_file_ids@[i])@ == file {
        let i = choose|i: int|
            0 <= i < r.downloaded_file_ids@.len() && (#[trigger] r.downloaded_file_ids@[i])@ == file;
        assert(ids[i] == file);
    }
    assert(table@.contains_key(chat_id) <==> names.contains(chat_id)) by {
        assert(names.to_set().contains(chat_id) <==> names.contains(chat_id));
        assert(table@.dom().contains(chat_id) <==> table@.contains_key(chat_id));
    }
    if names.contains(chat_id) {
        let i = choose|i: int| 0 <= i < names.len() && names[i] == chat_id;
        assert(r.chat@[i].chat_id@ == chat_id);
    }
    if exists|i: int|
        0 <= i < r.chat@.len() && (#[trigger] r.chat@[i]).chat_id@ == chat_id
            && r.chat@[i].ids_to_retry@ == table@[chat_id] {
        let i = choose|i: int|
            0 <= i < r.chat@.len() && (#[trigger] r.chat@[i]).chat_id@ == chat_id
                && r.chat@[i].ids_to_retry@ == table@[chat_id];
        assert(names[i] == chat_id);
    }
    assert forall|i: int, j: int| 0 <= i < j < r.downloaded_file_ids@.len() implies text_lt(
        (#[trigger] r.downloaded_file_ids@[i])@,
        (#[trigger] r.downloaded_file_ids@[j])@,
    ) by {
        assert(text_le(ids[i], ids[j]));
        assert(ids[i] != ids[j]);
    }
    assert forall|i: int, j: int| 0 <= i < j < r.chat@.len() implies text_lt(
        (#[trigger] r.chat@[i]).chat_id@,
        (#[trigger] r.chat@[j]).chat_id@,
    ) by {
        assert(text_le(names[i], names[j]));
        assert(names[i] != names[j]);
    }
}

/// A chat counts as read up to the greater of what it was and what is noted, in its first entry;
/// no other entry changes, and nothing else of the configuration.
pub proof fn lemma_reading_is_noted(cfg: &mut Config, chat: &ChatConfig, last_read: i32, i: int)
    requires
        call_ensures(update_chat_state, (cfg, chat, last_read), ()),
        0 <= i < old(cfg).chat@.len(),
    ensures
        final(cfg).chat@.len() == old(cfg).chat@.len(),
        ({
            let before = old(cfg).chat@[i];
            let after = final(cfg).chat@[i];
            let first = before.chat_id@ == chat.chat_id@ && forall|k: int|
                0 <= k < i ==> (#[trigger] old(cfg).chat@[k]).chat_id@ != chat.chat_id@;
            &&& first ==> after.last_read_message_id >= last_read && after.last_read_message_id
                >= before.last_read_message_id
            &&& first ==> after.last_read_message_id == last_read || after.last_read_message_id
                == before.last_read_message_id
            &&& !first ==> after.last_read_message_id == before.last_read_message_id
            &&& after.chat_id == before.chat_id
            &&& after.download_filter == before.download_filter
        }),
        final(cfg).save_path == old(cfg).save_path,
        final(cfg).media_types == old(cfg).media_types,
        final(cfg).file_formats == old(cfg).file_formats,
        final(cfg).check_interval_secs == old(cfg).check_interval_secs,
{
    assert(final(cfg).chat@[i].chat_id == old(cfg).chat@[i].chat_id);
}

} // verus!
