//! The files that are known to be downloaded, and room on the disk for those that are not.

use rustc_hash::FxHashSet;

use vstd::prelude::*;

use crate::fx::{
    contains_text, count_texts, insert_text, no_texts, remove_text, some_text, text_set, texts_in,
};
use crate::text::{copy_str, texts};

verus! {

/// How many files are remembered, as far as finished downloads add them.
pub const MAX_FILE_ID_CACHE: usize = 4096;

/// The numbers of the files that were downloaded, as texts.
#[derive(Debug)]
pub struct FileIds {
    ids: FxHashSet<String>,
}

impl View for FileIds {
    type V = Set<Seq<char>>;

    closed spec fn view(&self) -> Set<Seq<char>> {
        text_set(self.ids)
    }
}

/// Whether the set is as it can be after `id` is remembered: a set that is full gives up one of
/// its members for it.
pub open spec fn remembered(before: Set<Seq<char>>, after: Set<Seq<char>>, id: Seq<char>) -> bool {
    if id.len() == 0 {
        after == before
    } else if before.len() < MAX_FILE_ID_CACHE {
        after == before.insert(id)
    } else {
        exists|gone: Seq<char>| #[trigger]
            before.contains(gone) && after == before.remove(gone).insert(id)
    }
}

impl FileIds {
    /// No file at all.
    pub fn new() -> (r: FileIds)
        ensures
            r@ == Set::<Seq<char>>::empty(),
    {
        FileIds { ids: no_texts() }
    }

    /// The files of a list.
    pub fn from_list(list: &Vec<String>) -> (r: FileIds)
        ensures
            r@ == texts(list@).to_set(),
            r@.finite(),
    {
        let mut r = FileIds::new();
        let mut i: usize = 0;
        assert(texts(list@).take(0).to_set() =~= Set::<Seq<char>>::empty());
        while i < list.len()
            invariant
                i <= list.len(),
                r@ == texts(list@).take(i as int).to_set(),
                r@.finite(),
            decreases list.len() - i,
        {
            let ghost before = texts(list@).take(i as int);
            let ghost after = texts(list@).take(i + 1);
            proof {
                assert(after.drop_last() =~= before);
                assert(after =~= before.push(list@[i as int]@));
                lemma_push_to_set(before, list@[i as int]@);
            }
            insert_text(&mut r.ids, copy_str(list[i].as_str()));
            i = i + 1;
        }
        assert(texts(list@).take(i as int) =~= texts(list@));
        r
    }

    /// Whether the file is known.
    pub fn contains(&self, id: &str) -> (r: bool)
        ensures
            r == self@.contains(id@),
    {
        contains_text(&self.ids, id)
    }

    /// How many files are known.
    pub fn len(&self) -> (r: usize)
        ensures
            r == self@.len(),
    {
        count_texts(&self.ids)
    }

    /// Each file once, in an order that is left open.
    pub fn list(&self) -> (r: Vec<String>)
        ensures
            texts(r@).no_duplicates(),
            texts(r@).to_set() == self@,
    {
        texts_in(&self.ids)
    }

    /// Notes that a file is there; the empty number stands for none.
    pub fn note(&mut self, id: &str)
        ensures
            final(self)@ == if id@.len() == 0 {
                old(self)@
            } else {
                old(self)@.insert(id@)
            },
    {
        if !id.is_empty() {
            insert_text(&mut self.ids, copy_str(id));
        }
    }

    /// Remembers a file that was downloaded; the empty number stands for none. `gone` is the
    /// member that leaves for it, where the set is full.
    pub fn remember_for(&mut self, id: &str, gone: Option<String>)
        ensures
            final(self)@ == if id@.len() == 0 {
                old(self)@
            } else if old(self)@.len() < MAX_FILE_ID_CACHE {
                old(self)@.insert(id@)
            } else {
                match gone {
                    Some(other) => old(self)@.remove(other@).insert(id@),
                    None => old(self)@.insert(id@),
                }
            },
    {
        if id.is_empty() {
            return;
        }
        if self.len() >= MAX_FILE_ID_CACHE {
            if let Some(other) = gone {
                remove_text(&mut self.ids, other.as_str());
            }
        }
        insert_text(&mut self.ids, copy_str(id));
    }

    /// Remembers a file that was downloaded; the empty number stands for none. Where the set is
    /// full, one of its members leaves. Which one is left open.
    pub fn remember(&mut self, id: &str)
        ensures
            remembered(old(self)@, final(self)@, id@),
    {
        let gone = some_text(&self.ids);
        let ghost left = gone;
        let ghost before = self@;
        self.remember_for(id, gone);
        proof {
            if before.len() >= MAX_FILE_ID_CACHE {
                assert(left is Some) by {
                    assert(Set::<Seq<char>>::empty().len() == 0);
                }
                assert(before.contains(left->0@));
            }
        }
    }
}

proof fn lemma_push_to_set(s: Seq<Seq<char>>, x: Seq<char>)
    ensures
        s.push(x).to_set() == s.to_set().insert(x),
{
    assert forall|y: Seq<char>| s.push(x).to_set().contains(y) implies s.to_set().insert(
        x,
    ).contains(y) by {
        let k = choose|k: int| 0 <= k < s.push(x).len() && s.push(x)[k] == y;
        if k < s.len() {
            assert(s[k] == y);
        }
    }
    assert forall|y: Seq<char>| s.to_set().insert(x).contains(y) implies s.push(
        x,
    ).to_set().contains(y) by {
        if y == x {
            assert(s.push(x)[s.len() as int] == x);
        } else {
            let k = choose|k: int| 0 <= k < s.len() && s[k] == y;
            assert(s.push(x)[k] == y);
        }
    }
    assert(s.push(x).to_set() =~= s.to_set().insert(x));
}

/// Remembering files never makes a set larger than the limit, nor one larger that is over it.
pub proof fn lemma_remember_keeps_limit(before: Set<Seq<char>>, after: Set<Seq<char>>, id: Seq<char>)
    requires
        before.finite(),
        remembered(before, after, id),
    ensures
        after.finite(),
        after.len() <= MAX_FILE_ID_CACHE || after.len() <= before.len(),
        id.len() > 0 ==> after.contains(id),
{
}

/// How room is made on the disk.
#[derive(Debug, Clone, Copy, PartialEq, Eq, Structural)]
pub enum Allocation {
    /// There is nothing to do.
    Nothing,
    /// Ask for so many bytes.
    Bytes(i64),
    /// The disk cannot be asked for so much.
    TooLarge,
}

/// How room for `size` bytes is made on the disk.
pub fn preallocate(size: u64) -> (r: Allocation)
    ensures
        r == if size == 0 {
            Allocation::Nothing
        } else if size <= i64::MAX {
            Allocation::Bytes(size as i64)
        } else {
            Allocation::TooLarge
        },
{
    if size == 0 {
        Allocation::Nothing
    } else if size <= i64::MAX as u64 {
        Allocation::Bytes(size as i64)
    } else {
        Allocation::TooLarge
    }
}

/// Remembering a file makes it known, and of the others at most one is forgotten, and none as long
/// as there are fewer than 4096. Nothing else becomes known, and a file without a number changes
/// nothing.
pub proof fn lemma_remember_forgets_at_most_one(ids: &mut FileIds, id: &str)
    requires
        call_ensures(FileIds::remember, (ids, id), ()),
    ensures
        id@.len() > 0 ==> final(ids)@.contains(id@),
        id@.len() == 0 ==> final(ids)@ == old(ids)@,
        old(ids)@.len() < 4096 ==> forall|x: Seq<char>|
            old(ids)@.contains(x) ==> #[trigger] final(ids)@.contains(x),
        forall|x: Seq<char>| #[trigger]
            final(ids)@.contains(x) ==> old(ids)@.contains(x) || x == id@,
        forall|x: Seq<char>, y: Seq<char>|
            old(ids)@.contains(x) && old(ids)@.contains(y) && !(#[trigger] final(ids)@.contains(x))
                && !(#[trigger] final(ids)@.contains(y)) ==> x == y,
{
    if id@.len() > 0 && !(old(ids)@.len() < MAX_FILE_ID_CACHE) {
        let before = old(ids)@;
        let after = final(ids)@;
        let gone = choose|gone: Seq<char>| #[trigger]
            before.contains(gone) && after == before.remove(gone).insert(id@);
        assert(after == before.remove(gone).insert(id@));
    }
}

/// Noting a file that is there makes it known and forgets none.
pub proof fn lemma_note_forgets_nothing(ids: &mut FileIds, id: &str)
    requires
        call_ensures(FileIds::note, (ids, id), ()),
    ensures
        id@.len() > 0 ==> final(ids)@.contains(id@),
        forall|x: Seq<char>| x != id@ ==> (#[trigger] final(ids)@.contains(x) <==> old(
            ids,
        )@.contains(x)),
        id@.len() == 0 ==> final(ids)@ == old(ids)@,
{
}

/// The files of a list are known, and no others; they are listed again once each.
pub proof fn lemma_listed_files_are_known(list: &Vec<String>, r: FileIds, again: Vec<String>, i: int)
    requires
        call_ensures(FileIds::from_list, (list,), r),
        call_ensures(FileIds::list, (&r,), again),
        0 <= i < list@.len(),
    ensures
        r@.contains(list@[i]@),
        texts(again@).contains(list@[i]@),
        texts(again@).no_duplicates(),
        forall|x: Seq<char>| #[trigger] r@.contains(x) ==> texts(list@).contains(x),
{
    assert(texts(list@)[i] == list@[i]@);
    assert(texts(list@).contains(list@[i]@));
    assert(texts(list@).to_set().contains(list@[i]@));
    assert(texts(again@).to_set().contains(list@[i]@));
}

/// Room is asked for as many bytes as the file has, unless it has none or more than can be asked.
pub proof fn lemma_room_for_the_whole_file(size: u64, r: Allocation)
    requires
        call_ensures(preallocate, (size,), r),
    ensures
        size == 0 <==> r is Nothing,
        size > 0x7fff_ffff_ffff_ffff <==> r is TooLarge,
        r matches Allocation::Bytes(n) ==> n == size,
{
}

/// Remembering a file in place of a given one forgets that one only where there are 4096 or more.
pub proof fn lemma_remember_in_place_of(ids: &mut FileIds, id: &str, gone: Option<String>, x: Seq<char>)
    requires
        call_ensures(FileIds::remember_for, (ids, id, gone), ()),
        x != id@,
    ensures
        id@.len() > 0 ==> final(ids)@.contains(id@),
        final(ids)@.contains(x) <==> old(ids)@.contains(x) && !(id@.len() > 0 && old(ids)@.len()
            >= 4096 && gone is Some && gone->0@ == x),
{
}

} // verus!
