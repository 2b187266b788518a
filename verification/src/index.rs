//! The index of an archive: its mount point and the records of its entries,
//! in the order in which they were added.

use vstd::prelude::*;
use vstd::string::*;
use crate::entry::{
    lemma_read_record, push_record, read_record, read_record_spec, record, record_len,
    stored_path, Entry, EntryData,
};
use crate::error::{Error, Failure};
use crate::wire::{
    holds_at, lemma_field_lengths, lemma_holds_at_split, lemma_read_u64, push_u64, read_u64,
    read_u64_spec, u64_field,
};

verus! {

/// The mount point and the entries of an archive.
#[derive(Debug)]
pub struct Index {
    /// The prefix under which every logical path is rooted.
    pub mount_point: String,
    /// The entries, in the order in which they were added.
    pub entries: Vec<Entry>,
}

/// An index as contracts speak of it.
pub struct IndexData {
    pub mount_point: Seq<char>,
    pub entries: Seq<EntryData>,
}

/// The entries of a vector as contracts speak of them.
pub open spec fn entries_view(entries: Seq<Entry>) -> Seq<EntryData> {
    Seq::new(entries.len(), |i: int| entries[i]@)
}

impl View for Index {
    type V = IndexData;

    open spec fn view(&self) -> IndexData {
        IndexData { mount_point: self.mount_point@, entries: entries_view(self.entries@) }
    }
}

/// The records of `entries` one behind the other.
pub open spec fn records(mount: Seq<char>, entries: Seq<EntryData>) -> Seq<u8>
    decreases entries.len(),
{
    if entries.len() == 0 {
        Seq::empty()
    } else {
        record(mount, entries[0]) + records(mount, entries.skip(1))
    }
}

/// The entry table: the number of entries, then their records.
pub open spec fn table(mount: Seq<char>, entries: Seq<EntryData>) -> Seq<u8> {
    u64_field(entries.len() as u64) + records(mount, entries)
}

/// Whether every stored path is short enough for its length to be written.
pub open spec fn paths_fit(mount: Seq<char>, entries: Seq<EntryData>) -> bool {
    forall|i: int|
        0 <= i < entries.len() ==> stored_path(mount, (#[trigger] entries[i]).path).len()
            <= u64::MAX
}

/// `count` records from `pos` on, and the position behind the last.
pub open spec fn read_records_spec(data: Seq<u8>, pos: int, mount: Seq<char>, count: nat) -> Result<
    (Seq<EntryData>, int),
    Failure,
>
    decreases count,
{
    if count == 0 {
        Ok((Seq::empty(), pos))
    } else {
        match read_record_spec(data, pos, mount) {
            Err(f) => Err(f),
            Ok((e, next)) => match read_records_spec(data, next, mount, (count - 1) as nat) {
                Err(f) => Err(f),
                Ok((rest, end)) => Ok((seq![e] + rest, end)),
            },
        }
    }
}

/// The entry table at `pos`, and the position behind it.
pub open spec fn read_table_spec(data: Seq<u8>, pos: int, mount: Seq<char>) -> Result<
    (Seq<EntryData>, int),
    Failure,
> {
    match read_u64_spec(data, pos) {
        Err(f) => Err(f),
        Ok((count, at)) => read_records_spec(data, at, mount, count as nat),
    }
}

/// The place of the first entry with the given path, if there is one.
pub open spec fn position_spec(entries: Seq<EntryData>, path: Seq<char>) -> Option<int>
    decreases entries.len(),
{
    if entries.len() == 0 {
        None
    } else if entries[0].path == path {
        Some(0)
    } else {
        match position_spec(entries.skip(1), path) {
            Some(i) => Some(i + 1),
            None => None,
        }
    }
}

/// Whether no two entries share a path.
pub open spec fn paths_unique(entries: Seq<EntryData>) -> bool {
    forall|i: int, j: int|
        0 <= i < j < entries.len() ==> (#[trigger] entries[i]).path != (#[trigger] entries[j]).path
}

/// What `position_spec` finds is the first entry with the path, and where it
/// finds nothing there is no such entry.
pub proof fn lemma_position(entries: Seq<EntryData>, path: Seq<char>)
    ensures
        match position_spec(entries, path) {
            Some(i) => 0 <= i < entries.len() && entries[i].path == path && forall|j: int|
                0 <= j < i ==> (#[trigger] entries[j]).path != path,
            None => forall|j: int| 0 <= j < entries.len() ==> (#[trigger] entries[j]).path != path,
        },
    decreases entries.len(),
{
    if entries.len() > 0 && entries[0].path != path {
        let rest = entries.skip(1);
        lemma_position(rest, path);
        match position_spec(rest, path) {
            Some(i) => {
                assert(rest[i] == entries[i + 1]);
                assert forall|j: int| 0 <= j < i + 1 implies (#[trigger] entries[j]).path
                    != path by {
                    if j > 0 {
                        assert(rest[j - 1] == entries[j]);
                    }
                }
            },
            None => {
                assert forall|j: int| 0 <= j < entries.len() implies (#[trigger] entries[j]).path
                    != path by {
                    if j > 0 {
                        assert(rest[j - 1] == entries[j]);
                    }
                }
            },
        }
    }
}

/// An entry added at the end is found under its path where no earlier entry
/// has that path, and changes nothing for any other path.
pub proof fn lemma_position_push(entries: Seq<EntryData>, e: EntryData, path: Seq<char>)
    ensures
        position_spec(entries.push(e), path) == match position_spec(entries, path) {
            Some(i) => Some(i),
            None => if e.path == path {
                Some(entries.len() as int)
            } else {
                None
            },
        },
    decreases entries.len(),
{
    let longer = entries.push(e);
    if entries.len() == 0 {
        assert(longer.skip(1) =~= Seq::<EntryData>::empty());
        assert(position_spec(longer.skip(1), path) is None);
    } else {
        assert(longer[0] == entries[0]);
        assert(longer.skip(1) =~= entries.skip(1).push(e));
        lemma_position_push(entries.skip(1), e, path);
    }
}

/// The length of the records of `entries`.
pub open spec fn records_len(mount: Seq<char>, entries: Seq<EntryData>) -> int
    decreases entries.len(),
{
    if entries.len() == 0 {
        0
    } else {
        record_len(mount, entries[0]) + records_len(mount, entries.skip(1))
    }
}

/// Records are read back as the entries they were made of.
pub proof fn lemma_read_records(data: Seq<u8>, pos: int, mount: Seq<char>, entries: Seq<EntryData>)
    requires
        paths_fit(mount, entries),
        holds_at(data, pos, records(mount, entries)),
    ensures
        read_records_spec(data, pos, mount, entries.len()) == Ok::<(Seq<EntryData>, int), Failure>(
            (entries, pos + records_len(mount, entries)),
        ),
        records(mount, entries).len() == records_len(mount, entries),
    decreases entries.len(),
{
    if entries.len() == 0 {
        assert(entries =~= Seq::<EntryData>::empty());
    } else {
        let first = entries[0];
        let rest = entries.skip(1);
        lemma_holds_at_split(data, pos, record(mount, first), records(mount, rest));
        lemma_read_record(data, pos, mount, first);
        assert forall|i: int| 0 <= i < rest.len() implies stored_path(
            mount,
            (#[trigger] rest[i]).path,
        ).len() <= u64::MAX by {
            assert(rest[i] == entries[i + 1]);
        }
        lemma_read_records(data, pos + record_len(mount, first), mount, rest);
        assert(seq![first] + rest =~= entries);
    }
}

/// An entry table is read back as the entries it was made of.
pub proof fn lemma_read_table(data: Seq<u8>, pos: int, mount: Seq<char>, entries: Seq<EntryData>)
    requires
        entries.len() <= u64::MAX,
        paths_fit(mount, entries),
        holds_at(data, pos, table(mount, entries)),
    ensures
        read_table_spec(data, pos, mount) == Ok::<(Seq<EntryData>, int), Failure>(
            (entries, pos + 8 + records_len(mount, entries)),
        ),
        table(mount, entries).len() == 8 + records_len(mount, entries),
{
    lemma_field_lengths();
    lemma_holds_at_split(data, pos, u64_field(entries.len() as u64), records(mount, entries));
    lemma_read_u64(data, pos, entries.len() as u64);
    lemma_read_records(data, pos + 8, mount, entries);
}

/// Reads the entry table at `pos` of an archive mounted at `mount`.
pub fn read_table(data: &[u8], pos: usize, mount: &String) -> (r: Result<(Vec<Entry>, usize), Error>)
    ensures
        match read_table_spec(data@, pos as int, mount@) {
            Ok((entries, next)) => r matches Ok((v, n)) && entries_view(v@) == entries && n
                == next,
            Err(f) => r matches Err(e) && e@ == f,
        },
{
    let (count, start) = match read_u64(data, pos) {
        Ok(v) => v,
        Err(e) => {
            return Err(e);
        },
    };
    let ghost want = read_records_spec(data@, start as int, mount@, count as nat);
    let mut entries: Vec<Entry> = Vec::new();
    let mut at: usize = start;
    let mut left: u64 = count;
    proof {
        match want {
            Ok((rest, end)) => {
                assert(entries_view(entries@) + rest =~= rest);
            },
            Err(f) => {},
        }
    }
    while left > 0
        invariant
            want == read_table_spec(data@, pos as int, mount@),
            want == match read_records_spec(data@, at as int, mount@, left as nat) {
                Ok((rest, end)) => Ok::<(Seq<EntryData>, int), Failure>(
                    (entries_view(entries@) + rest, end),
                ),
                Err(f) => Err::<(Seq<EntryData>, int), Failure>(f),
            },
        decreases left,
    {
        let ghost before = entries_view(entries@);
        proof {
            assert(left as nat != 0);
            assert(read_records_spec(data@, at as int, mount@, left as nat) == match read_record_spec(
                data@,
                at as int,
                mount@,
            ) {
                Err(f) => Err::<(Seq<EntryData>, int), Failure>(f),
                Ok((e, next)) => match read_records_spec(data@, next, mount@, (left - 1) as nat) {
                    Err(f) => Err(f),
                    Ok((rest, end)) => Ok((seq![e] + rest, end)),
                },
            });
        }
        match read_record(data, at, mount) {
            Ok((entry, next)) => {
                proof {
                    match read_records_spec(data@, next as int, mount@, (left - 1) as nat) {
                        Ok((rest, end)) => {
                            assert(entries_view(entries@.push(entry)) =~= before.push(entry@));
                            assert(before + (seq![entry@] + rest) =~= before.push(entry@) + rest);
                        },
                        Err(f) => {},
                    }
                }
                entries.push(entry);
                at = next;
                left -= 1;
            },
            Err(e) => {
                return Err(e);
            },
        }
    }
    proof {
        assert(entries_view(entries@) + Seq::<EntryData>::empty() =~= entries_view(entries@));
    }
    Ok((entries, at))
}

/// Appends the entry table of `entries`, in an archive mounted at `mount`.
pub fn push_table(out: &mut Vec<u8>, mount: &String, entries: &Vec<Entry>)
    ensures
        final(out)@ == old(out)@ + table(mount@, entries_view(entries@)),
        paths_fit(mount@, entries_view(entries@)),
        entries_view(entries@).len() <= u64::MAX,
{
    let ghost all = entries_view(entries@);
    push_u64(out, entries.len() as u64);
    let ghost start = out@;
    let mut i: usize = 0;
    proof {
        assert(all.skip(0) =~= all);
    }
    while i < entries.len()
        invariant
            i <= entries.len(),
            all == entries_view(entries@),
            out@ + records(mount@, all.skip(i as int)) == start + records(mount@, all),
            forall|k: int| 0 <= k < i ==> stored_path(mount@, (#[trigger] all[k]).path).len()
                <= u64::MAX,
        decreases entries.len() - i,
    {
        let ghost before = out@;
        proof {
            let tail = all.skip(i as int);
            assert(tail[0] == all[i as int]);
            assert(tail.skip(1) =~= all.skip(i + 1));
            assert(before + records(mount@, tail) =~= (before + record(mount@, all[i as int]))
                + records(mount@, all.skip(i + 1)));
        }
        push_record(out, mount, &entries[i]);
        i += 1;
    }
    proof {
        assert(all.skip(i as int) =~= Seq::<EntryData>::empty());
        assert(out@ + records(mount@, all.skip(i as int)) =~= out@);
        assert(final(out)@ =~= old(out)@ + table(mount@, all));
    }
}

impl Index {
    /// An index without entries.
    pub fn new(mount_point: String) -> (index: Index)
        ensures
            index@.mount_point == mount_point@,
            index@.entries == Seq::<EntryData>::empty(),
    {
        let index = Index { mount_point, entries: Vec::new() };
        proof {
            assert(index@.entries =~= Seq::<EntryData>::empty());
        }
        index
    }

    /// How many entries there are.
    pub fn len(&self) -> (n: usize)
        ensures
            n == self@.entries.len(),
    {
        self.entries.len()
    }

    /// The place of the first entry with the given path.
    pub fn position(&self, path: &str) -> (r: Option<usize>)
        ensures
            match position_spec(self@.entries, path@) {
                Some(i) => r matches Some(k) && k == i && i < self.entries@.len(),
                None => r is None,
            },
    {
        let wanted = String::from_str(path);
        let mut i: usize = 0;
        while i < self.entries.len()
            invariant
                i <= self.entries.len(),
                wanted@ == path@,
                forall|j: int| 0 <= j < i ==> (#[trigger] self@.entries[j]).path != path@,
            decreases self.entries.len() - i,
        {
            if self.entries[i].path == wanted {
                proof {
                    assert(self@.entries[i as int].path == path@);
                    lemma_position(self@.entries, path@);
                }
                return Some(i);
            }
            i += 1;
        }
        proof {
            lemma_position(self@.entries, path@);
        }
        None
    }

    /// The entry with the given path; a path that the index does not hold is
    /// a missing entry that names the path.
    pub fn lookup(&self, path: &str) -> (r: Result<&Entry, Error>)
        ensures
            match position_spec(self@.entries, path@) {
                Some(i) => r matches Ok(e) && i < self.entries@.len() && *e == self.entries@[i]
                    && e@.path == path@,
                None => r matches Err(e) && e@ == Failure::MissingEntry(path@),
            },
    {
        proof {
            lemma_position(self@.entries, path@);
        }
        match self.position(path) {
            Some(i) => Ok(&self.entries[i]),
            None => Err(Error::MissingEntry(String::from_str(path))),
        }
    }
}

} // verus!
