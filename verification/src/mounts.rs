//! Which partitions are mounted.
//!
//! [`State`] remembers what was mounted for which partition of which disk, and
//! that no more mounts are to be made once the process shuts down.

use vstd::prelude::*;

verus! {

/// A mount that was made: for which partition of which disk, and what the
/// caller keeps about it (a drive letter, a child process).
pub struct Mount<T> {
    /// Device path of the disk, as the arrival reported it.
    pub disk: String,
    /// 1-indexed partition number; 0 is the whole disk.
    pub part: usize,
    pub value: T,
}

/// What identifies a mount: the disk and the partition number.
pub type Key = (Seq<char>, usize);

impl<T> Mount<T> {
    pub open spec fn key(&self) -> Key {
        (self.disk@, self.part)
    }
}

/// No two of the mounts are for the same partition.
pub open spec fn distinct<T>(mounts: Seq<Mount<T>>) -> bool {
    forall|i: int, j: int|
        0 <= i < j < mounts.len() ==> (#[trigger] mounts[i]).key() != (#[trigger] mounts[j]).key()
}

/// What is mounted for each partition.
pub open spec fn as_map<T>(mounts: Seq<Mount<T>>) -> Map<Key, T>
    decreases mounts.len(),
{
    if mounts.len() == 0 {
        Map::empty()
    } else {
        as_map(mounts.drop_last()).insert(mounts.last().key(), mounts.last().value)
    }
}

/// The keys of all partitions of a disk.
pub open spec fn keys_of(disk: Seq<char>) -> Set<Key> {
    Set::new(|k: Key| k.0 == disk)
}

/// The mounts of a disk.
pub open spec fn on_disk<T>(mounts: Map<Key, T>, disk: Seq<char>) -> Map<Key, T> {
    mounts.restrict(keys_of(disk))
}

/// The mounts of all other disks.
pub open spec fn off_disk<T>(mounts: Map<Key, T>, disk: Seq<char>) -> Map<Key, T> {
    mounts.remove_keys(keys_of(disk))
}

/// The mounts of a process, and whether it is shutting down.
pub struct State<T> {
    entries: Vec<Mount<T>>,
    shutting_down: bool,
}

/// What a [`State`] says.
#[verifier::ext_equal]
pub struct StateView<T> {
    pub mounts: Map<Key, T>,
    pub shutting_down: bool,
}

impl<T> View for State<T> {
    type V = StateView<T>;

    closed spec fn view(&self) -> StateView<T> {
        StateView { mounts: as_map(self.entries@), shutting_down: self.shutting_down }
    }
}

/// What to do about a disk arrival.
#[derive(Debug, Clone, Copy, PartialEq, Eq, Structural)]
pub enum Admission {
    /// Nothing: the process is shutting down.
    Ignore,
    /// Nothing yet: there is no session to mount in.
    Defer,
    /// List its partitions.
    List,
}

impl<T> State<T> {
    /// At most one mount per partition.
    #[verifier::type_invariant]
    spec fn one_per_partition(&self) -> bool {
        distinct(self.entries@)
    }

    /// Nothing mounted, not shutting down.
    pub fn new() -> (s: State<T>)
        ensures
            s@ == (StateView::<T> { mounts: Map::empty(), shutting_down: false }),
    {
        State { entries: Vec::new(), shutting_down: false }
    }

    /// Decide on a disk arrival. `session` says whether there is a session to
    /// mount in.
    pub fn consider(&self, session: bool) -> (a: Admission)
        ensures
            a == if self@.shutting_down {
                Admission::Ignore
            } else if !session {
                Admission::Defer
            } else {
                Admission::List
            },
    {
        if self.shutting_down {
            Admission::Ignore
        } else if !session {
            Admission::Defer
        } else {
            Admission::List
        }
    }

    /// Remember what was mounted for partition `part` of `disk`. Gives back
    /// what was remembered for that partition before.
    pub fn record(&mut self, disk: &str, part: usize, value: T) -> (before: Option<T>)
        ensures
            final(self)@ == (StateView::<T> {
                mounts: old(self)@.mounts.insert((disk@, part), value),
                ..old(self)@
            }),
            before == if old(self)@.mounts.contains_key((disk@, part)) {
                Some(old(self)@.mounts[(disk@, part)])
            } else {
                None
            },
    {
        proof {
            use_type_invariant(&*self);
        }
        let name: String = disk.to_owned();
        let ghost key: Key = (disk@, part);
        let mut entries: Vec<Mount<T>> = Vec::new();
        std::mem::swap(&mut entries, &mut self.entries);
        let ghost start = entries@;
        let mut i: usize = 0;
        while i < entries.len()
            invariant
                i <= entries.len(),
                entries@ == start,
                self.shutting_down == old(self).shutting_down,
                old(self).entries@ == start,
                distinct(start),
                name@ == disk@,
                key == (disk@, part),
                forall|j: int| 0 <= j < i ==> (#[trigger] start[j]).key() != key,
            decreases entries.len() - i,
        {
            if entries[i].part == part && entries[i].disk == name {
                proof {
                    lemma_map_has(start, i as int);
                    lemma_map_remove(start, i as int);
                }
                let gone: Mount<T> = entries.remove(i);
                entries.push(Mount { disk: name, part, value });
                proof {
                    let now = entries@;
                    assert(now.drop_last() =~= start.remove(i as int));
                    assert(as_map(now) =~= as_map(start).insert(key, value));
                    lemma_distinct_after_remove(start, i as int, now);
                }
                self.entries = entries;
                return Some(gone.value);
            }
            i = i + 1;
        }
        proof {
            lemma_map_lacks(start, key);
        }
        entries.push(Mount { disk: name, part, value });
        assert(entries@.drop_last() =~= start);
        self.entries = entries;
        None
    }

    /// Forget the mounts of `disk` and hand them out.
    pub fn take_disk(&mut self, disk: &str) -> (gone: Vec<Mount<T>>)
        ensures
            final(self)@ == (StateView::<T> {
                mounts: off_disk(old(self)@.mounts, disk@),
                ..old(self)@
            }),
            distinct(gone@),
            as_map(gone@) == on_disk(old(self)@.mounts, disk@),
    {
        proof {
            use_type_invariant(&*self);
        }
        let name: String = disk.to_owned();
        let mut entries: Vec<Mount<T>> = Vec::new();
        std::mem::swap(&mut entries, &mut self.entries);
        let ghost start = entries@;
        let mut gone: Vec<Mount<T>> = Vec::new();
        let mut i: usize = 0;
        proof {
            assert(as_map(start).union_prefer_right(as_map(gone@)) =~= as_map(start));
        }
        while i < entries.len()
            invariant
                i <= entries.len(),
                self.shutting_down == old(self).shutting_down,
                old(self).entries@ == start,
                name@ == disk@,
                distinct(entries@),
                distinct(gone@),
                forall|j: int| 0 <= j < i ==> (#[trigger] entries@[j]).disk@ != disk@,
                forall|j: int| 0 <= j < gone@.len() ==> (#[trigger] gone@[j]).disk@ == disk@,
                forall|j: int, k: int|
                    0 <= j < entries@.len() && 0 <= k < gone@.len() ==> (
                    #[trigger] entries@[j]).key() != (#[trigger] gone@[k]).key(),
                as_map(entries@).union_prefer_right(as_map(gone@)) == as_map(start),
            decreases entries.len() - i,
        {
            if entries[i].disk == name {
                let ghost kept = entries@;
                let ghost out = gone@;
                let m: Mount<T> = entries.remove(i);
                proof {
                    lemma_map_has(kept, i as int);
                    lemma_map_remove(kept, i as int);
                    lemma_keys_disjoint_after_move(kept, out, i as int);
                }
                gone.push(m);
                proof {
                    assert(gone@.drop_last() =~= out);
                    assert(entries@ =~= kept.remove(i as int));
                    assert(as_map(entries@).union_prefer_right(as_map(gone@)) =~= as_map(kept)
                        .union_prefer_right(as_map(out)));
                }
            } else {
                i = i + 1;
            }
        }
        proof {
            lemma_map_keys(entries@);
            lemma_map_keys(gone@);
            assert(as_map(entries@) =~= off_disk(as_map(start), disk@));
            assert(as_map(gone@) =~= on_disk(as_map(start), disk@));
        }
        self.entries = entries;
        gone
    }

    /// From now on no disk arrival is acted on.
    pub fn begin_shutdown(&mut self)
        ensures
            final(self)@ == (StateView::<T> { shutting_down: true, ..old(self)@ }),
    {
        proof {
            use_type_invariant(&*self);
        }
        self.shutting_down = true;
    }

    /// Shut down: forget every mount and hand them all out.
    pub fn shut_down(&mut self) -> (gone: Vec<Mount<T>>)
        ensures
            final(self)@ == (StateView::<T> { mounts: Map::empty(), shutting_down: true }),
            distinct(gone@),
            as_map(gone@) == old(self)@.mounts,
    {
        proof {
            use_type_invariant(&*self);
        }
        self.shutting_down = true;
        let mut gone: Vec<Mount<T>> = Vec::new();
        std::mem::swap(&mut gone, &mut self.entries);
        gone
    }
}

proof fn lemma_map_keys<T>(s: Seq<Mount<T>>)
    ensures
        forall|k: Key| #[trigger]
            as_map(s).contains_key(k) <==> exists|i: int|
                0 <= i < s.len() && (#[trigger] s[i]).key() == k,
    decreases s.len(),
{
    if s.len() > 0 {
        lemma_map_keys(s.drop_last());
        assert forall|k: Key| #[trigger] as_map(s).contains_key(k) <==> exists|i: int|
            0 <= i < s.len() && (#[trigger] s[i]).key() == k by {
            if as_map(s).contains_key(k) {
                if k == s.last().key() {
                    assert(s[s.len() - 1].key() == k);
                } else {
                    assert(as_map(s.drop_last()).contains_key(k));
                    let i = choose|i: int|
                        0 <= i < s.drop_last().len() && (#[trigger] s.drop_last()[i]).key() == k;
                    assert(s[i].key() == k);
                }
            }
            if exists|i: int| 0 <= i < s.len() && (#[trigger] s[i]).key() == k {
                let i = choose|i: int| 0 <= i < s.len() && (#[trigger] s[i]).key() == k;
                if i < s.len() - 1 {
                    assert(s.drop_last()[i].key() == k);
                    assert(as_map(s.drop_last()).contains_key(k));
                }
            }
        }
    }
}

proof fn lemma_map_lacks<T>(s: Seq<Mount<T>>, key: Key)
    requires
        forall|j: int| 0 <= j < s.len() ==> (#[trigger] s[j]).key() != key,
    ensures
        !as_map(s).contains_key(key),
{
    lemma_map_keys(s);
}

proof fn lemma_map_has<T>(s: Seq<Mount<T>>, i: int)
    requires
        distinct(s),
        0 <= i < s.len(),
    ensures
        as_map(s).contains_key(s[i].key()),
        as_map(s)[s[i].key()] == s[i].value,
    decreases s.len(),
{
    if i < s.len() - 1 {
        assert(s.drop_last()[i] == s[i]);
        assert(distinct(s.drop_last()));
        lemma_map_has(s.drop_last(), i);
        assert(s[i].key() != s[s.len() - 1].key());
    }
}

proof fn lemma_map_remove<T>(s: Seq<Mount<T>>, i: int)
    requires
        distinct(s),
        0 <= i < s.len(),
    ensures
        distinct(s.remove(i)),
        as_map(s.remove(i)) == as_map(s).remove(s[i].key()),
    decreases s.len(),
{
    let r = s.remove(i);
    assert forall|a: int, b: int| 0 <= a < b < r.len() implies (#[trigger] r[a]).key() != (
    #[trigger] r[b]).key() by {
        let a2 = if a < i {
            a
        } else {
            a + 1
        };
        let b2 = if b < i {
            b
        } else {
            b + 1
        };
        assert(r[a] == s[a2]);
        assert(r[b] == s[b2]);
    }
    if i == s.len() - 1 {
        assert(r =~= s.drop_last());
        lemma_map_lacks_last(s);
        assert(as_map(r) =~= as_map(s).remove(s[i].key()));
    } else {
        assert(distinct(s.drop_last()));
        lemma_map_remove(s.drop_last(), i);
        assert(r.drop_last() =~= s.drop_last().remove(i));
        assert(r.last() == s.last());
        assert(s[i].key() != s[s.len() - 1].key());
        assert(as_map(r) =~= as_map(s).remove(s[i].key()));
    }
}

proof fn lemma_map_lacks_last<T>(s: Seq<Mount<T>>)
    requires
        distinct(s),
        s.len() > 0,
    ensures
        !as_map(s.drop_last()).contains_key(s.last().key()),
{
    assert forall|j: int| 0 <= j < s.drop_last().len() implies (#[trigger] s.drop_last()[j]).key()
        != s.last().key() by {
        assert(s[j].key() != s[s.len() - 1].key());
    }
    lemma_map_lacks(s.drop_last(), s.last().key());
}

proof fn lemma_distinct_after_remove<T>(s: Seq<Mount<T>>, i: int, now: Seq<Mount<T>>)
    requires
        distinct(s),
        0 <= i < s.len(),
        now.len() == s.len(),
        now.drop_last() == s.remove(i),
        now.last().key() == s[i].key(),
    ensures
        distinct(now),
{
    lemma_map_remove(s, i);
    assert forall|a: int, b: int| 0 <= a < b < now.len() implies (#[trigger] now[a]).key() != (
    #[trigger] now[b]).key() by {
        assert(now[a] == s.remove(i)[a]);
        if b < now.len() - 1 {
            assert(now[b] == s.remove(i)[b]);
        } else {
            let a2 = if a < i {
                a
            } else {
                a + 1
            };
            assert(now[a] == s[a2]);
            assert(s[a2].key() != s[i].key());
        }
    }
}

proof fn lemma_keys_disjoint_after_move<T>(kept: Seq<Mount<T>>, out: Seq<Mount<T>>, i: int)
    requires
        distinct(kept),
        distinct(out),
        0 <= i < kept.len(),
        forall|j: int, k: int|
            0 <= j < kept.len() && 0 <= k < out.len() ==> (#[trigger] kept[j]).key() != (
            #[trigger] out[k]).key(),
    ensures
        distinct(kept.remove(i)),
        distinct(out.push(kept[i])),
        forall|j: int, k: int|
            0 <= j < kept.remove(i).len() && 0 <= k < out.push(kept[i]).len() ==> (
            #[trigger] kept.remove(i)[j]).key() != (#[trigger] out.push(kept[i])[k]).key(),
        !as_map(out).contains_key(kept[i].key()),
{
    lemma_map_remove(kept, i);
    let r = kept.remove(i);
    let o = out.push(kept[i]);
    assert forall|a: int, b: int| 0 <= a < b < o.len() implies (#[trigger] o[a]).key() != (
    #[trigger] o[b]).key() by {
        if b == out.len() {
            assert(kept[i].key() != out[a].key());
        }
    }
    assert forall|j: int, k: int| 0 <= j < r.len() && 0 <= k < o.len() implies (
    #[trigger] r[j]).key() != (#[trigger] o[k]).key() by {
        let j2 = if j < i {
            j
        } else {
            j + 1
        };
        assert(r[j] == kept[j2]);
        if k == out.len() {
            if j2 < i {
                assert(kept[j2].key() != kept[i].key());
            } else {
                assert(kept[i].key() != kept[j2].key());
            }
        } else {
            assert(kept[j2].key() != out[k].key());
        }
    }
    lemma_map_lacks(out, kept[i].key());
}

/// Recording a mount and removing its disk leaves the other disks' mounts as
/// they were before either.
pub proof fn removal_undoes_record<T>(mounts: Map<Key, T>, disk: Seq<char>, part: usize, value: T)
    ensures
        off_disk(mounts.insert((disk, part), value), disk) == off_disk(mounts, disk),
        on_disk(mounts.insert((disk, part), value), disk) == on_disk(mounts, disk).insert(
            (disk, part),
            value,
        ),
{
    assert(off_disk(mounts.insert((disk, part), value), disk) =~= off_disk(mounts, disk));
    assert(on_disk(mounts.insert((disk, part), value), disk) =~= on_disk(mounts, disk).insert(
        (disk, part),
        value,
    ));
}

/// Removing a disk that has no mounts changes nothing, and removing a disk twice
/// is the same as removing it once.
pub proof fn removal_is_idempotent<T>(mounts: Map<Key, T>, disk: Seq<char>)
    ensures
        off_disk(off_disk(mounts, disk), disk) == off_disk(mounts, disk),
        on_disk(off_disk(mounts, disk), disk) == Map::<Key, T>::empty(),
        (forall|k: Key| #[trigger] mounts.contains_key(k) ==> k.0 != disk) ==> off_disk(
            mounts,
            disk,
        ) == mounts,
{
    assert(off_disk(off_disk(mounts, disk), disk) =~= off_disk(mounts, disk));
    assert(on_disk(off_disk(mounts, disk), disk) =~= Map::<Key, T>::empty());
    if forall|k: Key| #[trigger] mounts.contains_key(k) ==> k.0 != disk {
        assert(off_disk(mounts, disk) =~= mounts);
    }
}

/// No mount is lost or kept twice: the mounts of a disk and those of the others
/// make up all of them, and share none.
pub proof fn removal_splits_the_mounts<T>(mounts: Map<Key, T>, disk: Seq<char>)
    ensures
        on_disk(mounts, disk).union_prefer_right(off_disk(mounts, disk)) == mounts,
        on_disk(mounts, disk).dom().disjoint(off_disk(mounts, disk).dom()),
{
    assert(on_disk(mounts, disk).union_prefer_right(off_disk(mounts, disk)) =~= mounts);
}

/// A mount is identified by its disk and its partition number, and by nothing
/// else.
pub proof fn mounts_differ_in_disk_or_partition<T>(mounts: Seq<Mount<T>>)
    ensures
        distinct(mounts) <==> forall|i: int, j: int|
            0 <= i < j < mounts.len() ==> (#[trigger] mounts[i]).disk@ != (
            #[trigger] mounts[j]).disk@ || mounts[i].part != mounts[j].part,
{
    if distinct(mounts) {
        assert forall|i: int, j: int| 0 <= i < j < mounts.len() implies (
        #[trigger] mounts[i]).disk@ != (#[trigger] mounts[j]).disk@ || mounts[i].part
            != mounts[j].part by {
            assert(mounts[i].key() != mounts[j].key());
        }
    }
}

/// What a list of distinct mounts says: each mount's value is found under its
/// disk and partition, and nothing is found that is not in the list.
pub proof fn mounts_are_found_by_disk_and_partition<T>(mounts: Seq<Mount<T>>, i: int, k: Key)
    requires
        distinct(mounts),
        0 <= i < mounts.len(),
    ensures
        as_map(mounts).contains_key((mounts[i].disk@, mounts[i].part)),
        as_map(mounts)[(mounts[i].disk@, mounts[i].part)] == mounts[i].value,
        as_map(mounts).contains_key(k) <==> exists|j: int|
            0 <= j < mounts.len() && (#[trigger] mounts[j]).disk@ == k.0 && mounts[j].part == k.1,
{
    lemma_map_has(mounts, i);
    lemma_map_keys(mounts);
    assert(mounts[i].key() == (mounts[i].disk@, mounts[i].part));
    if as_map(mounts).contains_key(k) {
        let j = choose|j: int| 0 <= j < mounts.len() && (#[trigger] mounts[j]).key() == k;
        assert(mounts[j].disk@ == k.0 && mounts[j].part == k.1);
    }
    if exists|j: int|
        0 <= j < mounts.len() && (#[trigger] mounts[j]).disk@ == k.0 && mounts[j].part == k.1 {
        let j = choose|j: int|
            0 <= j < mounts.len() && (#[trigger] mounts[j]).disk@ == k.0 && mounts[j].part == k.1;
        assert(mounts[j].key() == k);
    }
}

/// Removing a disk takes exactly the mounts whose disk path is the same, letter
/// for letter, and leaves every other mount with its value.
pub proof fn removal_goes_by_the_exact_path<T>(mounts: Map<Key, T>, disk: Seq<char>, k: Key)
    ensures
        on_disk(mounts, disk).contains_key(k) <==> mounts.contains_key(k) && k.0 == disk,
        off_disk(mounts, disk).contains_key(k) <==> mounts.contains_key(k) && k.0 != disk,
        mounts.contains_key(k) && k.0 == disk ==> on_disk(mounts, disk)[k] == mounts[k],
        mounts.contains_key(k) && k.0 != disk ==> off_disk(mounts, disk)[k] == mounts[k],
{
}

/// An arrival is acted on exactly if the process is not shutting down and there
/// is a session to mount in; while shutting down, no session makes a difference.
pub proof fn arrivals_wait_for_a_session<T>(s: State<T>, session: bool, a: Admission)
    requires
        call_ensures(State::<T>::consider, (&s, session), a),
    ensures
        a == Admission::List <==> !s@.shutting_down && session,
        a == Admission::Defer <==> !s@.shutting_down && !session,
        a == Admission::Ignore <==> s@.shutting_down,
{
}

/// A new process has mounted nothing and acts on arrivals.
pub proof fn nothing_is_mounted_at_first<T>(s: State<T>, k: Key)
    requires
        call_ensures(State::<T>::new, (), s),
    ensures
        !s@.mounts.contains_key(k),
        !s@.shutting_down,
{
}

} // verus!
