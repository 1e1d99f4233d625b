//! The course of a disk arrival.
//!
//! [`Arrival`] decides, step by step, what to do about a disk that has arrived:
//! which partitions to probe, when to look for a drive letter, when to launch a
//! mount. The caller does each step and reports back.

use vstd::prelude::*;

use crate::partition;
use crate::partition::Partition;
use crate::partition::PartitionError;
use crate::partition::PartitionView;
use crate::probe;

verus! {

/// A place on the disk where a filesystem may start.
#[derive(Debug, Clone, Copy, PartialEq, Eq, Structural)]
pub struct ProbeTarget {
    /// 1-indexed partition number; 0 is the whole disk.
    pub part: usize,
    /// Byte offset on the disk.
    pub offset: u64,
}

/// Where partition `i` of a listing is probed. Numbers follow the listing, from
/// 1; a partition that starts beyond 64-bit byte addresses cannot be read and is
/// not probed.
pub open spec fn target(parts: Seq<PartitionView>, i: int) -> Option<ProbeTarget> {
    if parts[i].start_lba * 512 <= u64::MAX {
        Some(ProbeTarget { part: (i + 1) as usize, offset: (parts[i].start_lba * 512) as u64 })
    } else {
        None
    }
}

/// Where the partitions of a listing are probed, in order.
pub open spec fn targets(parts: Seq<PartitionView>) -> Seq<ProbeTarget> {
    partition::collect_some(|i: int| target(parts, i), parts.len())
}

/// A disk without a partition table is probed as a whole, from its start.
pub open spec fn whole_disk() -> Seq<ProbeTarget> {
    seq![ProbeTarget { part: 0, offset: 0 }]
}

/// What the arrival waits for at its current target.
#[derive(Debug, Clone, Copy, PartialEq, Eq, Structural)]
pub enum Stage {
    /// Whether the consumer's filesystem starts there.
    Probe,
    /// Which drive letters are in use.
    Choose,
    /// The launch of the mount on this letter.
    Launch(char),
}

/// What the caller has to do next.
#[derive(Debug, Clone, Copy, PartialEq, Eq, Structural)]
pub enum Step {
    /// Probe the disk at this offset and report with [`Arrival::probed`].
    Probe { part: usize, offset: u64 },
    /// Query the drives in use and report with [`Arrival::drives`].
    QueryDrives { part: usize },
    /// Launch the mount and report with [`Arrival::launched`].
    Launch { part: usize, letter: char },
    /// Nothing: the arrival has been dealt with.
    Finished,
}

/// A disk arrival that is being dealt with.
pub struct Arrival {
    targets: Vec<ProbeTarget>,
    at: usize,
    stage: Stage,
}

/// What an [`Arrival`] says: the targets, the current one, and what is awaited
/// there.
pub struct ArrivalView {
    pub targets: Seq<ProbeTarget>,
    pub at: int,
    pub stage: Stage,
}

impl View for Arrival {
    type V = ArrivalView;

    closed spec fn view(&self) -> ArrivalView {
        ArrivalView { targets: self.targets@, at: self.at as int, stage: self.stage }
    }
}

impl ArrivalView {
    /// There is a current target, or all targets are done.
    pub open spec fn wf(self) -> bool {
        &&& 0 <= self.at <= self.targets.len()
        &&& self.at == self.targets.len() ==> self.stage == Stage::Probe
    }

    /// An arrival that starts at the first of its targets.
    pub open spec fn begin(targets: Seq<ProbeTarget>) -> ArrivalView {
        ArrivalView { targets, at: 0, stage: Stage::Probe }
    }

    /// On to the next target.
    pub open spec fn next(self) -> ArrivalView {
        ArrivalView { at: self.at + 1, stage: Stage::Probe, ..self }
    }

    /// What follows a probe: a filesystem that was found needs a drive letter.
    pub open spec fn after_probe(self, found: bool) -> ArrivalView {
        if found {
            ArrivalView { stage: Stage::Choose, ..self }
        } else {
            self.next()
        }
    }

    /// What follows the query of the drives in use: the lowest free letter is
    /// mounted on; without one, the target is given up.
    pub open spec fn after_drives(self, in_use: u32) -> ArrivalView {
        match probe::first_free(in_use, 4) {
            Some(letter) => ArrivalView { stage: Stage::Launch(letter), ..self },
            None => self.next(),
        }
    }

    /// What there is to do.
    pub open spec fn step(self) -> Step {
        if self.at == self.targets.len() {
            Step::Finished
        } else {
            let t = self.targets[self.at];
            match self.stage {
                Stage::Probe => Step::Probe { part: t.part, offset: t.offset },
                Stage::Choose => Step::QueryDrives { part: t.part },
                Stage::Launch(letter) => Step::Launch { part: t.part, letter },
            }
        }
    }

    /// How many reports can still come, at most.
    pub open spec fn remaining(self) -> int {
        3 * (self.targets.len() - self.at) - match self.stage {
            Stage::Probe => 0int,
            Stage::Choose => 1,
            Stage::Launch(_) => 2,
        }
    }
}

/// Where the partitions of a listing are probed, in order.
pub fn probe_targets(parts: &Vec<Partition>) -> (out: Vec<ProbeTarget>)
    ensures
        out@ == targets(partition::views(parts@)),
{
    let ghost views = partition::views(parts@);
    let ghost f = |i: int| target(views, i);
    let mut out: Vec<ProbeTarget> = Vec::new();
    let mut i: usize = 0;
    while i < parts.len()
        invariant
            i <= parts.len(),
            views == partition::views(parts@),
            f == (|i: int| target(views, i)),
            out@ == partition::collect_some(f, i as nat),
        decreases parts.len() - i,
    {
        assert(views[i as int] == parts@[i as int]@);
        match parts[i].start_lba.checked_mul(512) {
            Some(offset) => {
                out.push(ProbeTarget { part: i + 1, offset });
            },
            None => {},
        }
        assert(out@ =~= partition::collect_some(f, (i + 1) as nat));
        i = i + 1;
    }
    out
}

impl Arrival {
    /// There is a current target, or all targets are done.
    #[verifier::type_invariant]
    spec fn inv(&self) -> bool {
        self@.wf()
    }

    /// Begin with what listing the disk's partitions gave: its partitions, or,
    /// where there is no partition table, the disk as a whole. Any other error
    /// ends the arrival.
    pub fn begin(listing: Result<Vec<Partition>, PartitionError>) -> (r: Result<
        Arrival,
        PartitionError,
    >)
        ensures
            r is Ok <==> listing is Ok || listing->Err_0 is NoMbrSignature,
            r matches Ok(a) ==> a@.wf() && a@ == ArrivalView::begin(
                match listing {
                    Ok(parts) => targets(partition::views(parts@)),
                    Err(_) => whole_disk(),
                },
            ),
            r matches Err(e) ==> e == listing->Err_0,
    {
        match listing {
            Ok(parts) => {
                let targets: Vec<ProbeTarget> = probe_targets(&parts);
                Ok(Arrival { targets, at: 0, stage: Stage::Probe })
            },
            Err(PartitionError::NoMbrSignature) => {
                let mut targets: Vec<ProbeTarget> = Vec::new();
                targets.push(ProbeTarget { part: 0, offset: 0 });
                assert(targets@ =~= whole_disk());
                Ok(Arrival { targets, at: 0, stage: Stage::Probe })
            },
            Err(e) => Err(e),
        }
    }

    /// What the caller has to do next.
    pub fn step(&self) -> (s: Step)
        ensures
            s == self@.step(),
    {
        proof {
            use_type_invariant(self);
        }
        if self.at == self.targets.len() {
            return Step::Finished;
        }
        let t: ProbeTarget = self.targets[self.at];
        match self.stage {
            Stage::Probe => Step::Probe { part: t.part, offset: t.offset },
            Stage::Choose => Step::QueryDrives { part: t.part },
            Stage::Launch(letter) => Step::Launch { part: t.part, letter },
        }
    }

    /// Report whether the consumer's filesystem was found. A probe that could
    /// not be made found nothing.
    pub fn probed(&mut self, found: bool)
        requires
            old(self)@.step() is Probe,
        ensures
            final(self)@.wf(),
            final(self)@ == old(self)@.after_probe(found),
    {
        proof {
            use_type_invariant(&*self);
        }
        assert(self.at < self.targets.len());
        if found {
            self.stage = Stage::Choose;
        } else {
            self.at = self.at + 1;
        }
    }

    /// Report the mask of drives in use. Gives back the letter to mount on;
    /// `None` if no letter is free, and the target is given up.
    pub fn drives(&mut self, in_use: u32) -> (letter: Option<char>)
        requires
            old(self)@.step() is QueryDrives,
        ensures
            final(self)@.wf(),
            final(self)@ == old(self)@.after_drives(in_use),
            letter == probe::first_free(in_use, 4),
    {
        proof {
            use_type_invariant(&*self);
        }
        assert(self.at < self.targets.len());
        let letter: Option<char> = probe::pick_drive_letter(in_use);
        match letter {
            Some(c) => {
                self.stage = Stage::Launch(c);
            },
            None => {
                self.stage = Stage::Probe;
                self.at = self.at + 1;
            },
        }
        letter
    }

    /// Report that the launch was attempted, with or without success.
    pub fn launched(&mut self)
        requires
            old(self)@.step() is Launch,
        ensures
            final(self)@.wf(),
            final(self)@ == old(self)@.next(),
    {
        proof {
            use_type_invariant(&*self);
        }
        assert(self.at < self.targets.len());
        self.stage = Stage::Probe;
        self.at = self.at + 1;
    }
}

/// Every report brings the arrival closer to its end, and it ends when no report
/// can come any more.
pub proof fn arrival_ends(v: ArrivalView, found: bool, in_use: u32)
    requires
        v.wf(),
    ensures
        v.remaining() >= 0,
        v.remaining() == 0 <==> v.step() == Step::Finished,
        v.step() is Probe ==> v.after_probe(found).wf() && v.after_probe(found).remaining()
            < v.remaining(),
        v.step() is QueryDrives ==> v.after_drives(in_use).wf() && v.after_drives(
            in_use,
        ).remaining() < v.remaining(),
        v.step() is Launch ==> v.next().wf() && v.next().remaining() < v.remaining(),
{
}

/// The launches of an arrival from `v` on: `found(i)` is the verdict on target
/// `i`, `in_use(i)` the mask of drives in use when it is asked for.
pub open spec fn launches(
    v: ArrivalView,
    found: spec_fn(int) -> bool,
    in_use: spec_fn(int) -> u32,
) -> Seq<(usize, char)>
    decreases v.remaining(),
    when v.wf()
{
    match v.step() {
        Step::Finished => Seq::empty(),
        Step::Probe { .. } => launches(v.after_probe(found(v.at)), found, in_use),
        Step::QueryDrives { .. } => launches(v.after_drives(in_use(v.at)), found, in_use),
        Step::Launch { part, letter } => seq![(part, letter)] + launches(v.next(), found, in_use),
    }
}

/// The launch for target `i`: only if the filesystem was found there and a
/// letter was free, and then on the lowest free one.
pub open spec fn launch_for(
    ts: Seq<ProbeTarget>,
    found: spec_fn(int) -> bool,
    in_use: spec_fn(int) -> u32,
    i: int,
) -> Option<(usize, char)> {
    if found(i) {
        match probe::first_free(in_use(i), 4) {
            Some(letter) => Some((ts[i].part, letter)),
            None => None,
        }
    } else {
        None
    }
}

proof fn lemma_launches_from(
    ts: Seq<ProbeTarget>,
    at: int,
    found: spec_fn(int) -> bool,
    in_use: spec_fn(int) -> u32,
)
    requires
        0 <= at <= ts.len(),
    ensures
        partition::collect_some(|i: int| launch_for(ts, found, in_use, i), at as nat) + launches(
            ArrivalView { targets: ts, at, stage: Stage::Probe },
            found,
            in_use,
        ) == partition::collect_some(|i: int| launch_for(ts, found, in_use, i), ts.len()),
    decreases ts.len() - at,
{
    let f = |i: int| launch_for(ts, found, in_use, i);
    let v = ArrivalView { targets: ts, at, stage: Stage::Probe };
    let done = partition::collect_some(f, at as nat);
    if at < ts.len() {
        lemma_launches_from(ts, at + 1, found, in_use);
        let rest = launches(v.next(), found, in_use);
        let chosen = v.after_probe(true);
        assert(v.next() == (ArrivalView { targets: ts, at: at + 1, stage: Stage::Probe }));
        if found(at) {
            assert(launches(v, found, in_use) == launches(chosen, found, in_use));
            match probe::first_free(in_use(at), 4) {
                Some(letter) => {
                    let launching = chosen.after_drives(in_use(at));
                    assert(launches(chosen, found, in_use) == launches(launching, found, in_use));
                    assert(launching.next() == v.next());
                    assert(launches(launching, found, in_use) == seq![(ts[at].part, letter)]
                        + rest);
                    assert(done + (seq![(ts[at].part, letter)] + rest) =~= done.push(
                        (ts[at].part, letter),
                    ) + rest);
                },
                None => {
                    assert(chosen.after_drives(in_use(at)) == v.next());
                },
            }
        }
        assert(partition::collect_some(f, (at + 1) as nat) + rest == done + launches(
            v,
            found,
            in_use,
        ));
    } else {
        assert(done + launches(v, found, in_use) =~= done);
    }
}

/// An arrival launches exactly the mounts it should: in target order, one for
/// each target where the filesystem was found and a letter was free, on the
/// lowest free letter, and no other.
pub proof fn arrival_launches_exactly_what_was_found(
    ts: Seq<ProbeTarget>,
    found: spec_fn(int) -> bool,
    in_use: spec_fn(int) -> u32,
)
    ensures
        launches(ArrivalView::begin(ts), found, in_use) == partition::collect_some(
            |i: int| launch_for(ts, found, in_use, i),
            ts.len(),
        ),
{
    lemma_launches_from(ts, 0, found, in_use);
    let f = |i: int| launch_for(ts, found, in_use, i);
    assert(partition::collect_some(f, 0) + launches(ArrivalView::begin(ts), found, in_use)
        =~= launches(ArrivalView::begin(ts), found, in_use));
}

/// Concurrent mounts get different letters, as far as Windows shows them: a
/// target is not launched on the letter of an earlier one whose drive is in use
/// by the time it is asked for.
pub proof fn later_launch_avoids_letters_in_use(
    ts: Seq<ProbeTarget>,
    found: spec_fn(int) -> bool,
    in_use: spec_fn(int) -> u32,
    i: int,
    j: int,
    earlier: (usize, char),
    later: (usize, char),
    drive: u32,
)
    requires
        launch_for(ts, found, in_use, i) == Some(earlier),
        launch_for(ts, found, in_use, j) == Some(later),
        drive < 26,
        earlier.1 == probe::drive_letter(drive),
        probe::drive_in_use(in_use(j), drive),
    ensures
        later.1 != earlier.1,
{
    probe::picked_letter_is_lowest_free(in_use(j));
}

proof fn lemma_targets(parts: Seq<PartitionView>, n: nat)
    requires
        n <= parts.len() <= usize::MAX,
        forall|k: int| 0 <= k < parts.len() ==> 0 <= (#[trigger] parts[k]).start_lba,
    ensures
        ({
            let ts = partition::collect_some(|i: int| target(parts, i), n);
            &&& forall|j: int|
                0 <= j < ts.len() ==> {
                    let t = #[trigger] ts[j];
                    1 <= t.part <= n && t.offset == 512 * parts[t.part - 1].start_lba
                }
            &&& forall|j: int, k: int|
                0 <= j < k < ts.len() ==> (#[trigger] ts[j]).part < (#[trigger] ts[k]).part
        }),
    decreases n,
{
    if n > 0 {
        lemma_targets(parts, (n - 1) as nat);
    }
}

/// Every probe target of a listing lies at 512 times the first sector of the
/// partition with its number, whatever else is known of the partition; every
/// partition whose start has a 64-bit byte address has a target; and targets
/// come in the order of the listing, at most one for each partition.
pub proof fn partitions_are_probed_where_they_start(
    parts: Vec<Partition>,
    out: Vec<ProbeTarget>,
    i: int,
    j: int,
)
    requires
        call_ensures(probe_targets, (&parts,), out),
    ensures
        0 <= j < out@.len() ==> {
            let t = out@[j];
            &&& 1 <= t.part <= parts@.len()
            &&& t.offset == 512 * parts@[t.part - 1].start_lba
        },
        0 <= i < parts@.len() && 512 * parts@[i].start_lba <= u64::MAX ==> exists|k: int|
            0 <= k < out@.len() && (#[trigger] out@[k]).part == i + 1,
        0 <= i < j < out@.len() ==> out@[i].part < out@[j].part,
{
    let views = partition::views(parts@);
    let f = |k: int| target(views, k);
    assert(parts.len() <= usize::MAX);
    assert forall|k: int| 0 <= k < views.len() implies 0 <= (#[trigger] views[k]).start_lba
        && views[k].start_lba == parts@[k].start_lba by {
        partition::views_are_the_fields(parts@, k);
    }
    assert(views.len() == parts@.len());
    lemma_targets(views, views.len());
    if 0 <= i < parts@.len() && 512 * parts@[i].start_lba <= u64::MAX {
        partition::collecting_keeps_order(f, views.len(), i);
        assert(f(i) is Some);
        let k = partition::how_many(|k: int| f(k) is Some, i as nat) as int;
        assert(Some(out@[k]) == f(i));
    }
}

/// A listing leads to its partitions; a missing partition table to one probe of
/// the whole disk, at its start; any other error to nothing at all.
pub proof fn arrival_begins_with_the_listing(
    listing: Result<Vec<Partition>, PartitionError>,
    r: Result<Arrival, PartitionError>,
    out: Vec<ProbeTarget>,
    first: Step,
)
    requires
        call_ensures(Arrival::begin, (listing,), r),
        listing is Ok ==> call_ensures(probe_targets, (&listing->Ok_0,), out),
        r is Ok ==> call_ensures(Arrival::step, (&r->Ok_0,), first),
    ensures
        listing is Ok ==> {
            &&& r is Ok
            &&& r->Ok_0@.targets == out@
            &&& out@.len() == 0 ==> first == Step::Finished
            &&& out@.len() > 0 ==> first == (Step::Probe {
                part: out@[0].part,
                offset: out@[0].offset,
            })
        },
        listing matches Err(PartitionError::NoMbrSignature) ==> {
            &&& r is Ok
            &&& r->Ok_0@.targets.len() == 1
            &&& first == (Step::Probe { part: 0, offset: 0 })
        },
        listing matches Err(e) ==> !(e is NoMbrSignature) ==> r == Err::<Arrival, PartitionError>(e),
{
}

/// At each target the same partition is probed, asked a letter for and launched,
/// in that order; a step that comes to nothing leads to the probe of the next
/// target, at that target's own offset.
pub proof fn steps_concern_the_current_target(v: ArrivalView, found: bool, in_use: u32)
    requires
        v.wf(),
    ensures
        ({
            let ahead = if v.at + 1 >= v.targets.len() {
                Step::Finished
            } else {
                Step::Probe {
                    part: v.targets[v.at + 1].part,
                    offset: v.targets[v.at + 1].offset,
                }
            };
            &&& v.at == v.targets.len() ==> v.step() == Step::Finished
            &&& v.at < v.targets.len() && v.stage == Stage::Probe ==> {
                &&& v.step() == (Step::Probe {
                    part: v.targets[v.at].part,
                    offset: v.targets[v.at].offset,
                })
                &&& found ==> v.after_probe(found).step() == (Step::QueryDrives {
                    part: v.targets[v.at].part,
                })
                &&& !found ==> v.after_probe(found).step() == ahead
            }
            &&& v.step() is QueryDrives ==> match probe::first_free(in_use, 4) {
                Some(c) => v.after_drives(in_use).step() == (Step::Launch {
                    part: v.targets[v.at].part,
                    letter: c,
                }),
                None => v.after_drives(in_use).step() == ahead,
            }
            &&& v.step() is Launch ==> v.next().step() == ahead
            &&& v.after_probe(found).targets == v.targets
            &&& v.after_drives(in_use).targets == v.targets
            &&& v.next().targets == v.targets
        }),
{
}

/// An arrival launches a mount for target `i` exactly if the filesystem was found
/// there and a letter was free, with the target's partition number and the letter
/// that is picked, behind the launches for the targets in front of it.
pub proof fn every_hit_with_a_letter_is_launched(
    ts: Seq<ProbeTarget>,
    found: spec_fn(int) -> bool,
    in_use: spec_fn(int) -> u32,
    i: int,
    letter: Option<char>,
)
    requires
        0 <= i < ts.len(),
        call_ensures(probe::pick_drive_letter, (in_use(i),), letter),
    ensures
        ({
            let all = launches(ArrivalView::begin(ts), found, in_use);
            let hit = |k: int| found(k) && probe::first_free(in_use(k), 4) is Some;
            let at = partition::how_many(hit, i as nat) as int;
            &&& all.len() == partition::how_many(hit, ts.len())
            &&& found(i) && letter is Some ==> at < all.len() && all[at] == (
                ts[i].part,
                letter->0,
            )
        }),
{
    arrival_launches_exactly_what_was_found(ts, found, in_use);
    let f = |k: int| launch_for(ts, found, in_use, k);
    let has = |k: int| f(k) is Some;
    let hit = |k: int| found(k) && probe::first_free(in_use(k), 4) is Some;
    assert(has =~= hit);
    partition::collecting_keeps_order(f, ts.len(), i);
}

} // verus!
