use crate::artifacts::SniffError;
use vstd::prelude::*;

verus! {

/// One achievement as the packet decoder hands it over.
#[derive(Clone, Copy, PartialEq, Eq, Structural, Debug)]
pub struct AchievementRecord {
    pub id: u32,
    pub status: u32,
}

/// Statuses 2 and 3 mark an unlocked achievement.
pub open spec fn is_unlocked(status: u32) -> bool {
    status == 2 || status == 3
}

/// The ids of a batch that were asked for and are unlocked, in batch order.
pub open spec fn unlocked_wanted(wanted: Seq<u32>, batch: Seq<AchievementRecord>) -> Seq<u32>
    decreases batch.len(),
{
    if batch.len() == 0 {
        seq![]
    } else {
        let p = unlocked_wanted(wanted, batch.drop_last());
        let a = batch.last();
        if wanted.contains(a.id) && is_unlocked(a.status) {
            p.push(a.id)
        } else {
            p
        }
    }
}

/// The result of a run over the decoded batches: the first batch that gives any
/// id wins, every later batch is ignored.
pub open spec fn sniffed_achievements(wanted: Seq<u32>, batches: Seq<Seq<AchievementRecord>>) -> Seq<u32>
    decreases batches.len(),
{
    if batches.len() == 0 {
        seq![]
    } else {
        let p = sniffed_achievements(wanted, batches.drop_last());
        if p.len() > 0 {
            p
        } else {
            unlocked_wanted(wanted, batches.last())
        }
    }
}

fn contains_id(ids: &Vec<u32>, id: u32) -> (r: bool)
    ensures
        r == ids@.contains(id),
{
    let mut i: usize = 0;
    while i < ids.len()
        invariant
            i <= ids.len(),
            forall|t: int| 0 <= t < i ==> ids@[t] != id,
        decreases ids.len() - i,
    {
        if ids[i] == id {
            return true;
        }
        i = i + 1;
    }
    false
}

/// The ids of `batch` that are in `wanted` and whose status is 2 or 3.
pub fn filter_achievements(wanted: &Vec<u32>, batch: &Vec<AchievementRecord>) -> (r: Vec<u32>)
    ensures
        r@ == unlocked_wanted(wanted@, batch@),
{
    let mut out: Vec<u32> = Vec::new();
    let mut i: usize = 0;
    while i < batch.len()
        invariant
            i <= batch.len(),
            out@ == unlocked_wanted(wanted@, batch@.take(i as int)),
        decreases batch.len() - i,
    {
        proof {
            assert(batch@.take(i + 1).drop_last() == batch@.take(i as int));
            assert(batch@.take(i + 1).last() == batch@[i as int]);
        }
        let a = batch[i];
        if contains_id(wanted, a.id) && (a.status == 2 || a.status == 3) {
            out.push(a.id);
        }
        i = i + 1;
    }
    assert(batch@.take(batch.len() as int) == batch@);
    out
}

/// Accumulator of an achievement extraction run, fed one decoded batch at a time.
pub struct AchievementSniff {
    pub achievements: Vec<u32>,
}

impl AchievementSniff {
    pub fn new() -> (r: AchievementSniff)
        ensures
            r.achievements@.len() == 0,
    {
        AchievementSniff { achievements: Vec::new() }
    }

    /// True once a batch has given a result: no further datagram is needed.
    pub fn is_done(&self) -> (r: bool)
        ensures
            r == (self.achievements@.len() > 0),
    {
        self.achievements.len() > 0
    }

    /// Takes one decoded achievement batch. Once a result is held, batches are ignored.
    pub fn on_batch(&mut self, wanted: &Vec<u32>, batch: &Vec<AchievementRecord>)
        ensures
            old(self).achievements@.len() > 0 ==> final(self).achievements@ == old(
                self,
            ).achievements@,
            old(self).achievements@.len() == 0 ==> final(self).achievements@ == unlocked_wanted(
                wanted@,
                batch@,
            ),
    {
        if self.achievements.len() == 0 {
            self.achievements = filter_achievements(wanted, batch);
        }
    }

    /// The result of the run: the held ids, or `NotFound` when no batch gave any.
    pub fn finish(self) -> (r: Result<Vec<u32>, SniffError>)
        ensures
            self.achievements@.len() > 0 ==> (r matches Ok(v) && v@ == self.achievements@),
            self.achievements@.len() == 0 ==> r == Err::<Vec<u32>, SniffError>(SniffError::NotFound),
    {
        if self.achievements.len() > 0 {
            Ok(self.achievements)
        } else {
            Err(SniffError::NotFound)
        }
    }
}

/// Runs an achievement extraction over a finite stream of decoded batches.
pub fn sniff(achievement_ids: &Vec<u32>, batches: &Vec<Vec<AchievementRecord>>) -> (r: Result<
    Vec<u32>,
    SniffError,
>)
    ensures
        ({
            let want = sniffed_achievements(
                achievement_ids@,
                batches@.map_values(|b: Vec<AchievementRecord>| b@),
            );
            &&& want.len() > 0 ==> (r matches Ok(v) && v@ == want)
            &&& want.len() == 0 ==> r == Err::<Vec<u32>, SniffError>(SniffError::NotFound)
        }),
{
    let ghost all = batches@.map_values(|b: Vec<AchievementRecord>| b@);
    let mut sniff = AchievementSniff::new();
    let mut i: usize = 0;
    while i < batches.len() && !sniff.is_done()
        invariant
            i <= batches.len(),
            all == batches@.map_values(|b: Vec<AchievementRecord>| b@),
            sniff.achievements@ == sniffed_achievements(achievement_ids@, all.take(i as int)),
        decreases batches.len() - i,
    {
        proof {
            assert(all.take(i + 1).drop_last() == all.take(i as int));
            assert(all.take(i + 1).last() == batches@[i as int]@);
        }
        sniff.on_batch(achievement_ids, &batches[i]);
        i = i + 1;
    }
    proof {
        if i < batches.len() {
            lemma_first_achievements_kept(
                achievement_ids@,
                all.take(i as int),
                all.subrange(i as int, all.len() as int),
            );
            assert(all.take(i as int) + all.subrange(i as int, all.len() as int) == all);
        } else {
            assert(all.take(i as int) == all);
        }
    }
    sniff.finish()
}

/// The ids reported for a batch are exactly those asked for whose record in the
/// batch has status 2 or 3.
pub proof fn lemma_unlocked_wanted_exact(wanted: Seq<u32>, batch: Seq<AchievementRecord>, id: u32)
    ensures
        unlocked_wanted(wanted, batch).contains(id) <==> (wanted.contains(id) && exists|i: int|
            0 <= i < batch.len() && (#[trigger] batch[i]).id == id && is_unlocked(batch[i].status)),
    decreases batch.len(),
{
    if batch.len() > 0 {
        let d = batch.drop_last();
        lemma_unlocked_wanted_exact(wanted, d, id);
        let p = unlocked_wanted(wanted, d);
        if unlocked_wanted(wanted, batch).contains(id) {
            let a = batch.last();
            if wanted.contains(a.id) && is_unlocked(a.status) && a.id == id {
                assert(batch[batch.len() - 1] == a);
            } else {
                if wanted.contains(a.id) && is_unlocked(a.status) {
                    let k = choose|k: int| 0 <= k < p.push(a.id).len() && p.push(a.id)[k] == id;
                    assert(p[k] == id);
                }
                assert(p.contains(id));
                let i = choose|i: int| 0 <= i < d.len() && (#[trigger] d[i]).id == id && is_unlocked(d[i].status);
                assert(batch[i] == d[i]);
            }
        }
        if wanted.contains(id) && exists|i: int|
            0 <= i < batch.len() && (#[trigger] batch[i]).id == id && is_unlocked(batch[i].status) {
            let i = choose|i: int| 0 <= i < batch.len() && (#[trigger] batch[i]).id == id && is_unlocked(batch[i].status);
            if i < d.len() {
                assert(d[i] == batch[i]);
                assert(p.contains(id));
                let k = choose|k: int| 0 <= k < p.len() && p[k] == id;
                if wanted.contains(batch.last().id) && is_unlocked(batch.last().status) {
                    assert(p.push(batch.last().id)[k] == id);
                }
            } else {
                assert(p.push(id)[p.len() as int] == id);
            }
        }
    }
}

/// Once a run holds a result, any batches that follow leave it as it is.
pub proof fn lemma_first_achievements_kept(
    wanted: Seq<u32>,
    batches: Seq<Seq<AchievementRecord>>,
    later: Seq<Seq<AchievementRecord>>,
)
    requires
        sniffed_achievements(wanted, batches).len() > 0,
    ensures
        sniffed_achievements(wanted, batches + later) == sniffed_achievements(wanted, batches),
    decreases later.len(),
{
    if later.len() > 0 {
        lemma_first_achievements_kept(wanted, batches, later.drop_last());
        assert((batches + later).drop_last() == batches + later.drop_last());
    }
}

/// A stream in which no batch gives an id ends in no result.
pub proof fn lemma_no_match_no_result(wanted: Seq<u32>, batches: Seq<Seq<AchievementRecord>>)
    requires
        forall|i: int| 0 <= i < batches.len() ==> unlocked_wanted(wanted, #[trigger] batches[i]).len() == 0,
    ensures
        sniffed_achievements(wanted, batches).len() == 0,
    decreases batches.len(),
{
    if batches.len() > 0 {
        let d = batches.drop_last();
        assert forall|i: int| 0 <= i < d.len() implies unlocked_wanted(wanted, #[trigger] d[i]).len() == 0 by {
            assert(d[i] == batches[i]);
        }
        lemma_no_match_no_result(wanted, d);
    }
}

} // verus!
