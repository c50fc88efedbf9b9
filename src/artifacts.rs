use std::collections::HashMap;
use vstd::prelude::*;

verus! {

broadcast use vstd::std_specs::hash::group_hash_axioms;

/// Stat values are fixed-point numbers: a stored value `v` stands for `v / 10^9`.
pub const VALUE_SCALE: i128 = 1_000_000_000;

/// A secondary stat: a canonical key and a fixed-point value.
pub struct Substat {
    pub key: String,
    pub value: i128,
}

/// Set, slot and rarity of one gear template.
#[allow(non_snake_case)]
pub struct ArtifactData {
    pub setKey: String,
    pub slotKey: String,
    pub rarity: u32,
}

/// One gear item as the packet decoder hands it over.
pub struct RawArtifact {
    pub id: u32,
    pub level: u32,
    pub main_prop_id: u32,
    pub append_prop_id_list: Vec<u32>,
    pub is_locked: bool,
}

/// One normalized gear item.
#[allow(non_snake_case)]
pub struct Artifact {
    pub setKey: String,
    pub slotKey: String,
    pub level: u32,
    pub rarity: u32,
    pub mainStatKey: String,
    pub lock: bool,
    pub substats: Vec<Substat>,
}

pub ghost struct ArtifactView {
    pub set_key: Seq<char>,
    pub slot_key: Seq<char>,
    pub level: u32,
    pub rarity: u32,
    pub main_stat_key: Seq<char>,
    pub lock: bool,
    pub substats: Seq<(Seq<char>, int)>,
}

pub open spec fn substats_view(s: Seq<Substat>) -> Seq<(Seq<char>, int)> {
    s.map_values(|e: Substat| (e.key@, e.value as int))
}

impl View for Artifact {
    type V = ArtifactView;

    open spec fn view(&self) -> ArtifactView {
        ArtifactView {
            set_key: self.setKey@,
            slot_key: self.slotKey@,
            level: self.level,
            rarity: self.rarity,
            main_stat_key: self.mainStatKey@,
            lock: self.lock,
            substats: substats_view(self.substats@),
        }
    }
}

/// A percentage-style key ends with an underscore.
pub open spec fn is_percent_key(k: Seq<char>) -> bool {
    k.len() > 0 && k.last() == '_'
}

/// `n / d` rounded to the nearest integer, halves away from zero (`d` positive and even).
pub open spec fn round_div(n: int, d: int) -> int {
    if n >= 0 {
        (n + d / 2) / d
    } else {
        -((-n + d / 2) / d)
    }
}

/// The value a stacked substat is reported with: percentage-style keys keep one
/// decimal of the value times one hundred, rounded twice (to hundredths, then to
/// tenths); the others are rounded to a whole number.
pub open spec fn normalized_value(key: Seq<char>, v: int) -> int {
    if is_percent_key(key) {
        round_div(round_div(v, 10_000_000), 10) * 100_000_000
    } else {
        round_div(v, 1_000_000_000) * 1_000_000_000
    }
}

/// The rolls of `ids` that resolve in the affix table, in order.
pub open spec fn resolved_rolls(ids: Seq<u32>, affix: Map<u32, Substat>) -> Seq<(Seq<char>, int)>
    decreases ids.len(),
{
    if ids.len() == 0 {
        seq![]
    } else {
        let p = resolved_rolls(ids.drop_last(), affix);
        let id = ids.last();
        if affix.contains_key(id) {
            p.push((affix[id].key@, affix[id].value as int))
        } else {
            p
        }
    }
}

/// Index of the first entry of `acc` with key `k`, or -1 if there is none.
pub open spec fn key_index(acc: Seq<(Seq<char>, int)>, k: Seq<char>) -> int
    decreases acc.len(),
{
    if acc.len() == 0 {
        -1
    } else {
        let j = key_index(acc.drop_last(), k);
        if j >= 0 {
            j
        } else if acc.last().0 == k {
            acc.len() - 1
        } else {
            -1
        }
    }
}

/// Adds one roll: onto the entry with the same key, or as a new last entry.
pub open spec fn stack_roll(acc: Seq<(Seq<char>, int)>, roll: (Seq<char>, int)) -> Seq<(Seq<char>, int)> {
    let j = key_index(acc, roll.0);
    if j >= 0 {
        acc.update(j, (roll.0, acc[j].1 + roll.1))
    } else {
        acc.push(roll)
    }
}

pub open spec fn stacked(rolls: Seq<(Seq<char>, int)>) -> Seq<(Seq<char>, int)>
    decreases rolls.len(),
{
    if rolls.len() == 0 {
        seq![]
    } else {
        stack_roll(stacked(rolls.drop_last()), rolls.last())
    }
}

/// The reported substats of an item with the given rolls.
pub open spec fn substats_of(ids: Seq<u32>, affix: Map<u32, Substat>) -> Seq<(Seq<char>, int)> {
    normalize_entries(stacked(resolved_rolls(ids, affix)))
}

/// Each entry with its value rounded as `normalized_value` says.
pub open spec fn normalize_entries(s: Seq<(Seq<char>, int)>) -> Seq<(Seq<char>, int)> {
    s.map_values(|e: (Seq<char>, int)| (e.0, normalized_value(e.0, e.1)))
}

/// Every value of the affix table fits in 64 bits.
pub open spec fn affix_table_wf(affix: Map<u32, Substat>) -> bool {
    forall|id: u32|
        affix.contains_key(id) ==> i64::MIN <= #[trigger] affix[id].value <= i64::MAX
}

pub proof fn lemma_key_index(acc: Seq<(Seq<char>, int)>, k: Seq<char>)
    ensures
        -1 <= key_index(acc, k) < acc.len(),
        key_index(acc, k) == -1 <==> forall|j: int| 0 <= j < acc.len() ==> acc[j].0 != k,
        key_index(acc, k) >= 0 ==> acc[key_index(acc, k)].0 == k,
        forall|j: int| 0 <= j < key_index(acc, k) ==> acc[j].0 != k,
    decreases acc.len(),
{
    if acc.len() > 0 {
        lemma_key_index(acc.drop_last(), k);
        let d = acc.drop_last();
        assert(forall|j: int| 0 <= j < d.len() ==> d[j] == acc[j]);
    }
}

/// Largest magnitude of a stacked value: as many 64-bit rolls as a `Vec` can hold.
pub const STACK_BOUND: i128 = 0x7fff_ffff_ffff_ffff_8000_0000_0000_0000;

proof fn lemma_round_div_bound(n: int, d: int)
    requires
        2 <= d,
        d % 2 == 0,
    ensures
        round_div(n, d) * d <= n + d / 2,
        round_div(n, d) * d >= n - d / 2,
{
    if n >= 0 {
        let q = (n + d / 2) / d;
        assert(q * d <= n + d / 2 && q * d > n + d / 2 - d) by (nonlinear_arith)
            requires q == (n + d / 2) / d, 2 <= d, n >= 0;
    } else {
        let q = (-n + d / 2) / d;
        assert(q * d <= -n + d / 2 && q * d > -n + d / 2 - d) by (nonlinear_arith)
            requires q == (-n + d / 2) / d, 2 <= d, n < 0;
        assert((-q) * d == -(q * d)) by (nonlinear_arith);
    }
}

fn round_div_exec(n: i128, d: i128) -> (r: i128)
    requires
        0 < d <= 1_000_000_000,
        d % 2 == 0,
        -STACK_BOUND <= n <= STACK_BOUND,
    ensures
        r == round_div(n as int, d as int),
{
    if n >= 0 {
        (n + d / 2) / d
    } else {
        -((-n + d / 2) / d)
    }
}

/// Rounds a stacked substat value as `normalized_value` says.
pub fn normalize_value(key: &String, v: i128) -> (r: i128)
    requires
        -STACK_BOUND <= v <= STACK_BOUND,
    ensures
        r == normalized_value(key@, v as int),
{
    let n = key.as_str().unicode_len();
    let percent = n > 0 && key.as_str().get_char(n - 1) == '_';
    if percent {
        let hundredths = round_div_exec(v, 10_000_000);
        let tenths = round_div_exec(hundredths, 10);
        proof {
            lemma_round_div_bound(v as int, 10_000_000);
            lemma_round_div_bound(hundredths as int, 10);
            assert(-STACK_BOUND - 60_000_000 <= tenths * 100_000_000 <= STACK_BOUND + 60_000_000)
                by (nonlinear_arith)
                requires
                    hundredths * 10_000_000 <= v + 5_000_000,
                    hundredths * 10_000_000 >= v - 5_000_000,
                    tenths * 10 <= hundredths + 5,
                    tenths * 10 >= hundredths - 5,
                    -STACK_BOUND <= v <= STACK_BOUND,
            ;
        }
        tenths * 100_000_000
    } else {
        let whole = round_div_exec(v, 1_000_000_000);
        proof {
            lemma_round_div_bound(v as int, 1_000_000_000);
        }
        whole * 1_000_000_000
    }
}

/// Largest magnitude of a sum of `n` rolls of 64 bits.
pub open spec fn rolls_bound(n: int) -> int {
    n * 0x8000_0000_0000_0000
}

proof fn lemma_rolls_bound(n: int)
    requires
        0 <= n <= usize::MAX,
    ensures
        0 <= rolls_bound(n) <= STACK_BOUND,
        rolls_bound(n) + 0x8000_0000_0000_0000 == rolls_bound(n + 1),
{
    assert(0 <= n * 0x8000_0000_0000_0000 <= 0xffff_ffff_ffff_ffff * 0x8000_0000_0000_0000)
        by (nonlinear_arith)
        requires 0 <= n <= 0xffff_ffff_ffff_ffff;
}

/// Stacks the rolls `ids` of one item: each roll whose affix id resolves is added
/// onto the entry with the same key, or appended as a new entry; each entry is then
/// rounded as `normalized_value` says. Unknown affix ids are skipped.
pub fn collect_substats(affix_map: &HashMap<u32, Substat>, ids: &Vec<u32>) -> (r: Vec<Substat>)
    requires
        affix_table_wf(affix_map@),
    ensures
        substats_view(r@) == substats_of(ids@, affix_map@),
{
    let mut acc: Vec<Substat> = Vec::new();
    let mut i: usize = 0;
    while i < ids.len()
        invariant
            0 <= i <= ids.len(),
            affix_table_wf(affix_map@),
            substats_view(acc@) == stacked(resolved_rolls(ids@.take(i as int), affix_map@)),
            forall|t: int|
                0 <= t < acc.len() ==> -rolls_bound(i as int) <= #[trigger] acc@[t].value
                    <= rolls_bound(i as int),
        decreases ids.len() - i,
    {
        let id = ids[i];
        proof {
            assert(ids@.take(i + 1).drop_last() == ids@.take(i as int));
            assert(ids@.take(i + 1).last() == id);
            lemma_rolls_bound(i as int);
            lemma_rolls_bound(i + 1);
        }
        let ghost before = substats_view(acc@);
        match affix_map.get(&id) {
            Some(roll) => {
                let mut j: usize = 0;
                let mut found = false;
                while !found && j < acc.len()
                    invariant
                        j <= acc.len(),
                        found ==> j < acc.len() && acc@[j as int].key@ == roll.key@,
                        forall|t: int| 0 <= t < j ==> acc@[t].key@ != roll.key@,
                    decreases acc.len() - j + (if found { 0int } else { 1int }),
                {
                    if acc[j].key == roll.key {
                        found = true;
                    } else {
                        j = j + 1;
                    }
                }
                proof {
                    lemma_key_index(before, roll.key@);
                    assert(forall|t: int| 0 <= t < acc.len() ==> #[trigger] before[t] == (acc@[t].key@, acc@[t].value as int));
                    let p = resolved_rolls(ids@.take(i as int), affix_map@);
                    let r = (roll.key@, roll.value as int);
                    assert(resolved_rolls(ids@.take(i + 1), affix_map@) == p.push(r));
                    assert(p.push(r).drop_last() == p);
                    assert(stacked(p.push(r)) == stack_roll(before, r));
                }
                if found {
                    proof {
                        assert(before[j as int].0 == roll.key@);
                        let ki = key_index(before, roll.key@);
                        if ki < j {
                            assert(before[ki].0 == acc@[ki].key@);
                        }
                    }
                    assert(key_index(before, roll.key@) == j);
                    let value = acc[j].value + roll.value;
                    let key = roll.key.clone();
                    acc.set(j, Substat { key, value });
                    assert(substats_view(acc@) =~= before.update(j as int, (roll.key@, before[j as int].1 + roll.value)));
                } else {
                    let key = roll.key.clone();
                    acc.push(Substat { key, value: roll.value });
                    assert(substats_view(acc@) =~= before.push((roll.key@, roll.value as int)));
                }
            },
            None => {
                assert(resolved_rolls(ids@.take(i + 1), affix_map@) == resolved_rolls(ids@.take(i as int), affix_map@));
            },
        }
        i = i + 1;
    }
    proof {
        assert(ids@.take(ids.len() as int) == ids@);
        lemma_rolls_bound(ids.len() as int);
    }
    let ghost totals = substats_view(acc@);
    let mut out: Vec<Substat> = Vec::new();
    let mut j: usize = 0;
    while j < acc.len()
        invariant
            j <= acc.len(),
            totals == substats_view(acc@),
            totals == stacked(resolved_rolls(ids@, affix_map@)),
            forall|t: int|
                0 <= t < acc.len() ==> -STACK_BOUND <= #[trigger] acc@[t].value <= STACK_BOUND,
            out.len() == j,
            substats_view(out@) == normalize_entries(totals.take(j as int)),
        decreases acc.len() - j,
    {
        assert(totals[j as int] == (acc@[j as int].key@, acc@[j as int].value as int));
        let value = normalize_value(&acc[j].key, acc[j].value);
        let key = acc[j].key.clone();
        let ghost prev = out@;
        out.push(Substat { key, value });
        proof {
            assert(forall|t: int| 0 <= t < j ==> #[trigger] out@[t] == prev[t]);
            assert(forall|t: int| 0 <= t < j ==> #[trigger] substats_view(out@)[t] == substats_view(prev)[t]);
            assert(totals.take(j + 1) == totals.take(j as int).push(totals[j as int]));
        }
        proof {
            let n = normalize_entries(totals.take(j + 1));
            assert(n.len() == j + 1);
            assert(forall|t: int| 0 <= t < j ==> n[t] == normalize_entries(totals.take(j as int))[t]);
            assert(n[j as int] == (acc@[j as int].key@, value as int));
            assert(substats_view(out@) =~= n);
        }
        j = j + 1;
    }
    assert(totals.take(acc.len() as int) == totals);
    out
}

pub open spec fn artifacts_view(s: Seq<Artifact>) -> Seq<ArtifactView> {
    s.map_values(|a: Artifact| a@)
}

/// The main stat's key, or `"null"` when the id is unknown.
pub open spec fn main_stat_key_of(main: Map<u32, String>, id: u32) -> Seq<char> {
    if main.contains_key(id) {
        main[id]@
    } else {
        "null"@
    }
}

/// Decoded levels count from one, reported levels from zero. A decoded level of
/// zero, which the protocol never sends, is reported as zero.
pub open spec fn output_level(level: u32) -> u32 {
    if level >= 1 {
        (level - 1) as u32
    } else {
        0
    }
}

/// The normalized form of a decoded item whose template is `t`.
pub open spec fn normalized_artifact(
    raw: RawArtifact,
    t: ArtifactData,
    main: Map<u32, String>,
    affix: Map<u32, Substat>,
) -> ArtifactView {
    ArtifactView {
        set_key: t.setKey@,
        slot_key: t.slotKey@,
        level: output_level(raw.level),
        rarity: t.rarity,
        main_stat_key: main_stat_key_of(main, raw.main_prop_id),
        lock: raw.is_locked,
        substats: substats_of(raw.append_prop_id_list@, affix),
    }
}

/// A decoded batch with the items of unknown templates left out and the others normalized.
pub open spec fn normalized_batch(
    batch: Seq<RawArtifact>,
    types: Map<u32, ArtifactData>,
    main: Map<u32, String>,
    affix: Map<u32, Substat>,
) -> Seq<ArtifactView>
    decreases batch.len(),
{
    if batch.len() == 0 {
        seq![]
    } else {
        let p = normalized_batch(batch.drop_last(), types, main, affix);
        let raw = batch.last();
        if types.contains_key(raw.id) {
            p.push(normalized_artifact(raw, types[raw.id], main, affix))
        } else {
            p
        }
    }
}

fn copy_string(s: &String) -> (r: String)
    ensures
        r@ == s@,
{
    s.clone()
}

/// Normalizes one decoded item of template `t`.
pub fn normalize_artifact(
    t: &ArtifactData,
    main_prop_map: &HashMap<u32, String>,
    affix_prop_map: &HashMap<u32, Substat>,
    raw: &RawArtifact,
) -> (r: Artifact)
    requires
        affix_table_wf(affix_prop_map@),
    ensures
        r@ == normalized_artifact(*raw, *t, main_prop_map@, affix_prop_map@),
{
    let substats = collect_substats(affix_prop_map, &raw.append_prop_id_list);
    let main_stat_key = match main_prop_map.get(&raw.main_prop_id) {
        Some(k) => copy_string(k),
        None => String::from_str("null"),
    };
    let level = if raw.level >= 1 {
        raw.level - 1
    } else {
        0
    };
    Artifact {
        setKey: copy_string(&t.setKey),
        slotKey: copy_string(&t.slotKey),
        level,
        rarity: t.rarity,
        mainStatKey: main_stat_key,
        lock: raw.is_locked,
        substats,
    }
}

/// Normalizes a decoded batch: items whose template id is unknown are left out.
pub fn normalize_artifacts(
    artifact_id_map: &HashMap<u32, ArtifactData>,
    main_prop_map: &HashMap<u32, String>,
    affix_prop_map: &HashMap<u32, Substat>,
    batch: &Vec<RawArtifact>,
) -> (r: Vec<Artifact>)
    requires
        affix_table_wf(affix_prop_map@),
    ensures
        artifacts_view(r@) == normalized_batch(
            batch@,
            artifact_id_map@,
            main_prop_map@,
            affix_prop_map@,
        ),
{
    let mut out: Vec<Artifact> = Vec::new();
    let mut i: usize = 0;
    while i < batch.len()
        invariant
            i <= batch.len(),
            affix_table_wf(affix_prop_map@),
            artifacts_view(out@) == normalized_batch(
                batch@.take(i as int),
                artifact_id_map@,
                main_prop_map@,
                affix_prop_map@,
            ),
        decreases batch.len() - i,
    {
        proof {
            assert(batch@.take(i + 1).drop_last() == batch@.take(i as int));
            assert(batch@.take(i + 1).last() == batch@[i as int]);
        }
        let raw = &batch[i];
        match artifact_id_map.get(&raw.id) {
            Some(t) => {
                let a = normalize_artifact(t, main_prop_map, affix_prop_map, raw);
                let ghost prev = out@;
                out.push(a);
                assert(artifacts_view(out@) =~= artifacts_view(prev).push(a@));
            },
            None => {},
        }
        i = i + 1;
    }
    assert(batch@.take(batch.len() as int) == batch@);
    out
}

/// The export document: a format tag, its version, the producer and the items.
pub struct GOOD {
    pub format: String,
    pub version: u32,
    pub source: String,
    pub artifacts: Vec<Artifact>,
}

impl GOOD {
    pub fn new(artifacts: Vec<Artifact>) -> (r: GOOD)
        ensures
            r.format@ == "GOOD"@,
            r.version == 2,
            r.source@ == "stardb-exporter"@,
            r.artifacts@ == artifacts@,
    {
        GOOD {
            format: String::from_str("GOOD"),
            version: 2,
            source: String::from_str("stardb-exporter"),
            artifacts,
        }
    }
}

/// Why an extraction ended without a result.
#[derive(Clone, Copy, PartialEq, Eq, Structural, Debug)]
pub enum SniffError {
    /// The datagram source ran dry before any batch gave a result.
    NotFound,
}

/// The result of a run over the decoded batches `batches`: the first batch whose
/// normalized form is non-empty wins, every later batch is ignored.
pub open spec fn sniffed_artifacts(
    batches: Seq<Seq<RawArtifact>>,
    types: Map<u32, ArtifactData>,
    main: Map<u32, String>,
    affix: Map<u32, Substat>,
) -> Seq<ArtifactView>
    decreases batches.len(),
{
    if batches.len() == 0 {
        seq![]
    } else {
        let p = sniffed_artifacts(batches.drop_last(), types, main, affix);
        if p.len() > 0 {
            p
        } else {
            normalized_batch(batches.last(), types, main, affix)
        }
    }
}

/// Accumulator of an artifact extraction run, fed one decoded batch at a time.
pub struct ArtifactSniff {
    pub artifacts: Vec<Artifact>,
}

impl ArtifactSniff {
    pub fn new() -> (r: ArtifactSniff)
        ensures
            r.artifacts@.len() == 0,
    {
        ArtifactSniff { artifacts: Vec::new() }
    }

    /// True once a batch has given a result: no further datagram is needed.
    pub fn is_done(&self) -> (r: bool)
        ensures
            r == (self.artifacts@.len() > 0),
    {
        self.artifacts.len() > 0
    }

    /// Takes one decoded artifact batch. Once a result is held, batches are ignored.
    pub fn on_batch(
        &mut self,
        artifact_id_map: &HashMap<u32, ArtifactData>,
        main_prop_map: &HashMap<u32, String>,
        affix_prop_map: &HashMap<u32, Substat>,
        batch: &Vec<RawArtifact>,
    )
        requires
            affix_table_wf(affix_prop_map@),
        ensures
            old(self).artifacts@.len() > 0 ==> artifacts_view(final(self).artifacts@) == artifacts_view(
                old(self).artifacts@,
            ),
            old(self).artifacts@.len() == 0 ==> artifacts_view(final(self).artifacts@)
                == normalized_batch(batch@, artifact_id_map@, main_prop_map@, affix_prop_map@),
    {
        if self.artifacts.len() == 0 {
            self.artifacts = normalize_artifacts(artifact_id_map, main_prop_map, affix_prop_map, batch);
        }
    }

    /// The result of the run: the held items, or `NotFound` when no batch gave any.
    pub fn finish(self) -> (r: Result<Vec<Artifact>, SniffError>)
        ensures
            self.artifacts@.len() > 0 ==> (r matches Ok(v) && artifacts_view(v@) == artifacts_view(
                self.artifacts@,
            )),
            self.artifacts@.len() == 0 ==> r == Err::<Vec<Artifact>, SniffError>(SniffError::NotFound),
    {
        if self.artifacts.len() > 0 {
            Ok(self.artifacts)
        } else {
            Err(SniffError::NotFound)
        }
    }
}

/// Runs an artifact extraction over a finite stream of decoded batches: the first
/// batch with a known template gives the result; an exhausted stream without one
/// is `NotFound`, never an empty success.
pub fn sniff_artifacts(
    artifact_id_map: &HashMap<u32, ArtifactData>,
    main_prop_map: &HashMap<u32, String>,
    affix_prop_map: &HashMap<u32, Substat>,
    batches: &Vec<Vec<RawArtifact>>,
) -> (r: Result<Vec<Artifact>, SniffError>)
    requires
        affix_table_wf(affix_prop_map@),
    ensures
        ({
            let want = sniffed_artifacts(
                batches@.map_values(|b: Vec<RawArtifact>| b@),
                artifact_id_map@,
                main_prop_map@,
                affix_prop_map@,
            );
            &&& want.len() > 0 ==> (r matches Ok(v) && artifacts_view(v@) == want)
            &&& want.len() == 0 ==> r == Err::<Vec<Artifact>, SniffError>(SniffError::NotFound)
        }),
{
    let ghost all = batches@.map_values(|b: Vec<RawArtifact>| b@);
    let mut sniff = ArtifactSniff::new();
    let mut i: usize = 0;
    while i < batches.len() && !sniff.is_done()
        invariant
            i <= batches.len(),
            affix_table_wf(affix_prop_map@),
            all == batches@.map_values(|b: Vec<RawArtifact>| b@),
            artifacts_view(sniff.artifacts@) == sniffed_artifacts(
                all.take(i as int),
                artifact_id_map@,
                main_prop_map@,
                affix_prop_map@,
            ),
        decreases batches.len() - i,
    {
        proof {
            assert(all.take(i + 1).drop_last() == all.take(i as int));
            assert(all.take(i + 1).last() == batches@[i as int]@);
        }
        sniff.on_batch(artifact_id_map, main_prop_map, affix_prop_map, &batches[i]);
        i = i + 1;
    }
    proof {
        if i < batches.len() {
            lemma_first_artifacts_kept(all.take(i as int), all.subrange(i as int, all.len() as int), artifact_id_map@, main_prop_map@, affix_prop_map@);
            assert(all.take(i as int) + all.subrange(i as int, all.len() as int) == all);
        } else {
            assert(all.take(i as int) == all);
        }
    }
    sniff.finish()
}

/// Once a run holds a result, any batches that follow leave it as it is.
pub proof fn lemma_first_artifacts_kept(
    batches: Seq<Seq<RawArtifact>>,
    later: Seq<Seq<RawArtifact>>,
    types: Map<u32, ArtifactData>,
    main: Map<u32, String>,
    affix: Map<u32, Substat>,
)
    requires
        sniffed_artifacts(batches, types, main, affix).len() > 0,
    ensures
        sniffed_artifacts(batches + later, types, main, affix) == sniffed_artifacts(
            batches,
            types,
            main,
            affix,
        ),
    decreases later.len(),
{
    if later.len() > 0 {
        lemma_first_artifacts_kept(batches, later.drop_last(), types, main, affix);
        assert((batches + later).drop_last() == batches + later.drop_last());
    }
}

/// What the roll `id` adds to the entry of key `k`.
pub open spec fn roll_part(affix: Map<u32, Substat>, id: u32, k: Seq<char>) -> int {
    if affix.contains_key(id) && affix[id].key@ == k {
        affix[id].value as int
    } else {
        0
    }
}

/// Sum of the rolls of `ids` whose affix has key `k`.
pub open spec fn key_total(ids: Seq<u32>, affix: Map<u32, Substat>, k: Seq<char>) -> int
    decreases ids.len(),
{
    if ids.len() == 0 {
        0
    } else {
        key_total(ids.drop_last(), affix, k) + roll_part(affix, ids.last(), k)
    }
}

/// Some roll of `ids` resolves to an affix of key `k`.
pub open spec fn key_present(ids: Seq<u32>, affix: Map<u32, Substat>, k: Seq<char>) -> bool {
    exists|i: int| 0 <= i < ids.len() && affix.contains_key(ids[i]) && #[trigger] affix[ids[i]].key@ == k
}

/// The stacked entries have distinct keys, one for each key that some roll has,
/// holding the sum of that key's rolls.
pub proof fn lemma_stacked_totals(ids: Seq<u32>, affix: Map<u32, Substat>)
    ensures
        ({
            let s = stacked(resolved_rolls(ids, affix));
            &&& forall|a: int, b: int| 0 <= a < b < s.len() ==> s[a].0 != s[b].0
            &&& forall|j: int| 0 <= j < s.len() ==> #[trigger] s[j].1 == key_total(ids, affix, s[j].0)
            &&& forall|k: Seq<char>| key_present(ids, affix, k) <==> exists|j: int| 0 <= j < s.len() && (#[trigger] s[j]).0 == k
            &&& forall|k: Seq<char>| !key_present(ids, affix, k) ==> key_total(ids, affix, k) == 0
        }),
    decreases ids.len(),
{
    if ids.len() > 0 {
        let d = ids.drop_last();
        let id = ids.last();
        lemma_stacked_totals(d, affix);
        let s0 = stacked(resolved_rolls(d, affix));
        let s = stacked(resolved_rolls(ids, affix));
        assert forall|k: Seq<char>| key_present(ids, affix, k) <==> (key_present(d, affix, k) || (affix.contains_key(id) && affix[id].key@ == k)) by {
            if key_present(ids, affix, k) {
                let i = choose|i: int| 0 <= i < ids.len() && affix.contains_key(ids[i]) && #[trigger] affix[ids[i]].key@ == k;
                if i < d.len() {
                    assert(d[i] == ids[i]);
                }
            }
            if key_present(d, affix, k) {
                let i = choose|i: int| 0 <= i < d.len() && affix.contains_key(d[i]) && #[trigger] affix[d[i]].key@ == k;
                assert(d[i] == ids[i]);
            }
            if affix.contains_key(id) && affix[id].key@ == k {
                assert(ids[ids.len() - 1] == id);
            }
        }
        if affix.contains_key(id) {
            let r = (affix[id].key@, affix[id].value as int);
            let p = resolved_rolls(d, affix);
            assert(p.push(r).drop_last() == p);
            assert(s == stack_roll(s0, r));
            lemma_key_index(s0, r.0);
            let j = key_index(s0, r.0);
            if j >= 0 {
                assert forall|k: Seq<char>| key_present(ids, affix, k) <==> exists|t: int| 0 <= t < s.len() && (#[trigger] s[t]).0 == k by {
                    if exists|t: int| 0 <= t < s0.len() && (#[trigger] s0[t]).0 == k {
                        let t = choose|t: int| 0 <= t < s0.len() && (#[trigger] s0[t]).0 == k;
                        assert(s[t].0 == k);
                    }
                    if exists|t: int| 0 <= t < s.len() && (#[trigger] s[t]).0 == k {
                        let t = choose|t: int| 0 <= t < s.len() && (#[trigger] s[t]).0 == k;
                        assert(s0[t].0 == k);
                    }
                }
            } else {
                assert forall|k: Seq<char>| key_present(ids, affix, k) <==> exists|t: int| 0 <= t < s.len() && (#[trigger] s[t]).0 == k by {
                    if exists|t: int| 0 <= t < s0.len() && (#[trigger] s0[t]).0 == k {
                        let t = choose|t: int| 0 <= t < s0.len() && (#[trigger] s0[t]).0 == k;
                        assert(s[t].0 == k);
                    }
                    if k == r.0 {
                        assert(s[s0.len() as int].0 == k);
                    }
                    if exists|t: int| 0 <= t < s.len() && (#[trigger] s[t]).0 == k {
                        let t = choose|t: int| 0 <= t < s.len() && (#[trigger] s[t]).0 == k;
                        if t < s0.len() {
                            assert(s0[t].0 == k);
                        }
                    }
                }
                assert(!key_present(d, affix, r.0));
            }
        } else {
            assert(resolved_rolls(ids, affix) == resolved_rolls(d, affix));
        }
    }
}

/// Removing one roll takes its part out of each key's sum.
proof fn lemma_key_total_remove(ids: Seq<u32>, affix: Map<u32, Substat>, k: Seq<char>, j: int)
    requires
        0 <= j < ids.len(),
    ensures
        key_total(ids, affix, k) == key_total(ids.remove(j), affix, k) + roll_part(affix, ids[j], k),
    decreases ids.len(),
{
    if j == ids.len() - 1 {
        assert(ids.remove(j) == ids.drop_last());
    } else {
        lemma_key_total_remove(ids.drop_last(), affix, k, j);
        assert(ids.remove(j).drop_last() == ids.drop_last().remove(j));
        assert(ids.remove(j).last() == ids.last());
    }
}

/// Each key's sum depends on the rolls, not on their order.
pub proof fn lemma_key_total_permutation(ids1: Seq<u32>, ids2: Seq<u32>, affix: Map<u32, Substat>, k: Seq<char>)
    requires
        ids1.to_multiset() == ids2.to_multiset(),
    ensures
        key_total(ids1, affix, k) == key_total(ids2, affix, k),
    decreases ids1.len(),
{
    broadcast use vstd::seq_lib::group_to_multiset_ensures;

    if ids1.len() == 0 {
        assert(ids2.to_multiset().len() == 0);
    } else {
        let d = ids1.drop_last();
        let x = ids1.last();
        assert(d.push(x) == ids1);
        assert(ids2.to_multiset().count(x) > 0);
        assert(ids2.contains(x));
        let j = choose|j: int| 0 <= j < ids2.len() && ids2[j] == x;
        assert(ids2.remove(j).to_multiset() =~= d.to_multiset());
        lemma_key_total_permutation(d, ids2.remove(j), affix, k);
        lemma_key_total_remove(ids2, affix, k, j);
    }
}

/// Substat stacking does not depend on the order of the rolls: any reordering of
/// an item's affix ids gives the same set of reported substats.
pub proof fn lemma_substats_order_free(ids1: Seq<u32>, ids2: Seq<u32>, affix: Map<u32, Substat>)
    requires
        ids1.to_multiset() == ids2.to_multiset(),
    ensures
        substats_of(ids1, affix).to_set() == substats_of(ids2, affix).to_set(),
{
    assert forall|ids_a: Seq<u32>, ids_b: Seq<u32>, e: (Seq<char>, int)|
        ids_a.to_multiset() == ids_b.to_multiset() && #[trigger] substats_of(ids_a, affix).contains(e)
        implies #[trigger] substats_of(ids_b, affix).contains(e) by {
        broadcast use vstd::seq_lib::group_to_multiset_ensures;

        lemma_stacked_totals(ids_a, affix);
        lemma_stacked_totals(ids_b, affix);
        lemma_key_total_permutation(ids_a, ids_b, affix, e.0);
        let sa = stacked(resolved_rolls(ids_a, affix));
        let sb = stacked(resolved_rolls(ids_b, affix));
        let ja = choose|ja: int| 0 <= ja < substats_of(ids_a, affix).len() && substats_of(ids_a, affix)[ja] == e;
        assert(sa[ja].0 == e.0);
        assert(key_present(ids_a, affix, e.0));
        let i = choose|i: int| 0 <= i < ids_a.len() && affix.contains_key(ids_a[i]) && #[trigger] affix[ids_a[i]].key@ == e.0;
        assert(ids_a.contains(ids_a[i]));
        assert(ids_a.to_multiset().count(ids_a[i]) > 0);
        assert(ids_b.to_multiset().count(ids_a[i]) > 0);
        assert(ids_b.contains(ids_a[i]));
        let i2 = choose|i2: int| 0 <= i2 < ids_b.len() && ids_b[i2] == ids_a[i];
        assert(affix[ids_b[i2]].key@ == e.0);
        assert(key_present(ids_b, affix, e.0));
        let jb = choose|jb: int| 0 <= jb < sb.len() && (#[trigger] sb[jb]).0 == e.0;
        assert(substats_of(ids_b, affix)[jb] == e);
    }
    assert(substats_of(ids1, affix).to_set() =~= substats_of(ids2, affix).to_set());
}

/// A percentage-style value is reported with one decimal, within 0.055 of the
/// stacked value; any other value is reported as a whole number, within 0.5 of it.
pub proof fn lemma_normalized_precision(key: Seq<char>, v: int)
    ensures
        is_percent_key(key) ==> normalized_value(key, v) % 100_000_000 == 0
            && v - 55_000_000 <= normalized_value(key, v) <= v + 55_000_000,
        !is_percent_key(key) ==> normalized_value(key, v) % 1_000_000_000 == 0
            && v - 500_000_000 <= normalized_value(key, v) <= v + 500_000_000,
{
    if is_percent_key(key) {
        let h = round_div(v, 10_000_000);
        let t = round_div(h, 10);
        lemma_round_div_bound(v, 10_000_000);
        lemma_round_div_bound(h, 10);
        assert(v - 55_000_000 <= t * 100_000_000 <= v + 55_000_000) by (nonlinear_arith)
            requires
                h * 10_000_000 <= v + 5_000_000,
                h * 10_000_000 >= v - 5_000_000,
                t * 10 <= h + 5,
                t * 10 >= h - 5,
        ;
        assert((t * 100_000_000) % 100_000_000 == 0) by (nonlinear_arith);
    } else {
        let w = round_div(v, 1_000_000_000);
        lemma_round_div_bound(v, 1_000_000_000);
        assert((w * 1_000_000_000) % 1_000_000_000 == 0) by (nonlinear_arith);
    }
}

/// A stream in which no batch holds an item of a known template ends in no result.
pub proof fn lemma_no_artifact_match_no_result(
    batches: Seq<Seq<RawArtifact>>,
    types: Map<u32, ArtifactData>,
    main: Map<u32, String>,
    affix: Map<u32, Substat>,
)
    requires
        forall|i: int| 0 <= i < batches.len() ==> normalized_batch(#[trigger] batches[i], types, main, affix).len() == 0,
    ensures
        sniffed_artifacts(batches, types, main, affix).len() == 0,
    decreases batches.len(),
{
    if batches.len() > 0 {
        let d = batches.drop_last();
        assert forall|i: int| 0 <= i < d.len() implies normalized_batch(#[trigger] d[i], types, main, affix).len() == 0 by {
            assert(d[i] == batches[i]);
        }
        lemma_no_artifact_match_no_result(d, types, main, affix);
    }
}

/// An item is reported at its decoded level minus one.
pub proof fn lemma_level_shifted(raw: RawArtifact, t: ArtifactData, main: Map<u32, String>, affix: Map<u32, Substat>)
    requires
        raw.level >= 1,
    ensures
        normalized_artifact(raw, t, main, affix).level == raw.level - 1,
{
}

/// An item whose template is unknown leaves no trace in the batch's output.
pub proof fn lemma_unknown_template_dropped(
    batch: Seq<RawArtifact>,
    raw: RawArtifact,
    types: Map<u32, ArtifactData>,
    main: Map<u32, String>,
    affix: Map<u32, Substat>,
)
    requires
        !types.contains_key(raw.id),
    ensures
        normalized_batch(batch.push(raw), types, main, affix) == normalized_batch(batch, types, main, affix),
{
    assert(batch.push(raw).drop_last() == batch);
}

/// An item of a known template whose main stat is unknown is still reported, with
/// `"null"` as its main-stat key and every other field as usual.
pub proof fn lemma_unknown_main_stat(
    batch: Seq<RawArtifact>,
    raw: RawArtifact,
    types: Map<u32, ArtifactData>,
    main: Map<u32, String>,
    affix: Map<u32, Substat>,
)
    requires
        types.contains_key(raw.id),
        !main.contains_key(raw.main_prop_id),
    ensures
        ({
            let out = normalized_batch(batch.push(raw), types, main, affix);
            let t = types[raw.id];
            &&& out.len() == normalized_batch(batch, types, main, affix).len() + 1
            &&& out.last() == (ArtifactView {
                set_key: t.setKey@,
                slot_key: t.slotKey@,
                level: output_level(raw.level),
                rarity: t.rarity,
                main_stat_key: "null"@,
                lock: raw.is_locked,
                substats: substats_of(raw.append_prop_id_list@, affix),
            })
        }),
{
    assert(batch.push(raw).drop_last() == batch);
}

} // verus!
