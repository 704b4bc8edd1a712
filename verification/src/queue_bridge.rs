//! Mirror of Pi's `queue_update` onto the pager's `x.ai/queue/changed` surface.
//!
//! Pi owns the real steering / follow-up queues.  The mirror only assigns
//! stable wire ids (preferring the client's reserved prompt ids) so the
//! pager's optimistic echoes can be confirmed and retired.
use crate::adapter::{count_model, count_value, member};
use crate::json::{
    lemma_items_model_all, member_models, object, opt_deref, text_value, Json, JsonModel,
};
use crate::text::{decimal, is_blank, push_decimal, str_eq, trim};
use vstd::prelude::*;

verus! {

/// Which Pi queue a message sits in.
#[derive(Debug, Clone, Copy, PartialEq, Eq, Structural)]
pub enum QueueLane {
    Steering,
    FollowUp,
}

/// A mirrored queue row.
pub struct MirrorEntry {
    id: String,
    text: String,
    version: u64,
    lane: QueueLane,
}

/// A client prompt id waiting for its text to show up in a Pi queue.
pub struct ReservedPrompt {
    id: String,
    text: String,
    lane: QueueLane,
}

/// Abstract mirrored row.
pub struct EntryModel {
    pub id: Seq<char>,
    pub text: Seq<char>,
    pub version: u64,
    pub lane: QueueLane,
}

/// Abstract reservation.
pub struct ReservedModel {
    pub id: Seq<char>,
    pub text: Seq<char>,
    pub lane: QueueLane,
}

/// Abstract state of a [`QueueMirror`].
pub struct MirrorModel {
    pub entries: Seq<EntryModel>,
    pub reserved: Seq<ReservedModel>,
    pub next_seq: u64,
    pub running_prompt_id: Option<Seq<char>>,
}

/// The queue mirror.
pub struct QueueMirror {
    entries: Vec<MirrorEntry>,
    reserved: Vec<ReservedPrompt>,
    next_seq: u64,
    running_prompt_id: Option<String>,
}

/// One row of a snapshot (the wire row carries `kind: "prompt"` as well).
pub struct QueueRow {
    pub id: String,
    pub version: u64,
    pub text: String,
    pub position: usize,
}

/// What the pager is sent after each change.
pub struct QueueSnapshot {
    pub entries: Vec<QueueRow>,
    pub running_prompt_id: Option<String>,
    pub steering_count: usize,
    pub follow_up_count: usize,
}

impl MirrorEntry {
    pub closed spec fn model(&self) -> EntryModel {
        EntryModel { id: self.id@, text: self.text@, version: self.version, lane: self.lane }
    }
}

impl ReservedPrompt {
    pub closed spec fn model(&self) -> ReservedModel {
        ReservedModel { id: self.id@, text: self.text@, lane: self.lane }
    }
}

pub open spec fn opt_view(o: Option<String>) -> Option<Seq<char>> {
    match o {
        Some(s) => Some(s@),
        None => None,
    }
}

/// Abstract rows of a vector of rows.
pub open spec fn entry_models(v: Seq<MirrorEntry>) -> Seq<EntryModel> {
    v.map_values(|e: MirrorEntry| e.model())
}

/// Abstract reservations of a vector of reservations.
pub open spec fn reserved_models(v: Seq<ReservedPrompt>) -> Seq<ReservedModel> {
    v.map_values(|r: ReservedPrompt| r.model())
}

/// The texts of a slice of strings.
pub open spec fn texts(v: Seq<String>) -> Seq<Seq<char>> {
    v.map_values(|s: String| s@)
}

impl View for QueueMirror {
    type V = MirrorModel;

    closed spec fn view(&self) -> MirrorModel {
        MirrorModel {
            entries: entry_models(self.entries@),
            reserved: reserved_models(self.reserved@),
            next_seq: self.next_seq,
            running_prompt_id: opt_view(self.running_prompt_id),
        }
    }
}

/// Abstract form of a snapshot row: `(id, version, text, position)`.
pub open spec fn row_model(r: QueueRow) -> (Seq<char>, u64, Seq<char>, usize) {
    (r.id@, r.version, r.text@, r.position)
}

// ─── Specification ───────────────────────────────────────────────────────────

/// Number of rows in the steering lane.
pub open spec fn steering_count(entries: Seq<EntryModel>) -> nat
    decreases entries.len(),
{
    if entries.len() == 0 {
        0
    } else {
        steering_count(entries.drop_last()) + if entries.last().lane == QueueLane::Steering {
            1nat
        } else {
            0nat
        }
    }
}

/// Whether `snap` shows exactly `m`: one row per entry with its position,
/// the running id, and the lane counts.
pub open spec fn shows(snap: QueueSnapshot, m: MirrorModel) -> bool {
    &&& snap.entries@.len() == m.entries.len()
    &&& forall|i: int|
        0 <= i < m.entries.len() ==> #[trigger] row_model(snap.entries@[i]) == (
            m.entries[i].id,
            m.entries[i].version,
            m.entries[i].text,
            i as usize,
        )
    &&& opt_view(snap.running_prompt_id) == m.running_prompt_id
    &&& snap.steering_count == steering_count(m.entries)
    &&& snap.follow_up_count == m.entries.len() - steering_count(m.entries)
}

/// Reservations whose id differs from `id`.
pub open spec fn other_id(id: Seq<char>) -> spec_fn(ReservedModel) -> bool {
    |r: ReservedModel| r.id != id
}

/// Reserving `id` for `text`: blank ids are ignored; otherwise any earlier
/// reservation of the same id is replaced by the new one, at the end.
pub open spec fn reserve_spec(m: MirrorModel, id: Seq<char>, text: Seq<char>, lane: QueueLane) -> MirrorModel {
    if trim(id).len() == 0 {
        m
    } else {
        MirrorModel {
            reserved: m.reserved.filter(other_id(id)).push(
                ReservedModel { id, text, lane },
            ),
            ..m
        }
    }
}

/// The desired rows: steering messages, then follow-up messages.
pub open spec fn desired(steering: Seq<Seq<char>>, follow_up: Seq<Seq<char>>) -> Seq<(Seq<char>, QueueLane)> {
    steering.map_values(|t: Seq<char>| (t, QueueLane::Steering)) + follow_up.map_values(
        |t: Seq<char>| (t, QueueLane::FollowUp),
    )
}

/// First unused previous row with the given text and lane.
pub open spec fn find_prev(prev: Seq<EntryModel>, used: Seq<bool>, text: Seq<char>, lane: QueueLane, from: nat) -> Option<int>
    decreases prev.len() - from,
{
    if from >= prev.len() {
        None
    } else if !used[from as int] && prev[from as int].lane == lane && prev[from as int].text
        == text {
        Some(from as int)
    } else {
        find_prev(prev, used, text, lane, from + 1)
    }
}

/// First reservation with the given text and lane.
pub open spec fn find_reserved(reserved: Seq<ReservedModel>, text: Seq<char>, lane: QueueLane, from: nat) -> Option<int>
    decreases reserved.len() - from,
{
    if from >= reserved.len() {
        None
    } else if reserved[from as int].lane == lane && reserved[from as int].text == text {
        Some(from as int)
    } else {
        find_reserved(reserved, text, lane, from + 1)
    }
}

/// The sequence number after `n` (`n.wrapping_add(1).max(1)`).
pub open spec fn next_seq_after(n: u64) -> u64 {
    if n == u64::MAX {
        1
    } else {
        (n + 1) as u64
    }
}

/// The id minted for sequence number `n`.
pub open spec fn minted_id(n: u64) -> Seq<char> {
    "pi-queue-"@ + decimal(n as nat)
}

/// Reconciliation state while walking the desired rows.
pub struct ApplyState {
    pub used: Seq<bool>,
    pub reserved: Seq<ReservedModel>,
    pub next_seq: u64,
    pub next: Seq<EntryModel>,
}

/// One desired row: reuse the first unused previous row with the same text
/// and lane; else adopt the first matching reservation's id; else mint a new
/// `pi-queue-N` id.
pub open spec fn apply_step(prev: Seq<EntryModel>, st: ApplyState, item: (Seq<char>, QueueLane)) -> ApplyState {
    match find_prev(prev, st.used, item.0, item.1, 0) {
        Some(idx) => ApplyState { used: st.used.update(idx, true), next: st.next.push(prev[idx]), ..st },
        None => match find_reserved(st.reserved, item.0, item.1, 0) {
            Some(pos) => ApplyState {
                reserved: st.reserved.remove(pos),
                next: st.next.push(
                    EntryModel { id: st.reserved[pos].id, text: item.0, version: 0, lane: item.1 },
                ),
                ..st
            },
            None => {
                let n = next_seq_after(st.next_seq);
                ApplyState {
                    next_seq: n,
                    next: st.next.push(
                        EntryModel { id: minted_id(n), text: item.0, version: 0, lane: item.1 },
                    ),
                    ..st
                }
            },
        },
    }
}

/// The reconciliation state after walking `items`.
pub open spec fn apply_walk(prev: Seq<EntryModel>, m: MirrorModel, items: Seq<(Seq<char>, QueueLane)>) -> ApplyState
    decreases items.len(),
{
    if items.len() == 0 {
        ApplyState {
            used: Seq::new(prev.len(), |i: int| false),
            reserved: m.reserved,
            next_seq: m.next_seq,
            next: Seq::empty(),
        }
    } else {
        apply_step(prev, apply_walk(prev, m, items.drop_last()), items.last())
    }
}

/// Reservations not settled by `next`.
pub open spec fn unsettled(next: Seq<EntryModel>) -> spec_fn(ReservedModel) -> bool {
    |r: ReservedModel| !settled(next, r)
}

/// Whether reservation `r` is settled by the new rows (its id is in use, or a
/// row with its text and lane exists).
pub open spec fn settled(next: Seq<EntryModel>, r: ReservedModel) -> bool {
    exists|j: int|
        0 <= j < next.len() && (next[j].id == r.id || (next[j].lane == r.lane && next[j].text
            == r.text))
}

/// Index of the first previous row not reused.
pub open spec fn first_unused(used: Seq<bool>, from: nat) -> Option<int>
    decreases used.len() - from,
{
    if from >= used.len() {
        None
    } else if !used[from as int] {
        Some(from as int)
    } else {
        first_unused(used, from + 1)
    }
}

/// The whole reconciliation of `queue_update(steering, follow_up)`: new rows as
/// walked, settled reservations dropped, and the first vanished previous row
/// (the one Pi just delivered) becomes the running prompt.
pub open spec fn apply_spec(m: MirrorModel, steering: Seq<Seq<char>>, follow_up: Seq<Seq<char>>) -> MirrorModel {
    let st = apply_walk(m.entries, m, desired(steering, follow_up));
    MirrorModel {
        entries: st.next,
        reserved: st.reserved.filter(unsettled(st.next)),
        next_seq: st.next_seq,
        running_prompt_id: match first_unused(st.used, 0) {
            Some(i) => Some(m.entries[i].id),
            None => None,
        },
    }
}

// ─── Executable mirror ───────────────────────────────────────────────────────

proof fn lemma_find_prev_range(prev: Seq<EntryModel>, used: Seq<bool>, text: Seq<char>, lane: QueueLane, from: nat)
    ensures
        find_prev(prev, used, text, lane, from) matches Some(i) ==> from <= i < prev.len()
            && !used[i] && prev[i].text == text && prev[i].lane == lane,
    decreases prev.len() - from,
{
    if from < prev.len() {
        lemma_find_prev_range(prev, used, text, lane, from + 1);
    }
}

proof fn lemma_find_reserved_range(reserved: Seq<ReservedModel>, text: Seq<char>, lane: QueueLane, from: nat)
    ensures
        find_reserved(reserved, text, lane, from) matches Some(i) ==> from <= i < reserved.len()
            && reserved[i].text == text && reserved[i].lane == lane,
    decreases reserved.len() - from,
{
    if from < reserved.len() {
        lemma_find_reserved_range(reserved, text, lane, from + 1);
    }
}

proof fn lemma_walk_used_len(prev: Seq<EntryModel>, m: MirrorModel, items: Seq<(Seq<char>, QueueLane)>)
    ensures
        apply_walk(prev, m, items).used.len() == prev.len(),
    decreases items.len(),
{
    if items.len() > 0 {
        let st = apply_walk(prev, m, items.drop_last());
        lemma_walk_used_len(prev, m, items.drop_last());
        lemma_find_prev_range(prev, st.used, items.last().0, items.last().1, 0);
    }
}

/// Whether some row of `next` settles reservation `r`.
fn settles(next: &Vec<MirrorEntry>, r: &ReservedPrompt) -> (b: bool)
    ensures
        b == settled(entry_models(next@), r.model()),
{
    let mut j: usize = 0;
    while j < next.len()
        invariant
            j <= next.len(),
            forall|k: int|
                0 <= k < j ==> !(entry_models(next@)[k].id == r.model().id || (entry_models(
                    next@,
                )[k].lane == r.model().lane && entry_models(next@)[k].text == r.model().text)),
        decreases next.len() - j,
    {
        let e = &next[j];
        assert(entry_models(next@)[j as int] == e.model());
        if e.id == r.id || (e.lane == r.lane && e.text == r.text) {
            return true;
        }
        j = j + 1;
    }
    false
}

fn clone_entry(e: &MirrorEntry) -> (r: MirrorEntry)
    ensures
        r.model() == e.model(),
{
    MirrorEntry { id: e.id.clone(), text: e.text.clone(), version: e.version, lane: e.lane }
}

fn clone_opt(o: &Option<String>) -> (r: Option<String>)
    ensures
        opt_view(r) == opt_view(*o),
{
    match o {
        Some(s) => Some(s.clone()),
        None => None,
    }
}

impl QueueMirror {
    /// An empty mirror.
    pub fn new() -> (q: Self)
        ensures
            q@ == (MirrorModel {
                entries: Seq::empty(),
                reserved: Seq::empty(),
                next_seq: 0,
                running_prompt_id: None,
            }),
    {
        let q = QueueMirror { entries: Vec::new(), reserved: Vec::new(), next_seq: 0, running_prompt_id: None };
        proof {
            assert(q@.entries =~= Seq::<EntryModel>::empty());
            assert(q@.reserved =~= Seq::<ReservedModel>::empty());
        }
        q
    }

    /// Reserve client prompt `id` for `text` in `lane`.
    pub fn reserve(&mut self, id: String, text: String, lane: QueueLane)
        ensures
            final(self)@ == reserve_spec(old(self)@, id@, text@, lane),
    {
        if is_blank(id.as_str()) {
            return ;
        }
        let ghost pred = other_id(id@);
        let mut kept: Vec<ReservedPrompt> = Vec::new();
        let mut i: usize = 0;
        while i < self.reserved.len()
            invariant
                pred == other_id(id@),
                i <= self.reserved.len(),
                kept@.map_values(|r: ReservedPrompt| r.model()) == self.reserved@.map_values(
                    |r: ReservedPrompt| r.model(),
                ).take(i as int).filter(pred),
            decreases self.reserved.len() - i,
        {
            let ghost all = self.reserved@.map_values(|r: ReservedPrompt| r.model());
            proof {
                assert(all.take(i + 1) =~= all.take(i as int).push(all[i as int]));
                all.take(i as int).lemma_filter_push(all[i as int], pred);
            }
            let item = &self.reserved[i];
            assert(all[i as int] == item.model());
            if !str_eq(item.id.as_str(), id.as_str()) {
                assert(pred(all[i as int]));
                kept.push(ReservedPrompt { id: item.id.clone(), text: item.text.clone(), lane: item.lane });
                assert(kept@.map_values(|r: ReservedPrompt| r.model()) =~= all.take(
                    i as int,
                ).filter(pred).push(all[i as int]));
            } else {
                assert(all[i as int].id == id@);
            }
            assert(kept@.map_values(|r: ReservedPrompt| r.model()) == all.take(i + 1).filter(pred));
            i = i + 1;
        }
        proof {
            let all = self.reserved@.map_values(|r: ReservedPrompt| r.model());
            assert(all.take(self.reserved.len() as int) =~= all);
        }
        kept.push(ReservedPrompt { id, text, lane });
        self.reserved = kept;
        proof {
            let m = old(self)@;
            assert(self@.reserved =~= m.reserved.filter(pred).push(
                ReservedModel { id: id@, text: text@, lane },
            ));
            assert(self@.entries =~= m.entries);
        }
    }

    /// The text of the row with id `id`, if any.
    pub fn text_for_id(&self, id: &str) -> (r: Option<&str>)
        ensures
            match r {
                Some(t) => exists|i: int|
                    0 <= i < self@.entries.len() && self@.entries[i].id == id@
                        && self@.entries[i].text == t@ && forall|j: int|
                        0 <= j < i ==> self@.entries[j].id != id@,
                None => forall|i: int| 0 <= i < self@.entries.len() ==> self@.entries[i].id != id@,
            },
    {
        let mut i: usize = 0;
        while i < self.entries.len()
            invariant
                i <= self.entries.len(),
                forall|j: int| 0 <= j < i ==> self@.entries[j].id != id@,
            decreases self.entries.len() - i,
        {
            if str_eq(self.entries[i].id.as_str(), id) {
                proof {
                    assert(self@.entries[i as int] == self.entries@[i as int].model());
                }
                return Some(self.entries[i].text.as_str());
            }
            assert(self@.entries[i as int] == self.entries@[i as int].model());
            i = i + 1;
        }
        None
    }

    /// A snapshot of the current rows.
    pub fn snapshot(&self) -> (s: QueueSnapshot)
        ensures
            shows(s, self@),
    {
        let mut rows: Vec<QueueRow> = Vec::new();
        let mut steering: usize = 0;
        let mut i: usize = 0;
        while i < self.entries.len()
            invariant
                i <= self.entries.len(),
                rows@.len() == i,
                steering <= i,
                steering == steering_count(self@.entries.take(i as int)),
                forall|k: int|
                    0 <= k < i ==> #[trigger] row_model(rows@[k]) == (
                        self@.entries[k].id,
                        self@.entries[k].version,
                        self@.entries[k].text,
                        k as usize,
                    ),
            decreases self.entries.len() - i,
        {
            let e = &self.entries[i];
            assert(self@.entries[i as int] == e.model());
            assert(self@.entries.take(i + 1).drop_last() =~= self@.entries.take(i as int));
            rows.push(QueueRow { id: e.id.clone(), version: e.version, text: e.text.clone(), position: i });
            if e.lane == QueueLane::Steering {
                steering = steering + 1;
            }
            i = i + 1;
        }
        assert(self@.entries.take(self.entries.len() as int) =~= self@.entries);
        QueueSnapshot {
            entries: rows,
            running_prompt_id: clone_opt(&self.running_prompt_id),
            steering_count: steering,
            follow_up_count: self.entries.len() - steering,
        }
    }


    /// Reconcile the mirror with Pi's current queues, as [`apply_spec`]
    /// states, and return the new snapshot.
    pub fn apply_queue_update(&mut self, steering: &[String], follow_up: &[String]) -> (s: QueueSnapshot)
        ensures
            final(self)@ == apply_spec(old(self)@, texts(steering@), texts(follow_up@)),
            shows(s, final(self)@),
    {
        let ghost m = self@;
        let ghost items = desired(texts(steering@), texts(follow_up@));
        let n_prev = self.entries.len();
        let mut used: Vec<bool> = Vec::new();
        while used.len() < n_prev
            invariant
                used.len() <= n_prev,
                forall|k: int| 0 <= k < used.len() ==> !used@[k],
            decreases n_prev - used.len(),
        {
            used.push(false);
        }
        assert(used@ =~= Seq::new(n_prev as nat, |i: int| false));
        let mut next: Vec<MirrorEntry> = Vec::new();
        let ghost n_steer = steering.len() as int;
        let mut i: usize = 0;
        assert(items.take(0) =~= Seq::<(Seq<char>, QueueLane)>::empty());
        assert(entry_models(next@) =~= Seq::<EntryModel>::empty());
        while i < steering.len()
            invariant
                m == old(self)@,
                items == desired(texts(steering@), texts(follow_up@)),
                items.len() == steering.len() + follow_up.len(),
                i <= steering.len(),
                entry_models(self.entries@) == m.entries,
                n_prev == self.entries.len(),
                self.running_prompt_id == old(self).running_prompt_id,
                ({
                    let st = apply_walk(m.entries, m, items.take(i as int));
                    &&& used@ == st.used
                    &&& reserved_models(self.reserved@) == st.reserved
                    &&& self.next_seq == st.next_seq
                    &&& entry_models(next@) == st.next
                }),
            decreases steering.len() - i,
        {
            proof {
                assert(items.take(i + 1).drop_last() =~= items.take(i as int));
                lemma_walk_used_len(m.entries, m, items.take(i as int));
            }
            let text = &steering[i];
            assert(items[i as int] == (text@, QueueLane::Steering));
            self.place(&mut used, &mut next, text, QueueLane::Steering);
            i = i + 1;
        }
        let mut j: usize = 0;
        while j < follow_up.len()
            invariant
                m == old(self)@,
                items == desired(texts(steering@), texts(follow_up@)),
                items.len() == steering.len() + follow_up.len(),
                j <= follow_up.len(),
                entry_models(self.entries@) == m.entries,
                n_prev == self.entries.len(),
                self.running_prompt_id == old(self).running_prompt_id,
                ({
                    let st = apply_walk(m.entries, m, items.take(steering.len() + j));
                    &&& used@ == st.used
                    &&& reserved_models(self.reserved@) == st.reserved
                    &&& self.next_seq == st.next_seq
                    &&& entry_models(next@) == st.next
                }),
            decreases follow_up.len() - j,
        {
            let ghost k: int = steering.len() + j;
            proof {
                assert(items.take(k + 1).drop_last() =~= items.take(k));
                lemma_walk_used_len(m.entries, m, items.take(k));
            }
            let text = &follow_up[j];
            assert(items[k] == (text@, QueueLane::FollowUp));
            self.place(&mut used, &mut next, text, QueueLane::FollowUp);
            j = j + 1;
        }
        assert(items.take(items.len() as int) =~= items);
        let ghost st = apply_walk(m.entries, m, items);
        // Drop reservations settled by the new rows.
        let ghost keep = unsettled(entry_models(next@));
        let mut kept: Vec<ReservedPrompt> = Vec::new();
        let mut j: usize = 0;
        while j < self.reserved.len()
            invariant
                keep == unsettled(entry_models(next@)),
                j <= self.reserved.len(),
                reserved_models(kept@) == reserved_models(self.reserved@).take(j as int).filter(keep),
            decreases self.reserved.len() - j,
        {
            let ghost all = reserved_models(self.reserved@);
            proof {
                assert(all.take(j + 1) =~= all.take(j as int).push(all[j as int]));
                all.take(j as int).lemma_filter_push(all[j as int], keep);
            }
            let r = &self.reserved[j];
            assert(all[j as int] == r.model());
            let hit = settles(&next, r);
            if !hit {
                kept.push(ReservedPrompt { id: r.id.clone(), text: r.text.clone(), lane: r.lane });
                assert(reserved_models(kept@) =~= all.take(j as int).filter(keep).push(all[j as int]));
            }
            j = j + 1;
        }
        assert(reserved_models(self.reserved@).take(self.reserved.len() as int) =~= reserved_models(
            self.reserved@,
        ));
        self.reserved = kept;
        // The first previous row that was not reused is the delivered one.
        let mut k: usize = 0;
        proof {
            lemma_walk_used_len(m.entries, m, items);
        }
        while k < used.len() && used[k]
            invariant
                k <= used.len(),
                used@ == st.used,
                first_unused(used@, 0) == first_unused(used@, k as nat),
            decreases used.len() - k,
        {
            k = k + 1;
        }
        if k < used.len() {
            assert(m.entries[k as int] == self.entries@[k as int].model());
            self.running_prompt_id = Some(self.entries[k].id.clone());
        } else {
            self.running_prompt_id = None;
        }
        self.entries = next;
        proof {
            assert(self@.reserved == st.reserved.filter(unsettled(st.next)));
        }
        self.snapshot()
    }

    /// One desired row, as [`apply_step`] states.
    fn place(&mut self, used: &mut Vec<bool>, next: &mut Vec<MirrorEntry>, text: &String, lane: QueueLane)
        requires
            old(used).len() == old(self).entries.len(),
        ensures
            ({
                let st = ApplyState {
                    used: old(used)@,
                    reserved: reserved_models(old(self).reserved@),
                    next_seq: old(self).next_seq,
                    next: entry_models(old(next)@),
                };
                let st2 = apply_step(entry_models(old(self).entries@), st, (text@, lane));
                &&& final(used)@ == st2.used
                &&& reserved_models(final(self).reserved@) == st2.reserved
                &&& final(self).next_seq == st2.next_seq
                &&& entry_models(final(next)@) == st2.next
            }),
            final(self).entries@ == old(self).entries@,
            final(self).running_prompt_id == old(self).running_prompt_id,
    {
        let ghost prev = entry_models(self.entries@);
        let mut idx: usize = 0;
        while idx < self.entries.len()
            invariant
                idx <= self.entries.len() == used.len(),
                prev == entry_models(self.entries@),
                self.entries@ == old(self).entries@,
                self.reserved@ == old(self).reserved@,
                self.next_seq == old(self).next_seq,
                self.running_prompt_id == old(self).running_prompt_id,
                used@ == old(used)@,
                next@ == old(next)@,
                find_prev(prev, used@, text@, lane, 0) == find_prev(prev, used@, text@, lane, idx as nat),
            decreases self.entries.len() - idx,
        {
            let e = &self.entries[idx];
            assert(prev[idx as int] == e.model());
            if !used[idx] && e.lane == lane && e.text == *text {
                let copy = clone_entry(e);
                used.set(idx, true);
                next.push(copy);
                proof {
                    assert(entry_models(next@) =~= entry_models(old(next)@).push(prev[idx as int]));
                }
                return ;
            }
            idx = idx + 1;
        }
        let mut pos: usize = 0;
        let ghost res = reserved_models(self.reserved@);
        while pos < self.reserved.len()
            invariant
                pos <= self.reserved.len(),
                res == reserved_models(self.reserved@),
                prev == entry_models(self.entries@),
                find_prev(prev, used@, text@, lane, 0) == None::<int>,
                self.entries@ == old(self).entries@,
                self.reserved@ == old(self).reserved@,
                self.next_seq == old(self).next_seq,
                self.running_prompt_id == old(self).running_prompt_id,
                used@ == old(used)@,
                next@ == old(next)@,
                find_reserved(res, text@, lane, 0) == find_reserved(res, text@, lane, pos as nat),
            decreases self.reserved.len() - pos,
        {
            let r = &self.reserved[pos];
            assert(res[pos as int] == r.model());
            if r.lane == lane && r.text == *text {
                let taken = self.reserved.remove(pos);
                next.push(MirrorEntry { id: taken.id, text: text.clone(), version: 0, lane });
                proof {
                    assert(reserved_models(self.reserved@) =~= res.remove(pos as int));
                    assert(entry_models(next@) =~= entry_models(old(next)@).push(
                        EntryModel { id: res[pos as int].id, text: text@, version: 0, lane },
                    ));
                }
                return ;
            }
            pos = pos + 1;
        }
        self.next_seq = if self.next_seq == u64::MAX {
            1
        } else {
            self.next_seq + 1
        };
        let mut id = String::new();
        id.append("pi-queue-");
        push_decimal(&mut id, self.next_seq);
        next.push(MirrorEntry { id, text: text.clone(), version: 0, lane });
        proof {
            assert(entry_models(next@) =~= entry_models(old(next)@).push(
                EntryModel { id: minted_id(self.next_seq), text: text@, version: 0, lane },
            ));
        }
    }

    /// No prompt is running any more.
    pub fn clear_running(&mut self)
        ensures
            final(self)@ == (MirrorModel { running_prompt_id: None, ..old(self)@ }),
    {
        self.running_prompt_id = None;
    }

    /// Mark the primary in-flight client prompt as running (blank ids are
    /// ignored).
    pub fn set_running(&mut self, id: String)
        ensures
            final(self)@ == (if trim(id@).len() == 0 {
                old(self)@
            } else {
                MirrorModel { running_prompt_id: Some(id@), ..old(self)@ }
            }),
    {
        if is_blank(id.as_str()) {
            return ;
        }
        self.running_prompt_id = Some(id);
    }

    /// Clear all rows and reservations (cancel path).
    pub fn clear(&mut self) -> (s: QueueSnapshot)
        ensures
            final(self)@ == (MirrorModel {
                entries: Seq::empty(),
                reserved: Seq::empty(),
                running_prompt_id: None,
                ..old(self)@
            }),
            shows(s, final(self)@),
    {
        self.entries = Vec::new();
        self.reserved = Vec::new();
        self.running_prompt_id = None;
        proof {
            assert(self@.entries =~= Seq::<EntryModel>::empty());
            assert(self@.reserved =~= Seq::<ReservedModel>::empty());
        }
        self.snapshot()
    }
}


// ─── Laws ────────────────────────────────────────────────────────────────────

/// The (text, lane) key of each row.
pub open spec fn row_keys(entries: Seq<EntryModel>) -> Seq<(Seq<char>, QueueLane)> {
    entries.map_values(|e: EntryModel| (e.text, e.lane))
}

proof fn lemma_walk_keys(prev: Seq<EntryModel>, m: MirrorModel, items: Seq<(Seq<char>, QueueLane)>)
    ensures
        row_keys(apply_walk(prev, m, items).next) == items,
        apply_walk(prev, m, items).used.len() == prev.len(),
    decreases items.len(),
{
    if items.len() == 0 {
        assert(row_keys(apply_walk(prev, m, items).next) =~= items);
    } else {
        let st = apply_walk(prev, m, items.drop_last());
        lemma_walk_keys(prev, m, items.drop_last());
        lemma_walk_used_len(prev, m, items);
        lemma_find_prev_range(prev, st.used, items.last().0, items.last().1, 0);
        lemma_find_reserved_range(st.reserved, items.last().0, items.last().1, 0);
        let st2 = apply_walk(prev, m, items);
        assert(row_keys(st2.next) =~= row_keys(st.next).push(items.last()));
        assert(items.drop_last().push(items.last()) =~= items);
    }
}

/// After a queue update the rows are exactly Pi's queues in order: every
/// steering message, then every follow-up message, each in its own lane.
pub proof fn law_rows_follow_queues(m: MirrorModel, steering: Seq<Seq<char>>, follow_up: Seq<Seq<char>>)
    ensures
        row_keys(apply_spec(m, steering, follow_up).entries) == desired(steering, follow_up),
{
    lemma_walk_keys(m.entries, m, desired(steering, follow_up));
}

proof fn lemma_find_prev_skips(prev: Seq<EntryModel>, used: Seq<bool>, from: nat, k: int)
    requires
        from <= k < prev.len() == used.len(),
        forall|j: int| from <= j < k ==> used[j],
        !used[k],
    ensures
        find_prev(prev, used, prev[k].text, prev[k].lane, from) == Some(k),
    decreases k - from,
{
    if from < k {
        lemma_find_prev_skips(prev, used, from + 1, k);
    }
}

proof fn lemma_walk_identity(prev: Seq<EntryModel>, m: MirrorModel, k: int)
    requires
        0 <= k <= prev.len(),
    ensures
        ({
            let st = apply_walk(prev, m, row_keys(prev).take(k));
            &&& st.used == Seq::new(prev.len(), |i: int| i < k)
            &&& st.reserved == m.reserved
            &&& st.next_seq == m.next_seq
            &&& st.next == prev.take(k)
        }),
    decreases k,
{
    if k == 0 {
        assert(row_keys(prev).take(0) =~= Seq::<(Seq<char>, QueueLane)>::empty());
        assert(apply_walk(prev, m, row_keys(prev).take(0)).used =~= Seq::new(
            prev.len(),
            |i: int| i < 0,
        ));
        assert(prev.take(0) =~= Seq::<EntryModel>::empty());
    } else {
        let items = row_keys(prev).take(k);
        assert(items.drop_last() =~= row_keys(prev).take(k - 1));
        lemma_walk_identity(prev, m, k - 1);
        let st = apply_walk(prev, m, row_keys(prev).take(k - 1));
        lemma_find_prev_skips(prev, st.used, 0, k - 1);
        assert(items.last() == (prev[k - 1].text, prev[k - 1].lane));
        assert(st.used.update(k - 1, true) =~= Seq::new(prev.len(), |i: int| i < k));
        assert(st.next.push(prev[k - 1]) =~= prev.take(k));
    }
}

proof fn lemma_first_unused_none(used: Seq<bool>, from: nat)
    requires
        forall|j: int| 0 <= j < used.len() ==> used[j],
    ensures
        first_unused(used, from) == None::<int>,
    decreases used.len() - from,
{
    if from < used.len() {
        lemma_first_unused_none(used, from + 1);
    }
}

/// An update that repeats the current rows, in order, keeps every row and
/// its id, mints nothing, and marks no prompt as running.
pub proof fn law_same_queues_keep_ids(m: MirrorModel, steering: Seq<Seq<char>>, follow_up: Seq<Seq<char>>)
    requires
        row_keys(m.entries) == desired(steering, follow_up),
    ensures
        apply_spec(m, steering, follow_up).entries == m.entries,
        apply_spec(m, steering, follow_up).next_seq == m.next_seq,
        apply_spec(m, steering, follow_up).running_prompt_id == None::<Seq<char>>,
{
    let prev = m.entries;
    lemma_walk_identity(prev, m, prev.len() as int);
    assert(row_keys(prev).take(prev.len() as int) =~= row_keys(prev));
    assert(prev.take(prev.len() as int) =~= prev);
    let st = apply_walk(prev, m, row_keys(prev));
    lemma_first_unused_none(st.used, 0);
}


// ─── Wire values ─────────────────────────────────────────────────────────────

/// The string items of a list of values, in order; other items are skipped.
pub open spec fn string_items(items: Seq<Json>) -> Seq<Seq<char>>
    decreases items.len(),
{
    if items.len() == 0 {
        Seq::empty()
    } else {
        let rest = string_items(items.drop_last());
        match items.last() {
            Json::Str(s) => rest.push(s@),
            _ => rest,
        }
    }
}

/// The strings of an optional array value (empty for anything else).
pub open spec fn string_list_spec(value: Option<Json>) -> Seq<Seq<char>> {
    match value {
        Some(Json::Array(items)) => string_items(items@),
        _ => Seq::empty(),
    }
}

/// The string items of an array value, such as the `steering` and
/// `followUp` lists of Pi's `queue_update`.
pub fn string_list(value: Option<&Json>) -> (r: Vec<String>)
    ensures
        texts(r@) == string_list_spec(opt_deref(value)),
{
    let mut out: Vec<String> = Vec::new();
    if let Some(Json::Array(items)) = value {
        let mut i: usize = 0;
        while i < items.len()
            invariant
                i <= items.len(),
                texts(out@) == string_items(items@.take(i as int)),
            decreases items.len() - i,
        {
            proof {
                assert(items@.take(i + 1).drop_last() =~= items@.take(i as int));
            }
            if let Json::Str(s) = &items[i] {
                out.push(s.clone());
                proof {
                    assert(texts(out@) =~= texts(out@.drop_last()).push(s@));
                }
            }
            i = i + 1;
        }
        assert(items@.take(i as int) =~= items@);
    }
    out
}

/// The wire form of a snapshot row.
pub open spec fn row_json(r: QueueRow) -> JsonModel {
    JsonModel::Object(
        seq![
            ("id"@, JsonModel::Str(r.id@)),
            ("version"@, count_model(r.version)),
            ("kind"@, JsonModel::Str("prompt"@)),
            ("text"@, JsonModel::Str(r.text@)),
            ("position"@, count_model(r.position as u64)),
        ],
    )
}

/// The parameters of `x.ai/queue/changed` for a snapshot.
pub open spec fn queue_changed_spec(session_id: Seq<char>, s: QueueSnapshot) -> JsonModel {
    let base = seq![
        ("sessionId"@, JsonModel::Str(session_id)),
        ("entries"@, JsonModel::Array(s.entries@.map_values(|r: QueueRow| row_json(r)))),
    ];
    JsonModel::Object(
        match s.running_prompt_id {
            Some(id) => base.push(("runningPromptId"@, JsonModel::Str(id@))),
            None => base,
        },
    )
}

fn row_value(r: &QueueRow) -> (v: Json)
    requires
        r.position <= u64::MAX,
    ensures
        v@ == row_json(*r),
{
    let mut m: Vec<(String, Json)> = Vec::new();
    m.push(member("id", text_value(r.id.as_str())));
    m.push(member("version", count_value(r.version)));
    m.push(member("kind", text_value("prompt")));
    m.push(member("text", text_value(r.text.as_str())));
    m.push(member("position", count_value(r.position as u64)));
    let v = object(m);
    assert(member_models(m@) =~= seq![
        ("id"@, JsonModel::Str(r.id@)),
        ("version"@, count_model(r.version)),
        ("kind"@, JsonModel::Str("prompt"@)),
        ("text"@, JsonModel::Str(r.text@)),
        ("position"@, count_model(r.position as u64)),
    ]);
    v
}

/// The parameters of the `x.ai/queue/changed` notification for a snapshot.
pub fn queue_changed_params(session_id: &str, snapshot: &QueueSnapshot) -> (r: Json)
    ensures
        r@ == queue_changed_spec(session_id@, *snapshot),
{
    let mut rows: Vec<Json> = Vec::new();
    let mut i: usize = 0;
    while i < snapshot.entries.len()
        invariant
            i <= snapshot.entries.len(),
            rows@.len() == i,
            forall|j: int| 0 <= j < i ==> (#[trigger] rows@[j])@ == row_json(snapshot.entries@[j]),
        decreases snapshot.entries.len() - i,
    {
        rows.push(row_value(&snapshot.entries[i]));
        i = i + 1;
    }
    let ghost expected = snapshot.entries@.map_values(|r: QueueRow| row_json(r));
    let entries = Json::Array(rows);
    proof {
        lemma_items_model_all(rows@, expected);
    }
    let mut m: Vec<(String, Json)> = Vec::new();
    m.push(member("sessionId", text_value(session_id)));
    m.push(member("entries", entries));
    if let Some(id) = &snapshot.running_prompt_id {
        m.push(member("runningPromptId", text_value(id.as_str())));
    }
    let v = object(m);
    assert(member_models(m@) =~= match snapshot.running_prompt_id {
        Some(id) => seq![
            ("sessionId"@, JsonModel::Str(session_id@)),
            ("entries"@, JsonModel::Array(expected)),
        ].push(("runningPromptId"@, JsonModel::Str(id@))),
        None => seq![("sessionId"@, JsonModel::Str(session_id@)), ("entries"@, JsonModel::Array(expected))],
    });
    v
}

/// Reserving a non-blank id leaves exactly one reservation for it, the new
/// one, last in line; other reservations keep their order.
pub proof fn law_latest_reservation_wins(m: MirrorModel, id: Seq<char>, text: Seq<char>, lane: QueueLane)
    requires
        trim(id).len() > 0,
    ensures
        ({
            let r = reserve_spec(m, id, text, lane).reserved;
            &&& r.last() == (ReservedModel { id, text, lane })
            &&& forall|i: int| 0 <= i < r.len() - 1 ==> r[i].id != id
            &&& r.drop_last() == m.reserved.filter(other_id(id))
        }),
{
    let kept = m.reserved.filter(other_id(id));
    broadcast use vstd::seq_lib::group_filter_ensures;
    assert forall|i: int| 0 <= i < kept.len() implies kept[i].id != id by {
        assert(other_id(id)(kept[i]));
    }
    assert(kept.push(ReservedModel { id, text, lane }).drop_last() =~= kept);
}

} // verus!
