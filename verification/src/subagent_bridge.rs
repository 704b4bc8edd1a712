//! Subagent bridge bookkeeping: replay events held back while Pi switches
//! sessions, and the per-subagent sequence numbers that reject duplicate or
//! out-of-order live events.
use crate::queue_bridge::opt_view;
use crate::text::str_eq;
use vstd::prelude::*;

verus! {

/// Why a session transition could not be started or committed.
#[derive(Debug, Clone)]
pub enum BridgeError {
    /// A transition to this session is already in progress.
    TransitionInProgress(String),
    /// The transition to `current` is pending while `requested` loads.
    StillPending { current: String, requested: String },
}

impl BridgeError {
    /// The error's message.
    pub fn message(&self) -> (r: String)
        ensures
            r@ == match self {
                BridgeError::TransitionInProgress(t) => "Pi session transition to "@ + t@
                    + " is already in progress"@,
                BridgeError::StillPending { current, requested } => "Pi session transition to "@
                    + current@ + " is still pending while "@ + requested@ + " loads"@,
            },
    {
        let mut out = String::from_str("Pi session transition to ");
        match self {
            BridgeError::TransitionInProgress(t) => {
                crate::text::push_str(&mut out, t.as_str());
                crate::text::push_str(&mut out, " is already in progress");
            },
            BridgeError::StillPending { current, requested } => {
                crate::text::push_str(&mut out, current.as_str());
                crate::text::push_str(&mut out, " is still pending while ");
                crate::text::push_str(&mut out, requested.as_str());
                crate::text::push_str(&mut out, " loads");
            },
        }
        out
    }
}

/// Abstract state of a [`PendingSubagentBridge`]: the session being switched
/// to, and the replay events held back for it, oldest first.
pub struct PendingModel<E> {
    pub target: Option<Seq<char>>,
    pub events: Seq<E>,
}

/// Replay events of the session Pi is switching to, held back until the
/// switch commits.  Pi announces the target session's subagents before its
/// `switch_session` response arrives, so they must not be checked against
/// the session still shown.
pub struct PendingSubagentBridge<E> {
    target_session_id: Option<String>,
    events: Vec<E>,
}

impl<E> View for PendingSubagentBridge<E> {
    type V = PendingModel<E>;

    closed spec fn view(&self) -> PendingModel<E> {
        PendingModel { target: opt_view(self.target_session_id), events: self.events@ }
    }
}

/// Starting a transition to `target`: refused while another is in progress.
pub open spec fn begin_spec<E>(m: PendingModel<E>, target: Seq<char>) -> Option<PendingModel<E>> {
    if m.target is Some {
        None
    } else {
        Some(PendingModel { target: Some(target), events: Seq::empty() })
    }
}

/// Whether an event of subagents of session `parent` is held back.
pub open spec fn defers<E>(m: PendingModel<E>, parent: Option<Seq<char>>) -> bool {
    parent is Some && m.target is Some && parent == m.target
}

/// The state after offering an event of session `parent`.
pub open spec fn defer_spec<E>(m: PendingModel<E>, parent: Option<Seq<char>>, event: E) -> PendingModel<E> {
    if defers(m, parent) {
        PendingModel { events: m.events.push(event), ..m }
    } else {
        m
    }
}

/// Committing the transition to `target`: the held events come out and the
/// transition ends; nothing happens without a transition; a transition to
/// another session is an error.
pub open spec fn commit_spec<E>(m: PendingModel<E>, target: Seq<char>) -> Option<(PendingModel<E>, Seq<E>)> {
    match m.target {
        None => Some((m, Seq::empty())),
        Some(t) => if t == target {
            Some((PendingModel { target: None, events: Seq::empty() }, m.events))
        } else {
            None
        },
    }
}

/// Abandoning the transition to `target` drops its held events.
pub open spec fn abandon_spec<E>(m: PendingModel<E>, target: Seq<char>) -> PendingModel<E> {
    if m.target == Some(target) {
        PendingModel { target: None, events: Seq::empty() }
    } else {
        m
    }
}

impl<E> PendingSubagentBridge<E> {
    /// No transition in progress.
    pub fn new() -> (b: Self)
        ensures
            b@.target is None,
            b@.events.len() == 0,
    {
        PendingSubagentBridge { target_session_id: None, events: Vec::new() }
    }

    /// Start holding back replay for a switch to `target_session_id`.
    pub fn begin(&mut self, target_session_id: &str) -> (r: Result<(), BridgeError>)
        ensures
            match begin_spec(old(self)@, target_session_id@) {
                Some(m) => r is Ok && final(self)@ == m,
                None => r matches Err(BridgeError::TransitionInProgress(t)) && old(self)@.target
                    == Some(t@) && final(self)@ == old(self)@,
            },
    {
        match &self.target_session_id {
            Some(existing) => {
                return Err(BridgeError::TransitionInProgress(existing.clone()));
            },
            None => {},
        }
        self.target_session_id = Some(crate::text::to_owned(target_session_id));
        self.events = Vec::new();
        proof {
            assert(self@.events =~= Seq::<E>::empty());
        }
        Ok(())
    }

    /// Hold `event` back when it belongs to subagents of the session being
    /// switched to (`parent_session_id`); says whether it was held.
    pub fn defer_if_targeted(&mut self, parent_session_id: Option<&str>, event: E) -> (held: bool)
        ensures
            held == defers(old(self)@, opt_str(parent_session_id)),
            final(self)@ == defer_spec(old(self)@, opt_str(parent_session_id), event),
    {
        let parent = match parent_session_id {
            Some(p) => p,
            None => return false,
        };
        let target = match &self.target_session_id {
            Some(t) => t,
            None => return false,
        };
        if !str_eq(parent, target.as_str()) {
            return false;
        }
        self.events.push(event);
        true
    }

    /// Finish the switch to `target_session_id` and hand out the events held
    /// for it, oldest first.
    pub fn commit_if_target(&mut self, target_session_id: &str) -> (r: Result<Vec<E>, BridgeError>)
        ensures
            match commit_spec(old(self)@, target_session_id@) {
                Some((m, evs)) => r matches Ok(v) && v@ == evs && final(self)@ == m,
                None => r matches Err(BridgeError::StillPending { current, requested })
                    && old(self)@.target == Some(current@) && requested@ == target_session_id@
                    && final(self)@ == old(self)@,
            },
    {
        let current = match &self.target_session_id {
            None => return Ok(Vec::new()),
            Some(c) => c,
        };
        if !str_eq(current.as_str(), target_session_id) {
            return Err(
                BridgeError::StillPending {
                    current: current.clone(),
                    requested: crate::text::to_owned(target_session_id),
                },
            );
        }
        self.target_session_id = None;
        let mut taken: Vec<E> = Vec::new();
        std::mem::swap(&mut taken, &mut self.events);
        proof {
            assert(self@.events =~= Seq::<E>::empty());
        }
        Ok(taken)
    }

    /// Give up the switch to `target_session_id`, dropping its held events.
    pub fn abandon(&mut self, target_session_id: &str)
        ensures
            final(self)@ == abandon_spec(old(self)@, target_session_id@),
    {
        let hit = match &self.target_session_id {
            Some(t) => str_eq(t.as_str(), target_session_id),
            None => false,
        };
        if hit {
            self.target_session_id = None;
            self.events = Vec::new();
            proof {
                assert(self@.events =~= Seq::<E>::empty());
            }
        }
    }
}

/// The view of an optional string slice.
pub open spec fn opt_str(o: Option<&str>) -> Option<Seq<char>> {
    match o {
        Some(s) => Some(s@),
        None => None,
    }
}

/// The events held for a switch that commits: everything offered for the
/// target session since `begin`, in order, and nothing else.
pub open spec fn deferred<E>(target: Seq<char>, offered: Seq<(Option<Seq<char>>, E)>) -> Seq<E>
    decreases offered.len(),
{
    if offered.len() == 0 {
        Seq::empty()
    } else {
        let prev = deferred(target, offered.drop_last());
        if offered.last().0 == Some(target) {
            prev.push(offered.last().1)
        } else {
            prev
        }
    }
}

/// The state after offering each event of `offered` in turn.
pub open spec fn defer_all<E>(m: PendingModel<E>, offered: Seq<(Option<Seq<char>>, E)>) -> PendingModel<E>
    decreases offered.len(),
{
    if offered.len() == 0 {
        m
    } else {
        let prev = defer_all(m, offered.drop_last());
        defer_spec(prev, offered.last().0, offered.last().1)
    }
}

proof fn lemma_defer_all<E>(target: Seq<char>, offered: Seq<(Option<Seq<char>>, E)>)
    ensures
        defer_all(PendingModel { target: Some(target), events: Seq::empty() }, offered)
            == (PendingModel { target: Some(target), events: deferred(target, offered) }),
    decreases offered.len(),
{
    if offered.len() > 0 {
        lemma_defer_all(target, offered.drop_last());
    }
}

/// A switch that begins, is offered events, and commits for its own target
/// hands out exactly the events of that target session, in the order they
/// were offered, and ends with nothing held.
pub proof fn law_commit_replays_target_events<E>(m: PendingModel<E>, target: Seq<char>, offered: Seq<(Option<Seq<char>>, E)>)
    requires
        m.target is None,
    ensures
        ({
            let started = begin_spec(m, target).unwrap();
            let (after, events) = commit_spec(defer_all(started, offered), target).unwrap();
            &&& begin_spec(m, target) is Some
            &&& commit_spec(defer_all(started, offered), target) is Some
            &&& events == deferred(target, offered)
            &&& after.target is None
            &&& after.events.len() == 0
        }),
{
    lemma_defer_all(target, offered);
}

/// An abandoned switch replays nothing: after abandoning it, committing the
/// same target hands out no events.
pub proof fn law_abandon_discards<E>(m: PendingModel<E>, target: Seq<char>)
    requires
        m.target == Some(target),
    ensures
        commit_spec(abandon_spec(m, target), target) == Some(
            (PendingModel::<E> { target: None, events: Seq::empty() }, Seq::<E>::empty()),
        ),
{
}


/// The value recorded for key `k`: the first pair with that key.
pub open spec fn seq_lookup(s: Seq<(Seq<char>, u64)>, k: Seq<char>) -> Option<u64>
    decreases s.len(),
{
    if s.len() == 0 {
        None
    } else if s[0].0 == k {
        Some(s[0].1)
    } else {
        seq_lookup(s.drop_first(), k)
    }
}

/// The map a list of pairs stands for.
pub open spec fn pairs_map(s: Seq<(Seq<char>, u64)>) -> Map<Seq<char>, u64> {
    Map::new(|k: Seq<char>| seq_lookup(s, k) is Some, |k: Seq<char>| seq_lookup(s, k).unwrap())
}

proof fn lemma_lookup_absent(s: Seq<(Seq<char>, u64)>, k: Seq<char>)
    requires
        forall|j: int| 0 <= j < s.len() ==> s[j].0 != k,
    ensures
        seq_lookup(s, k) is None,
    decreases s.len(),
{
    if s.len() > 0 {
        lemma_lookup_absent(s.drop_first(), k);
    }
}

proof fn lemma_lookup_first(s: Seq<(Seq<char>, u64)>, i: int)
    requires
        0 <= i < s.len(),
        forall|j: int| 0 <= j < i ==> s[j].0 != s[i].0,
    ensures
        seq_lookup(s, s[i].0) == Some(s[i].1),
    decreases i,
{
    if i > 0 {
        lemma_lookup_first(s.drop_first(), i - 1);
    }
}

proof fn lemma_lookup_update(s: Seq<(Seq<char>, u64)>, i: int, v: u64, k2: Seq<char>)
    requires
        0 <= i < s.len(),
        forall|j: int| 0 <= j < i ==> s[j].0 != s[i].0,
    ensures
        seq_lookup(s.update(i, (s[i].0, v)), k2) == if k2 == s[i].0 {
            Some(v)
        } else {
            seq_lookup(s, k2)
        },
    decreases i,
{
    let t = s.update(i, (s[i].0, v));
    if i == 0 {
        assert(t.drop_first() =~= s.drop_first());
    } else {
        lemma_lookup_update(s.drop_first(), i - 1, v, k2);
        assert(t.drop_first() =~= s.drop_first().update(i - 1, (s[i].0, v)));
    }
}

proof fn lemma_lookup_push(s: Seq<(Seq<char>, u64)>, k: Seq<char>, v: u64, k2: Seq<char>)
    requires
        forall|j: int| 0 <= j < s.len() ==> s[j].0 != k,
    ensures
        seq_lookup(s.push((k, v)), k2) == if k2 == k {
            Some(v)
        } else {
            seq_lookup(s, k2)
        },
    decreases s.len(),
{
    if s.len() == 0 {
        assert(s.push((k, v)).drop_first() =~= Seq::<(Seq<char>, u64)>::empty());
        assert(seq_lookup(Seq::<(Seq<char>, u64)>::empty(), k2) is None);
        assert(s =~= Seq::<(Seq<char>, u64)>::empty());
    } else {
        lemma_lookup_push(s.drop_first(), k, v, k2);
        assert(s.push((k, v)).drop_first() =~= s.drop_first().push((k, v)));
    }
}

/// The last accepted live bridge sequence number of each subagent.  Only
/// used to reject duplicate or out-of-order transport events; the subagents'
/// lifecycle stays with the Pi extension.
pub struct BridgeSequences {
    last: Vec<(String, u64)>,
}

/// The pairs of a list of `(id, sequence)` entries, by view.
pub open spec fn pair_views(v: Seq<(String, u64)>) -> Seq<(Seq<char>, u64)> {
    v.map_values(|p: (String, u64)| (p.0@, p.1))
}

impl View for BridgeSequences {
    type V = Map<Seq<char>, u64>;

    closed spec fn view(&self) -> Map<Seq<char>, u64> {
        pairs_map(pair_views(self.last@))
    }
}

/// Whether a live event numbered `sequence` of subagent `id` is rejected:
/// a non-replay event that does not move past the last one accepted.
pub open spec fn rejects(m: Map<Seq<char>, u64>, id: Seq<char>, sequence: u64, replay: bool) -> bool {
    !replay && m.contains_key(id) && sequence <= m[id]
}

/// The record after accepting event `sequence` of subagent `id`: the
/// highest number seen.
pub open spec fn accept_spec(m: Map<Seq<char>, u64>, id: Seq<char>, sequence: u64) -> Map<Seq<char>, u64> {
    m.insert(
        id,
        if m.contains_key(id) && m[id] > sequence {
            m[id]
        } else {
            sequence
        },
    )
}

impl BridgeSequences {
    /// Nothing accepted yet.
    pub fn new() -> (b: Self)
        ensures
            b@ == Map::<Seq<char>, u64>::empty(),
    {
        let b = BridgeSequences { last: Vec::new() };
        proof {
            assert(b@ =~= Map::<Seq<char>, u64>::empty());
        }
        b
    }

    /// Check event `sequence` of subagent `subagent_id` and record it when
    /// accepted.  Replayed events are always accepted.
    pub fn accept(&mut self, subagent_id: &str, sequence: u64, replay: bool) -> (accepted: bool)
        ensures
            accepted == !rejects(old(self)@, subagent_id@, sequence, replay),
            accepted ==> final(self)@ == accept_spec(old(self)@, subagent_id@, sequence),
            !accepted ==> final(self)@ == old(self)@,
    {
        let ghost s = pair_views(self.last@);
        let mut i: usize = 0;
        while i < self.last.len()
            invariant
                i <= self.last.len(),
                s == pair_views(self.last@),
                self.last@ == old(self).last@,
                forall|j: int| 0 <= j < i ==> s[j].0 != subagent_id@,
            decreases self.last.len() - i,
        {
            if str_eq(self.last[i].0.as_str(), subagent_id) {
                let last = self.last[i].1;
                proof {
                    lemma_lookup_first(s, i as int);
                    assert(s[i as int].0 == subagent_id@);
                    assert(old(self)@.contains_key(subagent_id@));
                    assert(old(self)@[subagent_id@] == last);
                }
                if !replay && sequence <= last {
                    return false;
                }
                let v = if last > sequence { last } else { sequence };
                let id = self.last[i].0.clone();
                self.last.set(i, (id, v));
                proof {
                    assert(pair_views(self.last@) =~= s.update(i as int, (s[i as int].0, v)));
                    assert forall|k: Seq<char>| true implies #[trigger] seq_lookup(
                        pair_views(self.last@),
                        k,
                    ) == if k == subagent_id@ {
                        Some(v)
                    } else {
                        seq_lookup(s, k)
                    } by {
                        lemma_lookup_update(s, i as int, v, k);
                    }
                    assert(self@ =~= accept_spec(old(self)@, subagent_id@, sequence));
                }
                return true;
            }
            i = i + 1;
        }
        proof {
            lemma_lookup_absent(s, subagent_id@);
        }
        self.last.push((crate::text::to_owned(subagent_id), sequence));
        proof {
            assert(pair_views(self.last@) =~= s.push((subagent_id@, sequence)));
            assert forall|k: Seq<char>| true implies #[trigger] seq_lookup(
                pair_views(self.last@),
                k,
            ) == if k == subagent_id@ {
                Some(sequence)
            } else {
                seq_lookup(s, k)
            } by {
                lemma_lookup_push(s, subagent_id@, sequence, k);
            }
            assert(self@ =~= accept_spec(old(self)@, subagent_id@, sequence));
        }
        true
    }
}

/// Once a live event of a subagent is accepted, a live duplicate of it (or
/// any older one) is rejected, while replays still pass.
pub proof fn law_live_duplicates_rejected(m: Map<Seq<char>, u64>, id: Seq<char>, sequence: u64, replay: bool, later: u64)
    requires
        later <= sequence,
    ensures
        rejects(accept_spec(m, id, sequence), id, later, false),
        !rejects(accept_spec(m, id, sequence), id, later, true),
{
}

/// The recorded number of a subagent never decreases.
pub proof fn law_sequences_monotone(m: Map<Seq<char>, u64>, id: Seq<char>, sequence: u64)
    requires
        m.contains_key(id),
    ensures
        accept_spec(m, id, sequence)[id] >= m[id],
        accept_spec(m, id, sequence)[id] >= sequence,
{
}

} // verus!
