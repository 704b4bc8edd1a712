//! Extension self-heal at start-up.  When Pi's bootstrap fails with
//! extensions loaded, `grok-pi` checks that Pi boots without any, bisects the
//! ordered extension list for the one that breaks it, and relaunches
//! without that extension (or without any, when no single culprit shows).
//!
//! The decisions form a state machine: [`SelfHeal::next_action`] says what to
//! start, and [`SelfHeal::record`] takes whether Pi booted.  Starting Pi and
//! talking to the user are left to the caller.
use crate::cli::{extract_extension_paths, extension_paths, remove_extension_path, repeated_arg, strip_extension_args, without_extensions};
use vstd::prelude::*;

verus! {

/// Why self-heal gave up.
#[derive(Debug, Clone, Copy, PartialEq, Eq, Structural)]
pub enum HealFailure {
    /// Bootstrap failed and no extension was loaded.
    NoExtensions,
    /// Pi does not boot even without extensions.
    NotAnExtensionProblem,
    /// Pi still failed after the culprit was removed.
    RelaunchFailed,
    /// Pi failed even with all extensions disabled.
    FallbackFailed,
}

/// Which arguments a running Pi was started with.
#[derive(Debug, Clone, Copy, PartialEq, Eq, Structural)]
pub enum Launched {
    /// The arguments as given.
    AsGiven,
    /// The arguments without the extension with this index.
    WithoutCulprit(usize),
    /// The arguments without any extension.
    WithoutExtensions,
}

/// Where self-heal stands.
#[derive(Debug, Clone, Copy, PartialEq, Eq, Structural)]
pub enum HealPhase {
    /// Try the arguments as given.
    Start,
    /// Check that Pi boots without any extension.
    CheckBase,
    /// Probe the whole extension list.
    Full,
    /// Bisecting: the first `lo` extensions boot (or `lo` is 0), the first
    /// `hi` do not.
    Search { lo: usize, hi: usize },
    /// Probe extension `lo` alone.
    Verify { lo: usize },
    /// Probing each extension alone, from index `k`.
    Scan { k: usize },
    /// Relaunch without the culprit (or without all extensions).
    Relaunch { culprit: Option<usize> },
    /// Pi is running.
    Running(Launched),
    /// Self-heal gave up.
    Failed(HealFailure),
}

/// What the caller does next.
#[derive(Debug, Clone)]
pub enum HealAction {
    /// Start Pi with these arguments and keep it if it boots.
    Launch(Vec<String>),
    /// Start Pi with these arguments only to check that it boots; a failure
    /// to start the process is an error of its own.
    CheckWithoutExtensions(Vec<String>),
    /// Start Pi with these arguments only to see whether it boots (a failure
    /// to start counts as not booting).
    Probe(Vec<String>),
    /// Report the culprit (or, without one, the conflict), then start Pi with
    /// these arguments and keep it if it boots.
    Relaunch { args: Vec<String>, culprit: Option<String> },
    /// Pi runs with these arguments.
    Done(Vec<String>),
    /// Give up.
    Fail(HealFailure),
}

/// The self-heal state machine for one start-up.
pub struct SelfHeal {
    pi_args: Vec<String>,
    exts: Vec<String>,
    base: Vec<String>,
    phase: HealPhase,
}

/// Abstract state of a [`SelfHeal`].
pub struct HealModel {
    pub pi_args: Seq<Seq<char>>,
    pub exts: Seq<Seq<char>>,
    pub base: Seq<Seq<char>>,
    pub phase: HealPhase,
}

impl View for SelfHeal {
    type V = HealModel;

    closed spec fn view(&self) -> HealModel {
        HealModel {
            pi_args: self.pi_args.deep_view(),
            exts: self.exts.deep_view(),
            base: self.base.deep_view(),
            phase: self.phase,
        }
    }
}

/// Whether the machine is still working.
pub open spec fn active(p: HealPhase) -> bool {
    !(p is Running || p is Failed)
}

/// Whether a phase fits the extension list (indices in range, bisection
/// bounds ordered).
pub open spec fn phase_ok(p: HealPhase, n: nat) -> bool {
    match p {
        HealPhase::Search { lo, hi } => lo + 1 < hi <= n,
        HealPhase::Verify { lo } => lo < n,
        HealPhase::Scan { k } => k < n,
        HealPhase::Relaunch { culprit } => match culprit {
            Some(c) => c < n,
            None => true,
        },
        HealPhase::Running(l) => match l {
            Launched::WithoutCulprit(c) => c < n,
            _ => true,
        },
        _ => true,
    }
}

/// The machine's invariant: the extensions are those of the arguments, the
/// base arguments are the arguments without them, and the phase fits.
pub open spec fn heal_inv(m: HealModel) -> bool {
    &&& m.exts == extension_paths(m.pi_args)
    &&& m.exts.len() <= usize::MAX
    &&& m.base == without_extensions(m.pi_args, None)
    &&& phase_ok(m.phase, m.exts.len())
    &&& (m.phase is CheckBase || m.phase is Full || m.phase is Search || m.phase is Verify
        || m.phase is Scan) ==> m.exts.len() > 0
}

/// The arguments that start Pi with only the extensions `subset`.
pub open spec fn with_extensions(base: Seq<Seq<char>>, subset: Seq<Seq<char>>) -> Seq<Seq<char>> {
    base + repeated_arg(subset, "--extension"@)
}

/// The extensions probed in a probing phase.
pub open spec fn probed(m: HealModel) -> Seq<Seq<char>> {
    match m.phase {
        HealPhase::Full => m.exts,
        HealPhase::Search { lo, hi } => m.exts.take(((lo + hi) / 2) as int),
        HealPhase::Verify { lo } => seq![m.exts[lo as int]],
        HealPhase::Scan { k } => seq![m.exts[k as int]],
        _ => Seq::empty(),
    }
}

/// The arguments of a launch: as given, without the culprit, or without
/// every extension.
pub open spec fn launch_args(m: HealModel, l: Launched) -> Seq<Seq<char>> {
    match l {
        Launched::AsGiven => m.pi_args,
        Launched::WithoutCulprit(c) => without_extensions(m.pi_args, Some(m.exts[c as int])),
        Launched::WithoutExtensions => m.base,
    }
}

/// What a relaunch starts.
pub open spec fn relaunched(culprit: Option<usize>) -> Launched {
    match culprit {
        Some(c) => Launched::WithoutCulprit(c),
        None => Launched::WithoutExtensions,
    }
}

/// The phase after a bisection step: the first `lo` boot, the first `hi`
/// do not.
pub open spec fn narrowed(lo: usize, hi: usize) -> HealPhase {
    if lo + 1 < hi {
        HealPhase::Search { lo, hi }
    } else {
        HealPhase::Verify { lo }
    }
}

/// The phase after learning whether Pi booted (`ok`).
pub open spec fn record_spec(m: HealModel, ok: bool) -> HealPhase {
    let n = m.exts.len();
    match m.phase {
        HealPhase::Start => if ok {
            HealPhase::Running(Launched::AsGiven)
        } else if n == 0 {
            HealPhase::Failed(HealFailure::NoExtensions)
        } else {
            HealPhase::CheckBase
        },
        HealPhase::CheckBase => if ok {
            HealPhase::Full
        } else {
            HealPhase::Failed(HealFailure::NotAnExtensionProblem)
        },
        HealPhase::Full => if ok {
            HealPhase::Relaunch { culprit: None }
        } else {
            narrowed(0, n as usize)
        },
        HealPhase::Search { lo, hi } => {
            let mid = ((lo + hi) / 2) as usize;
            if ok {
                narrowed(mid, hi)
            } else {
                narrowed(lo, mid)
            }
        },
        HealPhase::Verify { lo } => if ok {
            HealPhase::Scan { k: 0 }
        } else {
            HealPhase::Relaunch { culprit: Some(lo) }
        },
        HealPhase::Scan { k } => if !ok {
            HealPhase::Relaunch { culprit: Some(k) }
        } else if k + 1 < n {
            HealPhase::Scan { k: (k + 1) as usize }
        } else {
            HealPhase::Relaunch { culprit: None }
        },
        HealPhase::Relaunch { culprit } => if ok {
            HealPhase::Running(relaunched(culprit))
        } else if culprit is Some {
            HealPhase::Failed(HealFailure::RelaunchFailed)
        } else {
            HealPhase::Failed(HealFailure::FallbackFailed)
        },
        p => p,
    }
}

/// A bound on the steps left, which every step of an active machine lowers.
pub open spec fn steps_left(p: HealPhase, n: nat) -> nat {
    match p {
        HealPhase::Start => 3 * n + 10,
        HealPhase::CheckBase => 3 * n + 9,
        HealPhase::Full => 3 * n + 8,
        HealPhase::Search { lo, hi } => if hi >= lo { (n + 4 + (hi - lo)) as nat } else { n + 4 },
        HealPhase::Verify { lo } => n + 4,
        HealPhase::Scan { k } => if n >= k { (n - k + 2) as nat } else { 2 },
        HealPhase::Relaunch { culprit } => 1,
        _ => 0,
    }
}


fn copy_range(v: &Vec<String>, lo: usize, hi: usize) -> (r: Vec<String>)
    requires
        lo <= hi <= v.len(),
    ensures
        r.deep_view() == v.deep_view().subrange(lo as int, hi as int),
{
    let mut out: Vec<String> = Vec::new();
    let mut i: usize = lo;
    while i < hi
        invariant
            lo <= i <= hi <= v.len(),
            out@.len() == i - lo,
            out.deep_view() == v.deep_view().subrange(lo as int, i as int),
        decreases hi - i,
    {
        let ghost before = out@;
        let c = v[i].clone();
        out.push(c);
        assert forall|j: int| 0 <= j < out@.len() implies #[trigger] out.deep_view()[j]
            == v.deep_view().subrange(lo as int, i + 1)[j] by {
            if j < before.len() {
                assert(out@[j] == before[j]);
                assert(before.map_values(|s: String| s@)[j] == v.deep_view().subrange(lo as int, i as int)[j]);
            }
        }
        assert(out.deep_view() =~= v.deep_view().subrange(lo as int, i + 1));
        i = i + 1;
    }
    out
}

fn probe_args(base: &Vec<String>, subset: &Vec<String>) -> (r: Vec<String>)
    ensures
        r.deep_view() == with_extensions(base.deep_view(), subset.deep_view()),
{
    let mut out = copy_range(base, 0, base.len());
    assert(base.deep_view().subrange(0, base.len() as int) =~= base.deep_view());
    let ghost sv = subset.deep_view();
    let mut j: usize = 0;
    assert(sv.take(0) =~= Seq::<Seq<char>>::empty());
    assert(base.deep_view() + repeated_arg(sv.take(0), "--extension"@) =~= base.deep_view());
    while j < subset.len()
        invariant
            j <= subset.len(),
            sv == subset.deep_view(),
            out.deep_view() == base.deep_view() + repeated_arg(sv.take(j as int), "--extension"@),
        decreases subset.len() - j,
    {
        assert(sv.take(j + 1).drop_last() =~= sv.take(j as int));
        let ghost before = out.deep_view();
        out.push(String::from_str("--extension"));
        let item = subset[j].clone();
        assert(item@ == sv[j as int]);
        out.push(item);
        assert(out.deep_view() =~= before + seq!["--extension"@, sv[j as int]]);
        j = j + 1;
    }
    assert(sv.take(subset.len() as int) =~= sv);
    out
}

impl SelfHeal {
    /// Self-heal for a start-up with Pi arguments `pi_args`.
    pub fn new(pi_args: Vec<String>) -> (h: Self)
        ensures
            h@.pi_args == pi_args.deep_view(),
            h@.phase == HealPhase::Start,
            heal_inv(h@),
    {
        let exts = extract_extension_paths(&pi_args);
        let base = strip_extension_args(&pi_args);
        let count = exts.len();
        assert(exts.deep_view().len() == count);
        SelfHeal { pi_args, exts, base, phase: HealPhase::Start }
    }

    /// Where self-heal stands.
    pub fn phase(&self) -> (p: HealPhase)
        ensures
            p == self@.phase,
    {
        self.phase
    }

    /// What to do next.
    pub fn next_action(&self) -> (a: HealAction)
        requires
            heal_inv(self@),
        ensures
            a matches HealAction::Launch(args) ==> self@.phase == HealPhase::Start
                && args.deep_view() == self@.pi_args,
            a matches HealAction::CheckWithoutExtensions(args) ==> self@.phase == HealPhase::CheckBase
                && args.deep_view() == self@.base,
            a matches HealAction::Probe(args) ==> (self@.phase is Full || self@.phase is Search
                || self@.phase is Verify || self@.phase is Scan) && args.deep_view()
                == with_extensions(self@.base, probed(self@)),
            a matches HealAction::Relaunch { args, culprit } ==> self@.phase matches HealPhase::Relaunch {
                culprit: c,
            } && args.deep_view() == launch_args(self@, relaunched(c)) && match c {
                Some(i) => culprit matches Some(p) && p@ == self@.exts[i as int],
                None => culprit is None,
            },
            a matches HealAction::Done(args) ==> self@.phase matches HealPhase::Running(l)
                && args.deep_view() == launch_args(self@, l),
            a matches HealAction::Fail(f) ==> self@.phase == HealPhase::Failed(f),
    {
        match self.phase {
            HealPhase::Start => HealAction::Launch(self.clone_args()),
            HealPhase::CheckBase => HealAction::CheckWithoutExtensions(self.base_args()),
            HealPhase::Full => HealAction::Probe(probe_args(&self.base, &self.exts)),
            HealPhase::Search { lo, hi } => {
                let mid = lo + (hi - lo) / 2;
                assert(mid == (lo + hi) / 2);
                let prefix = slice_prefix(&self.exts, mid);
                HealAction::Probe(probe_args(&self.base, &prefix))
            },
            HealPhase::Verify { lo } => {
                let one = vec![self.exts[lo].clone()];
                assert(one.deep_view() =~= seq![self@.exts[lo as int]]);
                HealAction::Probe(probe_args(&self.base, &one))
            },
            HealPhase::Scan { k } => {
                let one = vec![self.exts[k].clone()];
                assert(one.deep_view() =~= seq![self@.exts[k as int]]);
                HealAction::Probe(probe_args(&self.base, &one))
            },
            HealPhase::Relaunch { culprit } => match culprit {
                Some(c) => {
                    let bad = self.exts[c].clone();
                    let args = remove_extension_path(&self.pi_args, bad.as_str());
                    HealAction::Relaunch { args, culprit: Some(bad) }
                },
                None => HealAction::Relaunch { args: self.base_args(), culprit: None },
            },
            HealPhase::Running(l) => HealAction::Done(
                match l {
                    Launched::AsGiven => self.clone_args(),
                    Launched::WithoutCulprit(c) => remove_extension_path(
                        &self.pi_args,
                        self.exts[c].as_str(),
                    ),
                    Launched::WithoutExtensions => self.base_args(),
                },
            ),
            HealPhase::Failed(f) => HealAction::Fail(f),
        }
    }

    fn base_args(&self) -> (r: Vec<String>)
        ensures
            r.deep_view() == self@.base,
    {
        let out = copy_range(&self.base, 0, self.base.len());
        assert(self.base.deep_view().subrange(0, self.base.len() as int) =~= self.base.deep_view());
        out
    }

    fn clone_args(&self) -> (r: Vec<String>)
        ensures
            r.deep_view() == self@.pi_args,
    {
        let out = copy_range(&self.pi_args, 0, self.pi_args.len());
        assert(self.pi_args.deep_view().subrange(0, self.pi_args.len() as int) =~= self.pi_args.deep_view());
        out
    }

    /// Take whether Pi booted with the last action's arguments.
    pub fn record(&mut self, ok: bool)
        requires
            heal_inv(old(self)@),
        ensures
            heal_inv(final(self)@),
            final(self)@.pi_args == old(self)@.pi_args,
            final(self)@.exts == old(self)@.exts,
            final(self)@.base == old(self)@.base,
            final(self)@.phase == record_spec(old(self)@, ok),
    {
        let n = self.exts.len();
        self.phase = match self.phase {
            HealPhase::Start => if ok {
                HealPhase::Running(Launched::AsGiven)
            } else if n == 0 {
                HealPhase::Failed(HealFailure::NoExtensions)
            } else {
                HealPhase::CheckBase
            },
            HealPhase::CheckBase => if ok {
                HealPhase::Full
            } else {
                HealPhase::Failed(HealFailure::NotAnExtensionProblem)
            },
            HealPhase::Full => if ok {
                HealPhase::Relaunch { culprit: None }
            } else {
                narrow(0, n)
            },
            HealPhase::Search { lo, hi } => {
                let mid = lo + (hi - lo) / 2;
                assert(mid == (lo + hi) / 2);
                if ok {
                    narrow(mid, hi)
                } else {
                    narrow(lo, mid)
                }
            },
            HealPhase::Verify { lo } => if ok {
                HealPhase::Scan { k: 0 }
            } else {
                HealPhase::Relaunch { culprit: Some(lo) }
            },
            HealPhase::Scan { k } => if !ok {
                HealPhase::Relaunch { culprit: Some(k) }
            } else if k + 1 < n {
                HealPhase::Scan { k: k + 1 }
            } else {
                HealPhase::Relaunch { culprit: None }
            },
            HealPhase::Relaunch { culprit } => if ok {
                HealPhase::Running(
                    match culprit {
                        Some(c) => Launched::WithoutCulprit(c),
                        None => Launched::WithoutExtensions,
                    },
                )
            } else if culprit.is_some() {
                HealPhase::Failed(HealFailure::RelaunchFailed)
            } else {
                HealPhase::Failed(HealFailure::FallbackFailed)
            },
            p => p,
        };
    }
}

fn narrow(lo: usize, hi: usize) -> (p: HealPhase)
    ensures
        p == narrowed(lo, hi),
{
    if hi > lo && hi - lo > 1 {
        HealPhase::Search { lo, hi }
    } else {
        HealPhase::Verify { lo }
    }
}

fn slice_prefix(v: &Vec<String>, k: usize) -> (r: Vec<String>)
    requires
        k <= v.len(),
    ensures
        r.deep_view() == v.deep_view().take(k as int),
{
    let out = copy_range(v, 0, k);
    assert(v.deep_view().subrange(0, k as int) =~= v.deep_view().take(k as int));
    out
}

/// Self-heal always ends: every step of a working machine lowers the number
/// of steps left, so Pi is started at most `3n + 10` times for `n`
/// extensions.
pub proof fn law_self_heal_terminates(m: HealModel, ok: bool)
    requires
        heal_inv(m),
        active(m.phase),
    ensures
        steps_left(record_spec(m, ok), m.exts.len()) < steps_left(m.phase, m.exts.len()),
        steps_left(m.phase, m.exts.len()) <= 3 * m.exts.len() + 10,
{
    match m.phase {
        HealPhase::Search { lo, hi } => {
            let mid = ((lo + hi) / 2) as usize;
            let n = m.exts.len();
            assert(lo < mid < hi);
            if ok {
                assert(record_spec(m, ok) == narrowed(mid, hi));
                assert(steps_left(narrowed(mid, hi), n) < steps_left(m.phase, n));
            } else {
                assert(record_spec(m, ok) == narrowed(lo, mid));
                assert(steps_left(narrowed(lo, mid), n) < steps_left(m.phase, n));
            }
            assert(steps_left(record_spec(m, ok), n) < steps_left(m.phase, n));
        },
        _ => {},
    }
}

/// A culprit is only ever named after Pi failed to boot with that extension
/// alone (all other extensions left out).
pub proof fn law_culprit_failed_alone(m: HealModel, ok: bool, c: usize)
    requires
        heal_inv(m),
        !(m.phase is Relaunch),
        record_spec(m, ok) == (HealPhase::Relaunch { culprit: Some(c) }),
    ensures
        !ok,
        probed(m) == seq![m.exts[c as int]],
{
}

/// Without extensions there is nothing to heal: a failed start with no
/// extension loaded gives up at once, and one with extensions first checks
/// that Pi boots without any.
pub proof fn law_checks_base_first(m: HealModel)
    requires
        heal_inv(m),
        m.phase == HealPhase::Start,
    ensures
        m.exts.len() == 0 ==> record_spec(m, false) == HealPhase::Failed(HealFailure::NoExtensions),
        m.exts.len() > 0 ==> record_spec(m, false) == HealPhase::CheckBase,
        extension_paths(m.base) == Seq::<Seq<char>>::empty(),
{
    crate::cli::law_stripped_args_load_no_extensions(m.pi_args);
}

} // verus!
