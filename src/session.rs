use vstd::prelude::*;

verus! {

/// What a run does with the files it finds.
#[derive(Clone, Copy, Debug, PartialEq, Eq, Structural)]
pub enum Mode {
    /// List every recoverable file.
    List,
    /// Show which selected files would be recovered, writing nothing.
    DryRun,
    /// Recover the selected files into the output directory.
    Recover,
}

/// Where a run stands.
#[derive(Clone, Copy, Debug, PartialEq, Eq, Structural)]
pub enum Phase {
    /// Restore from the root at this position (the current tree when the run
    /// searches no older roots).
    Restore(usize),
    /// Remove empty files after a successful recovery from the root at this
    /// position.
    Tidy(usize),
    /// Remove empty files once the restores are over.
    Clean,
    /// Report what was recovered.
    Summary,
    /// Report that discovery found no root.
    NoRoots,
    /// Give up: the single restore of the current tree failed.
    Failed,
    /// Nothing is left to do.
    Done,
}

/// What the caller does next.
#[derive(Clone, Copy, Debug, PartialEq, Eq, Structural)]
pub enum Action {
    /// Run one restore, from this root, or from the current tree for `None`.
    Restore(Option<u64>),
    /// Delete the zero-byte files under the output directory.
    RemoveEmpty,
    /// Report the files that remain under the output directory.
    Summarize,
    /// Warn that no root was found; the run ends without error.
    ReportNoRoots,
    /// End the run with an error.
    Abort,
    /// End the run normally.
    Finish,
}

/// How one restore is run.
#[derive(Clone, Copy, Debug, PartialEq, Eq, Structural)]
pub struct RestoreOptions {
    /// Only report what would be restored; write nothing.
    pub simulate: bool,
    /// Take extended attributes and metadata along, as a real recovery from an
    /// older root does.
    pub extended: bool,
    /// Select every path instead of the run's pattern.
    pub select_all: bool,
    /// Write into the output directory rather than nowhere.
    pub into_output: bool,
}

/// The options of a restore in the given mode, from an older root or from the
/// current tree.
pub open spec fn options_for(mode: Mode, from_root: bool) -> RestoreOptions {
    RestoreOptions {
        simulate: mode != Mode::Recover,
        extended: mode == Mode::Recover && from_root,
        select_all: mode == Mode::List,
        into_output: mode == Mode::Recover,
    }
}

/// Chooses how a restore is run: listing and dry runs simulate and read
/// only diagnostics, listing selects every path, and a real recovery from an
/// older root also asks for extended attributes and metadata.
pub fn restore_options(mode: Mode, from_root: bool) -> (r: RestoreOptions)
    ensures
        r == options_for(mode, from_root),
{
    match mode {
        Mode::List => RestoreOptions {
            simulate: true,
            extended: false,
            select_all: true,
            into_output: false,
        },
        Mode::DryRun => RestoreOptions {
            simulate: true,
            extended: false,
            select_all: false,
            into_output: false,
        },
        Mode::Recover => RestoreOptions {
            simulate: false,
            extended: from_root,
            select_all: false,
            into_output: true,
        },
    }
}

/// The first phase: a run over roots with none to try has nothing to restore.
pub open spec fn start_phase(whole: bool, n: nat) -> Phase {
    if !whole && n == 0 {
        Phase::NoRoots
    } else {
        Phase::Restore(0)
    }
}

/// The phase after the root at position `i` has been dealt with.
pub open spec fn after_root(mode: Mode, n: nat, i: int) -> Phase {
    if i + 1 < n {
        Phase::Restore((i + 1) as usize)
    } else if mode == Mode::Recover {
        Phase::Clean
    } else {
        Phase::Done
    }
}

/// The phase that follows `p` once its action is done; `ok` tells whether a
/// restore succeeded and is ignored after other actions.
pub open spec fn next_phase(mode: Mode, whole: bool, n: nat, p: Phase, ok: bool) -> Phase {
    match p {
        Phase::Restore(i) => {
            if whole {
                if !ok {
                    Phase::Failed
                } else if mode == Mode::Recover {
                    Phase::Clean
                } else {
                    Phase::Done
                }
            } else if ok && mode == Mode::Recover {
                Phase::Tidy(i)
            } else {
                after_root(mode, n, i as int)
            }
        },
        Phase::Tidy(i) => after_root(mode, n, i as int),
        Phase::Clean => Phase::Summary,
        _ => Phase::Done,
    }
}

/// The action that phase `p` calls for.
pub open spec fn action_of(p: Phase, whole: bool, roots: Seq<u64>) -> Action {
    match p {
        Phase::Restore(i) => Action::Restore(
            if whole {
                None
            } else {
                Some(roots[i as int])
            },
        ),
        Phase::Tidy(_) => Action::RemoveEmpty,
        Phase::Clean => Action::RemoveEmpty,
        Phase::Summary => Action::Summarize,
        Phase::NoRoots => Action::ReportNoRoots,
        Phase::Failed => Action::Abort,
        Phase::Done => Action::Finish,
    }
}

/// The phases that a run passes through from `p` as the outcomes `events`
/// come in, `p` first.
pub open spec fn run_phases(mode: Mode, whole: bool, n: nat, p: Phase, events: Seq<bool>) -> Seq<
    Phase,
>
    decreases events.len(),
{
    if events.len() == 0 {
        seq![p]
    } else {
        seq![p] + run_phases(mode, whole, n, next_phase(mode, whole, n, p, events[0]), events.drop_first())
    }
}

/// One recovery run: the restores over the candidate roots, newest first,
/// and the cleaning and reporting around them.
pub struct Recovery {
    pub mode: Mode,
    /// The run restores from the current tree alone.
    pub whole: bool,
    /// The candidate roots, newest first; empty for a run on the current tree.
    pub roots: Vec<u64>,
    pub phase: Phase,
    /// The roots whose restore failed, in the order they were tried.
    pub failed: Vec<u64>,
}

impl Recovery {
    pub open spec fn wf(&self) -> bool {
        match self.phase {
            Phase::Restore(i) => if self.whole {
                i == 0 && self.roots@.len() == 0
            } else {
                i < self.roots@.len()
            },
            Phase::Tidy(i) => !self.whole && i < self.roots@.len(),
            _ => true,
        }
    }

    /// Starts a run at the given depth: depth 0 restores from the current
    /// tree once; a greater depth restores from each of `roots` in turn.
    pub fn new(mode: Mode, depth: u8, roots: Vec<u64>) -> (r: Recovery)
        ensures
            r.wf(),
            r.mode == mode,
            r.whole == (depth == 0),
            r.roots@ == (if depth == 0 {
                Seq::<u64>::empty()
            } else {
                roots@
            }),
            r.phase == start_phase(r.whole, r.roots@.len()),
            r.failed@.len() == 0,
    {
        let whole = depth == 0;
        let roots = if whole {
            Vec::new()
        } else {
            roots
        };
        let phase = if !whole && roots.len() == 0 {
            Phase::NoRoots
        } else {
            Phase::Restore(0)
        };
        Recovery { mode, whole, roots, phase, failed: Vec::new() }
    }

    /// The action that the current phase calls for.
    pub fn action(&self) -> (a: Action)
        requires
            self.wf(),
        ensures
            a == action_of(self.phase, self.whole, self.roots@),
    {
        match self.phase {
            Phase::Restore(i) => if self.whole {
                Action::Restore(None)
            } else {
                Action::Restore(Some(self.roots[i]))
            },
            Phase::Tidy(_) => Action::RemoveEmpty,
            Phase::Clean => Action::RemoveEmpty,
            Phase::Summary => Action::Summarize,
            Phase::NoRoots => Action::ReportNoRoots,
            Phase::Failed => Action::Abort,
            Phase::Done => Action::Finish,
        }
    }

    /// Moves on once the current action is done; `ok` tells whether a
    /// restore succeeded. A failed restore from a root is recorded and the
    /// run goes on with the next root.
    pub fn advance(&mut self, ok: bool)
        requires
            old(self).wf(),
        ensures
            final(self).wf(),
            final(self).mode == old(self).mode,
            final(self).whole == old(self).whole,
            final(self).roots@ == old(self).roots@,
            final(self).phase == next_phase(
                old(self).mode,
                old(self).whole,
                old(self).roots@.len(),
                old(self).phase,
                ok,
            ),
            final(self).failed@ == (match old(self).phase {
                Phase::Restore(i) => if !old(self).whole && !ok {
                    old(self).failed@.push(old(self).roots@[i as int])
                } else {
                    old(self).failed@
                },
                _ => old(self).failed@,
            }),
    {
        let n = self.roots.len();
        let mode = self.mode;
        let recover = match mode {
            Mode::Recover => true,
            _ => false,
        };
        let next = match self.phase {
            Phase::Restore(i) => {
                if self.whole {
                    if !ok {
                        Phase::Failed
                    } else if recover {
                        Phase::Clean
                    } else {
                        Phase::Done
                    }
                } else {
                    if !ok {
                        let r = self.roots[i];
                        self.failed.push(r);
                    }
                    if ok && recover {
                        Phase::Tidy(i)
                    } else {
                        Self::after(mode, n, i)
                    }
                }
            },
            Phase::Tidy(i) => Self::after(mode, n, i),
            Phase::Clean => Phase::Summary,
            _ => Phase::Done,
        };
        self.phase = next;
    }

    /// The phase after the root at position `i` has been dealt with.
    fn after(mode: Mode, n: usize, i: usize) -> (p: Phase)
        requires
            i < n,
        ensures
            p == after_root(mode, n as nat, i as int),
            p matches Phase::Restore(j) ==> j < n,
    {
        if i + 1 < n {
            Phase::Restore(i + 1)
        } else {
            match mode {
                Mode::Recover => Phase::Clean,
                _ => Phase::Done,
            }
        }
    }
}

/// A failed restore from one root does not end a run over several roots:
/// the run moves on exactly as after a success, less the tidying, and never
/// fails as a whole.
pub proof fn lemma_failure_moves_on(mode: Mode, n: nat, i: usize)
    requires
        i < n,
    ensures
        next_phase(mode, false, n, Phase::Restore(i), false) == after_root(mode, n, i as int),
        next_phase(mode, false, n, Phase::Restore(i), false) != Phase::Failed,
        i + 1 < n ==> next_phase(mode, false, n, Phase::Restore(i), false) == Phase::Restore(
            (i + 1) as usize,
        ),
{
}

/// A run over roots never reaches the failed phase, whatever the outcomes of
/// its restores.
pub proof fn lemma_roots_run_never_fails(mode: Mode, n: nat, p: Phase, events: Seq<bool>)
    requires
        p != Phase::Failed,
    ensures
        forall|k: int|
            0 <= k < run_phases(mode, false, n, p, events).len() ==> #[trigger] run_phases(
                mode,
                false,
                n,
                p,
                events,
            )[k] != Phase::Failed,
    decreases events.len(),
{
    if events.len() > 0 {
        let q = next_phase(mode, false, n, p, events[0]);
        lemma_roots_run_never_fails(mode, n, q, events.drop_first());
        let rest = run_phases(mode, false, n, q, events.drop_first());
        assert forall|k: int|
            0 <= k < run_phases(mode, false, n, p, events).len() implies #[trigger] run_phases(
            mode,
            false,
            n,
            p,
            events,
        )[k] != Phase::Failed by {
            if k > 0 {
                assert(run_phases(mode, false, n, p, events)[k] == rest[k - 1]);
            }
        }
    }
}

/// The root at position `j` is tried somewhere along the run.
pub open spec fn tries(run: Seq<Phase>, j: int) -> bool {
    exists|k: int| 0 <= k < run.len() && run[k] == Phase::Restore(j as usize)
}

proof fn lemma_tried_from(mode: Mode, n: nat, i: usize, events: Seq<bool>)
    requires
        i < n <= usize::MAX,
        events.len() >= 2 * (n - i),
    ensures
        forall|j: int|
            i <= j < n ==> #[trigger] tries(run_phases(mode, false, n, Phase::Restore(i), events), j),
    decreases n - i,
{
    let run = run_phases(mode, false, n, Phase::Restore(i), events);
    assert(run[0] == Phase::Restore(i));
    assert(tries(run, i as int));
    if i + 1 < n {
        let q = next_phase(mode, false, n, Phase::Restore(i), events[0]);
        let e1 = events.drop_first();
        let r1 = run_phases(mode, false, n, q, e1);
        assert(run == seq![Phase::Restore(i)] + r1);
        if q == Phase::Tidy(i) {
            let e2 = e1.drop_first();
            let r2 = run_phases(mode, false, n, Phase::Restore((i + 1) as usize), e2);
            assert(r1 == seq![Phase::Tidy(i)] + r2);
            lemma_tried_from(mode, n, (i + 1) as usize, e2);
            assert forall|j: int| i <= j < n implies #[trigger] tries(run, j) by {
                if j > i {
                    assert(tries(r2, j));
                    let k = choose|k: int| 0 <= k < r2.len() && r2[k] == Phase::Restore(j as usize);
                    assert(run[k + 2] == r2[k]);
                }
            }
        } else {
            assert(q == Phase::Restore((i + 1) as usize));
            lemma_tried_from(mode, n, (i + 1) as usize, e1);
            assert forall|j: int| i <= j < n implies #[trigger] tries(run, j) by {
                if j > i {
                    assert(tries(r1, j));
                    let k = choose|k: int| 0 <= k < r1.len() && r1[k] == Phase::Restore(j as usize);
                    assert(run[k + 1] == r1[k]);
                }
            }
        }
    }
}

/// Whatever the outcomes of the restores, a run over `n` roots that is told
/// of enough outcomes tries every root, and never fails as a whole.
pub proof fn lemma_every_root_tried(mode: Mode, n: nat, events: Seq<bool>)
    requires
        0 < n <= usize::MAX,
        events.len() >= 2 * n,
    ensures
        forall|j: int| 0 <= j < n ==> #[trigger] tries(run_phases(mode, false, n, start_phase(false, n), events), j),
        forall|k: int|
            0 <= k < run_phases(mode, false, n, start_phase(false, n), events).len()
                ==> #[trigger] run_phases(mode, false, n, start_phase(false, n), events)[k]
                != Phase::Failed,
{
    lemma_tried_from(mode, n, 0, events);
    lemma_roots_run_never_fails(mode, n, start_phase(false, n), events);
}

} // verus!
