//! Execution sandbox: the invocation-scoped bridge a running script talks
//! to, and the reduction of one invocation to a typed result.
//!
//! The host creates one [`Bridge`] per invocation, bound to that
//! invocation's selection and per-script configuration, hands it to the
//! interpreter, and afterwards folds the bridge together with how the run
//! terminated into exactly one [`ExecutionResult`]:
//!
//! - a run cut off by the deadline is `Cancelled`;
//! - otherwise a raised error, or the first error the script posted, is
//!   `Error` with that message;
//! - otherwise, if the script replaced the full text or any selection, the
//!   result is `Transformed` holding the new full text (selection
//!   replacements spliced into their ranges);
//! - otherwise the run is `NoOp`.
//!
//! A script can affect the host only through the bridge; everything it did
//! is confined to the returned result.

use vstd::prelude::*;

verus! {

/// The text one execution may read: the full buffer and zero or more
/// discrete selections, given as byte ranges of the buffer.
pub struct SelectionContext {
    pub full_text: Vec<u8>,
    /// `(start, end)` byte ranges, ascending and non-overlapping.
    pub selections: Vec<(usize, usize)>,
}

impl SelectionContext {
    pub open spec fn wf(self) -> bool {
        &&& forall|i: int|
            0 <= i < self.selections@.len() ==> (#[trigger] self.selections@[i]).0
                <= self.selections@[i].1 <= self.full_text@.len()
        &&& forall|i: int|
            0 < i < self.selections@.len() ==> (#[trigger] self.selections@[i]).0
                >= self.selections@[i - 1].1
    }
}

/// How the interpreter reported the end of the run to the host.
pub enum Termination {
    /// The entry point returned (or signalled completion) normally.
    Completed,
    /// The script raised an uncaught error with this message.
    Raised(Vec<u8>),
    /// The run was interrupted at a checkpoint after the deadline.
    DeadlineExceeded,
}

/// The one outcome of an invocation; no raw failure ever escapes to the
/// caller.
#[derive(Debug)]
pub enum ExecutionResult {
    Transformed(Vec<u8>),
    Error(Vec<u8>),
    Cancelled,
    NoOp,
}

/// Mathematical model of an execution result.
pub enum OutcomeSpec {
    Transformed(Seq<u8>),
    Error(Seq<u8>),
    Cancelled,
    NoOp,
}

impl View for ExecutionResult {
    type V = OutcomeSpec;

    open spec fn view(&self) -> OutcomeSpec {
        match self {
            ExecutionResult::Transformed(t) => OutcomeSpec::Transformed(t@),
            ExecutionResult::Error(m) => OutcomeSpec::Error(m@),
            ExecutionResult::Cancelled => OutcomeSpec::Cancelled,
            ExecutionResult::NoOp => OutcomeSpec::NoOp,
        }
    }
}

/// The full text after splicing each replaced selection into its range;
/// `cur` is how far the original has been copied already.
pub open spec fn spec_splice_from(
    full: Seq<u8>,
    sels: Seq<(usize, usize)>,
    reps: Seq<Option<Vec<u8>>>,
    cur: int,
) -> Seq<u8>
    decreases sels.len(),
{
    if sels.len() == 0 || reps.len() == 0 {
        full.skip(cur)
    } else {
        let a = sels.first().0 as int;
        let b = sels.first().1 as int;
        full.subrange(cur, a) + (match reps.first() {
            Some(t) => t@,
            None => full.subrange(a, b),
        }) + spec_splice_from(full, sels.drop_first(), reps.drop_first(), b)
    }
}

pub open spec fn any_replaced(reps: Seq<Option<Vec<u8>>>) -> bool {
    exists|i: int| 0 <= i < reps.len() && (#[trigger] reps[i]) is Some
}

/// Value under `key` in an association list; the first binding wins.
pub open spec fn spec_lookup(pairs: Seq<(Vec<u8>, Vec<u8>)>, key: Seq<u8>) -> Option<Seq<u8>>
    decreases pairs.len(),
{
    if pairs.len() == 0 {
        None
    } else if pairs.first().0@ == key {
        Some(pairs.first().1@)
    } else {
        spec_lookup(pairs.drop_first(), key)
    }
}

fn bytes_eq(a: &Vec<u8>, b: &Vec<u8>) -> (r: bool)
    ensures
        r == (a@ == b@),
{
    if a.len() != b.len() {
        return false;
    }
    let mut i: usize = 0;
    while i < a.len()
        invariant
            i <= a@.len(),
            a@.len() == b@.len(),
            forall|k: int| 0 <= k < i ==> a@[k] == b@[k],
        decreases a@.len() - i,
    {
        if a[i] != b[i] {
            return false;
        }
        i = i + 1;
    }
    proof {
        assert(a@ =~= b@);
    }
    true
}

/// `out` extended with `s[a .. b]`.
fn append_range(out: &mut Vec<u8>, s: &Vec<u8>, a: usize, b: usize)
    requires
        a <= b <= s@.len(),
    ensures
        final(out)@ == old(out)@ + s@.subrange(a as int, b as int),
{
    let ghost o0 = out@;
    let mut j: usize = a;
    while j < b
        invariant
            a <= j <= b <= s@.len(),
            out@ == o0 + s@.subrange(a as int, j as int),
        decreases b - j,
    {
        out.push(s[j]);
        proof {
            assert(out@ =~= o0 + s@.subrange(a as int, j + 1 as int));
        }
        j = j + 1;
    }
    proof {
        assert(out@ =~= o0 + s@.subrange(a as int, b as int));
    }
}

fn splice(ctx: &SelectionContext, reps: &Vec<Option<Vec<u8>>>) -> (r: Vec<u8>)
    requires
        ctx.wf(),
        reps@.len() == ctx.selections@.len(),
    ensures
        r@ == spec_splice_from(ctx.full_text@, ctx.selections@, reps@, 0),
{
    let ghost full = ctx.full_text@;
    let ghost sels = ctx.selections@;
    let mut out: Vec<u8> = Vec::new();
    let mut cur: usize = 0;
    let mut i: usize = 0;
    proof {
        assert(sels.skip(0) =~= sels);
        assert(reps@.skip(0) =~= reps@);
    }
    while i < ctx.selections.len()
        invariant
            ctx.wf(),
            reps@.len() == ctx.selections@.len(),
            full == ctx.full_text@,
            sels == ctx.selections@,
            i <= sels.len(),
            cur == (if i == 0 {
                0int
            } else {
                sels[i - 1].1 as int
            }),
            cur <= full.len(),
            spec_splice_from(full, sels, reps@, 0) == out@ + spec_splice_from(
                full,
                sels.skip(i as int),
                reps@.skip(i as int),
                cur as int,
            ),
        decreases sels.len() - i,
    {
        let (a, b) = ctx.selections[i];
        proof {
            assert(sels.skip(i as int).first() == sels[i as int]);
            assert(sels.skip(i as int).drop_first() =~= sels.skip(i as int + 1));
            assert(reps@.skip(i as int).drop_first() =~= reps@.skip(i as int + 1));
            assert(reps@.skip(i as int).first() == reps@[i as int]);
            if i > 0 {
                assert(sels[i as int].0 >= sels[i as int - 1].1);
            }
        }
        append_range(&mut out, &ctx.full_text, cur, a);
        match &reps[i] {
            Some(t) => {
                append_range(&mut out, t, 0, t.len());
                proof {
                    assert(t@.subrange(0, t@.len() as int) =~= t@);
                }
            },
            None => {
                append_range(&mut out, &ctx.full_text, a, b);
            },
        }
        proof {
            assert(spec_splice_from(full, sels, reps@, 0) == out@ + spec_splice_from(
                full,
                sels.skip(i as int + 1),
                reps@.skip(i as int + 1),
                b as int,
            ));
        }
        cur = b;
        i = i + 1;
    }
    proof {
        assert(sels.skip(i as int).len() == 0);
    }
    append_range(&mut out, &ctx.full_text, cur, ctx.full_text.len());
    proof {
        assert(out@ =~= spec_splice_from(full, sels, reps@, 0));
    }
    out
}

/// The narrow, invocation-scoped surface a running script may call.
/// Constructed fresh for every invocation and discarded afterwards; no
/// state leaks between calls.
pub struct Bridge {
    /// The invocation's input, read-only.
    pub selection: SelectionContext,
    /// Persisted per-script configuration values, read-only.
    pub config: Vec<(Vec<u8>, Vec<u8>)>,
    /// Replacement for the full text, if the script set one (last wins).
    pub new_full: Option<Vec<u8>>,
    /// Per-selection replacement, if the script set one (last wins).
    pub new_selections: Vec<Option<Vec<u8>>>,
    /// First error the script posted.
    pub error: Option<Vec<u8>>,
    /// Informational messages, in posting order.
    pub infos: Vec<Vec<u8>>,
    /// Whether the script signalled asynchronous completion.
    pub done: bool,
}

impl Bridge {
    pub open spec fn wf(self) -> bool {
        &&& self.selection.wf()
        &&& self.new_selections@.len() == self.selection.selections@.len()
    }

    /// No output, no error, no completion signal recorded yet.
    pub open spec fn fresh(self) -> bool {
        &&& self.new_full is None
        &&& forall|i: int| 0 <= i < self.new_selections@.len() ==> (#[trigger] self.new_selections@[i]) is None
        &&& self.error is None
        &&& self.infos@.len() == 0
        &&& !self.done
    }

    /// A fresh bridge bound to this invocation's selection and
    /// configuration.
    pub fn new(selection: SelectionContext, config: Vec<(Vec<u8>, Vec<u8>)>) -> (r: Bridge)
        requires
            selection.wf(),
        ensures
            r.wf(),
            r.fresh(),
            r.selection == selection,
            r.config == config,
    {
        let n = selection.selections.len();
        let mut reps: Vec<Option<Vec<u8>>> = Vec::new();
        let mut i: usize = 0;
        while i < n
            invariant
                reps@.len() == i <= n,
                forall|k: int| 0 <= k < i ==> (#[trigger] reps@[k]) is None,
            decreases n - i,
        {
            reps.push(None);
            i = i + 1;
        }
        Bridge {
            selection,
            config,
            new_full: None,
            new_selections: reps,
            error: None,
            infos: Vec::new(),
            done: false,
        }
    }

    /// Read access to the full text.
    pub fn full_text(&self) -> (r: &Vec<u8>)
        ensures
            r@ == self.selection.full_text@,
    {
        &self.selection.full_text
    }

    pub fn selection_count(&self) -> (r: usize)
        ensures
            r == self.selection.selections@.len(),
    {
        self.selection.selections.len()
    }

    /// Read access to one selection segment of the original text.
    pub fn selection_text(&self, i: usize) -> (r: Option<Vec<u8>>)
        requires
            self.wf(),
        ensures
            i < self.selection.selections@.len() ==> r is Some && r->Some_0@
                == self.selection.full_text@.subrange(
                self.selection.selections@[i as int].0 as int,
                self.selection.selections@[i as int].1 as int,
            ),
            i >= self.selection.selections@.len() ==> r is None,
    {
        if i >= self.selection.selections.len() {
            return None;
        }
        let (a, b) = self.selection.selections[i];
        let mut seg: Vec<u8> = Vec::new();
        append_range(&mut seg, &self.selection.full_text, a, b);
        Some(seg)
    }

    /// The script replaces the full text; a later call overrides an
    /// earlier one.
    pub fn replace_full(&mut self, text: Vec<u8>)
        ensures
            final(self).new_full == Some(text),
            final(self).selection == old(self).selection,
            final(self).config == old(self).config,
            final(self).new_selections == old(self).new_selections,
            final(self).error == old(self).error,
            final(self).infos == old(self).infos,
            final(self).done == old(self).done,
    {
        self.new_full = Some(text);
    }

    /// The script replaces (or inserts at) selection `i`; a later call for
    /// the same selection overrides an earlier one. Returns false, changing
    /// nothing, when no such selection exists.
    pub fn replace_selection(&mut self, i: usize, text: Vec<u8>) -> (ok: bool)
        requires
            old(self).wf(),
        ensures
            final(self).wf(),
            i < old(self).new_selections@.len() ==> ok && final(self).new_selections@ == old(
                self,
            ).new_selections@.update(i as int, Some(text)),
            i >= old(self).new_selections@.len() ==> !ok && final(self).new_selections@ == old(
                self,
            ).new_selections@,
            final(self).selection == old(self).selection,
            final(self).config == old(self).config,
            final(self).new_full == old(self).new_full,
            final(self).error == old(self).error,
            final(self).infos == old(self).infos,
            final(self).done == old(self).done,
    {
        if i >= self.new_selections.len() {
            return false;
        }
        let ghost r0 = self.new_selections@;
        self.new_selections.remove(i);
        self.new_selections.insert(i, Some(text));
        proof {
            r0.remove_ensures(i as int);
            r0.remove(i as int).insert_ensures(i as int, self.new_selections@[i as int]);
            assert(self.new_selections@ =~= r0.update(i as int, self.new_selections@[i as int]));
        }
        true
    }

    /// The script reports an error; the first message is kept.
    pub fn post_error(&mut self, msg: Vec<u8>)
        ensures
            final(self).error == (if old(self).error is None {
                Some(msg)
            } else {
                old(self).error
            }),
            final(self).selection == old(self).selection,
            final(self).config == old(self).config,
            final(self).new_full == old(self).new_full,
            final(self).new_selections == old(self).new_selections,
            final(self).infos == old(self).infos,
            final(self).done == old(self).done,
    {
        if self.error.is_none() {
            self.error = Some(msg);
        }
    }

    /// The script reports an informational message.
    pub fn post_info(&mut self, msg: Vec<u8>)
        ensures
            final(self).infos@ == old(self).infos@.push(msg),
            final(self).selection == old(self).selection,
            final(self).config == old(self).config,
            final(self).new_full == old(self).new_full,
            final(self).new_selections == old(self).new_selections,
            final(self).error == old(self).error,
            final(self).done == old(self).done,
    {
        self.infos.push(msg);
    }

    /// Read access to one persisted per-script configuration value.
    pub fn config_value(&self, key: &Vec<u8>) -> (r: Option<&Vec<u8>>)
        ensures
            match spec_lookup(self.config@, key@) {
                Some(v) => r is Some && r->Some_0@ == v,
                None => r is None,
            },
    {
        let ghost pairs = self.config@;
        let mut i: usize = 0;
        proof {
            assert(pairs.skip(0) =~= pairs);
        }
        while i < self.config.len()
            invariant
                i <= pairs.len(),
                pairs == self.config@,
                spec_lookup(pairs, key@) == spec_lookup(pairs.skip(i as int), key@),
            decreases pairs.len() - i,
        {
            proof {
                assert(pairs.skip(i as int).first() == pairs[i as int]);
                assert(pairs.skip(i as int).drop_first() =~= pairs.skip(i as int + 1));
            }
            if bytes_eq(&self.config[i].0, key) {
                return Some(&self.config[i].1);
            }
            i = i + 1;
        }
        None
    }

    /// The script signals that its asynchronous work is complete.
    pub fn signal_done(&mut self)
        ensures
            final(self).done,
            final(self).selection == old(self).selection,
            final(self).config == old(self).config,
            final(self).new_full == old(self).new_full,
            final(self).new_selections == old(self).new_selections,
            final(self).error == old(self).error,
            final(self).infos == old(self).infos,
    {
        self.done = true;
    }

    pub fn is_done(&self) -> (r: bool)
        ensures
            r == self.done,
    {
        self.done
    }
}

/// The one outcome of an invocation, as a function of the bridge the
/// script talked to and of how the run terminated.
pub open spec fn spec_outcome(b: Bridge, t: Termination) -> OutcomeSpec {
    match t {
        Termination::DeadlineExceeded => OutcomeSpec::Cancelled,
        Termination::Raised(m) => OutcomeSpec::Error(m@),
        Termination::Completed => match b.error {
            Some(m) => OutcomeSpec::Error(m@),
            None => match b.new_full {
                Some(t2) => OutcomeSpec::Transformed(t2@),
                None => if any_replaced(b.new_selections@) {
                    OutcomeSpec::Transformed(
                        spec_splice_from(
                            b.selection.full_text@,
                            b.selection.selections@,
                            b.new_selections@,
                            0,
                        ),
                    )
                } else {
                    OutcomeSpec::NoOp
                },
            },
        },
    }
}

fn has_any_replacement(reps: &Vec<Option<Vec<u8>>>) -> (r: bool)
    ensures
        r == any_replaced(reps@),
{
    let mut i: usize = 0;
    while i < reps.len()
        invariant
            i <= reps@.len(),
            forall|k: int| 0 <= k < i ==> (#[trigger] reps@[k]) is None,
        decreases reps@.len() - i,
    {
        if reps[i].is_some() {
            return true;
        }
        i = i + 1;
    }
    false
}

impl Bridge {
    /// Folds the finished invocation into its single result.
    pub fn into_result(self, t: Termination) -> (r: ExecutionResult)
        requires
            self.wf(),
        ensures
            r@ == spec_outcome(self, t),
    {
        match t {
            Termination::DeadlineExceeded => ExecutionResult::Cancelled,
            Termination::Raised(m) => ExecutionResult::Error(m),
            Termination::Completed => {
                match self.error {
                    Some(m) => ExecutionResult::Error(m),
                    None => {
                        match self.new_full {
                            Some(t2) => ExecutionResult::Transformed(t2),
                            None => {
                                if has_any_replacement(&self.new_selections) {
                                    ExecutionResult::Transformed(
                                        splice(&self.selection, &self.new_selections),
                                    )
                                } else {
                                    ExecutionResult::NoOp
                                }
                            },
                        }
                    },
                }
            },
        }
    }
}

/// The wall-clock budget of one invocation. The host's interrupt
/// checkpoints ask it whether the run must be cut off; cancellation is
/// cooperative, so the script is only ever stopped at such a checkpoint.
pub struct Deadline {
    pub start_ms: u64,
    pub budget_ms: u64,
}

impl Deadline {
    pub open spec fn spec_expired(self, now_ms: u64) -> bool {
        now_ms >= self.start_ms && now_ms - self.start_ms >= self.budget_ms
    }

    pub fn new(start_ms: u64, budget_ms: u64) -> (r: Deadline)
        ensures
            r.start_ms == start_ms,
            r.budget_ms == budget_ms,
    {
        Deadline { start_ms, budget_ms }
    }

    /// Whether a checkpoint at `now_ms` must interrupt the run. A clock
    /// reading before the start never interrupts; once the budget has
    /// passed, every later checkpoint interrupts.
    pub fn expired(&self, now_ms: u64) -> (r: bool)
        ensures
            r == self.spec_expired(now_ms),
    {
        now_ms >= self.start_ms && now_ms - self.start_ms >= self.budget_ms
    }
}

/// Law: a checkpoint decision is monotone in the clock: once a checkpoint
/// interrupts, every checkpoint at or after it interrupts too, so a
/// runaway script is cut off at its next safe checkpoint and the caller is
/// never kept waiting past one checkpoint interval beyond the budget.
pub proof fn lemma_deadline_monotone(d: Deadline, now1: u64, now2: u64)
    requires
        d.spec_expired(now1),
        now1 <= now2,
    ensures
        d.spec_expired(now2),
{
}

/// Law: a run the host terminates for exceeding its deadline is reported
/// as `Cancelled`, whatever the bridge holds.
pub proof fn lemma_deadline_yields_cancelled(b: Bridge)
    ensures
        spec_outcome(b, Termination::DeadlineExceeded) == OutcomeSpec::Cancelled,
{
}

/// Law: an uncaught script error is reported as `Error` with exactly the
/// raised message, whatever the bridge holds; the failure is contained in
/// the result.
pub proof fn lemma_raised_yields_error(b: Bridge, msg: Vec<u8>)
    ensures
        spec_outcome(b, Termination::Raised(msg)) == OutcomeSpec::Error(msg@),
{
}

/// Law: a completed run that called no output operation and posted no
/// error is a `NoOp`.
pub proof fn lemma_silent_run_is_noop(b: Bridge)
    requires
        b.fresh(),
    ensures
        spec_outcome(b, Termination::Completed) == OutcomeSpec::NoOp,
{
}

} // verus!
