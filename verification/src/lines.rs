//! Lines with priorities and lifecycle statuses, and the pruning engine.

use vstd::prelude::*;

verus! {

/// Lifecycle of a line during one pruning session. A status only moves
/// forward (see [`status_rank`]); in particular it never returns to `Kept`.
#[derive(Clone, Copy, Debug, PartialEq, Eq, Structural)]
pub enum LineStatus {
    /// Still considered important; shown verbatim.
    Kept,
    /// Demoted: first line of a run of dropped lines; still shown verbatim.
    Discardable,
    /// Dropped: not shown at all.
    Discarded,
    /// Stands in for a whole run of discarded lines; shown as the omission token.
    Marker,
}

/// How far along the lifecycle a status is. Every mutation the engine makes
/// increases this rank; `Kept` is the start and `Discarded` the end.
pub open spec fn status_rank(st: LineStatus) -> int {
    match st {
        LineStatus::Kept => 0,
        LineStatus::Discardable => 1,
        LineStatus::Marker => 2,
        LineStatus::Discarded => 3,
    }
}

/// A visible line appears in the rendered output: everything but `Discarded`.
pub open spec fn is_visible(st: LineStatus) -> bool {
    st != LineStatus::Discarded
}

/// One row of display text with its priority key and lifecycle status.
#[derive(Clone, Debug)]
pub struct Line {
    /// Compared lexicographically, leftmost component most significant;
    /// lower means more important. Strategies append one component each.
    pub prio: Vec<u32>,
    pub status: LineStatus,
    /// Display text, truncated to the column width at construction.
    pub text: String,
}

/// The first `width` characters of `s` (all of it if it is shorter).
pub open spec fn truncated(s: Seq<char>, width: int) -> Seq<char> {
    if s.len() <= width {
        s
    } else {
        s.subrange(0, width)
    }
}

impl Line {
    /// A fresh line: text cut to `width` characters, empty priority, `Kept`.
    pub fn new(s: &str, width: usize) -> (line: Line)
        ensures
            line.prio@ == Seq::<u32>::empty(),
            line.status == LineStatus::Kept,
            line.text@ == truncated(s@, width as int),
    {
        let n = s.unicode_len();
        let end = if width < n {
            width
        } else {
            n
        };
        let cut = s.substring_char(0, end);
        Line { prio: Vec::new(), status: LineStatus::Kept, text: cut.to_owned() }
    }
}

/// Decides whether two priority keys hold the same components.
fn vec_u32_eq(a: &Vec<u32>, b: &Vec<u32>) -> (r: bool)
    ensures
        r == (a@ == b@),
{
    if a.len() != b.len() {
        return false;
    }
    let mut i: usize = 0;
    while i < a.len()
        invariant
            i <= a@.len(),
            a@.len() == b@.len(),
            forall|j: int| 0 <= j < i ==> a@[j] == b@[j],
        decreases a@.len() - i,
    {
        if a[i] != b[i] {
            return false;
        }
        i = i + 1;
    }
    proof {
        assert(a@ =~= b@);
    }
    true
}

/// Equality of lines goes by the priority key alone: two lines with the same
/// key rank the same to the engine, whatever their text or status.
impl PartialEq for Line {
    fn eq(&self, other: &Self) -> (r: bool) {
        vec_u32_eq(&self.prio, &other.prio)
    }
}

impl vstd::std_specs::cmp::PartialEqSpecImpl for Line {
    open spec fn obeys_eq_spec() -> bool {
        true
    }

    open spec fn eq_spec(&self, other: &Line) -> bool {
        self.prio@ == other.prio@
    }
}

impl Line {
    /// Whether this line's priority key orders strictly before `other`'s,
    /// that is, whether this line is strictly more important; see [`lex_lt`].
    pub fn prio_lt(&self, other: &Line) -> (r: bool)
        ensures
            r == lex_lt(self.prio@, other.prio@),
    {
        lex_lt_exec(&self.prio, &other.prio)
    }
}

/// The statuses of a sequence of lines, in order.
pub open spec fn statuses_of(s: Seq<Line>) -> Seq<LineStatus> {
    Seq::new(s.len(), |i: int| s[i].status)
}

/// The priority keys of a sequence of lines, in order.
pub open spec fn prios_of(s: Seq<Line>) -> Seq<Seq<u32>> {
    Seq::new(s.len(), |i: int| s[i].prio@)
}

/// The display texts of a sequence of lines, in order.
pub open spec fn texts_of(s: Seq<Line>) -> Seq<Seq<char>> {
    Seq::new(s.len(), |i: int| s[i].text@)
}

/// How many of these statuses are visible (`Kept`, `Discardable` or `Marker`).
pub open spec fn visible_count(sts: Seq<LineStatus>) -> nat
    decreases sts.len(),
{
    if sts.len() == 0 {
        0
    } else {
        visible_count(sts.drop_last()) + if is_visible(sts.last()) {
            1nat
        } else {
            0nat
        }
    }
}

/// How many of these statuses are `Kept`.
pub open spec fn kept_count(sts: Seq<LineStatus>) -> nat
    decreases sts.len(),
{
    if sts.len() == 0 {
        0
    } else {
        kept_count(sts.drop_last()) + if sts.last() == LineStatus::Kept {
            1nat
        } else {
            0nat
        }
    }
}

proof fn lemma_visible_count_take_step(sts: Seq<LineStatus>, i: int)
    requires
        0 <= i < sts.len(),
    ensures
        visible_count(sts.take(i + 1)) == visible_count(sts.take(i)) + if is_visible(sts[i]) {
            1nat
        } else {
            0nat
        },
{
    assert(sts.take(i + 1).drop_last() =~= sts.take(i));
    assert(sts.take(i + 1).last() == sts[i]);
}

/// Strict lexicographic order on priority keys, leftmost component most
/// significant; a proper prefix orders before every extension of it. This is
/// the order in which lines rank: the greatest key is the least important.
pub open spec fn lex_lt(a: Seq<u32>, b: Seq<u32>) -> bool
    decreases a.len(),
{
    if b.len() == 0 {
        false
    } else if a.len() == 0 {
        true
    } else if a[0] != b[0] {
        a[0] < b[0]
    } else {
        lex_lt(a.drop_first(), b.drop_first())
    }
}

proof fn lemma_lex_lt_skip_step(a: Seq<u32>, b: Seq<u32>, i: int)
    requires
        0 <= i < a.len(),
        i < b.len(),
        a[i] == b[i],
    ensures
        lex_lt(a.skip(i), b.skip(i)) == lex_lt(a.skip(i + 1), b.skip(i + 1)),
{
    assert(a.skip(i).drop_first() =~= a.skip(i + 1));
    assert(b.skip(i).drop_first() =~= b.skip(i + 1));
    assert(a.skip(i)[0] == a[i]);
    assert(b.skip(i)[0] == b[i]);
}

/// Decides [`lex_lt`] on two priority keys.
fn lex_lt_exec(a: &Vec<u32>, b: &Vec<u32>) -> (r: bool)
    ensures
        r == lex_lt(a@, b@),
{
    proof {
        assert(a@.skip(0) =~= a@);
        assert(b@.skip(0) =~= b@);
    }
    let n = if a.len() < b.len() {
        a.len()
    } else {
        b.len()
    };
    let mut i: usize = 0;
    while i < n
        invariant
            i <= n,
            n <= a@.len(),
            n <= b@.len(),
            n == a@.len() || n == b@.len(),
            lex_lt(a@, b@) == lex_lt(a@.skip(i as int), b@.skip(i as int)),
        decreases n - i,
    {
        proof {
            assert(a@.skip(i as int)[0] == a@[i as int]);
            assert(b@.skip(i as int)[0] == b@[i as int]);
        }
        if a[i] < b[i] {
            return true;
        }
        if a[i] > b[i] {
            return false;
        }
        proof {
            lemma_lex_lt_skip_step(a@, b@, i as int);
        }
        i = i + 1;
    }
    proof {
        if a@.len() < b@.len() {
            assert(b@.skip(i as int).len() > 0);
            assert(a@.skip(i as int).len() == 0);
        } else {
            assert(b@.skip(i as int).len() == 0);
        }
    }
    a.len() < b.len()
}

/// The index of the first `Kept` line with the lexicographically greatest
/// priority among the first `i` lines, or `-1` if none of them is `Kept`.
/// The greatest key marks the least important line; on equal keys the
/// earliest line wins.
pub open spec fn best_kept_upto(prios: Seq<Seq<u32>>, sts: Seq<LineStatus>, i: int) -> int
    decreases i,
{
    if i <= 0 {
        -1
    } else {
        let b = best_kept_upto(prios, sts, i - 1);
        if sts[i - 1] != LineStatus::Kept {
            b
        } else if b == -1 || lex_lt(prios[b], prios[i - 1]) {
            i - 1
        } else {
            b
        }
    }
}

/// The line the next demotion picks: see [`best_kept_upto`], over all lines.
pub open spec fn best_kept(prios: Seq<Seq<u32>>, sts: Seq<LineStatus>) -> int {
    best_kept_upto(prios, sts, sts.len() as int)
}

proof fn lemma_best_kept_upto_props(prios: Seq<Seq<u32>>, sts: Seq<LineStatus>, i: int)
    requires
        0 <= i <= sts.len(),
    ensures
        best_kept_upto(prios, sts, i) == -1 <==> (forall|j: int|
            0 <= j < i ==> sts[j] != LineStatus::Kept),
        best_kept_upto(prios, sts, i) != -1 ==> {
            let b = best_kept_upto(prios, sts, i);
            0 <= b < i && sts[b] == LineStatus::Kept
        },
    decreases i,
{
    if i > 0 {
        lemma_best_kept_upto_props(prios, sts, i - 1);
    }
}

/// One collapse pass: a non-`Kept` line that immediately follows another
/// non-`Kept` line becomes `Discarded`, so of each maximal non-`Kept` run
/// only the first line stays visible.
pub open spec fn collapse(sts: Seq<LineStatus>) -> Seq<LineStatus> {
    Seq::new(
        sts.len(),
        |i: int|
            if sts[i] != LineStatus::Kept && i > 0 && sts[i - 1] != LineStatus::Kept {
                LineStatus::Discarded
            } else {
                sts[i]
            },
    )
}

/// One marking pass: a `Discardable` line immediately followed by a
/// `Discarded` line becomes the `Marker` of its run.
pub open spec fn mark(sts: Seq<LineStatus>) -> Seq<LineStatus> {
    Seq::new(
        sts.len(),
        |i: int|
            if sts[i] == LineStatus::Discardable && i + 1 < sts.len() && sts[i + 1]
                == LineStatus::Discarded {
                LineStatus::Marker
            } else {
                sts[i]
            },
    )
}

/// One full pruning iteration: demote the least important `Kept` line, then
/// collapse runs, then mark run boundaries. Meaningful only when some line
/// is still `Kept`.
pub open spec fn prune_step(sts: Seq<LineStatus>, prios: Seq<Seq<u32>>) -> Seq<LineStatus> {
    mark(collapse(sts.update(best_kept(prios, sts), LineStatus::Discardable)))
}

proof fn lemma_kept_count_zero(sts: Seq<LineStatus>)
    ensures
        kept_count(sts) == 0 <==> (forall|j: int| 0 <= j < sts.len() ==> sts[j] != LineStatus::Kept),
    decreases sts.len(),
{
    if sts.len() > 0 {
        lemma_kept_count_zero(sts.drop_last());
        assert(forall|j: int| 0 <= j < sts.len() - 1 ==> sts.drop_last()[j] == sts[j]);
    }
}

proof fn lemma_kept_count_demote(sts: Seq<LineStatus>, i: int)
    requires
        0 <= i < sts.len(),
        sts[i] == LineStatus::Kept,
    ensures
        kept_count(sts.update(i, LineStatus::Discardable)) == kept_count(sts) - 1,
    decreases sts.len(),
{
    let upd = sts.update(i, LineStatus::Discardable);
    if i == sts.len() - 1 {
        assert(upd.drop_last() =~= sts.drop_last());
    } else {
        assert(upd.drop_last() =~= sts.drop_last().update(i, LineStatus::Discardable));
        lemma_kept_count_demote(sts.drop_last(), i);
    }
}

proof fn lemma_kept_count_pointwise(a: Seq<LineStatus>, b: Seq<LineStatus>)
    requires
        a.len() == b.len(),
        forall|j: int| 0 <= j < a.len() ==> ((a[j] == LineStatus::Kept) <==> (b[j]
            == LineStatus::Kept)),
    ensures
        kept_count(a) == kept_count(b),
    decreases a.len(),
{
    if a.len() > 0 {
        lemma_kept_count_pointwise(a.drop_last(), b.drop_last());
    }
}

/// Each pruning iteration demotes exactly one `Kept` line and never makes a
/// new one, so the count of `Kept` lines goes down: pruning terminates.
pub proof fn lemma_prune_step_decreases(sts: Seq<LineStatus>, prios: Seq<Seq<u32>>)
    requires
        kept_count(sts) > 0,
    ensures
        kept_count(prune_step(sts, prios)) < kept_count(sts),
{
    lemma_kept_count_zero(sts);
    lemma_best_kept_upto_props(prios, sts, sts.len() as int);
    let b = best_kept(prios, sts);
    let upd = sts.update(b, LineStatus::Discardable);
    lemma_kept_count_demote(sts, b);
    lemma_kept_count_pointwise(collapse(upd), upd);
    lemma_kept_count_pointwise(mark(collapse(upd)), collapse(upd));
}

/// The whole pruning algorithm as a value transformation: iterate
/// [`prune_step`] until the visible count fits the target (second component
/// `true`) or no `Kept` line is left to demote (second component `false`,
/// the unreachable-target condition).
pub open spec fn spec_prune(sts: Seq<LineStatus>, prios: Seq<Seq<u32>>, target: int) -> (
    Seq<LineStatus>,
    bool,
)
    decreases kept_count(sts),
{
    if visible_count(sts) <= target {
        (sts, true)
    } else if kept_count(sts) == 0 {
        (sts, false)
    } else {
        proof {
            lemma_prune_step_decreases(sts, prios);
        }
        spec_prune(prune_step(sts, prios), prios, target)
    }
}

/// Law: pruning either meets the target or reports it unreachable. Whenever
/// the algorithm claims success, the pruned collection's visible count is
/// within the target; whenever it does not, no `Kept` line was left to
/// demote.
pub proof fn lemma_prune_meets_target_or_reports(
    sts: Seq<LineStatus>,
    prios: Seq<Seq<u32>>,
    target: int,
)
    ensures
        spec_prune(sts, prios, target).1 ==> visible_count(spec_prune(sts, prios, target).0)
            <= target,
        !spec_prune(sts, prios, target).1 ==> kept_count(spec_prune(sts, prios, target).0) == 0,
    decreases kept_count(sts),
{
    if visible_count(sts) <= target {
    } else if kept_count(sts) == 0 {
    } else {
        lemma_prune_step_decreases(sts, prios);
        lemma_prune_meets_target_or_reports(prune_step(sts, prios), prios, target);
    }
}

/// Law: pruning a collection that is already at or below its target changes
/// nothing and claims success; so pruning twice is the same as pruning once.
pub proof fn lemma_prune_idempotent(sts: Seq<LineStatus>, prios: Seq<Seq<u32>>, target: int)
    requires
        visible_count(sts) <= target,
    ensures
        spec_prune(sts, prios, target) == (sts, true),
{
}

/// Pruning stopped although the visible count still exceeds the target:
/// every remaining visible line already bounds a maximal run of discarded
/// lines, so no further reduction is possible.
#[derive(Clone, Copy, Debug, PartialEq, Eq, Structural)]
pub struct TargetUnreachable;

/// The ordered collection of lines together with the visible-line budget.
#[derive(Clone, Debug)]
pub struct Lines {
    /// Input order; never reordered. Only statuses and priorities mutate.
    pub lines: Vec<Line>,
    /// Desired number of visible rows after pruning.
    pub target_lines: usize,
}

impl Lines {
    /// Materializes a collection from raw text rows: each row is cut to
    /// `columns` characters and starts out `Kept` with an empty priority.
    pub fn from_rows(rows: &Vec<String>, columns: usize, target_lines: usize) -> (r: Lines)
        ensures
            r.target_lines == target_lines,
            r.lines@.len() == rows@.len(),
            forall|i: int|
                0 <= i < rows@.len() ==> {
                    &&& (#[trigger] r.lines@[i]).prio@ == Seq::<u32>::empty()
                    &&& r.lines@[i].status == LineStatus::Kept
                    &&& r.lines@[i].text@ == truncated(rows@[i]@, columns as int)
                },
    {
        let mut lines: Vec<Line> = Vec::new();
        let mut i: usize = 0;
        while i < rows.len()
            invariant
                i <= rows@.len(),
                lines@.len() == i,
                forall|j: int|
                    0 <= j < i ==> {
                        &&& (#[trigger] lines@[j]).prio@ == Seq::<u32>::empty()
                        &&& lines@[j].status == LineStatus::Kept
                        &&& lines@[j].text@ == truncated(rows@[j]@, columns as int)
                    },
            decreases rows@.len() - i,
        {
            lines.push(Line::new(rows[i].as_str(), columns));
            i = i + 1;
        }
        Lines { lines, target_lines }
    }

    /// The number of visible lines: `Kept`, `Discardable` and `Marker` rows
    /// all take one row of the display; `Discarded` rows take none.
    pub fn kept_lines(&self) -> (n: usize)
        ensures
            n == visible_count(statuses_of(self.lines@)),
    {
        let ghost sts = statuses_of(self.lines@);
        let mut n: usize = 0;
        let mut i: usize = 0;
        while i < self.lines.len()
            invariant
                i <= self.lines@.len(),
                sts == statuses_of(self.lines@),
                n <= i,
                n == visible_count(sts.take(i as int)),
            decreases self.lines@.len() - i,
        {
            proof {
                lemma_visible_count_take_step(sts, i as int);
            }
            if self.lines[i].status != LineStatus::Discarded {
                n = n + 1;
            }
            i = i + 1;
        }
        proof {
            assert(sts.take(self.lines@.len() as int) =~= sts);
        }
        n
    }

    /// Scans front to back for the least important `Kept` line: the first
    /// one whose priority is lexicographically greatest. `None` when no
    /// line is `Kept` any more.
    fn find_demote_index(&self) -> (r: Option<usize>)
        ensures
            match r {
                Some(j) => j < self.lines@.len() && j == best_kept(
                    prios_of(self.lines@),
                    statuses_of(self.lines@),
                ),
                None => best_kept(prios_of(self.lines@), statuses_of(self.lines@)) == -1,
            },
    {
        let ghost gprios = prios_of(self.lines@);
        let ghost gsts = statuses_of(self.lines@);
        let mut best: Option<usize> = None;
        let mut i: usize = 0;
        while i < self.lines.len()
            invariant
                i <= self.lines@.len(),
                gprios == prios_of(self.lines@),
                gsts == statuses_of(self.lines@),
                match best {
                    Some(b) => b < i && b == best_kept_upto(gprios, gsts, i as int),
                    None => best_kept_upto(gprios, gsts, i as int) == -1,
                },
            decreases self.lines@.len() - i,
        {
            if self.lines[i].status == LineStatus::Kept {
                let better = match best {
                    None => true,
                    Some(b) => lex_lt_exec(&self.lines[b].prio, &self.lines[i].prio),
                };
                if better {
                    best = Some(i);
                }
            }
            i = i + 1;
        }
        best
    }

    /// Replaces the status of line `i`, leaving its text and priority as
    /// they are and every other line untouched.
    fn set_status(&mut self, i: usize, st: LineStatus)
        requires
            i < old(self).lines@.len(),
        ensures
            final(self).target_lines == old(self).target_lines,
            final(self).lines@.len() == old(self).lines@.len(),
            forall|k: int|
                0 <= k < old(self).lines@.len() && k != i ==> final(self).lines@[k] == old(
                    self,
                ).lines@[k],
            final(self).lines@[i as int].status == st,
            final(self).lines@[i as int].prio@ == old(self).lines@[i as int].prio@,
            final(self).lines@[i as int].text@ == old(self).lines@[i as int].text@,
    {
        let mut line = self.lines.remove(i);
        line.status = st;
        self.lines.insert(i, line);
    }

    /// Appends one component to the priority key of line `i`, leaving its
    /// text and status as they are and every other line untouched.
    pub(crate) fn push_prio(&mut self, i: usize, v: u32)
        requires
            i < old(self).lines@.len(),
        ensures
            final(self).target_lines == old(self).target_lines,
            final(self).lines@.len() == old(self).lines@.len(),
            forall|k: int|
                0 <= k < old(self).lines@.len() && k != i ==> final(self).lines@[k] == old(
                    self,
                ).lines@[k],
            final(self).lines@[i as int].status == old(self).lines@[i as int].status,
            final(self).lines@[i as int].text@ == old(self).lines@[i as int].text@,
            final(self).lines@[i as int].prio@ == old(self).lines@[i as int].prio@.push(v),
    {
        let mut line = self.lines.remove(i);
        line.prio.push(v);
        self.lines.insert(i, line);
    }

    /// The forward collapse pass: see [`collapse`].
    fn collapse_runs(&mut self)
        ensures
            final(self).target_lines == old(self).target_lines,
            final(self).lines@.len() == old(self).lines@.len(),
            forall|k: int|
                0 <= k < old(self).lines@.len() ==> (#[trigger] final(self).lines@[k]).prio@ == old(
                    self,
                ).lines@[k].prio@ && final(self).lines@[k].text@ == old(self).lines@[k].text@,
            statuses_of(final(self).lines@) == collapse(statuses_of(old(self).lines@)),
    {
        let ghost osts = statuses_of(old(self).lines@);
        let n = self.lines.len();
        let mut i: usize = 0;
        while i < n
            invariant
                i <= n,
                n == self.lines@.len(),
                osts.len() == n,
                self.target_lines == old(self).target_lines,
                forall|k: int|
                    0 <= k < n ==> (#[trigger] self.lines@[k]).prio@ == old(self).lines@[k].prio@
                        && self.lines@[k].text@ == old(self).lines@[k].text@,
                forall|k: int| 0 <= k < i ==> (#[trigger] self.lines@[k]).status == collapse(osts)[k],
                forall|k: int| i <= k < n ==> (#[trigger] self.lines@[k]).status == osts[k],
            decreases n - i,
        {
            if i > 0 {
                let prev_not_kept = self.lines[i - 1].status != LineStatus::Kept;
                let cur_not_kept = self.lines[i].status != LineStatus::Kept;
                if prev_not_kept && cur_not_kept {
                    self.set_status(i, LineStatus::Discarded);
                }
            }
            i = i + 1;
        }
        proof {
            assert(statuses_of(self.lines@) =~= collapse(osts));
        }
    }

    /// The marking pass: see [`mark`]. A line's new status depends only on
    /// its own and its successor's old status, so one forward pass suffices.
    fn mark_runs(&mut self)
        ensures
            final(self).target_lines == old(self).target_lines,
            final(self).lines@.len() == old(self).lines@.len(),
            forall|k: int|
                0 <= k < old(self).lines@.len() ==> (#[trigger] final(self).lines@[k]).prio@ == old(
                    self,
                ).lines@[k].prio@ && final(self).lines@[k].text@ == old(self).lines@[k].text@,
            statuses_of(final(self).lines@) == mark(statuses_of(old(self).lines@)),
    {
        let ghost osts = statuses_of(old(self).lines@);
        let n = self.lines.len();
        let mut i: usize = 0;
        while i < n
            invariant
                i <= n,
                n == self.lines@.len(),
                osts.len() == n,
                self.target_lines == old(self).target_lines,
                forall|k: int|
                    0 <= k < n ==> (#[trigger] self.lines@[k]).prio@ == old(self).lines@[k].prio@
                        && self.lines@[k].text@ == old(self).lines@[k].text@,
                forall|k: int| 0 <= k < i ==> (#[trigger] self.lines@[k]).status == mark(osts)[k],
                forall|k: int| i <= k < n ==> (#[trigger] self.lines@[k]).status == osts[k],
            decreases n - i,
        {
            if self.lines[i].status == LineStatus::Discardable && i + 1 < n {
                if self.lines[i + 1].status == LineStatus::Discarded {
                    self.set_status(i, LineStatus::Marker);
                }
            }
            i = i + 1;
        }
        proof {
            assert(statuses_of(self.lines@) =~= mark(osts));
        }
    }

    /// Serializes the collection: visible lines verbatim, each run of
    /// discarded lines as the omission token `marker`, one output row per
    /// visible line, each ended by a newline.
    pub fn write(&self, marker: &str) -> (out: String)
        ensures
            out@ == render(self.lines@, marker@),
    {
        let mut out = String::new();
        let mut i: usize = 0;
        while i < self.lines.len()
            invariant
                i <= self.lines@.len(),
                out@ == render(self.lines@.take(i as int), marker@),
            decreases self.lines@.len() - i,
        {
            proof {
                lemma_render_take_step(self.lines@, marker@, i as int);
                reveal_strlit("\n");
                assert("\n"@ =~= seq!['\n']);
            }
            let ghost prev = out@;
            match self.lines[i].status {
                LineStatus::Kept => {
                    out.append(self.lines[i].text.as_str());
                    out.append("\n");
                },
                LineStatus::Discardable => {
                    out.append(self.lines[i].text.as_str());
                    out.append("\n");
                },
                LineStatus::Marker => {
                    out.append(marker);
                    out.append("\n");
                },
                LineStatus::Discarded => {},
            }
            proof {
                assert(out@ =~= prev + render_line(self.lines@[i as int], marker@));
            }
            i = i + 1;
        }
        proof {
            assert(self.lines@.take(self.lines@.len() as int) =~= self.lines@);
        }
        out
    }

    /// Reduces the visible-line count to at most `target_lines` by
    /// repeatedly demoting the least important `Kept` line and collapsing
    /// each run of dropped lines behind a single marker; see [`spec_prune`].
    ///
    /// Texts, priorities, order and the target are left untouched; statuses
    /// only move forward along the lifecycle. When every line of a
    /// collection that is still too tall is already a run boundary, no
    /// further reduction is possible: the best-effort collection is kept and
    /// [`TargetUnreachable`] says so. A collection already at or below the
    /// target comes back unchanged.
    pub fn prune(&mut self) -> (r: Result<(), TargetUnreachable>)
        ensures
            final(self).target_lines == old(self).target_lines,
            final(self).lines@.len() == old(self).lines@.len(),
            forall|i: int|
                0 <= i < old(self).lines@.len() ==> (#[trigger] final(self).lines@[i]).prio@
                    == old(self).lines@[i].prio@ && final(self).lines@[i].text@
                    == old(self).lines@[i].text@,
            statuses_of(final(self).lines@) == spec_prune(
                statuses_of(old(self).lines@),
                prios_of(old(self).lines@),
                old(self).target_lines as int,
            ).0,
            (r is Ok) == spec_prune(
                statuses_of(old(self).lines@),
                prios_of(old(self).lines@),
                old(self).target_lines as int,
            ).1,
            r is Ok <==> visible_count(statuses_of(final(self).lines@))
                <= final(self).target_lines,
            r is Err ==> kept_count(statuses_of(final(self).lines@)) == 0,
            forall|i: int|
                0 <= i < old(self).lines@.len() ==> status_rank(old(self).lines@[i].status)
                    <= status_rank((#[trigger] final(self).lines@[i]).status),
            visible_count(statuses_of(old(self).lines@)) <= old(self).target_lines
                ==> final(self).lines@ == old(self).lines@,
    {
        let ghost orig = old(self).lines@;
        let ghost osts = statuses_of(orig);
        let ghost gprios = prios_of(orig);
        let ghost gtarget = old(self).target_lines as int;
        if self.kept_lines() <= self.target_lines {
            return Ok(());
        }
        loop
            invariant
                self.lines@.len() == orig.len(),
                self.target_lines == old(self).target_lines,
                orig == old(self).lines@,
                osts == statuses_of(orig),
                gprios == prios_of(orig),
                gtarget == old(self).target_lines as int,
                visible_count(osts) > gtarget,
                forall|i: int|
                    0 <= i < orig.len() ==> (#[trigger] self.lines@[i]).prio@ == orig[i].prio@
                        && self.lines@[i].text@ == orig[i].text@,
                forall|i: int|
                    0 <= i < orig.len() ==> status_rank(orig[i].status) <= status_rank(
                        (#[trigger] self.lines@[i]).status,
                    ),
                spec_prune(statuses_of(self.lines@), gprios, gtarget) == spec_prune(
                    osts,
                    gprios,
                    gtarget,
                ),
                prios_of(self.lines@) == gprios,
            decreases kept_count(statuses_of(self.lines@)),
        {
            let ghost cur = statuses_of(self.lines@);
            let vis = self.kept_lines();
            if vis <= self.target_lines {
                proof {
                    assert(spec_prune(cur, gprios, gtarget) == (cur, true));
                }
                return Ok(());
            }
            match self.find_demote_index() {
                None => {
                    proof {
                        lemma_best_kept_upto_props(gprios, cur, cur.len() as int);
                        lemma_kept_count_zero(cur);
                        assert(spec_prune(cur, gprios, gtarget) == (cur, false));
                    }
                    return Err(TargetUnreachable);
                },
                Some(j) => {
                    proof {
                        lemma_best_kept_upto_props(gprios, cur, cur.len() as int);
                        lemma_kept_count_zero(cur);
                        lemma_prune_step_decreases(cur, gprios);
                        assert(spec_prune(cur, gprios, gtarget) == spec_prune(
                            prune_step(cur, gprios),
                            gprios,
                            gtarget,
                        ));
                    }
                    let ghost before = self.lines@;
                    self.set_status(j, LineStatus::Discardable);
                    proof {
                        assert(statuses_of(self.lines@) =~= cur.update(
                            j as int,
                            LineStatus::Discardable,
                        ));
                        lemma_prios_texts_preserved(before, self.lines@);
                    }
                    let ghost demoted = self.lines@;
                    self.collapse_runs();
                    proof {
                        lemma_prios_texts_preserved(demoted, self.lines@);
                    }
                    let ghost collapsed = self.lines@;
                    self.mark_runs();
                    proof {
                        lemma_prios_texts_preserved(collapsed, self.lines@);
                        assert(statuses_of(self.lines@) == prune_step(cur, gprios));
                        assert(prios_of(self.lines@) =~= gprios);
                        let upd = cur.update(j as int, LineStatus::Discardable);
                        let col = collapse(upd);
                        let fin = mark(col);
                        assert forall|i: int| 0 <= i < orig.len() implies status_rank(
                            orig[i].status,
                        ) <= status_rank((#[trigger] self.lines@[i]).status) by {
                            assert(cur[j as int] == LineStatus::Kept);
                            assert(status_rank(cur[i]) <= status_rank(upd[i]));
                            assert(status_rank(upd[i]) <= status_rank(col[i]));
                            assert(status_rank(col[i]) <= status_rank(fin[i]));
                            assert(self.lines@[i].status == fin[i]);
                        };
                    }
                },
            }
        }
    }
}

/// What one line contributes to the rendered output: visible text rows and
/// the omission token come with a trailing newline, discarded lines nothing.
pub open spec fn render_line(l: Line, marker: Seq<char>) -> Seq<char> {
    match l.status {
        LineStatus::Kept => l.text@ + seq!['\n'],
        LineStatus::Discardable => l.text@ + seq!['\n'],
        LineStatus::Marker => marker + seq!['\n'],
        LineStatus::Discarded => Seq::empty(),
    }
}

/// The rendered output of a whole collection, in input order.
pub open spec fn render(lines: Seq<Line>, marker: Seq<char>) -> Seq<char>
    decreases lines.len(),
{
    if lines.len() == 0 {
        Seq::empty()
    } else {
        render(lines.drop_last(), marker) + render_line(lines.last(), marker)
    }
}

/// Rows joined back into one text, each with a trailing newline.
pub open spec fn join_rows(rows: Seq<Seq<char>>) -> Seq<char>
    decreases rows.len(),
{
    if rows.len() == 0 {
        Seq::empty()
    } else {
        join_rows(rows.drop_last()) + rows.last() + seq!['\n']
    }
}

proof fn lemma_render_take_step(lines: Seq<Line>, marker: Seq<char>, i: int)
    requires
        0 <= i < lines.len(),
    ensures
        render(lines.take(i + 1), marker) == render(lines.take(i), marker) + render_line(
            lines[i],
            marker,
        ),
{
    assert(lines.take(i + 1).drop_last() =~= lines.take(i));
    assert(lines.take(i + 1).last() == lines[i]);
}

/// Law: rendering a collection in which no line is `Discarded` or `Marker`
/// reproduces the collection's rows byte for byte, whatever the omission
/// token is.
pub proof fn lemma_render_round_trip(lines: Seq<Line>, marker: Seq<char>)
    requires
        forall|i: int|
            0 <= i < lines.len() ==> (#[trigger] lines[i]).status == LineStatus::Kept
                || lines[i].status == LineStatus::Discardable,
    ensures
        render(lines, marker) == join_rows(texts_of(lines)),
    decreases lines.len(),
{
    if lines.len() == 0 {
        assert(texts_of(lines) =~= Seq::<Seq<char>>::empty());
    } else {
        lemma_render_round_trip(lines.drop_last(), marker);
        assert(texts_of(lines).drop_last() =~= texts_of(lines.drop_last()));
        assert(texts_of(lines).last() == lines.last().text@);
        assert(render(lines, marker) =~= join_rows(texts_of(lines)));
    }
}

/// Law: a freshly materialized collection, rendered before any pruning,
/// reproduces the input text byte for byte whenever every row fits within
/// the column width.
pub proof fn lemma_fresh_render_reproduces_rows(
    lines: Seq<Line>,
    rows: Seq<Seq<char>>,
    columns: int,
    marker: Seq<char>,
)
    requires
        lines.len() == rows.len(),
        forall|i: int|
            0 <= i < lines.len() ==> (#[trigger] lines[i]).status == LineStatus::Kept
                || lines[i].status == LineStatus::Discardable,
        forall|i: int|
            0 <= i < lines.len() ==> (#[trigger] lines[i]).text@ == truncated(rows[i], columns),
        forall|i: int| 0 <= i < rows.len() ==> (#[trigger] rows[i]).len() <= columns,
    ensures
        render(lines, marker) == join_rows(rows),
{
    lemma_render_round_trip(lines, marker);
    assert(texts_of(lines) =~= rows);
}

/// Texts and priorities carry over unchanged through a pruning pass; only a
/// helper for chaining that fact across several passes.
proof fn lemma_prios_texts_preserved(a: Seq<Line>, b: Seq<Line>)
    requires
        a.len() == b.len(),
        forall|i: int|
            0 <= i < a.len() ==> (#[trigger] b[i]).prio@ == a[i].prio@ && b[i].text@ == a[i].text@,
    ensures
        prios_of(a) == prios_of(b),
        texts_of(a) == texts_of(b),
{
    assert(prios_of(a) =~= prios_of(b));
    assert(texts_of(a) =~= texts_of(b));
}

} // verus!
