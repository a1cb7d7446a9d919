//! Scoring strategies and the strategy selector.

use crate::lines::Line;
use crate::lines::Lines;
use vstd::prelude::*;

verus! {

/// Whether the character `c` occurs in `s`.
pub open spec fn contains_char(s: Seq<char>, c: char) -> bool {
    exists|i: int| 0 <= i < s.len() && s[i] == c
}

/// How often the character `c` occurs in `s`.
pub open spec fn count_char(s: Seq<char>, c: char) -> nat
    decreases s.len(),
{
    if s.len() == 0 {
        0
    } else {
        count_char(s.drop_last(), c) + if s.last() == c {
            1nat
        } else {
            0nat
        }
    }
}

/// An ASCII alphanumeric character: a digit or a letter of either case.
pub open spec fn is_alnum_char(c: char) -> bool {
    (48 <= c as u32 && c as u32 <= 57) || (65 <= c as u32 && c as u32 <= 90) || (97 <= c as u32
        && c as u32 <= 122)
}

/// The index of the first ASCII alphanumeric character of `s` at or after
/// position `i`, or `-1` if there is none.
pub open spec fn first_alnum_from(s: Seq<char>, i: int) -> int
    decreases s.len() - i,
{
    if i < 0 || i >= s.len() {
        -1
    } else if is_alnum_char(s[i]) {
        i
    } else {
        first_alnum_from(s, i + 1)
    }
}

/// How many of these lines contain the path separator.
pub open spec fn count_sep_lines(lines: Seq<Line>) -> nat
    decreases lines.len(),
{
    if lines.len() == 0 {
        0
    } else {
        count_sep_lines(lines.drop_last()) + if has_separator(lines.last()) {
            1nat
        } else {
            0nat
        }
    }
}

/// How many of these lines contain a tree-branch glyph.
pub open spec fn count_glyph_lines(lines: Seq<Line>) -> nat
    decreases lines.len(),
{
    if lines.len() == 0 {
        0
    } else {
        count_glyph_lines(lines.drop_last()) + if has_branch_glyph(lines.last()) {
            1nat
        } else {
            0nat
        }
    }
}

proof fn lemma_count_sep_take_step(lines: Seq<Line>, i: int)
    requires
        0 <= i < lines.len(),
    ensures
        count_sep_lines(lines.take(i + 1)) == count_sep_lines(lines.take(i)) + if has_separator(
            lines[i],
        ) {
            1nat
        } else {
            0nat
        },
{
    assert(lines.take(i + 1).drop_last() =~= lines.take(i));
    assert(lines.take(i + 1).last() == lines[i]);
}

proof fn lemma_count_glyph_take_step(lines: Seq<Line>, i: int)
    requires
        0 <= i < lines.len(),
    ensures
        count_glyph_lines(lines.take(i + 1)) == count_glyph_lines(lines.take(i))
            + if has_branch_glyph(lines[i]) {
            1nat
        } else {
            0nat
        },
{
    assert(lines.take(i + 1).drop_last() =~= lines.take(i));
    assert(lines.take(i + 1).last() == lines[i]);
}

proof fn lemma_count_char_le_len(s: Seq<char>, c: char)
    ensures
        count_char(s, c) <= s.len(),
    decreases s.len(),
{
    if s.len() > 0 {
        lemma_count_char_le_len(s.drop_last(), c);
    }
}

proof fn lemma_count_char_take_step(s: Seq<char>, c: char, i: int)
    requires
        0 <= i < s.len(),
    ensures
        count_char(s.take(i + 1), c) == count_char(s.take(i), c) + if s[i] == c {
            1nat
        } else {
            0nat
        },
{
    assert(s.take(i + 1).drop_last() =~= s.take(i));
    assert(s.take(i + 1).last() == s[i]);
}

/// Decides [`contains_char`].
fn str_contains_char(s: &str, c: char) -> (r: bool)
    ensures
        r == contains_char(s@, c),
{
    let n = s.unicode_len();
    let mut i: usize = 0;
    while i < n
        invariant
            i <= n,
            n == s@.len(),
            forall|j: int| 0 <= j < i ==> s@[j] != c,
        decreases n - i,
    {
        if s.get_char(i) == c {
            return true;
        }
        i = i + 1;
    }
    false
}

/// Counts the occurrences of `c` in `s`; see [`count_char`].
fn str_count_char(s: &str, c: char) -> (n: u32)
    requires
        s@.len() < u32::MAX,
    ensures
        n == count_char(s@, c),
{
    let len = s.unicode_len();
    let mut n: u32 = 0;
    let mut i: usize = 0;
    while i < len
        invariant
            i <= len,
            len == s@.len(),
            len < u32::MAX,
            n <= i,
            n == count_char(s@.take(i as int), c),
        decreases len - i,
    {
        proof {
            lemma_count_char_take_step(s@, c, i as int);
        }
        if s.get_char(i) == c {
            n = n + 1;
        }
        i = i + 1;
    }
    proof {
        assert(s@.take(s@.len() as int) =~= s@);
    }
    n
}

/// Finds the first ASCII alphanumeric character; see [`first_alnum_from`].
fn str_first_alnum(s: &str) -> (r: Option<usize>)
    ensures
        match r {
            Some(j) => j < s@.len() && j == first_alnum_from(s@, 0),
            None => first_alnum_from(s@, 0) == -1,
        },
{
    let n = s.unicode_len();
    let mut i: usize = 0;
    while i < n
        invariant
            i <= n,
            n == s@.len(),
            first_alnum_from(s@, 0) == first_alnum_from(s@, i as int),
        decreases n - i,
    {
        let c = s.get_char(i);
        let u = c as u32;
        if (48 <= u && u <= 57) || (65 <= u && u <= 90) || (97 <= u && u <= 122) {
            return Some(i);
        }
        i = i + 1;
    }
    None
}

/// How well a strategy's pattern matches the sampled input; used only to
/// rank competing strategies.
#[derive(Clone, Copy, Debug, PartialEq, Eq, Structural)]
pub enum Confidence {
    Low,
    Medium,
    High,
    Certain,
}

/// Numeric rank of a confidence level, strictly increasing.
pub open spec fn confidence_rank(c: Confidence) -> u32 {
    match c {
        Confidence::Low => 10,
        Confidence::Medium => 20,
        Confidence::High => 30,
        Confidence::Certain => 100,
    }
}

impl Confidence {
    /// The numeric rank, for comparing two confidence levels.
    pub fn rank(&self) -> (r: u32)
        ensures
            r == confidence_rank(*self),
    {
        match self {
            Confidence::Low => 10,
            Confidence::Medium => 20,
            Confidence::High => 30,
            Confidence::Certain => 100,
        }
    }
}

/// The score the `Head` strategy assigns: the 0-based position from the
/// start, so later lines are less important.
pub open spec fn head_score(lines: Seq<Line>, i: int) -> u32 {
    i as u32
}

/// The score the `HeadAndTail` strategy assigns: the distance to the nearer
/// end, so lines in the middle are least important.
pub open spec fn head_and_tail_score(lines: Seq<Line>, i: int) -> u32 {
    if i <= lines.len() - 1 - i {
        i as u32
    } else {
        (lines.len() - 1 - i) as u32
    }
}

/// The score the `PathDepth` strategy assigns: the number of `/`-delimited
/// segments of the text, so deeper paths are less important.
pub open spec fn path_depth_score(lines: Seq<Line>, i: int) -> u32 {
    (count_char(lines[i].text@, '/') + 1) as u32
}

/// The score the `FirstAlnum` strategy assigns: the index of the first ASCII
/// alphanumeric character (0 when there is none), a proxy for indentation
/// depth, so deeper entries are less important.
pub open spec fn first_alnum_score(lines: Seq<Line>, i: int) -> u32 {
    if first_alnum_from(lines[i].text@, 0) == -1 {
        0
    } else {
        first_alnum_from(lines[i].text@, 0) as u32
    }
}

/// Whether a line's text contains the path separator.
pub open spec fn has_separator(l: Line) -> bool {
    contains_char(l.text@, '/')
}

/// Whether a line's text contains a tree-branch glyph (the box-drawing
/// characters that `tree`-like listings draw).
pub open spec fn has_branch_glyph(l: Line) -> bool {
    contains_char(l.text@, '\u{251c}') || contains_char(l.text@, '\u{2514}')
}

/// The `PathDepth` pattern matches: more than two lines, and all but at most
/// two of them contain the path separator.
pub open spec fn path_depth_certain(lines: Seq<Line>) -> bool {
    lines.len() > 2 && count_sep_lines(lines) + 2 >= lines.len()
}

/// The `FirstAlnum` pattern matches: more than two lines, and all but at
/// most two of them contain a tree-branch glyph.
pub open spec fn first_alnum_certain(lines: Seq<Line>) -> bool {
    lines.len() > 2 && count_glyph_lines(lines) + 2 >= lines.len()
}

/// A scoring heuristic: reports at construction how confidently its pattern
/// matches the input, and on invocation appends one priority component to
/// every line of the collection.
///
/// The bounds on `prioritize` are machine limits only: scores are `u32`
/// components, so the line count and the text lengths must fit.
pub trait Prioritizer: Sized {
    /// The confidence this strategy reported at construction.
    spec fn spec_confidence(&self) -> Confidence;

    /// The score this strategy assigns to line `i` of `lines`.
    spec fn spec_score(&self, lines: Seq<Line>, i: int) -> u32;

    /// The confidence that this strategy's pattern matches the input.
    fn confidence(&self) -> (c: Confidence)
        ensures
            c == self.spec_confidence(),
    ;

    /// Appends this strategy's score for each line to that line's priority
    /// key; everything else about the collection is left as it is.
    fn prioritize(&self, lines: &mut Lines)
        requires
            old(lines).lines@.len() <= u32::MAX,
            forall|i: int|
                0 <= i < old(lines).lines@.len() ==> (#[trigger] old(lines).lines@[i]).text@.len()
                    < u32::MAX,
        ensures
            final(lines).target_lines == old(lines).target_lines,
            final(lines).lines@.len() == old(lines).lines@.len(),
            forall|i: int|
                0 <= i < old(lines).lines@.len() ==> {
                    &&& (#[trigger] final(lines).lines@[i]).status == old(lines).lines@[i].status
                    &&& final(lines).lines@[i].text@ == old(lines).lines@[i].text@
                    &&& final(lines).lines@[i].prio@ == old(lines).lines@[i].prio@.push(
                        self.spec_score(old(lines).lines@, i),
                    )
                },
    ;
}

/// The minimal baseline strategy: a line's importance is its position from
/// the start, so pruning eats from the end.
pub struct Head {
    /// Fixed at `Low`: this pattern matches anything, weakly.
    pub confidence: Confidence,
}

impl Head {
    pub fn new() -> (r: Head)
        ensures
            r.spec_confidence() == Confidence::Low,
    {
        Head { confidence: Confidence::Low }
    }
}

impl Prioritizer for Head {
    open spec fn spec_confidence(&self) -> Confidence {
        self.confidence
    }

    open spec fn spec_score(&self, lines: Seq<Line>, i: int) -> u32 {
        head_score(lines, i)
    }

    fn confidence(&self) -> (c: Confidence) {
        self.confidence
    }

    fn prioritize(&self, lines: &mut Lines) {
        let ghost orig = old(lines).lines@;
        let n = lines.lines.len();
        let mut i: usize = 0;
        while i < n
            invariant
                i <= n,
                n == lines.lines@.len(),
                n == orig.len(),
                n <= u32::MAX,
                lines.target_lines == old(lines).target_lines,
                forall|k: int| i <= k < n ==> (#[trigger] lines.lines@[k]) == orig[k],
                forall|k: int|
                    0 <= k < i ==> {
                        &&& (#[trigger] lines.lines@[k]).status == orig[k].status
                        &&& lines.lines@[k].text@ == orig[k].text@
                        &&& lines.lines@[k].prio@ == orig[k].prio@.push(head_score(orig, k))
                    },
            decreases n - i,
        {
            lines.push_prio(i, i as u32);
            i = i + 1;
        }
    }
}

/// The general-purpose fallback: a line's importance is its distance to the
/// nearer end of the text, preserving context at both extremities.
pub struct HeadAndTail {
    /// Fixed at `Medium`: preferred over the baselines, outranked by any
    /// strategy whose pattern actually matches.
    pub confidence: Confidence,
}

impl HeadAndTail {
    /// The fallback's confidence is fixed; the sample goes unread.
    pub fn new(_sample_lines: &Lines) -> (r: HeadAndTail)
        ensures
            r.spec_confidence() == Confidence::Medium,
    {
        HeadAndTail { confidence: Confidence::Medium }
    }
}

impl Prioritizer for HeadAndTail {
    open spec fn spec_confidence(&self) -> Confidence {
        self.confidence
    }

    open spec fn spec_score(&self, lines: Seq<Line>, i: int) -> u32 {
        head_and_tail_score(lines, i)
    }

    fn confidence(&self) -> (c: Confidence) {
        self.confidence
    }

    fn prioritize(&self, lines: &mut Lines) {
        let ghost orig = old(lines).lines@;
        let n = lines.lines.len();
        let mut i: usize = 0;
        while i < n
            invariant
                i <= n,
                n == lines.lines@.len(),
                n == orig.len(),
                n <= u32::MAX,
                lines.target_lines == old(lines).target_lines,
                forall|k: int| i <= k < n ==> (#[trigger] lines.lines@[k]) == orig[k],
                forall|k: int|
                    0 <= k < i ==> {
                        &&& (#[trigger] lines.lines@[k]).status == orig[k].status
                        &&& lines.lines@[k].text@ == orig[k].text@
                        &&& lines.lines@[k].prio@ == orig[k].prio@.push(
                            head_and_tail_score(orig, k),
                        )
                    },
            decreases n - i,
        {
            let from_end = n - 1 - i;
            let score = if i < from_end {
                i
            } else {
                from_end
            };
            lines.push_prio(i, score as u32);
            i = i + 1;
        }
    }
}

/// Detects path-like listings: a line's importance is how shallow its path
/// is, measured in `/`-delimited segments.
pub struct PathDepth {
    /// `Certain` when the sampled input looked path-like, else `Low`.
    pub confidence: Confidence,
}

impl PathDepth {
    /// Samples the collection: `Certain` exactly when more than two lines
    /// were sampled and all but at most two of them contain `/`.
    pub fn new(sample_lines: &Lines) -> (r: PathDepth)
        ensures
            r.spec_confidence() == if path_depth_certain(sample_lines.lines@) {
                Confidence::Certain
            } else {
                Confidence::Low
            },
    {
        let n = sample_lines.lines.len();
        let mut with_sep: usize = 0;
        let mut i: usize = 0;
        while i < n
            invariant
                i <= n,
                n == sample_lines.lines@.len(),
                with_sep <= i,
                with_sep == count_sep_lines(sample_lines.lines@.take(i as int)),
            decreases n - i,
        {
            proof {
                lemma_count_sep_take_step(sample_lines.lines@, i as int);
            }
            if str_contains_char(sample_lines.lines[i].text.as_str(), '/') {
                with_sep = with_sep + 1;
            }
            i = i + 1;
        }
        proof {
            assert(sample_lines.lines@.take(n as int) =~= sample_lines.lines@);
        }
        if n > 2 && n - with_sep <= 2 {
            PathDepth { confidence: Confidence::Certain }
        } else {
            PathDepth { confidence: Confidence::Low }
        }
    }
}

impl Prioritizer for PathDepth {
    open spec fn spec_confidence(&self) -> Confidence {
        self.confidence
    }

    open spec fn spec_score(&self, lines: Seq<Line>, i: int) -> u32 {
        path_depth_score(lines, i)
    }

    fn confidence(&self) -> (c: Confidence) {
        self.confidence
    }

    fn prioritize(&self, lines: &mut Lines) {
        let ghost orig = old(lines).lines@;
        let n = lines.lines.len();
        let mut i: usize = 0;
        while i < n
            invariant
                i <= n,
                n == lines.lines@.len(),
                n == orig.len(),
                forall|k: int| 0 <= k < n ==> (#[trigger] orig[k]).text@.len() < u32::MAX,
                lines.target_lines == old(lines).target_lines,
                forall|k: int| i <= k < n ==> (#[trigger] lines.lines@[k]) == orig[k],
                forall|k: int|
                    0 <= k < i ==> {
                        &&& (#[trigger] lines.lines@[k]).status == orig[k].status
                        &&& lines.lines@[k].text@ == orig[k].text@
                        &&& lines.lines@[k].prio@ == orig[k].prio@.push(path_depth_score(orig, k))
                    },
            decreases n - i,
        {
            proof {
                lemma_count_char_le_len(lines.lines@[i as int].text@, '/');
            }
            let segments = str_count_char(lines.lines[i].text.as_str(), '/') + 1;
            lines.push_prio(i, segments);
            i = i + 1;
        }
    }
}

/// Detects indented tree output: a line's importance is how far left its
/// first alphanumeric character sits.
pub struct FirstAlnum {
    /// `Certain` when the sampled input looked like a drawn tree, else `Low`.
    pub confidence: Confidence,
}

impl FirstAlnum {
    /// Samples the collection: `Certain` exactly when more than two lines
    /// were sampled and all but at most two of them contain a tree-branch
    /// glyph.
    pub fn new(sample_lines: &Lines) -> (r: FirstAlnum)
        ensures
            r.spec_confidence() == if first_alnum_certain(sample_lines.lines@) {
                Confidence::Certain
            } else {
                Confidence::Low
            },
    {
        let n = sample_lines.lines.len();
        let mut with_glyph: usize = 0;
        let mut i: usize = 0;
        while i < n
            invariant
                i <= n,
                n == sample_lines.lines@.len(),
                with_glyph <= i,
                with_glyph == count_glyph_lines(sample_lines.lines@.take(i as int)),
            decreases n - i,
        {
            proof {
                lemma_count_glyph_take_step(sample_lines.lines@, i as int);
            }
            let text = sample_lines.lines[i].text.as_str();
            if str_contains_char(text, '\u{251c}') || str_contains_char(text, '\u{2514}') {
                with_glyph = with_glyph + 1;
            }
            i = i + 1;
        }
        proof {
            assert(sample_lines.lines@.take(n as int) =~= sample_lines.lines@);
        }
        if n > 2 && n - with_glyph <= 2 {
            FirstAlnum { confidence: Confidence::Certain }
        } else {
            FirstAlnum { confidence: Confidence::Low }
        }
    }
}

impl Prioritizer for FirstAlnum {
    open spec fn spec_confidence(&self) -> Confidence {
        self.confidence
    }

    open spec fn spec_score(&self, lines: Seq<Line>, i: int) -> u32 {
        first_alnum_score(lines, i)
    }

    fn confidence(&self) -> (c: Confidence) {
        self.confidence
    }

    fn prioritize(&self, lines: &mut Lines) {
        let ghost orig = old(lines).lines@;
        let n = lines.lines.len();
        let mut i: usize = 0;
        while i < n
            invariant
                i <= n,
                n == lines.lines@.len(),
                n == orig.len(),
                forall|k: int| 0 <= k < n ==> (#[trigger] orig[k]).text@.len() < u32::MAX,
                lines.target_lines == old(lines).target_lines,
                forall|k: int| i <= k < n ==> (#[trigger] lines.lines@[k]) == orig[k],
                forall|k: int|
                    0 <= k < i ==> {
                        &&& (#[trigger] lines.lines@[k]).status == orig[k].status
                        &&& lines.lines@[k].text@ == orig[k].text@
                        &&& lines.lines@[k].prio@ == orig[k].prio@.push(first_alnum_score(orig, k))
                    },
            decreases n - i,
        {
            let score = match str_first_alnum(lines.lines[i].text.as_str()) {
                Some(j) => j as u32,
                None => 0,
            };
            lines.push_prio(i, score);
            i = i + 1;
        }
    }
}

/// The strategy selector was handed an empty collection: no strategy is
/// invoked and the collection comes back unchanged. Zero lines already
/// satisfy any target, so the caller can simply move on.
#[derive(Clone, Copy, Debug, PartialEq, Eq, Structural)]
pub struct EmptyCollection;

/// The score the winning strategy assigns to line `i`: the strategies whose
/// pattern matches the input with certainty outrank the fallback, and on a
/// tie the fixed precedence `FirstAlnum`, `PathDepth`, `HeadAndTail` wins.
pub open spec fn auto_score(lines: Seq<Line>, i: int) -> u32 {
    if first_alnum_certain(lines) {
        first_alnum_score(lines, i)
    } else if path_depth_certain(lines) {
        path_depth_score(lines, i)
    } else {
        head_and_tail_score(lines, i)
    }
}

/// Evaluates every competing strategy against the collection, activates the
/// one with the greatest confidence rank (fixed precedence on ties, see
/// [`auto_score`]) and applies it: every line gets one priority component
/// appended. An empty collection is reported and returned unchanged.
///
/// The bounds are machine limits only: scores are `u32` components, so the
/// line count and the text lengths must fit.
pub fn auto_prioritize(lines: &mut Lines) -> (r: Result<(), EmptyCollection>)
    requires
        old(lines).lines@.len() <= u32::MAX,
        forall|i: int|
            0 <= i < old(lines).lines@.len() ==> (#[trigger] old(lines).lines@[i]).text@.len()
                < u32::MAX,
    ensures
        (r is Err) <==> old(lines).lines@.len() == 0,
        r is Err ==> *final(lines) == *old(lines),
        final(lines).target_lines == old(lines).target_lines,
        final(lines).lines@.len() == old(lines).lines@.len(),
        r is Ok ==> forall|i: int|
            0 <= i < old(lines).lines@.len() ==> {
                &&& (#[trigger] final(lines).lines@[i]).status == old(lines).lines@[i].status
                &&& final(lines).lines@[i].text@ == old(lines).lines@[i].text@
                &&& final(lines).lines@[i].prio@ == old(lines).lines@[i].prio@.push(
                    auto_score(old(lines).lines@, i),
                )
            },
{
    if lines.lines.len() == 0 {
        return Err(EmptyCollection);
    }
    let path_depth = PathDepth::new(lines);
    let first_alnum = FirstAlnum::new(lines);
    let head_and_tail = HeadAndTail::new(lines);
    let alnum_rank = first_alnum.confidence().rank();
    let depth_rank = path_depth.confidence().rank();
    let fallback_rank = head_and_tail.confidence().rank();
    if alnum_rank >= depth_rank && alnum_rank >= fallback_rank {
        first_alnum.prioritize(lines);
    } else if depth_rank >= fallback_rank {
        path_depth.prioritize(lines);
    } else {
        head_and_tail.prioritize(lines);
    }
    Ok(())
}

} // verus!
