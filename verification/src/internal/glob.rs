//! Pattern matches using glob wildcards `*` and `?` with the linear-time
//! algorithm that keeps a single restart point.

use vstd::prelude::*;
use crate::text::chars_of;

verus! {

/// Whether the pattern suffix `p[i..]` matches the string suffix `s[j..]`,
/// where `?` matches any one character and `*` any run of characters.
pub open spec fn glob_match_from(p: Seq<char>, s: Seq<char>, i: int, j: int) -> bool
    decreases p.len() - i, s.len() - j,
{
    if i < 0 || j < 0 || i > p.len() || j > s.len() {
        false
    } else if i == p.len() {
        j == s.len()
    } else if p[i] == '*' {
        glob_match_from(p, s, i + 1, j) || (j < s.len() && glob_match_from(p, s, i, j + 1))
    } else if j == s.len() {
        false
    } else if p[i] == '?' || p[i] == s[j] {
        glob_match_from(p, s, i + 1, j + 1)
    } else {
        false
    }
}

/// Whether the wildcard pattern `p` matches all of `s`.
pub open spec fn glob_match(p: Seq<char>, s: Seq<char>) -> bool {
    glob_match_from(p, s, 0, 0)
}

/// A wildcard pattern.
pub struct Pattern(pub String);

impl Pattern {
    /// Creates a new pattern matcher. Each pattern consists of regular
    /// characters, single-character wildcards `'?'`, and multi-character
    /// wildcards `'*'`.
    pub fn new(pattern: String) -> (p: Pattern)
        ensures
            p.0@ == pattern@,
    {
        Pattern(pattern)
    }

    /// Returns true if and only if the wildcard pattern matches the string.
    pub fn matches(&self, string: &str) -> (r: bool)
        ensures
            r == glob_match(self.0@, string@),
    {
        let pattern = chars_of(self.0.as_str());
        let chars = chars_of(string);
        let processor = Processor {
            pattern: pattern.as_slice(),
            string: chars.as_slice(),
            pattern_pos: 0,
            string_pos: 0,
            restart: None,
        };
        processor.process()
    }
}

/// The state needed to restart the search from a star wildcard: the
/// position of the star, and the string position one past where the star's
/// match previously ended.
pub struct Restart {
    pub pattern_next: usize,
    pub string_next: usize,
}

/// The runtime state for glob matching.
pub struct Processor<'a> {
    pub pattern: &'a [char],
    pub string: &'a [char],
    pub pattern_pos: usize,
    pub string_pos: usize,
    pub restart: Option<Restart>,
}

/// What to do after any step through the processor.
pub enum StepOutcome {
    Proceed,
    TryRestart,
}

/// The pattern from `a` (inclusive) to `b` (exclusive) holds no star.
pub open spec fn star_free(p: Seq<char>, a: int, b: int) -> bool {
    forall|i: int| a <= i < b ==> p[i] != '*'
}

impl<'a> Processor<'a> {
    /// The processor just went back to its restart point.
    pub open spec fn just_restarted(&self) -> bool {
        self.restart matches Some(r) && r.pattern_next == self.pattern_pos && r.string_next
            == self.string_pos
    }

    /// The shape of the state, which the search keeps.
    pub open spec fn well_formed(&self) -> bool {
        let p = self.pattern@;
        let s = self.string@;
        &&& self.pattern_pos <= p.len()
        &&& self.string_pos <= s.len()
        &&& match self.restart {
            None => true,
            Some(r) => {
                &&& r.pattern_next < p.len()
                &&& p[r.pattern_next as int] == '*'
                &&& 1 <= r.string_next <= s.len()
                &&& (self.just_restarted() || {
                    &&& r.pattern_next < self.pattern_pos
                    &&& star_free(p, r.pattern_next + 1, self.pattern_pos as int)
                    &&& self.pattern_pos - self.string_pos == r.pattern_next - r.string_next + 2
                })
            },
        }
    }

    /// Whether the whole string can still match from the current state or
    /// from the restart point.
    pub open spec fn can_match(&self) -> bool {
        glob_match_from(self.pattern@, self.string@, self.pattern_pos as int, self.string_pos as int)
            || (self.restart matches Some(r) && glob_match_from(
            self.pattern@,
            self.string@,
            r.pattern_next as int,
            r.string_next as int,
        ))
    }

    /// The restart point, counting a pending restart as already advanced.
    pub open spec fn restart_progress(&self) -> int {
        match self.restart {
            None => if self.string_pos == self.string@.len() {
                self.string@.len() + 1int
            } else {
                0
            },
            Some(r) => if self.just_restarted() {
                r.string_next + 1
            } else {
                r.string_next as int
            },
        }
    }

    /// Runs the pattern matching until an unrecoverable mismatch, or until
    /// the input is consumed.
    pub fn process(self) -> (r: bool)
        requires
            self.well_formed(),
        ensures
            r == self.can_match(),
    {
        let ghost goal = self.can_match();
        let mut this = self;
        while this.is_unfinished()
            invariant
                this.well_formed(),
                this.can_match() == goal,
                goal == self.can_match(),
            decreases this.string@.len() + 2 - this.restart_progress(), this.pattern@.len()
                + this.string@.len() - this.pattern_pos - this.string_pos,
        {
            let ghost before = this;
            let outcome = this.step();
            match outcome {
                StepOutcome::TryRestart => {
                    proof {
                        lemma_mismatch(before);
                    }
                    let restarted = this.try_restart();
                    if !restarted {
                        return false;
                    }
                    proof {
                        lemma_restart(before, this);
                    }
                },
                StepOutcome::Proceed => {
                    proof {
                        lemma_proceed(before, this);
                    }
                },
            }
        }
        proof {
            assert(glob_match_from(
                this.pattern@,
                this.string@,
                this.pattern@.len() as int,
                this.string@.len() as int,
            ));
        }
        true
    }

    /// Whether pattern or string remain.
    pub fn is_unfinished(&self) -> (r: bool)
        ensures
            r == (self.pattern_pos < self.pattern@.len() || self.string_pos < self.string@.len()),
    {
        self.pattern_pos < self.pattern.len() || self.string_pos < self.string.len()
    }

    /// Takes a single step forward, and returns whether to proceed or try to
    /// restart.
    pub fn step(&mut self) -> (r: StepOutcome)
        requires
            old(self).pattern_pos <= old(self).pattern@.len(),
            old(self).string_pos <= old(self).string@.len(),
        ensures
            final(self).pattern == old(self).pattern,
            final(self).string == old(self).string,
            step_effect(*old(self), *final(self), r),
    {
        if self.pattern_pos < self.pattern.len() {
            let c = self.pattern[self.pattern_pos];
            if c == '?' {
                self.step_question_wildcard()
            } else if c == '*' {
                self.step_star_wildcard()
            } else {
                self.step_ordinary_character(c)
            }
        } else {
            StepOutcome::TryRestart
        }
    }

    /// Matches any single character.
    pub fn step_question_wildcard(&mut self) -> (r: StepOutcome)
        requires
            old(self).pattern_pos < old(self).pattern@.len(),
            old(self).string_pos <= old(self).string@.len(),
        ensures
            final(self).pattern == old(self).pattern,
            final(self).string == old(self).string,
            final(self).restart == old(self).restart,
            old(self).string_pos < old(self).string@.len() ==> r is Proceed && final(self).pattern_pos == old(self).pattern_pos + 1 && final(self).string_pos == old(self).string_pos + 1,
            old(self).string_pos == old(self).string@.len() ==> r is TryRestart && *final(self)
                == *old(self),
    {
        let n = self.pattern.len();
        if self.string_pos < self.string.len() {
            self.pattern_pos = self.pattern_pos + 1;
            self.string_pos = self.string_pos + 1;
            StepOutcome::Proceed
        } else {
            StepOutcome::TryRestart
        }
    }

    /// Matches zero or more characters. Starts by skipping over the wildcard
    /// and matching zero characters from the string. If that fails, the
    /// search restarts and matches one more character than the last attempt.
    pub fn step_star_wildcard(&mut self) -> (r: StepOutcome)
        requires
            old(self).pattern_pos < old(self).pattern@.len(),
            old(self).string_pos <= old(self).string@.len(),
        ensures
            final(self).pattern == old(self).pattern,
            final(self).string == old(self).string,
            r is Proceed,
            final(self).pattern_pos == old(self).pattern_pos + 1,
            final(self).string_pos == old(self).string_pos,
            old(self).string_pos == old(self).string@.len() ==> final(self).restart is None,
            old(self).string_pos < old(self).string@.len() ==> (final(self).restart matches Some(r)
                && r.pattern_next == old(self).pattern_pos && r.string_next == old(self).string_pos
                + 1),
    {
        let n = self.pattern.len();
        self.restart = if self.string_pos == self.string.len() {
            // If the string is already exhausted, there is nothing to
            // restart from.
            None
        } else {
            Some(Restart { pattern_next: self.pattern_pos, string_next: self.string_pos + 1 })
        };
        self.pattern_pos = self.pattern_pos + 1;
        StepOutcome::Proceed
    }

    /// Matches an ordinary (non-wildcard) character.
    pub fn step_ordinary_character(&mut self, pattern_ch: char) -> (r: StepOutcome)
        requires
            old(self).pattern_pos < old(self).pattern@.len(),
            old(self).string_pos <= old(self).string@.len(),
        ensures
            final(self).pattern == old(self).pattern,
            final(self).string == old(self).string,
            final(self).restart == old(self).restart,
            (old(self).string_pos < old(self).string@.len() && old(self).string@[old(self).string_pos as int] == pattern_ch) ==> r is Proceed && final(self).pattern_pos == old(self).pattern_pos + 1 && final(self).string_pos == old(self).string_pos + 1,
            !(old(self).string_pos < old(self).string@.len() && old(self).string@[old(self).string_pos as int] == pattern_ch) ==> r is TryRestart && *final(self) == *old(self),
    {
        let n = self.pattern.len();
        if self.string_pos < self.string.len() && self.string[self.string_pos] == pattern_ch {
            self.pattern_pos = self.pattern_pos + 1;
            self.string_pos = self.string_pos + 1;
            StepOutcome::Proceed
        } else {
            StepOutcome::TryRestart
        }
    }

    /// Tries to restart after failing to match a character. Returns whether
    /// the matching can restart.
    pub fn try_restart(&mut self) -> (r: bool)
        ensures
            final(self).pattern == old(self).pattern,
            final(self).string == old(self).string,
            final(self).restart == old(self).restart,
            r == old(self).restart is Some,
            old(self).restart matches Some(rs) ==> final(self).pattern_pos == rs.pattern_next
                && final(self).string_pos == rs.string_next,
            old(self).restart is None ==> *final(self) == *old(self),
    {
        match &self.restart {
            Some(r) => {
                let (pn, sn) = (r.pattern_next, r.string_next);
                self.pattern_pos = pn;
                self.string_pos = sn;
                true
            },
            None => false,
        }
    }
}

/// What one step does to the state.
pub open spec fn step_effect<'a>(old: Processor<'a>, new: Processor<'a>, r: StepOutcome) -> bool {
    let p = old.pattern@;
    let s = old.string@;
    let i = old.pattern_pos as int;
    let j = old.string_pos as int;
    if i < p.len() && p[i] == '*' {
        &&& r is Proceed
        &&& new.pattern_pos == i + 1
        &&& new.string_pos == j
        &&& (j == s.len() ==> new.restart is None)
        &&& (j < s.len() ==> (new.restart matches Some(r) && r.pattern_next == i && r.string_next
            == j + 1))
    } else if i < p.len() && j < s.len() && (p[i] == '?' || p[i] == s[j]) {
        &&& r is Proceed
        &&& new.pattern_pos == i + 1
        &&& new.string_pos == j + 1
        &&& new.restart == old.restart
    } else {
        r is TryRestart && new == old
    }
}

/// A star-free stretch of the pattern matched at string position `t` ends
/// matched at the corresponding later position.
proof fn lemma_star_free_advance(p: Seq<char>, s: Seq<char>, a: int, b: int, t: int)
    requires
        0 <= a <= b <= p.len(),
        star_free(p, a, b),
        glob_match_from(p, s, a, t),
    ensures
        t + (b - a) <= s.len(),
        glob_match_from(p, s, b, t + (b - a)),
    decreases b - a,
{
    if a < b {
        lemma_star_free_advance(p, s, a + 1, b, t + 1);
    }
}

/// A star matches from string position `i` exactly when the rest of the
/// pattern matches from some position at or after `i`.
proof fn lemma_star_later(p: Seq<char>, s: Seq<char>, q: int, i: int, j: int)
    requires
        0 <= q < p.len(),
        p[q] == '*',
        0 <= i <= j <= s.len(),
        glob_match_from(p, s, q, j),
    ensures
        glob_match_from(p, s, q, i),
    decreases j - i,
{
    if i < j {
        lemma_star_later(p, s, q, i + 1, j);
    }
}

/// A match from the restart point implies a match from a later star.
proof fn lemma_restart_subsumed(p: Seq<char>, s: Seq<char>, rp: int, rs: int, q: int, sq: int)
    requires
        0 <= rp < q < p.len(),
        p[rp] == '*',
        p[q] == '*',
        star_free(p, rp + 1, q),
        q - sq == rp - rs + 2,
        0 <= sq <= s.len(),
        1 <= rs <= s.len(),
        glob_match_from(p, s, rp, rs),
    ensures
        glob_match_from(p, s, q, sq),
{
    let t = lemma_star_witness(p, s, rp, rs);
    lemma_star_free_advance(p, s, rp + 1, q, t);
    lemma_star_later(p, s, q, sq, t + (q - rp - 1));
}

/// A star which matches from `i` lets the rest of the pattern match from
/// some `t >= i`.
proof fn lemma_star_witness(p: Seq<char>, s: Seq<char>, q: int, i: int) -> (t: int)
    requires
        0 <= q < p.len(),
        p[q] == '*',
        0 <= i <= s.len(),
        glob_match_from(p, s, q, i),
    ensures
        i <= t <= s.len(),
        glob_match_from(p, s, q + 1, t),
    decreases s.len() - i,
{
    if glob_match_from(p, s, q + 1, i) {
        i
    } else {
        lemma_star_witness(p, s, q, i + 1)
    }
}

/// A step which asks for a restart found that nothing matches from the
/// current position.
proof fn lemma_mismatch<'a>(before: Processor<'a>)
    requires
        before.well_formed(),
        before.pattern_pos < before.pattern@.len() || before.string_pos < before.string@.len(),
        step_effect(before, before, StepOutcome::TryRestart),
    ensures
        !glob_match_from(
            before.pattern@,
            before.string@,
            before.pattern_pos as int,
            before.string_pos as int,
        ),
        !before.just_restarted(),
{
}

/// Going back to the restart point keeps what can still match and makes
/// progress.
proof fn lemma_restart<'a>(before: Processor<'a>, after: Processor<'a>)
    requires
        before.well_formed(),
        !before.just_restarted(),
        !glob_match_from(
            before.pattern@,
            before.string@,
            before.pattern_pos as int,
            before.string_pos as int,
        ),
        before.restart matches Some(r) && after.pattern_pos == r.pattern_next && after.string_pos
            == r.string_next,
        after.pattern == before.pattern,
        after.string == before.string,
        after.restart == before.restart,
    ensures
        after.well_formed(),
        after.can_match() == before.can_match(),
        after.restart_progress() > before.restart_progress(),
        after.restart_progress() <= after.string@.len() + 1,
{
}

/// A step which proceeds keeps what can still match and makes progress.
proof fn lemma_proceed<'a>(before: Processor<'a>, after: Processor<'a>)
    requires
        before.well_formed(),
        step_effect(before, after, StepOutcome::Proceed),
        after.pattern == before.pattern,
        after.string == before.string,
    ensures
        after.well_formed(),
        after.can_match() == before.can_match(),
        after.restart_progress() >= before.restart_progress(),
        after.restart_progress() <= after.string@.len() + 1,
        after.pattern_pos + after.string_pos > before.pattern_pos + before.string_pos,
{
    let p = before.pattern@;
    let s = before.string@;
    let i = before.pattern_pos as int;
    let j = before.string_pos as int;
    if i < p.len() && p[i] == '*' {
        assert(!after.just_restarted());
        assert(after.pattern_pos <= p.len());
        assert(after.string_pos <= s.len());
        if j < s.len() {
            let r = after.restart->0;
            assert(r.pattern_next == i);
            assert(r.string_next == j + 1);
            assert(star_free(p, r.pattern_next + 1, after.pattern_pos as int));
            assert(after.pattern_pos - after.string_pos == r.pattern_next - r.string_next + 2);
        }
        if j < s.len() {
            assert(glob_match_from(p, s, i, j) == (glob_match_from(p, s, i + 1, j)
                || glob_match_from(p, s, i, j + 1)));
        } else {
            assert(glob_match_from(p, s, i, j) == glob_match_from(p, s, i + 1, j));
        }
        match before.restart {
            Some(r) => {
                if !before.just_restarted() {
                    if glob_match_from(p, s, r.pattern_next as int, r.string_next as int) {
                        lemma_restart_subsumed(
                            p,
                            s,
                            r.pattern_next as int,
                            r.string_next as int,
                            i,
                            j,
                        );
                    }
                }
            },
            None => {},
        }
        assert(after.well_formed());
    } else {
        assert(glob_match_from(p, s, i, j) == glob_match_from(p, s, i + 1, j + 1));
        if before.just_restarted() {
            assert(false);
        }
        match before.restart {
            Some(r) => {
                assert(star_free(p, r.pattern_next + 1, i + 1));
                assert(!after.just_restarted());
            },
            None => {},
        }
        assert(after.well_formed());
    }
}

/// Whether `s` holds a wildcard.
pub open spec fn has_wildcard(s: Seq<char>) -> bool {
    s.contains('?') || s.contains('*')
}

/// Returns true if `s` contains glob wildcards.
pub fn is_glob_pattern(s: &str) -> (r: bool)
    ensures
        r == has_wildcard(s@),
{
    let cs = chars_of(s);
    let mut i: usize = 0;
    while i < cs.len()
        invariant
            cs@ == s@,
            i <= cs@.len(),
            forall|j: int| 0 <= j < i ==> cs@[j] != '?' && cs@[j] != '*',
        decreases cs@.len() - i,
    {
        if cs[i] == '?' || cs[i] == '*' {
            assert(s@[i as int] == cs@[i as int]);
            return true;
        }
        i = i + 1;
    }
    false
}

/// A pattern without wildcards matches exactly the string equal to it.
pub proof fn lemma_literal_pattern(p: Seq<char>, s: Seq<char>, i: int, j: int)
    requires
        !has_wildcard(p),
        0 <= i <= p.len(),
        0 <= j <= s.len(),
    ensures
        glob_match_from(p, s, i, j) == (p.subrange(i, p.len() as int) == s.subrange(
            j,
            s.len() as int,
        )),
    decreases p.len() - i,
{
    let ps = p.subrange(i, p.len() as int);
    let ss = s.subrange(j, s.len() as int);
    if i == p.len() {
        if j < s.len() {
            assert(ss.len() > 0);
        } else {
            assert(ps =~= ss);
        }
    } else {
        assert(p[i] != '*' && p[i] != '?') by {
            if p[i] == '*' {
                assert(p.contains('*'));
            }
            if p[i] == '?' {
                assert(p.contains('?'));
            }
        }
        if j == s.len() {
            assert(ps.len() > 0 && ss.len() == 0);
        } else {
            lemma_literal_pattern(p, s, i + 1, j + 1);
            assert(ps =~= seq![p[i]] + p.subrange(i + 1, p.len() as int));
            assert(ss =~= seq![s[j]] + s.subrange(j + 1, s.len() as int));
            assert(p.subrange(i + 1, p.len() as int) =~= ps.drop_first());
            assert(s.subrange(j + 1, s.len() as int) =~= ss.drop_first());
            if ps == ss {
                assert(ps[0] == ss[0]);
            }
            if p[i] == s[j] && p.subrange(i + 1, p.len() as int) == s.subrange(j + 1, s.len() as int) {
                assert(ps =~= ss);
            }
            if p[i] != s[j] {
                assert(ps[0] != ss[0]);
            }
        }
    }
}

} // verus!
