use vstd::prelude::*;
use crate::error::AnalyzeError;

verus! {

/// What the aggregator holds for one committer: the display name seen first,
/// the email that keys the entry, and one score of each kind per commit.
pub ghost struct CommitterModel {
    pub name: Seq<char>,
    pub email: Seq<char>,
    pub performance: Seq<i64>,
    pub maintainability: Seq<i64>,
}

/// One scored commit as the aggregator receives it:
/// (email, display name, performance, maintainability).
pub type ScoredCommit = (Seq<char>, Seq<char>, i64, i64);

/// Scores accumulated for one committer. Scores are fixed-point numbers in
/// millionths of a point.
pub struct CommitterStats {
    pub name: String,
    pub email: String,
    pub performance_scores: Vec<i64>,
    pub maintainability_scores: Vec<i64>,
}

impl View for CommitterStats {
    type V = CommitterModel;

    open spec fn view(&self) -> CommitterModel {
        CommitterModel {
            name: self.name@,
            email: self.email@,
            performance: self.performance_scores@,
            maintainability: self.maintainability_scores@,
        }
    }
}

pub open spec fn stats_view(s: Seq<CommitterStats>) -> Seq<CommitterModel> {
    s.map_values(|c: CommitterStats| c@)
}

/// One entry per email, and as many scores of each kind as commits, at least one.
pub open spec fn entries_wf(m: Seq<CommitterModel>) -> bool {
    &&& forall|i: int, j: int|
        0 <= i < m.len() && 0 <= j < m.len() && i != j ==> m[i].email != m[j].email
    &&& forall|i: int|
        0 <= i < m.len() ==> {
            &&& (#[trigger] m[i]).performance.len() >= 1
            &&& m[i].performance.len() == m[i].maintainability.len()
        }
}

pub open spec fn has_email(m: Seq<CommitterModel>, email: Seq<char>) -> bool {
    exists|i: int| 0 <= i < m.len() && m[i].email == email
}

pub open spec fn index_of(m: Seq<CommitterModel>, email: Seq<char>) -> int {
    choose|i: int| 0 <= i < m.len() && m[i].email == email
}

/// The entries after one more commit: the committer's entry gets one more
/// score of each kind, or a new entry is made if the email was not seen yet.
/// The name stored first is kept.
pub open spec fn recorded(m: Seq<CommitterModel>, c: ScoredCommit) -> Seq<CommitterModel> {
    if has_email(m, c.0) {
        let i = index_of(m, c.0);
        m.update(
            i,
            CommitterModel {
                name: m[i].name,
                email: m[i].email,
                performance: m[i].performance.push(c.2),
                maintainability: m[i].maintainability.push(c.3),
            },
        )
    } else {
        m.push(
            CommitterModel {
                name: c.1,
                email: c.0,
                performance: seq![c.2],
                maintainability: seq![c.3],
            },
        )
    }
}

/// The entries after recording each commit of `cs`, in order, from none.
pub open spec fn replay(cs: Seq<ScoredCommit>) -> Seq<CommitterModel>
    decreases cs.len(),
{
    if cs.len() == 0 {
        Seq::empty()
    } else {
        recorded(replay(cs.drop_last()), cs.last())
    }
}

/// The sum of a sequence of scores.
pub open spec fn sum_of(s: Seq<i64>) -> int
    decreases s.len(),
{
    if s.len() == 0 {
        0
    } else {
        sum_of(s.drop_last()) + s.last()
    }
}

/// The sum of `f` over the commits of `cs`.
pub open spec fn tally(cs: Seq<ScoredCommit>, f: spec_fn(ScoredCommit) -> int) -> int
    decreases cs.len(),
{
    if cs.len() == 0 {
        0
    } else {
        tally(cs.drop_last(), f) + f(cs.last())
    }
}

/// One for a commit by `email`, else zero.
pub open spec fn counted_for(email: Seq<char>) -> spec_fn(ScoredCommit) -> int {
    |c: ScoredCommit| if c.0 == email { 1int } else { 0int }
}

/// The performance score of a commit by `email`, else zero.
pub open spec fn performance_for(email: Seq<char>) -> spec_fn(ScoredCommit) -> int {
    |c: ScoredCommit| if c.0 == email { c.2 as int } else { 0int }
}

/// The maintainability score of a commit by `email`, else zero.
pub open spec fn maintainability_for(email: Seq<char>) -> spec_fn(ScoredCommit) -> int {
    |c: ScoredCommit| if c.0 == email { c.3 as int } else { 0int }
}

/// The number of commits of `cs` by `email`.
pub open spec fn commits_by(cs: Seq<ScoredCommit>, email: Seq<char>) -> int {
    tally(cs, counted_for(email))
}

/// The sum of the performance scores of the commits of `cs` by `email`.
pub open spec fn performance_by(cs: Seq<ScoredCommit>, email: Seq<char>) -> int {
    tally(cs, performance_for(email))
}

/// The sum of the maintainability scores of the commits of `cs` by `email`.
pub open spec fn maintainability_by(cs: Seq<ScoredCommit>, email: Seq<char>) -> int {
    tally(cs, maintainability_for(email))
}

/// The largest magnitude of one score.
pub open spec fn score_magnitude() -> int {
    0x8000_0000_0000_0000
}

/// The integer nearest to `total / count`, halves rounded away from zero.
pub open spec fn rounded_quotient(total: int, count: int) -> int {
    let a = if total >= 0 { total } else { -total };
    let q = if 2 * (a % count) >= count { a / count + 1 } else { a / count };
    if total >= 0 { q } else { -q }
}

/// The mean of a series of scores, kept exactly as a total and a count.
pub struct Mean {
    total: i128,
    count: usize,
}

impl Mean {
    pub closed spec fn total_spec(&self) -> int {
        self.total as int
    }

    pub closed spec fn count_spec(&self) -> nat {
        self.count as nat
    }

    /// At least one score, each of them an `i64`.
    pub open spec fn wf(&self) -> bool {
        &&& self.count_spec() >= 1
        &&& -(score_magnitude() * self.count_spec()) <= self.total_spec()
        &&& self.total_spec() <= score_magnitude() * self.count_spec()
    }

    /// The sum of the scores.
    pub fn total(&self) -> (r: i128)
        ensures
            r == self.total_spec(),
    {
        self.total
    }

    /// The number of scores.
    pub fn count(&self) -> (r: usize)
        ensures
            r == self.count_spec(),
    {
        self.count
    }

    /// The mean rounded to the nearest integer, halves away from zero.
    pub fn rounded(&self) -> (r: i128)
        requires
            self.wf(),
        ensures
            r == rounded_quotient(self.total_spec(), self.count_spec() as int),
            -score_magnitude() - 1 <= r <= score_magnitude() + 1,
    {
        self.rounded_by(1)
    }

    /// The mean divided by `divisor`, rounded to the nearest integer, halves
    /// away from zero: the mean in a unit `divisor` times coarser.
    pub fn rounded_by(&self, divisor: u64) -> (r: i128)
        requires
            self.wf(),
            divisor >= 1,
        ensures
            r == rounded_quotient(self.total_spec(), self.count_spec() * divisor),
            -score_magnitude() - 1 <= r <= score_magnitude() + 1,
    {
        proof { lemma_magnitude(self.count as int); }
        let n = self.count as u128;
        let d = divisor as u128;
        assert(n * d <= 0xffff_ffff_ffff_ffff * 0xffff_ffff_ffff_ffffu128) by (nonlinear_arith)
            requires
                n <= 0xffff_ffff_ffff_ffff,
                d <= 0xffff_ffff_ffff_ffff,
        ;
        let c = n * d;
        assert(c >= 1) by (nonlinear_arith)
            requires
                n >= 1,
                d >= 1,
                c == n * d,
        ;
        let a: u128 = if self.total >= 0 {
            self.total as u128
        } else {
            (-self.total) as u128
        };
        let q = a / c;
        assert(q <= 0x8000_0000_0000_0000) by (nonlinear_arith)
            requires
                a <= 0x8000_0000_0000_0000 * n,
                n >= 1,
                d >= 1,
                c == n * d,
                q == a / c,
        ;
        let rem = a % c;
        let m = if rem >= c - rem { q + 1 } else { q };
        if self.total >= 0 {
            m as i128
        } else {
            -(m as i128)
        }
    }
}

proof fn lemma_magnitude(n: int)
    requires
        0 <= n <= usize::MAX,
    ensures
        score_magnitude() * (n + 1) == score_magnitude() * n + score_magnitude(),
        score_magnitude() * n <= 0x7fff_ffff_ffff_ffff_8000_0000_0000_0000,
{
    assert(usize::MAX <= 0xffff_ffff_ffff_ffff);
    assert(0x8000_0000_0000_0000 * (n + 1) == 0x8000_0000_0000_0000 * n + 0x8000_0000_0000_0000)
        by (nonlinear_arith);
    assert(0x8000_0000_0000_0000 * n <= 0x7fff_ffff_ffff_ffff_8000_0000_0000_0000)
        by (nonlinear_arith)
        requires
            n <= 0xffff_ffff_ffff_ffff,
    ;
}

/// Adds up a series of scores.
fn total_of(s: &Vec<i64>) -> (r: i128)
    ensures
        r == sum_of(s@),
        -(score_magnitude() * s@.len()) <= r <= score_magnitude() * s@.len(),
{
    let mut acc: i128 = 0;
    let mut i: usize = 0;
    while i < s.len()
        invariant
            i <= s.len(),
            acc == sum_of(s@.take(i as int)),
            -(score_magnitude() * i) <= acc <= score_magnitude() * i,
        decreases s.len() - i,
    {
        assert(s@.take(i + 1).drop_last() =~= s@.take(i as int));
        proof { lemma_magnitude(i as int); lemma_magnitude(i + 1); }
        acc = acc + s[i] as i128;
        i = i + 1;
    }
    assert(s@.take(i as int) =~= s@);
    acc
}

/// The final figures of one committer.
pub ghost struct SummaryModel {
    pub name: Seq<char>,
    pub email: Seq<char>,
    pub performance_total: int,
    pub maintainability_total: int,
    pub count: nat,
}

/// What finalizing turns the entries into: per committer, the totals and
/// the number of commits, from which the means follow.
pub open spec fn summarize(m: Seq<CommitterModel>) -> Seq<SummaryModel> {
    m.map_values(
        |c: CommitterModel|
            SummaryModel {
                name: c.name,
                email: c.email,
                performance_total: sum_of(c.performance),
                maintainability_total: sum_of(c.maintainability),
                count: c.performance.len(),
            },
    )
}

/// One committer's name, email and mean scores.
pub struct CommitterSummary {
    pub name: String,
    pub email: String,
    pub performance: Mean,
    pub maintainability: Mean,
}

impl View for CommitterSummary {
    type V = SummaryModel;

    open spec fn view(&self) -> SummaryModel {
        SummaryModel {
            name: self.name@,
            email: self.email@,
            performance_total: self.performance.total_spec(),
            maintainability_total: self.maintainability.total_spec(),
            count: self.performance.count_spec(),
        }
    }
}

/// The finalized result of a walk: one summary per email. It cannot be changed.
pub struct FinalStats {
    entries: Vec<CommitterSummary>,
}

impl View for FinalStats {
    type V = Seq<SummaryModel>;

    closed spec fn view(&self) -> Seq<SummaryModel> {
        self.entries@.map_values(|c: CommitterSummary| c@)
    }
}

impl FinalStats {
    /// Each summary has means over the same number of scores, at least one.
    pub closed spec fn wf(&self) -> bool {
        forall|i: int|
            0 <= i < self.entries@.len() ==> {
                &&& (#[trigger] self.entries@[i]).performance.wf()
                &&& self.entries@[i].maintainability.wf()
                &&& self.entries@[i].performance.count_spec() == self.entries@[i].maintainability.count_spec()
            }
    }

    /// The number of committers.
    pub fn len(&self) -> (r: usize)
        ensures
            r == self@.len(),
    {
        self.entries.len()
    }

    /// The summary at position `i`.
    pub fn get(&self, i: usize) -> (r: &CommitterSummary)
        requires
            i < self@.len(),
            self.wf(),
        ensures
            r@ == self@[i as int],
            r.performance.wf(),
            r.maintainability.wf(),
            r.maintainability.count_spec() == r.performance.count_spec(),
    {
        &self.entries[i]
    }
}

/// Collects scores per committer email while the history is walked.
pub struct Aggregator {
    entries: Vec<CommitterStats>,
}

impl View for Aggregator {
    type V = Seq<CommitterModel>;

    closed spec fn view(&self) -> Seq<CommitterModel> {
        stats_view(self.entries@)
    }
}

impl Aggregator {
    pub open spec fn wf(&self) -> bool {
        entries_wf(self@)
    }

    /// An aggregator that has seen no commit.
    pub fn new() -> (r: Aggregator)
        ensures
            r.wf(),
            r@ == Seq::<CommitterModel>::empty(),
    {
        let r = Aggregator { entries: Vec::new() };
        assert(r@ =~= Seq::<CommitterModel>::empty());
        r
    }

    /// The number of distinct committers seen so far.
    pub fn len(&self) -> (r: usize)
        ensures
            r == self@.len(),
    {
        self.entries.len()
    }

    /// Adds one commit's scores to the entry of `email`, creating the entry
    /// with `name` if the email was not seen before.
    pub fn record(&mut self, email: String, name: String, performance: i64, maintainability: i64)
        requires
            old(self).wf(),
        ensures
            final(self).wf(),
            final(self)@ == recorded(old(self)@, (email@, name@, performance, maintainability)),
    {
        let n = self.entries.len();
        let mut i: usize = 0;
        while i < n
            invariant
                n == self.entries.len(),
                self.entries@ == old(self).entries@,
                old(self).wf(),
                i <= n,
                forall|k: int| 0 <= k < i ==> self@[k].email != email@,
            decreases n - i,
        {
            if self.entries[i].email == email {
                let ghost m = self@;
                let mut e = self.entries.remove(i);
                e.performance_scores.push(performance);
                e.maintainability_scores.push(maintainability);
                self.entries.insert(i, e);
                proof {
                    assert(m[i as int].email == email@);
                    assert(has_email(m, email@));
                    assert(m == old(self)@);
                    let j = index_of(m, email@);
                    assert(0 <= j < m.len() && m[j].email == email@);
                    assert(j == i);
                    assert(self@ =~= recorded(m, (email@, name@, performance, maintainability)));
                    assert(self@[j].email == m[j].email);
                    assert(forall|k: int| 0 <= k < m.len() && k != j ==> self@[k] == m[k]);
                    assert(entries_wf(self@));
                }
                return;
            }
            i = i + 1;
        }
        let e = CommitterStats {
            name,
            email,
            performance_scores: vec![performance],
            maintainability_scores: vec![maintainability],
        };
        let ghost m = self@;
        self.entries.push(e);
        proof {
            assert(!has_email(m, e@.email));
            assert(e@.performance =~= seq![performance]);
            assert(e@.maintainability =~= seq![maintainability]);
            assert(self@ =~= recorded(m, (e@.email, e@.name, performance, maintainability)));
        }
    }

    /// Reduces every entry to its totals and counts, consuming the aggregator.
    pub fn finalize(self) -> (r: Result<FinalStats, AnalyzeError>)
        requires
            self.wf(),
        ensures
            r is Err <==> exists|i: int| 0 <= i < self@.len() && (#[trigger] self@[i]).performance.len() == 0,
            r matches Err(e) ==> e == AnalyzeError::EmptySeries,
            r matches Ok(f) ==> f@ == summarize(self@) && f.wf(),
    {
        let n = self.entries.len();
        let mut out: Vec<CommitterSummary> = Vec::new();
        let mut i: usize = 0;
        while i < n
            invariant
                n == self.entries.len(),
                self.wf(),
                i <= n,
                out@.len() == i,
                forall|k: int| 0 <= k < i ==> {
                    &&& (#[trigger] out@[k])@ == summarize(self@)[k]
                    &&& out@[k].performance.wf()
                    &&& out@[k].maintainability.wf()
                    &&& out@[k].performance.count_spec() == out@[k].maintainability.count_spec()
                },
            decreases n - i,
        {
            let e = &self.entries[i];
            assert(e@ == self@[i as int]);
            let pc = e.performance_scores.len();
            let mc = e.maintainability_scores.len();
            if pc == 0 || mc == 0 {
                return Err(AnalyzeError::EmptySeries);
            }
            let performance = Mean { total: total_of(&e.performance_scores), count: pc };
            let maintainability = Mean { total: total_of(&e.maintainability_scores), count: mc };
            out.push(CommitterSummary {
                name: e.name.clone(),
                email: e.email.clone(),
                performance,
                maintainability,
            });
            i = i + 1;
        }
        let f = FinalStats { entries: out };
        assert(f@ =~= summarize(self@));
        Ok(f)
    }
}


proof fn lemma_sum_singleton(x: i64)
    ensures
        sum_of(seq![x]) == x,
{
    assert(seq![x].drop_last() =~= Seq::<i64>::empty());
    assert(sum_of(Seq::<i64>::empty()) == 0);
    assert(sum_of(seq![x]) == sum_of(seq![x].drop_last()) + x);
}

proof fn lemma_sum_push(s: Seq<i64>, x: i64)
    ensures
        sum_of(s.push(x)) == sum_of(s) + x,
{
    assert(s.push(x).drop_last() =~= s);
}

proof fn lemma_tally_remove(cs: Seq<ScoredCommit>, f: spec_fn(ScoredCommit) -> int, j: int)
    requires
        0 <= j < cs.len(),
    ensures
        tally(cs, f) == tally(cs.remove(j), f) + f(cs[j]),
    decreases cs.len(),
{
    if j == cs.len() - 1 {
        assert(cs.remove(j) =~= cs.drop_last());
    } else {
        lemma_tally_remove(cs.drop_last(), f, j);
        assert(cs.remove(j).drop_last() =~= cs.drop_last().remove(j));
        assert(cs.remove(j).last() == cs.last());
    }
}

/// A tally does not depend on the order of the commits.
pub proof fn lemma_tally_permutation(a: Seq<ScoredCommit>, b: Seq<ScoredCommit>, f: spec_fn(ScoredCommit) -> int)
    requires
        a.to_multiset() =~= b.to_multiset(),
    ensures
        tally(a, f) == tally(b, f),
    decreases a.len(),
{
    broadcast use vstd::seq_lib::group_to_multiset_ensures;

    if a.len() == 0 {
        assert(a.to_multiset().len() == 0);
        assert(b.to_multiset().len() == 0);
        assert(b.len() == 0);
        assert(b =~= Seq::<ScoredCommit>::empty());
    } else {
        let x = a.last();
        let rest = a.drop_last();
        assert(rest.push(x) =~= a);
        assert(a.to_multiset() =~= rest.to_multiset().insert(x));
        assert(b.to_multiset().count(x) > 0);
        assert(b.contains(x));
        let j = choose|j: int| 0 <= j < b.len() && b[j] == x;
        assert(b.remove(j).to_multiset() =~= b.to_multiset().remove(x));
        assert(b.remove(j).to_multiset() =~= rest.to_multiset());
        lemma_tally_permutation(rest, b.remove(j), f);
        lemma_tally_remove(b, f, j);
    }
}

proof fn lemma_recorded_wf(m: Seq<CommitterModel>, c: ScoredCommit)
    requires
        entries_wf(m),
    ensures
        entries_wf(recorded(m, c)),
        forall|e: Seq<char>| has_email(recorded(m, c), e) <==> (has_email(m, e) || e == c.0),
{
    let r = recorded(m, c);
    if has_email(m, c.0) {
        let i = index_of(m, c.0);
        assert(forall|k: int| 0 <= k < m.len() ==> r[k].email == m[k].email);
        assert forall|e: Seq<char>| has_email(r, e) <==> (has_email(m, e) || e == c.0) by {
            if has_email(m, e) {
                let k = choose|k: int| 0 <= k < m.len() && m[k].email == e;
                assert(r[k].email == e);
            }
            if e == c.0 {
                assert(r[i].email == e);
            }
            if has_email(r, e) {
                let k = choose|k: int| 0 <= k < r.len() && r[k].email == e;
                assert(m[k].email == e);
            }
        }
    } else {
        assert forall|e: Seq<char>| has_email(r, e) <==> (has_email(m, e) || e == c.0) by {
            if has_email(m, e) {
                let k = choose|k: int| 0 <= k < m.len() && m[k].email == e;
                assert(r[k].email == e);
            }
            if e == c.0 {
                assert(r[m.len() as int].email == e);
            }
            if has_email(r, e) && e != c.0 {
                let k = choose|k: int| 0 <= k < r.len() && r[k].email == e;
                assert(k < m.len());
                assert(m[k].email == e);
            }
        }
    }
}

/// What the entries after a history hold: one per email that made a commit,
/// and for each the scores of exactly that email's commits.
pub proof fn lemma_replay_totals(cs: Seq<ScoredCommit>)
    ensures
        entries_wf(replay(cs)),
        forall|e: Seq<char>| #[trigger] has_email(replay(cs), e) <==> commits_by(cs, e) > 0,
        forall|i: int|
            0 <= i < replay(cs).len() ==> {
                &&& (#[trigger] replay(cs)[i]).performance.len() == commits_by(cs, replay(cs)[i].email)
                &&& sum_of(replay(cs)[i].performance) == performance_by(cs, replay(cs)[i].email)
                &&& sum_of(replay(cs)[i].maintainability) == maintainability_by(cs, replay(cs)[i].email)
            },
    decreases cs.len(),
{
    if cs.len() == 0 {
        assert forall|e: Seq<char>| #[trigger] has_email(replay(cs), e) <==> commits_by(cs, e) > 0 by {}
    } else {
        let prev = cs.drop_last();
        let c = cs.last();
        let m = replay(prev);
        lemma_replay_totals(prev);
        lemma_count_nonnegative(prev);
        lemma_recorded_wf(m, c);
        let r = replay(cs);
        assert(r == recorded(m, c));
        assert forall|e: Seq<char>| #[trigger] has_email(r, e) <==> commits_by(cs, e) > 0 by {
            assert(commits_by(cs, e) == commits_by(prev, e) + if c.0 == e { 1int } else { 0int });
            assert(has_email(m, e) <==> commits_by(prev, e) > 0);
        }
        if has_email(m, c.0) {
            let i = index_of(m, c.0);
            lemma_sum_push(m[i].performance, c.2);
            lemma_sum_push(m[i].maintainability, c.3);
            assert forall|k: int| 0 <= k < r.len() implies {
                &&& (#[trigger] r[k]).performance.len() == commits_by(cs, r[k].email)
                &&& sum_of(r[k].performance) == performance_by(cs, r[k].email)
                &&& sum_of(r[k].maintainability) == maintainability_by(cs, r[k].email)
            } by {
                let e = r[k].email;
                assert(commits_by(cs, e) == commits_by(prev, e) + if c.0 == e { 1int } else { 0int });
                assert(performance_by(cs, e) == performance_by(prev, e) + if c.0 == e { c.2 as int } else { 0int });
                assert(maintainability_by(cs, e) == maintainability_by(prev, e) + if c.0 == e { c.3 as int } else { 0int });
                assert(m[k].email == e);
            }
        } else {
            lemma_sum_singleton(c.2);
            lemma_sum_singleton(c.3);
            lemma_absent_totals(prev, c.0);
            assert forall|k: int| 0 <= k < r.len() implies {
                &&& (#[trigger] r[k]).performance.len() == commits_by(cs, r[k].email)
                &&& sum_of(r[k].performance) == performance_by(cs, r[k].email)
                &&& sum_of(r[k].maintainability) == maintainability_by(cs, r[k].email)
            } by {
                let e = r[k].email;
                assert(commits_by(cs, e) == commits_by(prev, e) + if c.0 == e { 1int } else { 0int });
                assert(performance_by(cs, e) == performance_by(prev, e) + if c.0 == e { c.2 as int } else { 0int });
                assert(maintainability_by(cs, e) == maintainability_by(prev, e) + if c.0 == e { c.3 as int } else { 0int });
                if k < m.len() {
                    assert(m[k] == r[k]);
                    assert(e != c.0);
                }
            }
        }
    }
}

proof fn lemma_count_nonnegative(cs: Seq<ScoredCommit>)
    ensures
        forall|e: Seq<char>| #[trigger] commits_by(cs, e) >= 0,
    decreases cs.len(),
{
    if cs.len() > 0 {
        lemma_count_nonnegative(cs.drop_last());
        assert forall|e: Seq<char>| #[trigger] commits_by(cs, e) >= 0 by {
            assert(commits_by(cs, e) == commits_by(cs.drop_last(), e) + if cs.last().0 == e { 1int } else { 0int });
        }
    }
}

proof fn lemma_absent_totals(cs: Seq<ScoredCommit>, e: Seq<char>)
    requires
        commits_by(cs, e) == 0,
    ensures
        performance_by(cs, e) == 0,
        maintainability_by(cs, e) == 0,
    decreases cs.len(),
{
    if cs.len() > 0 {
        let prev = cs.drop_last();
        lemma_count_nonnegative(prev);
        assert(commits_by(cs, e) == commits_by(prev, e) + if cs.last().0 == e { 1int } else { 0int });
        assert(performance_by(cs, e) == performance_by(prev, e) + if cs.last().0 == e { cs.last().2 as int } else { 0int });
        assert(maintainability_by(cs, e) == maintainability_by(prev, e) + if cs.last().0 == e { cs.last().3 as int } else { 0int });
        lemma_absent_totals(prev, e);
    }
}

/// A history without commits finalizes to no committer at all.
pub proof fn lemma_empty_history(cs: Seq<ScoredCommit>)
    requires
        cs.len() == 0,
    ensures
        replay(cs).len() == 0,
        summarize(replay(cs)).len() == 0,
{
}

/// For every email with k commits in the history, its finalized summary
/// counts exactly k scores of each kind and totals exactly those k scores;
/// so its means are the arithmetic means of them. Reordering the history
/// changes neither the count nor the totals, hence neither mean.
pub proof fn lemma_mean_of_committer(cs: Seq<ScoredCommit>, reordered: Seq<ScoredCommit>, email: Seq<char>)
    requires
        commits_by(cs, email) > 0,
        reordered.to_multiset() =~= cs.to_multiset(),
    ensures
        exists|i: int| 0 <= i < summarize(replay(cs)).len() && summarize(replay(cs))[i].email == email,
        forall|i: int|
            0 <= i < summarize(replay(cs)).len() && (#[trigger] summarize(replay(cs))[i]).email == email ==> {
                &&& summarize(replay(cs))[i].count == commits_by(cs, email)
                &&& summarize(replay(cs))[i].performance_total == performance_by(cs, email)
                &&& summarize(replay(cs))[i].maintainability_total == maintainability_by(cs, email)
            },
        commits_by(reordered, email) == commits_by(cs, email),
        performance_by(reordered, email) == performance_by(cs, email),
        maintainability_by(reordered, email) == maintainability_by(cs, email),
{
    lemma_replay_totals(cs);
    let m = replay(cs);
    assert(has_email(m, email));
    let i = index_of(m, email);
    assert(summarize(m)[i].email == email);
    lemma_tally_permutation(reordered, cs, counted_for(email));
    lemma_tally_permutation(reordered, cs, performance_for(email));
    lemma_tally_permutation(reordered, cs, maintainability_for(email));
}

/// Two aggregators fed the same history finalize to the same summaries:
/// the result depends on the scored commits alone.
pub proof fn lemma_same_history_same_result(first: Aggregator, second: Aggregator, cs: Seq<ScoredCommit>)
    requires
        first@ == replay(cs),
        second@ == replay(cs),
    ensures
        first.wf(),
        second.wf(),
        summarize(first@) == summarize(second@),
{
    lemma_replay_totals(cs);
}

} // verus!
