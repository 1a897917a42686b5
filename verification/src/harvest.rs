//! Fan-in of the harvest: consumes per-problem fetch outcomes in a fixed
//! order, extracts each page, keeps every year's group sorted by number,
//! seeds the stylesheet list once, and aborts on the first failure.

use crate::aops::{AopsContent, AopsProblem, AopsScrapeResult, Challenge, ProblemView};
use crate::extract::{get_stylesheets, parse_html, spec_parse, spec_styles, ExtractError};
use vstd::prelude::*;
use vstd::seq_lib::lemma_multiset_commutative;

verus! {

/// Why a harvest run failed: a transport failure during the fetch (with the
/// transport's description) or a structural extraction failure.
#[derive(Debug, Clone, PartialEq, Eq)]
pub enum HarvestFailure {
    Transport(String),
    Extract(ExtractError),
}

/// The harvest's sole error: the first failure met while consuming results
/// in the fixed order, with the (year, number) that triggered it.
#[derive(Debug, Clone, PartialEq, Eq)]
pub struct HarvestError {
    pub year: u32,
    pub number: u32,
    pub kind: HarvestFailure,
}

/// What the fetch of one problem page produced: the problem number and the
/// page markup, or the transport failure's description.
#[derive(Debug)]
pub struct FetchOutcome {
    pub number: u32,
    pub page: Result<String, String>,
}

/// The page markup of an outcome (meaningful only for fetched pages).
pub open spec fn page_seq(o: FetchOutcome) -> Seq<char> {
    match o.page {
        Ok(h) => h@,
        Err(m) => m@,
    }
}

/// The outcome fails: its fetch failed, or its page does not extract.
pub open spec fn outcome_fails(o: FetchOutcome) -> bool {
    match o.page {
        Err(_) => true,
        Ok(h) => spec_parse(h@) is Err,
    }
}

/// The first failing outcome at or after `i`.
pub open spec fn first_failure_from(os: Seq<FetchOutcome>, i: int) -> Option<int>
    decreases os.len() - i,
{
    if i < 0 || i >= os.len() {
        None
    } else if outcome_fails(os[i]) {
        Some(i)
    } else {
        first_failure_from(os, i + 1)
    }
}

/// The first failing outcome of the sequence, if any.
pub open spec fn first_failure(os: Seq<FetchOutcome>) -> Option<int> {
    first_failure_from(os, 0)
}

/// The extracted problem of one successful outcome, as a value.
pub open spec fn problem_view_of(year: u32, o: FetchOutcome) -> ProblemView {
    ProblemView {
        year,
        number: o.number,
        problem: spec_parse(page_seq(o))->Ok_0.0,
        solution: spec_parse(page_seq(o))->Ok_0.1,
    }
}

/// The extracted problems of all outcomes, in consumption order.
pub open spec fn problem_views(year: u32, os: Seq<FetchOutcome>) -> Seq<ProblemView> {
    os.map_values(|o: FetchOutcome| problem_view_of(year, o))
}

/// The stylesheet list one outcome contributes: that of its page, nothing
/// on a transport failure.
pub open spec fn cur_styles(o: FetchOutcome) -> Seq<Seq<char>> {
    match o.page {
        Ok(h) => spec_styles(h@),
        Err(_) => Seq::empty(),
    }
}

/// The stylesheet list after the first `n` outcomes: the first non-empty
/// contribution wins and is never replaced.
pub open spec fn first_styles_upto(os: Seq<FetchOutcome>, n: int) -> Seq<Seq<char>>
    decreases n,
{
    if n <= 0 {
        Seq::empty()
    } else {
        let prev = first_styles_upto(os, n - 1);
        if prev.len() > 0 {
            prev
        } else {
            cur_styles(os[n - 1])
        }
    }
}

/// The problems are sorted ascending by number.
pub open spec fn sorted_by_number(ps: Seq<AopsProblem>) -> bool {
    forall|i: int, j: int| 0 <= i < j < ps.len() ==> ps[i].number <= ps[j].number
}

/// The first index at or after `i` whose problem's number exceeds `n`, or
/// the length when none does.
pub open spec fn insert_pos_from(ps: Seq<AopsProblem>, n: u32, i: int) -> int
    decreases ps.len() - i,
{
    if i < 0 || i >= ps.len() {
        ps.len() as int
    } else if ps[i].number > n {
        i
    } else {
        insert_pos_from(ps, n, i + 1)
    }
}

/// Where a problem numbered `n` lands in `ps`: just after the last problem
/// whose number is at most `n`.
pub open spec fn insert_pos(ps: Seq<AopsProblem>, n: u32) -> int {
    insert_pos_from(ps, n, 0)
}

proof fn lemma_insert_multiset<A>(s: Seq<A>, i: int, a: A)
    requires
        0 <= i <= s.len(),
    ensures
        s.insert(i, a).to_multiset() == s.to_multiset().insert(a),
{
    broadcast use vstd::seq_lib::group_to_multiset_ensures;

    let s1 = s.subrange(0, i);
    let s2 = s.subrange(i, s.len() as int);
    assert(s =~= s1 + s2);
    lemma_multiset_commutative(s1, s2);
    lemma_multiset_commutative(s1.push(a), s2);
    assert(s.insert(i, a).to_multiset() =~= s.to_multiset().insert(a));
}

/// Appends `p` to a group kept sorted by number: the new problem lands after
/// every problem with the same or a smaller number, as the original's
/// append-then-stable-sort did.
pub fn insert_sorted(ps: &mut Vec<AopsProblem>, p: AopsProblem)
    requires
        sorted_by_number(old(ps)@),
    ensures
        final(ps)@ == old(ps)@.insert(insert_pos(old(ps)@, p.number), p),
        sorted_by_number(final(ps)@),
        final(ps)@.len() == old(ps)@.len() + 1,
        final(ps)@.map_values(|q: AopsProblem| q@).to_multiset() == old(ps)@.map_values(
            |q: AopsProblem| q@,
        ).to_multiset().insert(p@),
{
    let ghost old_ps = ps@;
    let mut j: usize = 0;
    while j < ps.len() && ps[j].number <= p.number
        invariant
            j <= ps@.len(),
            ps@ == old_ps,
            forall|k: int| 0 <= k < j ==> ps@[k].number <= p.number,
            insert_pos(old_ps, p.number) == insert_pos_from(old_ps, p.number, j as int),
        decreases ps@.len() - j,
    {
        proof {
            assert(insert_pos_from(old_ps, p.number, j as int) == insert_pos_from(
                old_ps,
                p.number,
                j as int + 1,
            ));
        }
        j += 1;
    }
    proof {
        assert(insert_pos_from(old_ps, p.number, j as int) == j as int);
    }
    let ghost pv = p@;
    ps.insert(j, p);
    proof {
        old_ps.insert_ensures(j as int, p);
        assert(sorted_by_number(ps@)) by {
            assert forall|x: int, y: int| 0 <= x < y < ps@.len() implies ps@[x].number
                <= ps@[y].number by {
                if y < j {
                } else if x == j || y == j {
                    if j < old_ps.len() {
                        assert(old_ps[j as int].number > p.number);
                    }
                } else if x > j {
                    assert(ps@[x] == old_ps[x - 1]);
                    assert(ps@[y] == old_ps[y - 1]);
                } else {
                    assert(ps@[x] == old_ps[x]);
                    assert(ps@[y] == old_ps[y - 1]);
                    if j < old_ps.len() {
                        assert(old_ps[j as int].number > p.number);
                    }
                }
            }
        }
        let f = |q: AopsProblem| q@;
        assert(ps@.map_values(f) =~= old_ps.map_values(f).insert(j as int, pv));
        lemma_insert_multiset(old_ps.map_values(f), j as int, pv);
    }
}

/// Consumes one year's fetch outcomes in the given order: each page is
/// extracted and appended to the group, which stays sorted by number; the
/// first outcome with a non-empty stylesheet list seeds the year's list; the
/// first failure aborts with the offending (year, number) attached.
#[verifier::loop_isolation(false)]
pub fn collect_year(year: u32, outcomes: Vec<FetchOutcome>) -> (r: Result<
    (AopsContent, Vec<String>),
    HarvestError,
>)
    ensures
        r is Ok <==> first_failure(outcomes@) is None,
        r matches Err(e) ==> first_failure(outcomes@) matches Some(k) && e.year == year
            && e.number == outcomes@[k].number && (outcomes@[k].page matches Err(m) ==> e.kind
            == HarvestFailure::Transport(m)) && (outcomes@[k].page matches Ok(h) ==> spec_parse(
            h@,
        ) matches Err(x) && e.kind == HarvestFailure::Extract(x)),
        r matches Ok(c) ==> c.0.year == year && sorted_by_number(c.0.problems@)
            && c.0.problems@.map_values(|q: AopsProblem| q@).to_multiset() == problem_views(
            year,
            outcomes@,
        ).to_multiset() && c.1@.map_values(|s: String| s@) == first_styles_upto(
            outcomes@,
            outcomes@.len() as int,
        ),
{
    broadcast use vstd::seq_lib::group_to_multiset_ensures;

    let ghost os = outcomes@;
    let mut content = AopsContent::new(year);
    let mut styles: Vec<String> = Vec::new();
    let mut rest = outcomes;
    let total: usize = rest.len();
    let mut i: usize = 0;
    while rest.len() > 0
        invariant
            total == os.len(),
            i + rest@.len() == os.len(),
            rest@ == os.skip(i as int),
            first_failure(os) == first_failure_from(os, i as int),
            content.year == year,
            sorted_by_number(content.problems@),
            content.problems@.map_values(|q: AopsProblem| q@).to_multiset() == problem_views(
                year,
                os.take(i as int),
            ).to_multiset(),
            styles@.map_values(|s: String| s@) == first_styles_upto(os, i as int),
        decreases rest@.len(),
    {
        let o = rest.remove(0);
        proof {
            assert(o == os[i as int]);
            assert(rest@ =~= os.skip(i as int + 1));
        }
        let number = o.number;
        match o.page {
            Err(m) => {
                proof {
                    assert(outcome_fails(os[i as int]));
                    assert(first_failure_from(os, i as int) == Some(i as int));
                }
                return Err(
                    HarvestError { year, number, kind: HarvestFailure::Transport(m) },
                );
            },
            Ok(html) => {
                match parse_html(year, number, html.as_str()) {
                    Err(x) => {
                        proof {
                            assert(outcome_fails(os[i as int]));
                            assert(first_failure_from(os, i as int) == Some(i as int));
                        }
                        return Err(
                            HarvestError { year, number, kind: HarvestFailure::Extract(x) },
                        );
                    },
                    Ok(p) => {
                        proof {
                            assert(!outcome_fails(os[i as int]));
                            assert(first_failure_from(os, i as int) == first_failure_from(
                                os,
                                i as int + 1,
                            ));
                            assert(p@ == problem_view_of(year, os[i as int]));
                        }
                        insert_sorted(&mut content.problems, p);
                        proof {
                            let f = |o: FetchOutcome| problem_view_of(year, o);
                            assert(os.take(i as int + 1).drop_last() =~= os.take(i as int));
                            assert(os.take(i as int + 1).map_values(f) =~= os.take(
                                i as int,
                            ).map_values(f).push(problem_view_of(year, os[i as int])));
                        }
                        if styles.len() == 0 {
                            proof {
                                assert(styles@.map_values(|s: String| s@).len() == 0);
                            }
                            styles = get_stylesheets(html.as_str());
                        }
                        proof {
                            assert(cur_styles(os[i as int]) == spec_styles(html@));
                            assert(styles@.map_values(|s: String| s@) == first_styles_upto(
                                os,
                                i as int + 1,
                            ));
                        }
                    },
                }
            },
        }
        i += 1;
    }
    proof {
        assert(i == os.len());
        assert(os.take(i as int) =~= os);
        assert(first_failure_from(os, i as int) is None);
    }
    Ok((content, styles))
}

/// The first failed year at or after `i`.
pub open spec fn first_err_from(
    ys: Seq<Result<(AopsContent, Vec<String>), HarvestError>>,
    i: int,
) -> Option<int>
    decreases ys.len() - i,
{
    if i < 0 || i >= ys.len() {
        None
    } else if ys[i] is Err {
        Some(i)
    } else {
        first_err_from(ys, i + 1)
    }
}

/// The first failed year of the sequence, if any.
pub open spec fn first_err(ys: Seq<Result<(AopsContent, Vec<String>), HarvestError>>) -> Option<
    int,
> {
    first_err_from(ys, 0)
}

/// The overall stylesheet list after the first `n` years: the first year
/// whose list is non-empty wins and is never replaced.
pub open spec fn first_year_styles_upto(
    ys: Seq<Result<(AopsContent, Vec<String>), HarvestError>>,
    n: int,
) -> Seq<String>
    decreases n,
{
    if n <= 0 {
        Seq::empty()
    } else {
        let prev = first_year_styles_upto(ys, n - 1);
        if prev.len() > 0 {
            prev
        } else if ys[n - 1] is Ok {
            ys[n - 1]->Ok_0.1@
        } else {
            Seq::empty()
        }
    }
}

/// Consumes the per-year results in the order the years were supplied: the
/// first failure aborts the run; otherwise the groups are kept in that order
/// and the first non-empty stylesheet list seeds the aggregate, whose mode
/// flag starts on the problem view.
#[verifier::loop_isolation(false)]
pub fn assemble(
    challenge: Challenge,
    years: Vec<Result<(AopsContent, Vec<String>), HarvestError>>,
) -> (r: Result<AopsScrapeResult, HarvestError>)
    ensures
        r is Ok <==> first_err(years@) is None,
        r matches Err(e) ==> first_err(years@) matches Some(k) && years@[k] == Err::<
            (AopsContent, Vec<String>),
            HarvestError,
        >(e),
        r matches Ok(res) ==> res.challenge == challenge && res.is_solution == false
            && res.contents@.len() == years@.len() && (forall|k: int|
            0 <= k < years@.len() ==> (#[trigger] years@[k]) is Ok && res.contents@[k]
                == years@[k]->Ok_0.0) && res.styles@ == first_year_styles_upto(
            years@,
            years@.len() as int,
        ),
{
    let ghost ys = years@;
    let mut contents: Vec<AopsContent> = Vec::new();
    let mut styles: Vec<String> = Vec::new();
    let mut rest = years;
    let total: usize = rest.len();
    let mut i: usize = 0;
    while rest.len() > 0
        invariant
            total == ys.len(),
            i + rest@.len() == ys.len(),
            rest@ == ys.skip(i as int),
            first_err(ys) == first_err_from(ys, i as int),
            contents@.len() == i,
            forall|k: int|
                0 <= k < i ==> (#[trigger] ys[k]) is Ok && contents@[k] == ys[k]->Ok_0.0,
            styles@ == first_year_styles_upto(ys, i as int),
        decreases rest@.len(),
    {
        let y = rest.remove(0);
        proof {
            assert(y == ys[i as int]);
            assert(rest@ =~= ys.skip(i as int + 1));
        }
        match y {
            Err(e) => {
                proof {
                    assert(first_err_from(ys, i as int) == Some(i as int));
                }
                return Err(e);
            },
            Ok((content, style_data)) => {
                proof {
                    assert(first_err_from(ys, i as int) == first_err_from(ys, i as int + 1));
                }
                if styles.len() == 0 {
                    styles = style_data;
                }
                contents.push(content);
            },
        }
        i += 1;
    }
    proof {
        assert(i == ys.len());
        assert(first_err_from(ys, i as int) is None);
    }
    Ok(AopsScrapeResult { styles, challenge, is_solution: false, contents })
}

/// The problem values are sorted ascending by number.
pub open spec fn views_sorted(ps: Seq<ProblemView>) -> bool {
    forall|i: int, j: int| 0 <= i < j < ps.len() ==> ps[i].number <= ps[j].number
}

/// No two problem values share a number.
pub open spec fn views_distinct(ps: Seq<ProblemView>) -> bool {
    forall|i: int, j: int| 0 <= i < j < ps.len() ==> ps[i].number != ps[j].number
}

/// Law: a year's final order does not depend on the order its results were
/// consumed: two sequences that hold the same problems, are both sorted
/// ascending by number, and have pairwise-distinct numbers, are identical.
pub proof fn lemma_sorted_order_unique(a: Seq<ProblemView>, b: Seq<ProblemView>)
    requires
        views_sorted(a),
        views_sorted(b),
        views_distinct(a),
        a.to_multiset() == b.to_multiset(),
    ensures
        a == b,
    decreases a.len(),
{
    broadcast use vstd::seq_lib::group_to_multiset_ensures;

    assert(a.len() == a.to_multiset().len());
    assert(b.len() == b.to_multiset().len());
    if a.len() == 0 {
        assert(a =~= b);
    } else {
        assert(a.contains(a[0]));
        assert(b.to_multiset().count(a[0]) > 0);
        assert(b.contains(a[0]));
        let j = choose|j: int| 0 <= j < b.len() && b[j] == a[0];
        assert(b.contains(b[0]));
        assert(a.to_multiset().count(b[0]) > 0);
        assert(a.contains(b[0]));
        let i = choose|i: int| 0 <= i < a.len() && a[i] == b[0];
        assert(a[0].number <= a[i].number);
        assert(b[0].number <= b[j].number);
        assert(a[0].number == b[0].number);
        assert(i == 0);
        assert(a[0] == b[0]);
        let at = a.remove(0);
        let bt = b.remove(0);
        assert(at.to_multiset() == a.to_multiset().remove(a[0]));
        assert(bt.to_multiset() == b.to_multiset().remove(b[0]));
        assert(at.to_multiset() == bt.to_multiset());
        assert(views_sorted(at)) by {
            assert(forall|x: int| 0 <= x < at.len() ==> at[x] == a[x + 1]);
        }
        assert(views_sorted(bt)) by {
            assert(forall|x: int| 0 <= x < bt.len() ==> bt[x] == b[x + 1]);
        }
        assert(views_distinct(at)) by {
            assert(forall|x: int| 0 <= x < at.len() ==> at[x] == a[x + 1]);
        }
        lemma_sorted_order_unique(at, bt);
        assert(a =~= b) by {
            assert(forall|x: int| 1 <= x < a.len() ==> a[x] == at[x - 1] && b[x] == bt[x - 1]);
        }
    }
}

/// Law: when the outcomes' numbers are strictly ascending (the per-number
/// fan-out order) and a group holds exactly their extracted problems sorted
/// by number — what `collect_year` ensures on success — the group is the
/// extraction of each page in exactly that order: sorted, complete, without
/// duplicates, whatever order the results were consumed in.
pub proof fn lemma_collect_year_exact(year: u32, os: Seq<FetchOutcome>, ps: Seq<AopsProblem>)
    requires
        forall|i: int, j: int| 0 <= i < j < os.len() ==> os[i].number < os[j].number,
        sorted_by_number(ps),
        ps.map_values(|q: AopsProblem| q@).to_multiset() == problem_views(year, os).to_multiset(),
    ensures
        ps.map_values(|q: AopsProblem| q@) == problem_views(year, os),
{
    let a = problem_views(year, os);
    let b = ps.map_values(|q: AopsProblem| q@);
    assert forall|i: int, j: int| 0 <= i < j < a.len() implies a[i].number < a[j].number by {
        assert(a[i] == problem_view_of(year, os[i]));
        assert(a[j] == problem_view_of(year, os[j]));
    }
    assert forall|i: int, j: int| 0 <= i < j < b.len() implies b[i].number <= b[j].number by {
        assert(b[i] == ps[i]@);
        assert(b[j] == ps[j]@);
    }
    lemma_sorted_order_unique(a, b);
}

/// Law: when no outcome among the first `n` contributes any stylesheet, the
/// list stays empty.
pub proof fn lemma_styles_all_empty(os: Seq<FetchOutcome>, n: int)
    requires
        forall|k: int| 0 <= k < n ==> cur_styles(os[k]).len() == 0,
    ensures
        first_styles_upto(os, n) == Seq::<Seq<char>>::empty(),
    decreases n,
{
    if n > 0 {
        lemma_styles_all_empty(os, n - 1);
        assert(first_styles_upto(os, n) =~= Seq::<Seq<char>>::empty());
    }
}

/// Law: the stylesheet list is exactly the contribution of the first
/// outcome whose page yields a non-empty list — with ascending fan-out
/// numbers, the lowest such problem number.
pub proof fn lemma_styles_first_nonempty(os: Seq<FetchOutcome>, k: int, n: int)
    requires
        0 <= k < n,
        forall|j: int| 0 <= j < k ==> cur_styles(os[j]).len() == 0,
        cur_styles(os[k]).len() > 0,
    ensures
        first_styles_upto(os, n) == cur_styles(os[k]),
{
    lemma_styles_all_empty(os, k);
    assert(first_styles_upto(os, k + 1) == cur_styles(os[k]));
    lemma_styles_frozen(os, k + 1, n);
}

/// Law: within a year, once an outcome has contributed a non-empty
/// stylesheet list, no later outcome's list replaces it.
pub proof fn lemma_styles_frozen(os: Seq<FetchOutcome>, n: int, m: int)
    requires
        0 <= n <= m,
        first_styles_upto(os, n).len() > 0,
    ensures
        first_styles_upto(os, m) == first_styles_upto(os, n),
    decreases m - n,
{
    if m > n {
        lemma_styles_frozen(os, n, m - 1);
    }
}

/// Law: across years, once a year has contributed a non-empty stylesheet
/// list, no later year's list replaces it.
pub proof fn lemma_year_styles_frozen(
    ys: Seq<Result<(AopsContent, Vec<String>), HarvestError>>,
    n: int,
    m: int,
)
    requires
        0 <= n <= m,
        first_year_styles_upto(ys, n).len() > 0,
    ensures
        first_year_styles_upto(ys, m) == first_year_styles_upto(ys, n),
    decreases m - n,
{
    if m > n {
        lemma_year_styles_frozen(ys, n, m - 1);
    }
}

} // verus!
