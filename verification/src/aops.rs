//! Public data model of the harvest: the competition variant, one extracted
//! problem, the per-year groups, and the aggregated result, with the URL
//! builder and a plain renderer of the aggregate.

use crate::text::{dec_str, u32_string};
use vstd::prelude::*;
use vstd::string::StringExecFns;

pub use crate::extract::{get_stylesheets, parse_html, parse_problem, ExtractError};
pub use crate::harvest::{
    assemble, collect_year, insert_sorted, FetchOutcome, HarvestError, HarvestFailure,
};

verus! {

/// The competition variant; it determines the page URL's middle segment.
#[derive(Debug, Clone, Copy, PartialEq, Eq, Structural)]
pub enum Challenge {
    Amc8,
    Amc10a,
    Amc10b,
}

/// The canonical tag of a variant, as it appears in page URLs.
pub open spec fn challenge_tag(c: Challenge) -> Seq<char> {
    match c {
        Challenge::Amc8 => "AMC_8"@,
        Challenge::Amc10a => "AMC_10A"@,
        Challenge::Amc10b => "AMC_10B"@,
    }
}

impl Challenge {
    /// The canonical tag of this variant ("AMC_8", "AMC_10A" or "AMC_10B").
    pub fn tag(&self) -> (r: &'static str)
        ensures
            r@ == challenge_tag(*self),
    {
        match self {
            Challenge::Amc8 => "AMC_8",
            Challenge::Amc10a => "AMC_10A",
            Challenge::Amc10b => "AMC_10B",
        }
    }
}

impl Default for Challenge {
    /// The default variant.
    fn default() -> (r: Self)
        ensures
            r == Challenge::Amc8,
    {
        Challenge::Amc8
    }
}

/// One extracted problem: the page's problem fragment and solution fragment.
#[derive(Debug)]
pub struct AopsProblem {
    pub year: u32,
    pub number: u32,
    pub problem: String,
    pub solution: String,
}

/// The mathematical value of an [`AopsProblem`]: the same fields with the
/// fragments as character sequences.
pub struct ProblemView {
    pub year: u32,
    pub number: u32,
    pub problem: Seq<char>,
    pub solution: Seq<char>,
}

impl View for AopsProblem {
    type V = ProblemView;

    open spec fn view(&self) -> ProblemView {
        ProblemView {
            year: self.year,
            number: self.number,
            problem: self.problem@,
            solution: self.solution@,
        }
    }
}

/// One year's group of problems, kept sorted ascending by number.
#[derive(Debug)]
pub struct AopsContent {
    pub year: u32,
    pub problems: Vec<AopsProblem>,
}

impl AopsContent {
    /// An empty group for `year`.
    pub fn new(year: u32) -> (r: Self)
        ensures
            r.year == year,
            r.problems@.len() == 0,
    {
        Self { year, problems: Vec::new() }
    }
}

/// An inclusive range of years or of problem numbers.
#[derive(Debug, Clone, Copy, PartialEq, Eq, Structural)]
pub struct Span {
    pub lo: u32,
    pub hi: u32,
}

/// The harvest request: which years, which problem numbers, which variant.
#[derive(Debug)]
pub struct AopsScraper {
    pub years: Vec<Span>,
    pub problems: Span,
    pub challenge: Challenge,
}

/// The values of the inclusive range `lo..=hi`, ascending; empty when
/// `lo > hi` or the bounds fall outside `u32`.
pub open spec fn span_seq(lo: int, hi: int) -> Seq<u32>
    decreases hi - lo + 1,
{
    if lo > hi || lo < 0 || hi > u32::MAX {
        Seq::empty()
    } else {
        seq![lo as u32] + span_seq(lo + 1, hi)
    }
}

/// The values of each span in order, concatenated: overlapping spans are
/// not deduplicated.
pub open spec fn flatten_spans(ss: Seq<Span>) -> Seq<u32>
    decreases ss.len(),
{
    if ss.len() == 0 {
        Seq::empty()
    } else {
        flatten_spans(ss.drop_last()) + span_seq(ss.last().lo as int, ss.last().hi as int)
    }
}

/// The values of one span, ascending.
pub fn span_values(s: Span) -> (r: Vec<u32>)
    ensures
        r@ == span_seq(s.lo as int, s.hi as int),
{
    let mut v: Vec<u32> = Vec::new();
    if s.lo > s.hi {
        return v;
    }
    let mut y = s.lo;
    while y < s.hi
        invariant
            s.lo <= y <= s.hi,
            span_seq(s.lo as int, s.hi as int) =~= v@ + span_seq(y as int, s.hi as int),
        decreases s.hi - y,
    {
        v.push(y);
        proof {
            assert(span_seq(y as int, s.hi as int) == seq![y] + span_seq(y as int + 1, s.hi as int));
            assert(span_seq(s.lo as int, s.hi as int) =~= v@ + span_seq(y as int + 1, s.hi as int));
        }
        y = y + 1;
    }
    v.push(y);
    proof {
        assert(span_seq(y as int + 1, s.hi as int) =~= Seq::<u32>::empty());
        assert(span_seq(y as int, s.hi as int) =~= seq![y]);
    }
    v
}

impl AopsScraper {
    /// The years to harvest: the requested spans flattened in order, with
    /// no deduplication of overlapping spans.
    pub fn year_list(&self) -> (r: Vec<u32>)
        ensures
            r@ == flatten_spans(self.years@),
    {
        let mut r: Vec<u32> = Vec::new();
        let mut i: usize = 0;
        while i < self.years.len()
            invariant
                i <= self.years@.len(),
                r@ == flatten_spans(self.years@.take(i as int)),
            decreases self.years@.len() - i,
        {
            let mut vs = span_values(self.years[i]);
            r.append(&mut vs);
            proof {
                assert(self.years@.take(i as int + 1).drop_last() =~= self.years@.take(i as int));
                assert(self.years@.take(i as int + 1).last() == self.years@[i as int]);
            }
            i += 1;
        }
        proof {
            assert(self.years@.take(self.years@.len() as int) =~= self.years@);
        }
        r
    }

    /// The problem numbers to harvest in each year, ascending.
    pub fn problem_list(&self) -> (r: Vec<u32>)
        ensures
            r@ == span_seq(self.problems.lo as int, self.problems.hi as int),
    {
        span_values(self.problems)
    }
}

/// The canonical page URL of one problem.
pub open spec fn url_of(year: u32, problem: u32, c: Challenge) -> Seq<char> {
    "https://artofproblemsolving.com/wiki/index.php/"@ + dec_str(year as nat) + "_"@
        + challenge_tag(c) + "_Problems/Problem_"@ + dec_str(problem as nat)
}

/// Builds the canonical page URL of one problem. Pure and total.
pub fn get_url(year: u32, problem: u32, challenge: Challenge) -> (r: String)
    ensures
        r@ == url_of(year, problem, challenge),
{
    let mut s = "https://artofproblemsolving.com/wiki/index.php/".to_owned();
    let y = u32_string(year);
    s.append(y.as_str());
    s.append("_");
    s.append(challenge.tag());
    s.append("_Problems/Problem_");
    let p = u32_string(problem);
    s.append(p.as_str());
    proof {
        assert(s@ =~= url_of(year, problem, challenge));
    }
    s
}

/// The aggregated harvest: the stylesheet list, the variant, the mode flag
/// (solution view or problem view) and the per-year groups in year order.
#[derive(Debug)]
pub struct AopsScrapeResult {
    pub styles: Vec<String>,
    pub challenge: Challenge,
    pub is_solution: bool,
    pub contents: Vec<AopsContent>,
}

/// One stylesheet link line per collected reference, in order.
pub open spec fn render_styles(ss: Seq<String>) -> Seq<char>
    decreases ss.len(),
{
    if ss.len() == 0 {
        Seq::empty()
    } else {
        render_styles(ss.drop_last()) + "<link rel=\"stylesheet\" href=\""@ + ss.last()@
            + "\">\n"@
    }
}

/// The fragments of one year's problems in their stored order, each followed
/// by a line break; the mode flag picks the fragment.
pub open spec fn render_problems(ps: Seq<AopsProblem>, is_solution: bool) -> Seq<char>
    decreases ps.len(),
{
    if ps.len() == 0 {
        Seq::empty()
    } else {
        render_problems(ps.drop_last(), is_solution) + (if is_solution {
            ps.last().solution@
        } else {
            ps.last().problem@
        }) + "\n"@
    }
}

/// Every year's problems in year order.
pub open spec fn render_contents(cs: Seq<AopsContent>, is_solution: bool) -> Seq<char>
    decreases cs.len(),
{
    if cs.len() == 0 {
        Seq::empty()
    } else {
        render_contents(cs.drop_last(), is_solution) + render_problems(
            cs.last().problems@,
            is_solution,
        )
    }
}

/// The document rendered from an aggregate: the stylesheet links, then the
/// fragments of the active view.
pub open spec fn render_of(r: AopsScrapeResult) -> Seq<char> {
    render_styles(r.styles@) + render_contents(r.contents@, r.is_solution)
}

impl AopsScrapeResult {
    /// Renders the aggregate as one document in the active view.
    pub fn render(&self) -> (r: String)
        ensures
            r@ == render_of(*self),
    {
        let mut s = String::new();
        let mut i: usize = 0;
        while i < self.styles.len()
            invariant
                i <= self.styles@.len(),
                s@ == render_styles(self.styles@.take(i as int)),
            decreases self.styles@.len() - i,
        {
            let ghost prev = s@;
            s.append("<link rel=\"stylesheet\" href=\"");
            s.append(self.styles[i].as_str());
            s.append("\">\n");
            proof {
                assert(self.styles@.take(i as int + 1).drop_last() =~= self.styles@.take(i as int));
                assert(self.styles@.take(i as int + 1).last() == self.styles@[i as int]);
                assert(s@ =~= render_styles(self.styles@.take(i as int + 1)));
            }
            i += 1;
        }
        proof {
            assert(self.styles@.take(self.styles@.len() as int) =~= self.styles@);
        }
        let mut k: usize = 0;
        while k < self.contents.len()
            invariant
                k <= self.contents@.len(),
                s@ == render_styles(self.styles@) + render_contents(
                    self.contents@.take(k as int),
                    self.is_solution,
                ),
            decreases self.contents@.len() - k,
        {
            let group = &self.contents[k];
            let mut j: usize = 0;
            while j < group.problems.len()
                invariant
                    j <= group.problems@.len(),
                    k < self.contents@.len(),
                    group == &self.contents[k as int],
                    s@ == render_styles(self.styles@) + render_contents(
                        self.contents@.take(k as int),
                        self.is_solution,
                    ) + render_problems(group.problems@.take(j as int), self.is_solution),
                decreases group.problems@.len() - j,
            {
                let ghost prev = s@;
                if self.is_solution {
                    s.append(group.problems[j].solution.as_str());
                } else {
                    s.append(group.problems[j].problem.as_str());
                }
                s.append("\n");
                proof {
                    assert(group.problems@.take(j as int + 1).drop_last() =~= group.problems@.take(
                        j as int,
                    ));
                    assert(group.problems@.take(j as int + 1).last() == group.problems@[j as int]);
                    assert(s@ =~= render_styles(self.styles@) + render_contents(
                        self.contents@.take(k as int),
                        self.is_solution,
                    ) + render_problems(group.problems@.take(j as int + 1), self.is_solution));
                }
                j += 1;
            }
            proof {
                assert(group.problems@.take(group.problems@.len() as int) =~= group.problems@);
                assert(self.contents@.take(k as int + 1).drop_last() =~= self.contents@.take(
                    k as int,
                ));
                assert(self.contents@.take(k as int + 1).last() == self.contents@[k as int]);
            }
            k += 1;
        }
        proof {
            assert(self.contents@.take(self.contents@.len() as int) =~= self.contents@);
        }
        s
    }

    /// Switches the aggregate to the problem view and renders it.
    pub fn generate_problem(&mut self) -> (r: String)
        ensures
            final(self).is_solution == false,
            final(self).styles == old(self).styles,
            final(self).challenge == old(self).challenge,
            final(self).contents == old(self).contents,
            r@ == render_of(*final(self)),
    {
        self.is_solution = false;
        self.render()
    }

    /// Switches the aggregate to the solution view and renders it.
    pub fn generate_solution(&mut self) -> (r: String)
        ensures
            final(self).is_solution == true,
            final(self).styles == old(self).styles,
            final(self).challenge == old(self).challenge,
            final(self).contents == old(self).contents,
            r@ == render_of(*final(self)),
    {
        self.is_solution = true;
        self.render()
    }
}

} // verus!
