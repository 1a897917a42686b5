//! The section extractor: locates the solution anchor inside a page's main
//! content container by a ranked list of strategies, ascends to the anchor's
//! wrapper and its parent, and splits that parent's children into a problem
//! fragment and a solution fragment.

use crate::aops::{AopsProblem, ProblemView};
use crate::dom::{
    doc_attr_list, doc_attr_values, doc_first_html, doc_select_first, frag_anchor_layout,
    frag_first_removed, frag_layout, frag_nth_found, frag_pruned, frag_prune, frag_remove_first,
    frag_select_exists,
};
use crate::text::{ends_with, str_ends_with};
use vstd::prelude::*;

verus! {

/// How a structural extraction failed: the main content container was absent,
/// no solution anchor matched any strategy, or an ascent from the anchor
/// found no parent.
#[derive(Debug, Clone, Copy, PartialEq, Eq, Structural)]
pub enum ExtractError {
    ContainerNotFound,
    SolutionAnchorNotFound,
    NoParent,
}

/// The ranked anchor strategies: each is a selector and the 0-indexed match
/// to take. The known identifiers come first; the last entry is the
/// positional fallback, the second generic section-heading marker.
pub open spec fn strategy_list() -> Seq<(Seq<char>, nat)> {
    seq![
        ("#Solution"@, 0 as nat),
        ("#Solution_1"@, 0 as nat),
        ("#Solution_1_\\(Unrigorous\\)"@, 0 as nat),
        ("span.mw-headline"@, 1 as nat),
    ]
}

/// The first strategy at or after `i` that matches in `frag`.
pub open spec fn first_hit_from(frag: Seq<char>, i: int) -> Option<int>
    decreases strategy_list().len() - i,
{
    if i < 0 || i >= strategy_list().len() {
        None
    } else if frag_nth_found(frag, strategy_list()[i].0, strategy_list()[i].1) {
        Some(i)
    } else {
        first_hit_from(frag, i + 1)
    }
}

/// The strategy the extractor settles on for `frag`, if any.
pub open spec fn chosen_strategy(frag: Seq<char>) -> Option<int> {
    first_hit_from(frag, 0)
}

/// The ranked strategies as runtime values, in priority order.
pub fn anchor_strategies() -> (r: Vec<(&'static str, usize)>)
    ensures
        r@.len() == strategy_list().len(),
        forall|i: int|
            0 <= i < r@.len() ==> (#[trigger] r@[i]).0@ == strategy_list()[i].0 && r@[i].1 as nat
                == strategy_list()[i].1,
{
    let mut v: Vec<(&'static str, usize)> = Vec::new();
    v.push(("#Solution", 0));
    v.push(("#Solution_1", 0));
    v.push(("#Solution_1_\\(Unrigorous\\)", 0));
    v.push(("span.mw-headline", 1));
    v
}

/// Tries the strategies in priority order and returns the first that
/// matches in `frag`.
pub fn find_anchor(frag: &str) -> (r: Option<(&'static str, usize)>)
    ensures
        r is Some <==> chosen_strategy(frag@) is Some,
        r matches Some(p) ==> chosen_strategy(frag@) matches Some(i) && p.0@
            == strategy_list()[i].0 && p.1 as nat == strategy_list()[i].1 && frag_nth_found(
            frag@,
            p.0@,
            p.1 as nat,
        ),
{
    let strats = anchor_strategies();
    let mut k: usize = 0;
    while k < strats.len()
        invariant
            k <= strats.len(),
            strats@.len() == strategy_list().len(),
            forall|i: int|
                0 <= i < strats@.len() ==> (#[trigger] strats@[i]).0@ == strategy_list()[i].0
                    && strats@[i].1 as nat == strategy_list()[i].1,
            chosen_strategy(frag@) == first_hit_from(frag@, k as int),
        decreases strats@.len() - k,
    {
        let (sel, nth) = strats[k];
        if frag_select_exists(frag, sel, nth) {
            assert(first_hit_from(frag@, k as int) == Some(k as int));
            return Some((sel, nth));
        }
        assert(first_hit_from(frag@, k as int) == first_hit_from(frag@, k as int + 1));
        k += 1;
    }
    assert(first_hit_from(frag@, k as int) is None);
    None
}

/// `Option<usize>` as a ghost `Option<int>`.
pub open spec fn opt_int(o: Option<usize>) -> Option<int> {
    match o {
        Some(p) => Some(p as int),
        None => None,
    }
}

/// Whether the child at index `i` is marked for deletion. `ph` is the
/// placeholder index (1 when a table of contents preceded the content, else
/// 0), `sol` the index of the solution wrapper, `see` that of the "see also"
/// wrapper if present. The problem pass drops the placeholder and everything
/// from the solution wrapper on; the solution pass drops everything before
/// the solution wrapper; both drop everything from the "see also" wrapper on.
pub open spec fn mark_spec(i: int, ph: int, sol: int, see: Option<int>, is_solution: bool) -> bool {
    if is_solution {
        i < sol || (see matches Some(s) && sol <= s <= i)
    } else {
        i == ph || sol <= i || (see matches Some(s) && s <= i)
    }
}

/// The marked indices below `n`, ascending.
pub open spec fn kill_list(n: nat, ph: int, sol: int, see: Option<int>, is_solution: bool) -> Seq<
    usize,
>
    decreases n,
{
    if n == 0 {
        Seq::empty()
    } else {
        kill_list((n - 1) as nat, ph, sol, see, is_solution) + if mark_spec(
            n - 1,
            ph,
            sol,
            see,
            is_solution,
        ) {
            seq![(n - 1) as usize]
        } else {
            Seq::empty()
        }
    }
}

/// The deletion state entering index `i` of the walk (before that index's
/// own events are applied).
pub open spec fn del_inv(i: int, sol: int, see: Option<int>, is_solution: bool) -> bool {
    if is_solution {
        i <= sol || (see matches Some(s) && sol <= s < i)
    } else {
        sol < i || (see matches Some(s) && s < i)
    }
}

/// Walks the `child_count` children in order, maintaining the deletion
/// state exactly as the partition procedure prescribes, and returns the
/// indices to delete, ascending.
pub fn compute_kill(
    child_count: usize,
    ph: usize,
    anchor_pos: usize,
    see_pos: Option<usize>,
    is_solution: bool,
) -> (r: Vec<usize>)
    ensures
        r@ == kill_list(
            child_count as nat,
            ph as int,
            anchor_pos as int,
            opt_int(see_pos),
            is_solution,
        ),
{
    let mut kill: Vec<usize> = Vec::new();
    let mut deleting = is_solution;
    let mut i: usize = 0;
    while i < child_count
        invariant
            i <= child_count,
            deleting == del_inv(i as int, anchor_pos as int, opt_int(see_pos), is_solution),
            kill@ == kill_list(i as nat, ph as int, anchor_pos as int, opt_int(see_pos), is_solution),
        decreases child_count - i,
    {
        let ghost prev = kill@;
        let placeholder_hit = !is_solution && i == ph;
        if i == anchor_pos {
            deleting = !is_solution;
        }
        if let Some(p) = see_pos {
            if i == p {
                deleting = true;
            }
        }
        if placeholder_hit || deleting {
            kill.push(i);
            proof {
                assert(kill@ =~= prev + seq![i as usize]);
            }
        } else {
            proof {
                assert(kill@ =~= prev + Seq::<usize>::empty());
            }
        }
        i += 1;
    }
    kill
}

/// The outcome of one partition pass over the fragment `frag`: the strategy
/// choice, the ascent to the wrapper's parent, and the pruned serialization.
pub open spec fn spec_partition(frag: Seq<char>, has_toc: bool, is_solution: bool) -> Result<
    Seq<char>,
    ExtractError,
> {
    match chosen_strategy(frag) {
        None => Err(ExtractError::SolutionAnchorNotFound),
        Some(i) => {
            let sel = strategy_list()[i].0;
            let nth = strategy_list()[i].1;
            match frag_layout(frag, sel, nth, "#See_Also"@) {
                None => Err(ExtractError::NoParent),
                Some(l) => Ok(
                    frag_pruned(
                        frag,
                        sel,
                        nth,
                        kill_list(
                            l.0 as nat,
                            if has_toc {
                                1
                            } else {
                                0
                            },
                            l.1 as int,
                            opt_int(l.2),
                            is_solution,
                        ),
                    ),
                ),
            }
        },
    }
}

/// One partition pass: locate the solution anchor, ascend to its wrapper's
/// parent, and serialize that tree with the marked children removed.
pub fn parse_problem(frag: &str, has_toc: bool, is_solution: bool) -> (r: Result<
    String,
    ExtractError,
>)
    ensures
        r is Ok <==> spec_partition(frag@, has_toc, is_solution) is Ok,
        r matches Ok(s) ==> spec_partition(frag@, has_toc, is_solution) == Ok::<
            _,
            ExtractError,
        >(s@),
        r matches Err(e) ==> spec_partition(frag@, has_toc, is_solution) == Err::<Seq<char>, _>(e),
{
    match find_anchor(frag) {
        None => Err(ExtractError::SolutionAnchorNotFound),
        Some((sel, nth)) => {
            match frag_anchor_layout(frag, sel, nth, "#See_Also") {
                None => Err(ExtractError::NoParent),
                Some(l) => {
                    let ph: usize = if has_toc {
                        1
                    } else {
                        0
                    };
                    let kill = compute_kill(
                        l.child_count,
                        ph,
                        l.anchor_pos,
                        l.see_also_pos,
                        is_solution,
                    );
                    Ok(frag_prune(frag, sel, nth, &kill))
                },
            }
        },
    }
}

/// The container step and the table-of-contents step: the main content
/// container's markup, reserialized without the table of contents when one
/// was present, with the flag saying whether one was.
pub open spec fn spec_fragment(doc: Seq<char>) -> Option<(Seq<char>, bool)> {
    match doc_first_html(doc, "div.mw-parser-output"@) {
        None => None,
        Some(container) => {
            if frag_nth_found(container, "div#toc"@, 0) {
                Some((frag_first_removed(container, "div#toc"@), true))
            } else {
                Some((container, false))
            }
        },
    }
}

/// The whole extraction for one page: the problem pass and the solution pass
/// on the same fragment, the problem pass's error surfacing first.
pub open spec fn spec_parse(doc: Seq<char>) -> Result<(Seq<char>, Seq<char>), ExtractError> {
    match spec_fragment(doc) {
        None => Err(ExtractError::ContainerNotFound),
        Some((frag, has_toc)) => match spec_partition(frag, has_toc, false) {
            Err(e) => Err(e),
            Ok(p) => match spec_partition(frag, has_toc, true) {
                Err(e) => Err(e),
                Ok(s) => Ok((p, s)),
            },
        },
    }
}

/// Extracts the problem fragment and the solution fragment of one page.
pub fn parse_html(year: u32, number: u32, html: &str) -> (r: Result<AopsProblem, ExtractError>)
    ensures
        r is Ok <==> spec_parse(html@) is Ok,
        r matches Ok(p) ==> spec_parse(html@) matches Ok(pair) && p@ == (ProblemView {
            year,
            number,
            problem: pair.0,
            solution: pair.1,
        }),
        r matches Err(e) ==> spec_parse(html@) == Err::<(Seq<char>, Seq<char>), _>(e),
{
    let container = match doc_select_first(html, "div.mw-parser-output") {
        None => {
            return Err(ExtractError::ContainerNotFound);
        },
        Some(c) => c,
    };
    let has_toc = frag_select_exists(container.as_str(), "div#toc", 0);
    let frag = if has_toc {
        frag_remove_first(container.as_str(), "div#toc")
    } else {
        container
    };
    let problem = match parse_problem(frag.as_str(), has_toc, false) {
        Err(e) => {
            return Err(e);
        },
        Ok(p) => p,
    };
    let solution = match parse_problem(frag.as_str(), has_toc, true) {
        Err(e) => {
            return Err(e);
        },
        Ok(s) => s,
    };
    Ok(AopsProblem { year, number, problem, solution })
}

/// The hrefs of the stylesheet links of `doc` whose reference ends in "css",
/// in the order the parser created the link nodes.
pub open spec fn css_filtered(hs: Seq<Seq<char>>) -> Seq<Seq<char>>
    decreases hs.len(),
{
    if hs.len() == 0 {
        Seq::empty()
    } else {
        css_filtered(hs.drop_last()) + if ends_with(hs.last(), "css"@) {
            seq![hs.last()]
        } else {
            Seq::empty()
        }
    }
}

/// The stylesheet list of `doc`.
pub open spec fn spec_styles(doc: Seq<char>) -> Seq<Seq<char>> {
    css_filtered(doc_attr_values(doc, "link[rel=stylesheet]"@, "href"@))
}

/// Collects the external stylesheet references of a page: every stylesheet
/// link whose href ends in "css", in the order the parser created the link
/// nodes (document order for well-formed heads). Never fails.
pub fn get_stylesheets(html: &str) -> (r: Vec<String>)
    ensures
        r@.map_values(|s: String| s@) == spec_styles(html@),
{
    let hrefs = doc_attr_list(html, "link[rel=stylesheet]", "href");
    let ghost hv = doc_attr_values(html@, "link[rel=stylesheet]"@, "href"@);
    let mut out: Vec<String> = Vec::new();
    let mut i: usize = 0;
    while i < hrefs.len()
        invariant
            i <= hrefs.len(),
            hrefs@.len() == hv.len(),
            forall|j: int| 0 <= j < hrefs@.len() ==> hrefs@[j]@ == hv[j],
            out@.map_values(|s: String| s@) == css_filtered(hv.take(i as int)),
        decreases hrefs@.len() - i,
    {
        let ghost prev = out@.map_values(|s: String| s@);
        let h = &hrefs[i];
        proof {
            assert(hv.take(i as int + 1).drop_last() =~= hv.take(i as int));
            assert(hv.take(i as int + 1).last() == hv[i as int]);
        }
        if str_ends_with(h.as_str(), "css") {
            out.push(h.clone());
            proof {
                assert(out@.map_values(|s: String| s@) =~= prev + seq![hv[i as int]]);
            }
        } else {
            proof {
                assert(out@.map_values(|s: String| s@) =~= prev + Seq::<Seq<char>>::empty());
            }
        }
        i += 1;
    }
    proof {
        assert(hv.take(hrefs@.len() as int) =~= hv);
    }
    out
}

/// Law: on a page whose "see also" wrapper (if present) does not precede the
/// solution wrapper, and whose placeholder index lies before the solution
/// wrapper, the two passes exactly partition the children: a child before
/// the solution wrapper (other than the placeholder) survives exactly the
/// problem pass, a child from the solution wrapper up to the "see also"
/// wrapper survives exactly the solution pass, and the placeholder and
/// everything from the "see also" wrapper on survive neither pass.
pub proof fn lemma_partition_exact(n: int, ph: int, sol: int, see: Option<int>, i: int)
    requires
        0 <= i < n,
        0 <= ph < sol,
        see matches Some(s) ==> sol <= s,
    ensures
        !mark_spec(i, ph, sol, see, false) <==> (i != ph && i < sol && (see matches Some(s) ==> i
            < s)),
        !mark_spec(i, ph, sol, see, true) <==> (sol <= i && (see matches Some(s) ==> i < s)),
        !(!mark_spec(i, ph, sol, see, false) && !mark_spec(i, ph, sol, see, true)),
        i == ph ==> mark_spec(i, ph, sol, see, false) && mark_spec(i, ph, sol, see, true),
        (see matches Some(s) && s <= i) ==> mark_spec(i, ph, sol, see, false) && mark_spec(
            i,
            ph,
            sol,
            see,
            true,
        ),
{
}

/// Law: extraction is a function of the markup alone, so re-running it on
/// the same markup yields byte-identical fragments.
pub proof fn lemma_extract_deterministic(
    html: Seq<char>,
    a: Result<(Seq<char>, Seq<char>), ExtractError>,
    b: Result<(Seq<char>, Seq<char>), ExtractError>,
)
    requires
        a == spec_parse(html),
        b == spec_parse(html),
    ensures
        a == b,
{
}

/// Law: when no recognized solution-anchor identifier matches but the
/// fragment has at least two generic section-heading markers, the positional
/// fallback is chosen: the second marker becomes the solution anchor.
pub proof fn lemma_fallback_strategy(frag: Seq<char>)
    requires
        !frag_nth_found(frag, "#Solution"@, 0),
        !frag_nth_found(frag, "#Solution_1"@, 0),
        !frag_nth_found(frag, "#Solution_1_\\(Unrigorous\\)"@, 0),
        frag_nth_found(frag, "span.mw-headline"@, 1),
    ensures
        chosen_strategy(frag) == Some(3int),
        strategy_list()[3].0 == "span.mw-headline"@,
        strategy_list()[3].1 == 1,
{
    assert(first_hit_from(frag, 0) == first_hit_from(frag, 1));
    assert(first_hit_from(frag, 1) == first_hit_from(frag, 2));
    assert(first_hit_from(frag, 2) == first_hit_from(frag, 3));
    assert(first_hit_from(frag, 3) == Some(3int));
}

} // verus!
