//! Trusted boundary to the `scraper` crate. Every function here is an
//! `external_body` wrapper around one DOM query or edit; what each returns is
//! a deterministic function of the markup and selector strings handed in, so
//! the results are given names (uninterpreted spec functions) that the
//! extraction contracts compose.

use scraper::{ElementRef, Html, Selector};
use vstd::prelude::*;

verus! {

/// The serialized outer markup of the first element matching `sel` in the
/// document `doc`, first in the order the parser created the nodes (document
/// order, except where the parser reparents misnested markup); `None` when
/// nothing matches (or `sel` is not a valid selector).
pub uninterp spec fn doc_first_html(doc: Seq<char>, sel: Seq<char>) -> Option<Seq<char>>;

/// The value of attribute `attr` (empty when absent) of every element
/// matching `sel` in the document `doc`, in the order the parser created the
/// nodes (document order, except where the parser reparents misnested
/// markup).
pub uninterp spec fn doc_attr_values(doc: Seq<char>, sel: Seq<char>, attr: Seq<char>) -> Seq<
    Seq<char>,
>;

/// Whether the fragment `frag` holds at least `nth + 1` elements matching
/// `sel`, counted in node-creation order.
pub uninterp spec fn frag_nth_found(frag: Seq<char>, sel: Seq<char>, nth: nat) -> bool;

/// The fragment `frag` reserialized after detaching the first element
/// matching `sel`; empty when the detached node was the fragment's root
/// element itself.
pub uninterp spec fn frag_first_removed(frag: Seq<char>, sel: Seq<char>) -> Seq<char>;

/// The layout around the anchor: take the `nth` element matching `sel` in
/// `frag`, ascend to its parent (the section wrapper) and grandparent; the
/// triple is (number of the grandparent's children, index of the wrapper
/// among them, index of the "see also" wrapper among them if `see_sel`
/// matches and its wrapper is one of them). `None` when an ascent fails.
pub uninterp spec fn frag_layout(
    frag: Seq<char>,
    sel: Seq<char>,
    nth: nat,
    see_sel: Seq<char>,
) -> Option<(usize, usize, Option<usize>)>;

/// The fragment `frag` reserialized after detaching, among the children of
/// the grandparent of the `nth` element matching `sel`, those whose index is
/// listed in `kill`; empty when the fragment's root element was itself
/// detached.
pub uninterp spec fn frag_pruned(
    frag: Seq<char>,
    sel: Seq<char>,
    nth: nat,
    kill: Seq<usize>,
) -> Seq<char>;

/// Positions of the solution-section wrapper and of the optional "see also"
/// wrapper among the children of their shared parent.
pub struct AnchorLayout {
    pub child_count: usize,
    pub anchor_pos: usize,
    pub see_also_pos: Option<usize>,
}

/// Relies on `Html::parse_document`, `Html::select` and
/// `ElementRef::html`: the serialized markup of the first match of `sel`.
#[verifier::external_body]
pub(crate) fn doc_select_first(doc: &str, sel: &str) -> (r: Option<String>)
    ensures
        r is Some <==> doc_first_html(doc@, sel@) is Some,
        r matches Some(s) ==> doc_first_html(doc@, sel@) == Some(s@),
{
    let d = Html::parse_document(doc);
    let s = match Selector::parse(sel) {
        Ok(s) => s,
        Err(_) => return None,
    };
    let r = d.select(&s).next().map(|e| e.html());
    r
}

/// Relies on `Html::parse_document`, `Html::select` and
/// `ElementRef::attr`: the `attr` value of each match of `sel`, in document
/// order, the empty string standing for an absent attribute.
#[verifier::external_body]
pub(crate) fn doc_attr_list(doc: &str, sel: &str, attr: &str) -> (r: Vec<String>)
    ensures
        r@.len() == doc_attr_values(doc@, sel@, attr@).len(),
        forall|i: int| 0 <= i < r@.len() ==> r@[i]@ == doc_attr_values(doc@, sel@, attr@)[i],
{
    let d = Html::parse_document(doc);
    let s = match Selector::parse(sel) {
        Ok(s) => s,
        Err(_) => return Vec::new(),
    };
    let r = d.select(&s).map(|e| e.attr(attr).unwrap_or("").to_string()).collect();
    r
}

/// Relies on `Html::parse_fragment` and `Html::select`: whether the
/// fragment has an `nth` (0-indexed) match of `sel`.
#[verifier::external_body]
pub(crate) fn frag_select_exists(frag: &str, sel: &str, nth: usize) -> (r: bool)
    ensures
        r == frag_nth_found(frag@, sel@, nth as nat),
{
    let d = Html::parse_fragment(frag);
    match Selector::parse(sel) {
        Ok(s) => d.select(&s).nth(nth).is_some(),
        Err(_) => false,
    }
}

/// Relies on `Html::parse_fragment`, `ego_tree::NodeMut::detach` and
/// `ElementRef::inner_html`: the fragment with the first match of `sel`
/// detached, reserialized; the empty string when the detached node was the
/// fragment's root element itself (`Html::root_element` would panic there).
#[verifier::external_body]
pub(crate) fn frag_remove_first(frag: &str, sel: &str) -> (r: String)
    ensures
        r@ == frag_first_removed(frag@, sel@),
{
    let mut d = Html::parse_fragment(frag);
    let id = Selector::parse(sel).ok().and_then(|s| d.select(&s).next().map(|e| e.id()));
    if let Some(id) = id {
        if let Some(mut n) = d.tree.get_mut(id) {
            n.detach();
        }
    }
    let root = d.tree.root().children().find(|c| c.value().is_element());
    root.and_then(ElementRef::wrap).map_or(String::new(), |e| e.inner_html())
}

/// Relies on `Html::parse_fragment`, `Html::select` and
/// `ego_tree::NodeRef::{parent, children, id}`: ascends from the `nth` match
/// of `sel` to its parent and grandparent and reports where that parent, and
/// the parent of the first match of `see_sel`, stand among the grandparent's
/// children.
#[verifier::external_body]
pub(crate) fn frag_anchor_layout(frag: &str, sel: &str, nth: usize, see_sel: &str) -> (r: Option<
    AnchorLayout,
>)
    requires
        frag_nth_found(frag@, sel@, nth as nat),
    ensures
        r is Some <==> frag_layout(frag@, sel@, nth as nat, see_sel@) is Some,
        r matches Some(l) ==> frag_layout(frag@, sel@, nth as nat, see_sel@) == Some(
            (l.child_count, l.anchor_pos, l.see_also_pos),
        ),
        r matches Some(l) ==> l.anchor_pos < l.child_count && (l.see_also_pos matches Some(p)
            ==> p < l.child_count),
{
    let d = Html::parse_fragment(frag);
    let wrapper = d.select(&Selector::parse(sel).ok()?).nth(nth)?.parent()?;
    let common = wrapper.parent()?;
    let see = Selector::parse(see_sel).ok().and_then(|s| d.select(&s).next()).and_then(
        |e| e.parent(),
    );
    let mut l = AnchorLayout { child_count: 0, anchor_pos: 0, see_also_pos: None };
    for (i, ch) in common.children().enumerate() {
        if ch.id() == wrapper.id() { l.anchor_pos = i; }
        if see.map_or(false, |s| s.id() == ch.id()) { l.see_also_pos = Some(i); }
        l.child_count = i + 1;
    }
    Some(l)
}

/// Relies on `Html::parse_fragment`, `ego_tree::NodeMut::detach` and
/// `ElementRef::inner_html`: detaches the children of the grandparent of the
/// `nth` match of `sel` whose indices stand in `kill`, and reserializes; the
/// empty string when the fragment's root element was itself detached
/// (`Html::root_element` would panic there).
#[verifier::external_body]
pub(crate) fn frag_prune(frag: &str, sel: &str, nth: usize, kill: &Vec<usize>) -> (r: String)
    ensures
        r@ == frag_pruned(frag@, sel@, nth as nat, kill@),
{
    let mut d = Html::parse_fragment(frag);
    let ids: Vec<_> = Selector::parse(sel).ok().and_then(
        |s| d.select(&s).nth(nth)?.parent()?.parent(),
    ).map_or(Vec::new(), |c| c.children().map(|c| c.id()).collect());
    for k in kill {
        if let Some(mut n) = ids.get(*k).and_then(|id| d.tree.get_mut(*id)) { n.detach(); }
    }
    d.tree.root().children().find(|c| c.value().is_element()).and_then(ElementRef::wrap).map_or(
        String::new(), |e| e.inner_html())
}

} // verus!
