//! The outside code this library builds on: the HTML tree, the CSS
//! selectors, the pattern engine, and one function of the standard library.
//!
//! Everything in this module is taken on trust: the types are opaque, the
//! uninterpreted functions name what the outside code holds or computes, and the
//! contracts of the functions below are not proved. The rest of the library is
//! proved against them.

use vstd::prelude::*;
use crate::text::{marker_literal, marker_pattern, normalize_markers};

verus! {

#[verifier::external_type_specification]
#[verifier::external_body]
pub struct ExHtml(scraper::Html);

#[verifier::external_type_specification]
#[verifier::external_body]
pub struct ExNode(scraper::Node);

#[verifier::external_type_specification]
#[verifier::external_body]
pub struct ExSelector(scraper::Selector);

#[verifier::external_type_specification]
#[verifier::external_body]
pub struct ExNodeId(ego_tree::NodeId);

#[verifier::external_type_specification]
#[verifier::external_body]
pub struct ExRegex(regex::Regex);

/// One slot of a tree's node arena: the links of a node and its value. The
/// value of an element holds, beside its name and attributes, the caches
/// that matching a selector fills. Two values count as equal where `==` of
/// `scraper::Node` finds them equal.
pub struct NodeSlot {
    pub parent: Option<nat>,
    pub prev_sibling: Option<nat>,
    pub next_sibling: Option<nat>,
    pub children: Option<(nat, nat)>,
    pub value: scraper::Node,
}

/// The node arena of a document's tree, in index order. Detached nodes keep
/// their slots.
pub uninterp spec fn html_nodes(html: scraper::Html) -> Seq<NodeSlot>;

/// The arena index that a node id stands for.
pub uninterp spec fn node_index(id: ego_tree::NodeId) -> nat;

/// The selectors of a selector group, each as CSS text.
pub uninterp spec fn selector_rules(selector: scraper::Selector) -> Seq<Seq<char>>;

/// The pattern text of a pattern that `Regex::new` compiled, with no flags
/// set: what `Regex::as_str` returns for it.
pub uninterp spec fn regex_pattern(re: regex::Regex) -> Seq<char>;

/// The arena that parsing a text as an HTML document builds.
pub uninterp spec fn parsed_nodes(markup: Seq<char>) -> Seq<NodeSlot>;

/// The selector group that a CSS text parses to, if it parses.
pub uninterp spec fn compiled_rules(css: Seq<char>) -> Option<Seq<Seq<char>>>;

/// Whether a pattern text compiles.
pub uninterp spec fn regex_compiles(pattern: Seq<char>) -> bool;

/// The index of the root element: the first child of the document node that
/// is an element, if there is one.
pub uninterp spec fn root_index(nodes: Seq<NodeSlot>) -> Option<nat>;

/// The descendants of the element at `scope` that match the selector group,
/// in document order; `None` where `scope` is not an element of the tree.
pub uninterp spec fn selected_below(nodes: Seq<NodeSlot>, scope: nat, rules: Seq<Seq<char>>)
    -> Option<Seq<nat>>;

/// The elements with a parent that match the selector group, in index order.
pub uninterp spec fn selected_anywhere(nodes: Seq<NodeSlot>, rules: Seq<Seq<char>>) -> Seq<nat>;

/// The markup of the element at `at`, itself included; `None` where `at` is
/// not an element of the tree.
pub uninterp spec fn outer_markup(nodes: Seq<NodeSlot>, at: nat) -> Option<Seq<char>>;

/// The arena after the node at `at` has been detached from its parent, as
/// `ego_tree::NodeMut::detach` goes about it: the node loses its parent and
/// its siblings, the siblings are linked to each other, and the parent's
/// first or last child moves on where the node was that child. A node
/// without a parent, or an index the arena does not hold, changes nothing.
pub open spec fn detached(nodes: Seq<NodeSlot>, at: nat) -> Seq<NodeSlot> {
    if at >= nodes.len() {
        nodes
    } else {
        match nodes[at as int].parent {
            None => nodes,
            Some(parent) => {
                let prev = nodes[at as int].prev_sibling;
                let next = nodes[at as int].next_sibling;
                let cut = nodes.update(
                    at as int,
                    NodeSlot {
                        parent: None,
                        prev_sibling: None,
                        next_sibling: None,
                        ..nodes[at as int]
                    },
                );
                let left = match prev {
                    Some(p) => cut.update(
                        p as int,
                        NodeSlot { next_sibling: next, ..cut[p as int] },
                    ),
                    None => cut,
                };
                let right = match next {
                    Some(n) => left.update(
                        n as int,
                        NodeSlot { prev_sibling: prev, ..left[n as int] },
                    ),
                    None => left,
                };
                let children = match right[parent as int].children {
                    Some((first, last)) => if first == last {
                        None
                    } else if first == at {
                        Some((next.unwrap(), last))
                    } else if last == at {
                        Some((first, prev.unwrap()))
                    } else {
                        Some((first, last))
                    },
                    None => None,
                };
                right.update(parent as int, NodeSlot { children, ..right[parent as int] })
            },
        }
    }
}

/// The arena indices of a sequence of node ids.
pub open spec fn node_indices(ids: Seq<ego_tree::NodeId>) -> Seq<nat> {
    ids.map_values(|id: ego_tree::NodeId| node_index(id))
}

/// Parses a text as an HTML document, as `scraper::Html::parse_document` does.
/// Claimed: the tree built depends on the text alone, and it has a root
/// element. The tree builder puts the `html` element into the document
/// before anything else goes into the tree, at the latest when the input
/// ends, and never takes it out again.
#[verifier::external_body]
pub(crate) fn parse_document(markup: &str) -> (html: scraper::Html)
    ensures
        html_nodes(html) == parsed_nodes(markup@),
        root_index(html_nodes(html)) is Some,
{
    scraper::Html::parse_document(markup)
}

/// Compares the trees of two documents with `==` of `ego_tree::Tree`.
/// Claimed: the trees are equal exactly when their arenas are, slot by slot.
#[verifier::external_body]
pub(crate) fn same_tree(left: &scraper::Html, right: &scraper::Html) -> (same: bool)
    ensures
        same == (html_nodes(*left) == html_nodes(*right)),
{
    left.tree == right.tree
}

/// Parses a CSS selector group with `scraper::Selector::parse`.
/// Claimed: whether the text parses, and to what, depends on the text alone.
#[verifier::external_body]
pub(crate) fn parse_selector(css: &str) -> (selector: Option<scraper::Selector>)
    ensures
        match selector {
            Some(s) => compiled_rules(css@) == Some(selector_rules(s)),
            None => compiled_rules(css@) is None,
        },
{
    scraper::Selector::parse(css).ok()
}

/// Finds the root element as `scraper::Html::root_element` does, the first
/// child of the document node that `ElementRef::wrap` accepts, but answers
/// `None` where that function would panic.
/// Claimed beside that: what is found is an element of the tree, so it has a
/// markup.
#[verifier::external_body]
pub(crate) fn root_element_id(html: &scraper::Html) -> (id: Option<ego_tree::NodeId>)
    ensures
        match id {
            Some(i) => root_index(html_nodes(*html)) == Some(node_index(i)) && outer_markup(
                html_nodes(*html),
                node_index(i),
            ) is Some,
            None => root_index(html_nodes(*html)) is None,
        },
{
    html.tree.root().children().find_map(scraper::ElementRef::wrap).map(|root| root.id())
}

/// Collects what `scraper::ElementRef::select` yields for the element `scope`.
/// The matching runs on a copy of the document: it fills caches inside the
/// elements, which `==` compares, and the document itself has to stay as it
/// is. The ids of a copy are those of the document.
/// Claimed: the matches depend on the tree and the selector group alone.
#[verifier::external_body]
pub(crate) fn select_below(
    html: &scraper::Html,
    scope: ego_tree::NodeId,
    selector: &scraper::Selector,
) -> (ids: Option<Vec<ego_tree::NodeId>>)
    ensures
        match ids {
            Some(v) => selected_below(html_nodes(*html), node_index(scope), selector_rules(*selector))
                == Some(node_indices(v@)),
            None => selected_below(html_nodes(*html), node_index(scope), selector_rules(*selector))
                is None,
        },
{
    let copy = html.clone();
    let scope = copy.tree.get(scope).and_then(scraper::ElementRef::wrap)?;
    Some(scope.select(selector).map(|found| found.id()).collect())
}

/// Collects what `scraper::Html::select` yields. The matching runs on a copy
/// of the document, as in `select_below`.
/// Claimed: the matches depend on the tree and the selector group alone.
#[verifier::external_body]
pub(crate) fn select_anywhere(html: &scraper::Html, selector: &scraper::Selector) -> (ids: Vec<
    ego_tree::NodeId,
>)
    ensures
        node_indices(ids@) == selected_anywhere(html_nodes(*html), selector_rules(*selector)),
{
    let copy = html.clone();
    copy.select(selector).map(|found| found.id()).collect()
}

/// Serializes an element with `scraper::ElementRef::html`.
/// Claimed: the markup depends on the tree and the element alone.
#[verifier::external_body]
pub(crate) fn outer_html(html: &scraper::Html, at: ego_tree::NodeId) -> (markup: Option<String>)
    ensures
        match markup {
            Some(m) => outer_markup(html_nodes(*html), node_index(at)) == Some(m@),
            None => outer_markup(html_nodes(*html), node_index(at)) is None,
        },
{
    html.tree.get(at).and_then(scraper::ElementRef::wrap).map(|element| element.html())
}

/// Detaches a node from its parent with `ego_tree::NodeMut::detach`; an id
/// the tree does not hold changes nothing.
/// Claimed: the links change as `detached` says, step by step as in the
/// source, and no value changes.
#[verifier::external_body]
pub(crate) fn detach(html: &mut scraper::Html, at: ego_tree::NodeId)
    ensures
        html_nodes(*final(html)) == detached(html_nodes(*old(html)), node_index(at)),
{
    if let Some(mut node) = html.tree.get_mut(at) {
        node.detach();
    }
}

/// Compiles a pattern with `regex::Regex::new`.
/// Claimed: whether the text compiles depends on the text alone, and the
/// compiled pattern remembers it.
#[verifier::external_body]
pub(crate) fn compile_pattern(pattern: &str) -> (re: Option<regex::Regex>)
    ensures
        re is Some == regex_compiles(pattern@),
        re matches Some(r) ==> regex_pattern(r) == pattern@,
{
    regex::Regex::new(pattern).ok()
}

/// Replaces every match of the button-marker pattern with
/// `regex::Regex::replace_all`.
///
/// Claimed, for that one pattern, compiled by `compile_pattern` with no
/// flags set, and that one replacement: matches are found leftmost
/// first and do not overlap; a match starts at an occurrence of the marker
/// word, runs over every following character that is not a double quote and
/// ends with the first double quote; an occurrence that no double quote
/// follows matches nothing; the replacement holds no `$` and is copied as it
/// is.
#[verifier::external_body]
pub(crate) fn replace_markers(re: &regex::Regex, text: &str, replacement: &str) -> (out: String)
    requires
        regex_pattern(*re) == marker_pattern(),
        replacement@ == marker_literal(),
    ensures
        out@ == normalize_markers(text@),
{
    re.replace_all(text, replacement).into_owned()
}

/// Builds a string from characters by collecting them, as `String::from_iter`
/// does. Claimed: the string holds those characters in that order.
#[verifier::external_body]
pub(crate) fn string_of(chars: &Vec<char>) -> (out: String)
    ensures
        out@ == chars@,
{
    chars.iter().collect()
}

} // verus!
