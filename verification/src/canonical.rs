//! The canonical form of a fetched page: what is left of it once everything
//! that changes from one fetch to the next without the content changing has
//! been taken out.

use vstd::prelude::*;
use crate::error::{Error, ErrorKind, ErrorView};
use crate::outside::{
    compiled_rules, compile_pattern, detach, detached, html_nodes, node_index, node_indices,
    outer_html, outer_markup, parse_document, parse_selector, parsed_nodes, regex_compiles,
    regex_pattern, replace_markers, root_element_id, root_index, same_tree, select_anywhere,
    select_below, selected_anywhere, selected_below, selector_rules, NodeSlot,
};
use crate::text::{
    marker_literal, marker_pattern, normalize_markers, strip, strip_token, texts,
};

verus! {

/// A selector group in compiled form: its selectors, each as CSS text.
pub type Rules = Seq<Seq<char>>;

/// The selector of the content region of a page.
pub open spec fn default_anchor() -> Seq<char> {
    "#page-content"@
}

/// The selectors of the elements whose content never counts as a change:
/// the dates of new forum posts, the counts of unread items and the boxes to
/// tick off an activity.
pub open spec fn default_noise() -> Seq<Seq<char>> {
    seq![".snap-media-meta > time"@, "span.unread"@, "span.actions"@]
}

/// The compiled forms of a list of selector texts, if all of them parse.
pub open spec fn compiled_all(css: Seq<Seq<char>>) -> Option<Seq<Rules>> {
    if forall|i: int| 0 <= i < css.len() ==> (#[trigger] compiled_rules(css[i])) is Some {
        Some(css.map_values(|text: Seq<char>| compiled_rules(text).unwrap()))
    } else {
        None
    }
}

/// The compiled anchor and noise list of a configuration, if the marker
/// pattern compiles and every selector parses.
pub open spec fn compiled_config(anchor_css: Seq<char>, noise_css: Seq<Seq<char>>) -> Option<
    (Rules, Seq<Rules>),
> {
    if regex_compiles(marker_pattern()) && compiled_rules(anchor_css) is Some && compiled_all(
        noise_css,
    ) is Some {
        Some((compiled_rules(anchor_css).unwrap(), compiled_all(noise_css).unwrap()))
    } else {
        None
    }
}

/// The markup of the root element of a tree, if it has one.
pub open spec fn serialized(nodes: Seq<NodeSlot>) -> Option<Seq<char>> {
    match root_index(nodes) {
        Some(root) => outer_markup(nodes, root),
        None => None,
    }
}

/// The content of the anchor of a page: the markup of the first element
/// below the root that the anchor selector matches, the element itself
/// included. `None` where nothing matches.
pub open spec fn anchor_content(nodes: Seq<NodeSlot>, anchor: Rules) -> Option<Seq<char>> {
    match root_index(nodes) {
        None => None,
        Some(root) => match selected_below(nodes, root, anchor) {
            None => None,
            Some(found) => if found.len() == 0 {
                None
            } else {
                outer_markup(nodes, found[0])
            },
        },
    }
}

/// The elements of a tree that the selectors of a noise list match, selector
/// by selector, all of them looked up in the tree as it stands.
pub open spec fn noise_targets(nodes: Seq<NodeSlot>, noise: Seq<Rules>) -> Seq<nat>
    decreases noise.len(),
{
    if noise.len() == 0 {
        Seq::empty()
    } else {
        noise_targets(nodes, noise.drop_last()) + selected_anywhere(nodes, noise.last())
    }
}

/// A tree after the given nodes have been detached, one after the other.
pub open spec fn detach_all(nodes: Seq<NodeSlot>, targets: Seq<nat>) -> Seq<NodeSlot>
    decreases targets.len(),
{
    if targets.len() == 0 {
        nodes
    } else {
        detached(detach_all(nodes, targets.drop_last()), targets.last())
    }
}

/// A tree without the elements that a noise list matches.
pub open spec fn without_noise(nodes: Seq<NodeSlot>, noise: Seq<Rules>) -> Seq<NodeSlot> {
    detach_all(nodes, noise_targets(nodes, noise))
}

/// The markup that the canonical form of a content is parsed from: the
/// content parsed, cleared of noise and written out again.
pub open spec fn cleaned_markup(content: Seq<char>, noise: Seq<Rules>) -> Option<Seq<char>> {
    serialized(without_noise(parsed_nodes(content), noise))
}

/// Whether a tree is a fixed point of writing out and parsing: it has a
/// root element, and the markup of that element parses to the tree itself.
pub open spec fn settled(nodes: Seq<NodeSlot>) -> bool {
    match serialized(nodes) {
        Some(written) => parsed_nodes(written) == nodes,
        None => false,
    }
}

/// The text of a raw page after the session token has been removed and the
/// button markers have been rewritten.
pub open spec fn stable_text(raw: Seq<char>, token: Seq<char>) -> Seq<char> {
    normalize_markers(strip_token(raw, token))
}

/// The cause of the failure of a page without an anchor.
pub open spec fn no_anchor_cause() -> Seq<char> {
    "no element matched the content selector"@
}

/// The cause of the failure of a content of which the noise list leaves no
/// root element.
pub open spec fn no_root_cause() -> Seq<char> {
    "no root element was left to write out"@
}

/// The failure of a page that has no canonical form, for the given cause.
pub open spec fn invalid_response(cause: Seq<char>) -> ErrorView {
    ErrorView { kind: ErrorKind::InvalidResponse, cause: Some(cause) }
}

/// The canonical form of a stable text, or why it has none: the tree that
/// the anchor, cleared of noise and written out, parses to.
pub open spec fn canonical_of_text(text: Seq<char>, anchor: Rules, noise: Seq<Rules>) -> Result<
    Seq<NodeSlot>,
    ErrorView,
> {
    match anchor_content(parsed_nodes(text), anchor) {
        None => Err(invalid_response(no_anchor_cause())),
        Some(content) => match cleaned_markup(content, noise) {
            None => Err(invalid_response(no_root_cause())),
            Some(markup) => Ok(parsed_nodes(markup)),
        },
    }
}

/// The canonical form of a raw page, or why it has none: the page has no
/// anchor, or the noise list leaves no root element.
pub open spec fn canonical_form(
    raw: Seq<char>,
    token: Seq<char>,
    anchor: Rules,
    noise: Seq<Rules>,
) -> Result<Seq<NodeSlot>, ErrorView> {
    canonical_of_text(stable_text(raw, token), anchor, noise)
}

/// Whether a raw page has no canonical form: it has no anchor, or the noise
/// list leaves no root element of its anchor.
pub open spec fn has_no_canonical_form(
    raw: Seq<char>,
    token: Seq<char>,
    anchor: Rules,
    noise: Seq<Rules>,
) -> bool {
    match anchor_content(parsed_nodes(stable_text(raw, token)), anchor) {
        None => true,
        Some(content) => cleaned_markup(content, noise) is None,
    }
}

/// A result that holds a document, as a plain value.
pub open spec fn document_view(found: Result<CanonicalDocument, Error>) -> Result<
    Seq<NodeSlot>,
    ErrorView,
> {
    match found {
        Ok(doc) => Ok(doc@),
        Err(error) => Err(error@),
    }
}

/// A document in canonical form, together with its markup.
pub struct CanonicalDocument {
    tree: scraper::Html,
    markup: String,
}

impl View for CanonicalDocument {
    type V = Seq<NodeSlot>;

    closed spec fn view(&self) -> Seq<NodeSlot> {
        html_nodes(self.tree)
    }
}

impl CanonicalDocument {
    #[verifier::type_invariant]
    spec fn holds_its_markup(&self) -> bool {
        serialized(html_nodes(self.tree)) == Some(self.markup@)
    }

    /// Parses a markup into a document: a page cleared of noise and written
    /// out, or what a snapshot holds. Every markup parses.
    pub fn from_markup(markup: &str) -> (doc: CanonicalDocument)
        ensures
            doc@ == parsed_nodes(markup@),
            serialized(doc@) is Some,
    {
        let tree = parse_document(markup);
        let written = write_root(&tree).unwrap();
        CanonicalDocument { tree, markup: written }
    }

    /// The markup of the root element: what a snapshot of this document holds.
    pub fn markup(&self) -> (text: &str)
        ensures
            serialized(self@) == Some(text@),
    {
        proof {
            use_type_invariant(self);
        }
        self.markup.as_str()
    }

    /// Whether the document is settled: whether its markup parses back to it,
    /// so that a snapshot of it loads as the document itself.
    pub fn is_settled(&self) -> (yes: bool)
        ensures
            yes == settled(self@),
    {
        proof {
            use_type_invariant(self);
        }
        let again = parse_document(self.markup.as_str());
        same_tree(&again, &self.tree)
    }

    /// Whether two documents have equal trees.
    pub fn same_as(&self, other: &CanonicalDocument) -> (same: bool)
        ensures
            same == (self@ == other@),
    {
        same_tree(&self.tree, &other.tree)
    }
}

/// Writes out the root element of a tree, if it has one.
fn write_root(tree: &scraper::Html) -> (markup: Option<String>)
    ensures
        match markup {
            Some(m) => serialized(html_nodes(*tree)) == Some(m@),
            None => serialized(html_nodes(*tree)) is None,
        },
        markup is None <==> root_index(html_nodes(*tree)) is None,
{
    match root_element_id(tree) {
        Some(root) => outer_html(tree, root),
        None => None,
    }
}

/// Extracts the anchor of a page.
fn extract_anchor(page: &scraper::Html, anchor: &scraper::Selector) -> (content: Option<String>)
    ensures
        match content {
            Some(c) => anchor_content(html_nodes(*page), selector_rules(*anchor)) == Some(c@),
            None => anchor_content(html_nodes(*page), selector_rules(*anchor)) is None,
        },
{
    let root = match root_element_id(page) {
        Some(root) => root,
        None => {
            return None;
        },
    };
    let found = match select_below(page, root, anchor) {
        Some(found) => found,
        None => {
            return None;
        },
    };
    if found.len() == 0 {
        return None;
    }
    let first = found[0];
    proof {
        assert(node_indices(found@)[0] == node_index(first));
    }
    outer_html(page, first)
}

/// The matchers of the canonical form, compiled once and read from then on.
pub struct Canonicalizer {
    marker: regex::Regex,
    anchor: scraper::Selector,
    noise: Vec<scraper::Selector>,
}

/// The text of the button-marker pattern.
fn marker_pattern_text() -> (text: &'static str)
    ensures
        text@ == marker_pattern(),
{
    let text = "single_button[^\"]*\"";
    proof {
        reveal_strlit("single_button[^\"]*\"");
        assert(text@ =~= marker_pattern());
    }
    text
}

/// The text that every button marker is rewritten to.
fn marker_literal_text() -> (text: &'static str)
    ensures
        text@ == marker_literal(),
{
    let text = "single_button\"";
    proof {
        reveal_strlit("single_button\"");
        assert(text@ =~= marker_literal());
    }
    text
}

impl Canonicalizer {
    #[verifier::type_invariant]
    spec fn holds_the_marker_pattern(&self) -> bool {
        regex_pattern(self.marker) == marker_pattern()
    }

    /// The compiled anchor selector.
    pub closed spec fn anchor_rules(&self) -> Rules {
        selector_rules(self.anchor)
    }

    /// The compiled noise list.
    pub closed spec fn noise_rules(&self) -> Seq<Rules> {
        self.noise@.map_values(|selector: scraper::Selector| selector_rules(selector))
    }

    /// Compiles the matchers for the given anchor selector and noise list.
    /// `None` where the marker pattern does not compile or a selector does
    /// not parse.
    pub fn with_selectors(anchor_css: &str, noise_css: &Vec<String>) -> (made: Option<
        Canonicalizer,
    >)
        ensures
            match made {
                Some(c) => compiled_config(anchor_css@, texts(noise_css@)) == Some(
                    (c.anchor_rules(), c.noise_rules()),
                ),
                None => compiled_config(anchor_css@, texts(noise_css@)) is None,
            },
    {
        let marker = match compile_pattern(marker_pattern_text()) {
            Some(marker) => marker,
            None => {
                return None;
            },
        };
        let anchor = match parse_selector(anchor_css) {
            Some(anchor) => anchor,
            None => {
                return None;
            },
        };
        let ghost css = texts(noise_css@);
        let mut noise: Vec<scraper::Selector> = Vec::new();
        let mut i: usize = 0;
        while i < noise_css.len()
            invariant
                i <= noise_css.len(),
                css == texts(noise_css@),
                noise.len() == i,
                forall|j: int|
                    0 <= j < i ==> (#[trigger] compiled_rules(css[j])) == Some(
                        selector_rules(noise@[j]),
                    ),
            decreases noise_css.len() - i,
        {
            match parse_selector(noise_css[i].as_str()) {
                Some(selector) => {
                    noise.push(selector);
                },
                None => {
                    proof {
                        assert(compiled_rules(css[i as int]) is None);
                    }
                    return None;
                },
            }
            i += 1;
        }
        let made = Canonicalizer { marker, anchor, noise };
        proof {
            assert(compiled_all(css) is Some);
            assert(compiled_all(css).unwrap() =~= made.noise_rules());
        }
        Some(made)
    }

    /// Compiles the matchers for the content region and the noise list of a
    /// course page.
    pub fn new() -> (made: Option<Canonicalizer>)
        ensures
            match made {
                Some(c) => compiled_config(default_anchor(), default_noise()) == Some(
                    (c.anchor_rules(), c.noise_rules()),
                ),
                None => compiled_config(default_anchor(), default_noise()) is None,
            },
    {
        let mut noise_css: Vec<String> = Vec::new();
        noise_css.push(String::from_str(".snap-media-meta > time"));
        noise_css.push(String::from_str("span.unread"));
        noise_css.push(String::from_str("span.actions"));
        proof {
            assert(texts(noise_css@) =~= default_noise());
        }
        Canonicalizer::with_selectors("#page-content", &noise_css)
    }

    /// Rewrites every button marker of a text to the fixed literal.
    pub fn rewrite_markers(&self, text: &str) -> (out: String)
        ensures
            out@ == normalize_markers(text@),
    {
        proof {
            use_type_invariant(self);
        }
        replace_markers(&self.marker, text, marker_literal_text())
    }

    /// Collects the elements of a tree that the noise list matches.
    fn collect_noise(&self, tree: &scraper::Html) -> (targets: Vec<ego_tree::NodeId>)
        ensures
            node_indices(targets@) == noise_targets(html_nodes(*tree), self.noise_rules()),
    {
        let ghost nodes = html_nodes(*tree);
        let ghost rules = self.noise_rules();
        let mut targets: Vec<ego_tree::NodeId> = Vec::new();
        let mut i: usize = 0;
        proof {
            assert(rules.take(0) =~= Seq::<Rules>::empty());
            assert(node_indices(targets@) =~= Seq::<nat>::empty());
        }
        while i < self.noise.len()
            invariant
                i <= self.noise.len(),
                nodes == html_nodes(*tree),
                rules == self.noise_rules(),
                rules.len() == self.noise.len(),
                node_indices(targets@) == noise_targets(nodes, rules.take(i as int)),
            decreases self.noise.len() - i,
        {
            let found = select_anywhere(tree, &self.noise[i]);
            let ghost before = node_indices(targets@);
            let mut j: usize = 0;
            while j < found.len()
                invariant
                    j <= found.len(),
                    node_indices(targets@) == before + node_indices(found@).take(j as int),
                decreases found.len() - j,
            {
                let ghost so_far = targets@;
                targets.push(found[j]);
                proof {
                    assert(node_indices(so_far.push(found@[j as int])) =~= node_indices(
                        so_far,
                    ).push(node_index(found@[j as int])));
                    assert(before + node_indices(found@).take(j + 1) =~= (before + node_indices(
                        found@,
                    ).take(j as int)).push(node_index(found@[j as int])));
                }
                j += 1;
            }
            proof {
                assert(node_indices(found@).take(j as int) =~= node_indices(found@));
                assert(rules.take(i + 1).drop_last() =~= rules.take(i as int));
                assert(rules.take(i + 1).last() == selector_rules(self.noise@[i as int]));
            }
            i += 1;
        }
        proof {
            assert(rules.take(i as int) =~= rules);
        }
        targets
    }

    /// The text stage: removes the session token from a raw page and
    /// rewrites its button markers.
    pub fn stable_text_of(&self, raw: &str, volatile_token: &str) -> (text: String)
        ensures
            text@ == stable_text(raw@, volatile_token@),
    {
        let stripped = strip(raw, volatile_token);
        self.rewrite_markers(stripped.as_str())
    }

    /// The anchor stage: parses a text as a page and extracts its anchor, the
    /// element itself included. `None` where the page has no anchor.
    pub fn content_of(&self, text: &str) -> (content: Option<String>)
        ensures
            match content {
                Some(c) => anchor_content(parsed_nodes(text@), self.anchor_rules()) == Some(c@),
                None => anchor_content(parsed_nodes(text@), self.anchor_rules()) is None,
            },
    {
        let page = parse_document(text);
        extract_anchor(&page, &self.anchor)
    }

    /// The noise stage: parses a content, detaches every element that the
    /// noise list matches and writes out what is left. `None` where no root
    /// element is left to write out.
    pub fn clear_noise(&self, content: &str) -> (markup: Option<String>)
        ensures
            match markup {
                Some(m) => cleaned_markup(content@, self.noise_rules()) == Some(m@),
                None => cleaned_markup(content@, self.noise_rules()) is None,
            },
    {
        let mut tree = parse_document(content);
        let targets = self.collect_noise(&tree);
        let ghost parsed = html_nodes(tree);
        let ghost wanted = node_indices(targets@);
        let mut k: usize = 0;
        while k < targets.len()
            invariant
                k <= targets.len(),
                wanted == node_indices(targets@),
                html_nodes(tree) == detach_all(parsed, wanted.take(k as int)),
            decreases targets.len() - k,
        {
            detach(&mut tree, targets[k]);
            proof {
                assert(wanted.take(k + 1).drop_last() =~= wanted.take(k as int));
            }
            k += 1;
        }
        proof {
            assert(wanted.take(k as int) =~= wanted);
        }
        write_root(&tree)
    }

    /// Turns a raw page into its canonical form. The session token is removed
    /// from the text and the button markers are rewritten; the anchor is
    /// parsed and cleared of noise; what is left is written out and parsed
    /// afresh. A page has no canonical form exactly when it has no anchor or
    /// the noise list leaves no root element; such a page is an invalid
    /// response, with the cause that the failing stage gives.
    pub fn canonicalize(&self, raw: &str, volatile_token: &str) -> (doc: Result<
        CanonicalDocument,
        Error,
    >)
        ensures
            document_view(doc) == canonical_form(
                raw@,
                volatile_token@,
                self.anchor_rules(),
                self.noise_rules(),
            ),
            doc is Err <==> has_no_canonical_form(
                raw@,
                volatile_token@,
                self.anchor_rules(),
                self.noise_rules(),
            ),
            doc matches Ok(d) ==> serialized(d@) is Some,
    {
        let text = self.stable_text_of(raw, volatile_token);
        let content = match self.content_of(text.as_str()) {
            Some(content) => content,
            None => {
                return Err(
                    Error::caused_by(
                        ErrorKind::InvalidResponse,
                        "no element matched the content selector",
                    ),
                );
            },
        };
        match self.clear_noise(content.as_str()) {
            Some(markup) => Ok(CanonicalDocument::from_markup(markup.as_str())),
            None => Err(
                Error::caused_by(
                    ErrorKind::InvalidResponse,
                    "no root element was left to write out",
                ),
            ),
        }
    }
}

} // verus!
