//! What holds of the library as a whole, proved from the contracts of its
//! parts.

use vstd::prelude::*;
use crate::canonical::{
    anchor_content, canonical_form, cleaned_markup, has_no_canonical_form, serialized, settled,
    stable_text, Canonicalizer, Rules,
};
use crate::error::{ErrorKind, ErrorView};
use crate::outside::{detached, parsed_nodes, NodeSlot};
use crate::run::{bucket, machine_report, ResourceView, RunView};
use crate::snapshot::{
    assessed, checked, classified, kept_in, loaded, snapshot_file_name_text, store_after_check,
    stored_after, Status, Store,
};
use crate::text::{
    decimal, digit_char, find_from, index_of_from, lemma_find_from, marker_literal, marker_word,
    normalize_markers, occurs_at, strip_token,
};

verus! {

/// Whether two texts agree on their first `upto` characters.
pub open spec fn agree_upto(left: Seq<char>, right: Seq<char>, upto: int) -> bool {
    &&& 0 <= upto <= left.len()
    &&& upto <= right.len()
    &&& left.take(upto) == right.take(upto)
}

/// Whether a pattern stands at a position is decided by the text up to the
/// end of the occurrence.
proof fn lemma_occurs_at_agree(
    left: Seq<char>,
    right: Seq<char>,
    pattern: Seq<char>,
    at: int,
    upto: int,
)
    requires
        agree_upto(left, right, upto),
        0 <= at,
        at + pattern.len() <= upto,
    ensures
        occurs_at(left, pattern, at) == occurs_at(right, pattern, at),
{
    let end = at + pattern.len();
    assert(left.subrange(at, end) =~= left.take(upto).subrange(at, end));
    assert(right.subrange(at, end) =~= right.take(upto).subrange(at, end));
}

/// What `index_of_from` finds is the first position at or after `from` that
/// holds the wanted character.
proof fn lemma_index_of_from(text: Seq<char>, wanted: char, from: int)
    requires
        0 <= from,
    ensures
        match index_of_from(text, wanted, from) {
            Some(at) => from <= at < text.len() && text[at] == wanted && forall|j: int|
                from <= j < at ==> text[j] != wanted,
            None => forall|j: int| from <= j < text.len() ==> text[j] != wanted,
        },
    decreases text.len() - from,
{
    if from >= text.len() {
    } else if text[from] == wanted {
    } else {
        lemma_index_of_from(text, wanted, from + 1);
    }
}

/// The first occurrence of a pattern is where an occurrence stands that
/// none comes before.
proof fn lemma_find_from_is(text: Seq<char>, pattern: Seq<char>, at: int)
    requires
        0 <= at,
        occurs_at(text, pattern, at),
        forall|j: int| 0 <= j < at ==> !occurs_at(text, pattern, j),
    ensures
        find_from(text, pattern, 0) == Some(at),
{
    lemma_find_from(text, pattern, 0);
}

/// The first position of a character is where it stands and none stands
/// before, from `from` on.
proof fn lemma_index_of_from_is(text: Seq<char>, wanted: char, from: int, at: int)
    requires
        0 <= from <= at < text.len(),
        text[at] == wanted,
        forall|j: int| from <= j < at ==> text[j] != wanted,
    ensures
        index_of_from(text, wanted, from) == Some(at),
{
    lemma_index_of_from(text, wanted, from);
}

/// The parts of a text, put together with `token` between each two.
pub open spec fn joined(parts: Seq<Seq<char>>, token: Seq<char>) -> Seq<char>
    decreases parts.len(),
{
    if parts.len() == 0 {
        Seq::empty()
    } else if parts.len() == 1 {
        parts[0]
    } else {
        parts[0] + token + joined(parts.skip(1), token)
    }
}

/// Whether the token stands in a text made of these parts only where it was
/// put between them: it is not empty, it does not begin within a part that
/// it follows, and the last part does not hold it.
pub open spec fn set_apart(parts: Seq<Seq<char>>, token: Seq<char>) -> bool {
    &&& token.len() > 0
    &&& parts.len() > 0
    &&& forall|i: int|
        0 <= i < parts.len() - 1 ==> #[trigger] find_from(parts[i] + token, token, 0) == Some(
            parts[i].len() as int,
        )
    &&& find_from(parts.last(), token, 0) is None
}

/// Stripping a token from a text in which it stands only between the parts
/// leaves the parts, put together.
pub proof fn lemma_strip_joined(parts: Seq<Seq<char>>, token: Seq<char>)
    requires
        set_apart(parts, token),
    ensures
        strip_token(joined(parts, token), token) == joined(parts, Seq::empty()),
    decreases parts.len(),
{
    let none = Seq::<char>::empty();
    if parts.len() == 1 {
        assert(parts.last() == parts[0]);
    } else {
        let head = parts[0];
        let rest = parts.skip(1);
        let text = joined(parts, token);
        let cut = head.len() as int;
        let n = token.len() as int;
        assert(rest.last() == parts.last());
        assert forall|i: int| 0 <= i < rest.len() - 1 implies #[trigger] find_from(
            rest[i] + token,
            token,
            0,
        ) == Some(rest[i].len() as int) by {
            assert(rest[i] == parts[i + 1]);
        }
        lemma_strip_joined(rest, token);
        assert(find_from(parts[0] + token, token, 0) == Some(cut));
        lemma_find_from(head + token, token, 0);
        assert(text.take(cut + n) =~= (head + token).take(cut + n));
        assert forall|j: int| 0 <= j < cut implies !occurs_at(text, token, j) by {
            lemma_occurs_at_agree(text, head + token, token, j, cut + n);
        }
        assert(occurs_at(text, token, cut)) by {
            lemma_occurs_at_agree(text, head + token, token, cut, cut + n);
        }
        lemma_find_from_is(text, token, cut);
        assert(text.take(cut) =~= head);
        assert(text.skip(cut + n) =~= joined(rest, token));
        assert(joined(parts, none) =~= head + joined(rest, none));
    }
}

/// Token invariance. Raw pages that are the same once their session tokens
/// have been removed have the same canonical form, or both have none.
pub proof fn token_invariance(
    first: Seq<char>,
    first_token: Seq<char>,
    second: Seq<char>,
    second_token: Seq<char>,
    anchor: Rules,
    noise: Seq<Rules>,
)
    requires
        strip_token(first, first_token) == strip_token(second, second_token),
    ensures
        canonical_form(first, first_token, anchor, noise) == canonical_form(
            second,
            second_token,
            anchor,
            noise,
        ),
{
}

/// Token invariance for pages written around a token. Two raw pages made of
/// the same parts, each with its own session token between them, have the
/// same canonical form, as long as each token stands in its page only where
/// it was put.
pub proof fn token_invariance_of_parts(
    parts: Seq<Seq<char>>,
    first_token: Seq<char>,
    second_token: Seq<char>,
    anchor: Rules,
    noise: Seq<Rules>,
)
    requires
        set_apart(parts, first_token),
        set_apart(parts, second_token),
    ensures
        canonical_form(joined(parts, first_token), first_token, anchor, noise) == canonical_form(
            joined(parts, second_token),
            second_token,
            anchor,
            noise,
        ),
{
    lemma_strip_joined(parts, first_token);
    lemma_strip_joined(parts, second_token);
}

/// Whether a text holds no double quote.
pub open spec fn quote_free(text: Seq<char>) -> bool {
    forall|j: int| 0 <= j < text.len() ==> text[j] != '"'
}

/// A text with a button marker in it: what comes before, the marker word,
/// the suffix of the marker, the double quote that ends it, and what comes
/// after.
pub open spec fn with_marker(before: Seq<char>, suffix: Seq<char>, after: Seq<char>) -> Seq<
    char,
> {
    before + marker_word() + suffix + seq!['"'] + after
}

/// Where the parts of a text with a marker stand: the word at the end of
/// what comes before, no double quote from there to the one that ends the
/// marker, and what comes after behind that one.
proof fn lemma_with_marker_shape(before: Seq<char>, suffix: Seq<char>, after: Seq<char>)
    requires
        quote_free(suffix),
    ensures
        ({
            let text = with_marker(before, suffix, after);
            let b = before.len() as int;
            let end = b + 13 + suffix.len();
            &&& marker_word().len() == 13
            &&& text.len() == end + 1 + after.len()
            &&& text.take(b + 13) == before + marker_word()
            &&& occurs_at(text, marker_word(), b)
            &&& text[end] == '"'
            &&& forall|j: int| b <= j < end ==> text[j] != '"'
            &&& text.skip(end + 1) == after
        }),
{
    let word = marker_word();
    let text = with_marker(before, suffix, after);
    let b = before.len() as int;
    let end = b + 13 + suffix.len();
    assert(word.len() == 13);
    assert(text.take(b + 13) =~= before + word);
    assert(text.subrange(b, b + 13) =~= word);
    assert(text.skip(end + 1) =~= after);
    assert forall|j: int| b <= j < end implies text[j] != '"' by {
        if j < b + 13 {
            assert(text[j] == word[j - b]);
        } else {
            assert(text[j] == suffix[j - b - 13]);
        }
    }
}

/// Two texts that agree up to the end of an occurrence of a pattern have
/// their first occurrence of it at the same place.
proof fn lemma_same_first_occurrence(
    first: Seq<char>,
    second: Seq<char>,
    pattern: Seq<char>,
    known: int,
)
    requires
        0 <= known,
        agree_upto(first, second, known + pattern.len()),
        occurs_at(first, pattern, known),
    ensures
        find_from(first, pattern, 0) == find_from(second, pattern, 0),
        find_from(first, pattern, 0) is Some,
        find_from(first, pattern, 0).unwrap() <= known,
        0 <= find_from(first, pattern, 0).unwrap(),
{
    lemma_find_from(first, pattern, 0);
    lemma_find_from(second, pattern, 0);
    assert forall|j: int| 0 <= j <= known implies occurs_at(first, pattern, j) == occurs_at(
        second,
        pattern,
        j,
    ) by {
        lemma_occurs_at_agree(first, second, pattern, j, known + pattern.len());
    }
}

/// Two texts that agree up to a position have the same characters before it.
proof fn lemma_agree_chars(first: Seq<char>, second: Seq<char>, upto: int)
    requires
        agree_upto(first, second, upto),
    ensures
        forall|j: int| 0 <= j < upto ==> first[j] == second[j],
        forall|k: int| 0 <= k <= upto ==> first.take(k) == second.take(k),
{
    assert forall|j: int| 0 <= j < upto implies first[j] == second[j] by {
        assert(first[j] == first.take(upto)[j]);
        assert(second[j] == second.take(upto)[j]);
    }
    assert forall|k: int| 0 <= k <= upto implies first.take(k) == second.take(k) by {
        assert(first.take(k) =~= first.take(upto).take(k));
        assert(second.take(k) =~= second.take(upto).take(k));
    }
}

/// The rewrite of a text whose first marker is known.
proof fn lemma_normalize_step(text: Seq<char>, at: int, quote: int)
    requires
        find_from(text, marker_word(), 0) == Some(at),
        index_of_from(text, '"', at + 13) == Some(quote),
        0 <= at < quote < text.len(),
    ensures
        normalize_markers(text) == text.take(at) + marker_literal() + normalize_markers(
            text.skip(quote + 1),
        ),
{
    assert(marker_word().len() == 13);
}

/// The rewrite of button markers does not see the suffix of a marker: two
/// texts that differ only there are rewritten to the same text.
pub proof fn lemma_marker_suffix(
    before: Seq<char>,
    first_suffix: Seq<char>,
    second_suffix: Seq<char>,
    after: Seq<char>,
)
    requires
        quote_free(first_suffix),
        quote_free(second_suffix),
    ensures
        normalize_markers(with_marker(before, first_suffix, after)) == normalize_markers(
            with_marker(before, second_suffix, after),
        ),
    decreases before.len(),
{
    let word = marker_word();
    let b = before.len() as int;
    let first = with_marker(before, first_suffix, after);
    let second = with_marker(before, second_suffix, after);
    let first_end = b + 13 + first_suffix.len();
    let second_end = b + 13 + second_suffix.len();
    lemma_with_marker_shape(before, first_suffix, after);
    lemma_with_marker_shape(before, second_suffix, after);
    assert(agree_upto(first, second, b + 13));
    lemma_same_first_occurrence(first, second, word, b);
    lemma_agree_chars(first, second, b + 13);
    let at = find_from(first, word, 0).unwrap();
    lemma_index_of_from(first, '"', at + 13);
    let quote = index_of_from(first, '"', at + 13).unwrap();
    assert(at + 13 <= quote <= first_end);
    if quote < b {
        assert(index_of_from(second, '"', at + 13) == Some(quote)) by {
            lemma_index_of_from_is(second, '"', at + 13, quote);
        }
        let shorter = before.skip(quote + 1);
        assert(first.skip(quote + 1) =~= with_marker(shorter, first_suffix, after));
        assert(second.skip(quote + 1) =~= with_marker(shorter, second_suffix, after));
        lemma_marker_suffix(shorter, first_suffix, second_suffix, after);
        lemma_normalize_step(first, at, quote);
        lemma_normalize_step(second, at, quote);
    } else {
        assert(quote == first_end);
        assert(index_of_from(second, '"', at + 13) == Some(second_end)) by {
            assert forall|j: int| at + 13 <= j < second_end implies second[j] != '"' by {
                if j < b {
                    assert(second[j] == first[j]);
                }
            }
            lemma_index_of_from_is(second, '"', at + 13, second_end);
        }
        lemma_normalize_step(first, at, first_end);
        lemma_normalize_step(second, at, second_end);
    }
}

/// Stripping a token from a text that does not hold it changes nothing.
pub proof fn lemma_strip_without_token(text: Seq<char>, token: Seq<char>)
    requires
        find_from(text, token, 0) is None,
    ensures
        strip_token(text, token) == text,
{
}

/// Marker invariance for pages that do not hold the session token. Two raw
/// pages that differ only in the suffix of one button marker have the same
/// canonical form, or both have none.
pub proof fn marker_invariance_of_pages(
    before: Seq<char>,
    first_suffix: Seq<char>,
    second_suffix: Seq<char>,
    after: Seq<char>,
    token: Seq<char>,
    anchor: Rules,
    noise: Seq<Rules>,
)
    requires
        quote_free(first_suffix),
        quote_free(second_suffix),
        find_from(with_marker(before, first_suffix, after), token, 0) is None,
        find_from(with_marker(before, second_suffix, after), token, 0) is None,
    ensures
        canonical_form(with_marker(before, first_suffix, after), token, anchor, noise)
            == canonical_form(with_marker(before, second_suffix, after), token, anchor, noise),
{
    lemma_strip_without_token(with_marker(before, first_suffix, after), token);
    lemma_strip_without_token(with_marker(before, second_suffix, after), token);
    lemma_marker_suffix(before, first_suffix, second_suffix, after);
}

/// Marker invariance. Raw pages that, once their session tokens have been
/// removed, differ only in the suffix of one button marker have the same
/// canonical form, or both have none.
pub proof fn marker_invariance(
    first: Seq<char>,
    first_token: Seq<char>,
    second: Seq<char>,
    second_token: Seq<char>,
    before: Seq<char>,
    first_suffix: Seq<char>,
    second_suffix: Seq<char>,
    after: Seq<char>,
    anchor: Rules,
    noise: Seq<Rules>,
)
    requires
        quote_free(first_suffix),
        quote_free(second_suffix),
        strip_token(first, first_token) == with_marker(before, first_suffix, after),
        strip_token(second, second_token) == with_marker(before, second_suffix, after),
    ensures
        canonical_form(first, first_token, anchor, noise) == canonical_form(
            second,
            second_token,
            anchor,
            noise,
        ),
{
    lemma_marker_suffix(before, first_suffix, second_suffix, after);
}

/// Rewriting the button markers of a text that has been rewritten changes
/// nothing.
pub proof fn lemma_normalize_markers_idempotent(text: Seq<char>)
    ensures
        normalize_markers(normalize_markers(text)) == normalize_markers(text),
    decreases text.len(),
{
    let word = marker_word();
    lemma_find_from(text, word, 0);
    match find_from(text, word, 0) {
        None => {},
        Some(at) => {
            lemma_index_of_from(text, '"', at + 13);
            assert(word.len() == 13);
            match index_of_from(text, '"', at + 13) {
                None => {},
                Some(quote) => {
                    let rest = text.skip(quote + 1);
                    let tail = normalize_markers(rest);
                    let before = text.take(at);
                    let once = normalize_markers(text);
                    lemma_normalize_step(text, at, quote);
                    lemma_normalize_markers_idempotent(rest);
                    let none = Seq::<char>::empty();
                    assert(once =~= with_marker(before, none, tail));
                    lemma_with_marker_shape(before, none, tail);
                    assert(text.take(at + 13) =~= before + word) by {
                        assert(text.subrange(at, at + 13) == word);
                    }
                    assert(agree_upto(once, text, at + 13));
                    lemma_find_from(once, word, 0);
                    assert forall|j: int| 0 <= j < at implies !occurs_at(once, word, j) by {
                        lemma_occurs_at_agree(once, text, word, j, at + 13);
                    }
                    lemma_find_from_is(once, word, at);
                    lemma_index_of_from_is(once, '"', at + 13, at + 13);
                    lemma_normalize_step(once, at, at + 13);
                    assert(once.take(at) =~= before);
                },
            }
        },
    }
}

/// The text stage is idempotent where the token is out of the way. Taking
/// the session token out of a text and rewriting its button markers, and then
/// doing both again, gives what doing both once gives, as long as the result
/// of the first round does not hold the token.
pub proof fn text_stage_is_idempotent(raw: Seq<char>, token: Seq<char>)
    requires
        find_from(stable_text(raw, token), token, 0) is None,
    ensures
        stable_text(stable_text(raw, token), token) == stable_text(raw, token),
{
    lemma_strip_without_token(stable_text(raw, token), token);
    lemma_normalize_markers_idempotent(strip_token(raw, token));
}

/// A settled tree loads from its own markup: the markup of its root element
/// parses to the tree.
pub proof fn lemma_settled_loads(nodes: Seq<NodeSlot>)
    requires
        settled(nodes),
    ensures
        serialized(nodes) is Some,
        loaded(serialized(nodes)) == Some(nodes),
{
}

/// A page has no canonical form exactly when it has no anchor or the noise
/// list leaves no root element of its anchor; every other page has one.
pub proof fn canonical_form_fails_only_there(
    raw: Seq<char>,
    token: Seq<char>,
    anchor: Rules,
    noise: Seq<Rules>,
)
    ensures
        canonical_form(raw, token, anchor, noise) is Err <==> has_no_canonical_form(
            raw,
            token,
            anchor,
            noise,
        ),
        canonical_form(raw, token, anchor, noise) matches Err(error) ==> error.kind
            == ErrorKind::InvalidResponse,
{
}

/// Idempotence, as far as the library decides it. Canonicalizing the markup
/// of a settled canonical form gives that canonical form again, where the
/// markup goes through the text stage unchanged and the anchor found in it,
/// cleared of noise, is written out as that markup again.
pub proof fn idempotence(
    raw: Seq<char>,
    token: Seq<char>,
    anchor: Rules,
    noise: Seq<Rules>,
    current: Seq<NodeSlot>,
    markup: Seq<char>,
    content: Seq<char>,
)
    requires
        canonical_form(raw, token, anchor, noise) == Ok::<_, ErrorView>(current),
        settled(current),
        serialized(current) == Some(markup),
        stable_text(markup, token) == markup,
        anchor_content(current, anchor) == Some(content),
        cleaned_markup(content, noise) == Some(markup),
    ensures
        canonical_form(markup, token, anchor, noise) == canonical_form(raw, token, anchor, noise),
{
}

/// Deletion is structural. Detaching a node that has a parent leaves it
/// without parent and siblings, keeps the number of slots, and changes the
/// value of no node, as long as the links of the node point into the arena.
pub proof fn detaching_unlinks(nodes: Seq<NodeSlot>, at: nat)
    requires
        at < nodes.len(),
        nodes[at as int].parent matches Some(parent) && parent < nodes.len() && parent != at,
        nodes[at as int].prev_sibling matches Some(prev) ==> prev < nodes.len() && prev != at,
        nodes[at as int].next_sibling matches Some(next) ==> next < nodes.len() && next != at,
    ensures
        detached(nodes, at).len() == nodes.len(),
        detached(nodes, at)[at as int].parent is None,
        detached(nodes, at)[at as int].prev_sibling is None,
        detached(nodes, at)[at as int].next_sibling is None,
        forall|i: int| 0 <= i < nodes.len() ==> detached(nodes, at)[i].value == nodes[i].value,
        detached(detached(nodes, at), at) == detached(nodes, at),
{
}

/// Noise invariance, as far as the library decides it. Two raw pages whose
/// anchors, cleared of noise, are written out as the same markup have the
/// same canonical form, or both have none; so the second is classified
/// against the first as without updates. Where that form is settled, the
/// second page checked against the snapshot of the first is found without
/// updates and nothing is to be stored.
pub proof fn noise_invariance(
    first: Seq<char>,
    first_token: Seq<char>,
    second: Seq<char>,
    second_token: Seq<char>,
    first_content: Seq<char>,
    second_content: Seq<char>,
    canonicalizer: &Canonicalizer,
)
    requires
        anchor_content(
            parsed_nodes(stable_text(first, first_token)),
            canonicalizer.anchor_rules(),
        ) == Some(first_content),
        anchor_content(
            parsed_nodes(stable_text(second, second_token)),
            canonicalizer.anchor_rules(),
        ) == Some(second_content),
        cleaned_markup(first_content, canonicalizer.noise_rules()) == cleaned_markup(
            second_content,
            canonicalizer.noise_rules(),
        ),
    ensures
        canonical_form(
            first,
            first_token,
            canonicalizer.anchor_rules(),
            canonicalizer.noise_rules(),
        ) == canonical_form(
            second,
            second_token,
            canonicalizer.anchor_rules(),
            canonicalizer.noise_rules(),
        ),
        forall|kept: Seq<NodeSlot>|
            canonical_form(
                first,
                first_token,
                canonicalizer.anchor_rules(),
                canonicalizer.noise_rules(),
            ) == Ok::<_, ErrorView>(kept) ==> {
                &&& classified(Some(kept), kept) == Status::NoUpdates
                &&& settled(kept) ==> checked(
                    second,
                    second_token,
                    serialized(kept),
                    canonicalizer,
                ) == Ok::<_, ErrorView>((Status::NoUpdates, None::<Seq<char>>))
            },
{
}

/// Change sensitivity, as far as the library decides it. Against a kept
/// document, a document is classified as updated exactly when the trees
/// differ, and as without updates exactly when they are equal; it is never
/// classified as first fetched.
pub proof fn change_sensitivity(kept: Seq<NodeSlot>, current: Seq<NodeSlot>)
    ensures
        classified(Some(kept), current) == Status::Updated <==> kept != current,
        classified(Some(kept), current) == Status::NoUpdates <==> kept == current,
        classified(Some(kept), current) != Status::FirstFetched,
{
}

/// A page against the snapshot of an earlier one. Checked against the
/// snapshot that a settled earlier document left, a page is found without
/// updates, with nothing to store, exactly when the two canonical forms are
/// equal; otherwise it is found updated and its own markup is to be stored.
pub proof fn page_against_snapshot(
    raw: Seq<char>,
    token: Seq<char>,
    canonicalizer: &Canonicalizer,
    kept: Seq<NodeSlot>,
    current: Seq<NodeSlot>,
)
    requires
        settled(kept),
        canonical_form(raw, token, canonicalizer.anchor_rules(), canonicalizer.noise_rules())
            == Ok::<_, ErrorView>(current),
    ensures
        checked(raw, token, serialized(kept), canonicalizer) == if kept == current {
            Ok::<_, ErrorView>((Status::NoUpdates, None::<Seq<char>>))
        } else {
            Ok::<_, ErrorView>((Status::Updated, serialized(current)))
        },
{
    lemma_settled_loads(kept);
}

/// First run. With nothing stored, a document is assessed as first fetched
/// and its markup is what the store holds afterwards.
pub proof fn first_run(current: Seq<NodeSlot>)
    ensures
        classified(None, current) == Status::FirstFetched,
        assessed(None, current) == (Status::FirstFetched, serialized(current)),
        stored_after(None, serialized(current)) == serialized(current),
{
}

/// First run of a page. With nothing stored, a raw page that has a canonical
/// form is found first fetched and the markup of that form is to be stored.
/// Where the form is settled, what the store holds afterwards loads as that
/// form, and the same page checked against it is found without updates.
pub proof fn first_run_of_page(
    raw: Seq<char>,
    token: Seq<char>,
    canonicalizer: &Canonicalizer,
    current: Seq<NodeSlot>,
)
    requires
        canonical_form(raw, token, canonicalizer.anchor_rules(), canonicalizer.noise_rules())
            == Ok::<_, ErrorView>(current),
    ensures
        checked(raw, token, None, canonicalizer) == Ok::<_, ErrorView>(
            (Status::FirstFetched, serialized(current)),
        ),
        settled(current) ==> loaded(stored_after(None, serialized(current))) == Some(current),
        settled(current) ==> checked(
            raw,
            token,
            stored_after(None, serialized(current)),
            canonicalizer,
        ) == Ok::<_, ErrorView>((Status::NoUpdates, None::<Seq<char>>)),
{
    if settled(current) {
        lemma_settled_loads(current);
    }
}

/// No write on unchanged. An assessment gives a markup to store exactly
/// when the status is not that of no updates; where it is, the store holds
/// afterwards what it held before.
pub proof fn no_write_on_unchanged(stored: Option<Seq<char>>, current: Seq<NodeSlot>)
    requires
        serialized(current) is Some,
    ensures
        ({
            let (status, snapshot) = assessed(stored, current);
            &&& status == Status::NoUpdates <==> snapshot is None
            &&& status == Status::NoUpdates ==> stored_after(stored, snapshot) == stored
            &&& status != Status::NoUpdates ==> stored_after(stored, snapshot) == serialized(
                current,
            )
        }),
{
}

/// A resource of a run as the store sees it: its id and the raw page
/// fetched for it.
pub struct Fetched {
    pub id: u64,
    pub raw: Seq<char>,
}

/// A whole run over a store: the pages are checked one after the other, each
/// against what the store keeps for its resource at that time, and what a
/// check gives to store is stored before the next page is taken. The run
/// ends with the first failure. The result is the store as the run leaves
/// it, and the statuses found or the failure.
pub open spec fn run_over(
    store: Store,
    pages: Seq<Fetched>,
    token: Seq<char>,
    canonicalizer: &Canonicalizer,
) -> (Store, Result<Seq<Status>, ErrorView>)
    decreases pages.len(),
{
    if pages.len() == 0 {
        (store, Ok(Seq::empty()))
    } else {
        let (before, found) = run_over(store, pages.drop_last(), token, canonicalizer);
        match found {
            Err(error) => (before, Err(error)),
            Ok(statuses) => match checked(
                pages.last().raw,
                token,
                kept_in(before, pages.last().id),
                canonicalizer,
            ) {
                Err(error) => (before, Err(error)),
                Ok((status, snapshot)) => (
                    store_after_check(before, pages.last().id, snapshot),
                    Ok(statuses.push(status)),
                ),
            },
        }
    }
}

/// Whether no two pages of a run belong to the same resource.
pub open spec fn apart(pages: Seq<Fetched>) -> bool {
    forall|a: int, b: int| 0 <= a < b < pages.len() ==> pages[a].id != pages[b].id
}

/// Whether a resource is among the pages of a run.
pub open spec fn among(pages: Seq<Fetched>, id: u64) -> bool {
    exists|i: int| 0 <= i < pages.len() && (#[trigger] pages[i]).id == id
}

/// What a finished run has done to the store, resource by resource.
pub open spec fn run_kept_to_the_rules(
    store: Store,
    pages: Seq<Fetched>,
    after: Store,
    statuses: Seq<Status>,
) -> bool {
    &&& statuses.len() == pages.len()
    &&& forall|id: u64| !among(pages, id) ==> #[trigger] kept_in(after, id) == kept_in(store, id)
    &&& forall|i: int|
        0 <= i < pages.len() && statuses[i] == Status::NoUpdates ==> kept_in(
            after,
            (#[trigger] pages[i]).id,
        ) == kept_in(store, pages[i].id)
    &&& forall|i: int|
        0 <= i < pages.len() ==> (statuses[i] == Status::FirstFetched <==> kept_in(
            store,
            (#[trigger] pages[i]).id,
        ) is None)
}

/// No write on unchanged, for a whole run. After a run that went through,
/// over pages of different resources, the store keeps for every resource
/// found without updates exactly what it kept before, and likewise for every
/// resource that was not in the run; a resource is found first fetched
/// exactly when the store kept nothing for it.
pub proof fn run_leaves_unchanged_snapshots(
    store: Store,
    pages: Seq<Fetched>,
    token: Seq<char>,
    canonicalizer: &Canonicalizer,
)
    requires
        apart(pages),
        run_over(store, pages, token, canonicalizer).1 is Ok,
    ensures
        run_kept_to_the_rules(
            store,
            pages,
            run_over(store, pages, token, canonicalizer).0,
            run_over(store, pages, token, canonicalizer).1->Ok_0,
        ),
    decreases pages.len(),
{
    if pages.len() > 0 {
        let earlier = pages.drop_last();
        let last = pages.last();
        let (before, found) = run_over(store, earlier, token, canonicalizer);
        assert(apart(earlier)) by {
            assert forall|a: int, b: int| 0 <= a < b < earlier.len() implies earlier[a].id
                != earlier[b].id by {
                assert(earlier[a] == pages[a] && earlier[b] == pages[b]);
            }
        }
        run_leaves_unchanged_snapshots(store, earlier, token, canonicalizer);
        let statuses = found->Ok_0;
        let (after, all) = run_over(store, pages, token, canonicalizer);
        let now = all->Ok_0;
        assert(!among(earlier, last.id)) by {
            if among(earlier, last.id) {
                let i = choose|i: int| 0 <= i < earlier.len() && (#[trigger] earlier[i]).id == last.id;
                assert(earlier[i] == pages[i]);
                assert(pages[pages.len() - 1] == last);
            }
        }
        assert(kept_in(before, last.id) == kept_in(store, last.id));
        let outcome = checked(last.raw, token, kept_in(before, last.id), canonicalizer);
        let (status, snapshot) = outcome->Ok_0;
        assert(after == store_after_check(before, last.id, snapshot));
        assert(now == statuses.push(status));
        assert forall|id: u64| !among(pages, id) implies #[trigger] kept_in(after, id) == kept_in(
            store,
            id,
        ) by {
            assert(pages[pages.len() - 1] == last);
            assert(last.id != id);
            assert(!among(earlier, id)) by {
                if among(earlier, id) {
                    let i = choose|i: int|
                        0 <= i < earlier.len() && (#[trigger] earlier[i]).id == id;
                    assert(pages[i] == earlier[i]);
                }
            }
            assert(kept_in(before, id) == kept_in(store, id));
        }
        assert forall|i: int| 0 <= i < pages.len() && now[i] == Status::NoUpdates implies kept_in(
            after,
            (#[trigger] pages[i]).id,
        ) == kept_in(store, pages[i].id) by {
            if i < pages.len() - 1 {
                assert(earlier[i] == pages[i]);
                assert(now[i] == statuses[i]);
                assert(pages[i].id != pages[pages.len() - 1].id);
            }
        }
        assert forall|i: int| 0 <= i < pages.len() implies (now[i] == Status::FirstFetched
            <==> kept_in(store, (#[trigger] pages[i]).id) is None) by {
            if i < pages.len() - 1 {
                assert(earlier[i] == pages[i]);
                assert(now[i] == statuses[i]);
            }
        }
    }
}

/// Fail fast. A fault ends an open run: no resource is current after it,
/// there is no report, and whatever is taken in later changes nothing.
pub proof fn failed_run_stays_failed(
    run: RunView,
    kind: ErrorKind,
    later: Result<Status, ErrorKind>,
    quiet: bool,
)
    requires
        run.is_open(),
    ensures
        !run.after(Err(kind)).is_open(),
        run.after(Err(kind)).failure == Some(kind),
        run.after(Err(kind)).report(quiet) is None,
        run.after(Err(kind)).after(later) == run.after(Err(kind)),
{
}

/// One resource at a time, in order. A status is kept for the current
/// resource and for no other, and the resources stay as they are.
pub proof fn statuses_follow_the_order(run: RunView, status: Status)
    requires
        run.is_open(),
    ensures
        run.after(Ok(status)).resources == run.resources,
        run.after(Ok(status)).statuses.len() == run.statuses.len() + 1,
        run.after(Ok(status)).statuses.last() == status,
        run.after(Ok(status)).statuses.drop_last() == run.statuses,
{
    assert(run.statuses.push(status).drop_last() =~= run.statuses);
}

/// Every resource with a status stands in exactly one of the three buckets.
pub proof fn lemma_buckets_partition(resources: Seq<ResourceView>, statuses: Seq<Status>)
    requires
        statuses.len() <= resources.len(),
    ensures
        bucket(resources, statuses, Status::FirstFetched).len() + bucket(
            resources,
            statuses,
            Status::Updated,
        ).len() + bucket(resources, statuses, Status::NoUpdates).len() == statuses.len(),
    decreases statuses.len(),
{
    if statuses.len() > 0 {
        lemma_buckets_partition(resources, statuses.drop_last());
    }
}

/// The machine-readable report has one line for each resource.
pub proof fn machine_report_has_a_line_each(resources: Seq<ResourceView>, statuses: Seq<Status>)
    requires
        statuses.len() == resources.len(),
    ensures
        machine_report(resources, statuses).len() == resources.len(),
{
    lemma_buckets_partition(resources, statuses);
}

/// A number of two or more digits is ten or more, and the other way round.
proof fn lemma_decimal_len(n: nat)
    ensures
        decimal(n).len() >= 1,
        n < 10 <==> decimal(n).len() == 1,
    decreases n,
{
    if n >= 10 {
        lemma_decimal_len(n / 10);
    }
}

/// Different numbers are written differently.
pub proof fn lemma_decimal_injective(left: nat, right: nat)
    requires
        decimal(left) == decimal(right),
    ensures
        left == right,
    decreases left,
{
    lemma_decimal_len(left);
    lemma_decimal_len(right);
    if left < 10 {
        assert(decimal(left)[0] == digit_char(left));
        assert(decimal(right)[0] == digit_char(right));
    } else {
        let upper_left = decimal(left / 10);
        let upper_right = decimal(right / 10);
        assert(decimal(left).drop_last() =~= upper_left);
        assert(decimal(right).drop_last() =~= upper_right);
        assert(decimal(left).last() == digit_char(left % 10));
        assert(decimal(right).last() == digit_char(right % 10));
        lemma_decimal_injective(left / 10, right / 10);
    }
}

/// One snapshot for each resource. Resources with different ids keep their
/// snapshots in files of different names.
pub proof fn snapshot_files_are_apart(left: u64, right: u64)
    requires
        snapshot_file_name_text(left) == snapshot_file_name_text(right),
    ensures
        left == right,
{
    let ending = ".html"@;
    let l = decimal(left as nat);
    let r = decimal(right as nat);
    assert((l + ending).len() == l.len() + ending.len());
    assert((r + ending).len() == r.len() + ending.len());
    assert(l =~= (l + ending).take(l.len() as int));
    assert(r =~= (r + ending).take(r.len() as int));
    lemma_decimal_injective(left as nat, right as nat);
}

} // verus!
