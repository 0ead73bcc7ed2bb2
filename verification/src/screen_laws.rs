//! What the screen says, said by what is known.

use crate::book::{names_author, names_title, BookView};
use crate::metadata::{law_listed_values_are_those_of_the_map, sorted_pairs};
use crate::path::name_of;
use crate::path_laws::{is_name, law_name_is_the_last_component};
use crate::screen::{
    detail_texts, filter_line_text, further_lines, is_further, label_text, label_texts,
    no_cover_text, selected_texts, share_texts, title_text,
};
use crate::seqs::lemma_filter_members;
use crate::state::{AppState, ShareView};
use crate::text::{decimal, Text};
use vstd::prelude::*;

verus! {

/// The filter line is the filter with a cursor behind it.
pub proof fn law_filter_line_ends_in_a_cursor(s: AppState)
    ensures
        filter_line_text(s) == s.filter.push('_'),
{
    reveal_strlit("_");
    assert(filter_line_text(s) =~= s.filter.push('_'));
}

/// The title tells how many books are shown; and how many books there are once
/// indexing is done, or how many are indexed of how many where that was told.
pub proof fn law_title_counts(s: AppState, done: usize, total: usize)
    ensures
        s.indexing_done ==> title_text(s) == "Filter ("@ + decimal(s.shown().len()) + " matches, "@
            + decimal(s.books.len()) + " books)"@,
        !s.indexing_done && s.progress == Some((done, total)) && total > 0 ==> title_text(s)
            == "Filter ("@ + decimal(s.shown().len()) + " matches, "@ + "indexing "@ + decimal(
            done as nat,
        ) + "/"@ + decimal(total as nat) + ")"@,
        !s.indexing_done && s.progress == Some((done, total)) && total == 0 ==> title_text(s)
            == "Filter ("@ + decimal(s.shown().len()) + " matches, "@ + "scanning...)"@,
        !s.indexing_done && s.progress is None ==> title_text(s) == "Filter ("@ + decimal(
            s.shown().len(),
        ) + " matches, "@ + "scanning...)"@,
{
}

/// A book with a title is listed by the whole title, and by the whole author
/// after a dash, if there is one.
pub proof fn law_titled_book_is_listed_by_its_title(b: BookView)
    requires
        b.title.len() > 0,
    ensures
        b.author.len() == 0 ==> label_text(b) == b.title,
        b.author.len() > 0 ==> label_text(b) == b.title + seq![' ', '\u{2014}', ' '] + b.author,
{
    reveal_strlit(" \u{2014} ");
    assert(" \u{2014} "@ =~= seq![' ', '\u{2014}', ' ']);
}

/// A book without a title is listed by the name of its file, whatever else is
/// known of it, and by its path where that has no name.
pub proof fn law_untitled_book_is_listed_by_its_file(b: BookView, d: Text, n: Text)
    requires
        b.title.len() == 0,
    ensures
        is_name(n) && b.path == d + seq!['/'] + n ==> label_text(b) == n,
        is_name(n) && b.path == n ==> label_text(b) == n,
        name_of(b.path) is None ==> label_text(b) == b.path,
{
    if is_name(n) {
        law_name_is_the_last_component(d, n);
    }
}

/// The details of a book begin with its title, its author and its path, and an
/// empty line.
pub proof fn law_details_begin_with_title_author_and_file(b: BookView)
    ensures
        detail_texts(b).len() >= 4,
        detail_texts(b)[0] == ("Title:  "@, b.title),
        detail_texts(b)[1] == ("Author: "@, b.author),
        detail_texts(b)[2] == ("File:   "@, b.path),
        detail_texts(b)[3].0.len() == 0 && detail_texts(b)[3].1.len() == 0,
{
}

/// After that come the named values of the book, each with its name before it,
/// but for those that tell the title or the author again; and no others.
pub proof fn law_details_tell_every_other_value(b: BookView, k: Text, v: Text)
    requires
        b.metadata.dom().finite(),
    ensures
        b.metadata.contains_key(k) && b.metadata[k] == v && !names_title(k) && !names_author(k)
            ==> detail_texts(b).skip(4).contains((k + seq![':', ' '], v)),
        forall|l: (Text, Text)| #[trigger]
            detail_texts(b).skip(4).contains(l) ==> exists|n: Text| #[trigger]
                b.metadata.contains_key(n) && !names_title(n) && !names_author(n) && l == (
                    n + seq![':', ' '],
                    b.metadata[n],
                ),
{
    reveal_strlit(": ");
    assert(": "@ =~= seq![':', ' ']);
    let pairs = sorted_pairs(b.metadata);
    let pred = |p: (Text, Text)| is_further(p);
    let form = |p: (Text, Text)| (p.0 + ": "@, p.1);
    let kept = pairs.filter(pred);
    let lines = further_lines(pairs);
    assert(lines == kept.map_values(form));
    assert(detail_texts(b).skip(4) =~= lines);
    law_listed_values_are_those_of_the_map(b.metadata);
    lemma_filter_members(pairs, pred);
    if b.metadata.contains_key(k) && b.metadata[k] == v && !names_title(k) && !names_author(k) {
        assert(pairs.contains((k, v)));
        assert(kept.contains((k, v)));
        let i = choose|i: int| 0 <= i < kept.len() && kept[i] == (k, v);
        assert(lines[i] == (k + ": "@, v));
    }
    assert forall|l: (Text, Text)| #[trigger] lines.contains(l) implies exists|n: Text| #[trigger]
        b.metadata.contains_key(n) && !names_title(n) && !names_author(n) && l == (
            n + seq![':', ' '],
            b.metadata[n],
        ) by {
        let i = choose|i: int| 0 <= i < lines.len() && lines[i] == l;
        assert(kept.contains(kept[i]));
        assert(pairs.contains(kept[i]));
        let n = kept[i].0;
        assert(kept[i] == (n, kept[i].1));
        assert(b.metadata.contains_key(n));
    }
}

/// While a book is being sent, its path and the code by which it is received
/// are told; and nothing where none is.
pub proof fn law_code_is_told(s: AppState, share: ShareView)
    ensures
        s.sharing is None ==> share_texts(s).len() == 0,
        s.sharing == Some(share) ==> share_texts(s).len() == 3 && share_texts(s)[0] == share.path,
        s.sharing == Some(share) && share.status is Code ==> share_texts(s)[1]
            == "wormhole receive "@ + share.status->Code_0 && share_texts(s)[2] == "Esc cancels"@,
        s.sharing == Some(share) && share.status is Starting ==> share_texts(s)[1]
            == "Waiting for a code..."@ && share_texts(s)[2] == "Esc cancels"@,
        s.sharing == Some(share) && share.status is Sent ==> share_texts(s)[1] == "Sent"@
            && share_texts(s)[2] == "Esc returns"@,
        s.sharing == Some(share) && share.status is Failed ==> share_texts(s)[1]
            == "The transfer failed"@ && share_texts(s)[2] == "Esc returns"@,
{
}

/// There is one line for each book that is shown, in their order, and it is the
/// one of that book.
pub proof fn law_every_shown_book_has_its_line(s: AppState)
    ensures
        label_texts(s).len() == s.shown().len(),
        forall|i: int|
            0 <= i < s.shown().len() ==> #[trigger] label_texts(s)[i] == label_text(
                s.books[s.shown()[i]],
            ),
{
}

/// The details are those of the selected book; where none is selected that is
/// told.
pub proof fn law_details_are_those_of_the_selected_book(s: AppState, p: Text)
    ensures
        s.selected_path() == Some(p) ==> selected_texts(s) == detail_texts(s.books[p]),
        s.selected_path() is None ==> selected_texts(s).len() == 1 && selected_texts(s)[0].0.len()
            == 0 && selected_texts(s)[0].1 == "No selection"@,
{
}

/// Why no cover is shown depends on whether images can be shown at all.
pub proof fn law_missing_cover_is_explained(s: AppState)
    ensures
        s.images ==> no_cover_text(s) == "(no cover)"@,
        !s.images ==> no_cover_text(s) == "(terminal does not support images)"@,
{
}

} // verus!
