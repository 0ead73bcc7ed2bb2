//! What each event does to the search, said by the events and by what is seen
//! before and after.

use crate::book::{searchable, BookView};
use crate::filter::{law_text_without_space_is_a_word, terms_of};
use crate::laws::{
    law_book_with_the_words_is_shown, law_filtering_keeps_wf, law_incremental_search_is_exact,
    law_shown_are_the_matches, law_shown_in_order, law_start_is_well_formed, law_updates_keep_wf,
    lemma_books_by_path, lemma_place_of, lemma_sorted, lemma_updated_all,
};
use crate::order::{key_order, listed_before};
use crate::path_laws::{is_name, law_parts_of_the_name_are_searched};
use crate::seqs::lemma_filter_all_or_none;
use crate::state::{
    any_changes_books, books_by_path, hit, paths_of, place_of, refined, sort_key, sort_keys,
    started, AppState, CoverView, UpdateView,
};
use crate::text::{has_part, is_space, lower, Text};
use vstd::prelude::*;

verus! {

/// The path of which an update speaks.
pub open spec fn speaks_of(u: UpdateView, p: Text) -> bool {
    match u {
        UpdateView::Book(b) => b.path == p,
        UpdateView::Removed(q) => q == p,
        _ => false,
    }
}

/// Whether no update from the place `i` on speaks of the book at `p`.
pub open spec fn silent_from(us: Seq<UpdateView>, i: int, p: Text) -> bool {
    forall|j: int| i <= j < us.len() ==> !speaks_of(#[trigger] us[j], p)
}

proof fn lemma_no_news(s: AppState, us: Seq<UpdateView>, i: int, p: Text)
    requires
        0 <= i <= us.len(),
        silent_from(us, i, p),
    ensures
        s.updated_all(us).books.contains_key(p) == s.updated_all(us.take(i)).books.contains_key(p),
        s.updated_all(us).books[p] == s.updated_all(us.take(i)).books[p],
        s.updated_all(us).covers.contains_key(p) == s.updated_all(us.take(i)).covers.contains_key(
            p,
        ),
        s.updated_all(us).covers[p] == s.updated_all(us.take(i)).covers[p],
    decreases us.len(),
{
    if i == us.len() {
        assert(us.take(i) =~= us);
    } else {
        let init = us.drop_last();
        assert(!speaks_of(us[us.len() - 1], p));
        assert forall|j: int| i <= j < init.len() implies !speaks_of(#[trigger] init[j], p) by {
            assert(init[j] == us[j]);
        }
        lemma_no_news(s, init, i, p);
        assert(init.take(i) =~= us.take(i));
    }
}

proof fn lemma_drained_keeps(s: AppState, us: Seq<UpdateView>, disconnected: bool)
    ensures
        s.drained(us, disconnected).books == s.updated_all(us).books,
        s.drained(us, disconnected).covers == s.updated_all(us).covers,
        s.drained(us, disconnected).progress == s.updated_all(us).progress,
        s.drained(us, disconnected).sharing == s.updated_all(us).sharing,
        s.drained(us, disconnected).images == s.updated_all(us).images,
        s.drained(us, disconnected).indexing_done == (s.updated_all(us).indexing_done
            || disconnected),
{
}

/// Of each book the last news stands: after a book was reported it is known as
/// reported, with the text that it is searched by, and after it was removed it
/// is not known; either way its cover has to be looked up anew. Without news
/// what is known of it stays, and so does what is known of its cover.
pub proof fn law_last_news_stands(
    s: AppState,
    us: Seq<UpdateView>,
    disconnected: bool,
    i: int,
    p: Text,
)
    requires
        0 <= i < us.len(),
        silent_from(us, i + 1, p),
    ensures
        us[i] is Book && us[i]->Book_0.path == p ==> {
            &&& s.drained(us, disconnected).books.contains_key(p)
            &&& s.drained(us, disconnected).books[p] == searchable(us[i]->Book_0)
            &&& !s.drained(us, disconnected).covers.contains_key(p)
        },
        us[i] is Removed && us[i]->Removed_0 == p ==> {
            &&& !s.drained(us, disconnected).books.contains_key(p)
            &&& !s.drained(us, disconnected).covers.contains_key(p)
        },
        silent_from(us, 0, p) ==> {
            &&& s.drained(us, disconnected).books.contains_key(p) == s.books.contains_key(p)
            &&& s.drained(us, disconnected).books[p] == s.books[p]
            &&& s.drained(us, disconnected).covers.contains_key(p) == s.covers.contains_key(p)
            &&& s.drained(us, disconnected).covers[p] == s.covers[p]
        },
{
    lemma_drained_keeps(s, us, disconnected);
    lemma_no_news(s, us, i + 1, p);
    let upto = us.take(i + 1);
    assert(upto.drop_last() =~= us.take(i));
    assert(upto.last() == us[i]);
    if silent_from(us, 0, p) {
        lemma_no_news(s, us, 0, p);
        assert(us.take(0) =~= Seq::<UpdateView>::empty());
    }
}

/// Whether no update from the place `i` on tells of the progress.
pub open spec fn no_progress_from(us: Seq<UpdateView>, i: int) -> bool {
    forall|j: int|
        i <= j < us.len() ==> (#[trigger] us[j]) !is Total && us[j] !is Progress
}

proof fn lemma_no_progress(s: AppState, us: Seq<UpdateView>, i: int)
    requires
        0 <= i <= us.len(),
        no_progress_from(us, i),
    ensures
        s.updated_all(us).progress == s.updated_all(us.take(i)).progress,
    decreases us.len(),
{
    if i == us.len() {
        assert(us.take(i) =~= us);
    } else {
        let init = us.drop_last();
        assert(us[us.len() - 1] !is Total);
        assert forall|j: int| i <= j < init.len() implies (#[trigger] init[j]) !is Total
            && init[j] !is Progress by {
            assert(init[j] == us[j]);
        }
        lemma_no_progress(s, init, i);
        assert(init.take(i) =~= us.take(i));
    }
}

/// The progress is the one that was told last; a total tells that nothing of it
/// is done. Without news of it the progress stays.
pub proof fn law_last_progress_stands(
    s: AppState,
    us: Seq<UpdateView>,
    disconnected: bool,
    i: int,
)
    requires
        0 <= i < us.len(),
        no_progress_from(us, i + 1),
    ensures
        us[i] matches UpdateView::Total(t) ==> s.drained(us, disconnected).progress == Some(
            (0usize, t),
        ),
        us[i] matches UpdateView::Progress { done, total } ==> s.drained(us, disconnected).progress
            == Some((done, total)),
        no_progress_from(us, 0) ==> s.drained(us, disconnected).progress == s.progress,
{
    lemma_drained_keeps(s, us, disconnected);
    lemma_no_progress(s, us, i + 1);
    let upto = us.take(i + 1);
    assert(upto.drop_last() =~= us.take(i));
    assert(upto.last() == us[i]);
    if no_progress_from(us, 0) {
        lemma_no_progress(s, us, 0);
        assert(us.take(0) =~= Seq::<UpdateView>::empty());
    }
}

/// Indexing is done once that was told, or once the indexer is gone, and not
/// before. Nothing that the indexer tells changes the filter, the book that is
/// being sent, or whether images can be shown.
pub proof fn law_indexing_is_done_when_told(s: AppState, us: Seq<UpdateView>, disconnected: bool)
    requires
        s.wf(),
    ensures
        s.drained(us, disconnected).indexing_done <==> s.indexing_done || disconnected || exists|
            i: int,
        |
            0 <= i < us.len() && (#[trigger] us[i]) is Done,
        s.drained(us, disconnected).filter == s.filter,
        s.drained(us, disconnected).sharing == s.sharing,
        s.drained(us, disconnected).images == s.images,
        us.len() == 0 && !disconnected ==> s.drained(us, disconnected) == s,
{
    lemma_drained_keeps(s, us, disconnected);
    lemma_updated_all(s, us);
    law_updates_keep_wf(s, us, disconnected);
    lemma_done(s, us);
}

proof fn lemma_done(s: AppState, us: Seq<UpdateView>)
    ensures
        s.updated_all(us).indexing_done <==> s.indexing_done || exists|i: int|
            0 <= i < us.len() && (#[trigger] us[i]) is Done,
        s.updated_all(us).sharing == s.sharing,
    decreases us.len(),
{
    if us.len() > 0 {
        let init = us.drop_last();
        lemma_done(s, init);
        if exists|i: int| 0 <= i < init.len() && (#[trigger] init[i]) is Done {
            let i = choose|i: int| 0 <= i < init.len() && (#[trigger] init[i]) is Done;
            assert(us[i] is Done);
        }
        if us.last() is Done {
            assert(us[us.len() - 1] is Done);
        }
        if exists|i: int| 0 <= i < us.len() && (#[trigger] us[i]) is Done {
            let i = choose|i: int| 0 <= i < us.len() && (#[trigger] us[i]) is Done;
            if i < init.len() {
                assert(init[i] is Done);
            }
        }
    }
}

/// The place that a selection at `i` comes to among `len` places: it stays, or
/// goes to the last of them.
pub open spec fn kept_place(i: int, len: int) -> Option<int> {
    if len <= 0 {
        None
    } else if i < len {
        Some(i)
    } else {
        Some(len - 1)
    }
}

/// Another filter leaves the selection at its place, or at the last one where
/// less is shown; with nothing selected the first place is.
pub proof fn law_selection_keeps_its_place(s: AppState, new: Text, i: int)
    requires
        s.wf(),
    ensures
        s.selected == Some(i) ==> s.with_filter(new).selected == kept_place(
            i,
            s.with_filter(new).shown().len() as int,
        ),
        s.selected is None ==> s.with_filter(new).selected == kept_place(
            0,
            s.with_filter(new).shown().len() as int,
        ),
{
    law_filtering_keeps_wf(s, new);
}

/// Where the selected book is not shown any longer after an update, its place
/// stays selected, or the last one.
pub proof fn law_selection_keeps_its_place_without_its_book(
    s: AppState,
    us: Seq<UpdateView>,
    disconnected: bool,
    p: Text,
    i: int,
)
    requires
        s.wf(),
        s.selected_path() == Some(p),
        s.selected == Some(i),
        !s.drained(us, disconnected).shown().contains(p),
    ensures
        s.drained(us, disconnected).selected == kept_place(
            i,
            s.drained(us, disconnected).shown().len() as int,
        ),
{
    lemma_updated_all(s, us);
    let u = s.updated_all(us);
    let t = AppState { indexing_done: u.indexing_done || disconnected, ..u };
    if any_changes_books(us) {
        let next = t.sorted().rebuilt();
        assert(t.selected_path() == Some(p));
        lemma_place_of(next.shown(), p);
        if place_of(next.shown(), p) is Some {
            let k = place_of(next.shown(), p)->0;
            assert(next.shown()[k] == p);
            assert(s.drained(us, disconnected).shown() == next.shown());
            assert(next.shown().contains(p));
        }
    } else {
        assert(s.drained(us, disconnected).shown() == s.shown());
        assert(s.shown()[i] == p);
    }
}

/// Moving the selection moves it by as many places as there are before the end
/// that it moves to, and changes nothing else.
pub proof fn law_selection_moves_by_places(s: AppState, delta: int, i: int)
    requires
        s.wf(),
        s.selected == Some(i),
    ensures
        s.moved(delta).selected is Some,
        0 <= s.moved(delta).selected->0 < s.shown().len(),
        0 <= i + delta < s.shown().len() ==> s.moved(delta).selected == Some(i + delta),
        i + delta < 0 ==> s.moved(delta).selected == Some(0int),
        i + delta >= s.shown().len() ==> s.moved(delta).selected == Some(s.shown().len() - 1),
        s.at_first().selected == Some(0int),
        s.at_last().selected == Some(s.shown().len() - 1),
        s.moved(delta) == (AppState { selected: s.moved(delta).selected, ..s }),
        s.at_first() == (AppState { selected: s.at_first().selected, ..s }),
        s.at_last() == (AppState { selected: s.at_last().selected, ..s }),
{
}

/// What is left of two lists of paths is what is left of the one and then what
/// is left of the other; a single path is left exactly if its book is known and
/// holds every term, or if there are no terms.
pub proof fn law_paths_are_refined_one_by_one(
    books: Map<Text, BookView>,
    a: Seq<Text>,
    b: Seq<Text>,
    p: Text,
    terms: Seq<Text>,
)
    ensures
        refined(books, a + b, terms) == refined(books, a, terms) + refined(books, b, terms),
        refined(books, seq![p], terms) == (if terms.len() == 0 || (books.contains_key(p)
            && forall|i: int|
            0 <= i < terms.len() ==> has_part(books[p].search_text, #[trigger] terms[i])) {
            seq![p]
        } else {
            Seq::empty()
        }),
{
    let pred = |q: Text| hit(books, terms, q);
    if terms.len() > 0 {
        Seq::filter_distributes_over_add(a, b, pred);
        lemma_filter_all_or_none(seq![p], pred, hit(books, terms, p));
    }
}

/// Of two books that are shown the earlier one has the smaller title, in
/// lowercase; or the same title and the smaller author; or the same title and
/// author and the smaller path.
pub proof fn law_shown_by_title_author_and_path(s: AppState, i: int, j: int)
    requires
        s.wf(),
        0 <= i < j < s.shown().len(),
    ensures
        ({
            let p = s.shown()[i];
            let q = s.shown()[j];
            let a = (lower(s.books[p].title), lower(s.books[p].author), p);
            let b = (lower(s.books[q].title), lower(s.books[q].author), q);
            p == q || listed_before(a, b)
        }),
{
    law_shown_in_order(s);
    let keys = sort_keys(s.books, s.shown());
    assert(key_order()(keys[i], keys[j]));
    assert(keys[i] == sort_key(s.books, s.shown()[i]));
    assert(keys[j] == sort_key(s.books, s.shown()[j]));
}

/// At the start all books are shown, each as often as it was stored, with no
/// filter, the first selected, and nothing told of the indexer yet.
pub proof fn law_start_shows_all_books(books: Seq<BookView>, images: bool)
    ensures
        started(books, images).shown().to_multiset() == books.map_values(
            |b: BookView| b.path,
        ).to_multiset(),
        started(books, images).filter.len() == 0,
        started(books, images).selected == kept_place(
            0,
            started(books, images).shown().len() as int,
        ),
        started(books, images).progress is None,
        !started(books, images).indexing_done,
        started(books, images).sharing is None,
        started(books, images).images == images,
        started(books, images).covers == Map::<Text, bool>::empty(),
{
    let s = AppState {
        filter: Seq::empty(),
        selected: None,
        books: books_by_path(books),
        all_paths: paths_of(books),
        stack: Seq::empty(),
        progress: None,
        indexing_done: false,
        images,
        covers: Map::empty(),
        sharing: None,
    };
    lemma_books_by_path(books);
    lemma_sorted(s);
    law_start_is_well_formed(books, images);
    assert(started(books, images) == s.sorted().rebuilt());
    assert(paths_of(books) =~= books.map_values(|b: BookView| b.path));
}

/// Of the stored books with one path the last one is known.
pub proof fn law_last_stored_book_is_known(
    before: Seq<BookView>,
    b: BookView,
    after: Seq<BookView>,
    images: bool,
)
    requires
        forall|i: int| 0 <= i < after.len() ==> (#[trigger] after[i]).path != b.path,
    ensures
        started(before + seq![b] + after, images).books.contains_key(b.path),
        started(before + seq![b] + after, images).books[b.path] == b,
        !started(after, images).books.contains_key(b.path),
    decreases after.len(),
{
    let all = before + seq![b] + after;
    assert(started(all, images).books == books_by_path(all));
    assert(started(after, images).books == books_by_path(after));
    if after.len() == 0 {
        assert(all.drop_last() =~= before);
        assert(all.last() == b);
    } else {
        let t = after.drop_last();
        assert forall|i: int| 0 <= i < t.len() implies (#[trigger] t[i]).path != b.path by {
            assert(t[i] == after[i]);
        }
        law_last_stored_book_is_known(before, b, t, images);
        assert(started(before + seq![b] + t, images).books == books_by_path(
            before + seq![b] + t,
        ));
        assert(started(t, images).books == books_by_path(t));
        assert(all.drop_last() =~= before + seq![b] + t);
        assert(all.last() == after[after.len() - 1]);
    }
}

/// The cover of the selected book is looked for in the file that is known for
/// it, where images can be shown and it was not looked for before; and what was
/// found before is not looked for again.
pub proof fn law_cover_is_looked_for(s: AppState, p: Text)
    requires
        s.wf(),
        s.selected_path() == Some(p),
        s.books.contains_key(p),
    ensures
        s.covers.contains_key(p) ==> s.cover() == (CoverView::Known {
            path: p,
            found: s.covers[p],
        }),
        !s.covers.contains_key(p) && s.images ==> s.cover() == (CoverView::Load {
            path: p,
            file: s.books[p].cover,
        }),
        !s.covers.contains_key(p) && !s.images ==> s.cover() == (CoverView::Load {
            path: p,
            file: None,
        }),
        !s.images ==> s.cover_file(p) is None,
        s.images ==> s.cover_file(p) == s.books[p].cover,
{
}

/// Without a selection no cover is looked for, and a book that is not known has
/// none.
pub proof fn law_no_selection_is_no_cover(s: AppState, p: Text)
    ensures
        s.selected_path() is None ==> s.cover() is Nothing,
        !s.books.contains_key(p) ==> s.cover_file(p) is None,
{
}

/// What is noted of one cover changes nothing else.
pub proof fn law_one_cover_is_noted(s: AppState, p: Text, found: bool)
    ensures
        s.with_cover(p, found).covers == s.covers.insert(p, found),
        s.with_cover(p, found) == (AppState { covers: s.with_cover(p, found).covers, ..s }),
{
}

/// The selected path is the one at the selected place of what is shown.
pub proof fn law_selected_path_is_shown_there(s: AppState, i: int)
    requires
        s.wf(),
        s.selected == Some(i),
    ensures
        s.selected_path() == Some(s.shown()[i]),
{
}

/// A book is shown for any part of the name of its file that holds neither
/// underscores nor white space.
pub proof fn law_book_is_shown_for_a_part_of_its_name(s: AppState, d: Text, n: Text, part: Text)
    requires
        s.wf(),
        s.current(),
        is_name(n),
        s.books.contains_key(d + seq!['/'] + n),
        has_part(n, part),
        part.len() > 0,
        !part.contains('_'),
        forall|i: int| 0 <= i < part.len() ==> !is_space(#[trigger] part[i]),
    ensures
        s.with_filter(part).shown().contains(d + seq!['/'] + n),
{
    let p = d + seq!['/'] + n;
    let t = s.with_filter(part);
    law_filtering_keeps_wf(s, part);
    assert(t.current());
    law_parts_of_the_name_are_searched(d, n, part);
    assert(t.books[p].path == p);
    law_text_without_space_is_a_word(part);
    law_book_with_the_words_is_shown(t, p);
}

/// A book is shown for any part of its title or of its author that holds no
/// white space.
pub proof fn law_book_is_shown_for_a_part_of_its_title(s: AppState, p: Text, part: Text)
    requires
        s.wf(),
        s.current(),
        s.books.contains_key(p),
        has_part(s.books[p].title, part) || has_part(s.books[p].author, part),
        part.len() > 0,
        forall|i: int| 0 <= i < part.len() ==> !is_space(#[trigger] part[i]),
    ensures
        s.with_filter(part).shown().contains(p),
{
    let t = s.with_filter(part);
    law_filtering_keeps_wf(s, part);
    assert(t.current());
    law_text_without_space_is_a_word(part);
    law_book_with_the_words_is_shown(t, p);
}

/// What is shown for a filter are those of all books, in their order, that are
/// left for its terms.
pub proof fn law_filter_shows_what_is_left(s: AppState, new: Text)
    requires
        s.wf(),
    ensures
        s.with_filter(new).filter == new,
        forall|p: Text| #[trigger]
            s.with_filter(new).shown().contains(p) <==> s.books.contains_key(p) && forall|i: int|
                0 <= i < terms_of(new).len() ==> has_part(
                    s.books[p].search_text,
                    #[trigger] terms_of(new)[i],
                ),
{
    law_incremental_search_is_exact(s, new);
    law_filtering_keeps_wf(s, new);
    let t = s.with_filter(new);
    assert forall|p: Text| #[trigger] t.shown().contains(p) <==> s.books.contains_key(p) && forall|
        i: int,
    |
        0 <= i < terms_of(new).len() ==> has_part(
            s.books[p].search_text,
            #[trigger] terms_of(new)[i],
        ) by {
        law_shown_are_the_matches(t, p);
    }
}

/// To begin sending sends the selected book, from the start; to stop leaves
/// everything else as it is.
pub proof fn law_selected_book_is_sent(s: AppState, p: Text)
    requires
        s.selected_path() == Some(p),
    ensures
        s.shared().sharing is Some,
        s.shared().sharing->0.path == p,
        s.shared().sharing->0.status is Starting,
        s.shared() == (AppState { sharing: s.shared().sharing, ..s }),
        s.unshared().sharing is None,
        s.unshared() == (AppState { sharing: None, ..s }),
{
}

/// Where nothing was selected, the first place is after an update that changes
/// the books.
pub proof fn law_first_place_is_selected_once_there_is_one(
    s: AppState,
    us: Seq<UpdateView>,
    disconnected: bool,
)
    requires
        s.wf(),
        s.selected is None,
    ensures
        s.drained(us, disconnected).selected == kept_place(
            0,
            s.drained(us, disconnected).shown().len() as int,
        ),
{
    lemma_updated_all(s, us);
    law_updates_keep_wf(s, us, disconnected);
}

} // verus!
