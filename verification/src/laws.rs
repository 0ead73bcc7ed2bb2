//! What holds of the search whatever happens: the state stays well formed, what
//! is shown are the books that match the filter, in their order and each once,
//! taking back a character takes back its effect, and the selection stays with
//! its book.

use crate::book::{search_text_of, searchable, spaced_name, BookView};
use crate::filter::{
    in_a_field, law_term_is_found_in_a_field, law_typing_narrows, law_what_was_typed_is_found,
    lemma_words_are_parts, matches_terms, terms_of,
};
use crate::fold::folded;
use crate::order::{key_order, law_listing_is_a_permutation, lemma_key_order_total, Key};
use crate::seqs::{lemma_filter_all_or_none, lemma_filter_distinct, lemma_filter_members};
use crate::state::{
    any_changes_books, books_by_path, changes_books, hit, other_than, paths_of, place_of,
    popped_to, refined, sort_key, sort_keys, started, without, AppState, CoverView, LayerView,
    UpdateView,
};
use crate::store::{loaded, loaded_all, RowView};
use crate::text::{has_part, trimmed, words, Text};
use vstd::prelude::*;
use vstd::relations::sorted_by;

verus! {

/// Putting the paths in order keeps them those of the books.
pub proof fn lemma_sorted(s: AppState)
    requires
        s.paths_wf(),
    ensures
        s.sorted().paths_wf(),
        s.sorted().order_wf(),
        s.sorted().all_paths.to_multiset() == s.all_paths.to_multiset(),
{
    broadcast use vstd::seq_lib::group_to_multiset_ensures;

    let keys = sort_keys(s.books, s.all_paths);
    let order = key_order();
    let sorted = keys.sort_by(order);
    lemma_key_order_total();
    keys.lemma_sort_by_ensures(order);
    law_listing_is_a_permutation(keys);
    assert(keys.map_values(|k: Key| k.2) =~= s.all_paths);
    let paths = s.sorted().all_paths;
    assert forall|p: Text| #[trigger] paths.contains(p) <==> s.books.contains_key(p) by {
        assert(paths.contains(p) <==> paths.to_multiset().count(p) > 0);
        assert(s.all_paths.contains(p) <==> s.all_paths.to_multiset().count(p) > 0);
    }
    assert(sort_keys(s.books, paths) =~= sorted) by {
        assert forall|i: int| 0 <= i < sorted.len() implies sort_keys(s.books, paths)[i]
            == sorted[i] by {
            assert(sorted.contains(sorted[i]));
            assert(keys.contains(sorted[i]));
            let j = choose|j: int| 0 <= j < keys.len() && keys[j] == sorted[i];
            assert(keys[j] == sort_key(s.books, s.all_paths[j]));
            assert(paths[i] == sorted[i].2);
        }
    }
}

/// Picking with a wide choice first and a narrow one then is picking with the
/// narrow one.
proof fn lemma_filter_twice<A>(s: Seq<A>, wide: spec_fn(A) -> bool, narrow: spec_fn(A) -> bool)
    requires
        forall|x: A| #[trigger] narrow(x) ==> wide(x),
    ensures
        s.filter(wide).filter(narrow) == s.filter(narrow),
    decreases s.len(),
{
    reveal(Seq::filter);
    if s.len() > 0 {
        let t = s.drop_last();
        lemma_filter_twice(t, wide, narrow);
        t.filter(wide).lemma_filter_push(s.last(), narrow);
    }
}

/// What is left of a list in order is in order.
proof fn lemma_filter_sorted(books: Map<Text, BookView>, s: Seq<Text>, pred: spec_fn(Text) -> bool)
    requires
        sorted_by(sort_keys(books, s), key_order()),
    ensures
        sorted_by(sort_keys(books, s.filter(pred)), key_order()),
    decreases s.len(),
{
    reveal(Seq::filter);
    if s.len() > 0 {
        let t = s.drop_last();
        let r = key_order();
        assert forall|i: int, j: int| 0 <= i < j < t.len() implies #[trigger] r(
            sort_keys(books, t)[i],
            sort_keys(books, t)[j],
        ) by {
            assert(r(sort_keys(books, s)[i], sort_keys(books, s)[j]));
        }
        lemma_filter_sorted(books, t, pred);
        if pred(s.last()) {
            let f = t.filter(pred);
            let g = f.push(s.last());
            lemma_filter_members(t, pred);
            assert forall|i: int, j: int| 0 <= i < j < g.len() implies #[trigger] r(
                sort_keys(books, g)[i],
                sort_keys(books, g)[j],
            ) by {
                if j < f.len() {
                    assert(r(sort_keys(books, f)[i], sort_keys(books, f)[j]));
                } else {
                    assert(f.contains(f[i]));
                    assert(t.contains(f[i]));
                    let k = choose|k: int| 0 <= k < t.len() && t[k] == f[i];
                    assert(r(sort_keys(books, s)[k], sort_keys(books, s)[s.len() - 1]));
                }
            }
        }
    }
}

/// Without terms and with them, what is left are the paths whose books hold
/// every term, as long as all are paths of books.
pub proof fn lemma_refined(books: Map<Text, BookView>, base: Seq<Text>, terms: Seq<Text>)
    requires
        forall|i: int| 0 <= i < base.len() ==> books.contains_key(#[trigger] base[i]),
    ensures
        refined(books, base, terms) == base.filter(|p: Text| hit(books, terms, p)),
{
    if terms.len() == 0 {
        lemma_filter_all_or_none(base, |p: Text| hit(books, terms, p), true);
    }
}

/// The empty filter has no terms.
pub proof fn lemma_empty_filter()
    ensures
        terms_of(Seq::<char>::empty()) == Seq::<Text>::empty(),
{
    let e = Seq::<char>::empty();
    assert(trimmed(e) == e);
    assert(words(e) == Seq::<Text>::empty());
}

/// Building the layers anew makes the state well formed, and each layer shows
/// exactly the books that match.
pub proof fn law_rebuilding_is_exact(s: AppState)
    requires
        s.paths_wf(),
        s.order_wf(),
        match s.selected {
            Some(i) => 0 <= i,
            None => true,
        },
    ensures
        s.rebuilt().wf(),
{
    lemma_empty_filter();
    let r = s.rebuilt();
    assert(r.stack[0].filter =~= Seq::<char>::empty());
    if s.filter.len() == 0 {
        assert(s.filter =~= Seq::<char>::empty());
    } else {
        assert(r.stack[0].filter =~= r.stack[1].filter.subrange(0, 0));
    }
    assert(r.selection_wf());
}

/// The state at the start is well formed and shows every book.
pub proof fn law_start_is_well_formed(books: Seq<BookView>, images: bool)
    ensures
        started(books, images).wf(),
{
    let s = AppState {
        filter: Seq::empty(),
        selected: None,
        books: books_by_path(books),
        all_paths: paths_of(books),
        stack: Seq::empty(),
        progress: None,
        indexing_done: false,
        images,
        covers: Map::empty(),
        sharing: None,
    };
    lemma_books_by_path(books);
    lemma_sorted(s);
    law_rebuilding_is_exact(s.sorted());
}

/// The paths of the books by path are those of the list.
pub proof fn lemma_books_by_path(books: Seq<BookView>)
    ensures
        forall|p: Text| #[trigger]
            paths_of(books).contains(p) <==> books_by_path(
                books,
            ).contains_key(p),
        forall|p: Text| #[trigger]
            books_by_path(books).contains_key(p) ==> books_by_path(books)[p].path == p,
    decreases books.len(),
{
    if books.len() > 0 {
        let t = books.drop_last();
        lemma_books_by_path(t);
        assert forall|p: Text| #[trigger] paths_of(books).contains(p) <==> books_by_path(
            books,
        ).contains_key(p) by {
            assert(paths_of(books) =~= paths_of(t).push(books.last().path));
            if paths_of(t).contains(p) {
                let i = choose|i: int|
                    0 <= i < paths_of(t).len() && paths_of(t)[i] == p;
                assert(paths_of(books)[i] == p);
            }
            if p == books.last().path {
                assert(paths_of(books)[books.len() - 1] == p);
            }
            if paths_of(books).contains(p) && p != books.last().path {
                let i = choose|i: int|
                    0 <= i < paths_of(books).len() && paths_of(books)[i] == p;
                assert(paths_of(t)[i] == p);
            }
        }
    }
}

/// What is left after taking layers off is a lower part of the layers.
proof fn lemma_popped(stack: Seq<LayerView>, f: Text)
    requires
        stack.len() > 0,
    ensures
        0 < popped_to(stack, f).len() <= stack.len(),
        popped_to(stack, f) == stack.take(popped_to(stack, f).len() as int),
        popped_to(stack, f).len() == 1 || popped_to(stack, f).last().filter == f,
    decreases stack.len(),
{
    if stack.len() > 1 && stack.last().filter != f {
        lemma_popped(stack.drop_last(), f);
        let n = popped_to(stack, f).len() as int;
        assert(stack.drop_last().take(n) =~= stack.take(n));
    } else {
        assert(stack.take(stack.len() as int) =~= stack);
    }
}

/// Setting a filter keeps paths, layers and selection together.
proof fn lemma_filtering_keeps_shape(s: AppState, new: Text)
    requires
        s.shape_wf(),
    ensures
        s.with_filter(new).shape_wf(),
        s.with_filter(new).filter == new,
{
    let cur = s.stack.last().filter;
    let r = s.with_filter(new);
    if new == cur {
    } else if cur.is_prefix_of(new) {
        let layer = LayerView {
            filter: new,
            paths: refined(s.books, s.shown(), terms_of(new)),
        };
        assert(r.stack == s.stack.push(layer));
        assert forall|i: int| 0 < i < r.stack.len() implies (#[trigger] r.stack[i]).paths
            == refined(r.books, r.stack[i - 1].paths, terms_of(r.stack[i].filter)) by {
            if i < s.stack.len() {
                assert(r.stack[i] == s.stack[i]);
            }
            assert(r.stack[i - 1] == s.stack[i - 1]);
        }
        assert forall|i: int| 0 < i < r.stack.len() implies r.stack[i - 1].filter.is_prefix_of(
            (#[trigger] r.stack[i]).filter,
        ) && r.stack[i - 1].filter != r.stack[i].filter by {
            if i < s.stack.len() {
                assert(r.stack[i] == s.stack[i]);
            }
            assert(r.stack[i - 1] == s.stack[i - 1]);
        }
        assert(r.stack[0] == s.stack[0]);
    } else if new.is_prefix_of(cur) {
        let stack = popped_to(s.stack, new);
        lemma_popped(s.stack, new);
        if stack.last().filter != new {
            law_rebuilding_is_exact(AppState { filter: new, stack, ..s });
        } else {
            assert(r.stack == stack);
            assert forall|i: int| 0 < i < r.stack.len() implies (#[trigger] r.stack[i]).paths
                == refined(r.books, r.stack[i - 1].paths, terms_of(r.stack[i].filter)) by {
                assert(r.stack[i] == s.stack[i]);
                assert(r.stack[i - 1] == s.stack[i - 1]);
            }
            assert forall|i: int| 0 < i < r.stack.len() implies r.stack[i - 1].filter.is_prefix_of(
                (#[trigger] r.stack[i]).filter,
            ) && r.stack[i - 1].filter != r.stack[i].filter by {
                assert(r.stack[i] == s.stack[i]);
                assert(r.stack[i - 1] == s.stack[i - 1]);
            }
            assert(r.stack[0] == s.stack[0]);
        }
    } else {
        law_rebuilding_is_exact(AppState { filter: new, ..s });
    }
}

/// Setting a filter keeps the state well formed, and changes nothing but the
/// filter, the layers and the selection.
pub proof fn law_filtering_keeps_wf(s: AppState, new: Text)
    requires
        s.wf(),
    ensures
        s.with_filter(new).wf(),
        s.with_filter(new) == (AppState {
            filter: new,
            stack: s.with_filter(new).stack,
            selected: s.with_filter(new).selected,
            ..s
        }),
{
    lemma_filtering_keeps_shape(s, new);
    if s.filter.is_prefix_of(new) {
        law_typing_narrows(s.filter, new);
    }
    let r = s.with_filter(new);
    let cur = s.stack.last().filter;
    if new == cur {
    } else if cur.is_prefix_of(new) {
        let old_terms = terms_of(cur);
        let new_terms = terms_of(new);
        let wide = |p: Text| hit(s.books, old_terms, p);
        let narrow = |p: Text| hit(s.books, new_terms, p);
        assert forall|i: int| 0 <= i < s.all_paths.len() implies s.books.contains_key(
            #[trigger] s.all_paths[i],
        ) by {
            assert(s.all_paths.contains(s.all_paths[i]));
        }
        lemma_refined(s.books, s.all_paths, old_terms);
        lemma_refined(s.books, s.all_paths, new_terms);
        let shown = s.shown();
        assert(shown == s.stack[s.stack.len() - 1].paths);
        assert(shown == s.all_paths.filter(wide));
        lemma_filter_members(s.all_paths, wide);
        assert forall|i: int| 0 <= i < shown.len() implies s.books.contains_key(
            #[trigger] shown[i],
        ) by {
            assert(shown.contains(shown[i]));
        }
        lemma_refined(s.books, shown, new_terms);
        assert forall|p: Text| #[trigger] narrow(p) implies wide(p) by {
            assert(matches_terms(new_terms, s.books[p].search_text));
        }
        lemma_filter_twice(s.all_paths, wide, narrow);
        assert forall|i: int| 0 <= i < r.stack.len() implies (#[trigger] r.stack[i]).paths
            == refined(r.books, r.all_paths, terms_of(r.stack[i].filter)) by {
            if i < s.stack.len() {
                assert(r.stack[i] == s.stack[i]);
            }
        }
    } else if new.is_prefix_of(cur) {
        let stack = popped_to(s.stack, new);
        lemma_popped(s.stack, new);
        if stack.last().filter != new {
            law_rebuilding_is_exact(AppState { filter: new, stack, ..s });
        } else {
            assert forall|i: int| 0 <= i < r.stack.len() implies (#[trigger] r.stack[i]).paths
                == refined(r.books, r.all_paths, terms_of(r.stack[i].filter)) by {
                assert(r.stack[i] == s.stack[i]);
            }
        }
    } else {
        law_rebuilding_is_exact(AppState { filter: new, ..s });
    }
}

/// Searching while typing gives the same as searching all books anew, whatever
/// filters were set before.
pub proof fn law_incremental_search_is_exact(s: AppState, new: Text)
    requires
        s.wf(),
    ensures
        s.with_filter(new).filter == new,
        s.with_filter(new).shown() == refined(s.books, s.all_paths, terms_of(new)),
{
    law_filtering_keeps_wf(s, new);
    let r = s.with_filter(new);
    assert(r.shown() == r.stack[r.stack.len() - 1].paths);
}

/// A book is shown exactly if it is one of the books and holds every term of
/// the filter.
pub proof fn law_shown_are_the_matches(s: AppState, p: Text)
    requires
        s.wf(),
    ensures
        s.shown().contains(p) <==> s.books.contains_key(p) && matches_terms(
            terms_of(s.filter),
            s.books[p].search_text,
        ),
{
    let terms = terms_of(s.filter);
    let pred = |q: Text| hit(s.books, terms, q);
    assert forall|i: int| 0 <= i < s.all_paths.len() implies s.books.contains_key(
        #[trigger] s.all_paths[i],
    ) by {
        assert(s.all_paths.contains(s.all_paths[i]));
    }
    lemma_refined(s.books, s.all_paths, terms);
    assert(s.shown() == s.stack[s.stack.len() - 1].paths);
    lemma_filter_members(s.all_paths, pred);
    assert(s.all_paths.contains(p) <==> s.books.contains_key(p));
}

/// Typing on and taking back all that was typed leaves the filter and all
/// layers as they were.
pub proof fn law_backspace_takes_back(s: AppState, typed: Text)
    requires
        s.wf(),
    ensures
        s.with_filter(s.filter + typed).with_filter(s.filter) == (AppState {
            selected: s.with_filter(s.filter + typed).with_filter(s.filter).selected,
            ..s
        }),
{
    let f = s.filter;
    let g = f + typed;
    let t = s.with_filter(g);
    if typed.len() == 0 {
        assert(g =~= f);
    } else {
        assert(g.len() != f.len());
        assert(f.is_prefix_of(g)) by {
            assert(g.subrange(0, f.len() as int) =~= f);
        }
        assert(t.stack.drop_last() =~= s.stack);
        assert(!g.is_prefix_of(f));
        assert(t.stack.last().filter == g);
        reveal_with_fuel(popped_to, 2);
        assert(popped_to(t.stack, f) == s.stack);
    }
}

/// Moving the selection keeps the state well formed, and what is shown as it
/// is.
pub proof fn law_moving_keeps_wf(s: AppState, delta: int)
    requires
        s.wf(),
    ensures
        s.moved(delta).wf(),
        s.moved(delta).shown() == s.shown(),
        s.at_first().wf(),
        s.at_last().wf(),
{
}

/// What is left of the paths without `p`.
proof fn lemma_without(paths: Seq<Text>, p: Text)
    ensures
        forall|q: Text| #[trigger] without(paths, p).contains(q) <==> paths.contains(q) && q != p,
        paths.no_duplicates() ==> without(paths, p).no_duplicates(),
{
    lemma_filter_members(paths, other_than(p));
    if paths.no_duplicates() {
        lemma_filter_distinct(paths, other_than(p));
    }
}

/// What an update leaves of the paths are again those of the books.
pub proof fn lemma_updated(s: AppState, u: UpdateView)
    requires
        s.paths_wf(),
    ensures
        s.updated(u).paths_wf(),
        s.updated(u).stack == s.stack,
        s.updated(u).filter == s.filter,
        s.updated(u).selected == s.selected,
        s.updated(u).images == s.images,
        !changes_books(u) ==> s.updated(u).books == s.books && s.updated(u).all_paths
            == s.all_paths,
        s.all_paths.no_duplicates() ==> s.updated(u).all_paths.no_duplicates(),
{
    let t = s.updated(u);
    match u {
        UpdateView::Book(b) => {
            assert forall|p: Text| #[trigger] t.all_paths.contains(p) <==> t.books.contains_key(
                p,
            ) by {
                assert(s.all_paths.contains(p) <==> s.books.contains_key(p));
                if !s.books.contains_key(b.path) {
                    if s.all_paths.contains(p) {
                        let i = choose|i: int| 0 <= i < s.all_paths.len() && s.all_paths[i] == p;
                        assert(t.all_paths[i] == p);
                    }
                    if p == b.path {
                        assert(t.all_paths[s.all_paths.len() as int] == p);
                    }
                }
            }
            assert(s.all_paths.contains(b.path) <==> s.books.contains_key(b.path));
        },
        UpdateView::Removed(q) => {
            lemma_without(s.all_paths, q);
            assert forall|p: Text| #[trigger] t.all_paths.contains(p) <==> t.books.contains_key(
                p,
            ) by {
                assert(s.all_paths.contains(p) <==> s.books.contains_key(p));
            }
        },
        _ => {},
    }
}

/// What a number of updates leave of the paths are again those of the books.
pub proof fn lemma_updated_all(s: AppState, us: Seq<UpdateView>)
    requires
        s.paths_wf(),
    ensures
        s.updated_all(us).paths_wf(),
        s.updated_all(us).stack == s.stack,
        s.updated_all(us).filter == s.filter,
        s.updated_all(us).selected == s.selected,
        s.updated_all(us).images == s.images,
        !any_changes_books(us) ==> s.updated_all(us).books == s.books && s.updated_all(us).all_paths
            == s.all_paths,
        s.all_paths.no_duplicates() ==> s.updated_all(us).all_paths.no_duplicates(),
    decreases us.len(),
{
    if us.len() > 0 {
        let t = us.drop_last();
        lemma_updated_all(s, t);
        lemma_updated(s.updated_all(t), us.last());
        if !any_changes_books(us) {
            assert(!changes_books(us[us.len() - 1]));
            assert forall|i: int| 0 <= i < t.len() implies !changes_books(#[trigger] t[i]) by {
                assert(t[i] == us[i]);
            }
        }
    }
}

/// Where `place_of` finds something it is there and not before, and it finds
/// what is there.
pub proof fn lemma_place_of(paths: Seq<Text>, p: Text)
    ensures
        match place_of(paths, p) {
            Some(i) => 0 <= i < paths.len() && paths[i] == p && forall|j: int|
                0 <= j < i ==> #[trigger] paths[j] != p,
            None => !paths.contains(p),
        },
    decreases paths.len(),
{
    if paths.len() > 0 && paths[0] != p {
        let t = paths.drop_first();
        lemma_place_of(t, p);
        if paths.contains(p) {
            let i = choose|i: int| 0 <= i < paths.len() && paths[i] == p;
            assert(t[i - 1] == p);
        }
        if let Some(i) = place_of(paths, p) {
            assert forall|j: int| 0 <= j < i implies #[trigger] paths[j] != p by {
                if j > 0 {
                    assert(paths[j] == t[j - 1]);
                }
            }
        }
    }
}

/// Taking in the updates of the indexer keeps the state well formed, and what
/// is shown are again exactly the books that match the filter.
pub proof fn law_updates_keep_wf(s: AppState, us: Seq<UpdateView>, disconnected: bool)
    requires
        s.wf(),
    ensures
        s.drained(us, disconnected).wf(),
        s.drained(us, disconnected).filter == s.filter,
{
    let u = s.updated_all(us);
    lemma_updated_all(s, us);
    let t = AppState { indexing_done: u.indexing_done || disconnected, ..u };
    let r = s.drained(us, disconnected);
    if any_changes_books(us) {
        assert(t.paths_wf());
        lemma_sorted(t);
        law_rebuilding_is_exact(t.sorted());
        let next = t.sorted().rebuilt();
        match t.selected_path() {
            Some(p) => {
                lemma_place_of(next.shown(), p);
            },
            None => {},
        }
        assert(r.stack == next.stack);
    } else {
        assert(r.stack == s.stack);
    }
}

/// The selection stays with its book: where the book that was selected is
/// still shown after an update, it is still the one that is selected.
pub proof fn law_selection_stays_with_its_book(
    s: AppState,
    us: Seq<UpdateView>,
    disconnected: bool,
    p: Text,
)
    requires
        s.wf(),
        s.selected_path() == Some(p),
        s.drained(us, disconnected).shown().contains(p),
    ensures
        s.drained(us, disconnected).selected_path() == Some(p),
{
    lemma_updated_all(s, us);
    let u = s.updated_all(us);
    let t = AppState { indexing_done: u.indexing_done || disconnected, ..u };
    if any_changes_books(us) {
        let next = t.sorted().rebuilt();
        assert(t.selected_path() == Some(p));
        lemma_place_of(next.shown(), p);
    }
}

/// What is shown stands in the order in which the books are listed: by title,
/// then author, then path.
pub proof fn law_shown_in_order(s: AppState)
    requires
        s.wf(),
    ensures
        sorted_by(sort_keys(s.books, s.shown()), key_order()),
{
    lemma_layer_in_order(s, s.stack.len() - 1);
}

proof fn lemma_layer_in_order(s: AppState, i: int)
    requires
        s.wf(),
        0 <= i < s.stack.len(),
    ensures
        sorted_by(sort_keys(s.books, s.stack[i].paths), key_order()),
    decreases i,
{
    if i > 0 {
        lemma_layer_in_order(s, i - 1);
        let terms = terms_of(s.stack[i].filter);
        lemma_filter_sorted(
            s.books,
            s.stack[i - 1].paths,
            |p: Text| hit(s.books, terms, p),
        );
    }
}

/// Everything that is shown is the path of a book.
pub proof fn law_shown_are_books(s: AppState)
    requires
        s.wf(),
    ensures
        forall|i: int|
            0 <= i < s.shown().len() ==> s.books.contains_key(#[trigger] s.shown()[i]),
{
    lemma_layer_of_books(s, s.stack.len() - 1);
}

proof fn lemma_layer_of_books(s: AppState, i: int)
    requires
        s.wf(),
        0 <= i < s.stack.len(),
    ensures
        forall|k: int|
            0 <= k < s.stack[i].paths.len() ==> s.books.contains_key(
                #[trigger] s.stack[i].paths[k],
            ),
    decreases i,
{
    let paths = s.stack[i].paths;
    if i > 0 {
        lemma_layer_of_books(s, i - 1);
        let terms = terms_of(s.stack[i].filter);
        let below = s.stack[i - 1].paths;
        lemma_filter_members(below, |p: Text| hit(s.books, terms, p));
        assert forall|k: int| 0 <= k < paths.len() implies s.books.contains_key(
            #[trigger] paths[k],
        ) by {
            assert(paths.contains(paths[k]));
            if terms.len() > 0 {
                assert(below.contains(paths[k]));
            }
        }
    } else {
        assert forall|k: int| 0 <= k < paths.len() implies s.books.contains_key(
            #[trigger] paths[k],
        ) by {
            assert(s.all_paths.contains(paths[k]));
        }
    }
}

/// No book is shown twice, as long as none is listed twice.
pub proof fn law_shown_once(s: AppState)
    requires
        s.wf(),
        s.all_paths.no_duplicates(),
    ensures
        s.shown().no_duplicates(),
{
    lemma_layer_distinct(s, s.stack.len() - 1);
}

proof fn lemma_layer_distinct(s: AppState, i: int)
    requires
        s.wf(),
        s.all_paths.no_duplicates(),
        0 <= i < s.stack.len(),
    ensures
        s.stack[i].paths.no_duplicates(),
    decreases i,
{
    if i > 0 {
        lemma_layer_distinct(s, i - 1);
        let terms = terms_of(s.stack[i].filter);
        lemma_filter_distinct(s.stack[i - 1].paths, |p: Text| hit(s.books, terms, p));
    }
}

/// No book is listed twice: not at the start, where the stored books have
/// different paths, and not after any update.
pub proof fn law_listed_once(
    s: AppState,
    us: Seq<UpdateView>,
    disconnected: bool,
    books: Seq<BookView>,
    images: bool,
)
    ensures
        s.wf() && s.all_paths.no_duplicates() ==> s.drained(
            us,
            disconnected,
        ).all_paths.no_duplicates(),
        paths_of(books).no_duplicates() ==> started(
            books,
            images,
        ).all_paths.no_duplicates(),
{
    if s.wf() && s.all_paths.no_duplicates() {
        lemma_updated_all(s, us);
        let u = s.updated_all(us);
        let t = AppState { indexing_done: u.indexing_done || disconnected, ..u };
        if any_changes_books(us) {
            lemma_sorted(t);
            lemma_distinct_by_multiset(t.all_paths, t.sorted().all_paths);
        }
    }
    let paths = paths_of(books);
    if paths.no_duplicates() {
        let s0 = AppState {
            filter: Seq::empty(),
            selected: None,
            books: books_by_path(books),
            all_paths: paths,
            stack: Seq::empty(),
            progress: None,
            indexing_done: false,
            images,
            covers: Map::empty(),
            sharing: None,
        };
        lemma_books_by_path(books);
        lemma_sorted(s0);
        lemma_distinct_by_multiset(s0.all_paths, s0.sorted().all_paths);
    }
}

proof fn lemma_distinct_by_multiset(a: Seq<Text>, b: Seq<Text>)
    requires
        a.no_duplicates(),
        a.to_multiset() == b.to_multiset(),
    ensures
        b.no_duplicates(),
{
    a.lemma_multiset_has_no_duplicates();
    b.lemma_multiset_has_no_duplicates_conv();
}

/// A book that the indexer reports is known from then on, with the text that it
/// is searched by, and its cover is looked up anew.
pub proof fn law_reported_book_is_known(s: AppState, b: BookView)
    requires
        s.wf(),
    ensures
        s.drained(seq![UpdateView::Book(b)], false).books == s.books.insert(b.path, searchable(b)),
        s.drained(seq![UpdateView::Book(b)], false).all_paths.contains(b.path),
        !s.drained(seq![UpdateView::Book(b)], false).covers.contains_key(b.path),
{
    let us = seq![UpdateView::Book(b)];
    lemma_one_update(s, UpdateView::Book(b));
    assert(changes_books(us[0]));
    law_updates_keep_wf(s, us, false);
    let r = s.drained(us, false);
    assert(r.all_paths.contains(b.path) <==> r.books.contains_key(b.path));
}

/// A book that the indexer reports as removed is neither known nor shown any
/// longer.
pub proof fn law_removed_book_is_gone(s: AppState, p: Text)
    requires
        s.wf(),
    ensures
        s.drained(seq![UpdateView::Removed(p)], false).books == s.books.remove(p),
        !s.drained(seq![UpdateView::Removed(p)], false).all_paths.contains(p),
        !s.drained(seq![UpdateView::Removed(p)], false).shown().contains(p),
        !s.drained(seq![UpdateView::Removed(p)], false).covers.contains_key(p),
{
    let us = seq![UpdateView::Removed(p)];
    lemma_one_update(s, UpdateView::Removed(p));
    assert(changes_books(us[0]));
    law_updates_keep_wf(s, us, false);
    let r = s.drained(us, false);
    assert(r.all_paths.contains(p) <==> r.books.contains_key(p));
    law_shown_are_books(r);
    if r.shown().contains(p) {
        let i = choose|i: int| 0 <= i < r.shown().len() && r.shown()[i] == p;
        assert(r.books.contains_key(r.shown()[i]));
    }
}

proof fn lemma_one_update(s: AppState, u: UpdateView)
    ensures
        s.updated_all(seq![u]) == s.updated(u),
{
    let us = seq![u];
    assert(us.drop_last() =~= Seq::<UpdateView>::empty());
    reveal_with_fuel(AppState::updated_all, 2);
}

/// A cover is loaded once: after that it is known for its path whether there is
/// one, until the indexer reports the book again or removes it.
pub proof fn law_cover_is_loaded_once(s: AppState, p: Text, found: bool, u: UpdateView)
    requires
        s.wf(),
        s.selected_path() == Some(p),
    ensures
        s.with_cover(p, found).wf(),
        s.with_cover(p, found).cover() == (CoverView::Known { path: p, found }),
        s.with_cover(p, found).updated(u).covers.contains_key(p) <==> !(match u {
            UpdateView::Book(b) => b.path == p,
            UpdateView::Removed(q) => q == p,
            _ => false,
        }),
{
}

/// The search text of every book is the one that goes with it: for the books
/// that were loaded, and after every update and every change of the filter.
pub proof fn law_search_text_stays_current(
    s: AppState,
    new: Text,
    us: Seq<UpdateView>,
    disconnected: bool,
    rows: Seq<Option<RowView>>,
    images: bool,
)
    ensures
        started(loaded_all(rows), images).current(),
        s.current() ==> s.with_filter(new).current(),
        s.current() ==> s.drained(us, disconnected).current(),
{
    lemma_loaded_current(rows);
    assert(started(loaded_all(rows), images).books == books_by_path(loaded_all(rows)));
    if s.current() {
        lemma_updated_all_current(s, us);
        assert(s.drained(us, disconnected).books == s.updated_all(us).books);
    }
}

proof fn lemma_loaded_current(rows: Seq<Option<RowView>>)
    ensures
        forall|p: Text| #[trigger]
            books_by_path(loaded_all(rows)).contains_key(p) ==> books_by_path(
                loaded_all(rows),
            )[p].search_text == search_text_of(books_by_path(loaded_all(rows))[p]),
    decreases rows.len(),
{
    if rows.len() > 0 {
        lemma_loaded_current(rows.drop_last());
        if let Some(row) = rows.last() {
            let before = loaded_all(rows.drop_last());
            assert(before.push(loaded(row)).drop_last() =~= before);
        }
    }
}

proof fn lemma_updated_all_current(s: AppState, us: Seq<UpdateView>)
    requires
        s.current(),
    ensures
        s.updated_all(us).current(),
    decreases us.len(),
{
    if us.len() > 0 {
        lemma_updated_all_current(s, us.drop_last());
    }
}

/// A book is shown exactly if every term of the filter stands in its file name
/// (with spaces for underscores), in its title or in its author, each in the
/// form in which it is compared.
pub proof fn law_book_is_shown_if_its_fields_hold_the_terms(s: AppState, p: Text)
    requires
        s.wf(),
        s.current(),
        s.books.contains_key(p),
    ensures
        s.shown().contains(p) <==> forall|i: int|
            0 <= i < terms_of(s.filter).len() ==> in_a_field(
                s.books[p],
                #[trigger] terms_of(s.filter)[i],
            ),
{
    let terms = terms_of(s.filter);
    let b = s.books[p];
    law_shown_are_the_matches(s, p);
    lemma_words_are_parts(folded(trimmed(s.filter)));
    assert forall|i: int| 0 <= i < terms.len() implies has_part(
        b.search_text,
        #[trigger] terms[i],
    ) == in_a_field(b, terms[i]) by {
        law_term_is_found_in_a_field(b, terms[i]);
    }
}

/// A book that holds the words of the filter as they were typed, each in its
/// file name, its title or its author, is shown.
pub proof fn law_book_with_the_words_is_shown(s: AppState, p: Text)
    requires
        s.wf(),
        s.current(),
        s.books.contains_key(p),
        forall|j: int|
            0 <= j < words(s.filter).len() ==> has_part(
                spaced_name(s.books[p].path),
                #[trigger] words(s.filter)[j],
            ) || has_part(s.books[p].title, words(s.filter)[j]) || has_part(
                s.books[p].author,
                words(s.filter)[j],
            ),
    ensures
        s.shown().contains(p),
{
    law_what_was_typed_is_found(s.books[p], s.filter);
    law_shown_are_the_matches(s, p);
}

} // verus!
