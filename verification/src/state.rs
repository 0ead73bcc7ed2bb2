//! The state of the search as the contracts see it: the books, the list of
//! their paths, the layers of filtered lists, and the selection; how each
//! event changes it, and what holds of every state.

use crate::book::{search_text_of, searchable, BookView};
use crate::filter::{matches_terms, terms_of};
use crate::order::{key_order, listed, Key};
use crate::text::{lower, Text};
use vstd::prelude::*;
use vstd::relations::sorted_by;

verus! {

/// A filter and the paths of the books that were left when it was applied to
/// the layer below.
#[verifier::ext_equal]
pub struct LayerView {
    pub filter: Text,
    pub paths: Seq<Text>,
}

/// News from the indexer.
pub enum UpdateView {
    Total(usize),
    Book(BookView),
    Removed(Text),
    Progress { done: usize, total: usize },
    Done,
}

/// What is to be done for the cover of the selected book.
pub enum CoverView {
    /// Nothing is selected.
    Nothing,
    /// It is known whether there is a cover to show for this path.
    Known { path: Text, found: bool },
    /// The cover for this path is to be loaded from the file, if there is one.
    Load { path: Text, file: Option<Text> },
}

/// How far the sending of a book has come.
pub enum ShareStatusView {
    /// There is no code yet.
    Starting,
    /// The code by which the other side receives it.
    Code(Text),
    /// It was sent.
    Sent,
    /// It could not be sent.
    Failed,
}

/// A book that is being sent to someone.
pub struct ShareView {
    pub path: Text,
    pub status: ShareStatusView,
}

/// The state of the search.
#[verifier::ext_equal]
pub struct AppState {
    pub filter: Text,
    /// The place in the list of what is shown that is selected.
    pub selected: Option<int>,
    pub books: Map<Text, BookView>,
    pub all_paths: Seq<Text>,
    /// The bottom layer has the empty filter and all paths; each layer refines
    /// the one below; the top layer is what is shown.
    pub stack: Seq<LayerView>,
    pub progress: Option<(usize, usize)>,
    pub indexing_done: bool,
    /// Whether the terminal can show images.
    pub images: bool,
    /// The paths for which it is known whether there is a cover to show.
    pub covers: Map<Text, bool>,
    /// The book that is being sent, while that is shown in place of the search.
    pub sharing: Option<ShareView>,
}

/// What the book at `p` is listed by.
pub open spec fn sort_key(books: Map<Text, BookView>, p: Text) -> Key {
    (lower(books[p].title), lower(books[p].author), p)
}

/// The keys of the books at `paths`.
pub open spec fn sort_keys(books: Map<Text, BookView>, paths: Seq<Text>) -> Seq<Key> {
    paths.map_values(|p: Text| sort_key(books, p))
}

/// Whether the book at `p` holds every one of the terms.
pub open spec fn hit(books: Map<Text, BookView>, terms: Seq<Text>, p: Text) -> bool {
    books.contains_key(p) && matches_terms(terms, books[p].search_text)
}

/// The paths of `base` whose books hold every one of the terms, in the same
/// order; all of them where there are no terms.
pub open spec fn refined(
    books: Map<Text, BookView>,
    base: Seq<Text>,
    terms: Seq<Text>,
) -> Seq<Text> {
    if terms.len() == 0 {
        base
    } else {
        base.filter(|p: Text| hit(books, terms, p))
    }
}

/// The layers without those above the uppermost one with the filter `f`; the
/// bottom layer alone where none has it.
pub open spec fn popped_to(stack: Seq<LayerView>, f: Text) -> Seq<LayerView>
    decreases stack.len(),
{
    if stack.len() > 1 && stack.last().filter != f {
        popped_to(stack.drop_last(), f)
    } else {
        stack
    }
}

/// The first place of `p` in `paths`.
pub open spec fn place_of(paths: Seq<Text>, p: Text) -> Option<int>
    decreases paths.len(),
{
    if paths.len() == 0 {
        None
    } else if paths[0] == p {
        Some(0)
    } else {
        match place_of(paths.drop_first(), p) {
            Some(i) => Some(i + 1),
            None => None,
        }
    }
}

/// Tells the paths that are not `p`.
pub open spec fn other_than(p: Text) -> spec_fn(Text) -> bool {
    |q: Text| q != p
}

/// The paths other than `p`.
pub open spec fn without(paths: Seq<Text>, p: Text) -> Seq<Text> {
    paths.filter(other_than(p))
}

/// Whether the update changes the books.
pub open spec fn changes_books(u: UpdateView) -> bool {
    u is Book || u is Removed
}

/// Whether one of the updates changes the books.
pub open spec fn any_changes_books(us: Seq<UpdateView>) -> bool {
    exists|i: int| 0 <= i < us.len() && changes_books(#[trigger] us[i])
}

impl AppState {
    /// The paths that are shown.
    pub open spec fn shown(self) -> Seq<Text> {
        self.stack.last().paths
    }

    /// The path that is selected.
    pub open spec fn selected_path(self) -> Option<Text> {
        match self.selected {
            Some(i) => if 0 <= i < self.shown().len() {
                Some(self.shown()[i])
            } else {
                None
            },
            None => None,
        }
    }

    /// The selection, moved to the last place where it lay beyond, and to the
    /// first where there was none; none where nothing is shown.
    pub open spec fn clamped(self) -> AppState {
        let len = self.shown().len() as int;
        let cur = match self.selected {
            Some(i) => i,
            None => 0,
        };
        AppState {
            selected: if len == 0 {
                None
            } else if cur < len {
                Some(cur)
            } else {
                Some(len - 1)
            },
            ..self
        }
    }

    /// The layers built anew from all paths and the filter.
    pub open spec fn rebuilt(self) -> AppState {
        let base = LayerView { filter: Seq::empty(), paths: self.all_paths };
        let stack = if self.filter.len() == 0 {
            seq![base]
        } else {
            seq![
                base,
                LayerView {
                    filter: self.filter,
                    paths: refined(self.books, self.all_paths, terms_of(self.filter)),
                },
            ]
        };
        (AppState { stack, ..self }).clamped()
    }

    /// The paths put in the order in which the books are listed.
    pub open spec fn sorted(self) -> AppState {
        AppState { all_paths: listed(sort_keys(self.books, self.all_paths)), ..self }
    }

    /// The state with another filter. A filter that goes on where the current
    /// one ends refines what is shown; one that the current one goes on from
    /// brings back the layer that it had, if there is one; in all other cases
    /// the layers are built anew.
    pub open spec fn with_filter(self, new: Text) -> AppState {
        let cur = self.stack.last().filter;
        if new == cur {
            AppState { filter: new, ..self }
        } else if cur.is_prefix_of(new) {
            let layer = LayerView {
                filter: new,
                paths: refined(self.books, self.shown(), terms_of(new)),
            };
            (AppState { filter: new, stack: self.stack.push(layer), ..self }).clamped()
        } else if new.is_prefix_of(cur) {
            let stack = popped_to(self.stack, new);
            if stack.last().filter != new {
                (AppState { filter: new, stack, ..self }).rebuilt()
            } else {
                (AppState { filter: new, stack, ..self }).clamped()
            }
        } else {
            (AppState { filter: new, ..self }).rebuilt()
        }
    }

    /// The selection moved by `delta` places, but not beyond the ends of what
    /// is shown.
    pub open spec fn moved(self, delta: int) -> AppState {
        let len = self.shown().len() as int;
        let cur = match self.selected {
            Some(i) => i,
            None => 0,
        };
        if len == 0 {
            self
        } else {
            AppState {
                selected: if cur + delta < 0 {
                    Some(0)
                } else if cur + delta >= len {
                    Some(len - 1)
                } else {
                    Some(cur + delta)
                },
                ..self
            }
        }
    }

    /// The first place selected; nothing where nothing is shown.
    pub open spec fn at_first(self) -> AppState {
        AppState {
            selected: if self.shown().len() == 0 {
                None
            } else {
                Some(0)
            },
            ..self
        }
    }

    /// The last place selected.
    pub open spec fn at_last(self) -> AppState {
        if self.shown().len() == 0 {
            self
        } else {
            AppState { selected: Some(self.shown().len() - 1), ..self }
        }
    }

    /// The books, the paths, the progress and the covers after one update; the
    /// layers are left as they are.
    pub open spec fn updated(self, u: UpdateView) -> AppState {
        match u {
            UpdateView::Total(t) => AppState { progress: Some((0, t)), ..self },
            UpdateView::Progress { done, total } => AppState {
                progress: Some((done, total)),
                ..self
            },
            UpdateView::Book(b) => AppState {
                books: self.books.insert(b.path, searchable(b)),
                all_paths: if self.books.contains_key(b.path) {
                    self.all_paths
                } else {
                    self.all_paths.push(b.path)
                },
                covers: self.covers.remove(b.path),
                ..self
            },
            UpdateView::Removed(p) => AppState {
                books: self.books.remove(p),
                all_paths: without(self.all_paths, p),
                covers: self.covers.remove(p),
                ..self
            },
            UpdateView::Done => AppState { indexing_done: true, ..self },
        }
    }

    /// The state after a number of updates.
    pub open spec fn updated_all(self, us: Seq<UpdateView>) -> AppState
        decreases us.len(),
    {
        if us.len() == 0 {
            self
        } else {
            self.updated_all(us.drop_last()).updated(us.last())
        }
    }

    /// The list sorted and the layers built anew, with the book selected that
    /// was selected before, if it is still shown.
    pub open spec fn refreshed(self) -> AppState {
        let prev = self.selected_path();
        let next = self.sorted().rebuilt();
        match prev {
            Some(p) => match place_of(next.shown(), p) {
                Some(i) => AppState { selected: Some(i), ..next },
                None => next,
            },
            None => next,
        }
    }

    /// The state after all updates that were waiting. The list is put in order
    /// if a book came or went. Where the indexer is gone, indexing is done.
    pub open spec fn drained(self, us: Seq<UpdateView>, disconnected: bool) -> AppState {
        let s = self.updated_all(us);
        let t = AppState { indexing_done: s.indexing_done || disconnected, ..s };
        if any_changes_books(us) {
            t.refreshed()
        } else {
            t
        }
    }

    /// The file with the cover of the book at `p`, where images can be shown.
    pub open spec fn cover_file(self, p: Text) -> Option<Text> {
        if self.images && self.books.contains_key(p) {
            self.books[p].cover
        } else {
            None
        }
    }

    /// What is to be done for the cover of the selected book.
    pub open spec fn cover(self) -> CoverView {
        match self.selected_path() {
            None => CoverView::Nothing,
            Some(p) => if self.covers.contains_key(p) {
                CoverView::Known { path: p, found: self.covers[p] }
            } else {
                CoverView::Load { path: p, file: self.cover_file(p) }
            },
        }
    }

    /// The state once it is known whether there is a cover to show for `p`.
    pub open spec fn with_cover(self, p: Text, found: bool) -> AppState {
        AppState { covers: self.covers.insert(p, found), ..self }
    }

    /// The state once the selected book is being sent; nothing changes where
    /// none is selected.
    pub open spec fn shared(self) -> AppState {
        match self.selected_path() {
            Some(path) => AppState {
                sharing: Some(ShareView { path, status: ShareStatusView::Starting }),
                ..self
            },
            None => self,
        }
    }

    /// The state once nothing is being sent any longer.
    pub open spec fn unshared(self) -> AppState {
        AppState { sharing: None, ..self }
    }

    /// The state once the sending has come so far; nothing changes where
    /// nothing is being sent.
    pub open spec fn with_share_status(self, status: ShareStatusView) -> AppState {
        match self.sharing {
            Some(share) => AppState { sharing: Some(ShareView { status, ..share }), ..self },
            None => self,
        }
    }

    /// Whether the paths are those of the books.
    pub open spec fn paths_wf(self) -> bool {
        &&& forall|p: Text| #[trigger] self.all_paths.contains(p) <==> self.books.contains_key(p)
        &&& forall|p: Text| #[trigger] self.books.contains_key(p) ==> self.books[p].path == p
    }

    /// Whether the layers stand as described, the top one with the filter.
    pub open spec fn stack_wf(self) -> bool {
        &&& self.stack.len() > 0
        &&& self.stack[0] == (LayerView { filter: Seq::empty(), paths: self.all_paths })
        &&& self.stack.last().filter == self.filter
        &&& forall|i: int|
            0 < i < self.stack.len() ==> (#[trigger] self.stack[i]).paths == refined(
                self.books,
                self.stack[i - 1].paths,
                terms_of(self.stack[i].filter),
            )
        &&& forall|i: int|
            0 < i < self.stack.len() ==> self.stack[i - 1].filter.is_prefix_of(
                (#[trigger] self.stack[i]).filter,
            ) && self.stack[i - 1].filter != self.stack[i].filter
    }

    /// Whether the paths are in the order in which the books are listed.
    pub open spec fn order_wf(self) -> bool {
        sorted_by(sort_keys(self.books, self.all_paths), key_order())
    }

    /// Whether something is selected exactly if something is shown, and lies in
    /// it.
    pub open spec fn selection_wf(self) -> bool {
        match self.selected {
            Some(i) => 0 <= i < self.shown().len(),
            None => self.shown().len() == 0,
        }
    }

    /// Whether paths, layers and selection go together.
    pub open spec fn shape_wf(self) -> bool {
        &&& self.paths_wf()
        &&& self.stack_wf()
        &&& self.order_wf()
        &&& self.selection_wf()
    }

    /// What holds of the state at all times: paths, layers and selection go
    /// together, and what is shown are exactly the books that match.
    pub open spec fn wf(self) -> bool {
        self.shape_wf() && self.exact()
    }

    /// Whether each layer shows exactly the books that match its filter, and
    /// so what is shown are exactly the books that match the filter.
    pub open spec fn exact(self) -> bool {
        forall|i: int|
            0 <= i < self.stack.len() ==> (#[trigger] self.stack[i]).paths == refined(
                self.books,
                self.all_paths,
                terms_of(self.stack[i].filter),
            )
    }

    /// Whether every book has the search text that goes with its path, title
    /// and author.
    pub open spec fn current(self) -> bool {
        forall|p: Text| #[trigger]
            self.books.contains_key(p) ==> self.books[p].search_text == search_text_of(
                self.books[p],
            )
    }
}

/// The state at the start: the books that were stored, put in order, with no
/// filter.
pub open spec fn started(books: Seq<BookView>, images: bool) -> AppState {
    (AppState {
        filter: Seq::empty(),
        selected: None,
        books: books_by_path(books),
        all_paths: paths_of(books),
        stack: Seq::empty(),
        progress: None,
        indexing_done: false,
        images,
        covers: Map::empty(),
        sharing: None,
    }).sorted().rebuilt()
}

/// The paths of a list of books.
pub open spec fn paths_of(books: Seq<BookView>) -> Seq<Text> {
    books.map_values(|b: BookView| b.path)
}

/// The books by their paths; of two with the same path the later stands.
pub open spec fn books_by_path(books: Seq<BookView>) -> Map<Text, BookView>
    decreases books.len(),
{
    if books.len() == 0 {
        Map::empty()
    } else {
        books_by_path(books.drop_last()).insert(books.last().path, books.last())
    }
}

} // verus!
