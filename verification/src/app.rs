//! The search itself: the books, what is shown of them for the filter, and the
//! selection.

use crate::book::{book_views, make_searchable, opt_text, BookEntry, BookView};
use crate::filter::{matches_all, parse_terms, terms_of};
use crate::laws::{
    law_filtering_keeps_wf, law_incremental_search_is_exact, law_moving_keeps_wf,
    law_rebuilding_is_exact, law_shown_are_books, law_start_is_well_formed, law_updates_keep_wf,
    lemma_books_by_path, lemma_sorted, lemma_updated_all,
};
use crate::order::{key_views, list_in_order, SortKey};
use crate::state::{
    any_changes_books, books_by_path, changes_books, hit, other_than, paths_of, place_of,
    popped_to, refined, sort_key, sort_keys, started, without, AppState, CoverView, LayerView,
    ShareStatusView, ShareView, UpdateView,
};
use crate::text::{starts_with, texts, to_lower, Text};
use vstd::hash_map::StringHashMap;
use vstd::prelude::*;

verus! {

/// A filter and the paths of the books that were left when it was applied to
/// the layer below.
pub struct Layer {
    pub filter: String,
    pub paths: Vec<String>,
}

impl View for Layer {
    type V = LayerView;

    open spec fn view(&self) -> LayerView {
        LayerView { filter: self.filter@, paths: texts(self.paths@) }
    }
}

/// News from the indexer.
pub enum IndexUpdate {
    /// So many books are to be indexed.
    Total(usize),
    /// A book was indexed.
    Book(BookEntry),
    /// The book at this path is gone.
    Removed(String),
    /// So many of the books are indexed.
    Progress { done: usize, total: usize },
    /// Indexing is done.
    Done,
}

impl View for IndexUpdate {
    type V = UpdateView;

    open spec fn view(&self) -> UpdateView {
        match *self {
            IndexUpdate::Total(t) => UpdateView::Total(t),
            IndexUpdate::Book(b) => UpdateView::Book(b@),
            IndexUpdate::Removed(p) => UpdateView::Removed(p@),
            IndexUpdate::Progress { done, total } => UpdateView::Progress { done, total },
            IndexUpdate::Done => UpdateView::Done,
        }
    }
}

/// What is to be done for the cover of the selected book.
pub enum CoverLookup {
    /// Nothing is selected.
    Nothing,
    /// It is known whether there is a cover to show for this path.
    Known { path: String, found: bool },
    /// The cover for this path is to be loaded from the file, if there is one.
    Load { path: String, file: Option<String> },
}

impl View for CoverLookup {
    type V = CoverView;

    open spec fn view(&self) -> CoverView {
        match *self {
            CoverLookup::Nothing => CoverView::Nothing,
            CoverLookup::Known { path, found } => CoverView::Known { path: path@, found },
            CoverLookup::Load { path, file } => CoverView::Load {
                path: path@,
                file: opt_text(file),
            },
        }
    }
}

/// How far the sending of a book has come.
pub enum ShareStatus {
    /// There is no code yet.
    Starting,
    /// The code by which the other side receives it.
    Code(String),
    /// It was sent.
    Sent,
    /// It could not be sent.
    Failed,
}

impl View for ShareStatus {
    type V = ShareStatusView;

    open spec fn view(&self) -> ShareStatusView {
        match *self {
            ShareStatus::Starting => ShareStatusView::Starting,
            ShareStatus::Code(code) => ShareStatusView::Code(code@),
            ShareStatus::Sent => ShareStatusView::Sent,
            ShareStatus::Failed => ShareStatusView::Failed,
        }
    }
}

/// A book that is being sent to someone.
pub struct Share {
    pub path: String,
    pub status: ShareStatus,
}

impl View for Share {
    type V = ShareView;

    open spec fn view(&self) -> ShareView {
        ShareView { path: self.path@, status: self.status@ }
    }
}

/// What a list of updates stands for.
pub open spec fn update_views(us: Seq<IndexUpdate>) -> Seq<UpdateView> {
    us.map_values(|u: IndexUpdate| u@)
}

/// The search. Its layers are a stack of filters with the paths that match
/// them: the bottom one has the empty filter and all paths, each character that
/// is typed adds a layer that refines the one below, taking it back removes the
/// layer, and the top layer is what is shown.
pub struct App {
    filter: String,
    selected: Option<usize>,
    books: StringHashMap<BookEntry>,
    all_paths: Vec<String>,
    filter_stack: Vec<Layer>,
    progress: Option<(usize, usize)>,
    indexing_done: bool,
    images: bool,
    cover_cache: StringHashMap<bool>,
    sharing: Option<Share>,
}

/// The books of a map as the contracts see them.
pub open spec fn map_views(m: Map<Text, BookEntry>) -> Map<Text, BookView> {
    m.map_values(|b: BookEntry| b@)
}

/// The layers of a stack as the contracts see them.
pub open spec fn layer_views(v: Seq<Layer>) -> Seq<LayerView> {
    v.map_values(|l: Layer| l@)
}

impl View for App {
    type V = AppState;

    closed spec fn view(&self) -> AppState {
        AppState {
            filter: self.filter@,
            selected: match self.selected {
                Some(i) => Some(i as int),
                None => None,
            },
            books: map_views(self.books@),
            all_paths: texts(self.all_paths@),
            stack: layer_views(self.filter_stack@),
            progress: self.progress,
            indexing_done: self.indexing_done,
            images: self.images,
            covers: self.cover_cache@,
            sharing: match self.sharing {
                Some(share) => Some(share@),
                None => None,
            },
        }
    }
}

/// Copies a list of strings.
fn copy_list(v: &Vec<String>) -> (r: Vec<String>)
    ensures
        texts(r@) == texts(v@),
{
    let mut r: Vec<String> = Vec::new();
    let mut i: usize = 0;
    while i < v.len()
        invariant
            i <= v@.len(),
            texts(r@) == texts(v@).take(i as int),
        decreases v@.len() - i,
    {
        let s = v[i].clone();
        let ghost before = texts(r@);
        r.push(s);
        assert(texts(r@) == before.push(s@));
        assert(texts(v@).take(i + 1) == texts(v@).take(i as int).push(texts(v@)[i as int]));
        i += 1;
    }
    assert(texts(v@).take(v@.len() as int) == texts(v@));
    r
}

/// The first place of `p` in `paths`.
fn position(paths: &Vec<String>, p: &String) -> (r: Option<usize>)
    ensures
        match r {
            Some(i) => place_of(texts(paths@), p@) == Some(i as int),
            None => place_of(texts(paths@), p@) is None,
        },
{
    let ghost all = texts(paths@);
    let mut i: usize = 0;
    assert(all.skip(0) == all);
    while i < paths.len()
        invariant
            i <= paths@.len(),
            all == texts(paths@),
            place_of(all, p@) == (match place_of(all.skip(i as int), p@) {
                Some(k) => Some(k + i),
                None => None,
            }),
        decreases paths@.len() - i,
    {
        assert(all.skip(i as int)[0] == paths@[i as int]@);
        if paths[i] == *p {
            return Some(i);
        }
        assert(all.skip(i as int).drop_first() == all.skip(i + 1));
        i += 1;
    }
    None
}

impl App {
    /// The search over the books that were stored. `images` tells whether the
    /// terminal can show images.
    pub fn new(initial: Vec<BookEntry>, images: bool) -> (r: App)
        ensures
            r@ == started(book_views(initial@), images),
            r@.wf(),
    {
        let ghost all = book_views(initial@);
        let mut books: StringHashMap<BookEntry> = StringHashMap::new();
        let mut all_paths: Vec<String> = Vec::new();
        assert(all.take(0) == Seq::<BookView>::empty());
        assert(map_views(books@) == Map::<Text, BookView>::empty());
        for b in it: initial
            invariant
                it.seq() == initial@,
                all == book_views(initial@),
                map_views(books@) == books_by_path(all.take(it.index())),
                texts(all_paths@) == paths_of(all.take(it.index())),
        {
            let ghost n = it.index();
            let ghost next = all.take(n + 1);
            let ghost paths = texts(all_paths@);
            let ghost old_books = books@;
            proof {
                assert(next.drop_last() == all.take(n));
                assert(next.last() == b@);
            }
            let path = b.path.clone();
            all_paths.push(b.path.clone());
            books.insert(path, b);
            assert(texts(all_paths@) == paths.push(b@.path));
            assert(paths_of(next) == paths_of(all.take(n)).push(b@.path));
            assert(map_views(books@) =~= map_views(old_books).insert(b@.path, b@));
        }
        assert(all.take(all.len() as int) == all);
        let mut app = App {
            filter: String::new(),
            selected: None,
            books,
            all_paths,
            filter_stack: Vec::new(),
            progress: None,
            indexing_done: false,
            images,
            cover_cache: StringHashMap::new(),
            sharing: None,
        };
        assert(app@.stack =~= Seq::<LayerView>::empty());
        assert(app@.filter =~= Seq::<char>::empty());
        assert(app@.covers =~= Map::<Text, bool>::empty());
        let ghost start = app@;
        proof {
            lemma_books_by_path(all);
        }
        app.sort_paths();
        proof {
            lemma_sorted(start);
        }
        app.rebuild_filter_stack();
        proof {
            law_start_is_well_formed(all, images);
        }
        app
    }

    /// The paths that are shown.
    pub fn filtered(&self) -> (r: &Vec<String>)
        requires
            self@.wf(),
        ensures
            texts(r@) == self@.shown(),
    {
        let top = self.filter_stack.len() - 1;
        &self.filter_stack[top].paths
    }

    /// Puts the paths in the order in which the books are listed.
    fn sort_paths(&mut self)
        requires
            old(self)@.paths_wf(),
        ensures
            final(self)@ == old(self)@.sorted(),
    {
        let ghost paths = self@.all_paths;
        let ghost books = self@.books;
        let mut keys: Vec<SortKey> = Vec::new();
        let mut i: usize = 0;
        while i < self.all_paths.len()
            invariant
                *self == *old(self),
                self@.paths_wf(),
                i <= self.all_paths@.len(),
                paths == self@.all_paths,
                books == self@.books,
                key_views(keys@) == sort_keys(books, paths).take(i as int),
            decreases self.all_paths@.len() - i,
        {
            let path = self.all_paths[i].clone();
            proof {
                assert(paths[i as int] == path@);
                assert(paths.contains(path@));
                assert(books.contains_key(path@));
            }
            let book = self.books.get(path.as_str()).unwrap();
            let title = to_lower(book.title.as_str());
            let author = to_lower(book.author.as_str());
            let ghost before = key_views(keys@);
            let key = SortKey { title, author, path };
            keys.push(key);
            proof {
                assert(key_views(keys@) == before.push(key@));
                assert(key@ == sort_key(books, paths[i as int]));
            }
            i += 1;
        }
        assert(sort_keys(books, paths).take(paths.len() as int) == sort_keys(books, paths));
        self.all_paths = list_in_order(&keys);
    }

    /// The paths of `base` whose books hold every one of the terms; all of them
    /// where there are no terms.
    pub fn refine_paths(&self, base: &Vec<String>, terms: &Vec<String>) -> (r: Vec<String>)
        ensures
            texts(r@) == refined(self@.books, texts(base@), texts(terms@)),
    {
        if terms.len() == 0 {
            return copy_list(base);
        }
        let ghost all = texts(base@);
        let ghost books = self@.books;
        let ghost wanted = texts(terms@);
        let ghost pred = |p: Text| hit(books, wanted, p);
        let mut r: Vec<String> = Vec::new();
        let mut i: usize = 0;
        assert(all.take(0).filter(pred) == Seq::<Text>::empty()) by {
            reveal(Seq::filter);
        }
        while i < base.len()
            invariant
                i <= base@.len(),
                all == texts(base@),
                books == self@.books,
                wanted == texts(terms@),
                pred == (|p: Text| hit(books, wanted, p)),
                texts(r@) == all.take(i as int).filter(pred),
            decreases base@.len() - i,
        {
            let ghost p = all[i as int];
            assert(p == base@[i as int]@);
            assert(all.take(i + 1) == all.take(i as int).push(p));
            proof {
                all.take(i as int).lemma_filter_push(p, pred);
            }
            let keep = match self.books.get(base[i].as_str()) {
                Some(b) => matches_all(terms, b.search_text.as_str()),
                None => false,
            };
            assert(keep == pred(p));
            if keep {
                let s = base[i].clone();
                let ghost before = texts(r@);
                r.push(s);
                assert(texts(r@) == before.push(s@));
            }
            i += 1;
        }
        assert(all.take(all.len() as int) == all);
        r
    }

    /// Brings the selection back into what is shown.
    fn clamp_selection(&mut self)
        requires
            old(self)@.stack.len() > 0,
        ensures
            final(self)@ == old(self)@.clamped(),
    {
        let top = self.filter_stack.len() - 1;
        let len: usize = self.filter_stack[top].paths.len();
        assert(self@.shown().len() == len);
        if len == 0 {
            self.selected = None;
        } else {
            let cur: usize = match self.selected {
                Some(i) => i,
                None => 0,
            };
            self.selected = if cur < len {
                Some(cur)
            } else {
                Some(len - 1)
            };
        }
    }

    /// Builds the layers anew from all paths and the filter. This is done when
    /// the books have changed, so that the layers are stale, or when a filter
    /// is set that has nothing to do with the one before.
    fn rebuild_filter_stack(&mut self)
        ensures
            final(self)@ == old(self)@.rebuilt(),
    {
        let base = Layer { filter: String::new(), paths: copy_list(&self.all_paths) };
        let ghost bottom = base@;
        assert(bottom.filter =~= Seq::<char>::empty());
        let mut stack: Vec<Layer> = Vec::new();
        stack.push(base);
        if !self.filter.as_str().is_empty() {
            let terms = parse_terms(self.filter.as_str());
            let paths = self.refine_paths(&self.all_paths, &terms);
            let layer = Layer { filter: self.filter.clone(), paths };
            stack.push(layer);
            assert(layer_views(stack@) =~= seq![bottom, layer@]);
        } else {
            assert(layer_views(stack@) =~= seq![bottom]);
        }
        self.filter_stack = stack;
        self.clamp_selection();
    }

    /// Sets the filter. The layers are used as far as they go: a filter that
    /// continues the current one refines only what is shown, and one that the
    /// current one continues brings back its layer.
    pub fn set_filter(&mut self, new_filter: String)
        requires
            old(self)@.wf(),
        ensures
            final(self)@ == old(self)@.with_filter(new_filter@),
            final(self)@.shown() == refined(
                old(self)@.books,
                old(self)@.all_paths,
                terms_of(new_filter@),
            ),
            final(self)@.wf(),
    {
        proof {
            law_filtering_keeps_wf(self@, new_filter@);
            law_incremental_search_is_exact(self@, new_filter@);
        }
        let top = self.filter_stack.len() - 1;
        let cur = self.filter_stack[top].filter.clone();
        assert(cur@ == self@.stack.last().filter);
        if new_filter == cur {
            self.filter = new_filter;
            return;
        }
        if starts_with(new_filter.as_str(), cur.as_str()) {
            let terms = parse_terms(new_filter.as_str());
            let paths = self.refine_paths(&self.filter_stack[top].paths, &terms);
            let ghost before = layer_views(self.filter_stack@);
            let layer = Layer { filter: new_filter.clone(), paths };
            self.filter_stack.push(layer);
            assert(layer_views(self.filter_stack@) == before.push(layer@));
            self.filter = new_filter;
            self.clamp_selection();
        } else if starts_with(cur.as_str(), new_filter.as_str()) {
            self.pop_to(&new_filter);
            let top = self.filter_stack.len() - 1;
            let found = self.filter_stack[top].filter == new_filter;
            assert(self@.stack.last().filter == self.filter_stack@[top as int].filter@);
            self.filter = new_filter;
            if found {
                self.clamp_selection();
            } else {
                self.rebuild_filter_stack();
            }
        } else {
            self.filter = new_filter;
            self.rebuild_filter_stack();
        }
    }

    /// Takes layers off until the top one has the filter `f` or only the bottom
    /// one is left.
    fn pop_to(&mut self, f: &String)
        requires
            old(self)@.stack.len() > 0,
        ensures
            final(self)@ == (AppState { stack: popped_to(old(self)@.stack, f@), ..old(self)@ }),
            final(self)@.stack.len() > 0,
    {
        let ghost before = self@;
        while self.filter_stack.len() > 1 && self.filter_stack[self.filter_stack.len() - 1].filter
            != *f
            invariant
                self@.stack.len() > 0,
                popped_to(self@.stack, f@) == popped_to(before.stack, f@),
                self@ == (AppState { stack: self@.stack, ..before }),
            ensures
                self@.stack.len() > 0,
                popped_to(self@.stack, f@) == popped_to(before.stack, f@),
                self@ == (AppState { stack: self@.stack, ..before }),
                self@.stack.len() == 1 || self@.stack.last().filter == f@,
            decreases self.filter_stack@.len(),
        {
            let ghost layers = self@.stack;
            let _ = self.filter_stack.pop();
            assert(self@.stack =~= layers.drop_last());
        }
    }

    /// Moves the selection by `delta` places, but not beyond the ends of what
    /// is shown.
    pub fn move_selection(&mut self, delta: i32)
        requires
            old(self)@.wf(),
        ensures
            final(self)@ == old(self)@.moved(delta as int),
            final(self)@.wf(),
    {
        proof {
            law_moving_keeps_wf(self@, delta as int);
        }
        let len: usize = self.filtered().len();
        assert(self@.shown().len() == len);
        if len == 0 {
            return;
        }
        let cur: usize = match self.selected {
            Some(i) => i,
            None => 0,
        };
        let want: i128 = cur as i128 + delta as i128;
        let last: usize = len - 1;
        let new: usize = if want < 0 {
            0
        } else if want > last as i128 {
            last
        } else {
            want as usize
        };
        self.selected = Some(new);
    }

    /// Selects the first place of what is shown.
    pub fn select_first(&mut self)
        requires
            old(self)@.wf(),
        ensures
            final(self)@ == old(self)@.at_first(),
            final(self)@.wf(),
    {
        let len: usize = self.filtered().len();
        assert(self@.shown().len() == len);
        self.selected = if len == 0 {
            None
        } else {
            Some(0)
        };
    }

    /// Selects the last place of what is shown.
    pub fn select_last(&mut self)
        requires
            old(self)@.wf(),
        ensures
            final(self)@ == old(self)@.at_last(),
            final(self)@.wf(),
    {
        let len: usize = self.filtered().len();
        assert(self@.shown().len() == len);
        if len > 0 {
            self.selected = Some(len - 1);
        }
    }

    /// Takes in one update. The layers are left as they are.
    fn apply_update(&mut self, update: IndexUpdate)
        requires
            old(self)@.paths_wf(),
        ensures
            final(self)@ == old(self)@.updated(update@),
    {
        let ghost before = self@;
        let ghost old_books = self.books@;
        let ghost news = update@;
        match update {
            IndexUpdate::Total(t) => {
                self.progress = Some((0, t));
            },
            IndexUpdate::Progress { done, total } => {
                self.progress = Some((done, total));
            },
            IndexUpdate::Book(book) => {
                let mut b = book;
                make_searchable(&mut b);
                let path = b.path.clone();
                let is_new = !self.books.contains_key(path.as_str());
                assert(before.books.contains_key(path@) == old_books.contains_key(path@));
                self.books.insert(path.clone(), b);
                if is_new {
                    let ghost paths = texts(self.all_paths@);
                    self.all_paths.push(path.clone());
                    assert(texts(self.all_paths@) == paths.push(path@));
                }
                self.cover_cache.remove(path.as_str());
                assert(self@.books =~= before.books.insert(path@, b@));
                assert(self@ =~= before.updated(news));
            },
            IndexUpdate::Removed(path) => {
                self.books.remove(path.as_str());
                self.drop_path(&path);
                self.cover_cache.remove(path.as_str());
                assert(self@.books =~= before.books.remove(path@));
                assert(self@ =~= before.updated(news));
            },
            IndexUpdate::Done => {
                self.indexing_done = true;
            },
        }
    }

    /// Takes the path `p` out of the list, wherever it occurs.
    fn drop_path(&mut self, p: &String)
        ensures
            final(self)@ == (AppState {
                all_paths: without(old(self)@.all_paths, p@),
                ..old(self)@
            }),
    {
        let ghost all = self@.all_paths;
        let ghost before = self@;
        let ghost pred = other_than(p@);
        let ghost mut k: int = 0;
        let mut i: usize = 0;
        assert(all.take(0).filter(pred) == Seq::<Text>::empty()) by {
            reveal(Seq::filter);
        }
        assert(Seq::<Text>::empty() + all.skip(0) == all);
        while i < self.all_paths.len()
            invariant
                0 <= k <= all.len(),
                i <= self.all_paths@.len(),
                self.all_paths@.len() - i == all.len() - k,
                pred == other_than(p@),
                all.take(k).filter(pred).len() == i,
                texts(self.all_paths@) == all.take(k).filter(pred) + all.skip(k),
                self@ == (AppState { all_paths: self@.all_paths, ..before }),
                before.all_paths == all,
            decreases self.all_paths@.len() - i,
        {
            let ghost now = texts(self.all_paths@);
            let ghost done = all.take(k).filter(pred);
            proof {
                assert(now[i as int] == all.skip(k)[0]);
                assert(all.take(k + 1) == all.take(k).push(all[k]));
                all.take(k).lemma_filter_push(all[k], pred);
                assert(self.all_paths@[i as int]@ == now[i as int]);
            }
            if self.all_paths[i] == *p {
                let _ = self.all_paths.remove(i);
                proof {
                    assert(texts(self.all_paths@) =~= now.remove(i as int));
                    assert(now.remove(i as int) =~= done + all.skip(k + 1));
                    k = k + 1;
                }
            } else {
                proof {
                    assert(done + all.skip(k) =~= done.push(all[k]) + all.skip(k + 1));
                    k = k + 1;
                }
                i += 1;
            }
        }
        assert(all.take(all.len() as int) == all);
        assert(all.filter(pred) + all.skip(all.len() as int) =~= all.filter(pred));
    }

    /// Takes in the updates that were waiting. `disconnected` tells whether the
    /// indexer is gone. The result tells whether there was any update.
    pub fn drain_updates(&mut self, updates: Vec<IndexUpdate>, disconnected: bool) -> (changed: bool)
        requires
            old(self)@.wf(),
        ensures
            final(self)@ == old(self)@.drained(update_views(updates@), disconnected),
            final(self)@.wf(),
            changed == (updates@.len() > 0),
    {
        let ghost us = update_views(updates@);
        let ghost before = self@;
        proof {
            law_updates_keep_wf(before, us, disconnected);
            lemma_updated_all(before, us);
            assert(us.take(0) == Seq::<UpdateView>::empty());
        }
        let changed = updates.len() > 0;
        let mut books_changed = false;
        for u in it: updates
            invariant
                it.seq() == updates@,
                us == update_views(updates@),
                before.wf(),
                self@ == before.updated_all(us.take(it.index())),
                books_changed == any_changes_books(us.take(it.index())),
        {
            let ghost n = it.index();
            let ghost next = us.take(n + 1);
            proof {
                assert(next.drop_last() == us.take(n));
                assert(next.last() == u@);
                lemma_updated_all(before, us.take(n));
                if changes_books(u@) {
                    assert(changes_books(next[n]));
                } else if any_changes_books(next) {
                    let i = choose|i: int| 0 <= i < next.len() && changes_books(#[trigger] next[i]);
                    assert(us.take(n)[i] == next[i]);
                }
                if any_changes_books(us.take(n)) {
                    let i = choose|i: int|
                        0 <= i < us.take(n).len() && changes_books(#[trigger] us.take(n)[i]);
                    assert(next[i] == us.take(n)[i]);
                }
            }
            let news = match &u {
                IndexUpdate::Book(_) => true,
                IndexUpdate::Removed(_) => true,
                _ => false,
            };
            if news {
                books_changed = true;
            }
            self.apply_update(u);
        }
        assert(us.take(us.len() as int) == us);
        if disconnected {
            self.indexing_done = true;
        }
        let ghost t = self@;
        assert(t.paths_wf());
        if books_changed {
            let prev: Option<String> = self.selected_copy();
            self.sort_paths();
            self.rebuild_filter_stack();
            proof {
                lemma_sorted(t);
                law_rebuilding_is_exact(t.sorted());
            }
            if let Some(p) = prev {
                let top = self.filter_stack.len() - 1;
                let place = position(&self.filter_stack[top].paths, &p);
                if let Some(i) = place {
                    self.selected = Some(i);
                }
            }
        }
        changed
    }

    /// A copy of the path that is selected.
    fn selected_copy(&self) -> (r: Option<String>)
        requires
            self@.stack.len() > 0,
        ensures
            match r {
                Some(p) => self@.selected_path() == Some(p@),
                None => self@.selected_path() is None,
            },
    {
        let top = self.filter_stack.len() - 1;
        match self.selected {
            Some(i) => {
                if i < self.filter_stack[top].paths.len() {
                    Some(self.filter_stack[top].paths[i].clone())
                } else {
                    None
                }
            },
            None => None,
        }
    }

    /// The path that is selected.
    pub fn selected_path(&self) -> (r: Option<&String>)
        requires
            self@.wf(),
        ensures
            match r {
                Some(p) => self@.selected_path() == Some(p@),
                None => self@.selected_path() is None,
            },
            r is None <==> self@.shown().len() == 0,
    {
        match self.selected {
            Some(i) => Some(&self.filtered()[i]),
            None => None,
        }
    }

    /// The book that is selected.
    pub fn selected_book(&self) -> (r: Option<&BookEntry>)
        requires
            self@.wf(),
        ensures
            match r {
                Some(b) => self@.selected_path() is Some && b@
                    == self@.books[self@.selected_path()->0],
                None => self@.selected_path() is None,
            },
    {
        proof {
            law_shown_are_books(self@);
        }
        match self.selected_path() {
            Some(p) => self.books.get(p.as_str()),
            None => None,
        }
    }

    /// The file with the cover of the book at `path`, where images can be shown.
    pub fn load_cover(&self, path: &str) -> (r: Option<String>)
        ensures
            opt_text(r) == self@.cover_file(path@),
    {
        if !self.images {
            return None;
        }
        match self.books.get(path) {
            Some(b) => match &b.cover {
                Some(c) => Some(c.clone()),
                None => None,
            },
            None => None,
        }
    }

    /// What is to be done for the cover of the selected book.
    pub fn current_cover(&self) -> (r: CoverLookup)
        requires
            self@.wf(),
        ensures
            r@ == self@.cover(),
    {
        match self.selected_path() {
            None => CoverLookup::Nothing,
            Some(p) => match self.cover_cache.get(p.as_str()) {
                Some(found) => CoverLookup::Known { path: p.clone(), found: *found },
                None => CoverLookup::Load { path: p.clone(), file: self.load_cover(p.as_str()) },
            },
        }
    }

    /// Notes whether there is a cover to show for `path`.
    pub fn cover_loaded(&mut self, path: String, found: bool)
        ensures
            final(self)@ == old(self)@.with_cover(path@, found),
            old(self)@.wf() ==> final(self)@.wf(),
    {
        self.cover_cache.insert(path, found);
    }

    /// Begins to send the selected book. The result is its path; there is none
    /// where nothing is selected.
    pub fn share_selected(&mut self) -> (r: Option<String>)
        requires
            old(self)@.wf(),
        ensures
            final(self)@ == old(self)@.shared(),
            opt_text(r) == old(self)@.selected_path(),
            final(self)@.wf(),
    {
        let selected = self.selected_copy();
        if let Some(path) = &selected {
            self.sharing = Some(Share { path: path.clone(), status: ShareStatus::Starting });
        }
        selected
    }

    /// Goes back from the book that is being sent to the search.
    pub fn end_share(&mut self)
        ensures
            final(self)@ == old(self)@.unshared(),
            old(self)@.wf() ==> final(self)@.wf(),
    {
        self.sharing = None;
    }

    /// Notes how far the sending has come.
    pub fn set_share_status(&mut self, status: ShareStatus)
        ensures
            final(self)@ == old(self)@.with_share_status(status@),
            old(self)@.wf() ==> final(self)@.wf(),
    {
        let path: Option<String> = match &self.sharing {
            Some(share) => Some(share.path.clone()),
            None => None,
        };
        if let Some(path) = path {
            self.sharing = Some(Share { path, status });
        }
    }

    /// The book that is being sent.
    pub fn sharing(&self) -> (r: Option<&Share>)
        ensures
            match r {
                Some(share) => self@.sharing == Some(share@),
                None => self@.sharing is None,
            },
    {
        match &self.sharing {
            Some(share) => Some(share),
            None => None,
        }
    }

    /// The filter.
    pub fn filter(&self) -> (r: &String)
        ensures
            r@ == self@.filter,
    {
        &self.filter
    }

    /// The place in what is shown that is selected.
    pub fn selected(&self) -> (r: Option<usize>)
        ensures
            match r {
                Some(i) => self@.selected == Some(i as int),
                None => self@.selected is None,
            },
    {
        self.selected
    }

    /// How many books are indexed, of how many.
    pub fn progress(&self) -> (r: Option<(usize, usize)>)
        ensures
            r == self@.progress,
    {
        self.progress
    }

    /// Whether indexing is done.
    pub fn indexing_done(&self) -> (r: bool)
        ensures
            r == self@.indexing_done,
    {
        self.indexing_done
    }

    /// Whether the terminal can show images.
    pub fn images(&self) -> (r: bool)
        ensures
            r == self@.images,
    {
        self.images
    }

    /// The number of books.
    pub fn book_count(&self) -> (r: usize)
        ensures
            r == self@.books.len(),
    {
        assert(self@.books.dom() =~= self.books@.dom());
        self.books.len()
    }

    /// The book at `path`.
    pub fn book(&self, path: &str) -> (r: Option<&BookEntry>)
        ensures
            match r {
                Some(b) => self@.books.contains_key(path@) && b@ == self@.books[path@],
                None => !self@.books.contains_key(path@),
            },
    {
        self.books.get(path)
    }
}

} // verus!
