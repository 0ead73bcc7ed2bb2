//! What the contracts see of a value is what its fields hold, and of a list
//! every item of it, at its place.

use crate::app::{map_views, update_views, CoverLookup, IndexUpdate, Layer, Share, ShareStatus};
use crate::book::{book_views, opt_text, BookEntry};
use crate::index::{
    found_views, known_views, step_views, FoundFile, IndexStep, KnownBook, StepView,
};
use crate::keys::{ActionView, KeyAction};
use crate::metadata::pair_texts;
use crate::order::{key_views, SortKey};
use crate::screen::{line_views, DetailLine};
use crate::state::{CoverView, ShareStatusView, UpdateView};
use crate::store::{opt_rows, BookRow};
use crate::text::{texts, Text};
use vstd::prelude::*;

verus! {

/// A book is seen with all that is known of it.
pub proof fn law_book_is_seen_as_it_is(b: BookEntry, all: Seq<BookEntry>)
    ensures
        b@.path == b.path@,
        b@.size == b.size,
        b@.mtime == b.mtime,
        b@.title == b.title@,
        b@.author == b.author@,
        b@.metadata == b.metadata@,
        b@.search_text == b.search_text@,
        b.cover is None <==> b@.cover is None,
        b.cover matches Some(c) ==> b@.cover == Some(c@),
        book_views(all).len() == all.len(),
        forall|i: int| 0 <= i < all.len() ==> #[trigger] book_views(all)[i] == all[i]@,
{
}

/// A text that may be there is seen as it is.
pub proof fn law_texts_are_seen_as_they_are(
    o: Option<String>,
    all: Seq<String>,
    pairs: Seq<(String, String)>,
)
    ensures
        o is None <==> opt_text(o) is None,
        o matches Some(s) ==> opt_text(o) == Some(s@),
        texts(all).len() == all.len(),
        forall|i: int| 0 <= i < all.len() ==> #[trigger] texts(all)[i] == all[i]@,
        pair_texts(pairs).len() == pairs.len(),
        forall|i: int|
            0 <= i < pairs.len() ==> #[trigger] pair_texts(pairs)[i] == (pairs[i].0@, pairs[i].1@),
{
}

/// A row is seen with all that is stored in it, and each of the rows, whether it
/// could be read or not.
pub proof fn law_row_is_seen_as_it_is(r: BookRow, all: Seq<Option<BookRow>>)
    ensures
        r@.path == r.path@,
        r@.size == r.size,
        r@.mtime == r.mtime,
        r@.title == r.title@,
        r@.author == r.author@,
        r@.metadata == r.metadata@,
        r.cover is None <==> r@.cover is None,
        r.cover matches Some(c) ==> r@.cover == Some(c@),
        opt_rows(all).len() == all.len(),
        forall|i: int|
            0 <= i < all.len() && all[i] is None ==> (#[trigger] opt_rows(all)[i]) is None,
        forall|i: int|
            0 <= i < all.len() && all[i] is Some ==> (#[trigger] opt_rows(all)[i]) == Some(
                all[i]->0@,
            ),
{
}

/// What is on record of a book is seen as it is.
pub proof fn law_record_is_seen_as_it_is(k: KnownBook, all: Seq<KnownBook>)
    ensures
        k@.path == k.path@,
        k@.size == k.size,
        k@.mtime == k.mtime,
        k.cover is None <==> k@.cover is None,
        k.cover matches Some(c) ==> k@.cover == Some(c@),
        known_views(all).len() == all.len(),
        forall|i: int| 0 <= i < all.len() ==> #[trigger] known_views(all)[i] == all[i]@,
{
}

/// A file is seen as it was found.
pub proof fn law_file_is_seen_as_it_is(f: FoundFile, all: Seq<FoundFile>)
    ensures
        f@.rel == f.rel@,
        f@.size == f.size,
        f@.mtime == f.mtime,
        f@.slot == f.slot,
        f@.cover_missing == f.cover_missing,
        found_views(all).len() == all.len(),
        forall|i: int| 0 <= i < all.len() ==> #[trigger] found_views(all)[i] == all[i]@,
{
}

/// A step is seen as what it asks for.
pub proof fn law_step_is_seen_as_it_is(s: IndexStep, all: Seq<IndexStep>)
    ensures
        s matches IndexStep::Total(n) ==> s@ == StepView::Total(n as int),
        s is Begin <==> s@ is Begin,
        s is Commit <==> s@ is Commit,
        s is Checkpoint <==> s@ is Checkpoint,
        s matches IndexStep::Index { file, done, total } ==> s@ == (StepView::Index {
            file: file@,
            done: done as int,
            total: total as int,
        }),
        step_views(all).len() == all.len(),
        forall|i: int| 0 <= i < all.len() ==> #[trigger] step_views(all)[i] == all[i]@,
{
}

/// An update is seen as what it tells.
pub proof fn law_update_is_seen_as_it_is(u: IndexUpdate, all: Seq<IndexUpdate>)
    ensures
        u matches IndexUpdate::Total(t) ==> u@ == UpdateView::Total(t),
        u matches IndexUpdate::Book(b) ==> u@ == UpdateView::Book(b@),
        u matches IndexUpdate::Removed(p) ==> u@ == UpdateView::Removed(p@),
        u matches IndexUpdate::Progress { done, total } ==> u@ == (UpdateView::Progress {
            done,
            total,
        }),
        u is Done <==> u@ is Done,
        update_views(all).len() == all.len(),
        forall|i: int| 0 <= i < all.len() ==> #[trigger] update_views(all)[i] == all[i]@,
{
}

/// What is to be done for a cover is seen as it is.
pub proof fn law_cover_lookup_is_seen_as_it_is(c: CoverLookup)
    ensures
        c is Nothing <==> c@ is Nothing,
        c matches CoverLookup::Known { path, found } ==> c@ == (CoverView::Known {
            path: path@,
            found,
        }),
        c is Load ==> c@ is Load && c@->Load_path == c->Load_path@,
        c is Load ==> (c->file is None <==> c@->file is None),
        c is Load && c->file is Some ==> c@->file == Some(c->file->0@),
{
}

/// A book that is being sent is seen as it is.
pub proof fn law_share_is_seen_as_it_is(s: Share)
    ensures
        s@.path == s.path@,
        s@.status == s.status@,
        s.status is Starting <==> s@.status is Starting,
        s.status is Sent <==> s@.status is Sent,
        s.status is Failed <==> s@.status is Failed,
        s.status matches ShareStatus::Code(c) ==> s@.status == ShareStatusView::Code(c@),
{
}

/// What a key asks for is seen as it is.
pub proof fn law_action_is_seen_as_it_is(a: KeyAction)
    ensures
        a is Nothing <==> a@ is Nothing,
        a is Quit <==> a@ is Quit,
        a is CancelShare <==> a@ is CancelShare,
        a matches KeyAction::Share(p) ==> a@ == ActionView::Share(p@),
{
}

/// A line of the details, a key of the listing and a layer of the search are
/// seen as they are.
pub proof fn law_lines_keys_and_layers_are_seen_as_they_are(
    l: DetailLine,
    lines: Seq<DetailLine>,
    k: SortKey,
    keys: Seq<SortKey>,
    layer: Layer,
)
    ensures
        l@ == (l.label@, l.text@),
        line_views(lines).len() == lines.len(),
        forall|i: int| 0 <= i < lines.len() ==> #[trigger] line_views(lines)[i] == lines[i]@,
        k@ == (k.title@, k.author@, k.path@),
        key_views(keys).len() == keys.len(),
        forall|i: int| 0 <= i < keys.len() ==> #[trigger] key_views(keys)[i] == keys[i]@,
        layer@.filter == layer.filter@,
        layer@.paths.len() == layer.paths@.len(),
        forall|i: int|
            0 <= i < layer.paths@.len() ==> #[trigger] layer@.paths[i] == layer.paths@[i]@,
{
}

/// The books of a map are seen each at its path.
pub proof fn law_books_are_seen_at_their_paths(m: Map<Text, BookEntry>, p: Text)
    ensures
        map_views(m).contains_key(p) <==> m.contains_key(p),
        m.contains_key(p) ==> map_views(m)[p] == m[p]@,
{
}

} // verus!
