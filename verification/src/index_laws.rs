//! What holds of the indexer: which files it reads, that it reads none twice,
//! and that what it reads is committed.

use crate::book::BookView;
use crate::extract::{placeholder_entry, tool_entry, ToolOutput};
use crate::index::{
    batch_end, catalog_of, epubs_first, file_steps, forgotten, found_at, gone, index_steps, indexed,
    needs_index, nothing_known, of_kind, planned, stale, CatalogView, FoundView, KnownView,
    StepView, BATCH_SIZE, CHECKPOINT_EVERY_BATCHES,
};
use crate::path::{book_path, epub_path, name_of};
use crate::screen::label_text;
use crate::seqs::{lemma_filter_all_or_none, lemma_filter_distinct, lemma_filter_members};
use crate::store::{law_stored_number_is_loaded, row_of};
use crate::text::Text;
use vstd::prelude::*;

verus! {

/// A file is read if and only if it was found and has to be read.
pub proof fn law_file_is_read_if_it_has_to_be(
    c: CatalogView,
    found: Seq<FoundView>,
    f: FoundView,
)
    ensures
        planned(c, found).contains(f) <==> found.contains(f) && needs_index(c, f),
{
    let s = found.filter(stale(c));
    lemma_filter_members(found, stale(c));
    lemma_filter_members(s, of_kind(true));
    lemma_filter_members(s, of_kind(false));
    let a = s.filter(of_kind(true));
    let b = s.filter(of_kind(false));
    let all = planned(c, found);
    if all.contains(f) {
        let i = choose|i: int| 0 <= i < all.len() && all[i] == f;
        if i < a.len() {
            assert(a[i] == f);
        } else {
            assert(b[i - a.len()] == f);
        }
    }
    if a.contains(f) {
        let i = choose|i: int| 0 <= i < a.len() && a[i] == f;
        assert(all[i] == f);
    }
    if b.contains(f) {
        let i = choose|i: int| 0 <= i < b.len() && b[i] == f;
        assert(all[a.len() + i] == f);
    }
}

/// Every file that has to be read is read as often as it was found.
pub proof fn law_no_file_is_read_twice(c: CatalogView, found: Seq<FoundView>)
    ensures
        planned(c, found).to_multiset() == found.filter(stale(c)).to_multiset(),
{
    lemma_parted(found.filter(stale(c)));
}

/// The EPUB files and the others are all the files.
proof fn lemma_parted(s: Seq<FoundView>)
    ensures
        epubs_first(s).to_multiset() == s.to_multiset(),
    decreases s.len(),
{
    broadcast use vstd::seq_lib::group_to_multiset_ensures;

    reveal(Seq::filter);
    let a = s.filter(of_kind(true));
    let b = s.filter(of_kind(false));
    vstd::seq_lib::lemma_multiset_commutative(a, b);
    if s.len() > 0 {
        let t = s.drop_last();
        let x = s.last();
        lemma_parted(t);
        vstd::seq_lib::lemma_multiset_commutative(
            t.filter(of_kind(true)),
            t.filter(of_kind(false)),
        );
        assert(t.push(x) =~= s);
        assert(s.to_multiset() =~= t.to_multiset().insert(x));
        assert((a + b).to_multiset() =~= s.to_multiset());
    } else {
        assert(epubs_first(s) =~= s);
    }
}

/// No other file is read before an EPUB file.
pub proof fn law_epubs_are_read_first(c: CatalogView, found: Seq<FoundView>, i: int, j: int)
    requires
        0 <= i < j < planned(c, found).len(),
        epub_path(planned(c, found)[j].rel),
    ensures
        epub_path(planned(c, found)[i].rel),
{
    let s = found.filter(stale(c));
    let a = s.filter(of_kind(true));
    if j >= a.len() {
        s.lemma_filter_pred(of_kind(false), j - a.len());
    }
    s.lemma_filter_pred(of_kind(true), i);
}

/// EPUB files are read in the order in which they were found, and so are the
/// others.
pub proof fn law_reading_keeps_the_order(c: CatalogView, found: Seq<FoundView>, epub: bool)
    ensures
        planned(c, found).filter(of_kind(epub)) == found.filter(stale(c)).filter(of_kind(epub)),
{
    let s = found.filter(stale(c));
    let a = s.filter(of_kind(true));
    let b = s.filter(of_kind(false));
    Seq::filter_distributes_over_add(a, b, of_kind(epub));
    assert forall|i: int| 0 <= i < a.len() implies of_kind(epub)(#[trigger] a[i]) == epub by {
        s.lemma_filter_pred(of_kind(true), i);
    }
    assert forall|i: int| 0 <= i < b.len() implies of_kind(epub)(#[trigger] b[i]) == !epub by {
        s.lemma_filter_pred(of_kind(false), i);
    }
    lemma_filter_all_or_none(a, of_kind(epub), epub);
    lemma_filter_all_or_none(b, of_kind(epub), !epub);
    assert(a.filter(of_kind(epub)) + b.filter(of_kind(epub)) =~= s.filter(of_kind(epub)));
}

/// A file that is not on record is read.
pub proof fn law_new_file_is_read(c: CatalogView, found: Seq<FoundView>, f: FoundView)
    requires
        found.contains(f),
        !c.known.contains_key(f.rel),
    ensures
        planned(c, found).contains(f),
{
    law_file_is_read_if_it_has_to_be(c, found, f);
}

/// What is on record of a book once it was stored.
pub open spec fn known_of(b: BookView) -> KnownView {
    let row = row_of(b);
    KnownView { path: row.path, size: row.size, mtime: row.mtime, cover: row.cover }
}

/// A book that is on record is read again if and only if its file has another
/// size or another time of change, or the file with its cover is gone.
pub proof fn law_changed_file_is_read_again(c: CatalogView, b: BookView, f: FoundView)
    requires
        c.known.contains_key(f.rel),
        c.known[f.rel] == known_of(b),
    ensures
        needs_index(c, f) <==> b.size != f.size || b.mtime != f.mtime || (b.cover is Some
            && f.cover_missing),
{
    law_stored_number_is_loaded(b.size);
    law_stored_number_is_loaded(b.mtime);
}

/// A file that could not be read in time is not read again until it changes:
/// there is a placeholder on record for it. (Where `ebook-meta` had written a
/// cover before it was ended, that has to be there still.)
pub proof fn law_placeholder_is_not_retried(
    c: CatalogView,
    found: Seq<FoundView>,
    f: FoundView,
    cover: Option<Text>,
)
    requires
        c.known.contains_key(f.rel),
        ({
            ||| c.known[f.rel] == known_of(indexed(tool_entry(None, cover), f))
            ||| c.known[f.rel] == known_of(indexed(placeholder_entry("rbook timed out"@), f))
        }),
        cover is None || !f.cover_missing,
    ensures
        !planned(c, found).contains(f),
{
    let hung = indexed(placeholder_entry("rbook timed out"@), f);
    if c.known[f.rel] == known_of(hung) {
        law_changed_file_is_read_again(c, hung, f);
    } else {
        law_changed_file_is_read_again(c, indexed(tool_entry(None, cover), f), f);
    }
    law_file_is_read_if_it_has_to_be(c, found, f);
}

/// Without an index every file is read.
pub proof fn law_index_is_rebuilt_from_scratch(found: Seq<FoundView>)
    ensures
        planned(nothing_known(), found) == epubs_first(found),
{
    lemma_filter_all_or_none(found, stale(nothing_known()), true);
}

/// A file that no parser could read is listed by its name all the same.
pub proof fn law_unread_file_is_listed_by_its_name(
    output: Option<ToolOutput>,
    cover: Option<Text>,
    f: FoundView,
    name: Text,
)
    requires
        output is None || !output->0.success,
        name_of(f.rel) == Some(name),
    ensures
        label_text(indexed(tool_entry(output, cover), f)) == name,
        label_text(indexed(placeholder_entry("rbook timed out"@), f)) == name,
{
}

/// What is on record once the books read from the files were stored.
pub open spec fn stored_all(
    c: CatalogView,
    files: Seq<FoundView>,
    read: spec_fn(FoundView) -> BookView,
) -> CatalogView
    decreases files.len(),
{
    if files.len() == 0 {
        c
    } else {
        let f = files.last();
        stored_all(c, files.drop_last(), read).with(known_of(indexed(read(f), f)))
    }
}

/// Whether no two files lie at the same path.
pub open spec fn apart(files: Seq<FoundView>) -> bool {
    forall|i: int, j: int|
        0 <= i < files.len() && 0 <= j < files.len() && (#[trigger] files[i]).rel == (
        #[trigger] files[j]).rel ==> files[i] == files[j]
}

/// What is on record at the path of a file that was stored.
proof fn lemma_stored_all(
    c: CatalogView,
    files: Seq<FoundView>,
    read: spec_fn(FoundView) -> BookView,
    p: Text,
)
    requires
        apart(files),
    ensures
        !found_at(files, p) ==> (stored_all(c, files, read).known.contains_key(p)
            <==> c.known.contains_key(p)) && stored_all(c, files, read).known[p] == c.known[p],
        forall|f: FoundView| #[trigger]
            files.contains(f) && f.rel == p ==> stored_all(c, files, read).known.contains_key(p)
                && stored_all(c, files, read).known[p] == known_of(indexed(read(f), f)),
    decreases files.len(),
{
    if files.len() > 0 {
        let init = files.drop_last();
        let last = files.last();
        assert(apart(init)) by {
            assert forall|i: int, j: int|
                0 <= i < init.len() && 0 <= j < init.len() && (#[trigger] init[i]).rel == (
                #[trigger] init[j]).rel implies init[i] == init[j] by {
                assert(init[i] == files[i]);
                assert(init[j] == files[j]);
            }
        }
        lemma_stored_all(c, init, read, p);
        assert(files[files.len() - 1] == last);
        if !found_at(files, p) {
            assert(last.rel != p);
            if found_at(init, p) {
                let i = choose|i: int| 0 <= i < init.len() && (#[trigger] init[i]).rel == p;
                assert(files[i].rel == p);
            }
        }
        assert forall|f: FoundView| #[trigger]
            files.contains(f) && f.rel == p implies stored_all(c, files, read).known.contains_key(p)
            && stored_all(c, files, read).known[p] == known_of(indexed(read(f), f)) by {
            let i = choose|i: int| 0 <= i < files.len() && files[i] == f;
            if last.rel == p {
                assert(files[i].rel == files[files.len() - 1].rel);
            } else {
                assert(init[i] == f);
                assert(init.contains(f));
            }
        }
    }
}

/// A book is forgotten if and only if it is on record and no file was found at
/// its path.
pub proof fn law_book_is_forgotten_if_it_is_gone(
    c: CatalogView,
    found: Seq<FoundView>,
    b: KnownView,
)
    requires
        c.wf(),
    ensures
        forgotten(c, found).contains(b) <==> c.known.contains_key(b.path) && c.known[b.path] == b
            && !found_at(found, b.path),
{
    let kept = c.paths.filter(gone(found));
    let all = forgotten(c, found);
    lemma_filter_members(c.paths, gone(found));
    if all.contains(b) {
        let i = choose|i: int| 0 <= i < all.len() && all[i] == b;
        assert(kept.contains(kept[i]));
        assert(c.paths.contains(kept[i]));
        assert(c.known.contains_key(kept[i]));
    }
    if c.known.contains_key(b.path) && c.known[b.path] == b && !found_at(found, b.path) {
        assert(c.paths.contains(b.path));
        assert(kept.contains(b.path));
        let i = choose|i: int| 0 <= i < kept.len() && kept[i] == b.path;
        assert(all[i] == b);
    }
}

/// Tells the files that are books.
pub open spec fn supported() -> spec_fn(FoundView) -> bool {
    |f: FoundView| book_path(f.rel)
}

/// What is left on record once the books without files were forgotten.
pub open spec fn remaining(c: CatalogView, found: Seq<FoundView>) -> CatalogView {
    CatalogView {
        known: c.known.remove_keys(Set::new(|p: Text| !found_at(found, p))),
        paths: c.paths.filter(at_found(found)),
    }
}

/// Tells the paths at which a file was found.
pub open spec fn at_found(found: Seq<FoundView>) -> spec_fn(Text) -> bool {
    |p: Text| found_at(found, p)
}

/// What is on record after a run over the files of a directory: the books
/// without files are forgotten, and those that had to be read are stored.
pub open spec fn after_run(
    c: CatalogView,
    files: Seq<FoundView>,
    read: spec_fn(FoundView) -> BookView,
) -> CatalogView {
    let found = files.filter(supported());
    stored_all(remaining(c, found), planned(c, found), read)
}

/// After a run the paths on record are exactly those of the supported files,
/// each with the size and the time of change of its file.
pub proof fn law_run_records_the_files(
    c: CatalogView,
    files: Seq<FoundView>,
    read: spec_fn(FoundView) -> BookView,
    p: Text,
)
    requires
        apart(files),
    ensures
        after_run(c, files, read).known.contains_key(p) <==> exists|i: int|
            0 <= i < files.len() && (#[trigger] files[i]).rel == p && book_path(p),
        forall|f: FoundView| #[trigger]
            files.contains(f) && book_path(f.rel) && f.rel == p ==> after_run(
                c,
                files,
                read,
            ).known[p].size as u64 == f.size && after_run(c, files, read).known[p].mtime as u64
                == f.mtime,
{
    let found = files.filter(supported());
    let d = remaining(c, found);
    let plan = planned(c, found);
    let r = after_run(c, files, read);
    lemma_filter_members(files, supported());
    lemma_members_apart(files, found);
    assert forall|f: FoundView| #[trigger] plan.contains(f) <==> found.contains(f) && needs_index(
        c,
        f,
    ) by {
        law_file_is_read_if_it_has_to_be(c, found, f);
    }
    lemma_members_apart(found, plan);
    lemma_stored_all(d, plan, read, p);
    assert forall|f: FoundView| #[trigger] files.contains(f) && book_path(f.rel) && f.rel
        == p implies r.known.contains_key(p) && r.known[p].size as u64 == f.size
        && r.known[p].mtime as u64 == f.mtime by {
        assert(found.contains(f));
        let i = choose|i: int| 0 <= i < found.len() && found[i] == f;
        assert(found_at(found, p)) by {
            assert(found[i].rel == p);
        }
        if needs_index(c, f) {
            assert(plan.contains(f));
            law_stored_number_is_loaded(f.size);
            law_stored_number_is_loaded(f.mtime);
        } else if found_at(plan, p) {
            let j = choose|j: int| 0 <= j < plan.len() && (#[trigger] plan[j]).rel == p;
            assert(plan.contains(plan[j]));
            assert(found.contains(plan[j]));
            let k = choose|k: int| 0 <= k < found.len() && found[k] == plan[j];
            assert(found[k].rel == found[i].rel);
        }
    }
    if r.known.contains_key(p) {
        if found_at(plan, p) {
            let j = choose|j: int| 0 <= j < plan.len() && (#[trigger] plan[j]).rel == p;
            assert(plan.contains(plan[j]));
            let i = choose|i: int| 0 <= i < files.len() && files[i] == plan[j];
            assert(files[i].rel == p && book_path(p));
        } else {
            assert(found_at(found, p));
            let k = choose|k: int| 0 <= k < found.len() && (#[trigger] found[k]).rel == p;
            assert(found.contains(found[k]));
            let i = choose|i: int| 0 <= i < files.len() && files[i] == found[k];
            assert(files[i].rel == p && book_path(p));
        }
    }
    if exists|i: int| 0 <= i < files.len() && (#[trigger] files[i]).rel == p && book_path(p) {
        let i = choose|i: int|
            0 <= i < files.len() && (#[trigger] files[i]).rel == p && book_path(p);
        assert(files.contains(files[i]));
    }
}

/// Whether the files are found again as they were, and with their covers.
pub open spec fn unchanged(files: Seq<FoundView>, again: Seq<FoundView>) -> bool {
    &&& files.len() == again.len()
    &&& forall|i: int|
        0 <= i < files.len() ==> (#[trigger] again[i]).rel == files[i].rel && again[i].size
            == files[i].size && again[i].mtime == files[i].mtime && !again[i].cover_missing
}

/// After a run nothing is read and nothing is forgotten by the next one, as
/// long as the files, and those with the covers, stay as they are.
pub proof fn law_second_run_does_nothing(
    c: CatalogView,
    files: Seq<FoundView>,
    again: Seq<FoundView>,
    read: spec_fn(FoundView) -> BookView,
)
    requires
        apart(files),
        unchanged(files, again),
    ensures
        planned(after_run(c, files, read), again.filter(supported())).len() == 0,
        forgotten(after_run(c, files, read), again.filter(supported())).len() == 0,
{
    let r = after_run(c, files, read);
    let found = files.filter(supported());
    let next = again.filter(supported());
    lemma_filter_members(files, supported());
    lemma_filter_members(again, supported());
    if planned(r, next).len() > 0 {
        let f = planned(r, next)[0];
        assert(planned(r, next).contains(f));
        law_file_is_read_if_it_has_to_be(r, next, f);
        let i = choose|i: int| 0 <= i < again.len() && again[i] == f;
        assert(files.contains(files[i]));
        assert(files[i].rel == again[i].rel);
        law_run_records_the_files(c, files, read, f.rel);
    }
    assert forall|i: int| 0 <= i < r.paths.len() implies gone(next)(#[trigger] r.paths[i])
        == false by {
        let p = r.paths[i];
        let plan = planned(c, found);
        lemma_stored_paths(remaining(c, found), plan, read);
        lemma_filter_members(c.paths, at_found(found));
        assert(r.paths.contains(p));
        if found_at(plan, p) {
            let j = choose|j: int| 0 <= j < plan.len() && (#[trigger] plan[j]).rel == p;
            assert(plan.contains(plan[j]));
            law_file_is_read_if_it_has_to_be(c, found, plan[j]);
            let k = choose|k: int| 0 <= k < found.len() && found[k] == plan[j];
            assert(found[k].rel == p);
        }
        assert(found_at(found, p));
        let k = choose|k: int| 0 <= k < found.len() && (#[trigger] found[k]).rel == p;
        assert(found.contains(found[k]));
        let m = choose|m: int| 0 <= m < files.len() && files[m] == found[k];
        assert(again[m].rel == p);
        assert(again.contains(again[m]));
        assert(next.contains(again[m]));
        let n = choose|n: int| 0 <= n < next.len() && next[n] == again[m];
        assert(next[n].rel == p);
    }
    lemma_filter_all_or_none(r.paths, gone(next), false);
}

/// The paths on record once books were stored are those that were there and
/// those of the files.
proof fn lemma_stored_paths(
    c: CatalogView,
    files: Seq<FoundView>,
    read: spec_fn(FoundView) -> BookView,
)
    ensures
        forall|p: Text| #[trigger]
            stored_all(c, files, read).paths.contains(p) ==> c.paths.contains(p) || found_at(
                files,
                p,
            ),
    decreases files.len(),
{
    if files.len() > 0 {
        let init = files.drop_last();
        let before = stored_all(c, init, read);
        lemma_stored_paths(c, init, read);
        assert forall|p: Text| #[trigger]
            stored_all(c, files, read).paths.contains(p) implies c.paths.contains(p) || found_at(
            files,
            p,
        ) by {
            let paths = stored_all(c, files, read).paths;
            let i = choose|i: int| 0 <= i < paths.len() && paths[i] == p;
            if i < before.paths.len() {
                assert(before.paths[i] == p);
                assert(before.paths.contains(p));
                if found_at(init, p) {
                    let j = choose|j: int| 0 <= j < init.len() && (#[trigger] init[j]).rel == p;
                    assert(files[j].rel == p);
                }
            } else {
                assert(files[files.len() - 1].rel == p);
            }
        }
    }
}

/// Files among those of which no two lie at the same path do not either.
proof fn lemma_members_apart(all: Seq<FoundView>, some: Seq<FoundView>)
    requires
        apart(all),
        forall|f: FoundView| #[trigger] some.contains(f) ==> all.contains(f),
    ensures
        apart(some),
{
    assert forall|i: int, j: int|
        0 <= i < some.len() && 0 <= j < some.len() && (#[trigger] some[i]).rel == (
        #[trigger] some[j]).rel implies some[i] == some[j] by {
        assert(some.contains(some[i]) && some.contains(some[j]));
        let a = choose|a: int| 0 <= a < all.len() && all[a] == some[i];
        let b = choose|b: int| 0 <= b < all.len() && all[b] == some[j];
        assert(all[a].rel == all[b].rel);
    }
}

/// Tells the steps that read a file.
pub open spec fn reads_file() -> spec_fn(StepView) -> bool {
    |s: StepView| s is Index
}

/// Every file to read is read once, in order, and after each of them it is told
/// how many are done.
pub proof fn law_steps_read_every_file(files: Seq<FoundView>)
    ensures
        index_steps(files).filter(reads_file()) == Seq::new(
            files.len(),
            |i: int|
                StepView::Index { file: files[i], done: i + 1, total: files.len() as int },
        ),
{
    let n = files.len() as int;
    let total = StepView::Total(n);
    if n == 0 {
        lemma_filter_all_or_none(seq![total], reads_file(), false);
    } else {
        let head = seq![total, StepView::Begin];
        let body = file_steps(files, n);
        let end = seq![StepView::Commit, StepView::Checkpoint];
        Seq::filter_distributes_over_add(head + body, end, reads_file());
        Seq::filter_distributes_over_add(head, body, reads_file());
        lemma_filter_all_or_none(head, reads_file(), false);
        lemma_filter_all_or_none(end, reads_file(), false);
        lemma_file_steps_read(files, n);
    }
    assert(index_steps(files).filter(reads_file()) =~= Seq::new(
        files.len(),
        |i: int| StepView::Index { file: files[i], done: i + 1, total: n },
    ));
}

proof fn lemma_file_steps_read(files: Seq<FoundView>, n: int)
    requires
        0 <= n <= files.len(),
    ensures
        file_steps(files, n).filter(reads_file()) == Seq::new(
            n as nat,
            |i: int|
                StepView::Index { file: files[i], done: i + 1, total: files.len() as int },
        ),
    decreases n,
{
    let wanted = Seq::new(
        n as nat,
        |i: int| StepView::Index { file: files[i], done: i + 1, total: files.len() as int },
    );
    if n == 0 {
        reveal(Seq::filter);
        assert(file_steps(files, n).filter(reads_file()) =~= wanted);
    } else {
        let index = StepView::Index { file: files[n - 1], done: n, total: files.len() as int };
        let before = file_steps(files, n - 1);
        lemma_file_steps_read(files, n - 1);
        before.lemma_filter_push(index, reads_file());
        Seq::filter_distributes_over_add(before.push(index), batch_end(n), reads_file());
        lemma_filter_all_or_none(batch_end(n), reads_file(), false);
        assert(file_steps(files, n).filter(reads_file()) =~= wanted);
    }
}

/// How the database stands between two steps.
#[verifier::ext_equal]
pub struct Transaction {
    /// Whether a transaction is open.
    pub open: bool,
    /// The books in it that are not committed yet.
    pub pending: int,
    /// The commits since the write-ahead log was last emptied.
    pub unchecked: int,
}

/// How the database stands after a step. There is no answer where the step does
/// not go with how it stood before, or where too much would be left pending.
pub open spec fn after_step(t: Transaction, s: StepView) -> Option<Transaction> {
    match s {
        StepView::Total(_) => Some(t),
        StepView::Begin => if t.open {
            None
        } else {
            Some(Transaction { open: true, ..t })
        },
        StepView::Index { .. } => if !t.open || t.pending >= BATCH_SIZE {
            None
        } else {
            Some(Transaction { pending: t.pending + 1, ..t })
        },
        StepView::Commit => if !t.open || t.unchecked >= CHECKPOINT_EVERY_BATCHES {
            None
        } else {
            Some(Transaction { open: false, pending: 0, unchecked: t.unchecked + 1 })
        },
        StepView::Checkpoint => if t.open {
            None
        } else {
            Some(Transaction { unchecked: 0, ..t })
        },
    }
}

/// How the database stands after a number of steps.
pub open spec fn after_steps(t: Transaction, steps: Seq<StepView>) -> Option<Transaction>
    decreases steps.len(),
{
    if steps.len() == 0 {
        Some(t)
    } else {
        match after_steps(t, steps.drop_last()) {
            Some(u) => after_step(u, steps.last()),
            None => None,
        }
    }
}

/// How the database stands at the start and at the end: no transaction is open,
/// and nothing is left to commit or to empty.
pub open spec fn settled() -> Transaction {
    Transaction { open: false, pending: 0, unchecked: 0 }
}

/// Where the steps can all be done, those up to any of them can.
proof fn lemma_after_some_steps(t: Transaction, steps: Seq<StepView>, n: int)
    requires
        0 <= n <= steps.len(),
        after_steps(t, steps) is Some,
    ensures
        after_steps(t, steps.take(n)) is Some,
    decreases steps.len(),
{
    if n == steps.len() {
        assert(steps.take(n) =~= steps);
    } else {
        lemma_after_some_steps(t, steps.drop_last(), n);
        assert(steps.drop_last().take(n) =~= steps.take(n));
    }
}

/// How the database stands after one more step.
proof fn lemma_one_more_step(t: Transaction, steps: Seq<StepView>, s: StepView)
    requires
        after_steps(t, steps) is Some,
    ensures
        after_steps(t, steps.push(s)) == after_step(after_steps(t, steps)->0, s),
{
    assert(steps.push(s).drop_last() =~= steps);
}

/// How the numbers of pending books and of commits go on with one more book.
proof fn lemma_counts_go_on(n: int)
    requires
        n > 0,
    ensures
        0 <= (n - 1) % 15 < 15,
        0 <= ((n - 1) / 15) % 10 < 10,
        n % 15 != 0 ==> n % 15 == (n - 1) % 15 + 1 && n / 15 == (n - 1) / 15,
        n % 15 == 0 ==> (n - 1) % 15 == 14 && n / 15 == (n - 1) / 15 + 1,
        n % 15 == 0 && n % 150 != 0 ==> (n / 15) % 10 == ((n - 1) / 15) % 10 + 1,
        n % 15 == 0 && n % 150 == 0 ==> (n / 15) % 10 == 0,
{
}

/// The steps for `n` files leave a transaction open, with what does not fill a
/// batch pending in it.
#[verifier::spinoff_prover]
#[verifier::rlimit(30)]
proof fn lemma_file_steps_settle(files: Seq<FoundView>, n: int)
    requires
        0 <= n <= files.len(),
    ensures
        after_steps(Transaction { open: true, ..settled() }, file_steps(files, n)) == Some(
            Transaction { open: true, pending: n % 15, unchecked: (n / 15) % 10 },
        ),
    decreases n,
{
    let start = Transaction { open: true, ..settled() };
    if n > 0 {
        lemma_file_steps_settle(files, n - 1);
        lemma_counts_go_on(n);
        let pending = (n - 1) % 15;
        let unchecked = ((n - 1) / 15) % 10;
        let index = StepView::Index { file: files[n - 1], done: n, total: files.len() as int };
        let before = file_steps(files, n - 1);
        let one = before.push(index);
        let all = file_steps(files, n);
        lemma_one_more_step(start, before, index);
        assert(after_steps(start, one) == Some(
            Transaction { open: true, pending: pending + 1, unchecked },
        ));
        if n % 15 != 0 {
            assert(all =~= one);
        } else {
            let two = one.push(StepView::Commit);
            lemma_one_more_step(start, one, StepView::Commit);
            assert(after_steps(start, two) == Some(
                Transaction { open: false, pending: 0, unchecked: unchecked + 1 },
            ));
            if n % 150 != 0 {
                lemma_one_more_step(start, two, StepView::Begin);
                assert(all =~= two.push(StepView::Begin));
            } else {
                let three = two.push(StepView::Checkpoint);
                lemma_one_more_step(start, two, StepView::Checkpoint);
                lemma_one_more_step(start, three, StepView::Begin);
                assert(all =~= three.push(StepView::Begin));
            }
        }
    }
}

/// Books are stored in transactions only, of which one is open at a time; no
/// more than a batch of books is ever left to commit, and no more than a number
/// of commits to empty from the log; and in the end all are committed.
pub proof fn law_everything_is_committed(files: Seq<FoundView>, n: int)
    requires
        0 <= n <= index_steps(files).len(),
    ensures
        after_steps(settled(), index_steps(files).take(n)) is Some,
        after_steps(settled(), index_steps(files)) == Some(settled()),
{
    let steps = index_steps(files);
    let total = StepView::Total(files.len() as int);
    let none = Seq::<StepView>::empty();
    lemma_one_more_step(settled(), none, total);
    if files.len() == 0 {
        assert(steps =~= none.push(total));
    } else {
        let head = none.push(total).push(StepView::Begin);
        let body = file_steps(files, files.len() as int);
        let commit = (head + body).push(StepView::Commit);
        lemma_one_more_step(settled(), none.push(total), StepView::Begin);
        lemma_file_steps_settle(files, files.len() as int);
        lemma_after_both(settled(), head, body);
        lemma_one_more_step(settled(), head + body, StepView::Commit);
        lemma_one_more_step(settled(), commit, StepView::Checkpoint);
        assert(steps =~= commit.push(StepView::Checkpoint));
    }
    lemma_after_some_steps(settled(), steps, n);
}

/// To take steps one after another is to take some and then the rest.
proof fn lemma_after_both(t: Transaction, a: Seq<StepView>, b: Seq<StepView>)
    requires
        after_steps(t, a) is Some,
    ensures
        after_steps(t, a + b) == after_steps(after_steps(t, a)->0, b),
    decreases b.len(),
{
    if b.len() == 0 {
        assert(a + b =~= a);
    } else {
        lemma_after_both(t, a, b.drop_last());
        assert((a + b).drop_last() =~= a + b.drop_last());
    }
}

/// The book that is stored for a file has the path, the size and the time of
/// change of the file, and everything else as it was read.
pub proof fn law_book_is_stored_as_it_was_read(b: BookView, f: FoundView)
    ensures
        indexed(b, f).path == f.rel,
        indexed(b, f).size == f.size,
        indexed(b, f).mtime == f.mtime,
        indexed(b, f).title == b.title,
        indexed(b, f).author == b.author,
        indexed(b, f).metadata == b.metadata,
        indexed(b, f).cover == b.cover,
        indexed(b, f).search_text == b.search_text,
{
}

/// What is on record is, for each path, what the last row for it says; and what
/// no row speaks of is not on record.
pub proof fn law_last_row_stands(before: Seq<KnownView>, row: KnownView, after: Seq<KnownView>)
    requires
        forall|i: int| 0 <= i < after.len() ==> (#[trigger] after[i]).path != row.path,
    ensures
        catalog_of(before + seq![row] + after).known.contains_key(row.path),
        catalog_of(before + seq![row] + after).known[row.path] == row,
        !catalog_of(after).known.contains_key(row.path),
    decreases after.len(),
{
    let all = before + seq![row] + after;
    if after.len() == 0 {
        assert(all.drop_last() =~= before);
        assert(all.last() == row);
    } else {
        let t = after.drop_last();
        assert forall|i: int| 0 <= i < t.len() implies (#[trigger] t[i]).path != row.path by {
            assert(t[i] == after[i]);
        }
        law_last_row_stands(before, row, t);
        assert(all.drop_last() =~= before + seq![row] + t);
        assert(all.last() == after[after.len() - 1]);
    }
}

/// It is told first how many files are to be read.
pub proof fn law_total_is_told_first(files: Seq<FoundView>)
    ensures
        index_steps(files)[0] == StepView::Total(files.len() as int),
        files.len() == 0 ==> index_steps(files).len() == 1,
{
}

/// Tells the steps that commit.
pub open spec fn commits() -> spec_fn(StepView) -> bool {
    |s: StepView| s is Commit
}

/// Tells the steps that empty the write-ahead log.
pub open spec fn checkpoints() -> spec_fn(StepView) -> bool {
    |s: StepView| s is Checkpoint
}

/// There is one commit for every fifteen files and one in the end, and the log
/// is emptied for every hundred and fifty files and in the end.
pub proof fn law_batches_are_of_fifteen(files: Seq<FoundView>)
    requires
        files.len() > 0,
    ensures
        index_steps(files).filter(commits()).len() == files.len() as int / 15 + 1,
        index_steps(files).filter(checkpoints()).len() == files.len() as int / 150 + 1,
{
    let n = files.len() as int;
    let head = seq![StepView::Total(n), StepView::Begin];
    let body = file_steps(files, n);
    let end = seq![StepView::Commit, StepView::Checkpoint];
    lemma_batches(files, n);
    Seq::filter_distributes_over_add(head + body, end, commits());
    Seq::filter_distributes_over_add(head, body, commits());
    Seq::filter_distributes_over_add(head + body, end, checkpoints());
    Seq::filter_distributes_over_add(head, body, checkpoints());
    lemma_filter_all_or_none(head, commits(), false);
    lemma_filter_all_or_none(head, checkpoints(), false);
    let one = Seq::<StepView>::empty().push(StepView::Commit);
    lemma_one_more_left(Seq::empty(), StepView::Commit, commits());
    lemma_one_more_left(Seq::empty(), StepView::Commit, checkpoints());
    lemma_one_more_left(one, StepView::Checkpoint, commits());
    lemma_one_more_left(one, StepView::Checkpoint, checkpoints());
    assert(end =~= one.push(StepView::Checkpoint));
}

proof fn lemma_batches(files: Seq<FoundView>, n: int)
    requires
        0 <= n <= files.len(),
    ensures
        file_steps(files, n).filter(commits()).len() == n / 15,
        file_steps(files, n).filter(checkpoints()).len() == n / 150,
    decreases n,
{
    if n == 0 {
        reveal(Seq::filter);
    } else {
        let index = StepView::Index { file: files[n - 1], done: n, total: files.len() as int };
        let before = file_steps(files, n - 1);
        let end = batch_end(n);
        lemma_batches(files, n - 1);
        before.lemma_filter_push(index, commits());
        before.lemma_filter_push(index, checkpoints());
        Seq::filter_distributes_over_add(before.push(index), end, commits());
        Seq::filter_distributes_over_add(before.push(index), end, checkpoints());
        lemma_batch_end(n);
    }
}

/// What a filter leaves of a list with one more item at its end.
proof fn lemma_one_more_left<A>(s: Seq<A>, x: A, pred: spec_fn(A) -> bool)
    ensures
        s.push(x).filter(pred).len() == s.filter(pred).len() + (if pred(x) {
            1int
        } else {
            0int
        }),
        Seq::<A>::empty().filter(pred).len() == 0,
{
    s.lemma_filter_push(x, pred);
    reveal(Seq::filter);
}

proof fn lemma_batch_end(n: int)
    ensures
        batch_end(n).filter(commits()).len() == (if n % 15 == 0 {
            1int
        } else {
            0int
        }),
        batch_end(n).filter(checkpoints()).len() == (if n % 150 == 0 {
            1int
        } else {
            0int
        }),
{
    let none = Seq::<StepView>::empty();
    let one = none.push(StepView::Commit);
    let two = one.push(StepView::Checkpoint);
    lemma_one_more_left(none, StepView::Commit, commits());
    lemma_one_more_left(none, StepView::Commit, checkpoints());
    lemma_one_more_left(one, StepView::Begin, commits());
    lemma_one_more_left(one, StepView::Begin, checkpoints());
    lemma_one_more_left(one, StepView::Checkpoint, commits());
    lemma_one_more_left(one, StepView::Checkpoint, checkpoints());
    lemma_one_more_left(two, StepView::Begin, commits());
    lemma_one_more_left(two, StepView::Begin, checkpoints());
    if n % 15 == 0 {
        if n % 150 != 0 {
            assert(batch_end(n) =~= one.push(StepView::Begin));
        } else {
            assert(batch_end(n) =~= two.push(StepView::Begin));
        }
    }
}

/// No book is forgotten twice.
pub proof fn law_no_book_is_forgotten_twice(c: CatalogView, found: Seq<FoundView>, i: int, j: int)
    requires
        c.wf(),
        0 <= i < j < forgotten(c, found).len(),
    ensures
        forgotten(c, found)[i].path != forgotten(c, found)[j].path,
{
    let kept = c.paths.filter(gone(found));
    lemma_filter_members(c.paths, gone(found));
    lemma_filter_distinct(c.paths, gone(found));
    assert(kept.contains(kept[i]) && kept.contains(kept[j]));
    assert(c.paths.contains(kept[i]) && c.paths.contains(kept[j]));
    assert(c.known.contains_key(kept[i]) && c.known.contains_key(kept[j]));
}

} // verus!
