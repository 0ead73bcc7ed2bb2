//! What the indexer does: which books are forgotten, which files are read and
//! in which order, and when what was read is committed.

use crate::book::{opt_text, BookEntry, BookView};
use crate::path::{epub_path, is_epub};
use crate::text::{texts, Text};
use vstd::hash_map::StringHashMap;
use vstd::hash_set::StringHashSet;
use vstd::prelude::*;

verus! {

/// So many books are committed at a time.
pub const BATCH_SIZE: usize = 15;

/// After so many full batches the write-ahead log is emptied.
pub const CHECKPOINT_EVERY_BATCHES: usize = 10;

/// What is on record of a book.
pub struct KnownBook {
    pub path: String,
    pub size: i64,
    pub mtime: i64,
    pub cover: Option<String>,
}

/// What is on record of a book as the contracts see it.
#[verifier::ext_equal]
pub struct KnownView {
    pub path: Text,
    pub size: i64,
    pub mtime: i64,
    pub cover: Option<Text>,
}

impl View for KnownBook {
    type V = KnownView;

    open spec fn view(&self) -> KnownView {
        KnownView {
            path: self.path@,
            size: self.size,
            mtime: self.mtime,
            cover: opt_text(self.cover),
        }
    }
}

/// What is on record of a number of books.
pub open spec fn known_views(books: Seq<KnownBook>) -> Seq<KnownView> {
    books.map_values(|b: KnownBook| b@)
}

/// A file with a book that was found.
pub struct FoundFile {
    /// Its path below the directory that is searched.
    pub rel: String,
    pub size: u64,
    pub mtime: u64,
    /// By which whoever found it finds it again.
    pub slot: usize,
    /// Whether the file with the cover that is on record for it is gone.
    pub cover_missing: bool,
}

/// A file with a book as the contracts see it.
#[verifier::ext_equal]
pub struct FoundView {
    pub rel: Text,
    pub size: u64,
    pub mtime: u64,
    pub slot: usize,
    pub cover_missing: bool,
}

impl View for FoundFile {
    type V = FoundView;

    open spec fn view(&self) -> FoundView {
        FoundView {
            rel: self.rel@,
            size: self.size,
            mtime: self.mtime,
            slot: self.slot,
            cover_missing: self.cover_missing,
        }
    }
}

/// The files that were found.
pub open spec fn found_views(files: Seq<FoundFile>) -> Seq<FoundView> {
    files.map_values(|f: FoundFile| f@)
}

/// Everything that is on record, by path, and the paths in the order in which
/// they were first seen.
#[verifier::ext_equal]
pub struct CatalogView {
    pub known: Map<Text, KnownView>,
    pub paths: Seq<Text>,
}

impl CatalogView {
    /// Whether the paths are those on record, each once.
    pub open spec fn wf(self) -> bool {
        &&& self.paths.no_duplicates()
        &&& forall|p: Text| #[trigger] self.paths.contains(p) <==> self.known.contains_key(p)
        &&& forall|p: Text| #[trigger] self.known.contains_key(p) ==> self.known[p].path == p
    }

    /// With one more book. One with the same path is replaced.
    pub open spec fn with(self, b: KnownView) -> CatalogView {
        CatalogView {
            known: self.known.insert(b.path, b),
            paths: if self.known.contains_key(b.path) {
                self.paths
            } else {
                self.paths.push(b.path)
            },
        }
    }
}

/// Nothing on record.
pub open spec fn nothing_known() -> CatalogView {
    CatalogView { known: Map::empty(), paths: Seq::empty() }
}

/// What the rows put on record.
pub open spec fn catalog_of(rows: Seq<KnownView>) -> CatalogView
    decreases rows.len(),
{
    if rows.len() == 0 {
        nothing_known()
    } else {
        catalog_of(rows.drop_last()).with(rows.last())
    }
}

/// What the rows put on record stands in order.
pub proof fn lemma_catalog_wf(rows: Seq<KnownView>)
    ensures
        catalog_of(rows).wf(),
    decreases rows.len(),
{
    if rows.len() > 0 {
        lemma_catalog_wf(rows.drop_last());
        let c = catalog_of(rows.drop_last());
        let d = catalog_of(rows);
        let q = rows.last().path;
        assert forall|p: Text| #[trigger] d.paths.contains(p) <==> d.known.contains_key(p) by {
            assert(c.paths.contains(p) <==> c.known.contains_key(p));
            if !c.known.contains_key(q) {
                assert(d.paths.last() == q);
                if c.paths.contains(p) {
                    let i = choose|i: int| 0 <= i < c.paths.len() && c.paths[i] == p;
                    assert(d.paths[i] == p);
                }
            }
        }
        if !c.known.contains_key(q) {
            assert(!c.paths.contains(q));
        }
    }
}

/// The books that are on record.
pub struct Catalog {
    known: StringHashMap<KnownBook>,
    paths: Vec<String>,
}

impl View for Catalog {
    type V = CatalogView;

    closed spec fn view(&self) -> CatalogView {
        CatalogView {
            known: self.known@.map_values(|b: KnownBook| b@),
            paths: texts(self.paths@),
        }
    }
}

/// Whether one of the files lies at `p`.
pub open spec fn found_at(found: Seq<FoundView>, p: Text) -> bool {
    exists|i: int| 0 <= i < found.len() && (#[trigger] found[i]).rel == p
}

/// Tells the paths at which no file was found.
pub open spec fn gone(found: Seq<FoundView>) -> spec_fn(Text) -> bool {
    |p: Text| !found_at(found, p)
}

/// The books on record whose files were not found.
pub open spec fn forgotten(c: CatalogView, found: Seq<FoundView>) -> Seq<KnownView> {
    c.paths.filter(gone(found)).map_values(|p: Text| c.known[p])
}

/// Whether a file has to be read: it is new, or its size or time of change is
/// not the one on record, or the cover on record is gone.
pub open spec fn needs_index(c: CatalogView, f: FoundView) -> bool {
    if c.known.contains_key(f.rel) {
        let k = c.known[f.rel];
        k.size as u64 != f.size || k.mtime as u64 != f.mtime || (k.cover is Some
            && f.cover_missing)
    } else {
        true
    }
}

/// Tells the files that have to be read.
pub open spec fn stale(c: CatalogView) -> spec_fn(FoundView) -> bool {
    |f: FoundView| needs_index(c, f)
}

/// Tells the EPUB files, or the others.
pub open spec fn of_kind(epub: bool) -> spec_fn(FoundView) -> bool {
    |f: FoundView| epub_path(f.rel) == epub
}

/// The EPUB files before the others, in each case in the same order.
pub open spec fn epubs_first(files: Seq<FoundView>) -> Seq<FoundView> {
    files.filter(of_kind(true)) + files.filter(of_kind(false))
}

/// The files to read, in the order in which they are read.
pub open spec fn planned(c: CatalogView, found: Seq<FoundView>) -> Seq<FoundView> {
    epubs_first(found.filter(stale(c)))
}

impl Catalog {
    /// The books in order, as `wf` says.
    #[verifier::type_invariant]
    closed spec fn inv(self) -> bool {
        self@.wf()
    }

    /// What the rows put on record.
    pub fn new(rows: Vec<KnownBook>) -> (r: Catalog)
        ensures
            r@ == catalog_of(known_views(rows@)),
    {
        let mut known: StringHashMap<KnownBook> = StringHashMap::new();
        let mut paths: Vec<String> = Vec::new();
        let ghost all = known_views(rows@);
        assert(all.take(0) =~= Seq::empty());
        assert(catalog_of(all.take(0)) =~= nothing_known());
        for row in it: rows
            invariant
                it.seq() == rows@,
                all == known_views(rows@),
                (CatalogView {
                    known: known@.map_values(|b: KnownBook| b@),
                    paths: texts(paths@),
                }) == catalog_of(all.take(it.index() as int)),
        {
            let ghost map = known@;
            let ghost list = paths@;
            proof {
                let next = all.take(it.index() + 1);
                assert(next.drop_last() =~= all.take(it.index() as int));
                assert(next.last() == row@);
            }
            if !known.contains_key(row.path.as_str()) {
                paths.push(row.path.clone());
                assert(texts(paths@) =~= texts(list).push(row@.path));
            }
            known.insert(row.path.clone(), row);
            assert(known@.map_values(|b: KnownBook| b@) =~= map.map_values(
                |b: KnownBook| b@,
            ).insert(row@.path, row@));
        }
        assert(all.take(all.len() as int) =~= all);
        proof {
            lemma_catalog_wf(all);
        }
        Catalog { known, paths }
    }

    /// The file with the cover that is on record for the book at `rel`.
    pub fn cover_of(&self, rel: &str) -> (r: Option<&String>)
        ensures
            match r {
                Some(c) => self@.known.contains_key(rel@) && self@.known[rel@].cover == Some(c@),
                None => self@.known.contains_key(rel@) ==> self@.known[rel@].cover is None,
            },
    {
        match self.known.get(rel) {
            Some(k) => match &k.cover {
                Some(c) => Some(c),
                None => None,
            },
            None => None,
        }
    }

    /// The books on record whose files were not found.
    pub fn forgotten(&self, found: &Vec<FoundFile>) -> (r: Vec<KnownBook>)
        ensures
            known_views(r@) == forgotten(self@, found_views(found@)),
    {
        proof {
            use_type_invariant(self);
        }
        let ghost views = found_views(found@);
        let mut seen = StringHashSet::new();
        let mut n: usize = 0;
        while n < found.len()
            invariant
                n <= found@.len(),
                views == found_views(found@),
                forall|p: Text| #[trigger]
                    seen@.contains(p) <==> (exists|i: int|
                        0 <= i < n && (#[trigger] views[i]).rel == p),
            decreases found@.len() - n,
        {
            let ghost before = seen@;
            let ghost m = n as int;
            seen.insert(found[n].rel.clone());
            n += 1;
            assert forall|p: Text| #[trigger] seen@.contains(p) <==> (exists|i: int|
                0 <= i < n && (#[trigger] views[i]).rel == p) by {
                assert(views[m].rel == found@[m].rel@);
                if seen@.contains(p) {
                    if before.contains(p) {
                        let i = choose|i: int| 0 <= i < m && (#[trigger] views[i]).rel == p;
                        assert(views[i].rel == p);
                    }
                }
            }
        }
        assert(forall|p: Text| #[trigger] seen@.contains(p) <==> found_at(views, p));
        let mut list: Vec<KnownBook> = Vec::new();
        let mut k: usize = 0;
        let ghost paths = self@.paths;
        let ghost record = |p: Text| self@.known[p];
        proof {
            assert(paths.take(0) =~= Seq::empty());
            reveal(Seq::filter);
            assert(known_views(list@) =~= paths.take(0).filter(gone(views)).map_values(record));
        }
        while k < self.paths.len()
            invariant
                k <= self.paths@.len(),
                self@.wf(),
                paths == self@.paths,
                paths.len() == self.paths@.len(),
                forall|p: Text| #[trigger] seen@.contains(p) <==> found_at(views, p),
                record == (|p: Text| self@.known[p]),
                known_views(list@) == paths.take(k as int).filter(gone(views)).map_values(record),
            decreases self.paths@.len() - k,
        {
            let p = &self.paths[k];
            let ghost before = list@;
            let ghost kept = paths.take(k as int).filter(gone(views));
            proof {
                assert(paths[k as int] == p@);
                assert(paths.contains(p@));
                assert(paths.take(k + 1) =~= paths.take(k as int).push(p@));
                paths.take(k as int).lemma_filter_push(p@, gone(views));
            }
            if !seen.contains(p.as_str()) {
                assert(self.known@.contains_key(p@));
                let b = self.known.get(p.as_str()).unwrap();
                let cover = match &b.cover {
                    Some(c) => Some(c.clone()),
                    None => None,
                };
                let copy = KnownBook { path: b.path.clone(), size: b.size, mtime: b.mtime, cover };
                list.push(copy);
                assert(copy@ == self@.known[p@]);
                assert(known_views(list@) =~= known_views(before).push(copy@));
                assert(kept.push(p@).map_values(record) =~= kept.map_values(record).push(
                    record(p@),
                ));
            }
            k += 1;
        }
        assert(paths.take(paths.len() as int) =~= paths);
        list
    }

    /// Whether a file has to be read.
    pub fn needs_index(&self, f: &FoundFile) -> (r: bool)
        ensures
            r == needs_index(self@, f@),
    {
        match self.known.get(f.rel.as_str()) {
            Some(k) => {
                k.size as u64 != f.size || k.mtime as u64 != f.mtime || (k.cover.is_some()
                    && f.cover_missing)
            },
            None => true,
        }
    }
}

/// The files to read, in the order in which they are read: those that have to
/// be, EPUB files first, as these are read quickly.
pub fn plan_index(c: &Catalog, found: Vec<FoundFile>) -> (r: Vec<FoundFile>)
    ensures
        found_views(r@) == planned(c@, found_views(found@)),
{
    let ghost all = found_views(found@);
    let mut epubs: Vec<FoundFile> = Vec::new();
    let mut others: Vec<FoundFile> = Vec::new();
    proof {
        reveal(Seq::filter);
        assert(all.take(0) =~= Seq::empty());
        assert(found_views(epubs@) =~= all.take(0).filter(stale(c@)).filter(of_kind(true)));
        assert(found_views(others@) =~= all.take(0).filter(stale(c@)).filter(of_kind(false)));
    }
    for f in it: found
        invariant
            it.seq() == found@,
            all == found_views(found@),
            found_views(epubs@) == all.take(it.index() as int).filter(stale(c@)).filter(
                of_kind(true),
            ),
            found_views(others@) == all.take(it.index() as int).filter(stale(c@)).filter(
                of_kind(false),
            ),
    {
        let ghost e = epubs@;
        let ghost o = others@;
        proof {
            let done = all.take(it.index() as int);
            assert(all.take(it.index() + 1) =~= done.push(f@));
            done.lemma_filter_push(f@, stale(c@));
            done.filter(stale(c@)).lemma_filter_push(f@, of_kind(true));
            done.filter(stale(c@)).lemma_filter_push(f@, of_kind(false));
        }
        if c.needs_index(&f) {
            if is_epub(f.rel.as_str()) {
                epubs.push(f);
                assert(found_views(epubs@) =~= found_views(e).push(f@));
            } else {
                others.push(f);
                assert(found_views(others@) =~= found_views(o).push(f@));
            }
        }
    }
    assert(all.take(all.len() as int) =~= all);
    let ghost e = epubs@;
    let ghost o = others@;
    epubs.append(&mut others);
    assert(found_views(epubs@) =~= found_views(e) + found_views(o));
    epubs
}

/// A step of the indexer once it knows which files to read.
pub enum IndexStep {
    /// Tell how many files are to be read.
    Total(usize),
    /// Begin a transaction.
    Begin,
    /// Read the file, store the book, and tell that so many of the files are
    /// done.
    Index { file: FoundFile, done: usize, total: usize },
    /// Commit the transaction.
    Commit,
    /// Empty the write-ahead log.
    Checkpoint,
}

/// A step as the contracts see it.
pub enum StepView {
    Total(int),
    Begin,
    Index { file: FoundView, done: int, total: int },
    Commit,
    Checkpoint,
}

impl View for IndexStep {
    type V = StepView;

    open spec fn view(&self) -> StepView {
        match *self {
            IndexStep::Total(n) => StepView::Total(n as int),
            IndexStep::Begin => StepView::Begin,
            IndexStep::Index { file, done, total } => StepView::Index {
                file: file@,
                done: done as int,
                total: total as int,
            },
            IndexStep::Commit => StepView::Commit,
            IndexStep::Checkpoint => StepView::Checkpoint,
        }
    }
}

/// A number of steps.
pub open spec fn step_views(steps: Seq<IndexStep>) -> Seq<StepView> {
    steps.map_values(|s: IndexStep| s@)
}

/// The steps after the book that makes it `n` books.
pub open spec fn batch_end(n: int) -> Seq<StepView> {
    if n % (BATCH_SIZE as int) != 0 {
        Seq::empty()
    } else if n % (BATCH_SIZE * CHECKPOINT_EVERY_BATCHES) != 0 {
        seq![StepView::Commit, StepView::Begin]
    } else {
        seq![StepView::Commit, StepView::Checkpoint, StepView::Begin]
    }
}

/// The steps for the first `n` of the files.
pub open spec fn file_steps(files: Seq<FoundView>, n: int) -> Seq<StepView>
    decreases n,
{
    if n <= 0 {
        Seq::empty()
    } else {
        let index = StepView::Index { file: files[n - 1], done: n, total: files.len() as int };
        file_steps(files, n - 1).push(index) + batch_end(n)
    }
}

/// The steps to read the files.
pub open spec fn index_steps(files: Seq<FoundView>) -> Seq<StepView> {
    let total = StepView::Total(files.len() as int);
    if files.len() == 0 {
        seq![total]
    } else {
        seq![total, StepView::Begin] + file_steps(files, files.len() as int) + seq![
            StepView::Commit,
            StepView::Checkpoint,
        ]
    }
}

/// The steps to read the files. What was read is committed batch by batch.
pub fn run_indexer(files: Vec<FoundFile>) -> (r: Vec<IndexStep>)
    ensures
        step_views(r@) == index_steps(found_views(files@)),
{
    let ghost all = found_views(files@);
    let total: usize = files.len();
    let mut steps: Vec<IndexStep> = Vec::new();
    steps.push(IndexStep::Total(total));
    if total == 0 {
        assert(step_views(steps@) =~= seq![StepView::Total(0)]);
        return steps;
    }
    steps.push(IndexStep::Begin);
    let ghost head = seq![StepView::Total(total as int), StepView::Begin];
    assert(step_views(steps@) =~= head + file_steps(all, 0));
    let mut done: usize = 0;
    let mut in_batch: usize = 0;
    let mut batches_since_checkpoint: usize = 0;
    for file in it: files
        invariant
            it.seq() == files@,
            all == found_views(files@),
            total == files@.len(),
            done == it.index(),
            in_batch == done as int % 15,
            batches_since_checkpoint == (done as int / 15) % 10,
            step_views(steps@) == head + file_steps(all, done as int),
    {
        let ghost before = step_views(steps@);
        assert(file@ == all[done as int]);
        assert(done < total);
        done += 1;
        steps.push(IndexStep::Index { file, done, total });
        in_batch += 1;
        if in_batch >= BATCH_SIZE {
            steps.push(IndexStep::Commit);
            batches_since_checkpoint += 1;
            if batches_since_checkpoint >= CHECKPOINT_EVERY_BATCHES {
                steps.push(IndexStep::Checkpoint);
                batches_since_checkpoint = 0;
            }
            steps.push(IndexStep::Begin);
            in_batch = 0;
        }
        proof {
            let index = StepView::Index { file: file@, done: done as int, total: total as int };
            assert(step_views(steps@) =~= before.push(index) + batch_end(done as int));
            assert(before.push(index) + batch_end(done as int) =~= head + file_steps(
                all,
                done as int,
            ));
        }
    }
    steps.push(IndexStep::Commit);
    steps.push(IndexStep::Checkpoint);
    assert(step_views(steps@) =~= index_steps(all));
    steps
}

/// A book that was read from a file: it gets the path, the size and the time of
/// change of the file.
pub open spec fn indexed(b: BookView, f: FoundView) -> BookView {
    BookView { path: f.rel, size: f.size, mtime: f.mtime, ..b }
}

/// A book that was read from a file, with the path, the size and the time of
/// change of the file.
pub fn stamp(b: BookEntry, f: &FoundFile) -> (r: BookEntry)
    ensures
        r@ == indexed(b@, f@),
{
    let mut r = b;
    r.path = f.rel.clone();
    r.size = f.size;
    r.mtime = f.mtime;
    r
}

} // verus!
