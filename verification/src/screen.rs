//! What the screen says: the filter line and its title, the line for each book,
//! the details of the selected book, and what stands in place of a cover.

use crate::app::{App, ShareStatus};
use crate::book::{is_author_name, is_title_name, names_author, names_title, BookEntry, BookView};
use crate::laws::law_shown_are_books;
use crate::metadata::{pair_texts, sorted_pairs};
use crate::path::{file_name, name_of};
use crate::state::{AppState, ShareStatusView};
use crate::text::{decimal, decimal_string, texts, Text};
use vstd::prelude::*;

verus! {

/// The filter line: the filter and a cursor.
pub open spec fn filter_line_text(s: AppState) -> Text {
    s.filter + "_"@
}

/// The title above the filter: how many books match, and how far the indexer
/// is.
pub open spec fn title_text(s: AppState) -> Text {
    let head = "Filter ("@ + decimal(s.shown().len()) + " matches, "@;
    if s.indexing_done {
        head + decimal(s.books.len()) + " books)"@
    } else {
        match s.progress {
            Some((done, total)) => if total > 0 {
                head + "indexing "@ + decimal(done as nat) + "/"@ + decimal(total as nat) + ")"@
            } else {
                head + "scanning...)"@
            },
            None => head + "scanning...)"@,
        }
    }
}

/// The line for a book: its title, with its author if there is one; the name of
/// its file where it has no title, and its path where that has no file name.
pub open spec fn label_text(b: BookView) -> Text {
    if b.title.len() > 0 {
        if b.author.len() > 0 {
            b.title + " \u{2014} "@ + b.author
        } else {
            b.title
        }
    } else {
        match name_of(b.path) {
            Some(name) => name,
            None => b.path,
        }
    }
}

/// The line for a book.
pub fn label(b: &BookEntry) -> (r: String)
    ensures
        r@ == label_text(b@),
{
    if !b.title.as_str().is_empty() {
        let mut r = b.title.clone();
        if !b.author.as_str().is_empty() {
            r.append(" \u{2014} ");
            r.append(b.author.as_str());
        }
        r
    } else {
        match file_name(b.path.as_str()) {
            Some(name) => name,
            None => b.path.clone(),
        }
    }
}

/// A line of the details: a label in bold and a text.
pub struct DetailLine {
    pub label: String,
    pub text: String,
}

impl View for DetailLine {
    type V = (Text, Text);

    open spec fn view(&self) -> (Text, Text) {
        (self.label@, self.text@)
    }
}

/// What a list of lines stands for.
pub open spec fn line_views(v: Seq<DetailLine>) -> Seq<(Text, Text)> {
    v.map_values(|l: DetailLine| l@)
}

/// Whether a named value has a line of its own among the details: title and
/// author are told already.
pub open spec fn is_further(pair: (Text, Text)) -> bool {
    !names_title(pair.0) && !names_author(pair.0)
}

/// The lines for the named values, in the order of their names.
pub open spec fn further_lines(pairs: Seq<(Text, Text)>) -> Seq<(Text, Text)> {
    pairs.filter(|p: (Text, Text)| is_further(p)).map_values(
        |p: (Text, Text)| (p.0 + ": "@, p.1),
    )
}

/// The details of a book: title, author and file, an empty line, and what else
/// is known of it.
pub open spec fn detail_texts(b: BookView) -> Seq<(Text, Text)> {
    seq![
        ("Title:  "@, b.title),
        ("Author: "@, b.author),
        ("File:   "@, b.path),
        (Seq::empty(), Seq::empty()),
    ] + further_lines(sorted_pairs(b.metadata))
}

/// Adds a line at the end.
fn add_line(lines: &mut Vec<DetailLine>, label: String, text: String)
    ensures
        line_views(final(lines)@) == line_views(old(lines)@).push((label@, text@)),
{
    let ghost before = line_views(lines@);
    let line = DetailLine { label, text };
    lines.push(line);
    assert(line_views(lines@) =~= before.push(line@));
}

/// The details of a book.
pub fn book_details(b: &BookEntry) -> (r: Vec<DetailLine>)
    ensures
        line_views(r@) == detail_texts(b@),
{
    let mut lines: Vec<DetailLine> = Vec::new();
    assert(line_views(lines@) =~= Seq::<(Text, Text)>::empty());
    add_line(&mut lines, "Title:  ".to_owned(), b.title.clone());
    add_line(&mut lines, "Author: ".to_owned(), b.author.clone());
    add_line(&mut lines, "File:   ".to_owned(), b.path.clone());
    add_line(&mut lines, String::new(), String::new());
    let ghost head = line_views(lines@);
    let entries = b.metadata.entries();
    let ghost pairs = pair_texts(entries@);
    let ghost pred = |p: (Text, Text)| is_further(p);
    let ghost form = |p: (Text, Text)| (p.0 + ": "@, p.1);
    let mut i: usize = 0;
    proof {
        assert(pairs.take(0).filter(pred) == Seq::<(Text, Text)>::empty()) by {
            reveal(Seq::filter);
        }
        assert(head + Seq::<(Text, Text)>::empty().map_values(form) =~= head);
    }
    while i < entries.len()
        invariant
            i <= entries@.len(),
            pairs == pair_texts(entries@),
            pred == (|p: (Text, Text)| is_further(p)),
            form == (|p: (Text, Text)| (p.0 + ": "@, p.1)),
            line_views(lines@) == head + pairs.take(i as int).filter(pred).map_values(form),
        decreases entries@.len() - i,
    {
        let ghost pair = pairs[i as int];
        let ghost so_far = pairs.take(i as int).filter(pred);
        proof {
            assert(pair == (entries@[i as int].0@, entries@[i as int].1@));
            assert(pairs.take(i + 1) == pairs.take(i as int).push(pair));
            pairs.take(i as int).lemma_filter_push(pair, pred);
        }
        let name = &entries[i].0;
        if !is_title_name(name.as_str()) && !is_author_name(name.as_str()) {
            let l = name.clone().concat(": ");
            add_line(&mut lines, l, entries[i].1.clone());
            assert(so_far.push(pair).map_values(form) =~= so_far.map_values(form).push(form(pair)));
            assert(head + so_far.map_values(form).push(form(pair)) =~= (head + so_far.map_values(
                form,
            )).push(form(pair)));
        }
        i += 1;
    }
    assert(pairs.take(pairs.len() as int) == pairs);
    assert(head =~= seq![
        ("Title:  "@, b@.title),
        ("Author: "@, b@.author),
        ("File:   "@, b@.path),
        (Seq::empty(), Seq::empty()),
    ]);
    lines
}

/// What is said of the book that is being sent: its path, how far the sending
/// has come, and what the escape key does.
pub open spec fn share_texts(s: AppState) -> Seq<Text> {
    match s.sharing {
        Some(share) => match share.status {
            ShareStatusView::Starting => seq![
                share.path,
                "Waiting for a code..."@,
                "Esc cancels"@,
            ],
            ShareStatusView::Code(code) => seq![
                share.path,
                "wormhole receive "@ + code,
                "Esc cancels"@,
            ],
            ShareStatusView::Sent => seq![share.path, "Sent"@, "Esc returns"@],
            ShareStatusView::Failed => seq![
                share.path,
                "The transfer failed"@,
                "Esc returns"@,
            ],
        },
        None => Seq::empty(),
    }
}

/// The lines for the books that are shown.
pub open spec fn label_texts(s: AppState) -> Seq<Text> {
    Seq::new(s.shown().len(), |i: int| label_text(s.books[s.shown()[i]]))
}

/// The details of the selected book.
pub open spec fn selected_texts(s: AppState) -> Seq<(Text, Text)> {
    match s.selected_path() {
        Some(p) => detail_texts(s.books[p]),
        None => seq![(Seq::empty(), "No selection"@)],
    }
}

/// What stands in place of a cover: why there is none.
pub open spec fn no_cover_text(s: AppState) -> Text {
    if s.images {
        "(no cover)"@
    } else {
        "(terminal does not support images)"@
    }
}

impl App {
    /// The filter line.
    pub fn filter_line(&self) -> (r: String)
        ensures
            r@ == filter_line_text(self@),
    {
        self.filter().clone().concat("_")
    }

    /// The title above the filter.
    pub fn status_title(&self) -> (r: String)
        requires
            self@.wf(),
        ensures
            r@ == title_text(self@),
    {
        let shown: usize = self.filtered().len();
        assert(self@.shown().len() == shown);
        let mut r = "Filter (".to_owned();
        r.append(decimal_string(shown).as_str());
        r.append(" matches, ");
        if self.indexing_done() {
            r.append(decimal_string(self.book_count()).as_str());
            r.append(" books)");
        } else {
            match self.progress() {
                Some((done, total)) if total > 0 => {
                    r.append("indexing ");
                    r.append(decimal_string(done).as_str());
                    r.append("/");
                    r.append(decimal_string(total).as_str());
                    r.append(")");
                },
                _ => {
                    r.append("scanning...)");
                },
            }
        }
        r
    }

    /// The lines for the books that are shown.
    pub fn labels(&self) -> (r: Vec<String>)
        requires
            self@.wf(),
        ensures
            texts(r@) == self@.shown().map_values(|p: Text| label_text(self@.books[p])),
            texts(r@) == label_texts(self@),
    {
        let paths = self.filtered();
        let ghost shown = self@.shown();
        let ghost form = |p: Text| label_text(self@.books[p]);
        proof {
            law_shown_are_books(self@);
        }
        let mut r: Vec<String> = Vec::new();
        let mut i: usize = 0;
        while i < paths.len()
            invariant
                i <= paths@.len(),
                shown == texts(paths@),
                forall|k: int|
                    0 <= k < shown.len() ==> self@.books.contains_key(#[trigger] shown[k]),
                form == (|p: Text| label_text(self@.books[p])),
                texts(r@) == shown.take(i as int).map_values(form),
            decreases paths@.len() - i,
        {
            assert(shown[i as int] == paths@[i as int]@);
            let l = label(self.book(paths[i].as_str()).unwrap());
            let ghost before = texts(r@);
            r.push(l);
            assert(texts(r@) =~= before.push(l@));
            assert(shown.take(i + 1).map_values(form) =~= shown.take(i as int).map_values(
                form,
            ).push(l@));
            i += 1;
        }
        assert(shown.take(shown.len() as int) == shown);
        assert(shown.map_values(form) =~= label_texts(self@));
        r
    }

    /// The details of the selected book.
    pub fn detail_lines(&self) -> (r: Vec<DetailLine>)
        requires
            self@.wf(),
        ensures
            line_views(r@) == (match self@.selected_path() {
                Some(p) => detail_texts(self@.books[p]),
                None => seq![(Seq::empty(), "No selection"@)],
            }),
            line_views(r@) == selected_texts(self@),
    {
        match self.selected_book() {
            Some(b) => book_details(b),
            None => {
                let mut lines: Vec<DetailLine> = Vec::new();
                assert(line_views(lines@) =~= Seq::<(Text, Text)>::empty());
                add_line(&mut lines, String::new(), "No selection".to_owned());
                assert(line_views(lines@) =~= seq![(Seq::empty(), "No selection"@)]);
                lines
            },
        }
    }

    /// What is said of the book that is being sent; nothing where none is.
    pub fn share_lines(&self) -> (r: Vec<String>)
        ensures
            texts(r@) == share_texts(self@),
    {
        let mut r: Vec<String> = Vec::new();
        if let Some(share) = self.sharing() {
            r.push(share.path.clone());
            match &share.status {
                ShareStatus::Starting => {
                    r.push("Waiting for a code...".to_owned());
                    r.push("Esc cancels".to_owned());
                },
                ShareStatus::Code(code) => {
                    r.push("wormhole receive ".to_owned().concat(code.as_str()));
                    r.push("Esc cancels".to_owned());
                },
                ShareStatus::Sent => {
                    r.push("Sent".to_owned());
                    r.push("Esc returns".to_owned());
                },
                ShareStatus::Failed => {
                    r.push("The transfer failed".to_owned());
                    r.push("Esc returns".to_owned());
                },
            }
        }
        assert(texts(r@) =~= share_texts(self@));
        r
    }

    /// What stands in place of a cover.
    pub fn cover_message(&self) -> (r: String)
        ensures
            r@ == (if self@.images {
                "(no cover)"@
            } else {
                "(terminal does not support images)"@
            }),
            r@ == no_cover_text(self@),
    {
        if self.images() {
            "(no cover)".to_owned()
        } else {
            "(terminal does not support images)".to_owned()
        }
    }
}

} // verus!
