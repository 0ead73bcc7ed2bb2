//! A book of the collection: what is known of it, the text that it is searched
//! by, and the name of its cover file.

use crate::fold::{fold, folded};
use crate::metadata::Metadata;
use crate::path::{file_name, name_of};
use crate::text::{
    ascii_lower, chars_of, find_from, hex, hex_digit, hex_string, lemma_len_to, len_to, pieces,
    replace_underscores, same_text, split, texts, to_ascii_lower, trim_range, trimmed,
    underscores_to_spaces, Text,
};
use std::hash::{DefaultHasher, Hash, Hasher};
use vstd::prelude::*;
use vstd::std_specs::hash::DefaultHasherAdditionalSpecFns;

verus! {

/// The text of an optional string.
pub open spec fn opt_text(o: Option<String>) -> Option<Text> {
    match o {
        Some(s) => Some(s@),
        None => None,
    }
}

/// What is known of one book.
pub struct BookEntry {
    /// The path of its file below the directory that is searched.
    pub path: String,
    pub size: u64,
    pub mtime: u64,
    pub title: String,
    pub author: String,
    pub metadata: Metadata,
    /// The path of the file with its cover.
    pub cover: Option<String>,
    /// The text that it is searched by. It is not stored: it is built again
    /// when the book is loaded and on every update.
    pub search_text: String,
}

/// A book as the contracts see it.
#[verifier::ext_equal]
pub struct BookView {
    pub path: Text,
    pub size: u64,
    pub mtime: u64,
    pub title: Text,
    pub author: Text,
    pub metadata: Map<Text, Text>,
    pub cover: Option<Text>,
    pub search_text: Text,
}

impl View for BookEntry {
    type V = BookView;

    open spec fn view(&self) -> BookView {
        BookView {
            path: self.path@,
            size: self.size,
            mtime: self.mtime,
            title: self.title@,
            author: self.author@,
            metadata: self.metadata@,
            cover: opt_text(self.cover),
            search_text: self.search_text@,
        }
    }
}

/// What a list of books stands for.
pub open spec fn book_views(books: Seq<BookEntry>) -> Seq<BookView> {
    books.map_values(|b: BookEntry| b@)
}

/// A book of which nothing is known.
pub open spec fn blank_book() -> BookView {
    BookView {
        path: Seq::empty(),
        size: 0,
        mtime: 0,
        title: Seq::empty(),
        author: Seq::empty(),
        metadata: Map::empty(),
        cover: None,
        search_text: Seq::empty(),
    }
}

impl Default for BookEntry {
    fn default() -> (r: BookEntry)
        ensures
            r@ == blank_book(),
    {
        BookEntry {
            path: String::new(),
            size: 0,
            mtime: 0,
            title: String::new(),
            author: String::new(),
            metadata: Metadata::new(),
            cover: None,
            search_text: String::new(),
        }
    }
}

/// The name of the file of a book, with a space in place of each underscore;
/// empty where the path has no file name.
pub open spec fn spaced_name(path: Text) -> Text {
    match name_of(path) {
        Some(name) => underscores_to_spaces(name),
        None => Seq::empty(),
    }
}

/// The name of the file of a book, with a space in place of each underscore.
pub fn spaced_file_name(path: &str) -> (r: String)
    ensures
        r@ == spaced_name(path@),
{
    match file_name(path) {
        Some(name) => replace_underscores(name.as_str()),
        None => String::new(),
    }
}

/// File name, title and author of a book, with a space between them.
pub open spec fn described(path: Text, title: Text, author: Text) -> Text {
    spaced_name(path) + seq![' '] + title + seq![' '] + author
}

/// The text that a book is searched by: its file name, title and author, in the
/// form in which texts are compared.
pub open spec fn search_text_of(b: BookView) -> Text {
    folded(described(b.path, b.title, b.author))
}

/// File name, title and author of a book, with a space between them.
pub fn describe(b: &BookEntry) -> (r: String)
    ensures
        r@ == described(b@.path, b@.title, b@.author),
{
    let mut r = spaced_file_name(b.path.as_str());
    r.push(' ');
    r.append(b.title.as_str());
    r.push(' ');
    r.append(b.author.as_str());
    assert(r@ =~= described(b@.path, b@.title, b@.author));
    r
}

/// The text that a book is searched by.
pub fn build_search_text(b: &BookEntry) -> (r: String)
    ensures
        r@ == search_text_of(b@),
{
    fold(describe(b).as_str())
}

/// The book with its search text as it should be.
pub open spec fn searchable(b: BookView) -> BookView {
    BookView { search_text: search_text_of(b), ..b }
}

/// Sets the search text of a book.
pub fn make_searchable(b: &mut BookEntry)
    ensures
        final(b)@ == searchable(old(b)@),
{
    let t = build_search_text(b);
    b.search_text = t;
}

/// Whether a name of the metadata, in any mixture of large and small letters,
/// is that of the title.
pub open spec fn names_title(name: Text) -> bool {
    ascii_lower(name) == "title"@
}

/// Whether a name of the metadata, in any mixture of large and small letters,
/// is that of the author.
pub open spec fn names_author(name: Text) -> bool {
    let l = ascii_lower(name);
    l == "author(s)"@ || l == "authors"@ || l == "author"@
}

/// Whether `name` is that of the title.
pub fn is_title_name(name: &str) -> (r: bool)
    ensures
        r == names_title(name@),
{
    same_text(to_ascii_lower(name).as_str(), "title")
}

/// Whether `name` is that of the author.
pub fn is_author_name(name: &str) -> (r: bool)
    ensures
        r == names_author(name@),
{
    let l = to_ascii_lower(name);
    same_text(l.as_str(), "author(s)") || same_text(l.as_str(), "authors") || same_text(
        l.as_str(),
        "author",
    )
}

/// Title, author and all named values that lines of text tell of a book.
#[verifier::ext_equal]
pub struct ReadMeta {
    pub title: Text,
    pub author: Text,
    pub map: Map<Text, Text>,
}

/// What is known after one more line. A line with a colon gives the name before
/// its first colon the value after it, both without the white space around
/// them, unless the name is empty; the title and the author come of the last
/// line that names them. Other lines tell nothing.
pub open spec fn after_line(m: ReadMeta, line: Text) -> ReadMeta {
    let n = len_to(line, ':') as int;
    if n >= line.len() {
        m
    } else {
        let name = trimmed(line.take(n));
        let value = trimmed(line.skip(n + 1));
        if name.len() == 0 {
            m
        } else {
            ReadMeta {
                title: if names_title(name) {
                    value
                } else {
                    m.title
                },
                author: if names_author(name) {
                    value
                } else {
                    m.author
                },
                map: m.map.insert(name, value),
            }
        }
    }
}

/// What a number of lines tell.
pub open spec fn after_lines(lines: Seq<Text>) -> ReadMeta
    decreases lines.len(),
{
    if lines.len() == 0 {
        ReadMeta { title: Seq::empty(), author: Seq::empty(), map: Map::empty() }
    } else {
        after_line(after_lines(lines.drop_last()), lines.last())
    }
}

/// What the output of `ebook-meta` tells. (Lines may end in a carriage return
/// too: it is white space at the end of a value.)
pub open spec fn ebook_meta(out: Text) -> ReadMeta {
    after_lines(pieces(out, '\n'))
}

/// Reads the output of `ebook-meta`: the title, the author, and all named
/// values.
pub fn parse_ebook_meta(out: &str) -> (r: (String, String, Metadata))
    ensures
        (ReadMeta { title: r.0@, author: r.1@, map: r.2@ }) == ebook_meta(out@),
{
    let lines = split(out, '\n');
    let ghost all = texts(lines@);
    let mut title = String::new();
    let mut author = String::new();
    let mut map = Metadata::new();
    let mut i: usize = 0;
    assert(all.take(0) == Seq::<Text>::empty());
    while i < lines.len()
        invariant
            i <= lines@.len(),
            all == texts(lines@),
            (ReadMeta { title: title@, author: author@, map: map@ }) == after_lines(
                all.take(i as int),
            ),
        decreases lines@.len() - i,
    {
        let ghost line = all[i as int];
        let ghost so_far = ReadMeta { title: title@, author: author@, map: map@ };
        proof {
            let next = all.take(i + 1);
            assert(next.drop_last() == all.take(i as int));
            assert(next.last() == line);
            assert(after_lines(next) == after_line(so_far, line));
        }
        let v = chars_of(lines[i].as_str());
        assert(v@ == line);
        assert(v@.skip(0) == v@);
        let n = find_from(&v, ':', 0);
        if n < v.len() {
            let name = trim_range(&v, 0, n);
            let value = trim_range(&v, n + 1, v.len());
            assert(v@.subrange(0, n as int) == line.take(n as int));
            assert(v@.subrange(n + 1, v@.len() as int) == line.skip(n + 1));
            if !name.as_str().is_empty() {
                if is_title_name(name.as_str()) {
                    title = value.clone();
                }
                if is_author_name(name.as_str()) {
                    author = value.clone();
                }
                map.insert(name, value);
            }
        }
        assert((ReadMeta { title: title@, author: author@, map: map@ }) == after_line(
            so_far,
            line,
        ));
        i += 1;
    }
    assert(all.take(all.len() as int) == all);
    (title, author, map)
}

/// Two texts with a separator between them have the pieces of the one and then
/// those of the other.
pub proof fn lemma_pieces_of_both(a: Text, sep: char, b: Text)
    ensures
        pieces(a + seq![sep] + b, sep) == pieces(a, sep) + pieces(b, sep),
    decreases a.len(),
{
    let s = a + seq![sep] + b;
    lemma_len_to(a, sep);
    lemma_len_to(s, sep);
    let n = len_to(a, sep) as int;
    lemma_len_to_of_both(a, sep, seq![sep] + b);
    assert(s =~= a + (seq![sep] + b));
    assert(len_to(s, sep) == n);
    assert(s.take(n) =~= a.take(n));
    if n >= a.len() {
        assert(a.take(n) =~= a);
        assert(s.skip(n + 1) =~= b);
    } else {
        let t = a.skip(n + 1);
        lemma_pieces_of_both(t, sep, b);
        assert(s.skip(n + 1) =~= t + seq![sep] + b);
        assert(seq![a.take(n)] + (pieces(t, sep) + pieces(b, sep)) =~= pieces(a, sep) + pieces(
            b,
            sep,
        ));
    }
}

proof fn lemma_len_to_of_both(a: Text, sep: char, b: Text)
    requires
        b.len() > 0,
        b[0] == sep,
    ensures
        len_to(a + b, sep) == len_to(a, sep),
    decreases a.len(),
{
    if a.len() == 0 {
        assert(a + b =~= b);
    } else if a[0] != sep {
        lemma_len_to_of_both(a.drop_first(), sep, b);
        assert((a + b).drop_first() =~= a.drop_first() + b);
    }
}

/// Whether one of the names is that of the title.
pub open spec fn tells_title(m: Map<Text, Text>) -> bool {
    exists|k: Text| #[trigger] m.contains_key(k) && names_title(k)
}

/// Whether one of the names is that of the author.
pub open spec fn tells_author(m: Map<Text, Text>) -> bool {
    exists|k: Text| #[trigger] m.contains_key(k) && names_author(k)
}

/// What is known of a book by `a`, as far as `b` does not tell it otherwise.
pub open spec fn overridden(a: ReadMeta, b: ReadMeta) -> ReadMeta {
    ReadMeta {
        title: if tells_title(b.map) {
            b.title
        } else {
            a.title
        },
        author: if tells_author(b.map) {
            b.author
        } else {
            a.author
        },
        map: a.map.union_prefer_right(b.map),
    }
}

proof fn lemma_lines_of_both(a: Seq<Text>, b: Seq<Text>)
    ensures
        after_lines(a + b) == overridden(after_lines(a), after_lines(b)),
    decreases b.len(),
{
    let x = after_lines(a);
    if b.len() == 0 {
        assert(a + b =~= a);
        assert(x.map.union_prefer_right(after_lines(b).map) =~= x.map);
    } else {
        let init = b.drop_last();
        let line = b.last();
        lemma_lines_of_both(a, init);
        assert((a + b).drop_last() =~= a + init);
        let y = after_lines(init);
        let z = after_lines(b);
        let n = len_to(line, ':') as int;
        let name = trimmed(line.take(n));
        let value = trimmed(line.skip(n + 1));
        if n < line.len() && name.len() > 0 {
            assert(z.map == y.map.insert(name, value));
            assert(z.map.contains_key(name));
            assert(x.map.union_prefer_right(z.map) =~= x.map.union_prefer_right(y.map).insert(
                name,
                value,
            ));
            assert(tells_title(z.map) == (tells_title(y.map) || names_title(name))) by {
                if tells_title(y.map) {
                    let k = choose|k: Text| #[trigger] y.map.contains_key(k) && names_title(k);
                    assert(z.map.contains_key(k));
                }
                if tells_title(z.map) && !names_title(name) {
                    let k = choose|k: Text| #[trigger] z.map.contains_key(k) && names_title(k);
                    assert(y.map.contains_key(k));
                }
            }
            assert(tells_author(z.map) == (tells_author(y.map) || names_author(name))) by {
                if tells_author(y.map) {
                    let k = choose|k: Text| #[trigger] y.map.contains_key(k) && names_author(k);
                    assert(z.map.contains_key(k));
                }
                if tells_author(z.map) && !names_author(name) {
                    let k = choose|k: Text| #[trigger] z.map.contains_key(k) && names_author(k);
                    assert(y.map.contains_key(k));
                }
            }
        }
    }
}

/// Two outputs of `ebook-meta` with a line break between them tell what the
/// first tells, overridden by what the second tells.
pub proof fn law_later_output_overrides(a: Text, b: Text)
    ensures
        ebook_meta(a + seq!['\n'] + b) == overridden(ebook_meta(a), ebook_meta(b)),
{
    lemma_pieces_of_both(a, '\n', b);
    lemma_lines_of_both(pieces(a, '\n'), pieces(b, '\n'));
}

/// What the `Hash` of a `str` writes into a hasher.
pub uninterp spec fn hash_writes(s: Seq<char>) -> Seq<Seq<u8>>;

/// `Hash::hash` of a `str`: it writes to the hasher, and what it writes is a
/// function of the string alone. Which bytes these are is left unsaid.
#[verifier::external_body]
fn feed(s: &str, hasher: &mut DefaultHasher)
    ensures
        final(hasher)@ == old(hasher)@ + hash_writes(s@),
{
    s.hash(hasher)
}

/// The hash of a path, by a `DefaultHasher` as `new` makes it.
pub open spec fn path_hash(rel: Text) -> u64 {
    DefaultHasher::spec_finish(hash_writes(rel))
}

/// The name of the cover file for a path with this hash: sixteen hexadecimal
/// digits and `.jpg`.
pub open spec fn cover_name(hash: u64) -> Text {
    hex(hash as nat, 16) + ".jpg"@
}

/// The name of the cover file for a path with this hash.
pub fn cover_name_of_hash(hash: u64) -> (r: String)
    ensures
        r@ == cover_name(hash),
{
    hex_string(hash, 16).concat(".jpg")
}

/// The name of the cover file for the book at `rel`.
pub fn cover_filename(rel: &str) -> (r: String)
    ensures
        r@ == cover_name(path_hash(rel@)),
{
    let mut hasher = DefaultHasher::new();
    feed(rel, &mut hasher);
    assert(hasher@ == hash_writes(rel@));
    cover_name_of_hash(hasher.finish())
}

/// The number of texts of `width` hexadecimal digits.
pub open spec fn hex_range(width: nat) -> nat
    decreases width,
{
    if width == 0 {
        1
    } else {
        16 * hex_range((width - 1) as nat)
    }
}

proof fn lemma_hex_injective(a: nat, b: nat, width: nat)
    requires
        a < hex_range(width),
        b < hex_range(width),
        hex(a, width) == hex(b, width),
    ensures
        a == b,
    decreases width,
{
    if width > 0 {
        let w = (width - 1) as nat;
        assert(hex(a, width).last() == hex_digit(a % 16));
        assert(hex(b, width).last() == hex_digit(b % 16));
        assert(a % 16 == b % 16);
        assert(hex(a, width).drop_last() == hex(a / 16, w));
        assert(hex(b, width).drop_last() == hex(b / 16, w));
        lemma_hex_injective(a / 16, b / 16, w);
    }
}

proof fn lemma_hex_len(n: nat, width: nat)
    ensures
        hex(n, width).len() == width,
    decreases width,
{
    if width > 0 {
        lemma_hex_len(n / 16, (width - 1) as nat);
    }
}

/// Paths with different hashes have different cover files.
pub proof fn law_cover_names_differ(a: u64, b: u64)
    requires
        a != b,
    ensures
        cover_name(a) != cover_name(b),
{
    lemma_hex_len(a as nat, 16);
    lemma_hex_len(b as nat, 16);
    assert(hex_range(16) == 0x1_0000_0000_0000_0000) by {
        reveal_with_fuel(hex_range, 17);
    }
    if cover_name(a) == cover_name(b) {
        assert(cover_name(a).take(16) == hex(a as nat, 16));
        assert(cover_name(b).take(16) == hex(b as nat, 16));
        lemma_hex_injective(a as nat, b as nat, 16);
    }
}

} // verus!
