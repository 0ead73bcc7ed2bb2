//! What is read of a book, searched of it and named after it, said by what goes
//! in and comes out.

use crate::book::{
    after_line, after_lines, blank_book, cover_name, described, ebook_meta, hash_writes,
    law_later_output_overrides, names_author, names_title, path_hash, search_text_of, searchable,
    tells_author, tells_title, BookView, ReadMeta,
};
use crate::fold::{folded, law_folding_keeps_parts};
use crate::path_laws::{lemma_spelled, spelled};
use crate::text::{has_part, hex, len_to, lemma_len_to, part_at, pieces, trimmed, Text};
use crate::text_laws::{hex_bound, hex_value, law_hexadecimal_notation};
use std::hash::DefaultHasher;
use vstd::prelude::*;
use vstd::std_specs::hash::DefaultHasherAdditionalSpecFns;

verus! {

/// A book of which nothing is known has nothing in it.
pub proof fn law_blank_book_is_blank()
    ensures
        blank_book().path.len() == 0,
        blank_book().size == 0,
        blank_book().mtime == 0,
        blank_book().title.len() == 0,
        blank_book().author.len() == 0,
        blank_book().metadata == Map::<Text, Text>::empty(),
        blank_book().cover is None,
        blank_book().search_text.len() == 0,
{
}

proof fn lemma_one_line(line: Text)
    requires
        !line.contains('\n'),
    ensures
        ebook_meta(line) == after_line(
            ReadMeta { title: Seq::empty(), author: Seq::empty(), map: Map::empty() },
            line,
        ),
{
    lemma_len_to(line, '\n');
    if len_to(line, '\n') < line.len() {
        assert(line[len_to(line, '\n') as int] == '\n');
    }
    let lines = pieces(line, '\n');
    assert(lines =~= seq![line]);
    assert(lines.drop_last() =~= Seq::<Text>::empty());
    reveal_with_fuel(after_lines, 2);
}

proof fn lemma_first_colon(n: Text, v: Text)
    requires
        !n.contains(':'),
    ensures
        len_to(n + seq![':'] + v, ':') == n.len(),
    decreases n.len(),
{
    let line = n + seq![':'] + v;
    if n.len() > 0 {
        let t = n.drop_first();
        assert(n.contains(n[0]));
        assert(!t.contains(':')) by {
            if t.contains(':') {
                let i = choose|i: int| 0 <= i < t.len() && t[i] == ':';
                assert(n[i + 1] == ':');
            }
        }
        lemma_first_colon(t, v);
        assert(line.drop_first() =~= t + seq![':'] + v);
        assert(line[0] == n[0]);
    } else {
        assert(line[0] == ':');
    }
}

/// A line with a colon tells one named value: the name is all that stands before
/// the first colon and the value all that stands after it, without the white
/// space at the ends. Where the name is that of the title or of the author, the
/// value is the title or the author. Without a name the line tells nothing.
pub proof fn law_line_tells_a_named_value(n: Text, v: Text)
    requires
        !n.contains(':'),
        !n.contains('\n'),
        !v.contains('\n'),
    ensures
        trimmed(n).len() > 0 ==> ebook_meta(n + seq![':'] + v).map == Map::<
            Text,
            Text,
        >::empty().insert(trimmed(n), trimmed(v)),
        trimmed(n).len() > 0 ==> ebook_meta(n + seq![':'] + v).title == (if names_title(
            trimmed(n),
        ) {
            trimmed(v)
        } else {
            Seq::empty()
        }),
        trimmed(n).len() > 0 ==> ebook_meta(n + seq![':'] + v).author == (if names_author(
            trimmed(n),
        ) {
            trimmed(v)
        } else {
            Seq::empty()
        }),
        trimmed(n).len() == 0 ==> ebook_meta(n + seq![':'] + v) == ebook_meta(Seq::empty()),
{
    let line = n + seq![':'] + v;
    assert(!line.contains('\n')) by {
        if line.contains('\n') {
            let i = choose|i: int| 0 <= i < line.len() && line[i] == '\n';
            if i < n.len() {
                assert(n[i] == '\n');
            } else if i > n.len() {
                assert(v[i - n.len() - 1] == '\n');
            }
        }
    }
    lemma_one_line(line);
    lemma_one_line(Seq::empty());
    lemma_first_colon(n, v);
    assert(line.take(n.len() as int) =~= n);
    assert(line.skip(n.len() as int + 1) =~= v);
}

/// A line without a colon tells nothing.
pub proof fn law_line_without_a_colon_tells_nothing(line: Text)
    requires
        !line.contains(':'),
        !line.contains('\n'),
    ensures
        ebook_meta(line).map == Map::<Text, Text>::empty(),
        ebook_meta(line).title.len() == 0,
        ebook_meta(line).author.len() == 0,
{
    lemma_one_line(line);
    lemma_len_to(line, ':');
    if len_to(line, ':') < line.len() {
        assert(line[len_to(line, ':') as int] == ':');
    }
}

/// Where the output tells an author, the author is one of the values that it
/// gives an author's name, as a whole; and so for the title. Where it tells
/// none, there is none.
pub proof fn law_author_and_title_are_values_told(out: Text)
    ensures
        tells_author(ebook_meta(out).map) ==> exists|k: Text| #[trigger]
            ebook_meta(out).map.contains_key(k) && names_author(k) && ebook_meta(out).map[k]
                == ebook_meta(out).author,
        !tells_author(ebook_meta(out).map) ==> ebook_meta(out).author.len() == 0,
        tells_title(ebook_meta(out).map) ==> exists|k: Text| #[trigger]
            ebook_meta(out).map.contains_key(k) && names_title(k) && ebook_meta(out).map[k]
                == ebook_meta(out).title,
        !tells_title(ebook_meta(out).map) ==> ebook_meta(out).title.len() == 0,
{
    lemma_values_told(pieces(out, '\n'));
}

proof fn lemma_values_told(lines: Seq<Text>)
    ensures
        tells_author(after_lines(lines).map) ==> exists|k: Text| #[trigger]
            after_lines(lines).map.contains_key(k) && names_author(k) && after_lines(lines).map[k]
                == after_lines(lines).author,
        !tells_author(after_lines(lines).map) ==> after_lines(lines).author.len() == 0,
        tells_title(after_lines(lines).map) ==> exists|k: Text| #[trigger]
            after_lines(lines).map.contains_key(k) && names_title(k) && after_lines(lines).map[k]
                == after_lines(lines).title,
        !tells_title(after_lines(lines).map) ==> after_lines(lines).title.len() == 0,
    decreases lines.len(),
{
    if lines.len() > 0 {
        let x = after_lines(lines.drop_last());
        let y = after_lines(lines);
        let line = lines.last();
        lemma_values_told(lines.drop_last());
        let n = len_to(line, ':') as int;
        let name = trimmed(line.take(n));
        let value = trimmed(line.skip(n + 1));
        if n < line.len() && name.len() > 0 {
            assert(y.map == x.map.insert(name, value));
            assert(y.map.contains_key(name) && y.map[name] == value);
            if tells_author(y.map) && !names_author(name) {
                let k = choose|k: Text| #[trigger] y.map.contains_key(k) && names_author(k);
                assert(x.map.contains_key(k));
                let j = choose|j: Text| #[trigger]
                    x.map.contains_key(j) && names_author(j) && x.map[j] == x.author;
                assert(y.map.contains_key(j) && y.map[j] == y.author);
            }
            if !tells_author(y.map) && tells_author(x.map) {
                let k = choose|k: Text| #[trigger] x.map.contains_key(k) && names_author(k);
                assert(y.map.contains_key(k));
            }
            if tells_title(y.map) && !names_title(name) {
                let k = choose|k: Text| #[trigger] y.map.contains_key(k) && names_title(k);
                assert(x.map.contains_key(k));
                let j = choose|j: Text| #[trigger]
                    x.map.contains_key(j) && names_title(j) && x.map[j] == x.title;
                assert(y.map.contains_key(j) && y.map[j] == y.title);
            }
            if !tells_title(y.map) && tells_title(x.map) {
                let k = choose|k: Text| #[trigger] x.map.contains_key(k) && names_title(k);
                assert(y.map.contains_key(k));
            }
        }
    }
}

/// A line that tells an author or a title after all others is the one that
/// stands, and all named values of the lines before stay but the one it
/// replaces.
pub proof fn law_last_line_stands(out: Text, n: Text, v: Text)
    requires
        !n.contains(':'),
        !n.contains('\n'),
        !v.contains('\n'),
        trimmed(n).len() > 0,
    ensures
        ebook_meta(out + seq!['\n'] + (n + seq![':'] + v)).map == ebook_meta(out).map.insert(
            trimmed(n),
            trimmed(v),
        ),
        ebook_meta(out + seq!['\n'] + (n + seq![':'] + v)).author == (if names_author(
            trimmed(n),
        ) {
            trimmed(v)
        } else {
            ebook_meta(out).author
        }),
        ebook_meta(out + seq!['\n'] + (n + seq![':'] + v)).title == (if names_title(trimmed(n)) {
            trimmed(v)
        } else {
            ebook_meta(out).title
        }),
{
    let line = n + seq![':'] + v;
    law_later_output_overrides(out, line);
    law_line_tells_a_named_value(n, v);
    let last = ebook_meta(line);
    assert(ebook_meta(out).map.union_prefer_right(last.map) =~= ebook_meta(out).map.insert(
        trimmed(n),
        trimmed(v),
    ));
    assert(last.map.contains_key(trimmed(n)));
    if tells_author(last.map) {
        let k = choose|k: Text| #[trigger] last.map.contains_key(k) && names_author(k);
        assert(k == trimmed(n));
    }
    if tells_title(last.map) {
        let k = choose|k: Text| #[trigger] last.map.contains_key(k) && names_title(k);
        assert(k == trimmed(n));
    }
}

/// The title goes by the name `title` and the author by the names `author`,
/// `authors` and `author(s)`, in any mixture of large and small letters, and by
/// no others.
pub proof fn law_names_of_title_and_author(name: Text)
    ensures
        names_title(name) <==> spelled(name, seq!['t', 'i', 't', 'l', 'e']),
        names_author(name) <==> spelled(name, seq!['a', 'u', 't', 'h', 'o', 'r']) || spelled(
            name,
            seq!['a', 'u', 't', 'h', 'o', 'r', 's'],
        ) || spelled(name, seq!['a', 'u', 't', 'h', 'o', 'r', '(', 's', ')']),
{
    reveal_strlit("title");
    reveal_strlit("author");
    reveal_strlit("authors");
    reveal_strlit("author(s)");
    let title = seq!['t', 'i', 't', 'l', 'e'];
    let author = seq!['a', 'u', 't', 'h', 'o', 'r'];
    let authors = seq!['a', 'u', 't', 'h', 'o', 'r', 's'];
    let authors_too = seq!['a', 'u', 't', 'h', 'o', 'r', '(', 's', ')'];
    assert("title"@ =~= title);
    assert("author"@ =~= author);
    assert("authors"@ =~= authors);
    assert("author(s)"@ =~= authors_too);
    lemma_spelled(name, title);
    lemma_spelled(name, author);
    lemma_spelled(name, authors);
    lemma_spelled(name, authors_too);
}

/// The text that a book is searched by holds the whole title and the whole
/// author, in the form in which texts are compared.
pub proof fn law_title_and_author_are_searched(b: BookView)
    ensures
        has_part(search_text_of(b), folded(b.title)),
        has_part(search_text_of(b), folded(b.author)),
        searchable(b).search_text == search_text_of(b),
        searchable(b).path == b.path && searchable(b).size == b.size && searchable(b).mtime
            == b.mtime && searchable(b).title == b.title && searchable(b).author == b.author
            && searchable(b).metadata == b.metadata && searchable(b).cover == b.cover,
{
    let all = described(b.path, b.title, b.author);
    let n = all.len() - b.author.len();
    assert(all.subrange(n, n + b.author.len()) =~= b.author);
    assert(part_at(all, b.author, n));
    let k = n - 1 - b.title.len();
    assert(all.subrange(k, k + b.title.len()) =~= b.title);
    assert(part_at(all, b.title, k));
    law_folding_keeps_parts(all, b.title);
    law_folding_keeps_parts(all, b.author);
}

/// The cover file for a path is named by its hash, as the default hasher
/// computes it: sixteen hexadecimal digits that stand for the hash, and `.jpg`.
pub proof fn law_cover_is_named_by_the_hash_of_the_path(rel: Text, hash: u64)
    ensures
        path_hash(rel) == DefaultHasher::spec_finish(hash_writes(rel)),
        cover_name(hash).len() == 20,
        hex_value(cover_name(hash).take(16)) == hash,
        cover_name(hash).skip(16) == seq!['.', 'j', 'p', 'g'],
{
    law_hexadecimal_notation(hash as nat, 16);
    assert(hex_bound(16) == 0x1_0000_0000_0000_0000) by {
        reveal_with_fuel(hex_bound, 17);
    }
    reveal_strlit(".jpg");
    assert(cover_name(hash).take(16) =~= hex(hash as nat, 16));
    assert(cover_name(hash).skip(16) =~= seq!['.', 'j', 'p', 'g']);
}

} // verus!
