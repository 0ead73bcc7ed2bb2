//! What the name and the extension of a file are, said by how its path is put
//! together.

use crate::book::{lemma_pieces_of_both, spaced_name};
use crate::path::{
    book_path, components, epub_path, extension_of, is_component, last_dot, name_of,
};
use crate::seqs::lemma_filter_all_or_none;
use crate::text::{ascii_lower, has_part, len_to, lemma_len_to, part_at, pieces, Text};
use vstd::prelude::*;

verus! {

/// Whether a text can be the name of a file: it is not empty, holds no slash,
/// and is neither the directory itself nor the one above.
pub open spec fn is_name(n: Text) -> bool {
    &&& n.len() > 0
    &&& !n.contains('/')
    &&& n != seq!['.']
    &&& n != seq!['.', '.']
}

proof fn lemma_one_piece(n: Text, sep: char)
    requires
        !n.contains(sep),
    ensures
        pieces(n, sep) == seq![n],
{
    lemma_len_to(n, sep);
    if len_to(n, sep) < n.len() {
        assert(n[len_to(n, sep) as int] == sep);
    }
}

proof fn lemma_dots()
    ensures
        "."@ == seq!['.'],
        ".."@ == seq!['.', '.'],
{
    reveal_strlit(".");
    reveal_strlit("..");
    assert("."@ =~= seq!['.']);
    assert(".."@ =~= seq!['.', '.']);
}

/// The components of a path with one more piece at its end.
proof fn lemma_components_of_both(d: Text, n: Text)
    requires
        !n.contains('/'),
    ensures
        components(d + seq!['/'] + n) == components(d) + (if is_component(n) {
            seq![n]
        } else {
            Seq::empty()
        }),
        components(n) == (if is_component(n) {
            seq![n]
        } else {
            Seq::empty()
        }),
{
    let keep = |p: Text| is_component(p);
    lemma_pieces_of_both(d, '/', n);
    lemma_one_piece(n, '/');
    Seq::filter_distributes_over_add(pieces(d, '/'), seq![n], keep);
    lemma_filter_all_or_none(seq![n], keep, is_component(n));
}

/// The name of a file is the last component of its path, whatever stands before
/// it; and a path that is a name only is its own.
pub proof fn law_name_is_the_last_component(d: Text, n: Text)
    requires
        is_name(n),
    ensures
        name_of(d + seq!['/'] + n) == Some(n),
        name_of(n) == Some(n),
{
    lemma_dots();
    lemma_components_of_both(d, n);
    let all = components(d + seq!['/'] + n);
    assert(all.last() == n);
}

/// A slash at the end of a path, or a dot after it, does not change the name.
pub proof fn law_slash_at_the_end_does_not_count(p: Text)
    ensures
        name_of(p + seq!['/']) == name_of(p),
        name_of(p + seq!['/', '.']) == name_of(p),
{
    lemma_dots();
    let none = Seq::<char>::empty();
    lemma_components_of_both(p, none);
    assert(p + seq!['/'] + none =~= p + seq!['/']);
    assert(components(p + seq!['/']) =~= components(p));
    lemma_components_of_both(p, seq!['.']);
    assert(p + seq!['/'] + seq!['.'] =~= p + seq!['/', '.']);
    assert(components(p + seq!['/', '.']) =~= components(p));
}

/// A path that leads up has no name, and neither has one without components.
pub proof fn law_path_that_leads_up_has_no_name(d: Text)
    ensures
        name_of(d + seq!['/', '.', '.']) is None,
        name_of(seq!['.', '.']) is None,
        name_of(seq!['.']) is None,
        name_of(Seq::empty()) is None,
{
    lemma_dots();
    let up = seq!['.', '.'];
    lemma_components_of_both(d, up);
    assert(d + seq!['/'] + up =~= d + seq!['/', '.', '.']);
    assert(components(d + seq!['/'] + up).last() == up);
    lemma_components_of_both(d, seq!['.']);
    lemma_components_of_both(d, Seq::empty());
}

/// The name by which a file is searched has the length of its name, with a
/// space in place of each underscore and every other character as it is.
pub proof fn law_searched_name_is_the_whole_name(d: Text, n: Text)
    requires
        is_name(n),
    ensures
        spaced_name(n) == spaced_name(d + seq!['/'] + n),
        spaced_name(n).len() == n.len(),
        forall|i: int|
            0 <= i < n.len() ==> #[trigger] spaced_name(n)[i] == (if n[i] == '_' {
                ' '
            } else {
                n[i]
            }),
{
    law_name_is_the_last_component(d, n);
}

/// Each part of the name of a file that holds no underscore is a part of the
/// name by which it is searched.
pub proof fn law_parts_of_the_name_are_searched(d: Text, n: Text, part: Text)
    requires
        is_name(n),
        has_part(n, part),
        !part.contains('_'),
    ensures
        has_part(spaced_name(n), part),
        has_part(spaced_name(d + seq!['/'] + n), part),
{
    law_searched_name_is_the_whole_name(d, n);
    let k = choose|k: int| #[trigger] part_at(n, part, k);
    let s = spaced_name(n);
    assert forall|i: int| 0 <= i < part.len() implies s[k + i] == #[trigger] part[i] by {
        assert(n.subrange(k, k + part.len())[i] == n[k + i]);
        assert(part.contains(part[i]));
    }
    assert(s.subrange(k, k + part.len()) =~= part);
    assert(part_at(s, part, k));
}

proof fn lemma_last_dot(stem: Text, e: Text)
    requires
        !e.contains('.'),
    ensures
        last_dot(stem + seq!['.'] + e) == stem.len(),
        last_dot(e) == -1,
    decreases e.len(),
{
    let s = stem + seq!['.'] + e;
    if e.len() == 0 {
        assert(s.last() == '.');
    } else {
        let t = e.drop_last();
        assert(e.contains(e.last()));
        assert(!t.contains('.')) by {
            if t.contains('.') {
                let i = choose|i: int| 0 <= i < t.len() && t[i] == '.';
                assert(e[i] == '.');
            }
        }
        lemma_last_dot(stem, t);
        assert(s.last() == e.last());
        assert(s.drop_last() =~= stem + seq!['.'] + t);
    }
}

/// The extension of a file is what follows the last dot of its name, as long as
/// something stands before that dot; without such a dot there is none.
pub proof fn law_extension_follows_the_last_dot(d: Text, stem: Text, e: Text)
    requires
        !e.contains('.'),
        is_name(stem + seq!['.'] + e),
    ensures
        extension_of(d + seq!['/'] + (stem + seq!['.'] + e)) == (if stem.len() > 0 {
            Some(e)
        } else {
            None
        }),
        extension_of(stem + seq!['.'] + e) == (if stem.len() > 0 {
            Some(e)
        } else {
            None
        }),
        is_name(e) ==> extension_of(d + seq!['/'] + e) is None && extension_of(e) is None,
{
    let n = stem + seq!['.'] + e;
    law_name_is_the_last_component(d, n);
    lemma_last_dot(stem, e);
    assert(n.skip(stem.len() as int + 1) =~= e);
    if is_name(e) {
        law_name_is_the_last_component(d, e);
    }
}

/// Whether `e` is spelled as `word`, large and small letters being the same.
pub open spec fn spelled(e: Text, word: Text) -> bool {
    &&& e.len() == word.len()
    &&& forall|i: int|
        0 <= i < e.len() ==> (#[trigger] e[i]) == word[i] || (e[i] as int + 32 == word[i] as int
            && 'A' <= e[i] <= 'Z')
}

/// A text spelled as a word becomes the word when its letters are made small.
pub proof fn lemma_spelled(e: Text, word: Text)
    requires
        forall|i: int| 0 <= i < word.len() ==> !('A' <= #[trigger] word[i] <= 'Z'),
    ensures
        ascii_lower(e) == word <==> spelled(e, word),
{
    if ascii_lower(e) == word {
        assert forall|i: int| 0 <= i < e.len() implies (#[trigger] e[i]) == word[i] || (e[i] as int
            + 32 == word[i] as int && 'A' <= e[i] <= 'Z') by {
            assert(ascii_lower(e)[i] == word[i]);
        }
    }
    if spelled(e, word) {
        assert forall|i: int| 0 <= i < e.len() implies ascii_lower(e)[i] == word[i] by {
            assert(e[i] == word[i] || e[i] as int + 32 == word[i] as int);
        }
        assert(ascii_lower(e) =~= word);
    }
}

/// A file is an EPUB file exactly if its extension is spelled `epub`, in any
/// mixture of large and small letters, whatever else its path holds.
pub proof fn law_epubs_are_told_by_their_extension(d: Text, stem: Text, e: Text)
    requires
        !e.contains('.'),
        is_name(stem + seq!['.'] + e),
        stem.len() > 0,
    ensures
        epub_path(d + seq!['/'] + (stem + seq!['.'] + e)) <==> spelled(e, seq!['e', 'p', 'u', 'b']),
        epub_path(stem + seq!['.'] + e) <==> spelled(e, seq!['e', 'p', 'u', 'b']),
{
    law_extension_follows_the_last_dot(d, stem, e);
    reveal_strlit("epub");
    assert("epub"@ =~= seq!['e', 'p', 'u', 'b']);
    lemma_spelled(e, seq!['e', 'p', 'u', 'b']);
}

/// Whether `e` is one of the extensions of books, in any mixture of large and
/// small letters.
pub open spec fn spelled_as_a_book(e: Text) -> bool {
    ||| spelled(e, seq!['e', 'p', 'u', 'b'])
    ||| spelled(e, seq!['a', 'z', 'w', '3'])
    ||| spelled(e, seq!['a', 'z', 'w'])
    ||| spelled(e, seq!['m', 'o', 'b', 'i'])
    ||| spelled(e, seq!['p', 'd', 'f'])
    ||| spelled(e, seq!['f', 'b', '2'])
    ||| spelled(e, seq!['l', 'i', 't'])
    ||| spelled(e, seq!['l', 'r', 'f'])
    ||| spelled(e, seq!['k', 'f', 'x'])
}

/// A file is a book exactly if its extension is one of those of books, whatever
/// else its path holds.
pub proof fn law_books_are_told_by_their_extension(d: Text, stem: Text, e: Text)
    requires
        !e.contains('.'),
        is_name(stem + seq!['.'] + e),
        stem.len() > 0,
    ensures
        book_path(d + seq!['/'] + (stem + seq!['.'] + e)) <==> spelled_as_a_book(e),
        book_path(stem + seq!['.'] + e) <==> spelled_as_a_book(e),
{
    law_extension_follows_the_last_dot(d, stem, e);
    reveal_strlit("epub");
    reveal_strlit("azw3");
    reveal_strlit("azw");
    reveal_strlit("mobi");
    reveal_strlit("pdf");
    reveal_strlit("fb2");
    reveal_strlit("lit");
    reveal_strlit("lrf");
    reveal_strlit("kfx");
    assert("epub"@ =~= seq!['e', 'p', 'u', 'b']);
    assert("azw3"@ =~= seq!['a', 'z', 'w', '3']);
    assert("azw"@ =~= seq!['a', 'z', 'w']);
    assert("mobi"@ =~= seq!['m', 'o', 'b', 'i']);
    assert("pdf"@ =~= seq!['p', 'd', 'f']);
    assert("fb2"@ =~= seq!['f', 'b', '2']);
    assert("lit"@ =~= seq!['l', 'i', 't']);
    assert("lrf"@ =~= seq!['l', 'r', 'f']);
    assert("kfx"@ =~= seq!['k', 'f', 'x']);
    lemma_spelled(e, seq!['e', 'p', 'u', 'b']);
    lemma_spelled(e, seq!['a', 'z', 'w', '3']);
    lemma_spelled(e, seq!['a', 'z', 'w']);
    lemma_spelled(e, seq!['m', 'o', 'b', 'i']);
    lemma_spelled(e, seq!['p', 'd', 'f']);
    lemma_spelled(e, seq!['f', 'b', '2']);
    lemma_spelled(e, seq!['l', 'i', 't']);
    lemma_spelled(e, seq!['l', 'r', 'f']);
    lemma_spelled(e, seq!['k', 'f', 'x']);
}

/// A file without an extension is no book, and so is a path without a name.
pub proof fn law_no_extension_is_no_book(p: Text)
    requires
        extension_of(p) is None,
    ensures
        !book_path(p),
        !epub_path(p),
{
}

/// Where a path has no name there is nothing to search by, and paths with the
/// same name are searched by the same.
pub proof fn law_searched_name_goes_by_the_name(p: Text, q: Text)
    requires
        name_of(p) == name_of(q),
    ensures
        spaced_name(p) == spaced_name(q),
        name_of(p) is None ==> spaced_name(p).len() == 0,
{
}

/// The extension goes by the name of the file alone, and what kind of file it is
/// by the extension alone.
pub proof fn law_extension_goes_by_the_name(p: Text, q: Text)
    ensures
        name_of(p) == name_of(q) ==> extension_of(p) == extension_of(q),
        name_of(p) is None ==> extension_of(p) is None,
        extension_of(p) == extension_of(q) ==> epub_path(p) == epub_path(q) && book_path(p)
            == book_path(q),
{
}

} // verus!
