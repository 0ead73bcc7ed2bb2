//! The names of files: the last component of a path, its extension, and which
//! extensions are those of books. Paths are those of Unix, where a slash stands
//! between two components.

use crate::text::{
    ascii_lower, chars_of, pieces, same_text, split, string_of, texts, to_ascii_lower, Text,
};
use vstd::prelude::*;

verus! {

/// Whether a piece of a path between two slashes is a component of it: repeated
/// slashes and `.` do not count.
pub open spec fn is_component(part: Text) -> bool {
    part.len() > 0 && part != "."@
}

/// The components of a path.
pub open spec fn components(path: Text) -> Seq<Text> {
    pieces(path, '/').filter(|p: Text| is_component(p))
}

/// The last component of a path; none where there is no component, or where the
/// last one is `..`.
pub open spec fn name_of(path: Text) -> Option<Text> {
    let parts = components(path);
    if parts.len() == 0 || parts.last() == ".."@ {
        None
    } else {
        Some(parts.last())
    }
}

/// The last component of a path.
pub fn file_name(path: &str) -> (r: Option<String>)
    ensures
        match r {
            Some(n) => name_of(path@) == Some(n@),
            None => name_of(path@) is None,
        },
{
    let parts = split(path, '/');
    let ghost all = pieces(path@, '/');
    let ghost keep = |p: Text| is_component(p);
    let mut last: Option<usize> = None;
    let mut i: usize = 0;
    assert(all.take(0).filter(keep) == Seq::<Text>::empty()) by {
        reveal(Seq::filter);
    }
    while i < parts.len()
        invariant
            i <= parts@.len(),
            all == texts(parts@),
            keep == (|p: Text| is_component(p)),
            match last {
                Some(k) => k < i && all.take(i as int).filter(keep).len() > 0 && all.take(
                    i as int,
                ).filter(keep).last() == all[k as int],
                None => all.take(i as int).filter(keep).len() == 0,
            },
        decreases parts@.len() - i,
    {
        assert(all.take(i + 1) == all.take(i as int).push(all[i as int]));
        assert(all[i as int] == parts@[i as int]@);
        proof {
            all.take(i as int).lemma_filter_push(all[i as int], keep);
        }
        if !parts[i].as_str().is_empty() && !same_text(parts[i].as_str(), ".") {
            assert(keep(all[i as int]));
            last = Some(i);
        } else {
            assert(!keep(all[i as int]));
        }
        i += 1;
    }
    assert(all.take(all.len() as int) == all);
    match last {
        Some(k) => {
            if same_text(parts[k].as_str(), "..") {
                None
            } else {
                Some(parts[k].clone())
            }
        },
        None => None,
    }
}

/// The place of the last dot of `s`; -1 where it has none.
pub open spec fn last_dot(s: Text) -> int
    decreases s.len(),
{
    if s.len() == 0 {
        -1
    } else if s.last() == '.' {
        s.len() - 1
    } else {
        last_dot(s.drop_last())
    }
}

/// The extension of a file name: what follows its last dot; none where there is
/// no dot but one at the very beginning.
pub open spec fn extension_of_name(name: Text) -> Option<Text> {
    let i = last_dot(name);
    if i <= 0 {
        None
    } else {
        Some(name.skip(i + 1))
    }
}

/// The extension of the last component of a path.
pub open spec fn extension_of(path: Text) -> Option<Text> {
    match name_of(path) {
        Some(name) => extension_of_name(name),
        None => None,
    }
}

/// The extension of the last component of a path.
pub fn extension(path: &str) -> (r: Option<String>)
    ensures
        match r {
            Some(e) => extension_of(path@) == Some(e@),
            None => extension_of(path@) is None,
        },
{
    match file_name(path) {
        None => None,
        Some(name) => {
            let v = chars_of(name.as_str());
            let mut i: usize = v.len();
            assert(v@.take(v@.len() as int) == v@);
            while i > 0 && v[i - 1] != '.'
                invariant
                    i <= v@.len(),
                    last_dot(v@) == last_dot(v@.take(i as int)),
                ensures
                    i <= v@.len(),
                    last_dot(v@) == last_dot(v@.take(i as int)),
                    i == 0 || v@[i - 1] == '.',
                decreases i,
            {
                assert(v@.take(i as int).drop_last() == v@.take(i - 1));
                i -= 1;
            }
            proof {
                if i > 0 {
                    assert(v@.take(i as int).last() == '.');
                }
            }
            if i <= 1 {
                None
            } else {
                let e = string_of(&v, i, v.len());
                assert(v@.skip(i as int) == v@.subrange(i as int, v@.len() as int));
                Some(e)
            }
        },
    }
}

/// Whether the path is that of an EPUB file: its extension is `epub` in any
/// mixture of large and small letters.
pub open spec fn epub_path(path: Text) -> bool {
    match extension_of(path) {
        Some(e) => ascii_lower(e) == "epub"@,
        None => false,
    }
}

/// Whether the path is that of an EPUB file.
pub fn is_epub(path: &str) -> (r: bool)
    ensures
        r == epub_path(path@),
{
    match extension(path) {
        Some(e) => same_text(to_ascii_lower(e.as_str()).as_str(), "epub"),
        None => false,
    }
}

/// The extensions of the files that are indexed, in small letters.
pub open spec fn book_extension(e: Text) -> bool {
    ||| e == "epub"@
    ||| e == "azw3"@
    ||| e == "azw"@
    ||| e == "mobi"@
    ||| e == "pdf"@
    ||| e == "fb2"@
    ||| e == "lit"@
    ||| e == "lrf"@
    ||| e == "kfx"@
}

/// Whether the path is that of a book: its extension is one of the supported
/// ones in any mixture of large and small letters.
pub open spec fn book_path(path: Text) -> bool {
    match extension_of(path) {
        Some(e) => book_extension(ascii_lower(e)),
        None => false,
    }
}

/// Whether the path is that of a book.
pub fn is_book(path: &str) -> (r: bool)
    ensures
        r == book_path(path@),
{
    match extension(path) {
        Some(e) => {
            let l = to_ascii_lower(e.as_str());
            let s = l.as_str();
            same_text(s, "epub") || same_text(s, "azw3") || same_text(s, "azw") || same_text(
                s,
                "mobi",
            ) || same_text(s, "pdf") || same_text(s, "fb2") || same_text(s, "lit") || same_text(
                s,
                "lrf",
            ) || same_text(s, "kfx")
        },
        None => false,
    }
}

/// Every EPUB file is a book.
pub proof fn law_epubs_are_books(path: Text)
    ensures
        epub_path(path) ==> book_path(path),
{
}

} // verus!
