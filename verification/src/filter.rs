//! Search: the terms of a filter, which texts they match, and how the matches
//! of a filter relate to those of a longer one.

use crate::book::{described, search_text_of, spaced_name, BookView};
use crate::fold::{
    fold, fold_char, folded, law_ascii_case_is_folded, law_folding_keeps_parts,
    law_parts_are_folded_by_themselves, lemma_folded_is_final, lemma_folds_to_itself,
    lemma_space_folds_to_itself,
};
use crate::text::{
    ascii_lower, contains, has_part, is_space, joined, lemma_word_len, part_at, split_words, texts,
    trim, trim_end, trim_start, trimmed, word_len, words, Text,
};
use vstd::prelude::*;

verus! {

/// The terms of a filter: the words of the form in which it is compared.
pub open spec fn terms_of(filter: Text) -> Seq<Text> {
    words(folded(trimmed(filter)))
}

/// The terms of a filter.
pub fn parse_terms(filter: &str) -> (r: Vec<String>)
    ensures
        texts(r@) == terms_of(filter@),
{
    let t = trim(filter);
    let l = fold(t.as_str());
    split_words(l.as_str())
}

/// Whether a text holds every one of the terms.
pub open spec fn matches_terms(terms: Seq<Text>, text: Text) -> bool {
    forall|i: int| 0 <= i < terms.len() ==> has_part(text, #[trigger] terms[i])
}

/// Whether a text holds every one of the terms.
pub fn matches_all(terms: &Vec<String>, text: &str) -> (r: bool)
    ensures
        r == matches_terms(texts(terms@), text@),
{
    let mut i: usize = 0;
    while i < terms.len()
        invariant
            i <= terms@.len(),
            forall|k: int| 0 <= k < i ==> has_part(text@, #[trigger] texts(terms@)[k]),
        decreases terms@.len() - i,
    {
        assert(texts(terms@)[i as int] == terms@[i as int]@);
        if !contains(text, terms[i].as_str()) {
            return false;
        }
        i += 1;
    }
    true
}

/// Whether every text that matches the terms `narrow` also matches the terms
/// `wide`.
pub open spec fn narrows(narrow: Seq<Text>, wide: Seq<Text>) -> bool {
    forall|text: Text| #[trigger] matches_terms(narrow, text) ==> matches_terms(wide, text)
}

/// Whether `s` holds no white space.
pub open spec fn no_space(s: Text) -> bool {
    forall|i: int| 0 <= i < s.len() ==> !is_space(#[trigger] s[i])
}

/// A part of a part of a text is a part of the text.
pub proof fn lemma_part_of_part(s: Text, mid: Text, part: Text)
    requires
        has_part(s, mid),
        has_part(mid, part),
    ensures
        has_part(s, part),
{
    let k = choose|k: int| #[trigger] part_at(s, mid, k);
    let l = choose|l: int| #[trigger] part_at(mid, part, l);
    assert(s.subrange(k + l, k + l + part.len()) =~= mid.subrange(l, l + part.len()));
    assert(part_at(s, part, k + l));
}

/// Each word of a text is a part of it, is not empty, and holds no white space.
pub proof fn lemma_words_are_parts(s: Text)
    ensures
        forall|i: int|
            0 <= i < words(s).len() ==> has_part(s, #[trigger] words(s)[i]) && words(s)[i].len() > 0
                && no_space(words(s)[i]),
    decreases s.len(),
{
    if s.len() == 0 {
    } else if is_space(s[0]) {
        let t = s.drop_first();
        lemma_words_are_parts(t);
        assert forall|i: int| 0 <= i < words(s).len() implies has_part(s, #[trigger] words(s)[i])
            && words(s)[i].len() > 0 && no_space(words(s)[i]) by {
            assert(part_at(s, t, 1));
            lemma_part_of_part(s, t, words(t)[i]);
        }
    } else {
        lemma_word_len(s);
        let n = word_len(s) as int;
        let t = s.skip(n);
        lemma_words_are_parts(t);
        assert forall|i: int| 0 <= i < words(s).len() implies has_part(s, #[trigger] words(s)[i])
            && words(s)[i].len() > 0 && no_space(words(s)[i]) by {
            if i == 0 {
                assert(words(s)[0] == s.take(n));
                assert(part_at(s, s.take(n), 0));
            } else {
                assert(words(s)[i] == words(t)[i - 1]);
                assert(part_at(s, t, n));
                lemma_part_of_part(s, t, words(t)[i - 1]);
            }
        }
    }
}

/// A part of a text that holds no white space lies within one of its words.
pub proof fn lemma_part_lies_in_word(s: Text, part: Text)
    requires
        has_part(s, part),
        part.len() > 0,
        no_space(part),
    ensures
        exists|i: int| 0 <= i < words(s).len() && has_part(#[trigger] words(s)[i], part),
    decreases s.len(),
{
    let k = choose|k: int| #[trigger] part_at(s, part, k);
    assert forall|j: int| 0 <= j < part.len() implies s[k + j] == #[trigger] part[j] by {
        assert(s.subrange(k, k + part.len())[j] == s[k + j]);
    }
    if is_space(s[0]) {
        assert(s[k + 0] == part[0]);
        let t = s.drop_first();
        assert(t.subrange(k - 1, k - 1 + part.len()) =~= part);
        assert(part_at(t, part, k - 1));
        lemma_part_lies_in_word(t, part);
        assert(words(s) == words(t));
    } else {
        lemma_word_len(s);
        let n = word_len(s) as int;
        let t = s.skip(n);
        if k < n {
            if k + part.len() > n {
                assert(s[k + (n - k)] == part[n - k]);
            }
            let w = s.take(n);
            assert(w.subrange(k, k + part.len()) =~= part);
            assert(part_at(w, part, k));
            assert(words(s)[0] == w);
            assert(has_part(words(s)[0], part));
        } else {
            assert(t.subrange(k - n, k - n + part.len()) =~= part);
            assert(part_at(t, part, k - n));
            lemma_part_lies_in_word(t, part);
            let i = choose|i: int| 0 <= i < words(t).len() && has_part(#[trigger] words(t)[i], part);
            assert(words(s)[i + 1] == words(t)[i]);
        }
    }
}

/// The words of a text match at least what the words of any part of it match,
/// so a filter narrows each filter whose form is a part of its own.
pub proof fn law_longer_filter_narrows(filter: Text, longer: Text)
    requires
        has_part(folded(trimmed(longer)), folded(trimmed(filter))),
    ensures
        narrows(terms_of(longer), terms_of(filter)),
{
    let short = folded(trimmed(filter));
    let long = folded(trimmed(longer));
    lemma_words_are_parts(short);
    assert forall|text: Text| #[trigger] matches_terms(words(long), text) implies matches_terms(
        words(short),
        text,
    ) by {
        assert forall|i: int| 0 <= i < words(short).len() implies has_part(
            text,
            #[trigger] words(short)[i],
        ) by {
            let w = words(short)[i];
            lemma_part_of_part(long, short, w);
            lemma_part_lies_in_word(long, w);
            let j = choose|j: int| 0 <= j < words(long).len() && has_part(
                #[trigger] words(long)[j],
                w,
            );
            lemma_part_of_part(text, words(long)[j], w);
        }
    }
}

/// Where the trimmed text begins and ends in the text: before it and after it
/// there is nothing but white space.
proof fn lemma_trimmed_range(s: Text) -> (r: (int, int))
    ensures
        0 <= r.0 <= r.1 <= s.len(),
        trimmed(s) == s.subrange(r.0, r.1),
        forall|i: int| 0 <= i < r.0 || r.1 <= i < s.len() ==> is_space(#[trigger] s[i]),
        r.0 < r.1 ==> !is_space(s[r.0]) && !is_space(s[r.1 - 1]),
{
    let a = lemma_trim_start(s);
    let t = s.skip(a);
    let b = lemma_trim_end(t);
    assert forall|i: int| 0 <= i < a || a + b <= i < s.len() implies is_space(#[trigger] s[i]) by {
        if i >= a {
            assert(s[i] == t[i - a]);
        }
    }
    assert(s.subrange(a, a + b) =~= t.take(b));
    if b > 0 {
        assert(t[0] == s[a]);
        assert(t[b - 1] == s[a + b - 1]);
    }
    (a, a + b)
}

proof fn lemma_trim_start(s: Text) -> (a: int)
    ensures
        0 <= a <= s.len(),
        trim_start(s) == s.skip(a),
        forall|i: int| 0 <= i < a ==> is_space(#[trigger] s[i]),
        a < s.len() ==> !is_space(s[a]),
    decreases s.len(),
{
    if s.len() > 0 && is_space(s[0]) {
        let t = s.drop_first();
        let b = lemma_trim_start(t);
        assert(t.skip(b) =~= s.skip(b + 1));
        assert forall|i: int| 0 <= i < b + 1 implies is_space(#[trigger] s[i]) by {
            if i > 0 {
                assert(s[i] == t[i - 1]);
            }
        }
        b + 1
    } else {
        assert(s.skip(0) =~= s);
        0
    }
}

proof fn lemma_trim_end(s: Text) -> (b: int)
    ensures
        0 <= b <= s.len(),
        trim_end(s) == s.take(b),
        forall|i: int| b <= i < s.len() ==> is_space(#[trigger] s[i]),
        b > 0 ==> !is_space(s[b - 1]),
    decreases s.len(),
{
    if s.len() > 0 && is_space(s.last()) {
        let t = s.drop_last();
        let b = lemma_trim_end(t);
        assert(t.take(b) =~= s.take(b));
        assert forall|i: int| b <= i < s.len() implies is_space(#[trigger] s[i]) by {
            if i < t.len() {
                assert(s[i] == t[i]);
            }
        }
        b
    } else {
        assert(s.take(s.len() as int) =~= s);
        s.len() as int
    }
}

/// Typing on after a filter never widens it.
pub proof fn law_typing_narrows(filter: Text, longer: Text)
    requires
        filter.is_prefix_of(longer),
    ensures
        narrows(terms_of(longer), terms_of(filter)),
{
    let (a, b) = lemma_trimmed_range(filter);
    let (c, d) = lemma_trimmed_range(longer);
    assert forall|i: int| 0 <= i < filter.len() implies filter[i] == #[trigger] longer[i] by {
        assert(longer.subrange(0, filter.len() as int)[i] == longer[i]);
    }
    let short = trimmed(filter);
    let long = trimmed(longer);
    if a < b {
        assert(!is_space(longer[a]));
        assert(!is_space(longer[b - 1]));
        assert(c <= a && b <= d);
        assert(long.subrange(a - c, a - c + short.len()) =~= short);
        assert(part_at(long, short, a - c));
    } else {
        assert(long.subrange(0, 0) =~= short);
        assert(part_at(long, short, 0));
    }
    law_folding_keeps_parts(long, short);
    law_longer_filter_narrows(filter, longer);
}

/// A text matches the terms of two filters together exactly if it matches those
/// of each.
pub proof fn law_terms_are_joined_by_and(a: Seq<Text>, b: Seq<Text>, text: Text)
    ensures
        matches_terms(a + b, text) <==> matches_terms(a, text) && matches_terms(b, text),
{
    if matches_terms(a + b, text) {
        assert forall|i: int| 0 <= i < a.len() implies has_part(text, #[trigger] a[i]) by {
            assert((a + b)[i] == a[i]);
        }
        assert forall|i: int| 0 <= i < b.len() implies has_part(text, #[trigger] b[i]) by {
            assert((a + b)[a.len() + i] == b[i]);
        }
    }
}

/// A filter of nothing but white space has no terms, and so matches every text.
pub proof fn law_blank_filter_matches_everything(filter: Text, text: Text)
    requires
        no_word(filter),
    ensures
        terms_of(filter).len() == 0,
        matches_terms(terms_of(filter), text),
{
    let (a, b) = lemma_trimmed_range(filter);
    if a < b {
        assert(is_space(filter[a]));
    }
    assert(trimmed(filter) =~= Seq::<char>::empty());
}

/// Whether every character of `s` is white space.
pub open spec fn no_word(s: Text) -> bool {
    forall|i: int| 0 <= i < s.len() ==> is_space(#[trigger] s[i])
}

/// The first word of two texts that stand one after the other, the second
/// beginning with white space, is that of the first.
proof fn lemma_word_len_of_both(a: Text, b: Text)
    requires
        b.len() == 0 || is_space(b[0]),
    ensures
        word_len(a + b) == word_len(a),
    decreases a.len(),
{
    if a.len() == 0 {
        assert(a + b =~= b);
    } else if !is_space(a[0]) {
        lemma_word_len_of_both(a.drop_first(), b);
        assert((a + b).drop_first() =~= a.drop_first() + b);
    }
}

/// The words of two texts that stand one after the other, the second beginning
/// with white space, are those of the first and then those of the second.
proof fn lemma_words_of_both(a: Text, b: Text)
    requires
        b.len() == 0 || is_space(b[0]),
    ensures
        words(a + b) == words(a) + words(b),
    decreases a.len(),
{
    let s = a + b;
    if a.len() == 0 {
        assert(s =~= b);
        assert(words(a) + words(b) =~= words(b));
    } else if is_space(a[0]) {
        lemma_words_of_both(a.drop_first(), b);
        assert(s.drop_first() =~= a.drop_first() + b);
    } else {
        lemma_word_len(a);
        lemma_word_len_of_both(a, b);
        let n = word_len(a) as int;
        lemma_words_of_both(a.skip(n), b);
        assert(s.skip(n) =~= a.skip(n) + b);
        assert(s.take(n) =~= a.take(n));
        assert(seq![a.take(n)] + (words(a.skip(n)) + words(b)) =~= words(a) + words(b));
    }
}

/// White space has no words.
proof fn lemma_no_words(s: Text)
    requires
        no_word(s),
    ensures
        words(s) == Seq::<Text>::empty(),
    decreases s.len(),
{
    if s.len() > 0 {
        lemma_no_words(s.drop_first());
    }
}

/// White space before a text does not change its words.
proof fn lemma_words_after_space(blank: Text, s: Text)
    requires
        no_word(blank),
    ensures
        words(blank + s) == words(s),
    decreases blank.len(),
{
    if blank.len() == 0 {
        assert(blank + s =~= s);
    } else {
        lemma_words_after_space(blank.drop_first(), s);
        assert((blank + s).drop_first() =~= blank.drop_first() + s);
    }
}

/// White space around a filter does not change its terms.
pub proof fn lemma_terms(filter: Text)
    ensures
        terms_of(filter) == words(folded(filter)),
{
    let (a, b) = lemma_trimmed_range(filter);
    let head = filter.take(a);
    let mid = trimmed(filter);
    let tail = filter.skip(b);
    assert(filter =~= head + mid + tail);
    lemma_space_folds_to_itself(head);
    lemma_space_folds_to_itself(tail);
    law_parts_are_folded_by_themselves(head + mid, tail);
    law_parts_are_folded_by_themselves(head, mid);
    assert(folded(filter) =~= head + (folded(mid) + tail));
    lemma_words_after_space(head, folded(mid) + tail);
    lemma_words_of_both(folded(mid), tail);
    lemma_no_words(tail);
    assert(words(folded(mid)) + words(tail) =~= words(folded(mid)));
}

/// The terms of two filters with a space between them are those of the one and
/// then those of the other.
pub proof fn law_filters_are_joined_by_a_space(a: Text, b: Text)
    ensures
        terms_of(a + seq![' '] + b) == terms_of(a) + terms_of(b),
{
    let space = seq![' '];
    lemma_terms(a);
    lemma_terms(b);
    lemma_terms(a + space + b);
    lemma_space_folds_to_itself(space);
    law_parts_are_folded_by_themselves(a + space, b);
    law_parts_are_folded_by_themselves(a, space);
    assert(folded(a + space + b) =~= folded(a) + (space + folded(b)));
    lemma_words_of_both(folded(a), space + folded(b));
    lemma_words_after_space(space, folded(b));
}

/// Texts without white space, with a space between them, have these texts as
/// their words.
proof fn lemma_words_of_joined(ws: Seq<Text>)
    requires
        forall|i: int| 0 <= i < ws.len() ==> (#[trigger] ws[i]).len() > 0 && no_space(ws[i]),
    ensures
        words(joined(ws, seq![' '])) == ws,
    decreases ws.len(),
{
    let space = seq![' '];
    if ws.len() == 0 {
        assert(words(Seq::<char>::empty()) =~= ws);
    } else {
        let init = ws.drop_last();
        let last = ws.last();
        assert(ws[ws.len() - 1] == last);
        assert(words(last) =~= seq![last]) by {
            lemma_word_len(last);
            assert(word_len(last) == last.len());
            assert(last.take(last.len() as int) =~= last);
            assert(words(last.skip(last.len() as int)) =~= Seq::<Text>::empty());
        }
        if ws.len() == 1 {
            assert(ws =~= seq![last]);
        } else {
            assert forall|i: int| 0 <= i < init.len() implies (#[trigger] init[i]).len() > 0
                && no_space(init[i]) by {
                assert(init[i] == ws[i]);
            }
            lemma_words_of_joined(init);
            let head = joined(init, space);
            assert(joined(ws, space) =~= head + (space + last));
            lemma_words_of_both(head, space + last);
            lemma_words_after_space(space, last);
            assert(init + seq![last] =~= ws);
        }
    }
}

/// Texts that are their own forms, with a space between them, are again.
proof fn lemma_joined_folds_to_itself(ws: Seq<Text>)
    requires
        forall|i: int| 0 <= i < ws.len() ==> folded(#[trigger] ws[i]) == ws[i],
    ensures
        folded(joined(ws, seq![' '])) == joined(ws, seq![' ']),
    decreases ws.len(),
{
    let space = seq![' '];
    if ws.len() > 0 {
        let init = ws.drop_last();
        let last = ws.last();
        assert(ws[ws.len() - 1] == last);
        if ws.len() > 1 {
            assert forall|i: int| 0 <= i < init.len() implies folded(#[trigger] init[i])
                == init[i] by {
                assert(init[i] == ws[i]);
            }
            lemma_joined_folds_to_itself(init);
            let head = joined(init, space);
            law_parts_are_folded_by_themselves(head + space, last);
            law_parts_are_folded_by_themselves(head, space);
            lemma_space_folds_to_itself(space);
        }
    }
}

/// The terms of a filter, with a space between them, make a filter with the
/// same terms.
pub proof fn law_terms_make_the_same_filter(filter: Text)
    ensures
        terms_of(joined(terms_of(filter), seq![' '])) == terms_of(filter),
{
    let form = folded(trimmed(filter));
    let ws = terms_of(filter);
    lemma_words_are_parts(form);
    lemma_folded_is_final(trimmed(filter));
    assert forall|i: int| 0 <= i < ws.len() implies folded(#[trigger] ws[i]) == ws[i] by {
        let w = ws[i];
        let k = choose|k: int| #[trigger] part_at(form, w, k);
        assert forall|j: int| 0 <= j < w.len() implies fold_char(#[trigger] w[j]) == seq![w[j]] by {
            assert(form.subrange(k, k + w.len())[j] == form[k + j]);
        }
        lemma_folds_to_itself(w);
    }
    lemma_terms(joined(ws, seq![' ']));
    lemma_joined_folds_to_itself(ws);
    lemma_words_of_joined(ws);
}

/// Case does not matter: filters with the same form have the same terms, and
/// whether they match a book depends on the form of its description alone.
pub proof fn law_case_does_not_matter(a: Text, b: Text, x: BookView, y: BookView)
    requires
        folded(a) == folded(b),
        folded(described(x.path, x.title, x.author)) == folded(
            described(y.path, y.title, y.author),
        ),
    ensures
        terms_of(a) == terms_of(b),
        matches_terms(terms_of(a), search_text_of(x)) == matches_terms(
            terms_of(b),
            search_text_of(y),
        ),
{
    lemma_terms(a);
    lemma_terms(b);
}

/// Filters that differ only in large and small letters `A` to `Z` have the same
/// terms, whatever else stands in them.
pub proof fn law_ascii_case_does_not_matter(a: Text, b: Text)
    requires
        ascii_lower(a) == ascii_lower(b),
    ensures
        terms_of(a) == terms_of(b),
{
    law_ascii_case_is_folded(a);
    law_ascii_case_is_folded(b);
    lemma_terms(a);
    lemma_terms(b);
}

/// A term, which holds no white space, stands in texts with a space between
/// them exactly if it stands in one of them.
pub proof fn lemma_term_in_fields(a: Text, b: Text, term: Text)
    requires
        term.len() > 0,
        no_space(term),
    ensures
        has_part(a + seq![' '] + b, term) <==> has_part(a, term) || has_part(b, term),
{
    let s = a + seq![' '] + b;
    if has_part(a, term) {
        assert(s.subrange(0, a.len() as int) =~= a);
        assert(part_at(s, a, 0));
        lemma_part_of_part(s, a, term);
    }
    if has_part(b, term) {
        let l = a.len() as int + 1;
        assert(s.subrange(l, l + b.len()) =~= b);
        assert(part_at(s, b, l));
        lemma_part_of_part(s, b, term);
    }
    if has_part(s, term) {
        let k = choose|k: int| #[trigger] part_at(s, term, k);
        if k + term.len() <= a.len() {
            assert(a.subrange(k, k + term.len()) =~= s.subrange(k, k + term.len()));
            assert(part_at(a, term, k));
        } else if k > a.len() {
            let l = k - a.len() - 1;
            assert(b.subrange(l, l + term.len()) =~= s.subrange(k, k + term.len()));
            assert(part_at(b, term, l));
        } else {
            assert(s.subrange(k, k + term.len())[a.len() - k] == ' ');
            assert(is_space(term[a.len() - k]));
        }
    }
}

/// The text that a book is searched by is made of its file name, its title and
/// its author, each folded, with a space between them.
pub proof fn law_search_text_is_made_of_three_fields(b: BookView)
    ensures
        search_text_of(b) == folded(spaced_name(b.path)) + seq![' '] + folded(b.title) + seq![' ']
            + folded(b.author),
{
    let space = seq![' '];
    let name = spaced_name(b.path);
    lemma_space_folds_to_itself(space);
    law_parts_are_folded_by_themselves(name + space + b.title + space, b.author);
    law_parts_are_folded_by_themselves(name + space + b.title, space);
    law_parts_are_folded_by_themselves(name + space, b.title);
    law_parts_are_folded_by_themselves(name, space);
}

/// Whether a term stands in the file name (with spaces for underscores), the
/// title or the author of a book, each in the form in which it is compared.
pub open spec fn in_a_field(b: BookView, term: Text) -> bool {
    has_part(folded(spaced_name(b.path)), term) || has_part(folded(b.title), term) || has_part(
        folded(b.author),
        term,
    )
}

/// A term is found in a book exactly if it stands in its file name, its title
/// or its author.
pub proof fn law_term_is_found_in_a_field(b: BookView, term: Text)
    requires
        term.len() > 0,
        no_space(term),
    ensures
        has_part(search_text_of(b), term) <==> in_a_field(b, term),
{
    law_search_text_is_made_of_three_fields(b);
    lemma_term_in_fields(
        folded(spaced_name(b.path)) + seq![' '] + folded(b.title),
        folded(b.author),
        term,
    );
    lemma_term_in_fields(folded(spaced_name(b.path)), folded(b.title), term);
}

/// Each term of a filter lies in the form of one of its words.
proof fn lemma_term_lies_in_word(s: Text, i: int)
    requires
        0 <= i < words(folded(s)).len(),
    ensures
        exists|j: int|
            0 <= j < words(s).len() && has_part(
                folded(#[trigger] words(s)[j]),
                words(folded(s))[i],
            ),
    decreases s.len(),
{
    let term = words(folded(s))[i];
    if s.len() == 0 {
    } else if is_space(s[0]) {
        let space = s.take(1);
        let t = s.drop_first();
        assert(s =~= space + t);
        lemma_space_folds_to_itself(space);
        law_parts_are_folded_by_themselves(space, t);
        lemma_words_after_space(space, folded(t));
        lemma_term_lies_in_word(t, i);
        let j = choose|j: int|
            0 <= j < words(t).len() && has_part(folded(#[trigger] words(t)[j]), term);
        assert(has_part(folded(words(s)[j]), term));
    } else {
        lemma_word_len(s);
        let n = word_len(s) as int;
        let w = s.take(n);
        let t = s.skip(n);
        assert(s =~= w + t);
        law_parts_are_folded_by_themselves(w, t);
        if t.len() > 0 {
            let space = t.take(1);
            assert(t =~= space + t.drop_first());
            assert(t[0] == s[n]);
            lemma_space_folds_to_itself(space);
            law_parts_are_folded_by_themselves(space, t.drop_first());
        }
        lemma_words_of_both(folded(w), folded(t));
        let m = words(folded(w)).len() as int;
        assert(words(s)[0] == w);
        if i < m {
            lemma_words_are_parts(folded(w));
            assert(words(folded(w))[i] == term);
            assert(has_part(folded(words(s)[0]), term));
        } else {
            assert(words(folded(t))[i - m] == term);
            lemma_term_lies_in_word(t, i - m);
            let j = choose|j: int|
                0 <= j < words(t).len() && has_part(folded(#[trigger] words(t)[j]), term);
            assert(words(s)[j + 1] == words(t)[j]);
            assert(has_part(folded(words(s)[j + 1]), term));
        }
    }
}

/// A book that holds the words of a filter as they were typed, each in its file
/// name, its title or its author, matches the filter.
pub proof fn law_what_was_typed_is_found(b: BookView, filter: Text)
    requires
        forall|j: int|
            0 <= j < words(filter).len() ==> has_part(spaced_name(b.path), #[trigger] words(
                filter,
            )[j]) || has_part(b.title, words(filter)[j]) || has_part(b.author, words(filter)[j]),
    ensures
        matches_terms(terms_of(filter), search_text_of(b)),
{
    lemma_terms(filter);
    let terms = terms_of(filter);
    lemma_words_are_parts(folded(filter));
    assert forall|i: int| 0 <= i < terms.len() implies has_part(
        search_text_of(b),
        #[trigger] terms[i],
    ) by {
        lemma_term_lies_in_word(filter, i);
        let j = choose|j: int|
            0 <= j < words(filter).len() && has_part(folded(#[trigger] words(filter)[j]), terms[i]);
        let w = words(filter)[j];
        let field = if has_part(spaced_name(b.path), w) {
            spaced_name(b.path)
        } else if has_part(b.title, w) {
            b.title
        } else {
            b.author
        };
        law_folding_keeps_parts(field, w);
        lemma_part_of_part(folded(field), folded(w), terms[i]);
        law_term_is_found_in_a_field(b, terms[i]);
    }
}

/// A text matches one term exactly if the term stands in it, and no terms
/// always.
pub proof fn law_term_matches_where_it_stands(term: Text, text: Text)
    ensures
        matches_terms(seq![term], text) <==> has_part(text, term),
        matches_terms(Seq::empty(), text),
{
    if matches_terms(seq![term], text) {
        assert(has_part(text, seq![term][0]));
    }
}

/// The terms of a filter of one word are the form of the word, as long as that
/// is not empty and holds no white space.
pub proof fn law_word_is_a_term(w: Text)
    requires
        folded(w).len() > 0,
        no_space(folded(w)),
    ensures
        terms_of(w) == seq![folded(w)],
{
    lemma_terms(w);
    let f = folded(w);
    lemma_word_len(f);
    assert(word_len(f) == f.len());
    assert(f.take(f.len() as int) =~= f);
    assert(words(f.skip(f.len() as int)) =~= Seq::<Text>::empty());
    assert(words(f) =~= seq![f]);
}

/// A text without white space is its own only word.
pub proof fn law_text_without_space_is_a_word(w: Text)
    requires
        w.len() > 0,
        no_space(w),
    ensures
        words(w) == seq![w],
{
    lemma_word_len(w);
    assert(word_len(w) == w.len());
    assert(w.take(w.len() as int) =~= w);
    assert(words(w.skip(w.len() as int)) =~= Seq::<Text>::empty());
    assert(words(w) =~= seq![w]);
}

/// Words are told apart by white space: those of two texts with white space
/// between them are those of the one and then those of the other, and white
/// space has none.
pub proof fn law_words_are_told_apart_by_space(a: Text, blank: Text, b: Text)
    requires
        blank.len() > 0,
        no_word(blank),
    ensures
        words(a + blank + b) == words(a) + words(b),
        words(blank).len() == 0,
{
    assert(a + blank + b =~= a + (blank + b));
    assert((blank + b)[0] == blank[0]);
    lemma_words_of_both(a, blank + b);
    lemma_words_after_space(blank, b);
    lemma_no_words(blank);
}

} // verus!
