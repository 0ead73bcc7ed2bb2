//! What the operations on texts come to, said by the characters that go in and
//! come out.

use crate::fold::{all_final, char_lower, fold_char, folded};
use crate::order::text_lt;
use crate::text::{
    ascii_lower, decimal, has_part, hex, is_space, joined, len_to, lemma_len_to, lower, part_at,
    pieces, trim_end, trim_start, trimmed, underscores_to_spaces, unicode_lower, Text,
};
use vstd::prelude::*;

verus! {

/// Trimming takes white space off the two ends of a text, all of it, and
/// nothing else.
pub proof fn law_trimming_takes_space_off_the_ends(a: Text, s: Text, b: Text)
    requires
        forall|i: int| 0 <= i < a.len() ==> is_space(#[trigger] a[i]),
        forall|i: int| 0 <= i < b.len() ==> is_space(#[trigger] b[i]),
        s.len() > 0 ==> !is_space(s[0]) && !is_space(s.last()),
    ensures
        trimmed(a + s + b) == s,
{
    lemma_trim_start_of(a, s + b);
    assert(a + s + b =~= a + (s + b));
    if s.len() > 0 {
        assert((s + b)[0] == s[0]);
        assert(trim_start(s + b) == s + b);
        lemma_trim_end_of(s, b);
    } else {
        assert(s + b =~= b);
        lemma_trim_start_of(b, Seq::empty());
        assert(b + Seq::<char>::empty() =~= b);
        assert(trim_start(Seq::<char>::empty()) =~= Seq::<char>::empty());
        assert(s =~= Seq::<char>::empty());
    }
}

proof fn lemma_trim_start_of(a: Text, s: Text)
    requires
        forall|i: int| 0 <= i < a.len() ==> is_space(#[trigger] a[i]),
    ensures
        trim_start(a + s) == trim_start(s),
    decreases a.len(),
{
    if a.len() == 0 {
        assert(a + s =~= s);
    } else {
        assert((a + s)[0] == a[0]);
        assert((a + s).drop_first() =~= a.drop_first() + s);
        lemma_trim_start_of(a.drop_first(), s);
    }
}

proof fn lemma_trim_end_of(s: Text, b: Text)
    requires
        forall|i: int| 0 <= i < b.len() ==> is_space(#[trigger] b[i]),
        s.len() > 0,
        !is_space(s.last()),
    ensures
        trim_end(s + b) == s,
    decreases b.len(),
{
    if b.len() == 0 {
        assert(s + b =~= s);
    } else {
        assert((s + b).last() == b[b.len() - 1]);
        assert((s + b).drop_last() =~= s + b.drop_last());
        lemma_trim_end_of(s, b.drop_last());
    }
}

/// Making ASCII letters small changes the letters `A` to `Z`, each into the
/// letter that stands thirty-two places on, and no other character.
pub proof fn law_ascii_letters_are_made_small(s: Text)
    ensures
        ascii_lower(s).len() == s.len(),
        forall|i: int|
            0 <= i < s.len() ==> (#[trigger] ascii_lower(s)[i] as int) == (if 'A' <= s[i]
                && s[i] <= 'Z' {
                s[i] as int + 32
            } else {
                s[i] as int
            }),
{
}

/// A part of a text is what stands between what comes before it and what comes
/// after it.
pub proof fn law_parts_stand_between(a: Text, part: Text, b: Text)
    ensures
        has_part(a + part + b, part),
{
    let s = a + part + b;
    assert(s.subrange(a.len() as int, a.len() as int + part.len()) =~= part);
    assert(part_at(s, part, a.len() as int));
}

/// Where a text has a part, something comes before it and something after it.
pub proof fn law_part_leaves_two_rests(s: Text, part: Text) -> (r: (Text, Text))
    requires
        has_part(s, part),
    ensures
        s == r.0 + part + r.1,
{
    let k = choose|k: int| #[trigger] part_at(s, part, k);
    let a = s.take(k);
    let b = s.skip(k + part.len());
    assert(s =~= a + part + b);
    (a, b)
}

/// A space stands in place of each underscore, and every other character stays
/// where it is.
pub proof fn law_underscores_become_spaces(s: Text)
    ensures
        underscores_to_spaces(s).len() == s.len(),
        forall|i: int|
            0 <= i < s.len() ==> #[trigger] underscores_to_spaces(s)[i] == (if s[i] == '_' {
                ' '
            } else {
                s[i]
            }),
{
}

/// The pieces of a text hold no separator, and joined by it they are the text.
pub proof fn law_pieces_make_up_the_text(s: Text, sep: char)
    ensures
        pieces(s, sep).len() > 0,
        forall|i: int|
            0 <= i < pieces(s, sep).len() ==> !(#[trigger] pieces(s, sep)[i]).contains(sep),
        joined(pieces(s, sep), seq![sep]) == s,
    decreases s.len(),
{
    lemma_len_to(s, sep);
    let n = len_to(s, sep) as int;
    let all = pieces(s, sep);
    if n >= s.len() {
        assert(all =~= seq![s]);
        assert forall|i: int| 0 <= i < all.len() implies !(#[trigger] all[i]).contains(sep) by {
            if s.contains(sep) {
                let k = choose|k: int| 0 <= k < s.len() && s[k] == sep;
                assert(s[k] != sep);
            }
        }
    } else {
        let rest = s.skip(n + 1);
        let first = s.take(n);
        law_pieces_make_up_the_text(rest, sep);
        assert(all =~= seq![first] + pieces(rest, sep));
        assert forall|i: int| 0 <= i < all.len() implies !(#[trigger] all[i]).contains(sep) by {
            if i == 0 {
                if first.contains(sep) {
                    let k = choose|k: int| 0 <= k < first.len() && first[k] == sep;
                    assert(s[k] == sep);
                }
            } else {
                assert(all[i] == pieces(rest, sep)[i - 1]);
            }
        }
        law_joined_in_two(seq![first], pieces(rest, sep), seq![sep]);
        assert(joined(seq![first], seq![sep]) == first);
        assert(first + seq![sep] + rest =~= s);
    }
}

/// Joining two lists, neither of them empty, is joining each and putting the
/// separator between; joining one text gives the text, and joining nothing
/// gives nothing.
pub proof fn law_joined_in_two(a: Seq<Text>, b: Seq<Text>, sep: Text)
    ensures
        joined(Seq::empty(), sep) == Seq::<char>::empty(),
        a.len() == 1 ==> joined(a, sep) == a[0],
        a.len() > 0 && b.len() > 0 ==> joined(a + b, sep) == joined(a, sep) + sep + joined(b, sep),
    decreases b.len(),
{
    if a.len() > 0 && b.len() > 0 {
        let all = a + b;
        assert(all.drop_last() =~= a + b.drop_last());
        assert(all.last() == b.last());
        if b.len() == 1 {
            assert(a + b.drop_last() =~= a);
            assert(joined(b, sep) == b[0]);
        } else {
            law_joined_in_two(a, b.drop_last(), sep);
            assert(joined(a, sep) + sep + joined(b.drop_last(), sep) + sep + b.last() =~= joined(
                a,
                sep,
            ) + sep + joined(b, sep));
        }
    }
}

/// The number that decimal digits stand for.
pub open spec fn decimal_value(s: Text) -> int
    decreases s.len(),
{
    if s.len() == 0 {
        0
    } else {
        10 * decimal_value(s.drop_last()) + (s.last() as int - '0' as int)
    }
}

/// A number in decimal notation is written with digits, without a zero in front
/// of others, and these stand for the number.
pub proof fn law_decimal_notation(n: nat)
    ensures
        decimal_value(decimal(n)) == n,
        decimal(n).len() > 0,
        forall|i: int| 0 <= i < decimal(n).len() ==> '0' <= #[trigger] decimal(n)[i] <= '9',
        decimal(n).len() > 1 ==> decimal(n)[0] != '0',
    decreases n,
{
    let s = decimal(n);
    if n < 10 {
        assert(s.drop_last() =~= Seq::<char>::empty());
        assert(decimal_value(s.drop_last()) == 0);
        assert(s.last() as int == 0x30 + n);
    } else {
        let t = decimal(n / 10);
        law_decimal_notation(n / 10);
        assert(s.drop_last() =~= t);
        assert(s.last() as int == 0x30 + n % 10);
        assert forall|i: int| 0 <= i < s.len() implies '0' <= #[trigger] s[i] <= '9' by {
            if i < t.len() {
                assert(s[i] == t[i]);
            }
        }
        assert(s[0] == t[0]);
        if t.len() == 1 && t[0] == '0' {
            assert(t.drop_last() =~= Seq::<char>::empty());
            assert(decimal_value(t.drop_last()) == 0);
            assert(t.last() == '0');
            assert(decimal_value(t) == 0);
        }
    }
}

/// The number that hexadecimal digits with small letters stand for.
pub open spec fn hex_value(s: Text) -> int
    decreases s.len(),
{
    if s.len() == 0 {
        0
    } else {
        let c = s.last() as int;
        16 * hex_value(s.drop_last()) + (if c < 'a' as int {
            c - '0' as int
        } else {
            c - 'a' as int + 10
        })
    }
}

/// The largest number that so many hexadecimal digits can stand for, and one
/// more.
pub open spec fn hex_bound(width: nat) -> int
    decreases width,
{
    if width == 0 {
        1
    } else {
        16 * hex_bound((width - 1) as nat)
    }
}

/// A number in hexadecimal notation has as many digits as were asked for, all
/// of them digits or small letters up to `f`, and where the number is small
/// enough for so many digits they stand for it.
pub proof fn law_hexadecimal_notation(n: nat, width: nat)
    ensures
        hex(n, width).len() == width,
        forall|i: int|
            0 <= i < width ==> '0' <= #[trigger] hex(n, width)[i] <= '9' || 'a' <= hex(n, width)[i]
                <= 'f',
        n < hex_bound(width) ==> hex_value(hex(n, width)) == n,
    decreases width,
{
    if width > 0 {
        let w = (width - 1) as nat;
        let s = hex(n, width);
        let t = hex(n / 16, w);
        law_hexadecimal_notation(n / 16, w);
        assert(s.drop_last() =~= t);
        let d = n % 16;
        assert(s.last() as int == (if d < 10 {
            0x30 + d
        } else {
            0x57 + d
        }));
        assert forall|i: int| 0 <= i < width implies '0' <= #[trigger] s[i] <= '9' || 'a' <= s[i]
            <= 'f' by {
            if i < t.len() {
                assert(s[i] == t[i]);
            }
        }
        if n < hex_bound(width) {
            assert(n / 16 < hex_bound(w)) by (nonlinear_arith)
                requires
                    n < 16 * hex_bound(w),
            ;
        }
    }
}

/// Texts come in the order of the first character in which they differ, and of
/// two of which one goes on where the other ends the shorter comes first.
pub proof fn law_texts_come_in_the_order_of_characters(
    start: Text,
    a: char,
    rest_a: Text,
    b: char,
    rest_b: Text,
)
    ensures
        a != b ==> (text_lt(start + seq![a] + rest_a, start + seq![b] + rest_b) <==> (a as int) < (
        b as int)),
        text_lt(start, start + seq![b] + rest_b),
        !text_lt(start + seq![b] + rest_b, start),
        !text_lt(start, start),
    decreases start.len(),
{
    let x = start + seq![a] + rest_a;
    let y = start + seq![b] + rest_b;
    if start.len() == 0 {
        assert(x[0] == a && y[0] == b);
    } else {
        let t = start.drop_first();
        law_texts_come_in_the_order_of_characters(t, a, rest_a, b, rest_b);
        assert(x.drop_first() =~= t + seq![a] + rest_a);
        assert(y.drop_first() =~= t + seq![b] + rest_b);
        assert(x[0] == start[0] && y[0] == start[0]);
    }
}

/// A text of one character is folded as the character is. A character beyond
/// ASCII that is neither white space nor a sigma is folded to its lowercase
/// form, where the characters of that stand for themselves.
pub proof fn law_characters_are_folded_by_themselves(c: char)
    ensures
        folded(seq![c]) == fold_char(c),
        (c as int) >= 0x80 && !is_space(c) && c != '\u{3c2}' && c != '\u{3c3}' && all_final(
            char_lower(c),
        ) ==> fold_char(c) == char_lower(c),
        c == '\u{3c2}' || c == '\u{3c3}' ==> fold_char(c) == seq!['\u{3c3}'],
        is_space(c) || ((c as int) < 0x80 && !('A' <= c && c <= 'Z')) ==> fold_char(c) == seq![c],
        'A' <= c && c <= 'Z' ==> fold_char(c) == seq![(c as int + 32) as char],
{
    assert(seq![c].drop_last() =~= Seq::<char>::empty());
    assert(folded(Seq::<char>::empty()) =~= Seq::<char>::empty());
    assert(Seq::<char>::empty() + fold_char(c) =~= fold_char(c));
}

/// Of a text in ASCII the lowercase form has the letters `A` to `Z` made small;
/// of any other text it is the one that Unicode gives it.
pub proof fn law_lowercase_of_a_text(s: Text)
    ensures
        (forall|i: int| 0 <= i < s.len() ==> (#[trigger] s[i] as int) < 0x80) ==> lower(s)
            == ascii_lower(s),
        (exists|i: int| 0 <= i < s.len() && (#[trigger] s[i] as int) >= 0x80) ==> lower(s)
            == unicode_lower(s),
{
}

} // verus!
