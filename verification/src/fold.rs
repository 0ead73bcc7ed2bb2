//! The form in which texts are compared without regard to case: each character
//! is folded on its own, so that the form of a part of a text is a part of the
//! form of the text.

use crate::text::{
    ascii_lower, ascii_lower_char, char_ascii_lower, char_is_space, chars_of, has_part, is_space,
    part_at, Text,
};
use vstd::prelude::*;

verus! {

/// The characters that `char::to_lowercase` yields for a character.
pub uninterp spec fn char_lower(c: char) -> Seq<char>;

/// `char::to_lowercase`, which maps a character by itself, whatever stands
/// around it: what it yields is a function of the character alone. Which
/// characters these are is left unsaid.
#[verifier::external_body]
fn lowercase_of(c: char) -> (r: Vec<char>)
    ensures
        r@ == char_lower(c),
{
    c.to_lowercase().collect()
}

/// Whether a character stands for itself when texts are compared, `form` being
/// its lowercase form: in ASCII every character but the letters `A` to `Z`, and
/// beyond it white space, the small sigma, and whatever is its own lowercase
/// form but the sigma that ends words.
pub open spec fn settles(c: char, form: Seq<char>) -> bool {
    if (c as int) < 0x80 {
        !(0x41 <= c as int <= 0x5a)
    } else {
        is_space(c) || c == '\u{3c3}' || (c != '\u{3c2}' && form == seq![c])
    }
}

/// Whether a character stands for itself when texts are compared.
pub open spec fn is_final(c: char) -> bool {
    settles(c, char_lower(c))
}

/// Whether every character of `s` stands for itself.
pub open spec fn all_final(s: Seq<char>) -> bool {
    forall|i: int| 0 <= i < s.len() ==> is_final(#[trigger] s[i])
}

/// What a character is compared by. `form` is its lowercase form, and `settled`
/// tells whether all characters of that stand for themselves: where they do it
/// is this form. The sigma that ends words is taken for the other one.
pub open spec fn fold_by(c: char, form: Seq<char>, settled: bool) -> Seq<char> {
    if settles(c, form) {
        seq![c]
    } else if (c as int) < 0x80 {
        seq![ascii_lower_char(c)]
    } else if c == '\u{3c2}' {
        seq!['\u{3c3}']
    } else if settled {
        form
    } else {
        seq![c]
    }
}

/// What a character is compared by.
pub open spec fn fold_char(c: char) -> Seq<char> {
    fold_by(c, char_lower(c), all_final(char_lower(c)))
}

/// The form in which a text is compared: those of its characters, one after the
/// other.
pub open spec fn folded(s: Text) -> Text
    decreases s.len(),
{
    if s.len() == 0 {
        Seq::empty()
    } else {
        folded(s.drop_last()) + fold_char(s.last())
    }
}

/// Whether a character with this lowercase form stands for itself.
pub fn char_settles(c: char, form: &Vec<char>) -> (r: bool)
    ensures
        r == settles(c, form@),
{
    let n: u32 = c as u32;
    if n < 0x80 {
        !(0x41 <= n && n <= 0x5a)
    } else if char_is_space(c) || c == '\u{3c3}' {
        true
    } else {
        let same = form.len() == 1 && form[0] == c;
        assert(same == (form@ =~= seq![c]));
        c != '\u{3c2}' && same
    }
}

/// What a character with this lowercase form is compared by.
pub fn char_fold_by(c: char, form: Vec<char>, settled: bool) -> (r: Vec<char>)
    ensures
        r@ == fold_by(c, form@, settled),
{
    let kept = char_settles(c, &form);
    let n: u32 = c as u32;
    if !kept && n >= 0x80 && c != '\u{3c2}' && settled {
        form
    } else {
        let d = if kept {
            c
        } else if n < 0x80 {
            char_ascii_lower(c)
        } else if c == '\u{3c2}' {
            '\u{3c3}'
        } else {
            c
        };
        let mut r: Vec<char> = Vec::new();
        r.push(d);
        assert(r@ =~= seq![d]);
        r
    }
}

/// What a character is compared by.
pub fn char_fold(c: char) -> (r: Vec<char>)
    ensures
        r@ == fold_char(c),
{
    let n: u32 = c as u32;
    if n < 0x80 {
        let mut r: Vec<char> = Vec::new();
        r.push(char_ascii_lower(c));
        assert(r@ =~= fold_char(c));
        return r;
    }
    let form = lowercase_of(c);
    let mut settled = true;
    let mut i: usize = 0;
    while i < form.len()
        invariant
            i <= form@.len(),
            settled == all_final(form@.take(i as int)),
        decreases form@.len() - i,
    {
        let ghost done = form@.take(i as int);
        let ghost next = form@.take(i + 1);
        let d = form[i];
        let d_form = lowercase_of(d);
        let kept = char_settles(d, &d_form);
        proof {
            assert(next =~= done.push(d));
            if all_final(done) && kept {
                assert forall|k: int| 0 <= k < next.len() implies is_final(#[trigger] next[k]) by {
                    if k < done.len() {
                        assert(next[k] == done[k]);
                    }
                }
            }
            if all_final(next) {
                assert(is_final(next[i as int]));
                assert forall|k: int| 0 <= k < done.len() implies is_final(#[trigger] done[k]) by {
                    assert(done[k] == next[k]);
                }
            }
        }
        settled = settled && kept;
        i += 1;
    }
    assert(form@.take(form@.len() as int) =~= form@);
    char_fold_by(c, form, settled)
}

/// The form in which a text is compared.
pub fn fold(s: &str) -> (r: String)
    ensures
        r@ == folded(s@),
{
    let v = chars_of(s);
    let mut r = String::new();
    let mut i: usize = 0;
    while i < v.len()
        invariant
            i <= v@.len(),
            r@ == folded(v@.take(i as int)),
        decreases v@.len() - i,
    {
        let f = char_fold(v[i]);
        let ghost before = r@;
        let mut k: usize = 0;
        assert(before + f@.take(0) =~= before);
        while k < f.len()
            invariant
                k <= f@.len(),
                r@ == before + f@.take(k as int),
            decreases f@.len() - k,
        {
            r.push(f[k]);
            assert(before + f@.take(k + 1) =~= (before + f@.take(k as int)).push(f@[k as int]));
            k += 1;
        }
        proof {
            assert(f@.take(f@.len() as int) =~= f@);
            let next = v@.take(i + 1);
            assert(next.drop_last() =~= v@.take(i as int));
            assert(next.last() == v@[i as int]);
        }
        i += 1;
    }
    assert(v@.take(v@.len() as int) =~= v@);
    r
}

/// Two texts are folded one after the other.
pub proof fn law_parts_are_folded_by_themselves(a: Text, b: Text)
    ensures
        folded(a + b) == folded(a) + folded(b),
    decreases b.len(),
{
    if b.len() == 0 {
        assert(a + b =~= a);
        assert(folded(a) + folded(b) =~= folded(a));
    } else {
        law_parts_are_folded_by_themselves(a, b.drop_last());
        assert((a + b).drop_last() =~= a + b.drop_last());
        assert((folded(a) + folded(b.drop_last())) + fold_char(b.last()) =~= folded(a) + folded(b));
    }
}

/// The form of a part of a text is a part of the form of the text.
pub proof fn law_folding_keeps_parts(s: Text, part: Text)
    requires
        has_part(s, part),
    ensures
        has_part(folded(s), folded(part)),
{
    let k = choose|k: int| #[trigger] part_at(s, part, k);
    let a = s.take(k);
    let b = s.skip(k + part.len());
    assert(s =~= a + part + b);
    law_parts_are_folded_by_themselves(a + part, b);
    law_parts_are_folded_by_themselves(a, part);
    let l = folded(a).len() as int;
    assert(folded(s).subrange(l, l + folded(part).len()) =~= folded(part));
    assert(part_at(folded(s), folded(part), l));
}

/// What a character is compared by is compared by itself.
proof fn lemma_fold_char_is_final(c: char)
    ensures
        forall|i: int|
            0 <= i < fold_char(c).len() ==> fold_char(#[trigger] fold_char(c)[i]) == seq![
                fold_char(c)[i],
            ],
{
    let f = fold_char(c);
    assert forall|i: int| 0 <= i < f.len() implies fold_char(#[trigger] f[i]) == seq![f[i]] by {
        if f == seq![c] {
            assert(f[i] == c);
        } else if (c as int) < 0x80 {
            assert(is_final(ascii_lower_char(c)));
        } else if c == '\u{3c2}' {
            assert(is_final('\u{3c3}'));
        } else {
            assert(is_final(f[i]));
        }
    }
}

/// The characters of a folded text are compared by themselves.
pub proof fn lemma_folded_is_final(s: Text)
    ensures
        forall|i: int|
            0 <= i < folded(s).len() ==> fold_char(#[trigger] folded(s)[i]) == seq![folded(s)[i]],
    decreases s.len(),
{
    if s.len() > 0 {
        let t = folded(s.drop_last());
        lemma_folded_is_final(s.drop_last());
        lemma_fold_char_is_final(s.last());
        assert forall|i: int| 0 <= i < folded(s).len() implies fold_char(#[trigger] folded(s)[i])
            == seq![folded(s)[i]] by {
            if i < t.len() {
                assert(folded(s)[i] == t[i]);
            } else {
                assert(folded(s)[i] == fold_char(s.last())[i - t.len()]);
            }
        }
    }
}

/// A text of characters that are compared by themselves is its own form.
pub proof fn lemma_folds_to_itself(s: Text)
    requires
        forall|i: int| 0 <= i < s.len() ==> fold_char(#[trigger] s[i]) == seq![s[i]],
    ensures
        folded(s) == s,
    decreases s.len(),
{
    if s.len() > 0 {
        let t = s.drop_last();
        assert forall|i: int| 0 <= i < t.len() implies fold_char(#[trigger] t[i]) == seq![t[i]] by {
            assert(t[i] == s[i]);
        }
        lemma_folds_to_itself(t);
        assert(s[s.len() - 1] == s.last());
        assert(t + seq![s.last()] =~= s);
    } else {
        assert(s =~= Seq::<char>::empty());
    }
}

/// To fold a text twice is to fold it once.
pub proof fn law_folding_is_final(s: Text)
    ensures
        folded(folded(s)) == folded(s),
{
    lemma_folded_is_final(s);
    lemma_folds_to_itself(folded(s));
}

/// Texts that differ only in large and small letters `A` to `Z` have the same
/// form, whatever else stands in them.
pub proof fn law_ascii_case_is_folded(s: Text)
    ensures
        folded(ascii_lower(s)) == folded(s),
    decreases s.len(),
{
    if s.len() > 0 {
        law_ascii_case_is_folded(s.drop_last());
        let c = s.last();
        assert(ascii_lower(s).drop_last() =~= ascii_lower(s.drop_last()));
        assert(ascii_lower(s).last() == ascii_lower_char(c));
        assert(fold_char(ascii_lower_char(c)) =~= fold_char(c));
    }
}

/// White space is its own form.
pub proof fn lemma_space_folds_to_itself(s: Text)
    requires
        forall|i: int| 0 <= i < s.len() ==> is_space(#[trigger] s[i]),
    ensures
        folded(s) == s,
{
    lemma_folds_to_itself(s);
}

} // verus!
