//! Sending a book with magic-wormhole: the code in what the program says, and
//! how far the sending has come.

use crate::app::{App, ShareStatus};
use crate::state::{AppState, ShareStatusView, ShareView};
use crate::text::{chars_of, contains, has_part, split_words, texts, words, Text};
use vstd::prelude::*;

verus! {

/// Whether `c` is one of the digits `0` to `9`.
pub open spec fn is_digit(c: char) -> bool {
    0x30 <= c as int <= 0x39
}

/// Whether `c` is one of the letters `A` to `Z` and `a` to `z`.
pub open spec fn is_letter(c: char) -> bool {
    0x41 <= c as int <= 0x5a || 0x61 <= c as int <= 0x7a
}

/// The number of digits that a text begins with.
pub open spec fn digits_len(s: Text) -> nat
    decreases s.len(),
{
    if s.len() == 0 || !is_digit(s[0]) {
        0
    } else {
        1 + digits_len(s.drop_first())
    }
}

/// Whether a word is a code, such as `7-crossover-clockwork`: a number, a
/// hyphen, a letter, and then only letters and hyphens.
pub open spec fn is_code(word: Text) -> bool {
    let n = digits_len(word) as int;
    &&& n > 0
    &&& n + 1 < word.len()
    &&& word[n] == '-'
    &&& is_letter(word[n + 1])
    &&& forall|i: int| n < i < word.len() ==> is_letter(#[trigger] word[i]) || word[i] == '-'
}

/// The first of the words that is a code. A word that stands in the path of the
/// file that is sent is none.
pub open spec fn first_code(ws: Seq<Text>, path: Text) -> Option<Text>
    decreases ws.len(),
{
    if ws.len() == 0 {
        None
    } else if is_code(ws[0]) && !has_part(path, ws[0]) {
        Some(ws[0])
    } else {
        first_code(ws.drop_first(), path)
    }
}

/// Whether a word is a code.
pub fn word_is_code(word: &str) -> (r: bool)
    ensures
        r == is_code(word@),
{
    let v = chars_of(word);
    let mut n: usize = 0;
    assert(v@.skip(0) =~= v@);
    while n < v.len() && '0' <= v[n] && v[n] <= '9'
        invariant
            n <= v@.len(),
            digits_len(v@) == n + digits_len(v@.skip(n as int)),
        ensures
            n <= v@.len(),
            digits_len(v@) == n + digits_len(v@.skip(n as int)),
            n == v@.len() || !is_digit(v@[n as int]),
        decreases v@.len() - n,
    {
        assert(v@.skip(n as int)[0] == v@[n as int]);
        assert(v@.skip(n as int).drop_first() =~= v@.skip(n + 1));
        n += 1;
    }
    proof {
        if n < v@.len() {
            assert(v@.skip(n as int)[0] == v@[n as int]);
        }
        assert(digits_len(v@) == n);
    }
    if n == 0 || v.len() - n < 2 || v[n] != '-' || !char_is_letter(v[n + 1]) {
        return false;
    }
    let mut i: usize = n + 1;
    while i < v.len()
        invariant
            n < i <= v@.len(),
            v@ == word@,
            digits_len(v@) == n,
            forall|k: int| n < k < i ==> is_letter(#[trigger] v@[k]) || v@[k] == '-',
        decreases v@.len() - i,
    {
        if !char_is_letter(v[i]) && v[i] != '-' {
            return false;
        }
        i += 1;
    }
    true
}

/// Whether `c` is one of the letters `A` to `Z` and `a` to `z`.
fn char_is_letter(c: char) -> (r: bool)
    ensures
        r == is_letter(c),
{
    ('A' <= c && c <= 'Z') || ('a' <= c && c <= 'z')
}

/// The first word of a line that is a code and does not stand in the path of
/// the file that is sent.
pub fn find_code(line: &str, path: &str) -> (r: Option<String>)
    ensures
        match r {
            Some(code) => first_code(words(line@), path@) == Some(code@),
            None => first_code(words(line@), path@) is None,
        },
{
    let ws = split_words(line);
    let ghost all = texts(ws@);
    let mut i: usize = 0;
    assert(all.skip(0) =~= all);
    while i < ws.len()
        invariant
            i <= ws@.len(),
            all == texts(ws@),
            all == words(line@),
            first_code(all, path@) == first_code(all.skip(i as int), path@),
        decreases ws@.len() - i,
    {
        assert(all.skip(i as int)[0] == ws@[i as int]@);
        if word_is_code(ws[i].as_str()) && !contains(path, ws[i].as_str()) {
            return Some(ws[i].clone());
        }
        assert(all.skip(i as int).drop_first() =~= all.skip(i + 1));
        i += 1;
    }
    None
}

/// The state after the sending program has written a line: the first code that
/// it tells is the one to show. What the program says of the file by its name is
/// no code.
pub open spec fn after_share_line(s: AppState, line: Text) -> AppState {
    match s.sharing {
        Some(share) => match first_code(words(line), share.path) {
            Some(code) => if share.status is Starting {
                s.with_share_status(ShareStatusView::Code(code))
            } else {
                s
            },
            None => s,
        },
        None => s,
    }
}

/// The state after the sending program has ended.
pub open spec fn after_share_end(s: AppState, success: bool) -> AppState {
    s.with_share_status(
        if success {
            ShareStatusView::Sent
        } else {
            ShareStatusView::Failed
        },
    )
}

impl App {
    /// Takes in a line that the sending program has written.
    pub fn share_line(&mut self, line: &str)
        ensures
            final(self)@ == after_share_line(old(self)@, line@),
            old(self)@.wf() ==> final(self)@.wf(),
    {
        let code: Option<String> = match self.sharing() {
            Some(share) => match share.status {
                ShareStatus::Starting => find_code(line, share.path.as_str()),
                _ => None,
            },
            None => None,
        };
        if let Some(code) = code {
            self.set_share_status(ShareStatus::Code(code));
        }
    }

    /// Takes in that the sending program has ended, or could not be started.
    pub fn share_ended(&mut self, success: bool)
        ensures
            final(self)@ == after_share_end(old(self)@, success),
            old(self)@.wf() ==> final(self)@.wf(),
    {
        let status = if success {
            ShareStatus::Sent
        } else {
            ShareStatus::Failed
        };
        self.set_share_status(status);
    }
}

/// A word that is made of digits, a hyphen, a letter, and then letters and
/// hyphens is a code.
pub proof fn law_codes_are_numbers_and_words(digits: Text, c: char, rest: Text)
    requires
        digits.len() > 0,
        forall|i: int| 0 <= i < digits.len() ==> '0' <= #[trigger] digits[i] <= '9',
        'a' <= c <= 'z' || 'A' <= c <= 'Z',
        forall|i: int|
            0 <= i < rest.len() ==> 'a' <= #[trigger] rest[i] <= 'z' || 'A' <= rest[i] <= 'Z'
                || rest[i] == '-',
    ensures
        is_code(digits + seq!['-', c] + rest),
{
    let w = digits + seq!['-', c] + rest;
    lemma_digits_len(digits, seq!['-', c] + rest);
    assert(w =~= digits + (seq!['-', c] + rest));
    let n = digits.len() as int;
    assert forall|i: int| n < i < w.len() implies is_letter(#[trigger] w[i]) || w[i] == '-' by {
        if i >= n + 2 {
            assert(w[i] == rest[i - n - 2]);
        }
    }
}

/// Every code is made so: digits, a hyphen, a letter, and then letters and
/// hyphens.
pub proof fn law_codes_hold_nothing_else(w: Text) -> (n: int)
    requires
        is_code(w),
    ensures
        0 < n,
        n + 1 < w.len(),
        forall|i: int| 0 <= i < n ==> '0' <= #[trigger] w[i] <= '9',
        w[n] == '-',
        'a' <= w[n + 1] <= 'z' || 'A' <= w[n + 1] <= 'Z',
        forall|i: int|
            n < i < w.len() ==> 'a' <= #[trigger] w[i] <= 'z' || 'A' <= w[i] <= 'Z' || w[i] == '-',
{
    lemma_digits_are_digits(w);
    let n = digits_len(w) as int;
    assert forall|i: int| n < i < w.len() implies 'a' <= #[trigger] w[i] <= 'z' || 'A' <= w[i]
        <= 'Z' || w[i] == '-' by {
        assert(is_letter(w[i]) || w[i] == '-');
    }
    n
}

proof fn lemma_digits_len(digits: Text, s: Text)
    requires
        forall|i: int| 0 <= i < digits.len() ==> '0' <= #[trigger] digits[i] <= '9',
        s.len() > 0,
        s[0] == '-',
    ensures
        digits_len(digits + s) == digits.len(),
    decreases digits.len(),
{
    let w = digits + s;
    if digits.len() == 0 {
        assert(w =~= s);
    } else {
        assert(w[0] == digits[0]);
        assert(w.drop_first() =~= digits.drop_first() + s);
        lemma_digits_len(digits.drop_first(), s);
    }
}

proof fn lemma_digits_are_digits(s: Text)
    ensures
        digits_len(s) <= s.len(),
        forall|i: int| 0 <= i < digits_len(s) ==> '0' <= #[trigger] s[i] <= '9',
    decreases s.len(),
{
    if s.len() > 0 && is_digit(s[0]) {
        let t = s.drop_first();
        lemma_digits_are_digits(t);
        assert forall|i: int| 0 <= i < digits_len(s) implies '0' <= #[trigger] s[i] <= '9' by {
            if i > 0 {
                assert(s[i] == t[i - 1]);
            }
        }
    }
}

/// The code that is found is the first of the words that is a code and does not
/// stand in the path; where none is found no word is such.
pub proof fn law_first_code_is_found(before: Seq<Text>, code: Text, after: Seq<Text>, path: Text)
    requires
        forall|i: int|
            0 <= i < before.len() ==> !is_code(#[trigger] before[i]) || has_part(path, before[i]),
    ensures
        first_code(before, path) is None,
        is_code(code) && !has_part(path, code) ==> first_code(
            before + seq![code] + after,
            path,
        ) == Some(code),
    decreases before.len(),
{
    let all = before + seq![code] + after;
    if before.len() == 0 {
        assert(all[0] == code);
    } else {
        let t = before.drop_first();
        assert forall|i: int| 0 <= i < t.len() implies !is_code(#[trigger] t[i]) || has_part(
            path,
            t[i],
        ) by {
            assert(t[i] == before[i + 1]);
        }
        law_first_code_is_found(t, code, after, path);
        assert(all[0] == before[0]);
        assert(all.drop_first() =~= t + seq![code] + after);
    }
}

/// While a book is being sent, the first code that a line tells is shown, and
/// stays; what was sent and how it ended is told of this book; and nothing else
/// changes.
pub proof fn law_sending_is_followed(s: AppState, share: ShareView, line: Text, success: bool)
    requires
        s.sharing == Some(share),
    ensures
        after_share_line(s, line).sharing->0.path == share.path,
        share.status is Starting && first_code(words(line), share.path) is Some
            ==> after_share_line(s, line).sharing->0.status == ShareStatusView::Code(
            first_code(words(line), share.path)->0,
        ),
        share.status !is Starting || first_code(words(line), share.path) is None
            ==> after_share_line(s, line) == s,
        after_share_end(s, success).sharing->0.path == share.path,
        after_share_end(s, success).sharing->0.status is Sent <==> success,
        after_share_end(s, success).sharing->0.status is Failed <==> !success,
        after_share_line(s, line).unshared() == s.unshared(),
        after_share_end(s, success).unshared() == s.unshared(),
{
}

/// Where nothing is being sent, the sending program has nothing to tell.
pub proof fn law_nothing_sent_is_nothing_told(s: AppState, line: Text, success: bool)
    requires
        s.sharing is None,
    ensures
        after_share_line(s, line) == s,
        after_share_end(s, success) == s,
{
}

} // verus!
