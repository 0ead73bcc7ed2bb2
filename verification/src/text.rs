//! Text as sequences of characters: trimming, splitting into words, case
//! folding, substrings, and the decimal and hexadecimal forms of numbers.

use vstd::prelude::*;

verus! {

/// A string as the contracts see it: its characters in order.
pub type Text = Seq<char>;

/// The texts of a list of strings.
pub open spec fn texts(v: Seq<String>) -> Seq<Text> {
    v.map_values(|s: String| s@)
}

/// The characters with the Unicode property `White_Space`.
pub open spec fn is_space(c: char) -> bool {
    let n = c as int;
    ||| 0x9 <= n <= 0xd
    ||| n == 0x20
    ||| n == 0x85
    ||| n == 0xa0
    ||| n == 0x1680
    ||| 0x2000 <= n <= 0x200a
    ||| n == 0x2028
    ||| n == 0x2029
    ||| n == 0x202f
    ||| n == 0x205f
    ||| n == 0x3000
}

/// Tells whether `c` has the Unicode property `White_Space`.
pub fn char_is_space(c: char) -> (r: bool)
    ensures
        r == is_space(c),
{
    let n: u32 = c as u32;
    (0x9 <= n && n <= 0xd) || n == 0x20 || n == 0x85 || n == 0xa0 || n == 0x1680 || (0x2000 <= n
        && n <= 0x200a) || n == 0x2028 || n == 0x2029 || n == 0x202f || n == 0x205f || n == 0x3000
}

/// `String::push` appends one character at the end of the string.
pub assume_specification[ String::push ](s: &mut String, ch: char)
    ensures
        final(s)@ == old(s)@.push(ch),
;

/// The characters of `s`, in order.
pub fn chars_of(s: &str) -> (r: Vec<char>)
    ensures
        r@ == s@,
{
    let mut r: Vec<char> = Vec::new();
    for c in it: s.chars()
        invariant
            it.seq() == s@,
            r@ == s@.take(it.index()),
    {
        r.push(c);
        assert(s@.take(it.index() + 1) == s@.take(it.index()).push(s@[it.index()]));
    }
    assert(s@.take(s@.len() as int) == s@);
    r
}

/// The string that holds the characters of `v` from `from` up to `to`.
pub fn string_of(v: &Vec<char>, from: usize, to: usize) -> (r: String)
    requires
        from <= to <= v@.len(),
    ensures
        r@ == v@.subrange(from as int, to as int),
{
    let mut r = String::new();
    let mut i: usize = from;
    while i < to
        invariant
            from <= i <= to <= v@.len(),
            r@ == v@.subrange(from as int, i as int),
        decreases to - i,
    {
        r.push(v[i]);
        assert(v@.subrange(from as int, i + 1) == v@.subrange(from as int, i as int).push(
            v@[i as int],
        ));
        i += 1;
    }
    r
}

/// `s` without its leading white space.
pub open spec fn trim_start(s: Text) -> Text
    decreases s.len(),
{
    if s.len() > 0 && is_space(s[0]) {
        trim_start(s.drop_first())
    } else {
        s
    }
}

/// `s` without its trailing white space.
pub open spec fn trim_end(s: Text) -> Text
    decreases s.len(),
{
    if s.len() > 0 && is_space(s.last()) {
        trim_end(s.drop_last())
    } else {
        s
    }
}

/// `s` without the white space at its two ends.
pub open spec fn trimmed(s: Text) -> Text {
    trim_end(trim_start(s))
}

/// The characters of `v` from `from` up to `to`, without the white space at
/// the two ends.
pub fn trim_range(v: &Vec<char>, from: usize, to: usize) -> (r: String)
    requires
        from <= to <= v@.len(),
    ensures
        r@ == trimmed(v@.subrange(from as int, to as int)),
{
    let ghost whole = v@.subrange(from as int, to as int);
    let mut a: usize = from;
    while a < to && char_is_space(v[a])
        invariant
            from <= a <= to <= v@.len(),
            trim_start(whole) == trim_start(v@.subrange(a as int, to as int)),
        ensures
            from <= a <= to <= v@.len(),
            trim_start(whole) == trim_start(v@.subrange(a as int, to as int)),
            a == to || !is_space(v@[a as int]),
        decreases to - a,
    {
        assert(v@.subrange(a as int, to as int).drop_first() == v@.subrange(a + 1, to as int));
        a += 1;
    }
    assert(trim_start(whole) == v@.subrange(a as int, to as int));
    let mut b: usize = to;
    while a < b && char_is_space(v[b - 1])
        invariant
            from <= a <= b <= to <= v@.len(),
            trimmed(whole) == trim_end(v@.subrange(a as int, b as int)),
        ensures
            from <= a <= b <= to <= v@.len(),
            trimmed(whole) == trim_end(v@.subrange(a as int, b as int)),
            a == b || !is_space(v@[b - 1]),
        decreases b - a,
    {
        assert(v@.subrange(a as int, b as int).drop_last() == v@.subrange(a as int, b - 1));
        b -= 1;
    }
    string_of(v, a, b)
}

/// `s` without the white space at its two ends.
pub fn trim(s: &str) -> (r: String)
    ensures
        r@ == trimmed(s@),
{
    let v = chars_of(s);
    assert(v@.subrange(0, v@.len() as int) == s@);
    trim_range(&v, 0, v.len())
}

/// The number of characters before the first white space of `s`.
pub open spec fn word_len(s: Text) -> nat
    decreases s.len(),
{
    if s.len() == 0 || is_space(s[0]) {
        0
    } else {
        1 + word_len(s.drop_first())
    }
}

/// What `word_len` counts is a run of `s` that holds no white space and that
/// ends at white space or at the end of `s`.
pub proof fn lemma_word_len(s: Text)
    ensures
        word_len(s) <= s.len(),
        forall|i: int| 0 <= i < word_len(s) ==> !is_space(#[trigger] s[i]),
        word_len(s) == s.len() || is_space(s[word_len(s) as int]),
    decreases s.len(),
{
    if s.len() > 0 && !is_space(s[0]) {
        let t = s.drop_first();
        lemma_word_len(t);
        assert forall|i: int| 0 <= i < word_len(s) implies !is_space(#[trigger] s[i]) by {
            if i > 0 {
                assert(s[i] == t[i - 1]);
            }
        }
    }
}

/// The words of `s`: its maximal runs without white space, in order.
pub open spec fn words(s: Text) -> Seq<Text>
    decreases s.len(),
{
    if s.len() == 0 {
        Seq::empty()
    } else if is_space(s[0]) {
        words(s.drop_first())
    } else {
        proof {
            lemma_word_len(s);
        }
        seq![s.take(word_len(s) as int)] + words(s.skip(word_len(s) as int))
    }
}

/// Splits `s` into its words.
pub fn split_words(s: &str) -> (r: Vec<String>)
    ensures
        texts(r@) == words(s@),
{
    let v = chars_of(s);
    let mut r: Vec<String> = Vec::new();
    let mut i: usize = 0;
    assert(v@.skip(0) == v@);
    while i < v.len()
        invariant
            i <= v@.len(),
            words(v@) == texts(r@) + words(v@.skip(i as int)),
        decreases v@.len() - i,
    {
        let ghost rest = v@.skip(i as int);
        if char_is_space(v[i]) {
            assert(rest.drop_first() == v@.skip(i + 1));
            i += 1;
        } else {
            let mut j: usize = i;
            assert(rest.skip(0) == rest);
            while j < v.len() && !char_is_space(v[j])
                invariant
                    i <= j <= v@.len(),
                    rest == v@.skip(i as int),
                    word_len(rest) == (j - i) + word_len(rest.skip(j - i)),
                ensures
                    i <= j <= v@.len(),
                    word_len(rest) == (j - i) + word_len(rest.skip(j - i)),
                    j == v@.len() || is_space(v@[j as int]),
                decreases v@.len() - j,
            {
                assert(rest.skip(j - i).drop_first() == rest.skip(j - i + 1));
                assert(rest.skip(j - i)[0] == v@[j as int]);
                j += 1;
            }
            proof {
                if j < v@.len() {
                    assert(rest.skip(j - i)[0] == v@[j as int]);
                }
                assert(word_len(rest) == j - i);
                assert(rest.take(j - i) == v@.subrange(i as int, j as int));
                assert(rest.skip(j - i) == v@.skip(j as int));
                lemma_word_len(rest);
                assert(rest[0] == v@[i as int]);
            }
            let w = string_of(&v, i, j);
            let ghost before = texts(r@);
            r.push(w);
            proof {
                assert(texts(r@) == before.push(w@));
                assert(before + (seq![w@] + words(v@.skip(j as int))) == before.push(w@) + words(
                    v@.skip(j as int),
                ));
            }
            i = j;
        }
    }
    assert(texts(r@) + Seq::<Text>::empty() == texts(r@));
    r
}

/// `c`, with the letters `A` to `Z` made small.
pub open spec fn ascii_lower_char(c: char) -> char {
    if 0x41 <= c as int <= 0x5a {
        ((c as int) + 0x20) as char
    } else {
        c
    }
}

/// `s`, with the letters `A` to `Z` made small.
pub open spec fn ascii_lower(s: Text) -> Text {
    s.map_values(|c: char| ascii_lower_char(c))
}

/// `c`, with the letters `A` to `Z` made small.
pub fn char_ascii_lower(c: char) -> (r: char)
    ensures
        r == ascii_lower_char(c),
{
    let n: u32 = c as u32;
    if 0x41 <= n && n <= 0x5a {
        let m: u8 = n as u8 + 0x20;
        m as char
    } else {
        c
    }
}

/// `s`, with the letters `A` to `Z` made small and every other character
/// unchanged.
pub fn to_ascii_lower(s: &str) -> (r: String)
    ensures
        r@ == ascii_lower(s@),
{
    let v = chars_of(s);
    let mut r = String::new();
    let mut i: usize = 0;
    while i < v.len()
        invariant
            i <= v@.len(),
            r@ == ascii_lower(v@.take(i as int)),
        decreases v@.len() - i,
    {
        r.push(char_ascii_lower(v[i]));
        assert(ascii_lower(v@.take(i + 1)) == ascii_lower(v@.take(i as int)).push(
            ascii_lower_char(v@[i as int]),
        ));
        i += 1;
    }
    assert(v@.take(v@.len() as int) == v@);
    r
}

/// Whether every character of `s` is an ASCII character.
pub open spec fn is_ascii_text(s: Text) -> bool {
    forall|i: int| 0 <= i < s.len() ==> (#[trigger] s[i] as int) < 0x80
}

/// The lowercase form that Unicode gives to a text with characters beyond
/// ASCII, as `str::to_lowercase` computes it.
pub uninterp spec fn unicode_lower(s: Seq<char>) -> Seq<char>;

/// The lowercase form of `s`.
pub open spec fn lower(s: Text) -> Text {
    if is_ascii_text(s) {
        ascii_lower(s)
    } else {
        unicode_lower(s)
    }
}

/// `str::to_lowercase`. Of a text in ASCII it makes the letters `A` to `Z`
/// small and leaves the rest; of any other text the result goes by the Unicode
/// tables and is a function of the text alone. What those tables say is left
/// unsaid.
#[verifier::external_body]
pub(crate) fn to_lower(s: &str) -> (r: String)
    ensures
        r@ == (if is_ascii_text(s@) {
            ascii_lower(s@)
        } else {
            unicode_lower(s@)
        }),
{
    s.to_lowercase()
}

/// Whether `part` stands somewhere in `s`, in one piece.
pub open spec fn has_part(s: Text, part: Text) -> bool {
    exists|k: int| #[trigger] part_at(s, part, k)
}

/// Whether `part` stands in `s` at the position `k`.
pub open spec fn part_at(s: Text, part: Text, k: int) -> bool {
    0 <= k && k + part.len() <= s.len() && s.subrange(k, k + part.len()) == part
}

/// `str::contains` with a string as the pattern: whether the pattern is a
/// sub-slice of the text.
#[verifier::external_body]
pub(crate) fn contains(s: &str, part: &str) -> (r: bool)
    ensures
        r == has_part(s@, part@),
{
    s.contains(part)
}

/// Whether the text begins with `prefix`.
pub fn starts_with(s: &str, prefix: &str) -> (r: bool)
    ensures
        r == prefix@.is_prefix_of(s@),
{
    let v = chars_of(s);
    let p = chars_of(prefix);
    if p.len() > v.len() {
        return false;
    }
    let mut i: usize = 0;
    while i < p.len()
        invariant
            i <= p@.len() <= v@.len(),
            v@ == s@,
            p@ == prefix@,
            forall|k: int| 0 <= k < i ==> p@[k] == v@[k],
        decreases p@.len() - i,
    {
        if p[i] != v[i] {
            assert(prefix@.is_prefix_of(s@) ==> prefix@[i as int] == s@.subrange(
                0,
                prefix@.len() as int,
            )[i as int]);
            return false;
        }
        i += 1;
    }
    assert(prefix@ =~= s@.subrange(0, prefix@.len() as int));
    true
}

/// `s`, with a space in place of each underscore.
pub open spec fn underscores_to_spaces(s: Text) -> Text {
    s.map_values(
        |c: char|
            if c == '_' {
                ' '
            } else {
                c
            },
    )
}

/// `s`, with a space in place of each underscore.
pub fn replace_underscores(s: &str) -> (r: String)
    ensures
        r@ == underscores_to_spaces(s@),
{
    let v = chars_of(s);
    let mut r = String::new();
    let mut i: usize = 0;
    while i < v.len()
        invariant
            i <= v@.len(),
            r@ == underscores_to_spaces(v@.take(i as int)),
        decreases v@.len() - i,
    {
        let c = v[i];
        if c == '_' {
            r.push(' ');
        } else {
            r.push(c);
        }
        assert(r@ == underscores_to_spaces(v@.take(i + 1)));
        i += 1;
    }
    assert(v@.take(v@.len() as int) == v@);
    r
}

/// Whether the two strings have the same characters.
pub fn same_text(a: &str, b: &str) -> (r: bool)
    ensures
        r == (a@ == b@),
{
    a.to_owned() == b.to_owned()
}

/// The number of characters before the first `sep` of `s`.
pub open spec fn len_to(s: Text, sep: char) -> nat
    decreases s.len(),
{
    if s.len() == 0 || s[0] == sep {
        0
    } else {
        1 + len_to(s.drop_first(), sep)
    }
}

/// What `len_to` counts is a run of `s` without `sep` that ends at `sep` or at
/// the end of `s`.
pub proof fn lemma_len_to(s: Text, sep: char)
    ensures
        len_to(s, sep) <= s.len(),
        forall|i: int| 0 <= i < len_to(s, sep) ==> #[trigger] s[i] != sep,
        len_to(s, sep) == s.len() || s[len_to(s, sep) as int] == sep,
    decreases s.len(),
{
    if s.len() > 0 && s[0] != sep {
        let t = s.drop_first();
        lemma_len_to(t, sep);
        assert forall|i: int| 0 <= i < len_to(s, sep) implies #[trigger] s[i] != sep by {
            if i > 0 {
                assert(s[i] == t[i - 1]);
            }
        }
    }
}

/// The pieces of `s` between one `sep` and the next, in order. There is one
/// piece more than there are separators.
pub open spec fn pieces(s: Text, sep: char) -> Seq<Text>
    decreases s.len(),
{
    let n = len_to(s, sep) as int;
    if n >= s.len() {
        seq![s]
    } else {
        seq![s.take(n)] + pieces(s.skip(n + 1), sep)
    }
}

/// The place of the first `sep` in `v` at or after `from`, or the length of `v`.
pub fn find_from(v: &Vec<char>, sep: char, from: usize) -> (r: usize)
    requires
        from <= v@.len(),
    ensures
        from <= r <= v@.len(),
        r - from == len_to(v@.skip(from as int), sep),
        r < v@.len() ==> v@[r as int] == sep,
{
    let ghost rest = v@.skip(from as int);
    let mut j: usize = from;
    assert(rest.skip(0) == rest);
    while j < v.len() && v[j] != sep
        invariant
            from <= j <= v@.len(),
            rest == v@.skip(from as int),
            len_to(rest, sep) == (j - from) + len_to(rest.skip(j - from), sep),
        ensures
            from <= j <= v@.len(),
            len_to(rest, sep) == (j - from) + len_to(rest.skip(j - from), sep),
            j == v@.len() || v@[j as int] == sep,
        decreases v@.len() - j,
    {
        assert(rest.skip(j - from).drop_first() == rest.skip(j - from + 1));
        assert(rest.skip(j - from)[0] == v@[j as int]);
        j += 1;
    }
    proof {
        if j < v@.len() {
            assert(rest.skip(j - from)[0] == v@[j as int]);
        }
    }
    j
}

/// Splits `s` at each `sep`.
pub fn split(s: &str, sep: char) -> (r: Vec<String>)
    ensures
        texts(r@) == pieces(s@, sep),
{
    let v = chars_of(s);
    let mut r: Vec<String> = Vec::new();
    let mut i: usize = 0;
    assert(v@.skip(0) == v@);
    loop
        invariant
            v@ == s@,
            i <= v@.len(),
            pieces(v@, sep) == texts(r@) + pieces(v@.skip(i as int), sep),
        decreases v@.len() - i,
    {
        let ghost rest = v@.skip(i as int);
        let j = find_from(&v, sep, i);
        let w = string_of(&v, i, j);
        let ghost before = texts(r@);
        r.push(w);
        assert(texts(r@) == before.push(w@));
        assert(w@ == rest.take(j - i));
        if j >= v.len() {
            assert(rest.take(j - i) == rest);
            assert(before + seq![w@] == before.push(w@));
            return r;
        }
        proof {
            assert(rest.skip(j - i + 1) == v@.skip(j + 1));
            assert(before + (seq![w@] + pieces(v@.skip(j + 1), sep)) == before.push(w@) + pieces(
                v@.skip(j + 1),
                sep,
            ));
        }
        i = j + 1;
    }
}

/// The texts of `parts`, one after the other, with `sep` between two of them.
pub open spec fn joined(parts: Seq<Text>, sep: Text) -> Text
    decreases parts.len(),
{
    if parts.len() == 0 {
        Seq::empty()
    } else if parts.len() == 1 {
        parts[0]
    } else {
        joined(parts.drop_last(), sep) + sep + parts.last()
    }
}

/// Joins `parts` with `sep` between two of them.
pub fn join(parts: &Vec<String>, sep: &str) -> (r: String)
    ensures
        r@ == joined(texts(parts@), sep@),
{
    let mut r = String::new();
    let mut i: usize = 0;
    while i < parts.len()
        invariant
            i <= parts@.len(),
            r@ == joined(texts(parts@).take(i as int), sep@),
        decreases parts@.len() - i,
    {
        let ghost next = texts(parts@).take(i + 1);
        assert(next.drop_last() == texts(parts@).take(i as int));
        assert(next.last() == parts@[i as int]@);
        if i > 0 {
            r.append(sep);
        }
        r.append(parts[i].as_str());
        assert(r@ == joined(next, sep@));
        i += 1;
    }
    assert(texts(parts@).take(parts@.len() as int) == texts(parts@));
    r
}

/// The decimal digit for `d`.
pub open spec fn decimal_digit(d: nat) -> char {
    (0x30 + d) as char
}

/// The number `n` in decimal notation.
pub open spec fn decimal(n: nat) -> Text
    decreases n,
{
    if n < 10 {
        seq![decimal_digit(n)]
    } else {
        decimal(n / 10).push(decimal_digit(n % 10))
    }
}

/// Writes `n` in decimal notation.
pub fn decimal_string(n: usize) -> (r: String)
    ensures
        r@ == decimal(n as nat),
    decreases n,
{
    let d: u8 = (n % 10) as u8 + 0x30;
    if n < 10 {
        let mut r = String::new();
        r.push(d as char);
        assert(r@ == seq![decimal_digit(n as nat)]);
        r
    } else {
        let mut r = decimal_string(n / 10);
        r.push(d as char);
        r
    }
}

/// The hexadecimal digit for `d`, with small letters.
pub open spec fn hex_digit(d: nat) -> char {
    if d < 10 {
        (0x30 + d) as char
    } else {
        (0x57 + d) as char
    }
}

/// The last `width` digits of `n` in hexadecimal notation.
pub open spec fn hex(n: nat, width: nat) -> Text
    decreases width,
{
    if width == 0 {
        Seq::empty()
    } else {
        hex(n / 16, (width - 1) as nat).push(hex_digit(n % 16))
    }
}

/// Writes the last `width` digits of `n` in hexadecimal notation.
pub fn hex_string(n: u64, width: usize) -> (r: String)
    ensures
        r@ == hex(n as nat, width as nat),
    decreases width,
{
    if width == 0 {
        String::new()
    } else {
        let mut r = hex_string(n / 16, width - 1);
        let d: u8 = (n % 16) as u8;
        if d < 10 {
            r.push((0x30 + d) as char);
        } else {
            r.push((0x57 + d) as char);
        }
        r
    }
}

} // verus!
