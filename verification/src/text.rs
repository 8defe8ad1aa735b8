//! Character-level helpers shared by the parsers.
//!
//! Text is handled as a sequence of `char`s: a `&str` is unpacked once into a
//! `Vec<char>`, every scanning routine works on `&[char]`, and results are
//! packed back into `String`s.

use vstd::prelude::*;
use vstd::slice::slice_subrange;
use vstd::string::StrSliceExecFns;

verus! {

/// `String::push` appends exactly one character to the end of the string.
pub assume_specification[ String::push ](s: &mut String, c: char)
    ensures
        final(s)@ == old(s)@.push(c),
;

/// `String::pop` removes the last character and returns it, or returns `None`
/// and leaves the string as it is when it is empty.
pub assume_specification[ String::pop ](s: &mut String) -> (c: Option<char>)
    ensures
        old(s)@.len() == 0 ==> c.is_none() && final(s)@ == old(s)@,
        old(s)@.len() > 0 ==> c == Some(old(s)@.last()) && final(s)@ == old(s)@.drop_last(),
;

/// Unpacks a string into its characters.
pub fn chars_of(s: &str) -> (out: Vec<char>)
    ensures
        out@ == s@,
{
    let mut out: Vec<char> = Vec::new();
    for c in it: s.chars()
        invariant
            out@ == it.seq().take(it.index() as int),
            it.seq() == s@,
    {
        out.push(c);
    }
    out
}

/// Packs characters into a string.
pub fn string_of(s: &[char]) -> (out: String)
    ensures
        out@ == s@,
{
    let mut out = String::new();
    let mut i: usize = 0;
    while i < s.len()
        invariant
            i <= s@.len(),
            out@ == s@.take(i as int),
        decreases s@.len() - i,
    {
        out.push(s[i]);
        i += 1;
    }
    out
}

/// Appends characters to a string.
pub fn append_chars(s: &mut String, chars: &[char])
    ensures
        final(s)@ == old(s)@ + chars@,
{
    let mut i: usize = 0;
    assert(s@ + chars@.take(0) == s@);
    while i < chars.len()
        invariant
            i <= chars@.len(),
            s@ == old(s)@ + chars@.take(i as int),
        decreases chars@.len() - i,
    {
        s.push(chars[i]);
        assert(chars@.take(i + 1) == chars@.take(i as int).push(chars@[i as int]));
        assert((old(s)@ + chars@.take(i as int)).push(chars@[i as int]) == old(s)@ + chars@.take(
            i + 1,
        ));
        i += 1;
    }
    assert(chars@.take(chars@.len() as int) == chars@);
}

/// Whether `c` is a blank: a space or a horizontal tab. Blanks separate the
/// words of a line.
pub open spec fn is_blank(c: char) -> bool {
    c == ' ' || c == '\t'
}

/// Whether `c` is a blank.
pub fn blank(c: char) -> (b: bool)
    ensures
        b == is_blank(c),
{
    c == ' ' || c == '\t'
}

/// Whether `c` is white space: one of the characters that have the Unicode
/// property `White_Space`. White space is what trimming drops.
pub open spec fn is_white_space(c: char) -> bool {
    let v = c as u32;
    ||| 0x09 <= v <= 0x0d
    ||| v == 0x20
    ||| v == 0x85
    ||| v == 0xa0
    ||| v == 0x1680
    ||| 0x2000 <= v <= 0x200a
    ||| v == 0x2028
    ||| v == 0x2029
    ||| v == 0x202f
    ||| v == 0x205f
    ||| v == 0x3000
}

/// Whether `c` is white space.
pub fn white_space(c: char) -> (b: bool)
    ensures
        b == is_white_space(c),
{
    let v: u32 = c as u32;
    (0x09 <= v && v <= 0x0d) || v == 0x20 || v == 0x85 || v == 0xa0 || v == 0x1680 || (0x2000 <= v
        && v <= 0x200a) || v == 0x2028 || v == 0x2029 || v == 0x202f || v == 0x205f || v == 0x3000
}

/// Whether `s` begins with the text `p`.
pub fn starts_with_str(s: &[char], p: &str) -> (b: bool)
    ensures
        b == p@.is_prefix_of(s@),
{
    let mut i: usize = 0;
    for c in it: p.chars()
        invariant
            i == it.index(),
            it.seq() == p@,
            i <= s@.len(),
            p@.take(i as int) == s@.take(i as int),
    {
        if i >= s.len() || s[i] != c {
            assert(!p@.is_prefix_of(s@)) by {
                if p@.len() <= s@.len() {
                    assert(p@[i as int] != s@.subrange(0, p@.len() as int)[i as int]);
                }
            }
            return false;
        }
        assert(p@.take(i + 1) == p@.take(i as int).push(p@[i as int]));
        assert(s@.take(i + 1) == s@.take(i as int).push(s@[i as int]));
        i += 1;
    }
    assert(p@.take(p@.len() as int) == p@);
    true
}

/// Whether `s` is the text `p`.
pub fn same_as_str(s: &[char], p: &str) -> (same: bool)
    ensures
        same == (s@ == p@),
{
    if s.len() != p.unicode_len() {
        return false;
    }
    let same = starts_with_str(s, p);
    assert(s@.subrange(0, s@.len() as int) == s@);
    same
}

/// The index of the first `c` in `s` at or after `from`, or `s.len()` when
/// there is none.
pub open spec fn find_char(s: Seq<char>, c: char, from: int) -> int
    decreases s.len() - from,
{
    if from >= s.len() {
        s.len() as int
    } else if s[from] == c {
        from
    } else {
        find_char(s, c, from + 1)
    }
}

/// `find_char` returns the least matching index at or after `from`.
pub proof fn lemma_find_char(s: Seq<char>, c: char, from: int)
    requires
        0 <= from <= s.len(),
    ensures
        from <= find_char(s, c, from) <= s.len(),
        find_char(s, c, from) < s.len() ==> s[find_char(s, c, from)] == c,
        forall|k: int| from <= k < find_char(s, c, from) ==> s[k] != c,
    decreases s.len() - from,
{
    if from < s.len() && s[from] != c {
        lemma_find_char(s, c, from + 1);
    }
}

/// `find_char` finds `c` at `at` when there is none before it.
pub proof fn lemma_find_char_at(s: Seq<char>, c: char, from: int, at: int)
    requires
        0 <= from <= at < s.len(),
        s[at] == c,
        forall|k: int| from <= k < at ==> s[k] != c,
    ensures
        find_char(s, c, from) == at,
    decreases at - from,
{
    if from < at {
        lemma_find_char_at(s, c, from + 1, at);
    }
}

/// Searching behind a prefix is searching in what follows it.
pub proof fn lemma_find_char_behind(prefix: Seq<char>, s: Seq<char>, c: char, from: int)
    requires
        0 <= from <= s.len(),
    ensures
        find_char(prefix + s, c, prefix.len() + from) == prefix.len() + find_char(s, c, from),
    decreases s.len() - from,
{
    if from < s.len() {
        assert((prefix + s)[prefix.len() + from] == s[from]);
        if s[from] != c {
            lemma_find_char_behind(prefix, s, c, from + 1);
        }
    }
}

/// Finds the first `c` in `s` at or after `from`.
pub fn find(s: &[char], c: char, from: usize) -> (at: usize)
    requires
        from <= s@.len(),
    ensures
        at == find_char(s@, c, from as int),
        from <= at <= s@.len(),
{
    let mut i: usize = from;
    while i < s.len() && s[i] != c
        invariant
            from <= i <= s@.len(),
            find_char(s@, c, i as int) == find_char(s@, c, from as int),
        decreases s@.len() - i,
    {
        i += 1;
    }
    i
}

/// `s` without its leading blanks.
pub open spec fn skip_blanks(s: Seq<char>) -> Seq<char>
    decreases s.len(),
{
    if s.len() > 0 && is_blank(s[0]) {
        skip_blanks(s.drop_first())
    } else {
        s
    }
}

/// `s` without its leading white space.
pub open spec fn skip_white_space(s: Seq<char>) -> Seq<char>
    decreases s.len(),
{
    if s.len() > 0 && is_white_space(s[0]) {
        skip_white_space(s.drop_first())
    } else {
        s
    }
}

/// `s` without its trailing white space.
pub open spec fn drop_trailing_white_space(s: Seq<char>) -> Seq<char>
    decreases s.len(),
{
    if s.len() > 0 && is_white_space(s.last()) {
        drop_trailing_white_space(s.drop_last())
    } else {
        s
    }
}

/// `s` without leading and trailing white space.
pub open spec fn trimmed(s: Seq<char>) -> Seq<char> {
    drop_trailing_white_space(skip_white_space(s))
}

/// The leading run of non-blank characters of `s`.
pub open spec fn first_word(s: Seq<char>) -> Seq<char>
    decreases s.len(),
{
    if s.len() > 0 && !is_blank(s[0]) {
        seq![s[0]] + first_word(s.drop_first())
    } else {
        Seq::empty()
    }
}

/// What follows the leading run of non-blank characters of `s`.
pub open spec fn after_first_word(s: Seq<char>) -> Seq<char>
    decreases s.len(),
{
    if s.len() > 0 && !is_blank(s[0]) {
        after_first_word(s.drop_first())
    } else {
        s
    }
}

/// `s` without one leading space, if it has one.
pub open spec fn skip_one_space(s: Seq<char>) -> Seq<char> {
    if s.len() > 0 && s[0] == ' ' {
        s.drop_first()
    } else {
        s
    }
}

/// What `skip_blanks` leaves does not begin with a blank, and is what
/// follows a run of blanks at the front of `s`.
pub proof fn lemma_skip_blanks(s: Seq<char>)
    ensures
        skip_blanks(s).len() <= s.len(),
        skip_blanks(s) == s.skip(s.len() - skip_blanks(s).len()),
        forall|k: int| 0 <= k < s.len() - skip_blanks(s).len() ==> is_blank(s[k]),
        skip_blanks(s).len() > 0 ==> !is_blank(skip_blanks(s)[0]),
    decreases s.len(),
{
    if s.len() > 0 && is_blank(s[0]) {
        let rest = s.drop_first();
        lemma_skip_blanks(rest);
        let cut = rest.len() - skip_blanks(rest).len();
        assert(rest.skip(cut) == s.skip(cut + 1));
        assert forall|k: int| 0 <= k < s.len() - skip_blanks(s).len() implies is_blank(s[k]) by {
            if k > 0 {
                assert(s[k] == rest[k - 1]);
            }
        }
    } else {
        assert(s.skip(0) == s);
    }
}

/// What `skip_white_space` leaves does not begin with white space, and is
/// what follows a run of white space at the front of `s`.
pub proof fn lemma_skip_white_space(s: Seq<char>)
    ensures
        skip_white_space(s).len() <= s.len(),
        skip_white_space(s) == s.skip(s.len() - skip_white_space(s).len()),
        forall|k: int| 0 <= k < s.len() - skip_white_space(s).len() ==> is_white_space(s[k]),
        skip_white_space(s).len() > 0 ==> !is_white_space(skip_white_space(s)[0]),
    decreases s.len(),
{
    if s.len() > 0 && is_white_space(s[0]) {
        let rest = s.drop_first();
        lemma_skip_white_space(rest);
        let cut = rest.len() - skip_white_space(rest).len();
        assert(rest.skip(cut) == s.skip(cut + 1));
        assert forall|k: int| 0 <= k < s.len() - skip_white_space(s).len() implies is_white_space(
            s[k],
        ) by {
            if k > 0 {
                assert(s[k] == rest[k - 1]);
            }
        }
    } else {
        assert(s.skip(0) == s);
    }
}

/// What `drop_trailing_white_space` leaves does not end with white space,
/// and is what precedes a run of white space at the back of `s`.
pub proof fn lemma_drop_trailing_white_space(s: Seq<char>)
    ensures
        drop_trailing_white_space(s).len() <= s.len(),
        drop_trailing_white_space(s) == s.take(drop_trailing_white_space(s).len() as int),
        forall|k: int|
            drop_trailing_white_space(s).len() <= k < s.len() ==> is_white_space(s[k]),
        drop_trailing_white_space(s).len() > 0 ==> !is_white_space(
            drop_trailing_white_space(s).last(),
        ),
    decreases s.len(),
{
    if s.len() > 0 && is_white_space(s.last()) {
        let front = s.drop_last();
        lemma_drop_trailing_white_space(front);
        let kept = drop_trailing_white_space(front).len() as int;
        assert(front.take(kept) == s.take(kept));
        assert forall|k: int| kept <= k < s.len() implies is_white_space(s[k]) by {
            if k < s.len() - 1 {
                assert(s[k] == front[k]);
            }
        }
    } else {
        assert(s.take(s.len() as int) == s);
    }
}

/// What `trimmed` leaves neither begins nor ends with white space.
pub proof fn lemma_trimmed(s: Seq<char>)
    ensures
        trimmed(s).len() > 0 ==> !is_white_space(trimmed(s)[0]) && !is_white_space(
            trimmed(s).last(),
        ),
{
    let front = skip_white_space(s);
    lemma_skip_white_space(s);
    lemma_drop_trailing_white_space(front);
    if trimmed(s).len() > 0 {
        assert(trimmed(s)[0] == front[0]);
    }
}

/// The first word and what follows it make up `s`; the word holds no blank,
/// and what follows it is empty or begins with one.
pub proof fn lemma_first_word(s: Seq<char>)
    ensures
        first_word(s) + after_first_word(s) == s,
        forall|k: int| 0 <= k < first_word(s).len() ==> !is_blank(#[trigger] first_word(s)[k]),
        after_first_word(s).len() > 0 ==> is_blank(after_first_word(s)[0]),
    decreases s.len(),
{
    if s.len() > 0 && !is_blank(s[0]) {
        let rest = s.drop_first();
        lemma_first_word(rest);
        assert(seq![s[0]] + first_word(rest) + after_first_word(rest) == seq![s[0]] + (first_word(
            rest,
        ) + after_first_word(rest)));
        assert(seq![s[0]] + rest == s);
        assert forall|k: int| 0 <= k < first_word(s).len() implies !is_blank(
            #[trigger] first_word(s)[k],
        ) by {
            if k > 0 {
                assert(first_word(s)[k] == first_word(rest)[k - 1]);
            }
        }
    } else {
        assert(Seq::<char>::empty() + s == s);
    }
}

/// Removes leading blanks.
pub fn trim_blanks_start(s: &[char]) -> (out: &[char])
    ensures
        out@ == skip_blanks(s@),
{
    let mut i: usize = 0;
    assert(s@.skip(0) == s@);
    while i < s.len() && blank(s[i])
        invariant
            i <= s@.len(),
            skip_blanks(s@.skip(i as int)) == skip_blanks(s@),
        decreases s@.len() - i,
    {
        assert(s@.skip(i as int).drop_first() == s@.skip(i + 1));
        i += 1;
    }
    slice_subrange(s, i, s.len())
}

/// Removes leading white space.
pub fn trim_start(s: &[char]) -> (out: &[char])
    ensures
        out@ == skip_white_space(s@),
{
    let mut i: usize = 0;
    assert(s@.skip(0) == s@);
    while i < s.len() && white_space(s[i])
        invariant
            i <= s@.len(),
            skip_white_space(s@.skip(i as int)) == skip_white_space(s@),
        decreases s@.len() - i,
    {
        assert(s@.skip(i as int).drop_first() == s@.skip(i + 1));
        i += 1;
    }
    slice_subrange(s, i, s.len())
}

/// Removes trailing white space.
pub fn trim_end(s: &[char]) -> (out: &[char])
    ensures
        out@ == drop_trailing_white_space(s@),
{
    let mut n: usize = s.len();
    assert(s@.take(s@.len() as int) == s@);
    while n > 0 && white_space(s[n - 1])
        invariant
            n <= s@.len(),
            drop_trailing_white_space(s@.take(n as int)) == drop_trailing_white_space(s@),
        decreases n,
    {
        assert(s@.take(n as int).drop_last() == s@.take(n - 1));
        n -= 1;
    }
    slice_subrange(s, 0, n)
}

/// Removes leading and trailing white space.
pub fn trim(s: &[char]) -> (out: &[char])
    ensures
        out@ == trimmed(s@),
{
    trim_end(trim_start(s))
}

/// Splits `s` after its leading run of non-blank characters.
pub fn split_first_word(s: &[char]) -> (parts: (&[char], &[char]))
    ensures
        parts.0@ == first_word(s@),
        parts.1@ == after_first_word(s@),
{
    let mut i: usize = 0;
    assert(s@.skip(0) == s@);
    assert(s@.take(0) + first_word(s@) == first_word(s@));
    while i < s.len() && !blank(s[i])
        invariant
            i <= s@.len(),
            s@.take(i as int) + first_word(s@.skip(i as int)) == first_word(s@),
            after_first_word(s@.skip(i as int)) == after_first_word(s@),
        decreases s@.len() - i,
    {
        assert(s@.skip(i as int).drop_first() == s@.skip(i + 1));
        assert(s@.take(i + 1) == s@.take(i as int) + seq![s@[i as int]]);
        assert(s@.take(i as int) + (seq![s@[i as int]] + first_word(s@.skip(i + 1)))
            == s@.take(i + 1) + first_word(s@.skip(i + 1)));
        i += 1;
    }
    assert(s@.take(i as int) + Seq::<char>::empty() == s@.take(i as int));
    (slice_subrange(s, 0, i), slice_subrange(s, i, s.len()))
}

/// Removes one leading space, if there is one.
pub fn trim_one_space(s: &[char]) -> (out: &[char])
    ensures
        out@ == skip_one_space(s@),
{
    if s.len() > 0 && s[0] == ' ' {
        slice_subrange(s, 1, s.len())
    } else {
        assert(s@.subrange(0, s@.len() as int) == s@);
        slice_subrange(s, 0, s.len())
    }
}

/// Whether `c` is one of the digits `0` to `9`.
pub open spec fn is_digit(c: char) -> bool {
    '0' as u32 <= c as u32 <= '9' as u32
}

/// The number that a digit stands for.
pub open spec fn digit_value(c: char) -> int {
    c as u32 - '0' as u32
}

/// The character of a decimal digit.
pub open spec fn digit_char(d: nat) -> char
    recommends
        d < 10,
{
    ((48 + d) as u8) as char
}

/// The decimal digits of `n`, without leading zeros.
pub open spec fn decimal(n: nat) -> Seq<char>
    decreases n,
{
    if n < 10 {
        seq![digit_char(n)]
    } else {
        decimal(n / 10).push(digit_char(n % 10))
    }
}

/// Appends the decimal digits of `n`.
pub fn push_decimal(out: &mut String, n: u16)
    ensures
        final(out)@ == old(out)@ + decimal(n as nat),
    decreases n,
{
    if n >= 10 {
        push_decimal(out, n / 10);
    }
    let d: u8 = (n % 10) as u8;
    out.push((48 + d) as char);
    proof {
        let last = digit_char((n % 10) as nat);
        if n >= 10 {
            let front = decimal((n / 10) as nat);
            assert((old(out)@ + front).push(last) == old(out)@ + front.push(last));
        } else {
            assert(old(out)@.push(last) == old(out)@ + seq![last]);
        }
    }
}

/// `digit_char` and `digit_value` undo each other.
pub proof fn lemma_digit_char(d: nat)
    requires
        d < 10,
    ensures
        is_digit(digit_char(d)),
        digit_value(digit_char(d)) == d,
        digit_char(d) != ' ',
{
}

} // verus!
