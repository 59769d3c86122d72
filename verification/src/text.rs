//! Character-level helpers: turning text into characters and back, splitting
//! on a separator, cutting a line into words and reading decimal numbers.

use vstd::prelude::*;
use vstd::string::*;

verus! {

/// The characters of `s`, in order.
pub fn chars_of(s: &str) -> (chars: Vec<char>)
    ensures
        chars@ == s@,
{
    broadcast use group_string_axioms;

    let mut chars: Vec<char> = Vec::new();
    for c in it: s.chars()
        invariant
            chars@ == it.seq().take(it.index() as int),
            it.seq() == s@,
    {
        chars.push(c);
        assert(it.seq().take(it.index() + 1) == it.seq().take(it.index() as int).push(c));
    }
    assert(s@.take(s@.len() as int) == s@);
    chars
}

/// `String::push`: appends one character to the end of the string.
#[verifier::external_body]
fn push_char(s: &mut String, c: char)
    ensures
        final(s)@ == old(s)@.push(c),
{
    s.push(c)
}

/// A string holding exactly the characters of `chars`.
pub fn string_of(chars: &Vec<char>) -> (s: String)
    ensures
        s@ == chars@,
{
    let mut s = String::new();
    let mut i: usize = 0;
    while i < chars.len()
        invariant
            i <= chars.len(),
            s@ == chars@.take(i as int),
        decreases chars.len() - i,
    {
        push_char(&mut s, chars[i]);
        i += 1;
        assert(chars@.take(i as int) == chars@.take(i - 1).push(chars@[i - 1]));
    }
    assert(chars@.take(chars.len() as int) == chars@);
    s
}

/// The views of a vector of character vectors.
pub open spec fn views(parts: Seq<Vec<char>>) -> Seq<Seq<char>> {
    Seq::new(parts.len(), |i: int| parts[i]@)
}

/// Number of leading characters of `s` that differ from `sep`.
pub open spec fn run_before(s: Seq<char>, sep: char) -> nat
    decreases s.len(),
{
    if s.len() == 0 || s[0] == sep {
        0
    } else {
        1 + run_before(s.skip(1), sep)
    }
}

/// The pieces of `s` between occurrences of `sep`: one more piece than there
/// are separators, empty pieces included.
pub open spec fn split(s: Seq<char>, sep: char) -> Seq<Seq<char>>
    decreases s.len(),
{
    let n = run_before(s, sep) as int;
    if n >= s.len() {
        seq![s]
    } else {
        seq![s.take(n)] + split(s.skip(n + 1), sep)
    }
}

/// The run before the first separator holds no separator and ends at one,
/// or at the end of the text.
pub proof fn lemma_run_before(s: Seq<char>, sep: char)
    ensures
        run_before(s, sep) <= s.len(),
        forall|i: int| 0 <= i < run_before(s, sep) ==> s[i] != sep,
        run_before(s, sep) < s.len() ==> s[run_before(s, sep) as int] == sep,
    decreases s.len(),
{
    if s.len() == 0 || s[0] == sep {
    } else {
        let t = s.skip(1);
        lemma_run_before(t, sep);
        assert forall|i: int| 0 <= i < run_before(s, sep) implies s[i] != sep by {
            if i > 0 {
                assert(s[i] == t[i - 1]);
            }
        }
        if run_before(s, sep) < s.len() {
            assert(s[run_before(s, sep) as int] == t[run_before(t, sep) as int]);
        }
    }
}

/// The first separator decides the run: if `s[n]` is the first `sep`, the run
/// before it has length `n`; with no `sep` at all it is the whole of `s`.
pub proof fn lemma_run_before_is(s: Seq<char>, sep: char, n: int)
    requires
        0 <= n <= s.len(),
        forall|i: int| 0 <= i < n ==> s[i] != sep,
        n < s.len() ==> s[n] == sep,
    ensures
        run_before(s, sep) == n,
    decreases s.len(),
{
    if n == 0 {
    } else {
        let t = s.skip(1);
        assert forall|i: int| 0 <= i < n - 1 implies t[i] != sep by {
            assert(t[i] == s[i + 1]);
        }
        lemma_run_before_is(t, sep, n - 1);
    }
}

/// Cuts `chars` at every `sep`.
pub fn split_on(chars: &Vec<char>, sep: char) -> (parts: Vec<Vec<char>>)
    ensures
        views(parts@) == split(chars@, sep),
{
    let mut parts: Vec<Vec<char>> = Vec::new();
    let mut piece: Vec<char> = Vec::new();
    let mut start: usize = 0;
    let mut i: usize = 0;
    proof {
        assert(chars@.skip(0) == chars@);
        assert(views(parts@) + split(chars@, sep) == split(chars@, sep));
    }
    while i < chars.len()
        invariant
            start <= i <= chars.len(),
            piece@ == chars@.subrange(start as int, i as int),
            forall|k: int| start <= k < i ==> chars@[k] != sep,
            split(chars@, sep) == views(parts@) + split(chars@.skip(start as int), sep),
        decreases chars.len() - i,
    {
        let c = chars[i];
        if c == sep {
            proof {
                let rest = chars@.skip(start as int);
                assert forall|k: int| 0 <= k < i - start implies rest[k] != sep by {
                    assert(rest[k] == chars@[start + k]);
                }
                lemma_run_before_is(rest, sep, i - start);
                assert(rest.take(i - start) == piece@);
                assert(rest.skip(i - start + 1) == chars@.skip(i + 1));
                assert(views(parts@.push(piece)) == views(parts@) + seq![piece@]);
            }
            parts.push(piece);
            piece = Vec::new();
            start = i + 1;
        } else {
            piece.push(c);
            assert(chars@.subrange(start as int, i + 1) == chars@.subrange(
                start as int,
                i as int,
            ).push(c));
        }
        i += 1;
    }
    proof {
        let rest = chars@.skip(start as int);
        assert forall|k: int| 0 <= k < rest.len() implies rest[k] != sep by {
            assert(rest[k] == chars@[start + k]);
        }
        lemma_run_before_is(rest, sep, rest.len() as int);
        assert(rest == piece@);
        assert(views(parts@.push(piece)) == views(parts@) + seq![piece@]);
    }
    parts.push(piece);
    parts
}

/// The white-space characters: those that separate the words of a line.
pub open spec fn is_blank(c: char) -> bool {
    ||| '\u{9}' <= c <= '\u{d}'
    ||| c == ' '
    ||| c == '\u{85}'
    ||| c == '\u{a0}'
    ||| c == '\u{1680}'
    ||| '\u{2000}' <= c <= '\u{200a}'
    ||| c == '\u{2028}'
    ||| c == '\u{2029}'
    ||| c == '\u{202f}'
    ||| c == '\u{205f}'
    ||| c == '\u{3000}'
}

/// Tells whether `c` is a white-space character.
pub fn blank(c: char) -> (b: bool)
    ensures
        b == is_blank(c),
{
    ('\u{9}' <= c && c <= '\u{d}') || c == ' ' || c == '\u{85}' || c == '\u{a0}' || c
        == '\u{1680}' || ('\u{2000}' <= c && c <= '\u{200a}') || c == '\u{2028}' || c
        == '\u{2029}' || c == '\u{202f}' || c == '\u{205f}' || c == '\u{3000}'
}

/// Number of leading characters of `s` that are not white space.
pub open spec fn word_len(s: Seq<char>) -> nat
    decreases s.len(),
{
    if s.len() == 0 || is_blank(s[0]) {
        0
    } else {
        1 + word_len(s.skip(1))
    }
}

/// The words of `s`: its maximal runs of characters that are not white
/// space, in order. No word is empty.
pub open spec fn words(s: Seq<char>) -> Seq<Seq<char>>
    decreases s.len(),
{
    if s.len() == 0 {
        seq![]
    } else if is_blank(s[0]) {
        words(s.skip(1))
    } else {
        let n = word_len(s) as int;
        if n < s.len() {
            seq![s.take(n)] + words(s.skip(n))
        } else {
            seq![s]
        }
    }
}

/// If the first `n` characters of `s` are not white space and the next one,
/// if any, is, then the leading word of `s` has length `n`.
pub proof fn lemma_word_len_is(s: Seq<char>, n: int)
    requires
        0 <= n <= s.len(),
        forall|i: int| 0 <= i < n ==> !is_blank(s[i]),
        n < s.len() ==> is_blank(s[n]),
    ensures
        word_len(s) == n,
    decreases s.len(),
{
    if n == 0 {
    } else {
        let t = s.skip(1);
        assert forall|i: int| 0 <= i < n - 1 implies !is_blank(t[i]) by {
            assert(t[i] == s[i + 1]);
        }
        lemma_word_len_is(t, n - 1);
    }
}

/// Cuts `chars` into its words.
pub fn split_words(chars: &Vec<char>) -> (parts: Vec<Vec<char>>)
    ensures
        views(parts@) == words(chars@),
{
    let mut parts: Vec<Vec<char>> = Vec::new();
    let mut piece: Vec<char> = Vec::new();
    let mut start: usize = 0;
    let mut i: usize = 0;
    proof {
        assert(chars@.skip(0) == chars@);
        assert(views(parts@) + words(chars@) == words(chars@));
    }
    while i < chars.len()
        invariant
            start <= i <= chars.len(),
            piece@ == chars@.subrange(start as int, i as int),
            forall|k: int| start <= k < i ==> !is_blank(chars@[k]),
            words(chars@) == views(parts@) + words(chars@.skip(start as int)),
        decreases chars.len() - i,
    {
        let c = chars[i];
        if blank(c) {
            proof {
                let here = chars@.skip(i as int);
                assert(here.skip(1) == chars@.skip(i + 1));
                assert(words(here) == words(chars@.skip(i + 1)));
            }
            if i > start {
                proof {
                    let rest = chars@.skip(start as int);
                    assert forall|k: int| 0 <= k < i - start implies !is_blank(rest[k]) by {
                        assert(rest[k] == chars@[start + k]);
                    }
                    lemma_word_len_is(rest, i - start);
                    assert(rest.take(i - start) == piece@);
                    assert(rest.skip(i - start) == chars@.skip(i as int));
                    assert(views(parts@.push(piece)) == views(parts@) + seq![piece@]);
                }
                parts.push(piece);
                piece = Vec::new();
            }
            start = i + 1;
        } else {
            piece.push(c);
            assert(chars@.subrange(start as int, i + 1) == chars@.subrange(
                start as int,
                i as int,
            ).push(c));
        }
        i += 1;
    }
    if i > start {
        proof {
            let rest = chars@.skip(start as int);
            assert forall|k: int| 0 <= k < rest.len() implies !is_blank(rest[k]) by {
                assert(rest[k] == chars@[start + k]);
            }
            lemma_word_len_is(rest, rest.len() as int);
            assert(rest == piece@);
            assert(views(parts@.push(piece)) == views(parts@) + seq![piece@]);
        }
        parts.push(piece);
    } else {
        assert(views(parts@) + Seq::<Seq<char>>::empty() == views(parts@));
    }
    parts
}

/// `parts` written one after another with `sep` between neighbours.
pub open spec fn join(parts: Seq<Seq<char>>, sep: char) -> Seq<char>
    decreases parts.len(),
{
    if parts.len() == 0 {
        seq![]
    } else if parts.len() == 1 {
        parts[0]
    } else {
        join(parts.drop_last(), sep).push(sep) + parts.last()
    }
}

/// Joins the parts from index `from` on with `sep` between neighbours.
pub fn join_from(parts: &Vec<Vec<char>>, from: usize, sep: char) -> (text: Vec<char>)
    requires
        from <= parts.len(),
    ensures
        text@ == join(views(parts@).skip(from as int), sep),
{
    let mut text: Vec<char> = Vec::new();
    let mut i: usize = from;
    let ghost all = views(parts@).skip(from as int);
    while i < parts.len()
        invariant
            from <= i <= parts.len(),
            all == views(parts@).skip(from as int),
            text@ == join(all.take(i - from), sep),
        decreases parts.len() - i,
    {
        if i > from {
            text.push(sep);
        }
        let part = &parts[i];
        let ghost before = text@;
        let mut j: usize = 0;
        while j < part.len()
            invariant
                j <= part.len(),
                text@ == before + part@.take(j as int),
            decreases part.len() - j,
        {
            text.push(part[j]);
            j += 1;
            assert(part@.take(j as int) == part@.take(j - 1).push(part@[j - 1]));
        }
        proof {
            assert(part@.take(part.len() as int) == part@);
            let upto = all.take(i + 1 - from);
            assert(upto.drop_last() == all.take(i - from));
            assert(upto.last() == part@);
        }
        i += 1;
    }
    assert(all.take(all.len() as int) == all);
    text
}

/// `s` without the run of `c` at its end.
pub open spec fn trim_end(s: Seq<char>, c: char) -> Seq<char>
    decreases s.len(),
{
    if s.len() > 0 && s.last() == c {
        trim_end(s.drop_last(), c)
    } else {
        s
    }
}

/// Drops every `c` from the end of `chars`.
pub fn trim_end_of(chars: &Vec<char>, c: char) -> (kept: Vec<char>)
    ensures
        kept@ == trim_end(chars@, c),
{
    let mut end: usize = chars.len();
    assert(chars@.take(end as int) == chars@);
    while end > 0 && chars[end - 1] == c
        invariant
            end <= chars.len(),
            trim_end(chars@, c) == trim_end(chars@.take(end as int), c),
        decreases end,
    {
        assert(chars@.take(end as int).drop_last() == chars@.take(end - 1));
        end -= 1;
    }
    let mut kept: Vec<char> = Vec::new();
    let mut i: usize = 0;
    while i < end
        invariant
            i <= end <= chars.len(),
            kept@ == chars@.take(i as int),
        decreases end - i,
    {
        kept.push(chars[i]);
        i += 1;
        assert(chars@.take(i as int) == chars@.take(i - 1).push(chars@[i - 1]));
    }
    kept
}

/// An ASCII decimal digit.
pub open spec fn is_digit(c: char) -> bool {
    '0' <= c <= '9'
}

/// The number a digit stands for.
pub open spec fn digit_value(c: char) -> nat {
    (c as u32 - '0' as u32) as nat
}

/// Whether every character of `s` is a decimal digit.
pub open spec fn all_digits(s: Seq<char>) -> bool {
    forall|i: int| 0 <= i < s.len() ==> is_digit(#[trigger] s[i])
}

/// The number that the digits of `s` write in base ten.
pub open spec fn decimal(s: Seq<char>) -> nat
    decreases s.len(),
{
    if s.len() == 0 {
        0
    } else {
        10 * decimal(s.drop_last()) + digit_value(s.last())
    }
}

/// The value of a non-empty run of digits, as long as it does not exceed
/// `limit`.
pub open spec fn bounded_decimal(s: Seq<char>, limit: nat) -> Option<nat> {
    if s.len() > 0 && all_digits(s) && decimal(s) <= limit {
        Some(decimal(s))
    } else {
        None
    }
}

/// An unsigned 32-bit number in decimal: an optional `+`, then at least one
/// digit; leading zeros are allowed, a value above `u32::MAX` is not.
pub open spec fn u32_of(s: Seq<char>) -> Option<u32> {
    let digits = if s.len() > 0 && s[0] == '+' {
        s.skip(1)
    } else {
        s
    };
    match bounded_decimal(digits, u32::MAX as nat) {
        Some(v) => Some(v as u32),
        None => None,
    }
}

/// A signed 32-bit number in decimal: an optional `+` or `-`, then at least
/// one digit; the value must fit in an `i32`.
pub open spec fn i32_of(s: Seq<char>) -> Option<i32> {
    if s.len() > 0 && s[0] == '-' {
        match bounded_decimal(s.skip(1), (i32::MAX + 1) as nat) {
            Some(v) => Some((-(v as int)) as i32),
            None => None,
        }
    } else {
        let digits = if s.len() > 0 && s[0] == '+' {
            s.skip(1)
        } else {
            s
        };
        match bounded_decimal(digits, i32::MAX as nat) {
            Some(v) => Some(v as i32),
            None => None,
        }
    }
}

/// Reading more digits never makes the number smaller.
pub proof fn lemma_decimal_grows(s: Seq<char>, k: int)
    requires
        0 <= k <= s.len(),
    ensures
        decimal(s.take(k)) <= decimal(s),
    decreases s.len(),
{
    if k == s.len() {
        assert(s.take(k) == s);
    } else {
        assert(s.drop_last().take(k) == s.take(k));
        lemma_decimal_grows(s.drop_last(), k);
    }
}

/// Reads the digits of `chars` from index `from` to the end.
fn read_digits(chars: &Vec<char>, from: usize, limit: u64) -> (r: Option<u64>)
    requires
        from <= chars.len(),
        limit <= u32::MAX + 1,
    ensures
        match r {
            Some(v) => bounded_decimal(chars@.skip(from as int), limit as nat) == Some(v as nat),
            None => bounded_decimal(chars@.skip(from as int), limit as nat) is None,
        },
{
    let ghost digits = chars@.skip(from as int);
    if from == chars.len() {
        return None;
    }
    let mut value: u64 = 0;
    let mut i: usize = from;
    assert(digits.take(0) == Seq::<char>::empty());
    while i < chars.len()
        invariant
            from <= i <= chars.len(),
            limit <= u32::MAX + 1,
            digits == chars@.skip(from as int),
            all_digits(digits.take(i - from)),
            value == decimal(digits.take(i - from)),
            value <= limit,
        decreases chars.len() - i,
    {
        let c = chars[i];
        assert(digits[i - from] == c);
        if !('0' <= c && c <= '9') {
            return None;
        }
        let d: u64 = (c as u32 - '0' as u32) as u64;
        let next: u64 = 10 * value + d;
        proof {
            let upto = digits.take(i - from + 1);
            assert(upto.drop_last() == digits.take(i - from));
            assert(upto.last() == c);
            assert(next == decimal(upto));
            assert forall|k: int| 0 <= k < upto.len() implies is_digit(#[trigger] upto[k]) by {
                if k < i - from {
                    assert(upto[k] == digits.take(i - from)[k]);
                }
            }
        }
        if next > limit {
            proof {
                lemma_decimal_grows(digits, i - from + 1);
            }
            return None;
        }
        value = next;
        i += 1;
    }
    assert(digits.take(digits.len() as int) == digits);
    Some(value)
}

/// Reads an unsigned 32-bit decimal number: the whole of `chars` must be one.
pub fn parse_u32(chars: &Vec<char>) -> (r: Option<u32>)
    ensures
        r == u32_of(chars@),
{
    let from: usize = if chars.len() > 0 && chars[0] == '+' {
        1
    } else {
        0
    };
    assert(chars@.skip(0) == chars@);
    match read_digits(chars, from, 0xffff_ffff) {
        Some(v) => Some(v as u32),
        None => None,
    }
}

/// Reads a signed 32-bit decimal number: the whole of `chars` must be one.
pub fn parse_i32(chars: &Vec<char>) -> (r: Option<i32>)
    ensures
        r == i32_of(chars@),
{
    assert(chars@.skip(0) == chars@);
    if chars.len() > 0 && chars[0] == '-' {
        match read_digits(chars, 1, 0x8000_0000) {
            Some(v) => {
                if v == 0x8000_0000 {
                    Some(i32::MIN)
                } else {
                    Some(-(v as i32))
                }
            },
            None => None,
        }
    } else {
        let from: usize = if chars.len() > 0 && chars[0] == '+' {
            1
        } else {
            0
        };
        match read_digits(chars, from, 0x7fff_ffff) {
            Some(v) => Some(v as i32),
            None => None,
        }
    }
}

/// The character that writes the digit `n`.
pub open spec fn digit_char(n: int) -> char {
    seq!['0', '1', '2', '3', '4', '5', '6', '7', '8', '9'][n]
}

/// `n` in decimal digits, with zeros in front up to `width` digits.
pub open spec fn padded(n: nat, width: nat) -> Seq<char>
    decreases n, width,
{
    if n < 10 && width <= 1 {
        seq![digit_char(n as int)]
    } else {
        padded(n / 10, (width - 1) as nat).push(digit_char((n % 10) as int))
    }
}

/// A digit is read back as the number that it writes.
pub proof fn lemma_digit_char(n: int)
    requires
        0 <= n <= 9,
    ensures
        is_digit(digit_char(n)),
        digit_value(digit_char(n)) == n,
{
}

/// Padded digits are digits, at least as many as asked for, and are read
/// back as the number that they write.
pub proof fn lemma_padded(n: nat, width: nat)
    ensures
        padded(n, width).len() >= width,
        padded(n, width).len() >= 1,
        all_digits(padded(n, width)),
        decimal(padded(n, width)) == n,
    decreases n, width,
{
    lemma_digit_char((n % 10) as int);
    if n < 10 && width <= 1 {
        let text = padded(n, width);
        assert(text.drop_last() == Seq::<char>::empty());
        assert(decimal(text.drop_last()) == 0);
    } else {
        let front = padded(n / 10, (width - 1) as nat);
        lemma_padded(n / 10, (width - 1) as nat);
        let text = front.push(digit_char((n % 10) as int));
        assert(text.drop_last() == front);
        assert forall|i: int| 0 <= i < text.len() implies is_digit(#[trigger] text[i]) by {
            if i < front.len() {
                assert(text[i] == front[i]);
            }
        }
    }
}

/// A number below one hundred takes exactly two padded digits.
pub proof fn lemma_two_digits(n: nat)
    requires
        n < 100,
    ensures
        padded(n, 2) == seq![digit_char((n / 10) as int), digit_char((n % 10) as int)],
{
    reveal_with_fuel(padded, 3);
    assert(padded(n / 10, 1) == seq![digit_char((n / 10) as int)]);
    assert(padded(n, 2) =~= seq![digit_char((n / 10) as int), digit_char((n % 10) as int)]);
}

/// Two pieces without the separator, written with the separator between
/// them, are split into just these two.
pub proof fn lemma_split_pair(left: Seq<char>, right: Seq<char>, sep: char)
    requires
        forall|i: int| 0 <= i < left.len() ==> left[i] != sep,
        forall|i: int| 0 <= i < right.len() ==> right[i] != sep,
    ensures
        split(left + seq![sep] + right, sep) == seq![left, right],
{
    let whole = left + seq![sep] + right;
    lemma_run_before_is(whole, sep, left.len() as int);
    lemma_run_before_is(right, sep, right.len() as int);
    assert(whole.take(left.len() as int) == left);
    assert(whole.skip(left.len() as int + 1) == right);
    assert(split(right, sep) == seq![right]);
    assert(seq![left] + seq![right] == seq![left, right]);
}

/// Text without white space is at most one word.
pub proof fn lemma_unbroken_is_one_word(s: Seq<char>)
    requires
        forall|i: int| 0 <= i < s.len() ==> !is_blank(s[i]),
    ensures
        words(s).len() <= 1,
{
    if s.len() > 0 {
        lemma_word_len_is(s, s.len() as int);
    }
}

/// A piece in front is joined on with one separator.
pub proof fn lemma_join_front(first: Seq<char>, rest: Seq<Seq<char>>, sep: char)
    requires
        rest.len() > 0,
    ensures
        join(seq![first] + rest, sep) == first + seq![sep] + join(rest, sep),
    decreases rest.len(),
{
    let all = seq![first] + rest;
    assert(all.last() == rest.last());
    if rest.len() == 1 {
        assert(all.drop_last() == seq![first]);
        assert(join(seq![first], sep) == first);
        assert(rest == seq![rest.last()]);
        assert(join(rest, sep) == rest.last());
        assert(join(all, sep) == first.push(sep) + rest.last());
        assert(first.push(sep) + rest.last() == first + seq![sep] + join(rest, sep));
    } else {
        assert(all.drop_last() == seq![first] + rest.drop_last());
        lemma_join_front(first, rest.drop_last(), sep);
        let inner = join(rest.drop_last(), sep);
        assert((first + seq![sep] + inner).push(sep) + rest.last() == first + seq![sep] + (
        inner.push(sep) + rest.last()));
    }
}

/// Splitting cuts at the separators and nowhere else: there is at least one
/// piece, no piece holds the separator, and the pieces joined by the
/// separator are the text again.
pub proof fn lemma_split_rejoins(s: Seq<char>, sep: char)
    ensures
        split(s, sep).len() >= 1,
        forall|i: int, j: int|
            0 <= i < split(s, sep).len() && 0 <= j < split(s, sep)[i].len() ==> split(
                s,
                sep,
            )[i][j] != sep,
        join(split(s, sep), sep) == s,
    decreases s.len(),
{
    let n = run_before(s, sep) as int;
    lemma_run_before(s, sep);
    let pieces = split(s, sep);
    if n >= s.len() {
        assert(pieces == seq![s]);
    } else {
        let head = s.take(n);
        let tail = s.skip(n + 1);
        let rest = split(tail, sep);
        lemma_split_rejoins(tail, sep);
        lemma_join_front(head, rest, sep);
        assert(head + seq![sep] + tail == s);
        assert forall|i: int, j: int| 0 <= i < pieces.len() && 0 <= j < pieces[i].len() implies
            pieces[i][j] != sep by {
            if i == 0 {
                assert(pieces[0] == head);
            } else {
                assert(pieces[i] == rest[i - 1]);
            }
        }
    }
}

/// The words of a text are free of white space, and none is empty.
pub proof fn lemma_words_are_unbroken(s: Seq<char>)
    ensures
        forall|i: int| 0 <= i < words(s).len() ==> (#[trigger] words(s)[i]).len() > 0,
        forall|i: int, j: int|
            0 <= i < words(s).len() && 0 <= j < words(s)[i].len() ==> !is_blank(
                #[trigger] words(s)[i][j],
            ),
    decreases s.len(),
{
    let all = words(s);
    if s.len() == 0 {
        assert(all.len() == 0);
    } else if is_blank(s[0]) {
        lemma_words_are_unbroken(s.skip(1));
        assert(all == words(s.skip(1)));
    } else {
        let n = word_len(s) as int;
        lemma_word_len(s);
        if n < s.len() {
            let rest = words(s.skip(n));
            lemma_words_are_unbroken(s.skip(n));
            assert(all == seq![s.take(n)] + rest);
            assert forall|i: int| 0 <= i < all.len() implies (#[trigger] all[i]).len() > 0 by {
                if i > 0 {
                    assert(all[i] == rest[i - 1]);
                }
            }
            assert forall|i: int, j: int| 0 <= i < all.len() && 0 <= j < all[i].len() implies
                !is_blank(#[trigger] all[i][j]) by {
                if i > 0 {
                    assert(all[i] == rest[i - 1]);
                    assert(!is_blank(rest[i - 1][j]));
                } else {
                    assert(all[0][j] == s[j]);
                }
            }
        } else {
            assert(all == seq![s]);
        }
    }
}

/// The leading word of a text ends where the text or its run of
/// characters other than white space ends.
pub proof fn lemma_word_len(s: Seq<char>)
    ensures
        word_len(s) <= s.len(),
        forall|i: int| 0 <= i < word_len(s) ==> !is_blank(s[i]),
        word_len(s) < s.len() ==> is_blank(s[word_len(s) as int]),
    decreases s.len(),
{
    if s.len() == 0 || is_blank(s[0]) {
    } else {
        let t = s.skip(1);
        lemma_word_len(t);
        assert forall|i: int| 0 <= i < word_len(s) implies !is_blank(s[i]) by {
            if i > 0 {
                assert(s[i] == t[i - 1]);
            }
        }
        if word_len(s) < s.len() {
            assert(s[word_len(s) as int] == t[word_len(t) as int]);
        }
    }
}

/// `s` without the white space in front of it.
pub open spec fn trim_front(s: Seq<char>) -> Seq<char>
    decreases s.len(),
{
    if s.len() > 0 && is_blank(s[0]) {
        trim_front(s.skip(1))
    } else {
        s
    }
}

/// `s` without the white space behind it.
pub open spec fn trim_back(s: Seq<char>) -> Seq<char>
    decreases s.len(),
{
    if s.len() > 0 && is_blank(s.last()) {
        trim_back(s.drop_last())
    } else {
        s
    }
}

/// `s` without the white space around it.
pub open spec fn trimmed(s: Seq<char>) -> Seq<char> {
    trim_back(trim_front(s))
}

/// Drops the white space around `chars`.
pub fn trim_blanks(chars: &Vec<char>) -> (kept: Vec<char>)
    ensures
        kept@ == trimmed(chars@),
{
    let mut start: usize = 0;
    assert(chars@.skip(0) == chars@);
    while start < chars.len() && blank(chars[start])
        invariant
            start <= chars.len(),
            trim_front(chars@) == trim_front(chars@.skip(start as int)),
        decreases chars.len() - start,
    {
        assert(chars@.skip(start as int).skip(1) == chars@.skip(start + 1));
        start += 1;
    }
    let ghost front = chars@.skip(start as int);
    assert(trim_front(chars@) == front);
    let mut end: usize = chars.len();
    assert(chars@.subrange(start as int, end as int) == front);
    while end > start && blank(chars[end - 1])
        invariant
            start <= end <= chars.len(),
            trim_back(front) == trim_back(chars@.subrange(start as int, end as int)),
        decreases end,
    {
        assert(chars@.subrange(start as int, end as int).drop_last() == chars@.subrange(
            start as int,
            end - 1,
        ));
        end -= 1;
    }
    let mut kept: Vec<char> = Vec::new();
    let mut i: usize = start;
    while i < end
        invariant
            start <= i <= end <= chars.len(),
            kept@ == chars@.subrange(start as int, i as int),
        decreases end - i,
    {
        kept.push(chars[i]);
        i += 1;
        assert(chars@.subrange(start as int, i as int) == chars@.subrange(start as int, i - 1).push(
            chars@[i - 1],
        ));
    }
    kept
}

} // verus!
