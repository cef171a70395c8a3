//! Text as sequences of characters: reading, building, trimming, and decimal
//! numbers.
use vstd::prelude::*;
use vstd::string::*;

verus! {

/// `String::push`, which appends one character.
pub assume_specification[ String::push ](s: &mut String, c: char)
    ensures
        final(s)@ == old(s)@.push(c),
;

/// Whether a character has the Unicode property `White_Space`.
pub open spec fn is_white(c: char) -> bool {
    let n = c as int;
    ||| 0x9 <= n <= 0xd
    ||| n == 0x20
    ||| n == 0x85
    ||| n == 0xa0
    ||| n == 0x1680
    ||| 0x2000 <= n <= 0x200a
    ||| n == 0x2028
    ||| n == 0x2029
    ||| n == 0x202f
    ||| n == 0x205f
    ||| n == 0x3000
}

/// Whether a character counts as white space.
///
/// Calls `char::is_whitespace`. Taken as given: it answers by the Unicode property
/// `White_Space`.
#[verifier::external_body]
fn char_is_white(c: char) -> (r: bool)
    ensures
        r == is_white(c),
{
    c.is_whitespace()
}

/// The characters of a text.
pub fn chars_of(text: &str) -> (r: Vec<char>)
    ensures
        r@ == text@,
{
    broadcast use axiom_spec_iter;

    let mut out: Vec<char> = Vec::new();
    let ghost all = text@;
    for c in iter: text.chars()
        invariant
            iter.seq() == all,
            out@ == all.take(iter.index() as int),
    {
        out.push(c);
        assert(all.take(iter.index() + 1) =~= all.take(iter.index() as int).push(c));
    }
    assert(all.take(all.len() as int) =~= all);
    out
}

/// The text made of these characters.
pub fn text_of(chars: &[char]) -> (r: String)
    ensures
        r@ == chars@,
{
    let mut out = String::new();
    let mut i: usize = 0;
    assert(out@ =~= chars@.take(0));
    while i < chars.len()
        invariant
            i <= chars@.len(),
            out@ == chars@.take(i as int),
        decreases chars.len() - i,
    {
        out.push(chars[i]);
        assert(chars@.take(i + 1) =~= chars@.take(i as int).push(chars@[i as int]));
        i += 1;
    }
    assert(chars@.take(i as int) =~= chars@);
    out
}

/// Whether two texts are the same.
pub fn same_text(a: &str, b: &str) -> (r: bool)
    ensures
        r == (a@ == b@),
{
    a.to_owned() == b.to_owned()
}

/// The part of `chars` from position `from` up to, not including, `to`.
pub fn slice_of(chars: &[char], from: usize, to: usize) -> (r: Vec<char>)
    requires
        from <= to <= chars@.len(),
    ensures
        r@ == chars@.subrange(from as int, to as int),
{
    let mut out: Vec<char> = Vec::new();
    let mut i: usize = from;
    assert(out@ =~= chars@.subrange(from as int, from as int));
    while i < to
        invariant
            from <= i <= to <= chars@.len(),
            out@ == chars@.subrange(from as int, i as int),
        decreases to - i,
    {
        out.push(chars[i]);
        assert(chars@.subrange(from as int, i + 1) =~= chars@.subrange(from as int, i as int).push(
            chars@[i as int],
        ));
        i += 1;
    }
    out
}

/// Whether `whole` starts with `part`.
pub open spec fn starts_with(whole: Seq<char>, part: Seq<char>) -> bool {
    part.len() <= whole.len() && whole.subrange(0, part.len() as int) == part
}

/// Whether `whole` ends with `part`.
pub open spec fn ends_with(whole: Seq<char>, part: Seq<char>) -> bool {
    part.len() <= whole.len() && whole.subrange(whole.len() - part.len(), whole.len() as int)
        == part
}

/// Whether the characters at `at` are those of `part`.
fn matches_at(whole: &[char], at: usize, part: &[char]) -> (r: bool)
    requires
        at + part@.len() <= whole@.len(),
    ensures
        r == (whole@.subrange(at as int, at + part@.len()) == part@),
{
    let total: usize = whole.len();
    let mut i: usize = 0;
    while i < part.len()
        invariant
            i <= part@.len(),
            at + part@.len() <= whole@.len(),
            total == whole@.len(),
            forall|k: int| 0 <= k < i ==> whole@[at + k] == #[trigger] part@[k],
        decreases part.len() - i,
    {
        if whole[at + i] != part[i] {
            proof {
                let sub = whole@.subrange(at as int, at + part@.len());
                assert(sub[i as int] == whole@[at + i]);
            }
            return false;
        }
        i += 1;
    }
    assert(whole@.subrange(at as int, at + part@.len()) =~= part@);
    true
}

/// What follows `prefix` in `whole`, when `whole` starts with it.
pub fn strip_prefix(whole: &str, prefix: &str) -> (r: Option<String>)
    ensures
        r is Some <==> starts_with(whole@, prefix@),
        r is Some ==> r->0@ == whole@.skip(prefix@.len() as int),
{
    let all = chars_of(whole);
    let part = chars_of(prefix);
    if part.len() <= all.len() && matches_at(all.as_slice(), 0, part.as_slice()) {
        let rest = slice_of(all.as_slice(), part.len(), all.len());
        assert(rest@ =~= whole@.skip(prefix@.len() as int));
        Some(text_of(rest.as_slice()))
    } else {
        None
    }
}

/// What stands before `suffix` in `whole`, when `whole` ends with it.
pub fn strip_suffix(whole: &str, suffix: &str) -> (r: Option<String>)
    ensures
        r is Some <==> ends_with(whole@, suffix@),
        r is Some ==> r->0@ == whole@.take(whole@.len() - suffix@.len()),
{
    let all = chars_of(whole);
    let part = chars_of(suffix);
    if part.len() <= all.len() {
        let at: usize = all.len() - part.len();
        if matches_at(all.as_slice(), at, part.as_slice()) {
            let rest = slice_of(all.as_slice(), 0, at);
            assert(rest@ =~= whole@.take(whole@.len() - suffix@.len()));
            return Some(text_of(rest.as_slice()));
        }
    }
    None
}

/// Whether the text starts with `prefix`.
pub fn has_prefix(whole: &str, prefix: &str) -> (r: bool)
    ensures
        r == starts_with(whole@, prefix@),
{
    let all = chars_of(whole);
    let part = chars_of(prefix);
    part.len() <= all.len() && matches_at(all.as_slice(), 0, part.as_slice())
}

/// Whether the text holds the character.
pub fn has_char(text: &str, c: char) -> (r: bool)
    ensures
        r == text@.contains(c),
{
    let all = chars_of(text);
    let mut i: usize = 0;
    while i < all.len()
        invariant
            i <= all@.len(),
            all@ == text@,
            forall|k: int| 0 <= k < i ==> all@[k] != c,
        decreases all.len() - i,
    {
        if all[i] == c {
            assert(text@[i as int] == c);
            return true;
        }
        i += 1;
    }
    false
}

/// The text with every `from` replaced by `to`.
pub fn replace_char(text: &str, from: char, to: char) -> (r: String)
    ensures
        r@ == text@.map_values(
            |c: char|
                if c == from {
                    to
                } else {
                    c
                },
        ),
{
    let all = chars_of(text);
    let mut out: Vec<char> = Vec::new();
    let mut i: usize = 0;
    while i < all.len()
        invariant
            i <= all@.len(),
            out@ == all@.take(i as int).map_values(
                |c: char|
                    if c == from {
                        to
                    } else {
                        c
                    },
            ),
        decreases all.len() - i,
    {
        out.push(
            if all[i] == from {
                to
            } else {
                all[i]
            },
        );
        assert(out@ =~= all@.take(i + 1).map_values(
            |c: char|
                if c == from {
                    to
                } else {
                    c
                },
        ));
        i += 1;
    }
    assert(all@.take(i as int) =~= all@);
    text_of(out.as_slice())
}

/// `t` is `s` without the white space at its two ends.
pub open spec fn is_trimmed(s: Seq<char>, t: Seq<char>) -> bool {
    exists|i: int, j: int| #[trigger] trims_to(s, t, i, j)
}

/// `t` is the part of `s` from `i` to `j`, with white space all around it and
/// none at its own ends.
pub open spec fn trims_to(s: Seq<char>, t: Seq<char>, i: int, j: int) -> bool {
    &&& 0 <= i <= j <= s.len()
    &&& t == s.subrange(i, j)
    &&& forall|k: int| 0 <= k < i ==> is_white(#[trigger] s[k])
    &&& forall|k: int| j <= k < s.len() ==> is_white(#[trigger] s[k])
    &&& i < j ==> !is_white(s[i]) && !is_white(s[j - 1])
}

/// A text without the white space at its two ends.
pub open spec fn trimmed(s: Seq<char>) -> Seq<char> {
    choose|t: Seq<char>| is_trimmed(s, t)
}

/// There is one way to trim a text.
proof fn lemma_trimmed_unique(s: Seq<char>, t: Seq<char>, i: int, j: int)
    requires
        trims_to(s, t, i, j),
    ensures
        trimmed(s) == t,
{
    assert(is_trimmed(s, t));
    let u = trimmed(s);
    let (a, b) = choose|a: int, b: int| #[trigger] trims_to(s, u, a, b);
    if i < j {
        // Position i is not white, so it lies in [a, b), and neither range can
        // start or end inside the other.
        assert(a <= i && i < b);
        assert(!is_white(s[a]) && !is_white(s[b - 1]));
        assert(i <= a);
        assert(j - 1 < b);
        assert(b - 1 < j);
    } else {
        if a < b {
            assert(!is_white(s[a]));
        }
        assert(t =~= u);
    }
}

/// Every text can be trimmed.
proof fn lemma_can_trim(s: Seq<char>) -> (r: (int, int))
    ensures
        trims_to(s, s.subrange(r.0, r.1), r.0, r.1),
    decreases s.len(),
{
    if s.len() == 0 {
        (0, 0)
    } else if is_white(s[0]) {
        let rest = s.drop_first();
        let (i, j) = lemma_can_trim(rest);
        assert forall|k: int| 0 <= k < i + 1 implies is_white(#[trigger] s[k]) by {
            if k > 0 {
                assert(rest[k - 1] == s[k]);
            }
        }
        assert forall|k: int| j + 1 <= k < s.len() implies is_white(#[trigger] s[k]) by {
            assert(rest[k - 1] == s[k]);
        }
        (i + 1, j + 1)
    } else if is_white(s.last()) {
        let rest = s.drop_last();
        let (i, j) = lemma_can_trim(rest);
        assert forall|k: int| 0 <= k < i implies is_white(#[trigger] s[k]) by {
            assert(rest[k] == s[k]);
        }
        assert forall|k: int| j <= k < s.len() implies is_white(#[trigger] s[k]) by {
            if k < rest.len() {
                assert(rest[k] == s[k]);
            }
        }
        (i, j)
    } else {
        (0, s.len() as int)
    }
}

/// Trimming a trimmed text changes nothing.
pub proof fn law_trim_is_idempotent(s: Seq<char>)
    ensures
        trimmed(trimmed(s)) == trimmed(s),
{
    let (i, j) = lemma_can_trim(s);
    let t = s.subrange(i, j);
    lemma_trimmed_unique(s, t, i, j);
    assert(t.subrange(0, t.len() as int) =~= t);
    assert(trims_to(t, t, 0, t.len() as int));
    lemma_trimmed_unique(t, t, 0, t.len() as int);
}

/// The text without the white space at its two ends.
pub fn trim(text: &str) -> (r: String)
    ensures
        r@ == trimmed(text@),
        is_trimmed(text@, r@),
{
    let all = chars_of(text);
    let mut start: usize = 0;
    while start < all.len() && char_is_white(all[start])
        invariant
            start <= all@.len(),
            forall|k: int| 0 <= k < start ==> is_white(#[trigger] all@[k]),
        decreases all.len() - start,
    {
        start += 1;
    }
    let mut end: usize = all.len();
    while end > start && char_is_white(all[end - 1])
        invariant
            start <= end <= all@.len(),
            forall|k: int| end <= k < all@.len() ==> is_white(#[trigger] all@[k]),
        decreases end,
    {
        end -= 1;
    }
    let out = slice_of(all.as_slice(), start, end);
    proof {
        if start < end {
            assert(!is_white(all@[start as int]));
        }
        assert(trims_to(text@, out@, start as int, end as int));
        lemma_trimmed_unique(text@, out@, start as int, end as int);
    }
    text_of(out.as_slice())
}

// --- Decimal numbers ---

/// Whether the character is a digit from 0 to 9.
pub open spec fn is_digit(c: char) -> bool {
    '0' <= c <= '9'
}

/// Whether there are only digits.
pub open spec fn all_digits(s: Seq<char>) -> bool {
    forall|i: int| 0 <= i < s.len() ==> is_digit(#[trigger] s[i])
}

/// The number that a sequence of digits writes down.
pub open spec fn decimal_value(s: Seq<char>) -> int
    decreases s.len(),
{
    if s.len() == 0 {
        0
    } else {
        10 * decimal_value(s.drop_last()) + (s.last() as int - '0' as int)
    }
}

/// The digits of a number, without leading zeros.
pub open spec fn decimal_digits(n: nat) -> Seq<char>
    decreases n,
{
    let last = (('0' as int) + n % 10) as char;
    if n < 10 {
        seq![last]
    } else {
        decimal_digits(n / 10).push(last)
    }
}

/// The digits of a number write it down.
pub proof fn lemma_decimal_round_trip(n: nat)
    ensures
        all_digits(decimal_digits(n)),
        decimal_digits(n).len() > 0,
        decimal_value(decimal_digits(n)) == n,
    decreases n,
{
    reveal_with_fuel(decimal_value, 2);
    let d = decimal_digits(n);
    if n < 10 {
        assert(d.drop_last() =~= Seq::empty());
    } else {
        lemma_decimal_round_trip(n / 10);
        assert(d.drop_last() =~= decimal_digits(n / 10));
        assert forall|i: int| 0 <= i < d.len() implies is_digit(#[trigger] d[i]) by {
            if i < d.len() - 1 {
                assert(d[i] == decimal_digits(n / 10)[i]);
            }
        }
    }
}

/// Digits write down no negative number.
pub proof fn lemma_decimal_not_negative(s: Seq<char>)
    requires
        all_digits(s),
    ensures
        decimal_value(s) >= 0,
    decreases s.len(),
{
    if s.len() > 0 {
        lemma_decimal_not_negative(s.drop_last());
        assert(is_digit(s[s.len() - 1]));
    }
}

/// A prefix writes down no more than the whole.
proof fn lemma_decimal_grows(s: Seq<char>, i: int)
    requires
        all_digits(s),
        0 <= i <= s.len(),
    ensures
        0 <= decimal_value(s.take(i)) <= decimal_value(s),
    decreases s.len(),
{
    if i == s.len() {
        assert(s.take(i) =~= s);
        if s.len() > 0 {
            let f = s.drop_last();
            assert(all_digits(f)) by {
                assert forall|k: int| 0 <= k < f.len() implies is_digit(#[trigger] f[k]) by {
                    assert(f[k] == s[k]);
                }
            }
            lemma_decimal_grows(f, f.len() as int);
            assert(f.take(f.len() as int) =~= f);
            assert(is_digit(s[s.len() - 1]));
        }
    } else {
        let f = s.drop_last();
        assert(all_digits(f)) by {
            assert forall|k: int| 0 <= k < f.len() implies is_digit(#[trigger] f[k]) by {
                assert(f[k] == s[k]);
            }
        }
        lemma_decimal_grows(f, i);
        assert(f.take(i) =~= s.take(i));
        assert(is_digit(s[s.len() - 1]));
    }
}

/// The number written by the digits from position `from` on, if it fits.
pub fn parse_digits(chars: &[char], from: usize) -> (r: Option<u64>)
    requires
        from <= chars@.len(),
        all_digits(chars@.skip(from as int)),
    ensures
        r is Some <==> decimal_value(chars@.skip(from as int)) <= u64::MAX,
        r is Some ==> r->0 == decimal_value(chars@.skip(from as int)),
{
    let ghost digits = chars@.skip(from as int);
    let mut acc: u64 = 0;
    let mut i: usize = from;
    assert(digits.take(0) =~= Seq::empty());
    while i < chars.len()
        invariant
            from <= i <= chars@.len(),
            digits == chars@.skip(from as int),
            all_digits(digits),
            acc == decimal_value(digits.take(i - from)),
        decreases chars.len() - i,
    {
        let ghost k = i - from;
        proof {
            assert(digits[k] == chars@[i as int]);
            assert(is_digit(digits[k]));
            assert(digits.take(k + 1).drop_last() =~= digits.take(k));
            assert(digits.take(k + 1).last() == digits[k]);
            lemma_decimal_grows(digits, k + 1);
        }
        let digit: u64 = (chars[i] as u64) - ('0' as u64);
        if acc > (u64::MAX - digit) / 10 {
            return None;
        }
        acc = acc * 10 + digit;
        i += 1;
    }
    assert(digits.take(digits.len() as int) =~= digits);
    Some(acc)
}

/// Whether every character from position `from` on is a digit.
pub fn digits_from(chars: &[char], from: usize) -> (r: bool)
    requires
        from <= chars@.len(),
    ensures
        r == all_digits(chars@.skip(from as int)),
{
    let mut i: usize = from;
    while i < chars.len()
        invariant
            from <= i <= chars@.len(),
            forall|k: int| from <= k < i ==> is_digit(#[trigger] chars@[k]),
        decreases chars.len() - i,
    {
        if !('0' <= chars[i] && chars[i] <= '9') {
            assert(chars@.skip(from as int)[i - from] == chars@[i as int]);
            return false;
        }
        i += 1;
    }
    assert forall|k: int| 0 <= k < chars@.skip(from as int).len() implies is_digit(
        #[trigger] chars@.skip(from as int)[k],
    ) by {
        assert(chars@.skip(from as int)[k] == chars@[from + k]);
    }
    true
}

/// The number a text stands for: digits, with an optional plus sign before
/// them.
pub open spec fn unsigned_number(s: Seq<char>) -> Option<int> {
    let digits = if s.len() > 0 && s[0] == '+' {
        s.skip(1)
    } else {
        s
    };
    if digits.len() > 0 && all_digits(digits) {
        Some(decimal_value(digits))
    } else {
        None
    }
}

/// The number a text stands for, if it is one and fits.
pub fn parse_u64(text: &str) -> (r: Option<u64>)
    ensures
        r is Some <==> unsigned_number(text@) is Some && unsigned_number(text@)->0 <= u64::MAX,
        r is Some ==> r->0 == unsigned_number(text@)->0,
{
    let all = chars_of(text);
    let from: usize = if all.len() > 0 && all[0] == '+' {
        1
    } else {
        0
    };
    assert(all@.skip(0) =~= all@);
    if from == all.len() || !digits_from(all.as_slice(), from) {
        return None;
    }
    parse_digits(all.as_slice(), from)
}

/// The digits of a number, without leading zeros.
pub fn decimal_text(n: u64) -> (r: String)
    ensures
        r@ == decimal_digits(n as nat),
{
    let mut rest: u64 = n;
    let mut reversed: Vec<char> = Vec::new();
    let ghost goal = decimal_digits(n as nat);
    loop
        invariant_except_break
            decimal_digits(rest as nat) + reversed@.reverse() == goal,
        ensures
            reversed@.reverse() == goal,
        decreases rest,
    {
        let digit: u8 = (rest % 10) as u8;
        let c = (48u8 + digit) as char;
        let ghost before = reversed@;
        let ghost now = rest;
        reversed.push(c);
        proof {
            assert(reversed@.reverse() =~= seq![c] + before.reverse());
            if now < 10 {
                assert(decimal_digits(now as nat) + before.reverse() =~= reversed@.reverse());
            } else {
                assert(decimal_digits(now as nat) + before.reverse() =~= decimal_digits(
                    (now / 10) as nat,
                ) + reversed@.reverse());
            }
        }
        if rest < 10 {
            break;
        }
        rest = rest / 10;
    }
    let mut out = String::new();
    let mut i: usize = reversed.len();
    assert(out@ =~= goal.take(0));
    while i > 0
        invariant
            i <= reversed@.len(),
            reversed@.reverse() == goal,
            out@ == goal.take(reversed@.len() - i),
        decreases i,
    {
        i -= 1;
        out.push(reversed[i]);
        assert(goal[reversed@.len() - i - 1] == reversed@[i as int]);
        assert(goal.take(reversed@.len() - i) =~= goal.take(reversed@.len() - i - 1).push(
            reversed@[i as int],
        ));
    }
    assert(goal.take(reversed@.len() as int) =~= goal);
    out
}

/// White space before or after a text changes nothing that trimming leaves.
pub proof fn law_trim_ignores_white_around(s: Seq<char>, w: char)
    requires
        is_white(w),
    ensures
        trimmed(seq![w] + s) == trimmed(s),
        trimmed(s.push(w)) == trimmed(s),
{
    let (i, j) = lemma_can_trim(s);
    let t = s.subrange(i, j);
    let before = seq![w] + s;
    let after = s.push(w);
    lemma_trimmed_unique(s, t, i, j);
    assert(trims_to(before, t, i + 1, j + 1)) by {
        assert(before.subrange(i + 1, j + 1) =~= t);
        assert forall|k: int| 0 <= k < i + 1 implies is_white(#[trigger] before[k]) by {
            if k > 0 {
                assert(before[k] == s[k - 1]);
            }
        }
        assert forall|k: int| j + 1 <= k < before.len() implies is_white(#[trigger] before[k]) by {
            assert(before[k] == s[k - 1]);
        }
    }
    lemma_trimmed_unique(before, t, i + 1, j + 1);
    assert(trims_to(after, t, i, j)) by {
        assert(after.subrange(i, j) =~= t);
        assert forall|k: int| 0 <= k < i implies is_white(#[trigger] after[k]) by {
            assert(after[k] == s[k]);
        }
        assert forall|k: int| j <= k < after.len() implies is_white(#[trigger] after[k]) by {
            if k < s.len() {
                assert(after[k] == s[k]);
            }
        }
    }
    lemma_trimmed_unique(after, t, i, j);
}

/// A text that starts and ends with what is no white space is left as it is, and what
/// trimming leaves does so or is empty.
pub proof fn law_trim_leaves_no_white_at_the_ends(s: Seq<char>)
    ensures
        s.len() > 0 && !is_white(s[0]) && !is_white(s[s.len() - 1]) ==> trimmed(s) == s,
        trimmed(s).len() > 0 ==> !is_white(trimmed(s)[0]) && !is_white(
            trimmed(s)[trimmed(s).len() - 1],
        ),
        trimmed(s).len() == 0 <==> forall|k: int| 0 <= k < s.len() ==> is_white(#[trigger] s[k]),
{
    let (i, j) = lemma_can_trim(s);
    lemma_trimmed_unique(s, s.subrange(i, j), i, j);
    if s.len() > 0 && !is_white(s[0]) && !is_white(s[s.len() - 1]) {
        assert(s.subrange(0, s.len() as int) =~= s);
        lemma_trimmed_unique(s, s, 0, s.len() as int);
    }
    if i < j {
        assert(!is_white(s[i]));
    }
}

/// A text starts with a part exactly where the part and something more make the text,
/// and ends with one where something and the part do.
pub proof fn law_start_and_end_of_a_text(whole: Seq<char>, part: Seq<char>, rest: Seq<char>)
    ensures
        starts_with(part + rest, part),
        ends_with(rest + part, part),
        starts_with(whole, part) ==> whole == part + whole.skip(part.len() as int),
        ends_with(whole, part) ==> whole == whole.take(whole.len() - part.len()) + part,
{
    assert((part + rest).subrange(0, part.len() as int) =~= part);
    assert((rest + part).subrange(rest.len() as int, (rest + part).len() as int) =~= part);
    if starts_with(whole, part) {
        assert(whole =~= whole.subrange(0, part.len() as int) + whole.skip(part.len() as int));
    }
    if ends_with(whole, part) {
        let n = whole.len() - part.len();
        assert(whole =~= whole.take(n) + whole.subrange(n, whole.len() as int));
    }
}

/// The number that digits write down grows by tens: one more digit makes ten times the
/// number and the digit. An optional plus sign changes nothing.
pub proof fn law_digits_write_a_number(s: Seq<char>, c: char)
    requires
        all_digits(s),
        is_digit(c),
    ensures
        decimal_value(s.push(c)) == 10 * decimal_value(s) + (c as int - '0' as int),
        unsigned_number(s.push(c)) == Some(decimal_value(s.push(c))),
        unsigned_number(seq!['+'] + s.push(c)) == Some(decimal_value(s.push(c))),
{
    let t = s.push(c);
    assert(t.drop_last() =~= s);
    assert(all_digits(t)) by {
        assert forall|i: int| 0 <= i < t.len() implies is_digit(#[trigger] t[i]) by {
            if i < s.len() {
                assert(t[i] == s[i]);
            }
        }
    }
    assert(is_digit(t[0]));
    assert((seq!['+'] + t).skip(1) =~= t);
}

/// Trimming makes no text longer.
pub proof fn law_trim_shortens(s: Seq<char>)
    ensures
        trimmed(s).len() <= s.len(),
{
    let (i, j) = lemma_can_trim(s);
    lemma_trimmed_unique(s, s.subrange(i, j), i, j);
}

} // verus!
