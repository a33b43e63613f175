//! Text as a sequence of characters: trimming, case mapping, searching and
//! decimal numerals.

use vstd::prelude::*;
use vstd::string::*;

verus! {

// ---------------------------------------------------------------------------
// White space and trimming
// ---------------------------------------------------------------------------

/// The characters that have the Unicode property `White_Space`.
pub open spec fn is_white_space(c: char) -> bool {
    let n = c as u32;
    ||| 0x9 <= n <= 0xd
    ||| n == 0x20
    ||| n == 0x85
    ||| n == 0xa0
    ||| n == 0x1680
    ||| 0x2000 <= n <= 0x200a
    ||| 0x2028 <= n <= 0x2029
    ||| n == 0x202f
    ||| n == 0x205f
    ||| n == 0x3000
}

/// `char::is_whitespace` is true of the characters with the property
/// `White_Space` of the Unicode Character Database, which are listed in
/// `is_white_space`, and of no others.
pub assume_specification[ char::is_whitespace ](c: char) -> (res: bool)
    ensures
        res == is_white_space(c),
;

/// `String::push` appends the given character to the end of the string.
pub assume_specification[ String::push ](s: &mut String, c: char)
    ensures
        final(s)@ == old(s)@.push(c),
;

/// `s` without the white space that it begins with.
pub open spec fn trim_start(s: Seq<char>) -> Seq<char>
    decreases s.len(),
{
    if s.len() > 0 && is_white_space(s.first()) {
        trim_start(s.drop_first())
    } else {
        s
    }
}

/// `s` without the white space that it ends with.
pub open spec fn trim_end(s: Seq<char>) -> Seq<char>
    decreases s.len(),
{
    if s.len() > 0 && is_white_space(s.last()) {
        trim_end(s.drop_last())
    } else {
        s
    }
}

/// `s` without the white space at either end.
pub open spec fn trimmed(s: Seq<char>) -> Seq<char> {
    trim_end(trim_start(s))
}

/// Every character of `s` is white space.
pub open spec fn is_blank(s: Seq<char>) -> bool {
    forall|i: int| 0 <= i < s.len() ==> is_white_space(#[trigger] s[i])
}

/// `s` neither begins nor ends with white space.
pub open spec fn has_tight_ends(s: Seq<char>) -> bool {
    s.len() > 0 ==> !is_white_space(s.first()) && !is_white_space(s.last())
}

proof fn lemma_trim_start_skips_blank(w: Seq<char>, s: Seq<char>)
    requires
        is_blank(w),
    ensures
        trim_start(w + s) == trim_start(s),
    decreases w.len(),
{
    if w.len() > 0 {
        assert(is_white_space(w[0]));
        assert((w + s).drop_first() =~= w.drop_first() + s);
        assert(is_blank(w.drop_first())) by {
            assert forall|i: int| 0 <= i < w.drop_first().len() implies is_white_space(
                #[trigger] w.drop_first()[i],
            ) by {
                assert(w.drop_first()[i] == w[i + 1]);
            }
        }
        lemma_trim_start_skips_blank(w.drop_first(), s);
    } else {
        assert(w + s =~= s);
    }
}

proof fn lemma_trim_end_skips_blank(s: Seq<char>, w: Seq<char>)
    requires
        is_blank(w),
    ensures
        trim_end(s + w) == trim_end(s),
    decreases w.len(),
{
    if w.len() > 0 {
        assert(is_white_space(w[w.len() - 1]));
        assert((s + w).drop_last() =~= s + w.drop_last());
        lemma_trim_end_skips_blank(s, w.drop_last());
    } else {
        assert(s + w =~= s);
    }
}

/// What is trimmed off is white space, and what is left has tight ends.
pub proof fn lemma_trimmed_parts(s: Seq<char>) -> (ends: (int, int))
    ensures
        0 <= ends.0 <= ends.1 <= s.len(),
        trimmed(s) == s.subrange(ends.0, ends.1),
        is_blank(s.take(ends.0)),
        is_blank(s.skip(ends.1)),
        has_tight_ends(trimmed(s)),
{
    let from = lemma_trim_start_part(s);
    let rest = trim_start(s);
    let to = lemma_trim_end_part(rest);
    assert(trimmed(s) =~= s.subrange(from, from + to));
    assert(s.skip(from + to) =~= rest.skip(to));
    (from, from + to)
}

proof fn lemma_trim_start_part(s: Seq<char>) -> (from: int)
    ensures
        0 <= from <= s.len(),
        trim_start(s) == s.skip(from),
        is_blank(s.take(from)),
        trim_start(s).len() > 0 ==> !is_white_space(trim_start(s).first()),
    decreases s.len(),
{
    if s.len() > 0 && is_white_space(s.first()) {
        let k = lemma_trim_start_part(s.drop_first());
        assert(s.skip(k + 1) =~= s.drop_first().skip(k));
        assert forall|i: int| 0 <= i < k + 1 implies is_white_space(#[trigger] s.take(k + 1)[i]) by {
            if i > 0 {
                assert(s.drop_first().take(k)[i - 1] == s[i]);
            }
        }
        k + 1
    } else {
        assert(s.skip(0) =~= s);
        0
    }
}

proof fn lemma_trim_end_part(s: Seq<char>) -> (to: int)
    ensures
        0 <= to <= s.len(),
        trim_end(s) == s.take(to),
        is_blank(s.skip(to)),
        trim_end(s).len() > 0 ==> !is_white_space(trim_end(s).last()),
    decreases s.len(),
{
    if s.len() > 0 && is_white_space(s.last()) {
        let k = lemma_trim_end_part(s.drop_last());
        assert(s.take(k) =~= s.drop_last().take(k));
        assert forall|i: int| 0 <= i < s.skip(k).len() implies is_white_space(
            #[trigger] s.skip(k)[i],
        ) by {
            if i < s.len() - 1 - k {
                assert(s.drop_last().skip(k)[i] == s[k + i]);
            }
        }
        k
    } else {
        assert(s.take(s.len() as int) =~= s);
        s.len() as int
    }
}

/// A text with tight ends is what is left of it when white space is put around
/// it and trimmed off again.
pub proof fn lemma_trimmed_of_padded(before: Seq<char>, s: Seq<char>, after: Seq<char>)
    requires
        is_blank(before),
        is_blank(after),
        has_tight_ends(s),
    ensures
        trimmed(before + s + after) == s,
{
    assert(before + s + after =~= before + (s + after));
    lemma_trim_start_skips_blank(before, s + after);
    if s.len() > 0 {
        assert((s + after).first() == s.first());
        assert(trim_start(s + after) == s + after);
        lemma_trim_end_skips_blank(s, after);
    } else {
        assert(s + after =~= after + s);
        lemma_trim_start_skips_blank(after, s);
        assert(trimmed(before + s + after) =~= s);
    }
}

/// White space around a text is trimmed off with that of the text itself.
pub proof fn lemma_trimmed_ignores_padding(before: Seq<char>, s: Seq<char>, after: Seq<char>)
    requires
        is_blank(before),
        is_blank(after),
    ensures
        trimmed(before + s + after) == trimmed(s),
{
    let (from, to) = lemma_trimmed_parts(s);
    let left = before + s.take(from);
    let right = s.skip(to) + after;
    assert forall|i: int| 0 <= i < left.len() implies is_white_space(#[trigger] left[i]) by {
        if i >= before.len() {
            assert(left[i] == s.take(from)[i - before.len()]);
        }
    }
    assert forall|i: int| 0 <= i < right.len() implies is_white_space(#[trigger] right[i]) by {
        if i < s.skip(to).len() {
            assert(right[i] == s.skip(to)[i]);
        } else {
            assert(right[i] == after[i - s.skip(to).len()]);
        }
    }
    lemma_trimmed_of_padded(left, trimmed(s), right);
    assert(left + trimmed(s) + right =~= before + s + after);
}

/// Trimming a trimmed text changes nothing.
pub proof fn lemma_trimmed_idempotent(s: Seq<char>)
    ensures
        trimmed(trimmed(s)) == trimmed(s),
{
    lemma_trimmed_parts(s);
    lemma_trimmed_of_tight(trimmed(s));
}

/// Trimming a text with tight ends changes nothing.
pub proof fn lemma_trimmed_of_tight(s: Seq<char>)
    requires
        has_tight_ends(s),
    ensures
        trimmed(s) == s,
{
    lemma_trimmed_of_padded(Seq::empty(), s, Seq::empty());
    assert(Seq::<char>::empty() + s + Seq::<char>::empty() =~= s);
}

/// The characters of `s`.
pub fn chars_of(s: &str) -> (chars: Vec<char>)
    ensures
        chars@ == s@,
{
    let mut chars: Vec<char> = Vec::new();
    for c in it: s.chars()
        invariant
            chars@ == it.seq().take(it.index() as int),
            it.seq() == s@,
    {
        chars.push(c);
    }
    assert(s@.take(s@.len() as int) =~= s@);
    chars
}

/// The text made of `chars[from..to]`.
pub fn text_between(chars: &Vec<char>, from: usize, to: usize) -> (text: String)
    requires
        from <= to <= chars@.len(),
    ensures
        text@ == chars@.subrange(from as int, to as int),
{
    let mut text = String::new();
    let mut i: usize = from;
    while i < to
        invariant
            from <= i <= to <= chars@.len(),
            text@ == chars@.subrange(from as int, i as int),
        decreases to - i,
    {
        text.push(chars[i]);
        i += 1;
        assert(text@ =~= chars@.subrange(from as int, i as int));
    }
    text
}

/// `s` without the white space at either end.
pub fn trim(s: &str) -> (res: String)
    ensures
        res@ == trimmed(s@),
{
    let chars = chars_of(s);
    let mut from: usize = 0;
    while from < chars.len() && chars[from].is_whitespace()
        invariant
            from <= chars@.len(),
            is_blank(chars@.take(from as int)),
        ensures
            from <= chars@.len(),
            is_blank(chars@.take(from as int)),
            from < chars@.len() ==> !is_white_space(chars@[from as int]),
        decreases chars@.len() - from,
    {
        from += 1;
    }
    let mut to: usize = chars.len();
    while to > from && chars[to - 1].is_whitespace()
        invariant
            from <= to <= chars@.len(),
            is_blank(chars@.skip(to as int)),
        ensures
            from <= to <= chars@.len(),
            is_blank(chars@.skip(to as int)),
            from < to ==> !is_white_space(chars@[to - 1]),
        decreases to,
    {
        let ghost before = chars@.skip(to as int);
        to -= 1;
        assert forall|i: int| 0 <= i < chars@.skip(to as int).len() implies is_white_space(
            #[trigger] chars@.skip(to as int)[i],
        ) by {
            if i > 0 {
                assert(before[i - 1] == chars@[to + i]);
            }
        }
    }
    proof {
        let kept = chars@.subrange(from as int, to as int);
        lemma_trimmed_of_padded(chars@.take(from as int), kept, chars@.skip(to as int));
        assert(chars@.take(from as int) + kept + chars@.skip(to as int) =~= s@);
    }
    text_between(&chars, from, to)
}

// ---------------------------------------------------------------------------
// Upper case
// ---------------------------------------------------------------------------

/// The upper-case form of an ASCII character.
pub open spec fn ascii_upper(c: char) -> char {
    if 'a' <= c <= 'z' {
        (c as u32 - 32) as char
    } else {
        c
    }
}

/// What `char::to_uppercase` yields for a character outside ASCII: one or more
/// characters, as the Unicode Character Database maps it.
pub uninterp spec fn unicode_upper(c: char) -> Seq<char>;

/// The upper-case form of a character, which may be several characters long.
pub open spec fn upper_char(c: char) -> Seq<char> {
    if (c as u32) < 0x80 {
        seq![ascii_upper(c)]
    } else {
        unicode_upper(c)
    }
}

/// The upper-case form of a text: that of each of its characters, in order.
pub open spec fn upper(s: Seq<char>) -> Seq<char>
    decreases s.len(),
{
    if s.len() == 0 {
        s
    } else {
        upper(s.drop_last()) + upper_char(s.last())
    }
}

/// `char::to_uppercase` maps an ASCII letter from `a` to `z` to the capital
/// letter and leaves every other ASCII character as it is. What it yields for
/// any other character depends on that character alone; it is not stated here
/// beyond its name.
#[verifier::external_body]
fn char_to_uppercase(c: char) -> (res: String)
    ensures
        res@ == (if (c as u32) < 0x80 {
            seq![ascii_upper(c)]
        } else {
            unicode_upper(c)
        }),
{
    c.to_uppercase().collect()
}

/// The upper-case form of `s`.
pub fn to_uppercase(s: &str) -> (res: String)
    ensures
        res@ == upper(s@),
{
    let chars = chars_of(s);
    let mut res = String::new();
    let mut i: usize = 0;
    assert(s@.take(0) =~= Seq::<char>::empty());
    while i < chars.len()
        invariant
            i <= chars@.len(),
            chars@ == s@,
            res@ == upper(s@.take(i as int)),
        decreases chars@.len() - i,
    {
        let mapped = char_to_uppercase(chars[i]);
        res.append(mapped.as_str());
        assert(s@.take(i + 1).drop_last() =~= s@.take(i as int));
        i += 1;
    }
    assert(s@.take(i as int) =~= s@);
    res
}

/// The upper-case form of two texts put together is that of each, put together.
pub proof fn lemma_upper_of_concat(a: Seq<char>, b: Seq<char>)
    ensures
        upper(a + b) == upper(a) + upper(b),
    decreases b.len(),
{
    if b.len() == 0 {
        assert(a + b =~= a);
        assert(upper(a) + upper(b) =~= upper(a));
    } else {
        lemma_upper_of_concat(a, b.drop_last());
        assert((a + b).drop_last() =~= a + b.drop_last());
        assert(upper(a + b) =~= upper(a) + upper(b));
    }
}

/// The upper-case form of an ASCII text has the same length, and each character
/// of it is the upper-case form of the one in its place.
pub proof fn lemma_upper_of_ascii(s: Seq<char>)
    requires
        forall|i: int| 0 <= i < s.len() ==> (#[trigger] s[i] as u32) < 0x80,
    ensures
        upper(s) == s.map_values(|c: char| ascii_upper(c)),
    decreases s.len(),
{
    if s.len() > 0 {
        assert((s[s.len() - 1] as u32) < 0x80);
        lemma_upper_of_ascii(s.drop_last());
    }
    assert(upper(s) =~= s.map_values(|c: char| ascii_upper(c)));
}

// ---------------------------------------------------------------------------
// Searching and comparing
// ---------------------------------------------------------------------------

/// `t` stands in `s` with its first character at position `i`.
pub open spec fn occurs_at(s: Seq<char>, t: Seq<char>, i: int) -> bool {
    &&& 0 <= i
    &&& i + t.len() <= s.len()
    &&& s.subrange(i, i + t.len()) == t
}

/// `t` stands somewhere in `s`.
pub open spec fn contains_text(s: Seq<char>, t: Seq<char>) -> bool {
    exists|i: int| occurs_at(s, t, i)
}

/// `s` begins with `t`.
pub open spec fn begins_with(s: Seq<char>, t: Seq<char>) -> bool {
    occurs_at(s, t, 0)
}

/// Whether `t` stands in `s` at position `at`.
pub fn matches_at(s: &Vec<char>, t: &Vec<char>, at: usize) -> (res: bool)
    requires
        at <= s@.len(),
    ensures
        res == occurs_at(s@, t@, at as int),
{
    if t.len() > s.len() - at {
        return false;
    }
    let mut i: usize = 0;
    while i < t.len()
        invariant
            at + t@.len() <= s@.len() <= usize::MAX,
            i <= t@.len(),
            forall|k: int| 0 <= k < i ==> s@[at + k] == #[trigger] t@[k],
        decreases t@.len() - i,
    {
        if s[at + i] != t[i] {
            assert(s@.subrange(at as int, at + t@.len())[i as int] != t@[i as int]);
            return false;
        }
        i += 1;
    }
    assert(s@.subrange(at as int, at + t@.len()) =~= t@);
    true
}

/// Whether `t` stands somewhere in `s`.
pub fn contains(s: &str, t: &str) -> (res: bool)
    ensures
        res == contains_text(s@, t@),
{
    let text = chars_of(s);
    let pattern = chars_of(t);
    let mut at: usize = 0;
    while at < text.len()
        invariant
            text@ == s@,
            pattern@ == t@,
            at <= text@.len(),
            forall|k: int| 0 <= k < at ==> !occurs_at(s@, t@, k),
        decreases text@.len() - at,
    {
        if matches_at(&text, &pattern, at) {
            return true;
        }
        at += 1;
    }
    matches_at(&text, &pattern, at)
}

/// Whether `s` begins with `t`.
pub fn starts_with(s: &str, t: &str) -> (res: bool)
    ensures
        res == begins_with(s@, t@),
{
    matches_at(&chars_of(s), &chars_of(t), 0)
}

/// Whether two texts are equal.
pub fn same_text(a: &str, b: &str) -> (res: bool)
    ensures
        res == (a@ == b@),
{
    a.to_owned() == b.to_owned()
}

/// `s` without the run of `c` that it ends with.
pub open spec fn without_trailing(s: Seq<char>, c: char) -> Seq<char>
    decreases s.len(),
{
    if s.len() > 0 && s.last() == c {
        without_trailing(s.drop_last(), c)
    } else {
        s
    }
}

/// `s` without the run of `c` that it ends with.
pub fn trim_end_matches(s: &str, c: char) -> (res: String)
    ensures
        res@ == without_trailing(s@, c),
{
    let chars = chars_of(s);
    let mut to: usize = chars.len();
    assert(chars@.take(to as int) =~= chars@);
    while to > 0 && chars[to - 1] == c
        invariant
            to <= chars@.len(),
            without_trailing(chars@.take(to as int), c) == without_trailing(chars@, c),
        ensures
            to <= chars@.len(),
            without_trailing(chars@.take(to as int), c) == without_trailing(chars@, c),
            to > 0 ==> chars@[to - 1] != c,
        decreases to,
    {
        assert(chars@.take(to as int).drop_last() =~= chars@.take(to - 1));
        to -= 1;
    }
    assert(chars@.subrange(0, to as int) =~= chars@.take(to as int));
    text_between(&chars, 0, to)
}

// ---------------------------------------------------------------------------
// Decimal numerals
// ---------------------------------------------------------------------------

/// The character for a digit below ten.
pub open spec fn digit(d: nat) -> char {
    ('0' as u32 + d) as char
}

/// The decimal numeral of `n`, without leading zeros.
pub open spec fn decimal(n: nat) -> Seq<char>
    decreases n,
{
    if n < 10 {
        seq![digit(n)]
    } else {
        decimal(n / 10).push(digit(n % 10))
    }
}

/// The decimal numeral of `n`, with a minus sign before it if `n` is negative.
pub open spec fn signed_decimal(n: int) -> Seq<char> {
    if n < 0 {
        seq!['-'] + decimal((-n) as nat)
    } else {
        decimal(n as nat)
    }
}

fn push_decimal(out: &mut String, n: u32)
    ensures
        final(out)@ == old(out)@ + decimal(n as nat),
    decreases n,
{
    if n >= 10 {
        push_decimal(out, n / 10);
    }
    let d: u8 = (n % 10) as u8;
    out.push((48u8 + d) as char);
    assert(out@ =~= old(out)@ + decimal(n as nat));
}

/// The decimal numeral of `n`.
pub fn number_text(n: i32) -> (res: String)
    ensures
        res@ == signed_decimal(n as int),
{
    let mut res = String::new();
    if n < 0 {
        res.push('-');
        push_decimal(&mut res, (0 - n as i64) as u32);
    } else {
        push_decimal(&mut res, n as u32);
    }
    assert(res@ =~= signed_decimal(n as int));
    res
}

// ---------------------------------------------------------------------------
// Laws
// ---------------------------------------------------------------------------

/// Of the ASCII characters, white space is the space and those from the tab to the
/// carriage return.
pub proof fn law_ascii_white_space(c: char)
    requires
        (c as u32) < 0x80,
    ensures
        is_white_space(c) <==> c == ' ' || c == '\t' || c == '\n' || c == '\r' || c as u32 == 0xb
            || c as u32 == 0xc,
{
}

/// Trimming takes off white space, all of it at either end, and nothing else: what
/// is left is the stretch between two positions, before and after which there is
/// only white space, and it begins and ends with something else, or is empty.
pub proof fn law_trimming(s: Seq<char>) -> (ends: (int, int))
    ensures
        0 <= ends.0 <= ends.1 <= s.len(),
        trimmed(s) == s.subrange(ends.0, ends.1),
        forall|i: int| 0 <= i < ends.0 ==> is_white_space(#[trigger] s[i]),
        forall|i: int| ends.1 <= i < s.len() ==> is_white_space(#[trigger] s[i]),
        ends.0 < ends.1 ==> !is_white_space(s[ends.0]) && !is_white_space(s[ends.1 - 1]),
{
    let (from, to) = lemma_trimmed_parts(s);
    assert forall|i: int| 0 <= i < from implies is_white_space(#[trigger] s[i]) by {
        assert(s.take(from)[i] == s[i]);
    }
    assert forall|i: int| to <= i < s.len() implies is_white_space(#[trigger] s[i]) by {
        assert(s.skip(to)[i - to] == s[i]);
    }
    if from < to {
        assert(trimmed(s).first() == s[from]);
        assert(trimmed(s).last() == s[to - 1]);
    }
    (from, to)
}

/// The small letters of ASCII become the capital letters thirty-two places before
/// them, and every other ASCII character stays.
pub proof fn law_upper_of_one(c: char)
    ensures
        'a' <= c <= 'z' ==> upper(seq![c]).len() == 1 && upper(seq![c])[0] as int == c as int - 32,
        (c as u32) < 0x80 && !('a' <= c <= 'z') ==> upper(seq![c]) == seq![c],
        (c as u32) >= 0x80 ==> upper(seq![c]) == unicode_upper(c),
{
    assert(seq![c].drop_last() =~= Seq::empty());
    assert(upper(seq![c].drop_last()) =~= Seq::empty());
    assert(upper(seq![c]) =~= upper_char(c));
}

/// The upper-case form is made up character by character, and that of nothing is
/// nothing.
pub proof fn law_upper_character_by_character(s: Seq<char>, c: char)
    ensures
        upper(Seq::empty()) == Seq::<char>::empty(),
        upper(s.push(c)) == upper(s) + upper(seq![c]),
{
    assert(s.push(c) =~= s + seq![c]);
    lemma_upper_of_concat(s, seq![c]);
}

/// A text stands in another if and only if the other is something, then it, then
/// something.
pub proof fn law_containing(s: Seq<char>, t: Seq<char>)
    ensures
        contains_text(s, t) <==> exists|a: Seq<char>, b: Seq<char>| s == #[trigger] (a + t + b),
{
    if contains_text(s, t) {
        let i = choose|i: int| occurs_at(s, t, i);
        assert(s =~= s.take(i) + t + s.skip(i + t.len())) by {
            assert(s.subrange(i, i + t.len()) == t);
            assert forall|k: int| 0 <= k < t.len() implies s[i + k] == t[k] by {
                assert(s.subrange(i, i + t.len())[k] == t[k]);
            }
        }
    }
    if exists|a: Seq<char>, b: Seq<char>| s == #[trigger] (a + t + b) {
        let (a, b) = choose|a: Seq<char>, b: Seq<char>| s == #[trigger] (a + t + b);
        assert(s.subrange(a.len() as int, (a.len() + t.len()) as int) =~= t);
        assert(occurs_at(s, t, a.len() as int));
    }
}

/// A text begins with another if and only if it is the other, then something.
pub proof fn law_beginning(s: Seq<char>, t: Seq<char>)
    ensures
        begins_with(s, t) <==> exists|b: Seq<char>| s == #[trigger] (t + b),
{
    if begins_with(s, t) {
        assert forall|k: int| 0 <= k < t.len() implies s[k] == t[k] by {
            assert(s.subrange(0, t.len() as int)[k] == t[k]);
        }
        assert(s =~= t + s.skip(t.len() as int));
    }
    if exists|b: Seq<char>| s == #[trigger] (t + b) {
        let b = choose|b: Seq<char>| s == #[trigger] (t + b);
        assert(s.subrange(0, t.len() as int) =~= t);
    }
}

/// Taking a trailing character off takes off only that character, and all of it at
/// the end.
pub proof fn law_trailing_run(s: Seq<char>, c: char)
    ensures
        without_trailing(s, c).len() <= s.len(),
        without_trailing(s, c) == s.take(without_trailing(s, c).len() as int),
        forall|i: int| without_trailing(s, c).len() <= i < s.len() ==> #[trigger] s[i] == c,
        without_trailing(s, c).len() > 0 ==> without_trailing(s, c).last() != c,
    decreases s.len(),
{
    if s.len() > 0 && s.last() == c {
        let init = s.drop_last();
        law_trailing_run(init, c);
        let len = without_trailing(s, c).len() as int;
        assert(init.take(len) =~= s.take(len));
        assert forall|i: int| len <= i < s.len() implies #[trigger] s[i] == c by {
            if i < init.len() {
                assert(init[i] == s[i]);
            }
        }
    } else {
        assert(s.take(s.len() as int) =~= s);
    }
}

/// The number that digits stand for.
pub open spec fn number_of(digits: Seq<char>) -> int
    decreases digits.len(),
{
    if digits.len() == 0 {
        0
    } else {
        10 * number_of(digits.drop_last()) + (digits.last() as int - '0' as int)
    }
}

/// A decimal numeral is made of digits, stands for its number and has no needless
/// zero in front; a negative number has a minus sign before the numeral of its
/// opposite.
pub proof fn law_decimal_numerals(n: nat)
    ensures
        number_of(decimal(n)) == n,
        decimal(n).len() > 0,
        forall|i: int| 0 <= i < decimal(n).len() ==> '0' <= #[trigger] decimal(n)[i] <= '9',
        decimal(n).len() > 1 ==> decimal(n)[0] != '0',
        signed_decimal(n as int) == decimal(n),
        n > 0 ==> signed_decimal(-(n as int)) == seq!['-'] + decimal(n),
    decreases n,
{
    if n < 10 {
        assert(decimal(n).drop_last() =~= Seq::empty());
        assert(number_of(decimal(n).drop_last()) == 0);
    } else {
        law_decimal_numerals(n / 10);
        assert(decimal(n).drop_last() =~= decimal(n / 10));
        if decimal(n / 10).len() == 1 {
            assert(decimal(n / 10).drop_last() =~= Seq::empty());
            assert(number_of(decimal(n / 10).drop_last()) == 0);
        }
    }
}

} // verus!
