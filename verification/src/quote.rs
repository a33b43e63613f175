//! String literals in SQL text: which characters stand inside single or double
//! quotes.

use vstd::prelude::*;

verus! {

/// Where a scan of SQL text stands: outside any literal, or inside one that
/// was opened with a single or a double quote.
#[derive(Clone, Copy, Debug, PartialEq, Eq, Structural)]
pub enum Quote {
    Outside,
    Single,
    Double,
}

impl Quote {
    /// Where the scan stands once it has passed `c`. A literal ends with the
    /// quote that it began with; the other quote is an ordinary character in it.
    pub open spec fn passing(self, c: char) -> Quote {
        match self {
            Quote::Outside => if c == '\'' {
                Quote::Single
            } else if c == '"' {
                Quote::Double
            } else {
                Quote::Outside
            },
            Quote::Single => if c == '\'' {
                Quote::Outside
            } else {
                Quote::Single
            },
            Quote::Double => if c == '"' {
                Quote::Outside
            } else {
                Quote::Double
            },
        }
    }

    /// Where the scan stands once it has passed `c`.
    pub fn advance(self, c: char) -> (next: Quote)
        ensures
            next == self.passing(c),
    {
        match self {
            Quote::Outside => if c == '\'' {
                Quote::Single
            } else if c == '"' {
                Quote::Double
            } else {
                Quote::Outside
            },
            Quote::Single => if c == '\'' {
                Quote::Outside
            } else {
                Quote::Single
            },
            Quote::Double => if c == '"' {
                Quote::Outside
            } else {
                Quote::Double
            },
        }
    }
}

/// Where a scan that began at `start` stands once it has passed all of `s`.
pub open spec fn quote_from(start: Quote, s: Seq<char>) -> Quote
    decreases s.len(),
{
    if s.len() == 0 {
        start
    } else {
        quote_from(start, s.drop_last()).passing(s.last())
    }
}

/// Where a scan of `s` from its beginning stands at its end.
pub open spec fn quote_after(s: Seq<char>) -> Quote {
    quote_from(Quote::Outside, s)
}

/// The character at position `i` stands outside every literal.
pub open spec fn is_outside(s: Seq<char>, i: int) -> bool {
    quote_after(s.take(i)) == Quote::Outside
}

/// The character at position `i` belongs to a literal, its quotes included.
pub open spec fn in_literal(s: Seq<char>, i: int) -> bool {
    !is_outside(s, i) || s[i] == '\'' || s[i] == '"'
}

/// `s` with a space in place of every character of a literal.
pub open spec fn without_literals(s: Seq<char>) -> Seq<char> {
    Seq::new(
        s.len(),
        |i: int|
            if in_literal(s, i) {
                ' '
            } else {
                s[i]
            },
    )
}

/// A scan of two texts put together goes on in the second from where it stood
/// at the end of the first.
pub proof fn lemma_quote_of_concat(start: Quote, a: Seq<char>, b: Seq<char>)
    ensures
        quote_from(start, a + b) == quote_from(quote_from(start, a), b),
    decreases b.len(),
{
    if b.len() == 0 {
        assert(a + b =~= a);
    } else {
        lemma_quote_of_concat(start, a, b.drop_last());
        assert((a + b).drop_last() =~= a + b.drop_last());
    }
}

/// One character more.
pub proof fn lemma_quote_of_push(start: Quote, s: Seq<char>, c: char)
    ensures
        quote_from(start, s.push(c)) == quote_from(start, s).passing(c),
{
    assert(s.push(c).drop_last() =~= s);
}

/// The literal that `content` makes between two quotes `q`.
pub open spec fn literal(q: char, content: Seq<char>) -> Seq<char> {
    seq![q] + content + seq![q]
}

/// A text that does not hold `q` does not end a literal that was opened with it.
proof fn lemma_content_stays_inside(q: char, content: Seq<char>)
    requires
        q == '\'' || q == '"',
        !content.contains(q),
    ensures
        quote_from(Quote::Outside.passing(q), content) == Quote::Outside.passing(q),
    decreases content.len(),
{
    if content.len() > 0 {
        let init = content.drop_last();
        assert(content[content.len() - 1] != q);
        assert forall|i: int| 0 <= i < init.len() implies init[i] != q by {
            assert(init[i] == content[i]);
        }
        lemma_content_stays_inside(q, init);
    }
}

/// Everything from an opening quote on is part of the literal, as long as that
/// quote does not come again.
pub proof fn lemma_open_literal_is_blanked(q: char, content: Seq<char>)
    requires
        q == '\'' || q == '"',
        !content.contains(q),
    ensures
        without_literals(seq![q] + content) == Seq::new(content.len() + 1, |i: int| ' '),
        quote_after(seq![q] + content) == Quote::Outside.passing(q),
{
    let s = seq![q] + content;
    assert(seq![q].drop_last() =~= Seq::empty());
    assert(quote_from(Quote::Outside, seq![q].drop_last()) == Quote::Outside);
    assert(quote_after(seq![q]) == Quote::Outside.passing(q));
    lemma_quote_of_concat(Quote::Outside, seq![q], content);
    lemma_content_stays_inside(q, content);
    assert forall|i: int| 0 <= i < s.len() implies in_literal(s, i) by {
        if i > 0 {
            let part = content.take(i - 1);
            assert forall|k: int| 0 <= k < part.len() implies part[k] != q by {
                assert(part[k] == content[k]);
            }
            lemma_content_stays_inside(q, part);
            lemma_quote_of_concat(Quote::Outside, seq![q], part);
            assert(s.take(i) =~= seq![q] + part);
        }
    }
    assert(without_literals(s) =~= Seq::new(content.len() + 1, |i: int| ' '));
}

/// A literal is blanked out whole, and a scan stands outside after it.
pub proof fn lemma_literal_is_blanked(q: char, content: Seq<char>)
    requires
        q == '\'' || q == '"',
        !content.contains(q),
    ensures
        without_literals(literal(q, content)) == Seq::new(content.len() + 2, |i: int| ' '),
        quote_after(literal(q, content)) == Quote::Outside,
{
    let open = seq![q] + content;
    let whole = literal(q, content);
    lemma_open_literal_is_blanked(q, content);
    assert(whole =~= open.push(q));
    lemma_quote_of_push(Quote::Outside, open, q);
    assert forall|i: int| 0 <= i < whole.len() implies in_literal(whole, i) by {
        if i < open.len() {
            assert(without_literals(open)[i] == ' ');
            assert(whole.take(i) =~= open.take(i));
            if i > 0 {
                let part = content.take(i - 1);
                assert forall|k: int| 0 <= k < part.len() implies part[k] != q by {
                    assert(part[k] == content[k]);
                }
                lemma_open_literal_is_blanked(q, part);
                assert(whole.take(i) =~= seq![q] + part);
            }
        }
    }
    assert(without_literals(whole) =~= Seq::new(content.len() + 2, |i: int| ' '));
}

/// Where a text ends outside quotes, what follows it is blanked out on its own.
pub proof fn lemma_blanking_of_concat(a: Seq<char>, b: Seq<char>)
    requires
        quote_after(a) == Quote::Outside,
    ensures
        without_literals(a + b) == without_literals(a) + without_literals(b),
        quote_after(a + b) == quote_after(b),
{
    lemma_quote_of_concat(Quote::Outside, a, b);
    let whole = without_literals(a + b);
    let parts = without_literals(a) + without_literals(b);
    assert forall|i: int| 0 <= i < whole.len() implies whole[i] == parts[i] by {
        if i < a.len() {
            assert((a + b).take(i) =~= a.take(i));
        } else {
            let j = i - a.len();
            lemma_quote_of_concat(Quote::Outside, a, b.take(j));
            assert((a + b).take(i) =~= a + b.take(j));
        }
    }
    assert(whole =~= parts);
}

/// Text without quotes leaves the scan where it stood.
pub proof fn lemma_quote_of_quoteless(start: Quote, s: Seq<char>)
    requires
        forall|i: int| 0 <= i < s.len() ==> #[trigger] s[i] != '\'' && s[i] != '"',
    ensures
        quote_from(start, s) == start,
    decreases s.len(),
{
    if s.len() > 0 {
        assert(s[s.len() - 1] != '\'');
        lemma_quote_of_quoteless(start, s.drop_last());
    }
}

// ---------------------------------------------------------------------------
// Laws
// ---------------------------------------------------------------------------

/// A quote of either kind opens a literal, the same quote closes it, and nothing
/// else does either.
pub proof fn law_quotes_open_and_close(c: char)
    ensures
        Quote::Outside.passing('\'') == Quote::Single,
        Quote::Outside.passing('"') == Quote::Double,
        c != '\'' && c != '"' ==> Quote::Outside.passing(c) == Quote::Outside,
        Quote::Single.passing('\'') == Quote::Outside,
        c != '\'' ==> Quote::Single.passing(c) == Quote::Single,
        Quote::Double.passing('"') == Quote::Outside,
        c != '"' ==> Quote::Double.passing(c) == Quote::Double,
{
}

/// The number of times that `c` stands in `s`.
pub open spec fn count(s: Seq<char>, c: char) -> nat
    decreases s.len(),
{
    if s.len() == 0 {
        0
    } else {
        count(s.drop_last(), c) + if s.last() == c {
            1nat
        } else {
            0nat
        }
    }
}

/// Where only one kind of quote is used, a text ends outside literals exactly if it
/// holds an even number of quotes.
pub proof fn law_quotes_come_in_pairs(s: Seq<char>)
    ensures
        !s.contains('"') ==> (quote_after(s) == Quote::Outside <==> count(s, '\'') % 2 == 0),
        !s.contains('\'') ==> (quote_after(s) == Quote::Outside <==> count(s, '"') % 2 == 0),
    decreases s.len(),
{
    lemma_one_kind_of_quote(s);
}

proof fn lemma_one_kind_of_quote(s: Seq<char>)
    ensures
        !s.contains('"') ==> quote_after(s) == (if count(s, '\'') % 2 == 0 {
            Quote::Outside
        } else {
            Quote::Single
        }),
        !s.contains('\'') ==> quote_after(s) == (if count(s, '"') % 2 == 0 {
            Quote::Outside
        } else {
            Quote::Double
        }),
    decreases s.len(),
{
    if s.len() > 0 {
        let init = s.drop_last();
        lemma_one_kind_of_quote(init);
        assert(s[s.len() - 1] == s.last());
        if !s.contains('"') {
            assert forall|i: int| 0 <= i < init.len() implies init[i] != '"' by {
                assert(init[i] == s[i]);
            }
            assert(!init.contains('"'));
        }
        if !s.contains('\'') {
            assert forall|i: int| 0 <= i < init.len() implies init[i] != '\'' by {
                assert(init[i] == s[i]);
            }
            assert(!init.contains('\''));
        }
    }
}

/// Where a character stands is decided by what comes before it, whatever follows.
pub proof fn law_what_follows_does_not_matter(before: Seq<char>, after: Seq<char>)
    ensures
        is_outside(before + after, before.len() as int) <==> quote_after(before) == Quote::Outside,
{
    assert((before + after).take(before.len() as int) =~= before);
}

/// Text without quotes is left as it is when literals are blanked out.
pub proof fn law_unquoted_text_is_kept(s: Seq<char>)
    requires
        !s.contains('\''),
        !s.contains('"'),
    ensures
        without_literals(s) == s,
{
    assert forall|i: int| 0 <= i < s.len() implies without_literals(s)[i] == s[i] by {
        assert(s.contains(s[i]));
        let before = s.take(i);
        assert forall|k: int| 0 <= k < before.len() implies #[trigger] before[k] != '\''
            && before[k] != '"' by {
            assert(before[k] == s[k]);
            assert(s.contains(s[k]));
        }
        lemma_quote_of_quoteless(Quote::Outside, before);
    }
    assert(without_literals(s) =~= s);
}

/// Blanking out keeps every character in its place: each stays as it is or becomes
/// a space, and it becomes one exactly if it is a quote or stands inside quotes.
pub proof fn law_literals_become_spaces(before: Seq<char>, c: char, after: Seq<char>)
    ensures
        without_literals(before + seq![c] + after).len() == before.len() + 1 + after.len(),
        without_literals(before + seq![c] + after)[before.len() as int] == (if c == '\'' || c
            == '"' || quote_after(before) != Quote::Outside {
            ' '
        } else {
            c
        }),
{
    let whole = before + seq![c] + after;
    assert(whole.take(before.len() as int) =~= before);
    assert(whole[before.len() as int] == c);
}

} // verus!
