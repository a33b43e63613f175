//! Cutting submitted SQL text into statements.

use vstd::prelude::*;

use crate::quote;
use crate::quote::Quote;
use crate::text;

verus! {

/// A semicolon outside every literal stands at position `i`.
pub open spec fn is_separator(sql: Seq<char>, i: int) -> bool {
    sql[i] == ';' && quote::is_outside(sql, i)
}

/// The positions of `sql`, in order.
pub open spec fn positions(sql: Seq<char>) -> Seq<int> {
    Seq::new(sql.len(), |i: int| i)
}

/// The positions of the separators of `sql`, in order.
pub open spec fn cuts(sql: Seq<char>) -> Seq<int> {
    positions(sql).filter(|i: int| is_separator(sql, i))
}

/// The stretches of text between the separators of `sql`, before the first
/// and after the last.
pub open spec fn pieces(sql: Seq<char>) -> Seq<Seq<char>> {
    let at = cuts(sql);
    Seq::new(
        at.len() + 1,
        |k: int|
            sql.subrange(
                if k == 0 {
                    0
                } else {
                    at[k - 1] + 1
                },
                if k == at.len() {
                    sql.len() as int
                } else {
                    at[k]
                },
            ),
    )
}

/// The pieces among `parts` that hold more than white space, trimmed.
pub open spec fn kept(parts: Seq<Seq<char>>) -> Seq<Seq<char>> {
    parts.map_values(|p: Seq<char>| text::trimmed(p)).filter(|t: Seq<char>| t.len() > 0)
}

/// The statements of `sql`: what stands between its separators, trimmed,
/// where anything is left.
pub open spec fn statements(sql: Seq<char>) -> Seq<Seq<char>> {
    kept(pieces(sql))
}

proof fn lemma_filter_agrees<A>(s: Seq<A>, p: spec_fn(A) -> bool, q: spec_fn(A) -> bool)
    requires
        forall|i: int| 0 <= i < s.len() ==> p(#[trigger] s[i]) == q(s[i]),
    ensures
        s.filter(p) == s.filter(q),
    decreases s.len(),
{
    reveal(Seq::filter);
    if s.len() > 0 {
        assert(p(s[s.len() - 1]) == q(s[s.len() - 1]));
        lemma_filter_agrees(s.drop_last(), p, q);
    }
}

/// What one character more does to the cuts.
proof fn lemma_cuts_of_push(sql: Seq<char>, c: char)
    ensures
        cuts(sql.push(c)) == (if c == ';' && quote::quote_after(sql) == Quote::Outside {
            cuts(sql).push(sql.len() as int)
        } else {
            cuts(sql)
        }),
{
    reveal(Seq::filter);
    let more = sql.push(c);
    let p = |i: int| is_separator(sql, i);
    let q = |i: int| is_separator(more, i);
    assert(positions(more).drop_last() =~= positions(sql));
    assert forall|i: int| 0 <= i < positions(sql).len() implies p(#[trigger] positions(sql)[i])
        == q(positions(sql)[i]) by {
        assert(more.take(i) =~= sql.take(i));
    }
    lemma_filter_agrees(positions(sql), p, q);
    assert(more.take(sql.len() as int) =~= sql);
    assert(positions(more).last() == sql.len());
}

/// The cuts lie within the text, each before the next.
proof fn lemma_cuts_ordered(sql: Seq<char>)
    ensures
        forall|k: int| 0 <= k < cuts(sql).len() ==> 0 <= #[trigger] cuts(sql)[k] < sql.len(),
        forall|j: int, k: int|
            0 <= j < k < cuts(sql).len() ==> #[trigger] cuts(sql)[j] < #[trigger] cuts(sql)[k],
    decreases sql.len(),
{
    if sql.len() > 0 {
        lemma_cuts_ordered(sql.drop_last());
        lemma_cuts_of_push(sql.drop_last(), sql.last());
        assert(sql.drop_last().push(sql.last()) =~= sql);
    } else {
        reveal(Seq::filter);
    }
}

/// What one character more does to the pieces: a separator opens a new one,
/// and any other character goes to the end of the last.
proof fn lemma_pieces_of_push(sql: Seq<char>, c: char)
    ensures
        pieces(sql).len() > 0,
        pieces(sql.push(c)) == (if c == ';' && quote::quote_after(sql) == Quote::Outside {
            pieces(sql).push(Seq::empty())
        } else {
            pieces(sql).drop_last().push(pieces(sql).last().push(c))
        }),
{
    let more = sql.push(c);
    lemma_cuts_of_push(sql, c);
    lemma_cuts_ordered(sql);
    let at = cuts(sql);
    if c == ';' && quote::quote_after(sql) == Quote::Outside {
        let expected = pieces(sql).push(Seq::empty());
        assert(pieces(more).len() == expected.len());
        assert forall|k: int| 0 <= k < expected.len() implies pieces(more)[k] == expected[k] by {
            assert(pieces(more)[k] =~= expected[k]);
        }
        assert(pieces(more) =~= expected);
    } else {
        let expected = pieces(sql).drop_last().push(pieces(sql).last().push(c));
        assert forall|k: int| 0 <= k < expected.len() implies pieces(more)[k] == expected[k] by {
            assert(pieces(more)[k] =~= expected[k]);
        }
        assert(pieces(more) =~= expected);
    }
}

proof fn lemma_pieces_of_empty()
    ensures
        pieces(Seq::empty()) == seq![Seq::<char>::empty()],
{
    reveal(Seq::filter);
    assert(pieces(Seq::empty())[0] =~= Seq::<char>::empty());
    assert(pieces(Seq::empty()) =~= seq![Seq::<char>::empty()]);
}

proof fn lemma_kept_of_concat(a: Seq<Seq<char>>, b: Seq<Seq<char>>)
    ensures
        kept(a + b) == kept(a) + kept(b),
{
    let trimming = |p: Seq<char>| text::trimmed(p);
    assert((a + b).map_values(trimming) =~= a.map_values(trimming) + b.map_values(trimming));
    Seq::filter_distributes_over_add(
        a.map_values(trimming),
        b.map_values(trimming),
        |t: Seq<char>| t.len() > 0,
    );
}

proof fn lemma_kept_of_one(p: Seq<char>)
    ensures
        kept(seq![p]) == (if text::trimmed(p).len() > 0 {
            seq![text::trimmed(p)]
        } else {
            Seq::empty()
        }),
{
    reveal(Seq::filter);
    let one = seq![p].map_values(|p: Seq<char>| text::trimmed(p));
    assert(one =~= seq![text::trimmed(p)]);
    assert(one.drop_last() =~= Seq::empty());
    assert(one.drop_last().filter(|t: Seq<char>| t.len() > 0) =~= Seq::empty());
    assert(kept(seq![p]) =~= (if text::trimmed(p).len() > 0 {
        seq![text::trimmed(p)]
    } else {
        Seq::empty()
    }));
}

/// Adds a piece to a list of statements, trimmed, unless it is blank.
fn push_statement(found: &mut Vec<String>, piece: &String)
    ensures
        final(found).deep_view() == old(found).deep_view() + kept(seq![piece@]),
{
    let statement = text::trim(piece.as_str());
    proof {
        lemma_kept_of_one(piece@);
    }
    if !statement.as_str().is_empty() {
        found.push(statement);
    }
    assert(found.deep_view() =~= old(found).deep_view() + kept(seq![piece@]));
}

/// Cuts `sql` at the semicolons that stand outside single and double quotes.
/// What stands between them is trimmed, and dropped if nothing is left.
pub fn parse_sql_statements(sql: &str) -> (found: Vec<String>)
    ensures
        found.deep_view() == statements(sql@),
{
    let chars = text::chars_of(sql);
    let mut found: Vec<String> = Vec::new();
    let mut current = String::new();
    let mut state = Quote::Outside;
    let mut i: usize = 0;
    proof {
        reveal(Seq::filter);
        lemma_pieces_of_empty();
        assert(sql@.take(0) =~= Seq::empty());
        assert(pieces(sql@.take(0)).drop_last() =~= Seq::empty());
        assert(found.deep_view() =~= kept(Seq::empty()));
    }
    while i < chars.len()
        invariant
            chars@ == sql@,
            i <= chars@.len(),
            state == quote::quote_after(sql@.take(i as int)),
            pieces(sql@.take(i as int)).len() > 0,
            current@ == pieces(sql@.take(i as int)).last(),
            found.deep_view() == kept(pieces(sql@.take(i as int)).drop_last()),
        decreases chars@.len() - i,
    {
        let c = chars[i];
        let ghost seen = sql@.take(i as int);
        proof {
            assert(sql@.take(i + 1) =~= seen.push(c));
            lemma_pieces_of_push(seen, c);
            quote::lemma_quote_of_push(Quote::Outside, seen, c);
        }
        if c == ';' && state == Quote::Outside {
            push_statement(&mut found, &current);
            current = String::new();
            proof {
                let before = pieces(seen);
                lemma_kept_of_concat(before.drop_last(), seq![before.last()]);
                assert(before.drop_last() + seq![before.last()] =~= before);
                assert(pieces(sql@.take(i + 1)).drop_last() =~= before);
            }
        } else {
            current.push(c);
            assert(pieces(sql@.take(i + 1)).drop_last() =~= pieces(seen).drop_last());
        }
        state = state.advance(c);
        i += 1;
    }
    push_statement(&mut found, &current);
    proof {
        let all = pieces(sql@);
        assert(sql@.take(i as int) =~= sql@);
        lemma_kept_of_concat(all.drop_last(), seq![all.last()]);
        assert(all.drop_last() + seq![all.last()] =~= all);
    }
    found
}

// ---------------------------------------------------------------------------
// Laws
// ---------------------------------------------------------------------------

proof fn lemma_pieces_of_join(a: Seq<char>, b: Seq<char>)
    requires
        quote::quote_after(a) == Quote::Outside,
    ensures
        pieces(a.push(';') + b) == pieces(a) + pieces(b),
        quote::quote_after(a.push(';') + b) == quote::quote_after(b),
    decreases b.len(),
{
    quote::lemma_quote_of_push(Quote::Outside, a, ';');
    quote::lemma_quote_of_concat(Quote::Outside, a.push(';'), b);
    if b.len() == 0 {
        lemma_pieces_of_push(a, ';');
        lemma_pieces_of_empty();
        assert(b =~= Seq::empty());
        assert(a.push(';') + b =~= a.push(';'));
        assert(pieces(a.push(';') + b) =~= pieces(a) + pieces(b));
    } else {
        let init = b.drop_last();
        lemma_pieces_of_join(a, init);
        lemma_pieces_of_push(a.push(';') + init, b.last());
        lemma_pieces_of_push(init, b.last());
        assert(init.push(b.last()) =~= b);
        assert((a.push(';') + init).push(b.last()) =~= a.push(';') + b);
        assert(pieces(a.push(';') + b) =~= pieces(a) + pieces(b));
    }
}

/// A semicolon outside quotes separates: what stands before it and what stands
/// after it give their statements each on its own, in order.
pub proof fn law_separator_separates(a: Seq<char>, b: Seq<char>)
    requires
        quote::quote_after(a) == Quote::Outside,
    ensures
        statements(a.push(';') + b) == statements(a) + statements(b),
{
    lemma_pieces_of_join(a, b);
    lemma_kept_of_concat(pieces(a), pieces(b));
}

/// A semicolon at the end of a text, outside quotes, adds no statement.
pub proof fn law_final_separator_adds_nothing(sql: Seq<char>)
    requires
        quote::quote_after(sql) == Quote::Outside,
    ensures
        statements(sql.push(';')) == statements(sql),
{
    law_separator_separates(sql, Seq::empty());
    lemma_pieces_of_empty();
    lemma_kept_of_one(Seq::empty());
    assert(sql.push(';') + Seq::empty() =~= sql.push(';'));
    assert(statements(sql) + statements(Seq::empty()) =~= statements(sql));
}

proof fn lemma_quote_of_blank(start: Quote, w: Seq<char>)
    requires
        text::is_blank(w),
    ensures
        quote::quote_from(start, w) == start,
{
    assert forall|i: int| 0 <= i < w.len() implies #[trigger] w[i] != '\'' && w[i] != '"' by {
        assert(text::is_white_space(w[i]));
    }
    quote::lemma_quote_of_quoteless(start, w);
}

/// Where a text ends outside quotes, what follows it is cut on its own; the last
/// piece of the one and the first of the other make one piece.
proof fn lemma_pieces_of_concat(a: Seq<char>, b: Seq<char>)
    requires
        quote::quote_after(a) == Quote::Outside,
    ensures
        pieces(a).len() > 0,
        pieces(b).len() > 0,
        pieces(a + b) == pieces(a).drop_last() + pieces(b).update(
            0,
            pieces(a).last() + pieces(b)[0],
        ),
        quote::quote_after(a + b) == quote::quote_after(b),
    decreases b.len(),
{
    quote::lemma_quote_of_concat(Quote::Outside, a, b);
    lemma_pieces_of_push(a, ' ');
    let last = pieces(a).last();
    if b.len() == 0 {
        lemma_pieces_of_empty();
        assert(b =~= Seq::empty());
        assert(a + b =~= a);
        assert(last + pieces(b)[0] =~= last);
        assert(pieces(a) =~= pieces(a).drop_last() + pieces(b).update(0, last));
    } else {
        let init = b.drop_last();
        let c = b.last();
        lemma_pieces_of_concat(a, init);
        lemma_pieces_of_push(init, c);
        lemma_pieces_of_push(a + init, c);
        assert(init.push(c) =~= b);
        assert((a + init).push(c) =~= a + b);
        let expected = pieces(a).drop_last() + pieces(b).update(0, last + pieces(b)[0]);
        assert(pieces(a + b).len() == expected.len());
        assert forall|k: int| 0 <= k < expected.len() implies pieces(a + b)[k] == expected[k] by {
            assert(pieces(a + b)[k] =~= expected[k]);
        }
        assert(pieces(a + b) =~= expected);
    }
}

/// A literal is never cut: whatever it holds, it stands whole in one piece, with
/// the text just before and just after it, and the text around it is cut as if
/// it were not there.
pub proof fn law_literal_is_never_cut(
    before: Seq<char>,
    q: char,
    content: Seq<char>,
    after: Seq<char>,
)
    requires
        quote::quote_after(before) == Quote::Outside,
        q == '\'' || q == '"',
        !content.contains(q),
    ensures
        pieces(before + quote::literal(q, content) + after) == pieces(before).drop_last() + pieces(
            after,
        ).update(0, pieces(before).last() + quote::literal(q, content) + pieces(after)[0]),
{
    let lit = quote::literal(q, content);
    quote::lemma_literal_is_blanked(q, content);
    assert forall|i: int| 0 <= i < lit.len() && lit[i] == ';' implies !quote::is_outside(
        lit,
        i,
    ) by {
        assert(quote::without_literals(lit)[i] == ' ');
    }
    lemma_no_cuts(lit);
    assert(pieces(lit)[0] =~= lit);
    lemma_pieces_of_concat(before, lit);
    lemma_pieces_of_concat(before + lit, after);
    let head = pieces(before).last() + lit;
    assert(pieces(before + lit) =~= pieces(before).drop_last().push(head));
    assert(pieces(before + lit).drop_last() =~= pieces(before).drop_last());
}

/// White space before a text goes to the front of its first piece.
proof fn lemma_pieces_after_blank(w: Seq<char>, sql: Seq<char>)
    requires
        text::is_blank(w),
    ensures
        pieces(sql).len() > 0,
        pieces(w + sql) == pieces(sql).update(0, w + pieces(sql)[0]),
        quote::quote_after(w + sql) == quote::quote_after(sql),
{
    lemma_quote_of_blank(Quote::Outside, w);
    assert forall|i: int| 0 <= i < w.len() && w[i] == ';' implies !quote::is_outside(w, i) by {
        assert(text::is_white_space(w[i]));
    }
    lemma_no_cuts(w);
    assert(pieces(w)[0] =~= w);
    lemma_pieces_of_concat(w, sql);
    assert(pieces(w + sql) =~= pieces(sql).update(0, w + pieces(sql)[0]));
}

/// White space before a text does not change its statements.
pub proof fn law_leading_white_space_does_not_matter(w: Seq<char>, sql: Seq<char>)
    requires
        text::is_blank(w),
    ensures
        statements(w + sql) == statements(sql),
{
    lemma_pieces_after_blank(w, sql);
    let trimming = |p: Seq<char>| text::trimmed(p);
    let first = pieces(sql)[0];
    text::lemma_trimmed_ignores_padding(w, first, Seq::empty());
    assert(w + first + Seq::empty() =~= w + first);
    assert(pieces(w + sql).map_values(trimming) =~= pieces(sql).map_values(trimming));
}

/// White space after a text goes to the end of its last piece.
proof fn lemma_pieces_before_blank(sql: Seq<char>, w: Seq<char>)
    requires
        text::is_blank(w),
    ensures
        pieces(sql).len() > 0,
        pieces(sql + w) == pieces(sql).drop_last().push(pieces(sql).last() + w),
    decreases w.len(),
{
    if w.len() == 0 {
        lemma_pieces_of_push(sql, ' ');
        assert(sql + w =~= sql);
        assert(pieces(sql).last() + w =~= pieces(sql).last());
        assert(pieces(sql).drop_last().push(pieces(sql).last()) =~= pieces(sql));
    } else {
        let init = w.drop_last();
        let c = w.last();
        assert(text::is_white_space(w[w.len() - 1]));
        lemma_pieces_before_blank(sql, init);
        lemma_pieces_of_push(sql + init, c);
        assert((sql + init).push(c) =~= sql + w);
        assert((pieces(sql).last() + init).push(c) =~= pieces(sql).last() + w);
        assert(pieces(sql + w) =~= pieces(sql).drop_last().push(pieces(sql).last() + w));
    }
}

/// White space after a text does not change its statements.
pub proof fn law_trailing_white_space_does_not_matter(sql: Seq<char>, w: Seq<char>)
    requires
        text::is_blank(w),
    ensures
        statements(sql + w) == statements(sql),
{
    lemma_pieces_before_blank(sql, w);
    let trimming = |p: Seq<char>| text::trimmed(p);
    let last = pieces(sql).last();
    text::lemma_trimmed_ignores_padding(Seq::empty(), last, w);
    assert(Seq::empty() + last + w =~= last + w);
    assert(pieces(sql + w).map_values(trimming) =~= pieces(sql).map_values(trimming));
}

/// A text without a semicolon outside quotes is one statement, or none if it
/// is blank: semicolons inside quotes do not cut.
pub proof fn law_quoted_semicolons_do_not_cut(sql: Seq<char>)
    requires
        forall|i: int| 0 <= i < sql.len() && sql[i] == ';' ==> !quote::is_outside(sql, i),
    ensures
        statements(sql) == (if text::trimmed(sql).len() > 0 {
            seq![text::trimmed(sql)]
        } else {
            Seq::empty()
        }),
{
    lemma_no_cuts(sql);
    assert(pieces(sql)[0] =~= sql);
    assert(pieces(sql) =~= seq![sql]);
    lemma_kept_of_one(sql);
}

proof fn lemma_no_cuts(sql: Seq<char>)
    requires
        forall|i: int| 0 <= i < sql.len() && sql[i] == ';' ==> !quote::is_outside(sql, i),
    ensures
        cuts(sql).len() == 0,
{
    let p = |i: int| is_separator(sql, i);
    assert forall|i: int| 0 <= i < positions(sql).len() implies !p(#[trigger] positions(sql)[i]) by {
        assert(positions(sql)[i] == i);
        if sql[i] == ';' {
            assert(!quote::is_outside(sql, i));
        }
    }
    positions(sql).lemma_all_neg_filter_empty(p);
}

/// No separator stands inside a piece, a scan of the last piece alone ends
/// where a scan of the whole text ends, and every other piece ends outside
/// quotes.
proof fn lemma_pieces_are_whole(sql: Seq<char>)
    ensures
        pieces(sql).len() > 0,
        quote::quote_after(pieces(sql).last()) == quote::quote_after(sql),
        forall|k: int| 0 <= k < pieces(sql).len() ==> cuts(#[trigger] pieces(sql)[k]).len() == 0,
        forall|k: int|
            0 <= k < pieces(sql).len() - 1 ==> quote::quote_after(#[trigger] pieces(sql)[k])
                == Quote::Outside,
    decreases sql.len(),
{
    if sql.len() == 0 {
        reveal(Seq::filter);
        lemma_pieces_of_empty();
        assert(sql =~= Seq::empty());
    } else {
        let init = sql.drop_last();
        let c = sql.last();
        lemma_pieces_are_whole(init);
        lemma_pieces_of_push(init, c);
        quote::lemma_quote_of_push(Quote::Outside, init, c);
        assert(init.push(c) =~= sql);
        if c == ';' && quote::quote_after(init) == Quote::Outside {
            reveal(Seq::filter);
        } else {
            let last = pieces(init).last();
            lemma_cuts_of_push(last, c);
            quote::lemma_quote_of_push(Quote::Outside, last, c);
        }
    }
}

/// Trimming takes no separator away and brings none in, and leaves the quotes
/// as they are.
proof fn lemma_trimmed_is_whole(piece: Seq<char>)
    requires
        cuts(piece).len() == 0,
    ensures
        cuts(text::trimmed(piece)).len() == 0,
        quote::quote_after(text::trimmed(piece)) == quote::quote_after(piece),
{
    let (from, to) = text::lemma_trimmed_parts(piece);
    let before = piece.take(from);
    let after = piece.skip(to);
    let t = text::trimmed(piece);
    assert forall|i: int| 0 <= i < before.len() implies #[trigger] before[i] != '\'' && before[i]
        != '"' by {
        assert(text::is_white_space(before[i]));
    }
    assert forall|i: int| 0 <= i < after.len() implies #[trigger] after[i] != '\'' && after[i]
        != '"' by {
        assert(text::is_white_space(after[i]));
    }
    quote::lemma_quote_of_quoteless(Quote::Outside, before);
    quote::lemma_quote_of_quoteless(quote::quote_from(Quote::Outside, before + t), after);
    quote::lemma_quote_of_concat(Quote::Outside, before, t);
    quote::lemma_quote_of_concat(Quote::Outside, before + t, after);
    assert(before + t + after =~= piece);
    assert forall|i: int| 0 <= i < t.len() && t[i] == ';' implies !quote::is_outside(t, i) by {
        quote::lemma_quote_of_concat(Quote::Outside, before, t.take(i));
        assert(before + t.take(i) =~= piece.take(from + i));
        if quote::is_outside(t, i) {
            let p = |j: int| is_separator(piece, j);
            assert(positions(piece)[from + i] == from + i);
            assert(p(from + i));
            positions(piece).lemma_filter_contains(p, from + i);
            assert(cuts(piece).contains(from + i));
        }
    }
    lemma_no_cuts(t);
}

proof fn lemma_kept_members(parts: Seq<Seq<char>>, k: int) -> (j: int)
    requires
        0 <= k < kept(parts).len(),
    ensures
        0 <= j < parts.len(),
        kept(parts)[k] == text::trimmed(parts[j]),
        kept(parts)[k].len() > 0,
    decreases parts.len(),
{
    reveal(Seq::filter);
    if parts.len() > 0 {
        let init = parts.drop_last();
        lemma_kept_of_concat(init, seq![parts.last()]);
        lemma_kept_of_one(parts.last());
        assert(init + seq![parts.last()] =~= parts);
        if k < kept(init).len() {
            lemma_kept_members(init, k)
        } else {
            parts.len() - 1
        }
    } else {
        0
    }
}

/// Every statement holds something, and no white space at either end.
pub proof fn law_statements_are_trimmed(sql: Seq<char>, k: int)
    requires
        0 <= k < statements(sql).len(),
    ensures
        statements(sql)[k].len() > 0,
        text::has_tight_ends(statements(sql)[k]),
{
    let j = lemma_kept_members(pieces(sql), k);
    text::lemma_trimmed_parts(pieces(sql)[j]);
}

proof fn lemma_pieces_of_blank(sql: Seq<char>)
    requires
        forall|i: int|
            0 <= i < sql.len() ==> text::is_white_space(#[trigger] sql[i]) || sql[i] == ';',
    ensures
        quote::quote_after(sql) == Quote::Outside,
        pieces(sql).len() > 0,
        forall|k: int| 0 <= k < pieces(sql).len() ==> text::is_blank(#[trigger] pieces(sql)[k]),
    decreases sql.len(),
{
    if sql.len() == 0 {
        lemma_pieces_of_empty();
        assert(sql =~= Seq::empty());
    } else {
        let init = sql.drop_last();
        let c = sql.last();
        assert(c == sql[sql.len() - 1]);
        lemma_pieces_of_blank(init);
        lemma_pieces_of_push(init, c);
        assert(init.push(c) =~= sql);
        if c != ';' {
            assert(text::is_blank(pieces(init)[pieces(init).len() - 1]));
        }
    }
}

proof fn lemma_blank_pieces(sql: Seq<char>)
    requires
        forall|k: int| 0 <= k < pieces(sql).len() ==> text::is_blank(#[trigger] pieces(sql)[k]),
    ensures
        forall|i: int|
            0 <= i < sql.len() ==> text::is_white_space(#[trigger] sql[i]) || sql[i] == ';',
    decreases sql.len(),
{
    if sql.len() > 0 {
        let init = sql.drop_last();
        let c = sql.last();
        lemma_pieces_of_push(init, c);
        assert(init.push(c) =~= sql);
        let before = pieces(init);
        let now = pieces(sql);
        assert forall|k: int| 0 <= k < before.len() implies text::is_blank(
            #[trigger] before[k],
        ) by {
            assert(text::is_blank(now[k]));
            assert forall|i: int| 0 <= i < before[k].len() implies text::is_white_space(
                #[trigger] before[k][i],
            ) by {
                assert(before[k][i] == now[k][i]);
            }
        }
        lemma_blank_pieces(init);
        if !(c == ';' && quote::quote_after(init) == Quote::Outside) {
            let last = now[now.len() - 1];
            assert(text::is_blank(last));
            assert(last[last.len() - 1] == c);
        }
        assert forall|i: int| 0 <= i < sql.len() implies text::is_white_space(#[trigger] sql[i])
            || sql[i] == ';' by {
            if i < init.len() {
                assert(init[i] == sql[i]);
            }
        }
    }
}

/// A text has no statement exactly if it is nothing but white space and
/// semicolons.
pub proof fn law_blank_text_has_no_statement(sql: Seq<char>)
    ensures
        statements(sql).len() == 0 <==> (forall|i: int|
            0 <= i < sql.len() ==> text::is_white_space(#[trigger] sql[i]) || sql[i] == ';'),
{
    if forall|i: int|
        0 <= i < sql.len() ==> text::is_white_space(#[trigger] sql[i]) || sql[i] == ';' {
        lemma_pieces_of_blank(sql);
        if statements(sql).len() > 0 {
            let j = lemma_kept_members(pieces(sql), 0);
            let piece = pieces(sql)[j];
            text::lemma_trimmed_of_padded(piece, Seq::empty(), Seq::empty());
            assert(piece + Seq::empty() + Seq::empty() =~= piece);
        }
    }
    if statements(sql).len() == 0 {
        let texts = pieces(sql).map_values(|p: Seq<char>| text::trimmed(p));
        let holds = |t: Seq<char>| t.len() > 0;
        assert forall|k: int| 0 <= k < pieces(sql).len() implies text::is_blank(
            #[trigger] pieces(sql)[k],
        ) by {
            let piece = pieces(sql)[k];
            assert(texts[k] == text::trimmed(piece));
            if holds(texts[k]) {
                texts.lemma_filter_contains(holds, k);
                assert(statements(sql).contains(texts[k]));
            }
            let (from, to) = text::lemma_trimmed_parts(piece);
            assert forall|i: int| 0 <= i < piece.len() implies text::is_white_space(
                #[trigger] piece[i],
            ) by {
                if i < from {
                    assert(piece.take(from)[i] == piece[i]);
                } else {
                    assert(piece.skip(to)[i - to] == piece[i]);
                }
            }
        }
        lemma_blank_pieces(sql);
    }
}

/// No semicolon of a statement stands outside quotes.
pub proof fn law_statements_have_no_separator(sql: Seq<char>, k: int)
    requires
        0 <= k < statements(sql).len(),
    ensures
        forall|i: int|
            0 <= i < statements(sql)[k].len() ==> !#[trigger] is_separator(statements(sql)[k], i),
{
    let j = lemma_kept_members(pieces(sql), k);
    let statement = statements(sql)[k];
    lemma_pieces_are_whole(sql);
    lemma_trimmed_is_whole(pieces(sql)[j]);
    assert forall|i: int| 0 <= i < statement.len() implies !#[trigger] is_separator(
        statement,
        i,
    ) by {
        let p = |j: int| is_separator(statement, j);
        assert(positions(statement)[i] == i);
        if p(i) {
            positions(statement).lemma_filter_contains(p, i);
            assert(cuts(statement).contains(i));
        }
    }
}

/// The pieces of a text, with the separators between them, make up the text.
pub proof fn law_nothing_is_lost(sql: Seq<char>)
    ensures
        joined(pieces(sql), Seq::empty()) == sql,
    decreases sql.len(),
{
    if sql.len() == 0 {
        lemma_pieces_of_empty();
        assert(sql =~= Seq::empty());
    } else {
        let init = sql.drop_last();
        let c = sql.last();
        law_nothing_is_lost(init);
        lemma_pieces_of_push(init, c);
        assert(init.push(c) =~= sql);
        let before = pieces(init);
        if c == ';' && quote::quote_after(init) == Quote::Outside {
            assert(pieces(sql).drop_last() =~= before);
            assert(joined(pieces(sql), Seq::empty()) =~= sql);
        } else {
            assert(pieces(sql).drop_last() =~= before.drop_last());
            assert(joined(pieces(sql), Seq::empty()) =~= sql);
        }
    }
}

/// A statement cut out of a text is one statement by itself.
pub proof fn law_statements_are_single(sql: Seq<char>, k: int)
    requires
        0 <= k < statements(sql).len(),
    ensures
        statements(statements(sql)[k]) == seq![statements(sql)[k]],
{
    let j = lemma_kept_members(pieces(sql), k);
    let piece = pieces(sql)[j];
    let statement = statements(sql)[k];
    lemma_pieces_are_whole(sql);
    lemma_trimmed_is_whole(piece);
    text::lemma_trimmed_idempotent(piece);
    assert(pieces(statement)[0] =~= statement);
    assert(pieces(statement) =~= seq![statement]);
    lemma_kept_of_one(statement);
}

/// The texts of `list` with a semicolon, and `gap` after it, between each and the
/// next.
pub open spec fn joined(list: Seq<Seq<char>>, gap: Seq<char>) -> Seq<char>
    decreases list.len(),
{
    if list.len() == 0 {
        Seq::empty()
    } else if list.len() == 1 {
        list[0]
    } else {
        joined(list.drop_last(), gap).push(';') + (gap + list.last())
    }
}

/// Every statement but the last ends outside quotes.
pub proof fn law_quotes_are_closed(sql: Seq<char>, k: int)
    requires
        0 <= k < statements(sql).len() - 1,
    ensures
        quote::quote_after(statements(sql)[k]) == Quote::Outside,
{
    let all = pieces(sql);
    lemma_pieces_are_whole(sql);
    lemma_kept_of_concat(all.drop_last(), seq![all.last()]);
    lemma_kept_of_one(all.last());
    assert(all.drop_last() + seq![all.last()] =~= all);
    let j = lemma_kept_members(all.drop_last(), k);
    assert(all.drop_last()[j] == all[j]);
    lemma_trimmed_is_whole(all[j]);
}

proof fn lemma_joined_singles(list: Seq<Seq<char>>, gap: Seq<char>)
    requires
        text::is_blank(gap),
        forall|k: int| 0 <= k < list.len() ==> statements(#[trigger] list[k]) == seq![list[k]],
        forall|k: int|
            0 <= k < list.len() - 1 ==> quote::quote_after(#[trigger] list[k]) == Quote::Outside,
    ensures
        statements(joined(list, gap)) == list,
        list.len() > 0 ==> quote::quote_after(joined(list, gap)) == quote::quote_after(list.last()),
    decreases list.len(),
{
    if list.len() == 0 {
        lemma_pieces_of_empty();
        lemma_kept_of_one(Seq::empty());
        assert(statements(joined(list, gap)) =~= list);
    } else if list.len() == 1 {
        assert(list =~= seq![list[0]]);
    } else {
        let init = list.drop_last();
        assert forall|k: int| 0 <= k < init.len() implies statements(#[trigger] init[k])
            == seq![init[k]] by {
            assert(init[k] == list[k]);
        }
        assert forall|k: int| 0 <= k < init.len() - 1 implies quote::quote_after(#[trigger] init[k])
            == Quote::Outside by {
            assert(init[k] == list[k]);
        }
        lemma_joined_singles(init, gap);
        assert(init.last() == list[list.len() - 2]);
        lemma_pieces_after_blank(gap, list.last());
        law_leading_white_space_does_not_matter(gap, list.last());
        lemma_pieces_of_join(joined(init, gap), gap + list.last());
        law_separator_separates(joined(init, gap), gap + list.last());
        assert(statements(list[list.len() - 1]) == seq![list.last()]);
        assert(statements(joined(list, gap)) =~= list);
    }
}

/// Statements put together with semicolons, with or without white space after
/// each, are cut into the same statements again.
pub proof fn law_joined_statements_come_back(sql: Seq<char>, gap: Seq<char>)
    requires
        text::is_blank(gap),
    ensures
        statements(joined(statements(sql), gap)) == statements(sql),
{
    let list = statements(sql);
    assert forall|k: int| 0 <= k < list.len() implies statements(#[trigger] list[k])
        == seq![list[k]] by {
        law_statements_are_single(sql, k);
    }
    assert forall|k: int| 0 <= k < list.len() - 1 implies quote::quote_after(#[trigger] list[k])
        == Quote::Outside by {
        law_quotes_are_closed(sql, k);
    }
    lemma_joined_singles(list, gap);
}

/// Whether a semicolon cuts is decided by the text before it: every semicolon is
/// either one that separates, or one that stays inside a statement.
pub proof fn law_semicolon_cuts_or_stays(before: Seq<char>, after: Seq<char>)
    ensures
        quote::quote_after(before) == Quote::Outside ==> statements(before.push(';') + after)
            == statements(before) + statements(after),
        quote::quote_after(before) != Quote::Outside ==> pieces(before.push(';')).len() == pieces(
            before,
        ).len() && pieces(before.push(';')).last() == pieces(before).last().push(';'),
{
    lemma_pieces_of_push(before, ';');
    if quote::quote_after(before) == Quote::Outside {
        law_separator_separates(before, after);
    }
}

/// A character that is no semicolon never cuts: where the text before it and the
/// text after it hold no semicolon either, all of it is one statement, trimmed.
pub proof fn law_text_without_semicolons_is_one_statement(sql: Seq<char>)
    requires
        !sql.contains(';'),
    ensures
        text::is_blank(sql) ==> statements(sql).len() == 0,
        !text::is_blank(sql) ==> statements(sql) == seq![text::trimmed(sql)],
{
    assert forall|i: int| 0 <= i < sql.len() && sql[i] == ';' implies !quote::is_outside(sql, i) by {
        assert(sql.contains(sql[i]));
    }
    law_quoted_semicolons_do_not_cut(sql);
    law_blank_text_has_no_statement(sql);
    assert forall|i: int| 0 <= i < sql.len() implies sql[i] != ';' by {
        assert(sql.contains(sql[i]));
    }
}

} // verus!
