//! Bounding the rows that a query may return.

use vstd::prelude::*;
use vstd::string::*;

use crate::quote;
use crate::quote::Quote;
use crate::statement;
use crate::text;

verus! {

/// `w` stands in `s` at position `i` as a word: with white space, or the end of
/// the text, on either side.
pub open spec fn is_word_at(s: Seq<char>, w: Seq<char>, i: int) -> bool {
    &&& text::occurs_at(s, w, i)
    &&& i > 0 ==> text::is_white_space(s[i - 1])
    &&& i + w.len() < s.len() ==> text::is_white_space(s[i + w.len()])
}

/// The word `UNION` stands in `sql_upper` outside string literals, a literal
/// counting as white space.
pub open spec fn mentions_union(sql_upper: Seq<char>) -> bool {
    exists|i: int| is_word_at(quote::without_literals(sql_upper), "UNION"@, i)
}

/// A row limit is added to the statement whose upper-case form is `sql_upper`:
/// it is a `SELECT` that has no limit, asks for no query profile and is no
/// `UNION`.
pub open spec fn takes_limit(sql_upper: Seq<char>) -> bool {
    &&& text::begins_with(sql_upper, "SELECT"@)
    &&& !text::contains_text(sql_upper, "LIMIT"@)
    &&& !text::contains_text(sql_upper, "GET_QUERY_PROFILE"@)
    &&& !text::contains_text(sql_upper, "SHOW_PROFILE"@)
    &&& !mentions_union(sql_upper)
}

/// `sql` without the semicolons that it ends with, and a limit of `limit` rows
/// after it.
pub open spec fn with_limit(sql: Seq<char>, limit: int) -> Seq<char> {
    text::without_trailing(sql, ';') + " LIMIT "@ + text::signed_decimal(limit)
}

/// `sql`, bounded to `limit` rows if its upper-case form `sql_upper` takes a
/// limit.
pub open spec fn bounded(sql: Seq<char>, sql_upper: Seq<char>, limit: int) -> Seq<char> {
    if takes_limit(sql_upper) {
        with_limit(sql, limit)
    } else {
        sql
    }
}

/// What is sent for the statement `sql`: the statement, trimmed, and bounded to
/// `limit` rows if it takes a limit.
pub open spec fn limited(sql: Seq<char>, limit: int) -> Seq<char> {
    let trimmed = text::trimmed(sql);
    bounded(trimmed, text::upper(trimmed), limit)
}

/// The characters of `sql_upper`, with a space in place of those that belong to
/// a literal.
fn blank_literals(sql_upper: &str) -> (cleaned: Vec<char>)
    ensures
        cleaned@ == quote::without_literals(sql_upper@),
{
    let chars = text::chars_of(sql_upper);
    let mut cleaned: Vec<char> = Vec::new();
    let mut state = Quote::Outside;
    let mut i: usize = 0;
    assert(sql_upper@.take(0) =~= Seq::empty());
    while i < chars.len()
        invariant
            chars@ == sql_upper@,
            i <= chars@.len(),
            state == quote::quote_after(sql_upper@.take(i as int)),
            cleaned@ == quote::without_literals(sql_upper@).take(i as int),
        decreases chars@.len() - i,
    {
        let c = chars[i];
        if state != Quote::Outside || c == '\'' || c == '"' {
            cleaned.push(' ');
        } else {
            cleaned.push(c);
        }
        proof {
            assert(sql_upper@.take(i + 1) =~= sql_upper@.take(i as int).push(c));
            quote::lemma_quote_of_push(Quote::Outside, sql_upper@.take(i as int), c);
            assert(cleaned@ =~= quote::without_literals(sql_upper@).take(i + 1));
        }
        state = state.advance(c);
        i += 1;
    }
    assert(cleaned@ =~= quote::without_literals(sql_upper@));
    cleaned
}

/// Whether the keyword `UNION` stands in `sql_upper` as a word of its own,
/// outside string literals.
pub fn contains_union_keyword(sql_upper: &str) -> (res: bool)
    ensures
        res == mentions_union(sql_upper@),
{
    let cleaned = blank_literals(sql_upper);
    let word = text::chars_of("UNION");
    let mut at: usize = 0;
    while at < cleaned.len()
        invariant
            cleaned@ == quote::without_literals(sql_upper@),
            word@ == "UNION"@,
            at <= cleaned@.len(),
            forall|k: int| 0 <= k < at ==> !is_word_at(cleaned@, "UNION"@, k),
        decreases cleaned@.len() - at,
    {
        if text::matches_at(&cleaned, &word, at) && (at == 0 || cleaned[at - 1].is_whitespace()) && (
        word.len() == cleaned.len() - at || cleaned[at + word.len()].is_whitespace()) {
            assert(is_word_at(cleaned@, "UNION"@, at as int));
            return true;
        }
        at += 1;
    }
    proof {
        reveal_strlit("UNION");
    }
    false
}

/// Whether a row limit is added to the statement whose upper-case form is
/// `sql_upper`.
pub fn takes_query_limit(sql_upper: &str) -> (res: bool)
    ensures
        res == takes_limit(sql_upper@),
{
    !text::contains(sql_upper, "LIMIT") && text::starts_with(sql_upper, "SELECT")
        && !text::contains(sql_upper, "GET_QUERY_PROFILE") && !text::contains(
        sql_upper,
        "SHOW_PROFILE",
    ) && !contains_union_keyword(sql_upper)
}

/// `sql`, with a limit of `limit` rows in place of any semicolons at its end if
/// its upper-case form `sql_upper` takes a limit, and as it is if not.
pub fn bound_statement(sql: &str, sql_upper: &str, limit: i32) -> (res: String)
    ensures
        res@ == bounded(sql@, sql_upper@, limit as int),
{
    if takes_query_limit(sql_upper) {
        let mut res = text::trim_end_matches(sql, ';');
        res.append(" LIMIT ");
        res.append(text::number_text(limit).as_str());
        res
    } else {
        sql.to_owned()
    }
}

/// The statement to send for `sql`: trimmed, and, if it is a `SELECT` without a
/// limit, neither a `UNION` nor a request for a query profile, with a limit of
/// `limit` rows in place of any semicolons at its end.
pub fn apply_query_limit(sql: &str, limit: i32) -> (res: String)
    ensures
        res@ == limited(sql@, limit as int),
{
    let trimmed = text::trim(sql);
    let sql_upper = text::to_uppercase(trimmed.as_str());
    bound_statement(trimmed.as_str(), sql_upper.as_str(), limit)
}

// ---------------------------------------------------------------------------
// Laws
// ---------------------------------------------------------------------------

proof fn lemma_decimal_shape(n: nat)
    ensures
        text::decimal(n).len() > 0,
        forall|i: int|
            0 <= i < text::decimal(n).len() ==> '0' <= #[trigger] text::decimal(n)[i] <= '9',
    decreases n,
{
    if n >= 10 {
        lemma_decimal_shape(n / 10);
    }
}

/// A numeral is one or more digits, after a minus sign if it is negative.
proof fn lemma_signed_decimal_shape(n: int)
    ensures
        text::signed_decimal(n).len() > 0,
        '0' <= text::signed_decimal(n).last() <= '9',
        forall|i: int|
            0 <= i < text::signed_decimal(n).len() ==> #[trigger] text::signed_decimal(n)[i] == '-'
                || '0' <= text::signed_decimal(n)[i] <= '9',
{
    if n < 0 {
        let d = text::decimal((-n) as nat);
        lemma_decimal_shape((-n) as nat);
        assert(text::signed_decimal(n).last() == d[d.len() - 1]);
    } else {
        let d = text::decimal(n as nat);
        lemma_decimal_shape(n as nat);
        assert(text::signed_decimal(n).last() == d[d.len() - 1]);
    }
}

/// Taking the trailing `c` off leaves a prefix, and something of a text that
/// does not begin with `c`.
proof fn lemma_without_trailing_prefix(s: Seq<char>, c: char) -> (len: int)
    ensures
        0 <= len <= s.len(),
        text::without_trailing(s, c) == s.take(len),
        s.len() > 0 && s.first() != c ==> len > 0,
    decreases s.len(),
{
    if s.len() > 0 && s.last() == c {
        let len = lemma_without_trailing_prefix(s.drop_last(), c);
        assert(s.drop_last().take(len) =~= s.take(len));
        if s.first() != c {
            assert(s.drop_last().first() == s.first());
        }
        len
    } else {
        assert(s.take(s.len() as int) =~= s);
        s.len() as int
    }
}

/// The upper-case form of a text begins with that of its first character.
proof fn lemma_upper_of_first(s: Seq<char>)
    requires
        s.len() > 0,
    ensures
        text::upper(s) == text::upper_char(s.first()) + text::upper(s.drop_first()),
{
    let first = seq![s.first()];
    text::lemma_upper_of_concat(first, s.drop_first());
    assert(first + s.drop_first() =~= s);
    assert(first.drop_last() =~= Seq::empty());
    assert(text::upper(first.drop_last()) =~= Seq::empty());
    assert(text::upper(first) =~= text::upper_char(s.first()));
}

/// A trimmed text whose upper-case form begins with `SELECT` is not empty and
/// does not begin with a semicolon.
proof fn lemma_select_begins(t: Seq<char>)
    requires
        text::begins_with(text::upper(t), "SELECT"@),
    ensures
        t.len() > 0,
        t.first() != ';',
{
    reveal_strlit("SELECT");
    let u = text::upper(t);
    assert(u.subrange(0, 6)[0] == 'S');
    assert(u[0] == 'S');
    if t.len() > 0 {
        lemma_upper_of_first(t);
        if t.first() == ';' {
            assert(text::upper_char(';')[0] == ';');
            assert(u[0] == ';');
        }
    }
}

proof fn lemma_with_limit_shape(t: Seq<char>, limit: int)
    requires
        text::has_tight_ends(t),
        text::begins_with(text::upper(t), "SELECT"@),
    ensures
        text::has_tight_ends(with_limit(t, limit)),
        with_limit(t, limit).len() > 0,
        text::contains_text(text::upper(with_limit(t, limit)), "LIMIT"@),
{
    reveal_strlit(" LIMIT ");
    reveal_strlit("LIMIT");
    lemma_select_begins(t);
    let len = lemma_without_trailing_prefix(t, ';');
    lemma_signed_decimal_shape(limit);
    let body = text::without_trailing(t, ';');
    let number = text::signed_decimal(limit);
    let res = with_limit(t, limit);
    assert(res.first() == t.first());
    assert(res.last() == number.last());
    text::lemma_upper_of_concat(body + " LIMIT "@, number);
    text::lemma_upper_of_concat(body, " LIMIT "@);
    text::lemma_upper_of_ascii(" LIMIT "@);
    let clause = text::upper(" LIMIT "@);
    let u = text::upper(res);
    let at: int = text::upper(body).len() as int + 1;
    assert(u.subrange(at, at + 5) =~= "LIMIT"@) by {
        assert forall|i: int| 0 <= i < 5 implies u[at + i] == "LIMIT"@[i] by {
            assert(u[at + i] == clause[i + 1]);
            assert(clause[i + 1] == text::ascii_upper(" LIMIT "@[i + 1]));
        }
    }
    assert(text::occurs_at(u, "LIMIT"@, at));
}

/// A statement that has been bounded is left as it is by another pass, whatever
/// limit that one is given.
pub proof fn law_limit_is_applied_once(sql: Seq<char>, first: int, second: int)
    ensures
        limited(limited(sql, first), second) == limited(sql, first),
{
    let t = text::trimmed(sql);
    text::lemma_trimmed_parts(sql);
    if takes_limit(text::upper(t)) {
        lemma_with_limit_shape(t, first);
        text::lemma_trimmed_of_tight(with_limit(t, first));
    } else {
        text::lemma_trimmed_of_tight(t);
    }
}

/// A `SELECT` that is neither a `UNION` nor a request for a query profile is
/// sent with a limit: its own if it has one, the given one if not.
pub proof fn law_plain_select_is_bounded(sql: Seq<char>, limit: int)
    requires
        text::begins_with(text::upper(text::trimmed(sql)), "SELECT"@),
        !text::contains_text(text::upper(text::trimmed(sql)), "GET_QUERY_PROFILE"@),
        !text::contains_text(text::upper(text::trimmed(sql)), "SHOW_PROFILE"@),
        !mentions_union(text::upper(text::trimmed(sql))),
    ensures
        text::contains_text(text::upper(limited(sql, limit)), "LIMIT"@),
{
    let t = text::trimmed(sql);
    text::lemma_trimmed_parts(sql);
    if takes_limit(text::upper(t)) {
        lemma_with_limit_shape(t, limit);
    }
}

/// A statement that already says `LIMIT`, in whatever case, is sent as it is,
/// trimmed.
pub proof fn law_existing_limit_stands(sql: Seq<char>, limit: int)
    requires
        text::contains_text(text::upper(text::trimmed(sql)), "LIMIT"@),
    ensures
        limited(sql, limit) == text::trimmed(sql),
{
}

/// An `EXPLAIN` statement is sent as it is, trimmed.
pub proof fn law_explain_stands(sql: Seq<char>, limit: int)
    requires
        text::begins_with(text::upper(text::trimmed(sql)), "EXPLAIN"@),
    ensures
        limited(sql, limit) == text::trimmed(sql),
{
    reveal_strlit("EXPLAIN");
    reveal_strlit("SELECT");
    let u = text::upper(text::trimmed(sql));
    assert(u.subrange(0, 7)[0] == 'E');
    if text::begins_with(u, "SELECT"@) {
        assert(u.subrange(0, 6)[0] == 'S');
    }
}

/// A query that holds the word `UNION` outside its literals is sent as it is,
/// trimmed.
pub proof fn law_union_stands(sql: Seq<char>, limit: int)
    requires
        mentions_union(text::upper(text::trimmed(sql))),
    ensures
        limited(sql, limit) == text::trimmed(sql),
{
}

/// `UNION` stands in `sql_upper` at position `i`, all of it outside literals, and
/// what stands on either side of it is white space, part of a literal or the end
/// of the text.
pub open spec fn is_union_at(sql_upper: Seq<char>, i: int) -> bool {
    &&& text::occurs_at(sql_upper, "UNION"@, i)
    &&& forall|j: int| i <= j < i + 5 ==> !#[trigger] quote::in_literal(sql_upper, j)
    &&& i > 0 ==> text::is_white_space(sql_upper[i - 1]) || quote::in_literal(sql_upper, i - 1)
    &&& i + 5 < sql_upper.len() ==> text::is_white_space(sql_upper[i + 5]) || quote::in_literal(
        sql_upper,
        i + 5,
    )
}

/// `UNION` counts exactly where it stands outside literals and is no part of a
/// longer name.
pub proof fn law_union_is_a_word_outside_literals(sql_upper: Seq<char>)
    ensures
        mentions_union(sql_upper) <==> exists|i: int| is_union_at(sql_upper, i),
{
    reveal_strlit("UNION");
    let cleaned = quote::without_literals(sql_upper);
    if mentions_union(sql_upper) {
        let i = choose|i: int| is_word_at(cleaned, "UNION"@, i);
        assert forall|j: int| i <= j < i + 5 implies !#[trigger] quote::in_literal(sql_upper, j)
            && sql_upper[j] == "UNION"@[j - i] by {
            assert(cleaned.subrange(i, i + 5)[j - i] == "UNION"@[j - i]);
            assert(cleaned[j] == "UNION"@[j - i]);
        }
        assert(sql_upper.subrange(i, i + 5) =~= "UNION"@);
        assert(is_union_at(sql_upper, i));
    }
    if exists|i: int| is_union_at(sql_upper, i) {
        let i = choose|i: int| is_union_at(sql_upper, i);
        assert forall|j: int| i <= j < i + 5 implies cleaned[j] == "UNION"@[j - i] by {
            assert(!quote::in_literal(sql_upper, j));
            assert(sql_upper.subrange(i, i + 5)[j - i] == "UNION"@[j - i]);
        }
        assert(cleaned.subrange(i, i + 5) =~= "UNION"@);
        assert(is_word_at(cleaned, "UNION"@, i));
    }
}

/// Two texts that differ at most in the case of ASCII letters.
pub open spec fn same_but_for_case(a: Seq<char>, b: Seq<char>) -> bool {
    &&& a.len() == b.len()
    &&& forall|i: int|
        0 <= i < a.len() ==> {
            ||| #[trigger] a[i] == b[i]
            ||| (a[i] as u32) < 0x80 && (b[i] as u32) < 0x80 && text::ascii_upper(a[i])
                == text::ascii_upper(b[i])
        }
}

proof fn lemma_upper_ignores_case(a: Seq<char>, b: Seq<char>)
    requires
        same_but_for_case(a, b),
    ensures
        text::upper(a) == text::upper(b),
    decreases a.len(),
{
    if a.len() > 0 {
        assert(a[a.len() - 1] == a.last());
        lemma_upper_ignores_case(a.drop_last(), b.drop_last());
    } else {
        assert(a =~= b);
    }
}

proof fn lemma_trimmed_keeps_case(a: Seq<char>, b: Seq<char>)
    requires
        same_but_for_case(a, b),
    ensures
        same_but_for_case(text::trimmed(a), text::trimmed(b)),
{
    let (from, to) = text::lemma_trimmed_parts(a);
    let before = b.take(from);
    let core = b.subrange(from, to);
    let after = b.skip(to);
    assert forall|i: int| 0 <= i < before.len() implies text::is_white_space(
        #[trigger] before[i],
    ) by {
        assert(text::is_white_space(a.take(from)[i]));
        assert(a[i] == a.take(from)[i]);
    }
    assert forall|i: int| 0 <= i < after.len() implies text::is_white_space(#[trigger] after[i]) by {
        assert(text::is_white_space(a.skip(to)[i]));
        assert(a[to + i] == a.skip(to)[i]);
    }
    if core.len() > 0 {
        assert(text::trimmed(a).first() == a[from]);
        assert(text::trimmed(a).last() == a[to - 1]);
    }
    text::lemma_trimmed_of_padded(before, core, after);
    assert(before + core + after =~= b);
    assert forall|i: int| 0 <= i < core.len() implies {
        ||| #[trigger] text::trimmed(a)[i] == core[i]
        ||| (text::trimmed(a)[i] as u32) < 0x80 && (core[i] as u32) < 0x80 && text::ascii_upper(
            text::trimmed(a)[i],
        ) == text::ascii_upper(core[i])
    } by {
        assert(text::trimmed(a)[i] == a[from + i]);
    }
}

proof fn lemma_without_trailing_keeps_case(a: Seq<char>, b: Seq<char>)
    requires
        same_but_for_case(a, b),
    ensures
        same_but_for_case(text::without_trailing(a, ';'), text::without_trailing(b, ';')),
    decreases a.len(),
{
    if a.len() > 0 {
        assert(a[a.len() - 1] == a.last());
        if a.last() == ';' {
            lemma_without_trailing_keeps_case(a.drop_last(), b.drop_last());
        }
    }
}

/// The case of its letters does not decide whether a statement is bounded, and
/// what is sent for two statements that differ in case alone differs in case
/// alone.
pub proof fn law_case_does_not_matter(a: Seq<char>, b: Seq<char>, limit: int)
    requires
        same_but_for_case(a, b),
    ensures
        takes_limit(text::upper(text::trimmed(a))) == takes_limit(text::upper(text::trimmed(b))),
        same_but_for_case(limited(a, limit), limited(b, limit)),
{
    let s = text::trimmed(a);
    let t = text::trimmed(b);
    lemma_trimmed_keeps_case(a, b);
    lemma_upper_ignores_case(s, t);
    if takes_limit(text::upper(s)) {
        lemma_without_trailing_keeps_case(s, t);
        let left = text::without_trailing(s, ';');
        let right = text::without_trailing(t, ';');
        let clause = " LIMIT "@ + text::signed_decimal(limit);
        assert(with_limit(s, limit) =~= left + clause);
        assert(with_limit(t, limit) =~= right + clause);
        assert forall|i: int| 0 <= i < with_limit(s, limit).len() implies {
            ||| #[trigger] with_limit(s, limit)[i] == with_limit(t, limit)[i]
            ||| (with_limit(s, limit)[i] as u32) < 0x80 && (with_limit(t, limit)[i] as u32) < 0x80
                && text::ascii_upper(with_limit(s, limit)[i]) == text::ascii_upper(
                with_limit(t, limit)[i],
            )
        } by {
            if i < left.len() {
                assert(with_limit(s, limit)[i] == left[i]);
                assert(with_limit(t, limit)[i] == right[i]);
            }
        }
    }
}

/// A statement is sent as it is, trimmed, exactly if it takes no limit: a limit
/// that is added always shows.
pub proof fn law_unbounded_statements_stand(sql: Seq<char>, limit: int)
    ensures
        limited(sql, limit) == text::trimmed(sql) <==> !takes_limit(
            text::upper(text::trimmed(sql)),
        ),
{
    let t = text::trimmed(sql);
    if takes_limit(text::upper(t)) {
        reveal_strlit(" LIMIT ");
        lemma_signed_decimal_shape(limit);
        let res = with_limit(t, limit);
        assert(res.last() == text::signed_decimal(limit).last());
        if res == t {
            assert(text::without_trailing(t, ';') == t);
        }
    }
}

/// One semicolon at the end makes no difference to what is sent for a statement
/// that takes a limit.
pub proof fn law_final_semicolon_makes_no_difference(sql: Seq<char>, limit: int)
    requires
        text::has_tight_ends(sql),
        takes_limit(text::upper(sql)),
    ensures
        limited(sql.push(';'), limit) == limited(sql, limit),
{
    let more = sql.push(';');
    let u = text::upper(sql);
    let v = text::upper(more);
    lemma_select_begins(sql);
    assert(more.drop_last() =~= sql);
    assert(v =~= u.push(';'));
    assert(more.first() == sql.first());
    text::lemma_trimmed_of_tight(sql);
    text::lemma_trimmed_of_tight(more);
    reveal_strlit("SELECT");
    reveal_strlit("LIMIT");
    reveal_strlit("GET_QUERY_PROFILE");
    reveal_strlit("SHOW_PROFILE");
    assert(v.subrange(0, 6) =~= u.subrange(0, 6));
    lemma_semicolon_brings_no_text(u, "LIMIT"@);
    lemma_semicolon_brings_no_text(u, "GET_QUERY_PROFILE"@);
    lemma_semicolon_brings_no_text(u, "SHOW_PROFILE"@);
    lemma_semicolon_brings_no_union(u);
    assert(text::without_trailing(more, ';') == text::without_trailing(sql, ';'));
}

proof fn lemma_semicolon_brings_no_text(u: Seq<char>, t: Seq<char>)
    requires
        t.len() > 0,
        t.last() != ';',
        !text::contains_text(u, t),
    ensures
        !text::contains_text(u.push(';'), t),
{
    let v = u.push(';');
    if text::contains_text(v, t) {
        let i = choose|i: int| text::occurs_at(v, t, i);
        assert(v.subrange(i, i + t.len())[t.len() - 1] == t.last());
        assert(v.subrange(i, i + t.len()) =~= u.subrange(i, i + t.len()));
        assert(text::occurs_at(u, t, i));
    }
}

proof fn lemma_semicolon_brings_no_union(u: Seq<char>)
    requires
        !mentions_union(u),
    ensures
        !mentions_union(u.push(';')),
{
    reveal_strlit("UNION");
    let v = u.push(';');
    law_union_is_a_word_outside_literals(u);
    law_union_is_a_word_outside_literals(v);
    if mentions_union(v) {
        let i = choose|i: int| is_union_at(v, i);
        assert(v.subrange(i, i + 5)[4] == 'N');
        assert(v.subrange(i, i + 5) =~= u.subrange(i, i + 5));
        assert forall|j: int| 0 <= j < u.len() implies quote::in_literal(u, j)
            == quote::in_literal(v, j) by {
            assert(v.take(j) =~= u.take(j));
        }
        assert(is_union_at(u, i)) by {
            assert forall|j: int| i <= j < i + 5 implies !#[trigger] quote::in_literal(u, j) by {
                assert(!quote::in_literal(v, j));
            }
        }
    }
}

/// White space around a statement does not matter.
pub proof fn law_padding_does_not_matter(
    before: Seq<char>,
    sql: Seq<char>,
    after: Seq<char>,
    limit: int,
)
    requires
        text::is_blank(before),
        text::is_blank(after),
    ensures
        limited(before + sql + after, limit) == limited(sql, limit),
{
    text::lemma_trimmed_ignores_padding(before, sql, after);
}

proof fn lemma_word_across_gap(
    p: Seq<char>,
    gap: Seq<char>,
    other: Seq<char>,
    r: Seq<char>,
    w: Seq<char>,
)
    requires
        text::is_blank(gap),
        text::is_blank(other),
        gap.len() > 0,
        other.len() > 0,
        w.len() > 0,
        forall|k: int| 0 <= k < w.len() ==> !text::is_white_space(#[trigger] w[k]),
        exists|i: int| is_word_at(p + gap + r, w, i),
    ensures
        exists|i: int| is_word_at(p + other + r, w, i),
{
    let a = p + gap + r;
    let b = p + other + r;
    let i = choose|i: int| is_word_at(a, w, i);
    assert forall|k: int| 0 <= k < w.len() implies a[i + k] == w[k] by {
        assert(a.subrange(i, i + w.len())[k] == w[k]);
    }
    assert(text::is_white_space(other[0]));
    assert(text::is_white_space(other[other.len() - 1]));
    if i + w.len() <= p.len() {
        assert(b.subrange(i, i + w.len()) =~= w);
        assert(is_word_at(b, w, i));
    } else if i >= p.len() + gap.len() {
        let at = i - gap.len() + other.len();
        assert forall|k: int| 0 <= k < w.len() implies b[at + k] == w[k] by {
            assert(b[at + k] == a[i + k]);
        }
        assert(b.subrange(at, at + w.len()) =~= w);
        assert(is_word_at(b, w, at));
    } else {
        let k = if i < p.len() {
            p.len() - i
        } else {
            0
        };
        assert(a[i + k] == gap[i + k - p.len()]);
        assert(text::is_white_space(w[k]));
    }
}

proof fn lemma_gaps_are_alike(p: Seq<char>, gap: Seq<char>, other: Seq<char>, r: Seq<char>)
    requires
        text::is_blank(gap),
        text::is_blank(other),
        gap.len() > 0,
        other.len() > 0,
    ensures
        (exists|i: int| is_word_at(p + gap + r, "UNION"@, i)) == (exists|i: int|
            is_word_at(p + other + r, "UNION"@, i)),
{
    reveal_strlit("UNION");
    if exists|i: int| is_word_at(p + gap + r, "UNION"@, i) {
        lemma_word_across_gap(p, gap, other, r, "UNION"@);
    }
    if exists|i: int| is_word_at(p + other + r, "UNION"@, i) {
        lemma_word_across_gap(p, other, gap, r, "UNION"@);
    }
}

/// What a literal holds does not matter: putting any other content that lacks its
/// quote, of any length, into a literal does not change whether the keyword
/// `UNION` is found.
pub proof fn law_literal_content_does_not_matter(
    before: Seq<char>,
    q: char,
    content: Seq<char>,
    other: Seq<char>,
    after: Seq<char>,
)
    requires
        quote::quote_after(before) == Quote::Outside,
        q == '\'' || q == '"',
        !content.contains(q),
        !other.contains(q),
    ensures
        mentions_union(before + quote::literal(q, content) + after) == mentions_union(
            before + quote::literal(q, other) + after,
        ),
{
    lemma_cleaned_around_literal(before, q, content, after);
    lemma_cleaned_around_literal(before, q, other, after);
    lemma_gaps_are_alike(
        quote::without_literals(before),
        Seq::new(content.len() + 2, |i: int| ' '),
        Seq::new(other.len() + 2, |i: int| ' '),
        quote::without_literals(after),
    );
}

proof fn lemma_cleaned_around_literal(
    before: Seq<char>,
    q: char,
    content: Seq<char>,
    after: Seq<char>,
)
    requires
        quote::quote_after(before) == Quote::Outside,
        q == '\'' || q == '"',
        !content.contains(q),
    ensures
        quote::without_literals(before + quote::literal(q, content) + after)
            == quote::without_literals(before) + Seq::new(content.len() + 2, |i: int| ' ')
            + quote::without_literals(after),
{
    quote::lemma_literal_is_blanked(q, content);
    quote::lemma_blanking_of_concat(before, quote::literal(q, content));
    quote::lemma_blanking_of_concat(before + quote::literal(q, content), after);
}

/// Nor does it matter what stands after a quote that is never closed.
pub proof fn law_open_literal_content_does_not_matter(
    before: Seq<char>,
    q: char,
    content: Seq<char>,
    other: Seq<char>,
)
    requires
        quote::quote_after(before) == Quote::Outside,
        q == '\'' || q == '"',
        !content.contains(q),
        !other.contains(q),
    ensures
        mentions_union(before + (seq![q] + content)) == mentions_union(
            before + (seq![q] + other),
        ),
{
    let gap = Seq::new(content.len() + 1, |i: int| ' ');
    let second = Seq::new(other.len() + 1, |i: int| ' ');
    let cleaned = quote::without_literals(before);
    quote::lemma_open_literal_is_blanked(q, content);
    quote::lemma_open_literal_is_blanked(q, other);
    quote::lemma_blanking_of_concat(before, seq![q] + content);
    quote::lemma_blanking_of_concat(before, seq![q] + other);
    lemma_gaps_are_alike(cleaned, gap, second, Seq::empty());
    assert(cleaned + gap + Seq::empty() =~= cleaned + gap);
    assert(cleaned + second + Seq::empty() =~= cleaned + second);
}

/// What is sent for a statement cut out of a text is one statement: bounding it
/// brings no separator in.
pub proof fn law_bounded_statement_is_single(sql: Seq<char>, k: int, limit: int)
    requires
        0 <= k < statement::statements(sql).len(),
    ensures
        statement::statements(limited(statement::statements(sql)[k], limit)) == seq![
            limited(statement::statements(sql)[k], limit),
        ],
{
    let st = statement::statements(sql)[k];
    statement::law_statements_are_trimmed(sql, k);
    statement::law_statements_have_no_separator(sql, k);
    text::lemma_trimmed_of_tight(st);
    if takes_limit(text::upper(st)) {
        let res = with_limit(st, limit);
        lemma_with_limit_shape(st, limit);
        let len = lemma_without_trailing_prefix(st, ';');
        lemma_signed_decimal_shape(limit);
        reveal_strlit(" LIMIT ");
        let number = text::signed_decimal(limit);
        assert forall|i: int| 0 <= i < res.len() && res[i] == ';' implies !quote::is_outside(
            res,
            i,
        ) by {
            if i < len {
                assert(res[i] == st[i]);
                assert(res.take(i) =~= st.take(i));
                assert(!statement::is_separator(st, i));
            } else if i < len + 7 {
                assert(res[i] == " LIMIT "@[i - len]);
            } else {
                assert(res[i] == number[i - len - 7]);
            }
        }
        text::lemma_trimmed_of_tight(res);
        statement::law_quoted_semicolons_do_not_cut(res);
    } else {
        statement::law_statements_are_single(sql, k);
    }
}

/// What is sent for a statement, whatever it is. A statement that begins with
/// `SELECT`, in any case, and holds none of `LIMIT`, `GET_QUERY_PROFILE`,
/// `SHOW_PROFILE` and the keyword `UNION`, is sent without its final semicolons and
/// with ` LIMIT ` and the number after it. Every other statement is sent trimmed and
/// otherwise as it is.
pub proof fn law_what_is_sent(sql: Seq<char>, limit: int)
    ensures
        ({
            let t = text::trimmed(sql);
            let u = text::upper(t);
            if text::begins_with(u, "SELECT"@) && !text::contains_text(u, "LIMIT"@)
                && !text::contains_text(u, "GET_QUERY_PROFILE"@) && !text::contains_text(
                u,
                "SHOW_PROFILE"@,
            ) && !(exists|i: int| is_union_at(u, i)) {
                limited(sql, limit) == text::without_trailing(t, ';') + " LIMIT "@
                    + text::signed_decimal(limit)
            } else {
                limited(sql, limit) == t
            }
        }),
{
    law_union_is_a_word_outside_literals(text::upper(text::trimmed(sql)));
}

/// The decision is made on the upper-case form alone, and the text is changed only
/// by it.
pub proof fn law_decision_and_text_are_apart(
    sql: Seq<char>,
    other: Seq<char>,
    sql_upper: Seq<char>,
    limit: int,
)
    ensures
        bounded(sql, sql_upper, limit) == sql || bounded(sql, sql_upper, limit)
            == text::without_trailing(sql, ';') + " LIMIT "@ + text::signed_decimal(limit),
        bounded(sql, sql_upper, limit) == sql <==> bounded(other, sql_upper, limit) == other,
        bounded(sql, sql_upper, limit) == sql <==> !takes_limit(sql_upper),
{
    lemma_with_limit_shows(sql, limit);
    lemma_with_limit_shows(other, limit);
}

proof fn lemma_with_limit_shows(sql: Seq<char>, limit: int)
    ensures
        with_limit(sql, limit) != sql,
{
    reveal_strlit(" LIMIT ");
    lemma_signed_decimal_shape(limit);
    let res = with_limit(sql, limit);
    assert(res.last() == text::signed_decimal(limit).last());
    if res == sql {
        assert(text::without_trailing(sql, ';') == sql);
    }
}

/// Two limits give texts that differ in the number alone: a statement that takes a
/// limit takes any, and the number that is asked for is the number that is sent.
pub proof fn law_asked_limit_is_sent(sql: Seq<char>, limit: int, other: int)
    requires
        limited(sql, limit) != text::trimmed(sql),
    ensures
        limited(sql, other) != text::trimmed(sql),
        exists|start: Seq<char>|
            limited(sql, limit) == #[trigger] (start + text::signed_decimal(limit)) && limited(
                sql,
                other,
            ) == start + text::signed_decimal(other),
{
    let t = text::trimmed(sql);
    lemma_with_limit_shows(t, other);
    let start = text::without_trailing(t, ';') + " LIMIT "@;
    assert(limited(sql, limit) == start + text::signed_decimal(limit));
}

/// Whether a statement takes a limit, with the texts that decide it.
pub proof fn law_what_takes_a_limit(sql_upper: Seq<char>)
    ensures
        takes_limit(sql_upper) <==> {
            &&& text::begins_with(sql_upper, "SELECT"@)
            &&& !text::contains_text(sql_upper, "LIMIT"@)
            &&& !text::contains_text(sql_upper, "GET_QUERY_PROFILE"@)
            &&& !text::contains_text(sql_upper, "SHOW_PROFILE"@)
            &&& !(exists|i: int| is_union_at(sql_upper, i))
        },
{
    law_union_is_a_word_outside_literals(sql_upper);
}

} // verus!
