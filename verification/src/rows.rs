//! Names in the rows that a database answers with.

use vstd::prelude::*;

use crate::text;

verus! {

/// The first cell of a row, trimmed, if the row has one and it is not blank.
pub open spec fn name_in(row: Seq<Seq<char>>) -> Option<Seq<char>> {
    if row.len() > 0 && text::trimmed(row[0]).len() > 0 {
        Some(text::trimmed(row[0]))
    } else {
        None
    }
}

/// A database that belongs to the system and is not shown.
pub open spec fn is_system_database(name: Seq<char>) -> bool {
    name == "information_schema"@ || name == "_statistics_"@
}

/// The name in a row, unless it is that of a system database.
pub open spec fn database_in(row: Seq<Seq<char>>) -> Option<Seq<char>> {
    match name_in(row) {
        Some(name) => if is_system_database(name) {
            None
        } else {
            Some(name)
        },
        None => None,
    }
}

/// The names in `rows`, in order; rows without a name are passed over.
pub open spec fn names_in(rows: Seq<Seq<Seq<char>>>) -> Seq<Seq<char>> {
    rows.filter_map(|row: Seq<Seq<char>>| name_in(row))
}

/// The names in `rows` that are not those of system databases, in order.
pub open spec fn databases_in(rows: Seq<Seq<Seq<char>>>) -> Seq<Seq<char>> {
    rows.filter_map(|row: Seq<Seq<char>>| database_in(row))
}

/// The rows of an answer, if there was no failure.
pub open spec fn rows_of<E>(answer: Result<Vec<Vec<String>>, E>) -> Option<Seq<Seq<Seq<char>>>> {
    match answer {
        Ok(found) => Some(found.deep_view()),
        Err(_) => None,
    }
}

/// The first cell of a row, trimmed, if the row has one and it is not blank.
pub fn row_name(row: &Vec<String>) -> (name: Option<String>)
    ensures
        name.deep_view() == name_in(row.deep_view()),
{
    if row.len() == 0 {
        return None;
    }
    let name = text::trim(row[0].as_str());
    if name.as_str().is_empty() {
        None
    } else {
        Some(name)
    }
}

// ---------------------------------------------------------------------------
// Laws
// ---------------------------------------------------------------------------

/// Every name read out of rows holds something and no white space at either
/// end.
pub proof fn law_names_are_trimmed(rows: Seq<Seq<Seq<char>>>, k: int)
    requires
        0 <= k < names_in(rows).len(),
    ensures
        names_in(rows)[k].len() > 0,
        text::has_tight_ends(names_in(rows)[k]),
{
    let f = |row: Seq<Seq<char>>| name_in(row);
    let name = names_in(rows)[k];
    assert(rows.filter_map(f).contains(name));
    rows.lemma_filter_map_contains(f, name);
    let row = choose|row: Seq<Seq<char>>| #[trigger] rows.contains(row) && f(row) == Some(name);
    text::lemma_trimmed_parts(row[0]);
}

/// The databases are the names, in the same order, without those of system
/// databases.
pub proof fn law_system_databases_are_left_out(rows: Seq<Seq<Seq<char>>>)
    ensures
        databases_in(rows) == names_in(rows).filter(|name: Seq<char>| !is_system_database(name)),
    decreases rows.len(),
{
    reveal(Seq::filter);
    let p = |name: Seq<char>| !is_system_database(name);
    if rows.len() == 0 {
        assert(databases_in(rows) =~= names_in(rows).filter(p));
    } else {
        law_system_databases_are_left_out(rows.drop_last());
        if let Some(name) = name_in(rows.last()) {
            let before = names_in(rows.drop_last());
            assert(names_in(rows) =~= before + seq![name]);
            Seq::filter_distributes_over_add(before, seq![name], p);
            assert(seq![name].drop_last() =~= Seq::empty());
            assert(seq![name].drop_last().filter(p) =~= Seq::empty());
            assert(databases_in(rows) =~= names_in(rows).filter(p));
        }
    }
}

/// Filtering two lists put together is filtering each.
pub proof fn lemma_filter_map_of_concat<A, B>(a: Seq<A>, b: Seq<A>, f: spec_fn(A) -> Option<B>)
    ensures
        (a + b).filter_map(f) == a.filter_map(f) + b.filter_map(f),
    decreases b.len(),
{
    if b.len() == 0 {
        assert(a + b =~= a);
        assert(a.filter_map(f) + b.filter_map(f) =~= a.filter_map(f));
    } else {
        lemma_filter_map_of_concat(a, b.drop_last(), f);
        assert((a + b).drop_last() =~= a + b.drop_last());
        assert((a + b).filter_map(f) =~= a.filter_map(f) + b.filter_map(f));
    }
}

/// Rows are read one by one: what a row gives does not depend on the rows around
/// it, none is lost, and the order stays.
pub proof fn law_rows_are_read_one_by_one(a: Seq<Seq<Seq<char>>>, b: Seq<Seq<Seq<char>>>)
    ensures
        names_in(Seq::empty()) == Seq::<Seq<char>>::empty(),
        databases_in(Seq::empty()) == Seq::<Seq<char>>::empty(),
        names_in(a + b) == names_in(a) + names_in(b),
        databases_in(a + b) == databases_in(a) + databases_in(b),
{
    lemma_filter_map_of_concat(a, b, |row: Seq<Seq<char>>| name_in(row));
    lemma_filter_map_of_concat(a, b, |row: Seq<Seq<char>>| database_in(row));
}

/// A row gives its first cell, trimmed, unless it has no cell or the cell is blank;
/// the other cells do not matter.
pub proof fn law_name_of_a_row(row: Seq<Seq<char>>)
    ensures
        row.len() == 0 ==> names_in(seq![row]) == Seq::<Seq<char>>::empty(),
        row.len() > 0 && text::trimmed(row[0]).len() == 0 ==> names_in(seq![row]) == Seq::<
            Seq<char>,
        >::empty(),
        row.len() > 0 && text::trimmed(row[0]).len() > 0 ==> names_in(seq![row]) == seq![
            text::trimmed(row[0]),
        ],
        name_in(row) == (if names_in(seq![row]).len() == 1 {
            Some(names_in(seq![row])[0])
        } else {
            None
        }),
{
    Seq::lemma_filter_map_singleton(row, |row: Seq<Seq<char>>| name_in(row));
}

/// A row gives a database exactly if its first cell, trimmed, is neither empty nor
/// `information_schema` nor `_statistics_`: every other name is listed.
pub proof fn law_database_of_a_row(row: Seq<Seq<char>>)
    ensures
        row.len() == 0 ==> databases_in(seq![row]) == Seq::<Seq<char>>::empty(),
        row.len() > 0 && (text::trimmed(row[0]).len() == 0 || text::trimmed(row[0])
            == "information_schema"@ || text::trimmed(row[0]) == "_statistics_"@) ==> databases_in(
            seq![row],
        ) == Seq::<Seq<char>>::empty(),
        row.len() > 0 && text::trimmed(row[0]).len() > 0 && text::trimmed(row[0])
            != "information_schema"@ && text::trimmed(row[0]) != "_statistics_"@ ==> databases_in(
            seq![row],
        ) == seq![text::trimmed(row[0])],
{
    Seq::lemma_filter_map_singleton(row, |row: Seq<Seq<char>>| database_in(row));
}

/// The system databases are these two and no others.
pub proof fn law_system_databases(name: Seq<char>)
    ensures
        is_system_database(name) <==> name == "information_schema"@ || name == "_statistics_"@,
{
}

/// An answer that succeeded has its rows, all of them, and one that failed has none,
/// not even an empty list.
pub proof fn law_rows_of_an_answer<E>(found: Vec<Vec<String>>, error: E)
    ensures
        rows_of::<E>(Ok(found)) == Some(found.deep_view()),
        rows_of::<E>(Err(error)) is None,
{
}

} // verus!
