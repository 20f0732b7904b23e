//! Resolving a template against a row.
//!
//! The template is scanned once for its placeholders. They are then taken
//! in order, each distinct text once: where a column bears the trimmed name,
//! every occurrence of the placeholder's text in the text as it stands by
//! then is replaced by the row's value for that column; where none does,
//! the name is noted as missing. What a replacement brings in is never
//! scanned for placeholders of its own.

use crate::database::model::column_named;
use crate::database::models::{row_text, Column, ColumnView, Row, RowView};
use crate::prompt::replace::{joined, push_joined, replace_all, replace_chars, same_chars};
use crate::prompt::scan::{
    find_placeholders, lemma_placeholders_from, placeholders, trim_range, trimmed,
};
use crate::seqs::{find_first, lemma_first_index_is, views};
use crate::text::{from_chars, str_eq, to_chars};
use vstd::prelude::*;
use vstd::string::StringExecFns;

verus! {

/// The names that a template refers to and no column bears, each once, in
/// the order in which the template first mentions them.
#[derive(Debug, PartialEq, Eq)]
pub struct MaterializeError {
    pub missing: Vec<String>,
}

/// The text of `MaterializeError::message`.
pub open spec fn missing_message(missing: Seq<Seq<char>>) -> Seq<char> {
    "Referenced columns not found: "@ + joined(missing, ", "@)
}

impl MaterializeError {
    /// The missing names after a fixed heading, separated by a comma and a
    /// space.
    pub fn message(&self) -> (text: String)
        ensures
            text@ == missing_message(self.missing.deep_view()),
    {
        let mut text = String::from_str("Referenced columns not found: ");
        push_joined(&mut text, &self.missing, ", ");
        text
    }
}

/// The text of the placeholder `at`: both pairs of braces and what stands
/// between them.
pub open spec fn pattern_at(template: Seq<char>, at: (int, int)) -> Seq<char> {
    template.subrange(at.0, at.1)
}

/// The name that the placeholder `at` refers to: what stands between its
/// braces, trimmed.
pub open spec fn name_at(template: Seq<char>, at: (int, int)) -> Seq<char> {
    trimmed(template.subrange(at.0 + 2, at.1 - 2))
}

/// Whether the text of the `k`-th placeholder is that of an earlier one.
pub open spec fn seen_before(template: Seq<char>, found: Seq<(int, int)>, k: int) -> bool {
    exists|j: int| 0 <= j < k && pattern_at(template, #[trigger] found[j]) == pattern_at(template, found[k])
}

/// What `row` has to put in place of a reference to `column`: the value of
/// its cell for the column, or nothing.
pub open spec fn value_for(row: RowView, column: ColumnView) -> Seq<char> {
    row_text(row, column.id)
}

/// How far the resolution of a template has come.
pub struct Resolution {
    pub text: Seq<char>,
    pub missing: Seq<Seq<char>>,
}

/// `missing` with `name` noted, once.
pub open spec fn noted(missing: Seq<Seq<char>>, name: Seq<char>) -> Seq<Seq<char>> {
    if missing.contains(name) {
        missing
    } else {
        missing.push(name)
    }
}

/// The resolution after the `k`-th placeholder has been taken.
pub open spec fn resolve_one(
    template: Seq<char>,
    found: Seq<(int, int)>,
    k: int,
    row: RowView,
    columns: Seq<ColumnView>,
    so_far: Resolution,
) -> Resolution {
    if seen_before(template, found, k) {
        so_far
    } else {
        match find_first(columns, column_named(name_at(template, found[k]))) {
            Some(column) => Resolution {
                text: replace_all(so_far.text, pattern_at(template, found[k]), value_for(row, column)),
                missing: so_far.missing,
            },
            None => Resolution {
                text: so_far.text,
                missing: noted(so_far.missing, name_at(template, found[k])),
            },
        }
    }
}

/// The resolution after the first `n` placeholders have been taken.
pub open spec fn resolve_first(
    template: Seq<char>,
    found: Seq<(int, int)>,
    n: int,
    row: RowView,
    columns: Seq<ColumnView>,
) -> Resolution
    decreases n,
{
    if n <= 0 {
        Resolution { text: template, missing: Seq::empty() }
    } else {
        resolve_one(template, found, n - 1, row, columns, resolve_first(template, found, n - 1, row, columns))
    }
}

/// What materializing `template` against `row` and `columns` gives: the
/// resolved text where every name is borne by a column, the missing names
/// otherwise.
pub open spec fn materialized(template: Seq<char>, row: RowView, columns: Seq<ColumnView>) -> Result<
    Seq<char>,
    Seq<Seq<char>>,
> {
    let found = placeholders(template);
    let end = resolve_first(template, found, found.len() as int, row, columns);
    if end.missing.len() > 0 {
        Err(end.missing)
    } else {
        Ok(end.text)
    }
}

/// The first of `columns` that bears `name`.
fn find_column_named<'a>(columns: &'a [Column], name: &str) -> (found: Option<&'a Column>)
    ensures
        found.deep_view() == find_first(views(columns@), column_named(name@)),
{
    let mut i: usize = 0;
    while i < columns.len()
        invariant
            i <= columns.len(),
            forall|j: int| 0 <= j < i ==> !column_named(name@)(#[trigger] views(columns@)[j]),
        decreases columns.len() - i,
    {
        if str_eq(columns[i].name.as_str(), name) {
            proof {
                lemma_first_index_is(views(columns@), column_named(name@), i as int);
            }
            return Some(&columns[i]);
        }
        i += 1;
    }
    proof {
        lemma_first_index_is(views(columns@), column_named(name@), i as int);
    }
    None
}

/// Whether `name` is among `names`.
fn is_noted(names: &Vec<String>, name: &str) -> (noted: bool)
    ensures
        noted == names.deep_view().contains(name@),
{
    let mut i: usize = 0;
    while i < names.len()
        invariant
            i <= names.len(),
            forall|j: int| 0 <= j < i ==> #[trigger] names.deep_view()[j] != name@,
        decreases names.len() - i,
    {
        if str_eq(names[i].as_str(), name) {
            assert(names.deep_view()[i as int] == name@);
            return true;
        }
        i += 1;
    }
    false
}

/// Whether the text of the `k`-th placeholder found is that of an earlier
/// one.
fn is_seen_before(chars: &Vec<char>, found: &Vec<(usize, usize)>, k: usize) -> (seen: bool)
    requires
        k < found.len(),
        forall|j: int| 0 <= j < found.len() ==> (#[trigger] found@[j]).0 <= found@[j].1 <= chars.len(),
    ensures
        seen == (exists|j: int|
            0 <= j < k && chars@.subrange((#[trigger] found@[j]).0 as int, found@[j].1 as int)
                == chars@.subrange(found@[k as int].0 as int, found@[k as int].1 as int)),
{
    let (start, end) = found[k];
    let mut j: usize = 0;
    while j < k
        invariant
            j <= k < found.len(),
            (start, end) == found@[k as int],
            start <= end <= chars.len(),
            forall|i: int| 0 <= i < found.len() ==> (#[trigger] found@[i]).0 <= found@[i].1 <= chars.len(),
            forall|i: int|
                0 <= i < j ==> chars@.subrange((#[trigger] found@[i]).0 as int, found@[i].1 as int)
                    != chars@.subrange(start as int, end as int),
        decreases k - j,
    {
        let (other_start, other_end) = found[j];
        if other_end - other_start == end - start {
            if same_chars(chars, other_start, chars, start, end - start) {
                return true;
            }
        } else {
            assert(chars@.subrange(other_start as int, other_end as int).len() != chars@.subrange(
                start as int,
                end as int,
            ).len());
        }
        j += 1;
    }
    false
}

/// The characters `chars[from..to]`, copied.
fn copy_range(chars: &Vec<char>, from: usize, to: usize) -> (copy: Vec<char>)
    requires
        from <= to <= chars.len(),
    ensures
        copy@ == chars@.subrange(from as int, to as int),
{
    let mut copy: Vec<char> = Vec::new();
    let mut i: usize = from;
    while i < to
        invariant
            from <= i <= to <= chars.len(),
            copy@ == chars@.subrange(from as int, i as int),
        decreases to - i,
    {
        copy.push(chars[i]);
        i += 1;
        assert(copy@ =~= chars@.subrange(from as int, i as int));
    }
    copy
}

/// Resolves the placeholders of `template` against `row`: each reference
/// to a column of `columns`, by name, gives way to the row's value for that
/// column, or to nothing where the row has none. Fails, with every missing
/// name, if a name is borne by no column; nothing is returned half resolved.
pub fn materialize_prompt(template: &str, row: &Row, columns: &[Column]) -> (outcome: Result<
    String,
    MaterializeError,
>)
    ensures
        outcome matches Ok(text) ==> materialized(template@, row@, views(columns@)) == Ok::<
            Seq<char>,
            Seq<Seq<char>>,
        >(text@),
        outcome matches Err(error) ==> materialized(template@, row@, views(columns@)) == Err::<
            Seq<char>,
            Seq<Seq<char>>,
        >(error.missing.deep_view()),
{
    let chars = to_chars(template);
    let found = find_placeholders(&chars);
    let ghost spans = placeholders(template@);
    proof {
        lemma_placeholders_from(template@, 0);
    }
    let mut text: Vec<char> = chars.clone();
    let mut missing: Vec<String> = Vec::new();
    let mut k: usize = 0;
    assert(missing.deep_view() =~= Seq::empty());
    while k < found.len()
        invariant
            k <= found.len(),
            chars@ == template@,
            spans == placeholders(template@),
            found@.len() == spans.len(),
            forall|j: int|
                0 <= j < found@.len() ==> (#[trigger] found@[j]).0 == spans[j].0 && found@[j].1
                    == spans[j].1,
            forall|j: int|
                0 <= j < spans.len() ==> 0 <= (#[trigger] spans[j]).0 && spans[j].0 + 5 <= spans[j].1
                    <= template@.len(),
            (Resolution { text: text@, missing: missing.deep_view() }) == resolve_first(
                template@,
                spans,
                k as int,
                row@,
                views(columns@),
            ),
        decreases found.len() - k,
    {
        let (start, end) = found[k];
        proof {
            assert(spans[k as int].0 == start && spans[k as int].1 == end);
            assert forall|j: int| 0 <= j < found.len() implies (#[trigger] found@[j]).0 <= found@[j].1
                <= chars.len() by {
                assert(spans[j].0 + 5 <= spans[j].1);
            }
        }
        let seen = is_seen_before(&chars, &found, k);
        proof {
            if seen {
                let j = choose|j: int|
                    0 <= j < k && chars@.subrange((#[trigger] found@[j]).0 as int, found@[j].1 as int)
                        == chars@.subrange(found@[k as int].0 as int, found@[k as int].1 as int);
                assert(pattern_at(template@, spans[j]) == pattern_at(template@, spans[k as int]));
            } else if seen_before(template@, spans, k as int) {
                let j = choose|j: int|
                    0 <= j < k && pattern_at(template@, #[trigger] spans[j]) == pattern_at(
                        template@,
                        spans[k as int],
                    );
                assert(chars@.subrange(found@[j].0 as int, found@[j].1 as int) == chars@.subrange(
                    found@[k as int].0 as int,
                    found@[k as int].1 as int,
                ));
            }
            assert(seen == seen_before(template@, spans, k as int));
        }
        if !seen {
            let (name_start, name_end) = trim_range(&chars, start + 2, end - 2);
            let name_chars = copy_range(&chars, name_start, name_end);
            let name = from_chars(&name_chars);
            assert(name@ == name_at(template@, spans[k as int]));
            match find_column_named(columns, name.as_str()) {
                Some(column) => {
                    let pattern = copy_range(&chars, start, end);
                    let value = match row.get_cell_value(column.id.as_str()) {
                        Some(value) => to_chars(value.as_str()),
                        None => Vec::new(),
                    };
                    assert(value@ == value_for(row@, column@));
                    text = replace_chars(&text, &pattern, &value);
                },
                None => {
                    if !is_noted(&missing, name.as_str()) {
                        let ghost before = missing.deep_view();
                        missing.push(name);
                        assert(missing.deep_view() =~= before.push(name@));
                    }
                },
            }
        }
        k += 1;
    }
    if missing.len() > 0 {
        Err(MaterializeError { missing })
    } else {
        Ok(from_chars(&text))
    }
}

} // verus!
