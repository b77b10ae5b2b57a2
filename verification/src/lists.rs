//! Word lists: named, explicitly ordered lists stored in the user database.
//! Every mutation is recorded in the sync outbox inside the same
//! transaction as the mutation itself, so offline changes are never lost.
//!
//! This module holds what the list commands decide: name validation, the
//! new list's record, the outcome of the lookups that guard an add or a
//! removal, where a moved item goes, and the TSV export.

use vstd::prelude::*;

use crate::db::{is_rfc3339_utc, is_uuid_v4_text, new_id, now};
use crate::error::{not_found, AppError};
use crate::search::{get_entry, EntrySummary};
use crate::text::{chars_of, decimal, push_char, spec_trim, to_string, trim};

verus! {

broadcast use vstd::seq_lib::group_seq_properties;

/// A word list as shown in the list overview.
#[derive(Debug, PartialEq, Eq)]
pub struct WordList {
    pub id: String,
    pub name: String,
    pub item_count: i64,
    pub updated_at: String,
    pub sync_state: String,
}

/// A list name with surrounding whitespace removed; a name that is empty
/// once trimmed is rejected.
pub fn validate_list_name(name: &str) -> (r: Result<String, AppError>)
    ensures
        spec_trim(name@).len() > 0 ==> (r matches Ok(n) && n@ == spec_trim(name@)),
        spec_trim(name@).len() == 0 ==> (r matches Err(AppError::Invalid(m))
            && m@ == "list name cannot be empty"@),
{
    let n = trim(name);
    if n.as_str().is_empty() {
        Err(AppError::Invalid(to_string("list name cannot be empty")))
    } else {
        Ok(n)
    }
}

/// The record of a newly created list: a fresh id, the trimmed name, no
/// items, the current time, and pending sync. A name that is empty once
/// trimmed is rejected.
pub fn create_list(name: &str) -> (r: Result<WordList, AppError>)
    ensures
        spec_trim(name@).len() > 0 ==> (r matches Ok(l) && {
            &&& l.name@ == spec_trim(name@)
            &&& l.item_count == 0
            &&& l.sync_state@ == "pending"@
            &&& is_uuid_v4_text(l.id@)
            &&& is_rfc3339_utc(l.updated_at@)
        }),
        spec_trim(name@).len() == 0 ==> (r matches Err(AppError::Invalid(m))
            && m@ == "list name cannot be empty"@),
{
    let name = validate_list_name(name)?;
    let id = new_id();
    let ts = now();
    Ok(WordList { id, name, item_count: 0, updated_at: ts, sync_state: to_string("pending") })
}

/// The row a guarding lookup found, `not found: <what> <id>` when it found
/// none, or the database error.
pub fn require_found<T>(found: Result<Option<T>, AppError>, what: &str, id: &str) -> (r: Result<
    T,
    AppError,
>)
    ensures
        match found {
            Ok(Some(v)) => r == Ok::<T, AppError>(v),
            Ok(None) => r matches Err(AppError::NotFound(m)) && m@ == what@ + " "@ + id@,
            Err(e) => r == Err::<T, AppError>(e),
        },
{
    match found {
        Ok(Some(v)) => Ok(v),
        Ok(None) => Err(not_found(what, id)),
        Err(e) => Err(e),
    }
}

/// The outcome of an update that should have changed one list row:
/// `not found: list <id>` when it changed none.
pub fn list_updated(id: &str, changed: usize) -> (r: Result<(), AppError>)
    ensures
        changed > 0 ==> r is Ok,
        changed == 0 ==> (r matches Err(AppError::NotFound(m)) && m@ == "list "@ + id@),
{
    proof {
        reveal_strlit("list");
        reveal_strlit(" ");
        reveal_strlit("list ");
    }
    if changed == 0 {
        Err(not_found("list", id))
    } else {
        Ok(())
    }
}

/// A new list item, checked against its list and entry.
#[derive(Debug, PartialEq, Eq)]
pub struct NewItem {
    /// The name of the list the item goes into.
    pub list_name: String,
    /// The dictionary entry the item holds.
    pub entry: EntrySummary,
    /// A fresh id for the item.
    pub item_id: String,
    /// When the item is added.
    pub added_at: String,
}

/// The text of the error for an entry already in a list:
/// `'<simplified>' is already in list '<list name>'`.
pub open spec fn duplicate_message(simplified: Seq<char>, list_name: Seq<char>) -> Seq<char> {
    seq!['\''] + simplified + "' is already in list '"@ + list_name + seq!['\'']
}

/// Adding an entry to a list, given the three lookups that guard it, in
/// order: the list's name (the list must exist and not be deleted), the
/// entry (it must exist in the dictionary), and a live item of the list
/// holding the same entry (there must be none: duplicates are rejected so
/// the UI can prompt instead of silently duplicating). The first lookup
/// that fails decides the error.
pub fn add_to_list(
    list_id: &str,
    entry_id: i64,
    list_name: Result<Option<String>, AppError>,
    entry: Result<Option<EntrySummary>, AppError>,
    dupe: Result<Option<String>, AppError>,
) -> (r: Result<NewItem, AppError>)
    ensures
        match (list_name, entry, dupe) {
            (Err(e), _, _) => r == Err::<NewItem, AppError>(e),
            (Ok(None), _, _) => r matches Err(AppError::NotFound(m)) && m@ == "list "@ + list_id@,
            (Ok(Some(_)), Err(e), _) => r == Err::<NewItem, AppError>(e),
            (Ok(Some(_)), Ok(None), _) => r matches Err(AppError::NotFound(m)) && m@ == "entry "@
                + decimal(entry_id as int),
            (Ok(Some(_)), Ok(Some(_)), Err(e)) => r == Err::<NewItem, AppError>(e),
            (Ok(Some(n)), Ok(Some(e)), Ok(Some(_))) => r matches Err(AppError::Duplicate(m)) && m@
                == duplicate_message(e.simplified@, n@),
            (Ok(Some(n)), Ok(Some(e)), Ok(None)) => r matches Ok(item) && {
                &&& item.list_name == n
                &&& item.entry == e
                &&& is_uuid_v4_text(item.item_id@)
                &&& is_rfc3339_utc(item.added_at@)
            },
        },
{
    proof {
        reveal_strlit("list");
        reveal_strlit(" ");
        reveal_strlit("list ");
    }
    let list_name = require_found(list_name, "list", list_id)?;
    let entry = get_entry(entry_id, entry)?;
    match dupe {
        Err(e) => {
            return Err(e);
        },
        Ok(Some(_)) => {
            let mut m = to_string("'");
            m.append(entry.simplified.as_str());
            m.append("' is already in list '");
            m.append(list_name.as_str());
            m.append("'");
            proof {
                reveal_strlit("'");
            }
            return Err(AppError::Duplicate(m));
        },
        Ok(None) => {},
    }
    let item_id = new_id();
    let added_at = now();
    Ok(NewItem { list_name, entry, item_id, added_at })
}

/// Where a moved item goes among the list's other items (in list order).
#[derive(Debug, Clone, Copy, PartialEq, Eq, Structural)]
pub enum Placement {
    /// The list has no other item: the item takes position 1.
    Alone,
    /// Before the first other item: one less than its position.
    First,
    /// After the last other item: one more than its position.
    Last,
    /// Between the other items at `i - 1` and `i`: halfway between their
    /// positions.
    Between(usize),
}

/// Where an item moved to `new_index` goes among `others` other items.
pub open spec fn placement_of(others: usize, new_index: usize) -> Placement {
    if others == 0 {
        Placement::Alone
    } else if new_index == 0 {
        Placement::First
    } else if new_index >= others {
        Placement::Last
    } else {
        Placement::Between(new_index)
    }
}

/// Where an item moved to `new_index` (an index into the list's order
/// without the item; larger indexes mean the end) goes among the `others`
/// other items. Positions are fractional so a move only rewrites one row.
pub fn placement(others: usize, new_index: usize) -> (r: Placement)
    ensures
        r == placement_of(others, new_index),
{
    let idx = if new_index < others {
        new_index
    } else {
        others
    };
    if others == 0 {
        Placement::Alone
    } else if idx == 0 {
        Placement::First
    } else if idx >= others {
        Placement::Last
    } else {
        Placement::Between(idx)
    }
}

/// Explicit user-controlled ordering: moving item `item_id` to
/// `new_index` within its list's current order, given the lookup of the
/// item's list (a live item must exist) and the number of the list's other
/// live items. Gives the list and where the item goes; a missing item is
/// `not found: item <id>` and nothing moves.
pub fn move_item(
    item_id: &str,
    list_id: Result<Option<String>, AppError>,
    others: usize,
    new_index: usize,
) -> (r: Result<(String, Placement), AppError>)
    ensures
        match list_id {
            Ok(Some(l)) => r matches Ok((l2, p)) && l2 == l && p == placement_of(others, new_index),
            Ok(None) => r matches Err(AppError::NotFound(m)) && m@ == "item "@ + item_id@,
            Err(e) => r == Err::<(String, Placement), AppError>(e),
        },
{
    proof {
        reveal_strlit("item");
        reveal_strlit(" ");
        reveal_strlit("item ");
    }
    let list = require_found(list_id, "item", item_id)?;
    Ok((list, placement(others, new_index)))
}

/// The header line of a TSV export.
pub open spec fn tsv_header() -> Seq<char> {
    "Simplified\tTraditional\tPinyin\tEnglish\n"@
}

/// A field with tabs and newlines replaced by spaces.
pub open spec fn tsv_clean(s: Seq<char>) -> Seq<char> {
    s.map_values(|c: char| if c == '\t' || c == '\n' { ' ' } else { c })
}

/// One exported line: Simplified, Traditional, Pinyin, English.
pub open spec fn tsv_line(e: EntrySummary) -> Seq<char> {
    e.simplified@ + seq!['\t'] + e.traditional@ + seq!['\t'] + e.pinyin_marks@ + seq!['\t']
        + tsv_clean(e.definitions@) + seq!['\n']
}

/// A list exported as TSV: the header, then one line per item, in order.
pub open spec fn spec_export_tsv(items: Seq<EntrySummary>) -> Seq<char> {
    tsv_header() + items.flat_map(|e: EntrySummary| tsv_line(e))
}

fn push_str(out: &mut String, s: &String)
    ensures
        final(out)@ == old(out)@ + s@,
{
    out.append(s.as_str());
}

fn push_tsv_line(out: &mut String, e: &EntrySummary)
    ensures
        final(out)@ == old(out)@ + tsv_line(*e),
{
    push_str(out, &e.simplified);
    push_char(out, '\t');
    push_str(out, &e.traditional);
    push_char(out, '\t');
    push_str(out, &e.pinyin_marks);
    push_char(out, '\t');
    let defs = chars_of(e.definitions.as_str());
    let ghost base = out@;
    let mut i: usize = 0;
    while i < defs.len()
        invariant
            i <= defs@.len(),
            defs@ == e.definitions@,
            out@ == base + tsv_clean(defs@.take(i as int)),
        decreases defs@.len() - i,
    {
        let c = defs[i];
        push_char(out, if c == '\t' || c == '\n' { ' ' } else { c });
        i += 1;
        assert(defs@.take(i as int) == defs@.take(i - 1).push(c));
    }
    assert(defs@.take(defs@.len() as int) == defs@);
    push_char(out, '\n');
}

/// Export a list in order as TSV (Simplified, Traditional, Pinyin,
/// English); tabs and newlines inside definitions become spaces.
pub fn export_list_tsv(items: &Vec<EntrySummary>) -> (r: String)
    ensures
        r@ == spec_export_tsv(items@),
{
    let mut out = to_string("Simplified\tTraditional\tPinyin\tEnglish\n");
    let ghost f = |e: EntrySummary| tsv_line(e);
    let mut i: usize = 0;
    while i < items.len()
        invariant
            i <= items@.len(),
            f == (|e: EntrySummary| tsv_line(e)),
            out@ == tsv_header() + items@.take(i as int).flat_map(f),
        decreases items@.len() - i,
    {
        proof {
            items@.lemma_flat_map_take_append(f, i as int);
        }
        push_tsv_line(&mut out, &items[i]);
        i += 1;
    }
    assert(items@.take(items@.len() as int) == items@);
    out
}

/// How many times `c` occurs in `s`.
pub open spec fn count_char(s: Seq<char>, c: char) -> nat {
    s.filter(|x: char| x == c).len()
}

/// Whether `c` does not occur in `s`.
pub open spec fn free_of(s: Seq<char>, c: char) -> bool {
    forall|i: int| 0 <= i < s.len() ==> s[i] != c
}

proof fn lemma_count_absent(s: Seq<char>, c: char)
    requires
        free_of(s, c),
    ensures
        count_char(s, c) == 0,
    decreases s.len(),
{
    reveal(Seq::filter);
    if s.len() > 0 {
        lemma_count_absent(s.drop_last(), c);
    }
}

proof fn lemma_count_concat(a: Seq<char>, b: Seq<char>, c: char)
    ensures
        count_char(a + b, c) == count_char(a, c) + count_char(b, c),
{
    Seq::filter_distributes_over_add(a, b, |x: char| x == c);
}

/// Cleaning leaves no tab and no newline: the English column stays one
/// field of one line.
pub proof fn lemma_tsv_clean(s: Seq<char>)
    ensures
        free_of(tsv_clean(s), '\t'),
        free_of(tsv_clean(s), '\n'),
{
}

/// Each exported item is one line: when no item's Simplified, Traditional
/// or Pinyin text holds a newline, the export holds one newline per item
/// plus the header's.
pub proof fn lemma_export_tsv_lines(items: Seq<EntrySummary>)
    requires
        forall|i: int|
            0 <= i < items.len() ==> free_of((#[trigger] items[i]).simplified@, '\n') && free_of(
                items[i].traditional@,
                '\n',
            ) && free_of(items[i].pinyin_marks@, '\n'),
    ensures
        count_char(spec_export_tsv(items), '\n') == items.len() + 1,
    decreases items.len(),
{
    let f = |e: EntrySummary| tsv_line(e);
    if items.len() == 0 {
        reveal_strlit("Simplified\tTraditional\tPinyin\tEnglish\n");
        let h = tsv_header();
        let head = h.drop_last();
        assert(h == head + seq!['\n']);
        assert(free_of(head, '\n'));
        lemma_count_absent(head, '\n');
        lemma_count_concat(head, seq!['\n'], '\n');
        reveal_with_fuel(Seq::filter, 2);
        assert(items.flat_map(f) == Seq::<char>::empty());
        assert(spec_export_tsv(items) == h);
    } else {
        let rest = items.drop_last();
        let e = items.last();
        lemma_export_tsv_lines(rest);
        rest.lemma_flat_map_push(f, e);
        assert(items == rest.push(e));
        assert(spec_export_tsv(items) == spec_export_tsv(rest) + tsv_line(e));
        lemma_count_concat(spec_export_tsv(rest), tsv_line(e), '\n');
        let t = '\t';
        let n = '\n';
        let body = e.simplified@ + seq![t] + e.traditional@ + seq![t] + e.pinyin_marks@ + seq![t]
            + tsv_clean(e.definitions@);
        assert(tsv_line(e) == body + seq![n]);
        assert(free_of(body, n)) by {
            assert(free_of(e.simplified@, n));
            assert(free_of(e.traditional@, n));
            assert(free_of(e.pinyin_marks@, n));
        }
        lemma_count_absent(body, n);
        lemma_count_concat(body, seq![n], n);
        reveal_with_fuel(Seq::filter, 2);
    }
}

} // verus!
