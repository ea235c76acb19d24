//! What is read off the storage: fragments, indices and the messages that come back.
use vstd::prelude::*;

use crate::dataset::{FragmentInfo, IndexStats};
use crate::indices::is_number;
use crate::lance::adapter::{
    contains_text, covers, is_fragment_of, is_index_stats_of, is_source_location, last_separator,
    lists_fragments, shown_name, total, without_locations, FragmentFiles, IndexField,
};
use crate::text::{
    dec, dec_int, is_digit, is_white_space, lemma_dec_digits, lemma_find, lemma_find_unique, split,
    trim, trim_end, trim_start,
};

verus! {

/// The numbers added up.
pub open spec fn sum(sizes: Seq<u64>) -> nat
    decreases sizes.len(),
{
    if sizes.len() == 0 {
        0
    } else {
        sizes[0] as nat + sum(sizes.drop_first())
    }
}

proof fn lemma_sum_push(sizes: Seq<u64>, n: u64)
    ensures
        sum(sizes.push(n)) == sum(sizes) + n,
    decreases sizes.len(),
{
    let all = sizes.push(n);
    if sizes.len() == 0 {
        reveal_with_fuel(sum, 2);
        assert(all.drop_first() =~= Seq::empty());
    } else {
        lemma_sum_push(sizes.drop_first(), n);
        assert(all.drop_first() =~= sizes.drop_first().push(n));
    }
}

proof fn lemma_sum(sizes: Seq<u64>)
    ensures
        total(sizes) == sum(sizes),
    decreases sizes.len(),
{
    if sizes.len() > 0 {
        lemma_sum(sizes.drop_last());
        lemma_sum_push(sizes.drop_last(), sizes.last());
        assert(sizes.drop_last().push(sizes.last()) =~= sizes);
    }
}

/// A listing of fragments has them all in their order, each with its own numbers and
/// files; the size is that of its files together, where it was looked up.
pub proof fn law_fragments_are_listed_as_stored(
    rows: Seq<FragmentInfo>,
    stored: Seq<FragmentFiles>,
    with_size: bool,
    i: int,
)
    requires
        lists_fragments(rows, stored, with_size),
        0 <= i < stored.len(),
    ensures
        rows.len() == stored.len(),
        rows[i].id == stored[i].id,
        rows[i].physical_rows == stored[i].physical_rows,
        rows[i].deleted_rows == stored[i].deleted_rows,
        rows[i].num_files == stored[i].files@.len(),
        rows[i].files@ == stored[i].files@,
        with_size ==> (rows[i].size matches Some(n) && n == sum(stored[i].sizes@)),
        !with_size ==> rows[i].size is None,
{
    assert(is_fragment_of(rows[i], stored[i], with_size));
    lemma_sum(stored[i].sizes@);
}

/// A column of an index is shown by its name, or by its number where it has none.
pub proof fn law_index_columns_are_shown(f: IndexField)
    ensures
        f.name matches Some(n) ==> shown_name(f) == n@,
        f.name is None ==> shown_name(f) == "<field_id="@ + dec_int(f.id as int) + ">"@,
{
}

/// An index covers the columns that it names, and no others.
pub proof fn law_indices_cover_what_they_name(fields: Seq<IndexField>, column: Seq<char>)
    ensures
        covers(fields, column) <==> exists|i: int|
            0 <= i < fields.len() && (#[trigger] fields[i]).name is Some && fields[i].name->Some_0@
                == column,
{
    if covers(fields, column) {
        let i = choose|i: int|
            0 <= i < fields.len() && ((#[trigger] fields[i]).name matches Some(name) && name@
                == column);
        assert(fields[i].name is Some);
    }
    if exists|i: int|
        0 <= i < fields.len() && (#[trigger] fields[i]).name is Some && fields[i].name->Some_0@
            == column {
        let i = choose|i: int|
            0 <= i < fields.len() && (#[trigger] fields[i]).name is Some && fields[i].name->Some_0@
                == column;
        assert(fields[i].name matches Some(name) && name@ == column);
    }
}

/// The statistics of an index are those that it reports, and nothing where it reports
/// none.
pub proof fn law_index_statistics_are_as_reported(
    row: IndexStats,
    name: Seq<char>,
    kind: Option<Seq<char>>,
    indexed: Option<u64>,
    unindexed: Option<u64>,
    detail: Seq<char>,
)
    requires
        is_index_stats_of(row, name, kind, indexed, unindexed, detail),
    ensures
        row.name@ == name,
        row.detail@ == detail,
        kind matches Some(k) ==> row.index_type@ == k,
        kind is None ==> row.index_type@.len() == 0,
        indexed matches Some(n) ==> row.indexed_rows == n,
        indexed is None ==> row.indexed_rows == 0,
        unindexed matches Some(n) ==> row.unindexed_rows == n,
        unindexed is None ==> row.unindexed_rows == 0,
{
}

// ---------- messages ----------

/// A place in a source file: its path, a line and a column.
pub open spec fn place(path: Seq<char>, line: nat, column: nat) -> Seq<char> {
    path + seq!['.', 'r', 's', ':'] + dec(line) + seq![':'] + dec(column)
}

proof fn lemma_split_last(x: Seq<char>, y: Seq<char>, c: char)
    requires
        !y.contains(c),
    ensures
        split(x + seq![c] + y, c) == split(x, c).push(y),
    decreases x.len(),
{
    let all = x + seq![c] + y;
    lemma_find(x, c);
    let n = crate::text::find(x, c) as int;
    assert forall|i: int| 0 <= i < n implies #[trigger] all[i] != c by {
        assert(all[i] == x[i]);
    }
    assert(all[n] == c) by {
        if n < x.len() {
            assert(all[n] == x[n]);
        }
    }
    lemma_find_unique(all, c, n);
    if n < x.len() {
        let rest = x.skip(n + 1);
        lemma_split_last(rest, y, c);
        assert(all.skip(n + 1) =~= rest + seq![c] + y);
        assert(all.take(n) =~= x.take(n));
        assert(split(all, c) =~= split(x, c).push(y));
    } else {
        assert(all.skip(n + 1) =~= y);
        assert(all.take(n) =~= x);
        lemma_find(y, c);
        assert(split(y, c) == seq![y]);
        assert(split(all, c) =~= split(x, c).push(y));
    }
}

proof fn lemma_digits(n: nat)
    ensures
        dec(n).len() > 0,
        is_number(dec(n)),
        !dec(n).contains(':'),
        !dec(n).contains(','),
        !is_white_space(dec(n).last()),
{
    lemma_dec_digits(n);
    let d = dec(n);
    if d.contains(':') {
        let i = choose|i: int| 0 <= i < d.len() && d[i] == ':';
        assert(is_digit(d[i]));
    }
    if d.contains(',') {
        let i = choose|i: int| 0 <= i < d.len() && d[i] == ',';
        assert(is_digit(d[i]));
    }
    assert(is_digit(d[d.len() - 1]));
}

proof fn lemma_place(path: Seq<char>, line: nat, column: nat)
    requires
        path.len() > 0,
        !is_white_space(path[0]),
        !path.contains(','),
    ensures
        is_source_location(place(path, line, column)),
        trim(place(path, line, column)) == place(path, line, column),
        !place(path, line, column).contains(','),
        place(path, line, column).len() > 0,
{
    let s = place(path, line, column);
    lemma_digits(line);
    lemma_digits(column);
    let file = path + seq!['.', 'r', 's'];
    let head = file + seq![':'] + dec(line);
    assert(s =~= head + seq![':'] + dec(column));
    lemma_split_last(head, dec(column), ':');
    lemma_split_last(file, dec(line), ':');
    let parts = split(s, ':');
    crate::text::lemma_split_nonempty(file, ':');
    assert(parts == split(file, ':').push(dec(line)).push(dec(column)));
    assert(parts.last() == dec(column));
    assert(parts[parts.len() - 2] == dec(line));
    reveal_strlit(".rs:");
    let k = path.len() as int;
    assert(s.subrange(k, k + 4) =~= ".rs:"@);
    assert(contains_text(s, ".rs:"@));
    assert(s[0] == path[0]);
    assert(s.last() == dec(column).last());
    assert(trim_start(s) == s);
    assert(trim_end(s) == s);
    if s.contains(',') {
        let i = choose|i: int| 0 <= i < s.len() && s[i] == ',';
        let a = path.len() as int;
        let b = a + 4 + dec(line).len();
        if i < a {
            assert(path[i] == ',');
        } else if i < a + 4 {
            assert(s[i] == seq!['.', 'r', 's', ':'][i - a]);
        } else if i < b {
            assert(dec(line)[i - a - 4] == ',');
        } else if i == b {
            assert(s[i] == ':');
        } else {
            assert(dec(column)[i - b - 1] == ',');
        }
    }
}

proof fn lemma_separator(s: Seq<char>, at: int, n: nat)
    requires
        0 <= at < n <= s.len(),
        at + 1 < s.len(),
        s[at] == ',',
        s[at + 1] == ' ',
        forall|k: int| at < k < s.len() ==> s[k] != ',',
    ensures
        last_separator(s, n) == Some(at as nat),
    decreases n,
{
    if n - 1 != at {
        assert(s[n - 1] != ',');
        lemma_separator(s, at, (n - 1) as nat);
    }
}

/// A place in a source file at the end of a message, behind a comma, is taken off it;
/// the rest is the message as if it had not been there.
pub proof fn law_source_locations_are_taken_off(
    message: Seq<char>,
    path: Seq<char>,
    line: nat,
    column: nat,
)
    requires
        path.len() > 0,
        !is_white_space(path[0]),
        !path.contains(','),
    ensures
        without_locations(message + seq![',', ' '] + place(path, line, column)) == without_locations(
            trim_end(message),
        ),
{
    let p = place(path, line, column);
    lemma_place(path, line, column);
    let s = message + seq![',', ' '] + p;
    let at = message.len() as int;
    assert(s[at] == ',' && s[at + 1] == ' ');
    assert forall|k: int| at < k < s.len() implies s[k] != ',' by {
        if k > at + 1 {
            if s[k] == ',' {
                assert(p[k - at - 2] == ',');
                assert(p.contains(','));
            }
        }
    }
    lemma_separator(s, at, s.len());
    assert(s.skip(at + 2) =~= p);
    assert(s.take(at) =~= message);
}

/// A message without a comma is left as it is.
pub proof fn law_other_messages_are_left(message: Seq<char>)
    requires
        !message.contains(','),
    ensures
        without_locations(message) == message,
{
    lemma_no_separator(message, message.len());
}

proof fn lemma_no_separator(s: Seq<char>, n: nat)
    requires
        !s.contains(','),
        n <= s.len(),
    ensures
        last_separator(s, n) is None,
    decreases n,
{
    if n > 0 {
        if s[n - 1] == ',' {
            assert(s.contains(','));
        }
        lemma_no_separator(s, (n - 1) as nat);
    }
}

} // verus!
