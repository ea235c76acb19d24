//! Command lines: which format and options are used, and what is refused.
use vstd::prelude::*;

use crate::cli::{BinaryFormat, Cli, Command, Format};
use crate::commands::diff::{mode_of, row_format_name, Mode};
use crate::commands::lance::diff::DiffSelectors;
use crate::commands::sample::{picks, place_of, Place};
use crate::commands::{
    answers_diff, carries_flags, derived_name, format_refusal, format_used, options_of,
    rendering_flag, rowless_name, selectors_of, summary_name, FormatRefusal, Plan, Work,
};
use crate::dataset::{is_scheme_char, scheme_at, scheme_qualified};
use crate::error::Error;
use crate::output::only_binary;

verus! {

/// True of the commands that print rows of a dataset as they are stored.
pub open spec fn prints_rows(c: Command) -> bool {
    c is Cat || c is Head || c is Tail || c is Take || c is Sample
}

/// True of the commands whose output has no rows.
pub open spec fn prints_no_rows(c: Command) -> bool {
    c is Rowcount || c is Schema || c is Blob || c is Completions
}

/// True of the commands that print a summary or a listing.
pub open spec fn prints_a_listing(c: Command) -> bool {
    c is Freq || c is Versions || c is Branches || c is Tags || c is Indices || c is IndexStats
        || c is Fragments || c is Stats || c is Stat
}

/// Every command prints rows, a listing, the results of a search, a comparison, or
/// none of these.
pub proof fn law_every_command_prints_one_thing(c: Command)
    ensures
        rowless_name(c) is Some <==> prints_no_rows(c),
        summary_name(c) is Some <==> prints_a_listing(c),
        derived_name(c) is Some <==> prints_a_listing(c) || c is Search,
        prints_rows(c) <==> !prints_no_rows(c) && !prints_a_listing(c) && !(c is Search) && !(
        c is Diff),
{
}

/// A format that is asked for is used. Otherwise listings are tables and everything
/// else is JSON lines.
pub proof fn law_listings_are_tables_by_default(c: Command, f: Format)
    ensures
        format_used(Some(f), c) == f,
        prints_a_listing(c) ==> format_used(None, c) == Format::Table,
        !prints_a_listing(c) ==> format_used(None, c) == Format::Jsonl,
{
}

/// A command goes by its name.
pub proof fn law_commands_go_by_their_names(c: Command)
    ensures
        c is Rowcount ==> rowless_name(c) == Some("rowcount"@),
        c is Schema ==> rowless_name(c) == Some("schema"@),
        c is Blob ==> rowless_name(c) == Some("blob"@),
        c is Completions ==> rowless_name(c) == Some("completions"@),
        c is Freq ==> derived_name(c) == Some("freq"@),
        c is Versions ==> derived_name(c) == Some("versions"@),
        c is Branches ==> derived_name(c) == Some("branches"@),
        c is Tags ==> derived_name(c) == Some("tags"@),
        c is Indices ==> derived_name(c) == Some("indices"@),
        c is IndexStats ==> derived_name(c) == Some("index-stats"@),
        c is Fragments ==> derived_name(c) == Some("fragments"@),
        c is Stats ==> derived_name(c) == Some("stats"@),
        c is Stat ==> derived_name(c) == Some("stat"@),
        c is Search ==> derived_name(c) == Some("search"@),
{
}

/// True where values are to be shown as they are by default.
pub open spec fn shown_by_default(cli: Cli) -> bool {
    cli.binary_format == BinaryFormat::Placeholder && cli.max_list_items is None
        && cli.max_cell_width is None && cli.float_precision is None
}

/// A command line is refused for its format exactly where it asks for one of a
/// command without rows, or for the binary format of what is no stored row, or for
/// that together with a way to show values.
pub proof fn law_formats_are_refused_where_they_cannot_apply(cli: Cli)
    ensures
        cli.format is None ==> format_refusal(cli) is None,
        cli.format is Some && prints_no_rows(cli.command) ==> (format_refusal(cli) matches Some(
            FormatRefusal::NoRows(name),
        ) && rowless_name(cli.command) == Some(name)),
        cli.format is Some && !prints_no_rows(cli.command) && cli.format != Some(Format::Ipc)
            ==> format_refusal(cli) is None,
        cli.format == Some(Format::Ipc) && (prints_a_listing(cli.command) || cli.command is Search)
            ==> (format_refusal(cli) matches Some(FormatRefusal::NotRaw(name)) && derived_name(
            cli.command,
        ) == Some(name)),
        cli.format == Some(Format::Ipc) && prints_rows(cli.command) ==> (format_refusal(cli) is None
            <==> shown_by_default(cli)),
        cli.format == Some(Format::Ipc) && prints_rows(cli.command) && !shown_by_default(cli) ==> (
        format_refusal(cli) matches Some(FormatRefusal::Rendering(flag)) && rendering_flag(cli) == Some(
            flag,
        )),
        cli.command is Diff ==> format_refusal(cli) is None,
{
}

/// The flag that is named is one that was given.
pub proof fn law_refused_flag_was_given(cli: Cli)
    ensures
        rendering_flag(cli) is None <==> shown_by_default(cli),
        rendering_flag(cli) == Some("--binary-format"@) ==> cli.binary_format
            != BinaryFormat::Placeholder,
        rendering_flag(cli) == Some("--max-list-items"@) ==> cli.max_list_items is Some,
        rendering_flag(cli) == Some("--max-cell-width"@) ==> cli.max_cell_width is Some,
        rendering_flag(cli) == Some("--float-precision"@) ==> cli.float_precision is Some,
        rendering_flag(cli) matches Some(f) ==> f == "--binary-format"@ || f == "--max-list-items"@
            || f == "--max-cell-width"@ || f == "--float-precision"@,
{
    reveal_strlit("--binary-format");
    reveal_strlit("--max-list-items");
    reveal_strlit("--max-cell-width");
    reveal_strlit("--float-precision");
    assert("--max-list-items"@[6] == 'l' && "--max-cell-width"@[6] == 'c');
    assert("--binary-format"@[2] == 'b' && "--max-list-items"@[2] == 'm' && "--max-cell-width"@[2]
        == 'm' && "--float-precision"@[2] == 'f');
}

/// Every option reaches what it is for.
pub proof fn law_options_reach_their_place(plan: Plan, cli: Cli)
    requires
        carries_flags(plan, cli),
    ensures
        options_of(cli).binary_format == cli.binary_format,
        options_of(cli).max_list_items == cli.max_list_items,
        options_of(cli).max_cell_width == cli.max_cell_width,
        options_of(cli).float_precision == cli.float_precision,
        plan.render == options_of(cli),
        plan.columns == cli.columns,
        plan.exclude == cli.exclude_columns,
        plan.progress <==> !cli.no_progress,
        cli.format matches Some(f) ==> plan.format == f,
{
}

/// The selectors of a comparison are those of the command line, the first version's
/// for the first and the second's for the second.
pub proof fn law_selectors_reach_their_version(
    from: Option<u64>,
    from_tag: Option<String>,
    to: Option<u64>,
    to_tag: Option<String>,
    branch: Option<String>,
)
    ensures
        selectors_of(from, from_tag, to, to_tag, branch).from_version == from,
        selectors_of(from, from_tag, to, to_tag, branch).from_tag == from_tag,
        selectors_of(from, from_tag, to, to_tag, branch).to_version == to,
        selectors_of(from, from_tag, to, to_tag, branch).to_tag == to_tag,
        selectors_of(from, from_tag, to, to_tag, branch).branch == branch,
{
}

/// Two datasets are compared where a second one is named, and then no version may be
/// selected. Otherwise two versions are, and then the first must be selected.
pub proof fn law_mode_follows_what_is_named(has_other: bool, s: DiffSelectors)
    ensures
        mode_of(has_other, s) == Ok::<Mode, Error>(Mode::Datasets) <==> has_other && s.branch is None
            && s.from_version is None && s.from_tag is None && s.to_version is None
            && s.to_tag is None,
        mode_of(has_other, s) == Ok::<Mode, Error>(Mode::Versions) <==> !has_other && (
        s.from_version is Some || s.from_tag is Some),
        mode_of(has_other, s) == Err::<Mode, Error>(Error::DiffMissingFromRef) <==> !has_other
            && s.from_version is None && s.from_tag is None,
        mode_of(has_other, s) == Err::<Mode, Error>(Error::DiffSelectorsInTwoDatasetMode)
            <==> has_other && (s.branch is Some || s.from_version is Some || s.from_tag is Some
            || s.to_version is Some || s.to_tag is Some),
{
}

/// A format goes by its name.
pub proof fn law_formats_go_by_their_names()
    ensures
        row_format_name(Format::Csv) == "csv"@,
        row_format_name(Format::Table) == "table"@,
        row_format_name(Format::Json) == "json"@,
        row_format_name(Format::Jsonl) == "jsonl"@,
        row_format_name(Format::Ipc) == "ipc"@,
{
}

/// A comparison of two datasets is planned between the two that are named, and one of
/// two versions on the one that is named; as JSON where a format is asked for, which
/// can only be JSON lines.
pub proof fn law_comparisons_are_planned_as_named(
    r: Result<Plan, Error>,
    cli: Cli,
    input: String,
    other: Option<String>,
    selectors: DiffSelectors,
)
    requires
        answers_diff(r, cli, input, other, selectors),
    ensures
        mode_of(other is Some, selectors) matches Err(e) ==> r == Err::<Plan, Error>(e),
        mode_of(other is Some, selectors) is Ok && cli.format is Some && cli.format != Some(
            Format::Jsonl,
        ) ==> (r matches Err(Error::DiffFormatUnsupported { format }) && format@ == row_format_name(
            cli.format->Some_0,
        )),
        mode_of(other is Some, selectors) == Ok::<Mode, Error>(Mode::Datasets) && (cli.format is None
            || cli.format == Some(Format::Jsonl)) ==> (r matches Ok(plan) && (plan.work matches Work::CompareDatasets {
            left,
            right,
            json,
        } && left == input && other == Some(right) && json == (cli.format is Some))),
        mode_of(other is Some, selectors) == Ok::<Mode, Error>(Mode::Versions) && (cli.format is None
            || cli.format == Some(Format::Jsonl)) ==> (r matches Ok(plan) && (plan.work matches Work::CompareVersions {
            input: on,
            selectors: by,
            json,
        } && on == input && by == selectors && json == (cli.format is Some))),
{
}

/// By default values are shown in full, and bytes as a mark in their place.
pub proof fn law_defaults_show_values_in_full(b: BinaryFormat)
    ensures
        only_binary(b).binary_format == b,
        only_binary(b).max_list_items is None,
        only_binary(b).max_cell_width is None,
        only_binary(b).float_precision is None,
{
}

/// True of a character that the name of a scheme may hold.
pub open spec fn in_scheme(c: char) -> bool {
    'a' <= c <= 'z' || 'A' <= c <= 'Z' || '0' <= c <= '9' || c == '+' || c == '-' || c == '.'
}

/// An input is a location of its own kind where it begins with the name of a scheme,
/// a colon and two slashes; the name begins with a letter. Any other is a path.
pub proof fn law_schemes_stand_before_their_slashes(s: Seq<char>)
    ensures
        scheme_qualified(s) <==> exists|n: int|
            {
                &&& 0 < n <= s.len() - 3
                &&& #[trigger] s.skip(n).take(3) == seq![':', '/', '/']
                &&& ('a' <= s[0] <= 'z' || 'A' <= s[0] <= 'Z')
                &&& forall|i: int| 0 <= i < n ==> in_scheme(#[trigger] s[i])
            },
{
    if scheme_qualified(s) {
        let n = choose|n: int| scheme_at(s, n);
        assert(s.skip(n).take(3) =~= seq![':', '/', '/']);
        assert forall|i: int| 0 <= i < n implies in_scheme(#[trigger] s[i]) by {
            assert(is_scheme_char(s[i]));
        }
    }
    if exists|n: int|
        {
            &&& 0 < n <= s.len() - 3
            &&& #[trigger] s.skip(n).take(3) == seq![':', '/', '/']
            &&& ('a' <= s[0] <= 'z' || 'A' <= s[0] <= 'Z')
            &&& forall|i: int| 0 <= i < n ==> in_scheme(#[trigger] s[i])
        } {
        let n = choose|n: int|
            {
                &&& 0 < n <= s.len() - 3
                &&& #[trigger] s.skip(n).take(3) == seq![':', '/', '/']
                &&& ('a' <= s[0] <= 'z' || 'A' <= s[0] <= 'Z')
                &&& forall|i: int| 0 <= i < n ==> in_scheme(#[trigger] s[i])
            };
        let t = s.skip(n).take(3);
        assert(t[0] == ':' && t[1] == '/' && t[2] == '/');
        assert(s[n] == t[0] && s[n + 1] == t[1] && s[n + 2] == t[2]);
        assert forall|i: int| 0 <= i < n implies is_scheme_char(#[trigger] s[i]) by {
            assert(in_scheme(s[i]));
        }
        assert(scheme_at(s, n));
    }
}

/// A number that is drawn within the sample takes the place of that number, and one
/// beyond it leaves the sample as it is.
pub proof fn law_draws_take_their_place(j: u64, limit: nat)
    ensures
        j < limit ==> place_of(j, limit) == Place::Replace(j),
        j >= limit ==> place_of(j, limit) == Place::Skip,
{
}

/// The first rows fill the sample. From then on every row has a number drawn for it:
/// it takes that place where the sample has one, and is left out otherwise.
pub proof fn law_sample_is_filled_and_then_replaced(cap: nat, n: nat, js: Seq<u64>)
    ensures
        picks(cap, 0, js).len() == 0,
        n < cap ==> picks(cap, n + 1, js) == picks(cap, n, js).push(n),
        n >= cap ==> picks(cap, n + 1, js) == if js[n - cap] < cap {
            picks(cap, n, js).update(js[n - cap] as int, n)
        } else {
            picks(cap, n, js)
        },
        picks(cap, n, js).len() == if n < cap {
            n
        } else {
            cap
        },
    decreases n,
{
    lemma_sample_len(cap, n, js);
}

proof fn lemma_sample_len(cap: nat, n: nat, js: Seq<u64>)
    ensures
        picks(cap, n, js).len() == if n < cap {
            n
        } else {
            cap
        },
    decreases n,
{
    if n > 0 {
        lemma_sample_len(cap, (n - 1) as nat, js);
    }
}

} // verus!
