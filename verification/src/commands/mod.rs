//! What each command decides and computes.
pub mod blob;
pub mod cat;
pub mod common;
pub mod diff;
pub mod diff_common;
pub mod freq;
pub mod head;
pub mod lance;
pub mod sample;
pub mod tail;
pub mod take;

use vstd::prelude::*;

use crate::cli::{BinaryFormat, Cli, Command, Format};
use crate::commands::cat::require_inputs;
use crate::commands::diff::{mode, mode_of, row_format_name, wants_json, Mode};
use crate::commands::lance::diff::DiffSelectors;
use crate::commands::take::require_no_filter;
use crate::error::Error;
use crate::output::RenderOptions;

verus! {

/// How a command ended, where it did not fail. Exit codes follow `diff(1)`: 0 for
/// success, 1 where `diff` found differences, 2 for an error.
#[derive(Debug, Clone, Copy, PartialEq, Eq, Structural)]
pub enum Outcome {
    Success,
    /// `diff` found differences.
    Different,
}

// ---------- output format ----------

/// The name of a command that emits no rows.
pub open spec fn rowless_name(command: Command) -> Option<Seq<char>> {
    match command {
        Command::Rowcount { .. } => Some("rowcount"@),
        Command::Schema { .. } => Some("schema"@),
        Command::Blob { .. } => Some("blob"@),
        Command::Completions => Some("completions"@),
        _ => None,
    }
}

/// The name of a command that emits no rows. `--format` with it is an error rather
/// than silently ignored.
pub fn command_ignoring_format(command: &Command) -> (r: Option<&'static str>)
    ensures
        match rowless_name(*command) {
            Some(name) => r matches Some(s) && s@ == name,
            None => r is None,
        },
{
    match command {
        Command::Rowcount { .. } => Some("rowcount"),
        Command::Schema { .. } => Some("schema"),
        Command::Blob { .. } => Some("blob"),
        Command::Completions => Some("completions"),
        _ => None,
    }
}

/// The name of a command whose rows are a summary or metadata.
pub open spec fn summary_name(command: Command) -> Option<Seq<char>> {
    match command {
        Command::Freq { .. } => Some("freq"@),
        Command::Versions { .. } => Some("versions"@),
        Command::Branches { .. } => Some("branches"@),
        Command::Tags { .. } => Some("tags"@),
        Command::Indices { .. } => Some("indices"@),
        Command::IndexStats { .. } => Some("index-stats"@),
        Command::Fragments { .. } => Some("fragments"@),
        Command::Stats { .. } => Some("stats"@),
        Command::Stat { .. } => Some("stat"@),
        _ => None,
    }
}

fn summary_command(command: &Command) -> (r: Option<&'static str>)
    ensures
        match summary_name(*command) {
            Some(name) => r matches Some(s) && s@ == name,
            None => r is None,
        },
{
    match command {
        Command::Freq { .. } => Some("freq"),
        Command::Versions { .. } => Some("versions"),
        Command::Branches { .. } => Some("branches"),
        Command::Tags { .. } => Some("tags"),
        Command::Indices { .. } => Some("indices"),
        Command::IndexStats { .. } => Some("index-stats"),
        Command::Fragments { .. } => Some("fragments"),
        Command::Stats { .. } => Some("stats"),
        Command::Stat { .. } => Some("stat"),
        _ => None,
    }
}

/// The format that is used: the one asked for, or else `table` for the summary and
/// metadata commands and `jsonl` for the others.
pub open spec fn format_used(explicit: Option<Format>, command: Command) -> Format {
    match explicit {
        Some(f) => f,
        None => if summary_name(command) is Some {
            Format::Table
        } else {
            Format::Jsonl
        },
    }
}

/// The format that is used: the one asked for, or else the command's default.
pub fn resolve_format(explicit: Option<Format>, command: &Command) -> (r: Format)
    ensures
        r == format_used(explicit, *command),
{
    match explicit {
        Some(f) => f,
        None => if summary_command(command).is_some() {
            Format::Table
        } else {
            Format::Jsonl
        },
    }
}

/// The name of a command that has rows, but not those of a dataset as they are
/// stored. A diff refuses formats itself.
pub open spec fn derived_name(command: Command) -> Option<Seq<char>> {
    if command is Search {
        Some("search"@)
    } else {
        summary_name(command)
    }
}

/// The first of the rendering flags that was given.
pub open spec fn rendering_flag(cli: Cli) -> Option<Seq<char>> {
    if cli.binary_format != BinaryFormat::Placeholder {
        Some("--binary-format"@)
    } else if cli.max_list_items is Some {
        Some("--max-list-items"@)
    } else if cli.max_cell_width is Some {
        Some("--max-cell-width"@)
    } else if cli.float_precision is Some {
        Some("--float-precision"@)
    } else {
        None
    }
}

/// Why the format asked for is refused.
pub enum FormatRefusal {
    NoRows(Seq<char>),
    NotRaw(Seq<char>),
    Rendering(Seq<char>),
}

/// Why the format asked for is refused, if it is. A stream of stored rows carries
/// values in full, so it goes with neither derived rows nor a rendering flag.
pub open spec fn format_refusal(cli: Cli) -> Option<FormatRefusal> {
    match cli.format {
        None => None,
        Some(f) => match rowless_name(cli.command) {
            Some(name) => Some(FormatRefusal::NoRows(name)),
            None => if f != Format::Ipc || cli.command is Diff {
                None
            } else {
                match (derived_name(cli.command), rendering_flag(cli)) {
                    (Some(name), _) => Some(FormatRefusal::NotRaw(name)),
                    (None, Some(flag)) => Some(FormatRefusal::Rendering(flag)),
                    (None, None) => None,
                }
            },
        },
    }
}

/// The format that a command line's rows are written in. Checked before any dataset
/// is opened.
pub fn output_format(cli: &Cli) -> (r: Result<Format, Error>)
    ensures
        match format_refusal(*cli) {
            None => r == Ok::<Format, Error>(format_used(cli.format, cli.command)),
            Some(FormatRefusal::NoRows(name)) => r matches Err(
                Error::FormatNotApplicable { command },
            ) && command@ == name,
            Some(FormatRefusal::NotRaw(name)) => r matches Err(
                Error::IpcNotApplicable { command },
            ) && command@ == name,
            Some(FormatRefusal::Rendering(name)) => r matches Err(
                Error::IpcRenderingFlag { flag },
            ) && flag@ == name,
        },
{
    if cli.format.is_some() {
        if let Some(command) = command_ignoring_format(&cli.command) {
            return Err(Error::FormatNotApplicable { command });
        }
    }
    let format = resolve_format(cli.format, &cli.command);
    let is_diff = match &cli.command {
        Command::Diff { .. } => true,
        _ => false,
    };
    if format != Format::Ipc || is_diff {
        return Ok(format);
    }
    let derived = match &cli.command {
        Command::Search { .. } => Some("search"),
        other => summary_command(other),
    };
    if let Some(command) = derived {
        return Err(Error::IpcNotApplicable { command });
    }
    if cli.binary_format != BinaryFormat::Placeholder {
        Err(Error::IpcRenderingFlag { flag: "--binary-format" })
    } else if cli.max_list_items.is_some() {
        Err(Error::IpcRenderingFlag { flag: "--max-list-items" })
    } else if cli.max_cell_width.is_some() {
        Err(Error::IpcRenderingFlag { flag: "--max-cell-width" })
    } else if cli.float_precision.is_some() {
        Err(Error::IpcRenderingFlag { flag: "--float-precision" })
    } else {
        Ok(format)
    }
}

/// The rendering options of a command line.
pub open spec fn options_of(cli: Cli) -> RenderOptions {
    RenderOptions {
        binary_format: cli.binary_format,
        max_list_items: cli.max_list_items,
        max_cell_width: cli.max_cell_width,
        float_precision: cli.float_precision,
    }
}

/// How values are rendered.
pub fn render_options(cli: &Cli) -> (r: RenderOptions)
    ensures
        r == options_of(*cli),
{
    RenderOptions {
        binary_format: cli.binary_format,
        max_list_items: cli.max_list_items,
        max_cell_width: cli.max_cell_width,
        float_precision: cli.float_precision,
    }
}

// ---------- dispatch ----------

/// What is to be done.
#[derive(Debug)]
pub enum Work {
    /// A command other than `diff`, as it was given.
    Run(Command),
    /// Compare two datasets.
    CompareDatasets { left: String, right: String, json: bool },
    /// Compare two versions of a dataset.
    CompareVersions { input: String, selectors: DiffSelectors, json: bool },
}

/// A command line whose flags go together, ready to be carried out.
#[derive(Debug)]
pub struct Plan {
    pub work: Work,
    /// The format of the rows that the work emits.
    pub format: Format,
    /// How values are rendered.
    pub render: RenderOptions,
    /// Columns to include.
    pub columns: Option<Vec<String>>,
    /// Columns to exclude.
    pub exclude: Option<Vec<String>>,
    /// Whether a long scan may show its progress.
    pub progress: bool,
}

/// True where the plan carries the command line's flags over.
pub open spec fn carries_flags(plan: Plan, cli: Cli) -> bool {
    &&& plan.format == format_used(cli.format, cli.command)
    &&& plan.render == options_of(cli)
    &&& plan.columns == cli.columns
    &&& plan.exclude == cli.exclude_columns
    &&& plan.progress == !cli.no_progress
}

/// The selectors of a `diff`.
pub open spec fn selectors_of(
    from: Option<u64>,
    from_tag: Option<String>,
    to: Option<u64>,
    to_tag: Option<String>,
    branch: Option<String>,
) -> DiffSelectors {
    DiffSelectors {
        branch,
        from_version: from,
        from_tag,
        to_version: to,
        to_tag,
    }
}

/// True of the answer to a `diff`: first what is compared must be clear, then the
/// format must be one that a comparison has.
pub open spec fn answers_diff(
    r: Result<Plan, Error>,
    cli: Cli,
    input: String,
    other: Option<String>,
    selectors: DiffSelectors,
) -> bool {
    match mode_of(other is Some, selectors) {
        Err(e) => r == Err::<Plan, Error>(e),
        Ok(mode) => match cli.format {
            Some(f) if f != Format::Jsonl => r matches Err(
                Error::DiffFormatUnsupported { format },
            ) && format@ == row_format_name(f),
            _ => r matches Ok(plan) && carries_flags(plan, cli) && plan.work == (match mode {
                Mode::Datasets => Work::CompareDatasets {
                    left: input,
                    right: other->Some_0,
                    json: cli.format is Some,
                },
                Mode::Versions => Work::CompareVersions { input, selectors, json: cli.format is Some },
            }),
        },
    }
}

/// Decide what a command line asks for. Flags that do not go together, or not with the
/// command, are refused here, before any dataset is opened.
pub fn dispatch(cli: Cli) -> (r: Result<Plan, Error>)
    ensures
        match format_refusal(cli) {
            Some(FormatRefusal::NoRows(name)) => r matches Err(
                Error::FormatNotApplicable { command },
            ) && command@ == name,
            Some(FormatRefusal::NotRaw(name)) => r matches Err(
                Error::IpcNotApplicable { command },
            ) && command@ == name,
            Some(FormatRefusal::Rendering(name)) => r matches Err(
                Error::IpcRenderingFlag { flag },
            ) && flag@ == name,
            None => match cli.command {
                Command::Diff { input, other, from, from_tag, to, to_tag, branch } => answers_diff(
                    r,
                    cli,
                    input,
                    other,
                    selectors_of(from, from_tag, to, to_tag, branch),
                ),
                Command::Cat { inputs, .. } if inputs@.len() == 0 => r == Err::<Plan, Error>(
                    Error::EmptyInputs,
                ),
                Command::Take { filter, .. } if filter.predicate is Some => r == Err::<Plan, Error>(
                    Error::TakeWhereConflict,
                ),
                command => r matches Ok(plan) && carries_flags(plan, cli) && plan.work == Work::Run(
                    command,
                ),
            },
        },
{
    let format = match output_format(&cli) {
        Ok(format) => format,
        Err(e) => return Err(e),
    };
    let render = render_options(&cli);
    let work = match cli.command {
        Command::Diff { input, other, from, from_tag, to, to_tag, branch } => {
            let selectors = DiffSelectors {
                branch,
                from_version: from,
                from_tag,
                to_version: to,
                to_tag,
            };
            let compared = match mode(other.is_some(), &selectors) {
                Ok(compared) => compared,
                Err(e) => return Err(e),
            };
            let json = match wants_json(cli.format) {
                Ok(json) => json,
                Err(e) => return Err(e),
            };
            match (compared, other) {
                (Mode::Datasets, Some(right)) => Work::CompareDatasets { left: input, right, json },
                _ => Work::CompareVersions { input, selectors, json },
            }
        },
        Command::Cat { inputs, filter, row_ids, lance } => {
            match require_inputs(inputs.as_slice()) {
                Ok(()) => {},
                Err(e) => return Err(e),
            }
            Work::Run(Command::Cat { inputs, filter, row_ids, lance })
        },
        Command::Take { input, indices, filter, row_ids, lance } => {
            match require_no_filter(filter.predicate.is_some()) {
                Ok(()) => {},
                Err(e) => return Err(e),
            }
            Work::Run(Command::Take { input, indices, filter, row_ids, lance })
        },
        command => Work::Run(command),
    };
    Ok(
        Plan {
            work,
            format,
            render,
            columns: cli.columns,
            exclude: cli.exclude_columns,
            progress: !cli.no_progress,
        },
    )
}

/// A stream of stored rows is only ever written by the commands that print a
/// dataset's rows as they are, and never with a flag that changes how values look.
pub proof fn law_ipc_is_lossless(cli: Cli)
    requires
        format_refusal(cli) is None,
        format_used(cli.format, cli.command) == Format::Ipc,
    ensures
        cli.command is Diff || ((cli.command is Cat || cli.command is Head || cli.command is Tail
            || cli.command is Take || cli.command is Sample) && cli.binary_format
            == BinaryFormat::Placeholder && cli.max_list_items is None && cli.max_cell_width is None
            && cli.float_precision is None),
{
}

} // verus!
