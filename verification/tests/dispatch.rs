//! What a command line asks for.
use arrs::cli::{
    BinaryFormat, Cli, Command, FilterArg, Format, FreqSort, LanceArgs, RowIdArgs, SchemaType,
};
use arrs::commands::{
    command_ignoring_format, dispatch, output_format, render_options, resolve_format, Work,
};
use arrs::error::Error;

fn input() -> String {
    "does-not-matter".to_string()
}

fn cli(format: Option<Format>, command: Command) -> Cli {
    Cli {
        format,
        binary_format: BinaryFormat::Placeholder,
        columns: None,
        exclude_columns: None,
        max_list_items: None,
        max_cell_width: None,
        float_precision: None,
        no_progress: false,
        command,
    }
}

fn cat(inputs: Vec<String>) -> Command {
    Command::Cat {
        inputs,
        filter: FilterArg::default(),
        row_ids: RowIdArgs::default(),
        lance: LanceArgs::default(),
    }
}

fn stats() -> Command {
    Command::Stats { input: input(), filter: FilterArg::default(), lance: LanceArgs::default() }
}

fn freq() -> Command {
    Command::Freq {
        input: input(),
        column: "id".to_string(),
        limit: None,
        sort: FreqSort::Count,
        filter: FilterArg::default(),
        lance: LanceArgs::default(),
    }
}

fn diff(other: Option<&str>, from: Option<u64>) -> Command {
    Command::Diff {
        input: input(),
        other: other.map(|s| s.to_string()),
        from,
        from_tag: None,
        to: None,
        to_tag: None,
        branch: None,
    }
}

fn search() -> Command {
    Command::Search {
        input: input(),
        column: "emb".to_string(),
        vector: Some("[1]".to_string()),
        vector_file: None,
        k: 1,
        nprobes: None,
        refine_factor: None,
        lance: LanceArgs::default(),
    }
}

#[test]
fn format_on_schema_errors() {
    let command =
        Command::Schema { input: input(), ty: SchemaType::Arrow, lance: LanceArgs::default() };
    let res = dispatch(cli(Some(Format::Table), command));
    assert!(matches!(res, Err(Error::FormatNotApplicable { command: "schema" })));
}

#[test]
fn format_on_rowcount_errors() {
    let command = Command::Rowcount {
        input: input(),
        filter: FilterArg::default(),
        lance: LanceArgs::default(),
    };
    let res = dispatch(cli(Some(Format::Jsonl), command));
    assert!(matches!(res, Err(Error::FormatNotApplicable { command: "rowcount" })));
}

#[test]
fn format_flag_is_rejected() {
    let blob = Command::Blob {
        input: input(),
        column: "payload".to_string(),
        index: 0,
        output: None,
        lance: LanceArgs::default(),
    };
    assert_eq!(command_ignoring_format(&blob), Some("blob"));
    let err = dispatch(cli(Some(Format::Csv), blob)).unwrap_err();
    assert!(err.message().contains("not applicable to 'blob'"), "{}", err.message());
}

#[test]
fn completions_rejects_format_flag() {
    let err = dispatch(cli(Some(Format::Csv), Command::Completions)).unwrap_err();
    assert!(err.message().contains("not applicable to 'completions'"), "{}", err.message());
    assert!(dispatch(cli(None, Command::Completions)).is_ok());
}

#[test]
fn empty_cat_via_dispatch_errors() {
    let res = dispatch(cli(Some(Format::Jsonl), cat(vec![])));
    assert!(matches!(res, Err(Error::EmptyInputs)));
}

#[test]
fn take_with_where_is_rejected() {
    let take = |predicate: Option<String>| Command::Take {
        input: input(),
        indices: "0".to_string(),
        filter: FilterArg { predicate },
        row_ids: RowIdArgs::default(),
        lance: LanceArgs::default(),
    };
    let res = dispatch(cli(None, take(Some("id > 1".to_string()))));
    assert!(matches!(res, Err(Error::TakeWhereConflict)));
    assert!(dispatch(cli(None, take(None))).is_ok());
}

#[test]
fn ipc_rejected_on_metadata_and_summary_commands() {
    assert!(matches!(
        dispatch(cli(Some(Format::Ipc), stats())),
        Err(Error::IpcNotApplicable { command: "stats" })
    ));
    assert!(matches!(
        dispatch(cli(Some(Format::Ipc), freq())),
        Err(Error::IpcNotApplicable { command: "freq" })
    ));
    let versions = Command::Versions { input: input(), branch: None, tagged_only: false };
    assert!(matches!(
        dispatch(cli(Some(Format::Ipc), versions)),
        Err(Error::IpcNotApplicable { command: "versions" })
    ));
    assert!(matches!(
        dispatch(cli(Some(Format::Ipc), search())),
        Err(Error::IpcNotApplicable { command: "search" })
    ));
}

#[test]
fn ipc_rejected_on_diff() {
    let res = dispatch(cli(Some(Format::Ipc), diff(None, Some(0))));
    assert!(matches!(res, Err(Error::DiffFormatUnsupported { format: "ipc" })));
}

#[test]
fn ipc_rejects_value_rendering_flags() {
    let ipc = || cli(Some(Format::Ipc), cat(vec![input()]));
    let mut c = ipc();
    c.binary_format = BinaryFormat::Hex;
    assert!(matches!(dispatch(c), Err(Error::IpcRenderingFlag { flag: "--binary-format" })));
    let mut c = ipc();
    c.float_precision = Some(2);
    assert!(matches!(dispatch(c), Err(Error::IpcRenderingFlag { flag: "--float-precision" })));
    let mut c = ipc();
    c.max_list_items = Some(2);
    assert!(matches!(dispatch(c), Err(Error::IpcRenderingFlag { flag: "--max-list-items" })));
    let mut c = ipc();
    c.max_cell_width = Some(2);
    assert!(matches!(dispatch(c), Err(Error::IpcRenderingFlag { flag: "--max-cell-width" })));
    assert_eq!(output_format(&ipc()).unwrap(), Format::Ipc);
}

#[test]
fn summaries_default_to_tables_and_rows_to_lines() {
    for command in [
        stats(),
        freq(),
        Command::Branches { input: input() },
        Command::Tags { input: input() },
        Command::Versions { input: input(), branch: None, tagged_only: false },
        Command::Indices { input: input(), lance: LanceArgs::default() },
        Command::IndexStats { input: input(), lance: LanceArgs::default() },
        Command::Stat { input: input(), no_size: false, lance: LanceArgs::default() },
        Command::Fragments {
            input: input(),
            verbose: false,
            no_size: false,
            lance: LanceArgs::default(),
        },
    ] {
        assert_eq!(resolve_format(None, &command), Format::Table, "{command:?}");
        assert_eq!(resolve_format(Some(Format::Csv), &command), Format::Csv);
    }
    assert_eq!(resolve_format(None, &cat(vec![])), Format::Jsonl);
    assert_eq!(resolve_format(None, &search()), Format::Jsonl);
}

#[test]
fn flags_are_carried_over() {
    let mut c = cli(None, cat(vec![input()]));
    c.binary_format = BinaryFormat::Base64;
    c.max_list_items = Some(1);
    c.max_cell_width = Some(2);
    c.float_precision = Some(3);
    c.columns = Some(vec!["a".to_string()]);
    c.exclude_columns = Some(vec!["b".to_string()]);
    c.no_progress = true;
    let render = render_options(&c);
    let plan = dispatch(c).unwrap();
    assert_eq!(plan.format, Format::Jsonl);
    assert_eq!(plan.render, render);
    assert_eq!(render.binary_format, BinaryFormat::Base64);
    assert_eq!(
        (render.max_list_items, render.max_cell_width, render.float_precision),
        (Some(1), Some(2), Some(3))
    );
    assert_eq!(plan.columns, Some(vec!["a".to_string()]));
    assert_eq!(plan.exclude, Some(vec!["b".to_string()]));
    assert!(!plan.progress);
    assert!(matches!(plan.work, Work::Run(Command::Cat { .. })));
}

#[test]
fn comparisons_are_told_apart() {
    let plan = dispatch(cli(None, diff(Some("b"), None))).unwrap();
    assert!(matches!(plan.work, Work::CompareDatasets { json: false, .. }));
    let plan = dispatch(cli(Some(Format::Jsonl), diff(None, Some(3)))).unwrap();
    match plan.work {
        Work::CompareVersions { selectors, json, .. } => {
            assert_eq!(selectors.from_version, Some(3));
            assert!(json);
        }
        other => panic!("{other:?}"),
    }
    // What is compared is settled before the format is.
    assert!(matches!(
        dispatch(cli(Some(Format::Csv), diff(None, None))),
        Err(Error::DiffMissingFromRef)
    ));
    assert!(matches!(
        dispatch(cli(Some(Format::Csv), diff(Some("b"), Some(1)))),
        Err(Error::DiffSelectorsInTwoDatasetMode)
    ));
}

#[test]
fn row_identity_flags_are_those_of_a_scan() {
    let flags = RowIdArgs { with_row_id: true, with_row_addr: false }.flags();
    assert!(flags.with_row_id && !flags.with_row_addr);
    assert!(!RowIdArgs::default().flags().any());
}
