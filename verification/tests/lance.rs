//! Versions, branches, tags, indices and fragments.
use arrs::cell::Cell;
use arrs::cli::{Format, LanceArgs};
use arrs::commands::lance::branches::branches_table;
use arrs::commands::lance::fragments::{fragments_table, summary_line};
use arrs::commands::lance::index_stats::index_stats_table;
use arrs::commands::lance::indices::indices_table;
use arrs::commands::lance::tags::tags_table;
use arrs::commands::lance::versions::versions_table;
use arrs::dataset::{IndexInfo, IndexStats, Instant, TagInfo, VersionInfo};
use arrs::error::Error;
use arrs::lance::adapter::{
    column_has_ann_index, fragment_info, fragment_rows, index_columns, index_stats_row,
    read_index_stats, strip_source_locations, unix_seconds_to_utc, FragmentFiles, IndexField,
};
use arrs::lance::as_of::{first_reading, parse_as_of, version_as_of};
use arrs::lance::checkout::{check_tag_branch, checkout_steps, Step};
use arrs::lance::refs::{
    branch_rows, lists_main, tag_rows, version_rows, BranchRef, Commit, TagRef,
};

fn at(secs: i64) -> Instant {
    Instant { secs, nanos: 0 }
}

fn commit(version: u64, secs: i64) -> Commit {
    Commit { version, timestamp: at(secs), message: None }
}

fn tag(name: &str, branch: Option<&str>, version: u64) -> TagRef {
    TagRef { name: name.to_string(), branch: branch.map(|s| s.to_string()), version }
}

/// Two versions on main with a tag on the second, and a branch off it.
fn commits() -> Vec<Commit> {
    vec![commit(1, 100), commit(2, 200)]
}

// ---------- versions ----------

#[test]
fn list_versions_tagged_only_returns_only_tagged() {
    let versions = version_rows(&commits(), &vec![tag("v2-tag", None, 2)], "main", true);
    assert_eq!(versions.len(), 1);
    assert_eq!(versions[0].version, 2);
    assert_eq!(versions[0].tag.as_deref(), Some("v2-tag"));
}

#[test]
fn list_versions_default_lists_all_main_versions() {
    let versions = version_rows(&commits(), &vec![tag("v2-tag", None, 2)], "main", false);
    assert!(versions.iter().any(|v| v.version == 1 && v.tag.is_none()));
    let tagged = versions.iter().find(|v| v.version == 2).unwrap();
    assert_eq!(tagged.tag.as_deref(), Some("v2-tag"));
}

#[test]
fn tags_of_a_version_are_joined_in_order() {
    let tags = vec![
        tag("release", None, 2),
        tag("beta", Some("main"), 2),
        tag("other", Some("dev"), 2),
        tag("first", None, 1),
    ];
    let on_main = version_rows(&commits(), &tags, "main", false);
    assert_eq!(on_main[0].tag.as_deref(), Some("first"));
    assert_eq!(on_main[1].tag.as_deref(), Some("beta,release"));
    let on_dev = version_rows(&commits(), &tags, "dev", true);
    assert_eq!(on_dev.len(), 1);
    assert_eq!(on_dev[0].tag.as_deref(), Some("other"));
}

// ---------- branches ----------

fn branch(name: &str, parent: Option<&str>) -> BranchRef {
    BranchRef {
        name: name.to_string(),
        parent_branch: parent.map(|s| s.to_string()),
        parent_version: 2,
        created_at: 300,
    }
}

#[test]
fn list_branches_includes_main_and_dev() {
    let recorded = vec![branch("dev", None)];
    assert!(!lists_main(&recorded));
    let branches = branch_rows(&recorded, Some(at(100)));
    let names: Vec<&str> = branches.iter().map(|b| b.name.as_str()).collect();
    assert!(names.contains(&"main"));
    assert!(names.contains(&"dev"));
}

#[test]
fn branches_are_listed_by_name_with_their_parents() {
    let recorded = vec![branch("zeta", Some("dev")), branch("dev", None)];
    let b = branch_rows(&recorded, Some(at(100)));
    let names: Vec<&str> = b.iter().map(|b| b.name.as_str()).collect();
    assert_eq!(names, vec!["dev", "main", "zeta"]);
    assert_eq!(b[0].parent_branch.as_deref(), Some("main"));
    assert_eq!(b[0].parent_version, Some(2));
    assert_eq!(b[0].created_at, Some(at(300)));
    assert_eq!(b[1].parent_branch, None);
    assert_eq!(b[1].parent_version, None);
    assert_eq!(b[1].created_at, Some(at(100)));
    assert_eq!(b[2].parent_branch.as_deref(), Some("dev"));
    let explicit = vec![branch("main", None)];
    assert!(lists_main(&explicit));
    assert_eq!(branch_rows(&explicit, None).len(), 1);
}

// ---------- tags ----------

#[test]
fn list_tags_returns_cross_branch_view() {
    let tags = tag_rows(&vec![tag("v2-tag", None, 2), tag("release-on-dev", Some("dev"), 2)]);
    let names: Vec<&str> = tags.iter().map(|t| t.name.as_str()).collect();
    assert_eq!(names, vec!["release-on-dev", "v2-tag"]);
    assert_eq!(tags[1].branch, "main");
    assert_eq!(tags[1].version, 2);
    assert_eq!(tags[0].branch, "dev");
    assert_eq!(tags[0].version, 2);
}

// ---------- indices ----------

fn covered(id: i32, name: Option<&str>) -> IndexField {
    IndexField { id, name: name.map(|s| s.to_string()) }
}

#[test]
fn list_indices_finds_btree_index() {
    assert_eq!(index_columns(&vec![covered(0, Some("id"))]), vec!["id".to_string()]);
    assert_eq!(
        index_columns(&vec![covered(0, Some("id")), covered(7, None), covered(-1, None)]),
        vec!["id".to_string(), "<field_id=7>".to_string(), "<field_id=-1>".to_string()]
    );
}

#[test]
fn searches_know_whether_an_index_helps() {
    let indices = vec![vec![covered(0, Some("id"))], vec![covered(3, None), covered(4, Some("emb"))]];
    assert!(column_has_ann_index(&indices, "emb"));
    assert!(!column_has_ann_index(&indices, "text"));
    assert!(!column_has_ann_index(&indices, "<field_id=3>"));
    assert!(!column_has_ann_index(&vec![], "emb"));
}

// ---------- checkout ----------

fn args(branch: Option<&str>, version: Option<u64>, tag: Option<&str>, as_of: Option<&str>) -> LanceArgs {
    LanceArgs {
        branch: branch.map(|s| s.to_string()),
        version,
        tag: tag.map(|s| s.to_string()),
        as_of: as_of.map(|s| s.to_string()),
    }
}

#[test]
fn a_version_is_checked_out() {
    let steps = checkout_steps(Some(&args(None, Some(1), None, None)));
    assert!(matches!(steps.as_slice(), [Step::Version(1)]));
}

#[test]
fn a_tag_is_checked_out() {
    let steps = checkout_steps(Some(&args(None, None, Some("v2-tag"), None)));
    assert!(matches!(steps.as_slice(), [Step::Tag(t)] if t == "v2-tag"));
}

#[test]
fn a_branch_is_checked_out_before_its_versions() {
    let steps = checkout_steps(Some(&args(Some("dev"), None, None, None)));
    assert!(matches!(steps.as_slice(), [Step::Branch(b)] if b == "dev"));
    let steps = checkout_steps(Some(&args(Some("dev"), Some(3), None, None)));
    assert!(matches!(steps.as_slice(), [Step::Branch(_), Step::Version(3)]));
    let steps = checkout_steps(Some(&args(Some("dev"), None, None, Some("2026-07-01"))));
    assert!(matches!(steps.as_slice(), [Step::Branch(_), Step::AsOf(_)]));
    assert!(checkout_steps(None).is_empty());
    assert!(checkout_steps(Some(&LanceArgs::default())).is_empty());
}

#[test]
fn checkout_tag_with_mismatched_branch_errors() {
    // v2-tag was created on `main`; asking for it on dev must error.
    let steps = checkout_steps(Some(&args(Some("dev"), None, Some("v2-tag"), None)));
    assert!(matches!(steps.as_slice(), [Step::CheckTag(..), Step::Tag(_)]));
    let err = check_tag_branch("v2-tag", None, "dev").unwrap_err();
    assert!(matches!(err, Error::TagBranchMismatch { .. }));
    assert_eq!(
        err.message(),
        "tag 'v2-tag' is on branch 'main', not 'dev'; remove --branch or pass --branch main"
    );
}

#[test]
fn a_tag_of_main_is_refused_on_another_branch() {
    assert!(check_tag_branch("main-tag", Some("main"), "dev").is_err());
}

#[test]
fn checkout_tag_with_matching_branch_ok() {
    assert!(check_tag_branch("v2-tag", None, "main").is_ok());
    assert!(check_tag_branch("t", Some("dev"), "dev").is_ok());
}

#[test]
fn as_of_combines_with_branch() {
    let a = args(Some("dev"), None, None, Some("2026-07-01T12:00:00Z"));
    assert!(a.is_any_set());
    assert_eq!(checkout_steps(Some(&a)).len(), 2);
}

// ---------- moments ----------

#[test]
fn moments_are_read_in_three_forms() {
    let noon = 1_782_907_200;
    assert_eq!(parse_as_of("2026-07-01T12:00:00Z").unwrap(), at(noon));
    assert_eq!(parse_as_of("2026-07-01T14:00:00+02:00").unwrap(), at(noon));
    assert_eq!(parse_as_of("2026-07-01T12:00:00").unwrap(), at(noon));
    assert_eq!(parse_as_of("2026-07-01").unwrap(), at(noon - 12 * 3600));
    assert_eq!(
        parse_as_of("2026-07-01T12:00:00.5Z").unwrap(),
        Instant { secs: noon, nanos: 500_000_000 }
    );
    assert_eq!(parse_as_of("1969-12-31").unwrap(), at(-86_400));
    for bad in ["", "yesterday", "2026-13-01", "2026-07-01 noon"] {
        match parse_as_of(bad) {
            Err(Error::InvalidAsOf(raw)) => assert_eq!(raw, bad),
            other => panic!("{bad}: {other:?}"),
        }
    }
}

#[test]
fn an_offset_wins_over_the_other_readings() {
    assert_eq!(first_reading(Some((5, 1)), Some((6, 0)), Some(7)), Some(Instant { secs: 5, nanos: 1 }));
    assert_eq!(first_reading(None, Some((6, 0)), Some(7)), Some(at(6)));
    assert_eq!(first_reading(None, None, Some(-2)), Some(at(-172_800)));
    assert_eq!(first_reading(None, None, None), None);
}

fn history() -> Vec<VersionInfo> {
    [(1, 100), (2, 200), (3, 300)]
        .map(|(version, secs)| VersionInfo { version, timestamp: at(secs), tag: None, message: None })
        .into()
}

#[test]
fn the_version_of_a_moment_is_the_last_committed_by_then() {
    assert_eq!(version_as_of("x", at(200), &history()).unwrap(), 2);
    assert_eq!(version_as_of("x", at(299), &history()).unwrap(), 2);
    assert_eq!(version_as_of("x", at(1000), &history()).unwrap(), 3);
    match version_as_of("early", at(99), &history()) {
        Err(Error::AsOfBeforeFirstVersion { requested, earliest }) => {
            assert_eq!(requested, "early");
            assert_eq!(earliest, "1970-01-01T00:01:40+00:00");
        }
        other => panic!("{other:?}"),
    }
}

// ---------- messages ----------

#[test]
fn source_locations_are_stripped_from_messages() {
    let strip = |s: &str| strip_source_locations(s);
    assert_eq!(
        strip("bad predicate, /home/u/.cargo/registry/x/scanner.rs:422:33"),
        "bad predicate"
    );
    assert_eq!(strip("bad, a/b.rs:1:2 , c.rs:3:4  "), "bad");
    assert_eq!(strip("no such column: a, b"), "no such column: a, b");
    assert_eq!(strip("bad, b.rs:1"), "bad, b.rs:1");
    assert_eq!(strip("bad, b.rs:x:2"), "bad, b.rs:x:2");
    assert_eq!(strip("bad, b.rc:1:2"), "bad, b.rc:1:2");
    assert_eq!(strip("a.rs:1:2"), "a.rs:1:2");
    assert_eq!(strip(""), "");
}

// ---------- fragments ----------

#[test]
fn fragments_sum_their_files() {
    let files = vec!["a".to_string(), "b".to_string()];
    let f = fragment_info(3, 10, 2, files.clone(), Some(vec![5, 7]));
    assert_eq!((f.id, f.physical_rows, f.deleted_rows, f.num_files), (3, 10, 2, 2));
    assert_eq!(f.size, Some(12));
    assert_eq!(fragment_info(0, 0, 0, files, None).size, None);
    assert_eq!(fragment_info(0, 0, 0, vec![], Some(vec![])).size, Some(0));
}

#[test]
fn sizes_are_all_that_asking_for_them_adds() {
    let part = |id: u64, sizes: &[u64]| FragmentFiles {
        id,
        physical_rows: 10 * id,
        deleted_rows: id,
        files: sizes.iter().map(|s| format!("{id}-{s}.lance")).collect(),
        sizes: sizes.to_vec(),
    };
    let parts = vec![part(1, &[5, 7]), part(2, &[]), part(3, &[9])];
    let (plain, sized) = (fragment_rows(&parts, false), fragment_rows(&parts, true));
    assert_eq!(plain.len(), 3);
    assert!(plain.iter().all(|f| f.size.is_none()));
    assert_eq!(sized.iter().map(|f| f.size).collect::<Vec<_>>(), [Some(12), Some(0), Some(9)]);
    for (a, b) in plain.iter().zip(&sized) {
        assert_eq!(
            (a.id, a.physical_rows, a.deleted_rows, a.num_files, &a.files),
            (b.id, b.physical_rows, b.deleted_rows, b.num_files, &b.files)
        );
        assert_eq!(a.num_files, a.files.len() as u64);
    }
}

#[test]
fn index_statistics_are_read_from_json() {
    let read = |s: &str| read_index_stats("idx".to_string(), s.to_string());
    let full = "{\"index_type\":\"IVF_\\u0050Q\",\"num_indexed_rows\":90,\"num_unindexed_rows\":10}";
    let row = read(full).unwrap();
    assert_eq!((row.name.as_str(), row.index_type.as_str()), ("idx", "IVF_PQ"));
    assert_eq!((row.indexed_rows, row.unindexed_rows), (90, 10));
    assert_eq!(row.detail, full);
    for bare in ["{}", "[]", "{\"index_type\":7,\"num_indexed_rows\":-1,\"num_unindexed_rows\":1.5}"] {
        let row = read(bare).unwrap();
        assert_eq!((row.index_type.as_str(), row.indexed_rows, row.unindexed_rows), ("", 0, 0));
    }
    assert!(read("{").unwrap_err().contains("EOF"));
    let row = index_stats_row("i".to_string(), None, Some(3), None, "{}".to_string());
    assert_eq!((row.index_type.as_str(), row.indexed_rows, row.unindexed_rows), ("", 3, 0));
}

#[test]
fn instants_are_those_of_the_calendar() {
    assert_eq!(unix_seconds_to_utc(0), Some(at(0)));
    assert_eq!(unix_seconds_to_utc(8_210_266_876_799), Some(at(8_210_266_876_799)));
    assert_eq!(unix_seconds_to_utc(8_210_266_876_800), None);
    assert_eq!(unix_seconds_to_utc(u64::MAX), None);
}

// ---------- listings ----------

fn names(l: &arrs::listing::Listing) -> Vec<&str> {
    l.schema.fields.iter().map(|f| f.name.as_str()).collect()
}

#[test]
fn listings_have_their_columns() {
    let versions = versions_table(&history());
    assert_eq!(names(&versions), vec!["version", "timestamp", "tag", "message"]);
    assert_eq!(versions.batch.rows, 3);
    assert!(matches!(versions.batch.columns[0].cells[2], Cell::UInt(3)));

    let branches = branches_table(&branch_rows(&vec![branch("dev", None)], None));
    assert_eq!(names(&branches), vec!["name", "parent_branch", "parent_version", "created_at"]);
    assert!(matches!(&branches.batch.columns[1].cells[1], Cell::Null));

    let tags = tags_table(&vec![TagInfo { name: "t".into(), branch: "main".into(), version: 4 }]);
    assert_eq!(names(&tags), vec!["name", "branch", "version"]);
    assert!(matches!(tags.batch.columns[2].cells[0], Cell::UInt(4)));

    let indices = indices_table(&vec![IndexInfo {
        name: "i".into(),
        index_type: "BTree".into(),
        uuid: "u".into(),
        columns: vec!["a".into(), "b".into()],
        dataset_version: 1,
        created_at: Some(at(1)),
    }]);
    assert_eq!(indices.batch.rows, 1);
    assert!(names(&indices).contains(&"type") && names(&indices).contains(&"columns"));
}

#[test]
fn index_statistics_show_coverage() {
    let stats = vec![IndexStats {
        name: "i".into(),
        index_type: "IVF_PQ".into(),
        indexed_rows: 98,
        unindexed_rows: 2,
        detail: "{}".into(),
    }];
    let table = index_stats_table(&stats, Format::Table);
    let shown = table.batch.columns.iter().any(|c| matches!(&c.cells[0], Cell::Text(s) if s == "98.0%"));
    assert!(shown);
}

#[test]
fn fragments_are_listed_and_summed_up() {
    let list = vec![
        fragment_info(0, 100, 10, vec!["a".to_string()], Some(vec![1024])),
        fragment_info(1, 50, 0, vec!["b".to_string()], Some(vec![512])),
    ];
    let table = fragments_table(&list, Format::Table, false);
    assert_eq!(table.batch.rows, 2);
    let verbose = fragments_table(&list, Format::Jsonl, true);
    assert!(names(&verbose).contains(&"files") && !names(&table).contains(&"files"));
    let line = summary_line(&list, false);
    assert_eq!(
        line,
        "2 fragment(s), 150 physical row(s), 10 deleted row(s), 1.5 KiB total"
    );
}
