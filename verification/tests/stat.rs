//! The dataset health summary.
use arrs::cli::Format;
use arrs::commands::lance::stat::{
    build_stat, compaction_hint, fragment_bytes, fragment_totals, stat_json, stat_table,
    table_rows, trailer, DatasetStat, MANY_FRAGMENTS,
};
use arrs::dataset::{FragmentInfo, IndexInfo, Instant, VersionInfo};
use arrs::output::temporal::format_rfc3339_seconds;
use serde_json::Value;

fn frag(id: u64, physical: u64, deleted: u64, size: Option<u64>) -> FragmentInfo {
    FragmentInfo {
        id,
        physical_rows: physical,
        deleted_rows: deleted,
        num_files: 1,
        files: vec![format!("{id}.lance")],
        size,
    }
}

fn version(v: u64, ts: &str) -> VersionInfo {
    let t = chrono::DateTime::parse_from_rfc3339(ts).unwrap();
    VersionInfo {
        version: v,
        timestamp: Instant { secs: t.timestamp(), nanos: t.timestamp_subsec_nanos() },
        tag: None,
        message: None,
    }
}

fn index(name: &str, ty: &str) -> IndexInfo {
    IndexInfo {
        name: name.into(),
        index_type: ty.into(),
        uuid: "u".into(),
        columns: vec!["c".into()],
        dataset_version: 1,
        created_at: None,
    }
}

fn sample_stat() -> DatasetStat {
    let fragments =
        vec![frag(0, 100, 0, Some(1024)), frag(1, 300, 10, Some(2048)), frag(2, 200, 0, Some(1024))];
    let versions = vec![version(1, "2026-07-10T00:00:00Z"), version(2, "2026-07-18T09:12:44Z")];
    let indices = vec![index("emb_idx", "IVF_PQ"), index("id_idx", "BTREE")];
    build_stat("/data/ds.lance".into(), 2, 14, &fragments, &versions, 3, 5, &indices, true)
}

fn small(fragments: Vec<FragmentInfo>) -> DatasetStat {
    build_stat("/x.lance".into(), 1, 1, &fragments, &vec![], 1, 0, &vec![], false)
}

#[test]
fn build_stat_aggregates_fragment_metadata() {
    let s = sample_stat();
    assert_eq!(s.physical_rows, 600);
    assert_eq!(s.deleted_rows, 10);
    assert_eq!(s.rows, 590);
    assert_eq!(s.num_fragments, 3);
    assert_eq!(s.fragment_min_rows, Some(100));
    assert_eq!(s.fragment_max_rows, Some(300));
    // Sorted [100, 200, 300] → median 200.
    assert_eq!(s.fragment_median_rows, Some(200));
    assert_eq!(s.data_size_bytes, Some(4096));
    assert_eq!(s.columns, 14);
    assert_eq!(s.num_versions, 2);
    assert_eq!(s.num_branches, 3);
    assert_eq!(s.num_tags, 5);
    assert_eq!(s.indices.len(), 2);
    // Latest is the highest-numbered version, not the last listed.
    assert_eq!(
        s.latest_version_timestamp.map(format_rfc3339_seconds),
        Some("2026-07-18T09:12:44Z".to_string()),
    );
}

#[test]
fn the_latest_version_is_the_highest_numbered() {
    let versions = vec![version(2, "2026-07-18T09:12:44Z"), version(1, "2026-07-19T00:00:00Z")];
    let s = build_stat("p".into(), 1, 1, &vec![], &versions, 1, 0, &vec![], false);
    assert_eq!(
        s.latest_version_timestamp.map(format_rfc3339_seconds),
        Some("2026-07-18T09:12:44Z".to_string()),
    );
}

#[test]
fn empty_dataset_has_no_fragment_spread() {
    let s = build_stat("/empty.lance".into(), 1, 2, &vec![], &vec![], 1, 0, &vec![], true);
    assert_eq!(s.rows, 0);
    assert_eq!(s.physical_rows, 0);
    assert_eq!(s.deleted_rows, 0);
    assert_eq!(s.num_fragments, 0);
    assert_eq!(s.fragment_min_rows, None);
    assert_eq!(s.fragment_max_rows, None);
    assert_eq!(s.fragment_median_rows, None);
    // Size was requested → empty sum is Some(0), not None.
    assert_eq!(s.data_size_bytes, Some(0));
    assert!(compaction_hint(&s).is_none());
}

fn json(s: &DatasetStat) -> Value {
    let ratio = if s.physical_rows == 0 {
        0.0
    } else {
        s.deleted_rows as f64 / s.physical_rows as f64
    };
    let text = serde_json::Number::from_f64(ratio).unwrap().to_string();
    serde_json::from_str(&stat_json(s, &text)).unwrap()
}

#[test]
fn no_size_leaves_size_absent() {
    let s = small(vec![frag(0, 100, 0, None)]);
    assert_eq!(s.data_size_bytes, None);
    // jsonl reflects the absence as an explicit null.
    assert_eq!(json(&s)["data_size_bytes"], Value::Null);
}

#[test]
fn compaction_hint_fires_on_deleted_ratio() {
    let s = small(vec![frag(0, 100, 20, None)]); // 20% deleted
    let hint = compaction_hint(&s).expect("hint expected");
    assert!(hint.contains("high deleted-row ratio"), "{hint}");
    assert!(hint.contains("compaction would likely help"), "{hint}");
}

#[test]
fn compaction_hint_fires_on_many_small_fragments() {
    let s = small((0..MANY_FRAGMENTS).map(|i| frag(i, 10, 0, None)).collect());
    let hint = compaction_hint(&s).expect("hint expected");
    assert!(hint.contains("many small fragments"), "{hint}");
}

#[test]
fn compaction_hint_silent_on_healthy_dataset() {
    // Few large fragments, no deletions → no hint.
    let s = small(vec![frag(0, 500_000, 0, None), frag(1, 500_000, 0, None)]);
    assert!(compaction_hint(&s).is_none());
}

#[test]
fn jsonl_object_has_stable_field_set() {
    let v = json(&sample_stat());
    let obj = v.as_object().expect("json object");
    for key in [
        "path",
        "format",
        "manifest_version",
        "rows",
        "physical_rows",
        "deleted_rows",
        "deleted_ratio",
        "columns",
        "fragments",
        "fragment_min_rows",
        "fragment_max_rows",
        "fragment_median_rows",
        "data_size_bytes",
        "versions",
        "latest_version_timestamp",
        "branches",
        "tags",
        "num_indices",
        "indices",
        "compaction_hint",
    ] {
        assert!(obj.contains_key(key), "missing jsonl field: {key}");
    }
    assert_eq!(obj.len(), 20, "unexpected jsonl field count");

    // Raw numeric values, not human-formatted strings.
    assert_eq!(v["rows"], 590);
    assert_eq!(v["format"], "lance");
    assert_eq!(v["data_size_bytes"], 4096);
    assert_eq!(v["num_indices"], 2);
    assert_eq!(v["indices"][0]["name"], "emb_idx");
    assert_eq!(v["indices"][0]["type"], "IVF_PQ");
    // Healthy sample → hint is null.
    assert_eq!(v["compaction_hint"], Value::Null);
    assert_eq!(v["latest_version_timestamp"], "2026-07-18T09:12:44Z");
}

#[test]
fn deleted_ratio_is_deleted_over_physical() {
    // 10 / 600 = 0.01666…
    let ratio = json(&sample_stat())["deleted_ratio"].as_f64().unwrap();
    assert!((ratio - 10.0 / 600.0).abs() < 1e-12);
}

#[test]
fn table_rows_cover_every_metric() {
    let rows = table_rows(&sample_stat());
    let keys: Vec<&str> = rows.iter().map(|(k, _)| k.as_str()).collect();
    assert_eq!(
        keys,
        vec![
            "path",
            "format",
            "rows",
            "deleted rows",
            "columns",
            "fragments",
            "data size",
            "versions",
            "branches",
            "tags",
            "indices",
        ]
    );
    // Spot-check the composed display cells.
    let map: std::collections::HashMap<_, _> = rows.iter().cloned().collect();
    assert_eq!(map["rows"], "590");
    assert_eq!(map["format"], "lance (manifest version 2)");
    assert_eq!(map["fragments"], "3  (min 100 rows, max 300 rows, median 200)");
    assert_eq!(map["indices"], "2  (emb_idx IVF_PQ, id_idx BTREE)");
    assert!(map["versions"].contains("latest 2026-07-18T09:12:44Z"));
}

#[test]
fn no_size_table_shows_placeholder() {
    let s = small(vec![frag(0, 100, 0, None)]);
    let map: std::collections::HashMap<_, _> = table_rows(&s).into_iter().collect();
    assert_eq!(map["data size"], "n/a (--no-size)");
    assert_eq!(stat_table(&s).batch.rows, 11);
}

#[test]
fn the_hint_is_printed_below_a_table_only() {
    let s = small(vec![frag(0, 100, 20, None)]);
    assert!(trailer(&s, Format::Table).unwrap().contains("compaction would likely help"));
    assert!(trailer(&s, Format::Csv).is_none());
    assert!(trailer(&sample_stat(), Format::Table).is_none());
}

#[test]
fn totals_add_up() {
    let fragments = vec![frag(0, 100, 1, Some(7)), frag(1, 50, 2, None)];
    assert_eq!(fragment_totals(&fragments), (150, 3));
    assert_eq!(fragment_bytes(&fragments), 7);
}

#[test]
fn the_order_of_the_listings_does_not_matter() {
    let fragments = [(1, 100, 10), (2, 40, 0), (3, 70, 7), (4, 70, 0)];
    let versions = [(1, 50), (3, 10), (2, 99)];
    let build = |reversed: bool| {
        let mut f: Vec<FragmentInfo> =
            fragments.iter().map(|(id, p, d)| frag(*id, *p, *d, Some(8))).collect();
        let mut v: Vec<VersionInfo> = versions.iter().map(|(n, t)| version(*n, &format!("1970-01-01T00:00:{t:02}Z"))).collect();
        if reversed {
            f.reverse();
            v.reverse();
        }
        build_stat("ds".to_string(), 3, 2, &f, &v, 1, 0, &vec![], true)
    };
    let (a, b) = (build(false), build(true));
    for s in [&a, &b] {
        assert_eq!((s.rows, s.physical_rows, s.deleted_rows), (263, 280, 17));
        assert_eq!(s.fragment_min_rows, Some(40));
        assert_eq!(s.fragment_median_rows, Some(70));
        assert_eq!(s.fragment_max_rows, Some(100));
        assert_eq!(s.data_size_bytes, Some(32));
        assert_eq!(s.latest_version_timestamp, Some(Instant { secs: 10, nanos: 0 }));
    }
}

#[test]
fn sizes_that_are_not_asked_for_are_not_added_up() {
    let fragments = vec![frag(0, 1, 0, Some(u64::MAX)), frag(1, 2, 0, Some(u64::MAX))];
    let s = build_stat("ds".to_string(), 1, 1, &fragments, &vec![], 1, 0, &vec![], false);
    assert_eq!((s.rows, s.data_size_bytes), (3, None));
}
