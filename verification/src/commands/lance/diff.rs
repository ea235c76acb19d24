//! `diff`: compare two versions of one dataset.
use vstd::prelude::*;

use crate::cli::LanceArgs;
use crate::commands::diff::{section, section_text, signed, signed_difference};
use crate::commands::diff_common::{
    build_schema_delta, delta_json, labelled, law_same_has_no_delta, Delta,
};
use crate::commands::lance::deltas::{
    build_fragment_delta, build_index_delta, build_row_delta, countable_rows, distinct_ids,
    law_same_fragments_have_no_delta, law_same_indices_have_no_delta, FragmentDelta, IndexDelta,
    RowDelta,
};
use crate::commands::Outcome;
use crate::dataset::{CheckoutState, FragmentInfo, IndexInfo, VersionInfo, MAIN_BRANCH};
use crate::error::Error;
use crate::json::{array, array_text, object, opt_view, quote, quoted, Members};
use crate::output::temporal::{format_log_time, format_rfc3339, log_time_text, rfc3339_text};
use crate::output::value::{bool_string, bool_text};
use crate::schema::Schema;
use crate::text::{dec, dec_i128, dec_int, dec_u64, dec_usize, join, join_texts, same_text, texts};

verus! {

// ---------- endpoints ----------

/// The selectors of the two versions.
#[derive(Debug)]
pub struct DiffSelectors {
    pub branch: Option<String>,
    pub from_version: Option<u64>,
    pub from_tag: Option<String>,
    pub to_version: Option<u64>,
    pub to_tag: Option<String>,
}

impl Clone for DiffSelectors {
    fn clone(&self) -> (r: Self)
        ensures
            r == *self,
    {
        DiffSelectors {
            branch: self.branch.clone(),
            from_version: self.from_version,
            from_tag: self.from_tag.clone(),
            to_version: self.to_version,
            to_tag: self.to_tag.clone(),
        }
    }
}

impl Default for DiffSelectors {
    fn default() -> (r: Self)
        ensures
            r.branch is None,
            r.from_version is None,
            r.from_tag is None,
            r.to_version is None,
            r.to_tag is None,
    {
        DiffSelectors {
            branch: None,
            from_version: None,
            from_tag: None,
            to_version: None,
            to_tag: None,
        }
    }
}

impl DiffSelectors {
    /// What to open for the first version.
    pub fn from_args(&self) -> (r: LanceArgs)
        ensures
            r.branch == self.branch,
            r.version == self.from_version,
            r.tag == self.from_tag,
            r.as_of is None,
    {
        LanceArgs {
            branch: self.branch.clone(),
            version: self.from_version,
            tag: self.from_tag.clone(),
            as_of: None,
        }
    }

    /// What to open for the second version: the one selected, or else the latest of
    /// the branch that the first one lies on. The default branch is left implicit.
    pub fn to_args(&self, from: &CheckoutState) -> (r: LanceArgs)
        ensures
            r.as_of is None,
            if self.to_version is Some || self.to_tag is Some {
                r.branch == self.branch && r.version == self.to_version && r.tag == self.to_tag
            } else {
                r.version is None && r.tag is None && opt_view(r.branch) == if from.branch@
                    == MAIN_BRANCH@ {
                    None
                } else {
                    Some(from.branch@)
                }
            },
    {
        if self.to_version.is_some() || self.to_tag.is_some() {
            LanceArgs {
                branch: self.branch.clone(),
                version: self.to_version,
                tag: self.to_tag.clone(),
                as_of: None,
            }
        } else {
            let branch = if same_text(from.branch.as_str(), MAIN_BRANCH) {
                None
            } else {
                Some(from.branch.clone())
            };
            LanceArgs { branch, version: None, tag: None, as_of: None }
        }
    }
}

/// A diff makes sense only within one branch's history.
pub fn check_branches(from: &CheckoutState, to: &CheckoutState) -> (r: Result<(), Error>)
    ensures
        from.branch@ == to.branch@ ==> r is Ok,
        from.branch@ != to.branch@ ==> (r matches Err(
            Error::DiffCrossBranch { from_branch, to_branch },
        ) && from_branch@ == from.branch@ && to_branch@ == to.branch@),
{
    if same_text(from.branch.as_str(), to.branch.as_str()) {
        Ok(())
    } else {
        Err(
            Error::DiffCrossBranch {
                from_branch: from.branch.clone(),
                to_branch: to.branch.clone(),
            },
        )
    }
}

pub open spec fn min(a: u64, b: u64) -> u64 {
    if a <= b {
        a
    } else {
        b
    }
}

pub open spec fn max(a: u64, b: u64) -> u64 {
    if a <= b {
        b
    } else {
        a
    }
}

/// The versions after the lower and up to the higher of two versions.
pub open spec fn in_range(versions: Seq<VersionInfo>, from: u64, to: u64) -> Seq<VersionInfo>
    decreases versions.len(),
{
    if versions.len() == 0 {
        Seq::empty()
    } else {
        let v = versions.last();
        let before = in_range(versions.drop_last(), from, to);
        if min(from, to) < v.version && v.version <= max(from, to) {
            before.push(v)
        } else {
            before
        }
    }
}

/// The versions after the lower and up to the higher of two versions.
pub fn versions_in_range(versions: &Vec<VersionInfo>, from: u64, to: u64) -> (r: Vec<VersionInfo>)
    ensures
        r@ == in_range(versions@, from, to),
{
    let low: u64 = if from <= to {
        from
    } else {
        to
    };
    let high: u64 = if from <= to {
        to
    } else {
        from
    };
    let mut out: Vec<VersionInfo> = Vec::new();
    let mut i: usize = 0;
    proof {
        assert(versions@.take(0) =~= Seq::<VersionInfo>::empty());
    }
    while i < versions.len()
        invariant
            i <= versions@.len(),
            low == min(from, to),
            high == max(from, to),
            out@ == in_range(versions@.take(i as int), from, to),
        decreases versions@.len() - i,
    {
        proof {
            assert(versions@.take(i + 1).drop_last() =~= versions@.take(i as int));
            assert(versions@.take(i + 1).last() == versions@[i as int]);
        }
        if low < versions[i].version && versions[i].version <= high {
            out.push(versions[i].clone());
        }
        i += 1;
    }
    proof {
        assert(versions@.take(versions@.len() as int) =~= versions@);
    }
    out
}

/// One side of the comparison.
#[derive(Debug)]
pub struct Endpoint {
    pub branch: String,
    pub version: u64,
    pub schema: Schema,
    pub fragments: Vec<FragmentInfo>,
    pub indices: Vec<IndexInfo>,
}

// ---------- the report ----------

/// The comparison of two versions.
#[derive(Debug)]
pub struct DiffReport {
    pub from_branch: String,
    pub from_version: u64,
    pub to_branch: String,
    pub to_version: u64,
    pub rows: RowDelta,
    pub schema: Delta,
    pub fragments: FragmentDelta,
    pub indices: IndexDelta,
    /// The versions between the two.
    pub versions: Vec<VersionInfo>,
}

impl DiffReport {
    pub open spec fn compares(&self, from: Endpoint, to: Endpoint) -> bool {
        &&& self.from_branch@ == from.branch@
        &&& self.from_version == from.version
        &&& self.to_branch@ == to.branch@
        &&& self.to_version == to.version
        &&& self.rows.compares(from.fragments@, to.fragments@)
        &&& self.schema.compares(labelled(from.schema.fields@), labelled(to.schema.fields@))
        &&& self.fragments.compares(from.fragments@, to.fragments@)
        &&& self.indices.compares(from.indices@, to.indices@)
    }
}

/// Compare two versions.
pub fn build_report(from: &Endpoint, to: &Endpoint, versions: Vec<VersionInfo>) -> (r: DiffReport)
    requires
        countable_rows(from.fragments@, to.fragments@),
    ensures
        r.compares(*from, *to),
        r.versions == versions,
{
    DiffReport {
        from_branch: from.branch.clone(),
        from_version: from.version,
        to_branch: to.branch.clone(),
        to_version: to.version,
        rows: build_row_delta(&from.fragments, &to.fragments),
        schema: build_schema_delta(&from.schema, &to.schema),
        fragments: build_fragment_delta(&from.fragments, &to.fragments),
        indices: build_index_delta(&from.indices, &to.indices),
        versions,
    }
}

/// The texts of numbers.
pub open spec fn number_texts(ids: Seq<u64>) -> Seq<Seq<char>> {
    ids.map_values(|n: u64| dec(n as nat))
}

/// A list of ids in brackets.
pub open spec fn id_list(ids: Seq<u64>) -> Seq<char> {
    "["@ + join(number_texts(ids), ", "@) + "]"@
}

fn number_strings(ids: &Vec<u64>) -> (r: Vec<String>)
    ensures
        texts(r@) == number_texts(ids@),
{
    let ghost all = number_texts(ids@);
    let mut out: Vec<String> = Vec::new();
    let mut i: usize = 0;
    proof {
        assert(texts(out@) =~= all.take(0));
    }
    while i < ids.len()
        invariant
            all == number_texts(ids@),
            i <= ids@.len(),
            texts(out@) == all.take(i as int),
        decreases ids@.len() - i,
    {
        let ghost before = out@;
        out.push(dec_u64(ids[i]));
        proof {
            assert(texts(out@) =~= texts(before).push(all[i as int]));
            assert(all.take(i + 1) =~= all.take(i as int).push(all[i as int]));
        }
        i += 1;
    }
    proof {
        assert(all.take(all.len() as int) =~= all);
    }
    out
}

fn fmt_ids(ids: &Vec<u64>) -> (r: String)
    ensures
        r@ == id_list(ids@),
{
    let mut s = "[".to_owned();
    s.append(join_texts(number_strings(ids).as_slice(), ", ").as_str());
    s.append("]");
    s
}

/// One line per name.
pub open spec fn name_lines(mark: Seq<char>, names: Seq<Seq<char>>) -> Seq<char>
    decreases names.len(),
{
    if names.len() == 0 {
        Seq::empty()
    } else {
        name_lines(mark, names.drop_last()) + mark + names.last() + "\n"@
    }
}

fn push_name_lines(out: &mut String, mark: &str, names: &Vec<String>)
    ensures
        final(out)@ == old(out)@ + name_lines(mark@, texts(names@)),
{
    let ghost start = out@;
    let ghost all = texts(names@);
    let mut i: usize = 0;
    proof {
        assert(all.take(0) =~= Seq::<Seq<char>>::empty());
        assert(start + Seq::<char>::empty() =~= start);
    }
    while i < names.len()
        invariant
            all == texts(names@),
            i <= names@.len(),
            out@ == start + name_lines(mark@, all.take(i as int)),
        decreases names@.len() - i,
    {
        let ghost before = name_lines(mark@, all.take(i as int));
        proof {
            assert(all.take(i + 1).drop_last() =~= all.take(i as int));
            assert(all.take(i + 1).last() == all[i as int]);
        }
        out.append(mark);
        out.append(names[i].as_str());
        out.append("\n");
        proof {
            let n = all[i as int];
            assert(start + before + mark@ + n + "\n"@ =~= start + (before + mark@ + n + "\n"@));
        }
        i += 1;
    }
    proof {
        assert(all.take(all.len() as int) =~= all);
    }
}

/// A labelled list of ids on a line of its own, left out where there are none.
pub open spec fn id_line(label: Seq<char>, ids: Seq<u64>) -> Seq<char> {
    if ids.len() == 0 {
        Seq::empty()
    } else {
        label + id_list(ids) + "\n"@
    }
}

fn id_line_text(label: &str, ids: &Vec<u64>) -> (r: String)
    ensures
        r@ == id_line(label@, ids@),
{
    if ids.len() == 0 {
        String::new()
    } else {
        let mut s = label.to_owned();
        s.append(fmt_ids(ids).as_str());
        s.append("\n");
        s
    }
}

/// The fragment changes as text.
pub open spec fn fragment_section(d: FragmentDelta) -> Seq<char> {
    "Fragments: +"@ + dec(d.added@.len()) + " added, -"@ + dec(d.removed@.len()) + " removed, "@
        + dec(d.rewritten@.len()) + " rewritten\n"@ + id_line("  added:     "@, d.added@) + id_line(
        "  removed:   "@,
        d.removed@,
    ) + id_line("  rewritten: "@, d.rewritten@)
}

fn fragment_section_text(d: &FragmentDelta) -> (r: String)
    ensures
        r@ == fragment_section(*d),
{
    let mut s = "Fragments: +".to_owned();
    s.append(dec_usize(d.added.len()).as_str());
    s.append(" added, -");
    s.append(dec_usize(d.removed.len()).as_str());
    s.append(" removed, ");
    s.append(dec_usize(d.rewritten.len()).as_str());
    s.append(" rewritten\n");
    s.append(id_line_text("  added:     ", &d.added).as_str());
    s.append(id_line_text("  removed:   ", &d.removed).as_str());
    s.append(id_line_text("  rewritten: ", &d.rewritten).as_str());
    s
}

/// The index changes as text.
pub open spec fn index_section(d: IndexDelta) -> Seq<char> {
    if d.created@.len() == 0 && d.dropped@.len() == 0 {
        "Index changes: none\n"@
    } else {
        "Index changes:\n"@ + name_lines("  + created "@, texts(d.created@)) + name_lines(
            "  - dropped "@,
            texts(d.dropped@),
        )
    }
}

fn index_section_text(d: &IndexDelta) -> (r: String)
    ensures
        r@ == index_section(*d),
{
    if d.created.len() == 0 && d.dropped.len() == 0 {
        "Index changes: none\n".to_owned()
    } else {
        let mut s = "Index changes:\n".to_owned();
        push_name_lines(&mut s, "  + created ", &d.created);
        push_name_lines(&mut s, "  - dropped ", &d.dropped);
        s
    }
}

/// A message, empty where there is none.
pub open spec fn message_text(v: VersionInfo) -> Seq<char> {
    match v.message {
        Some(m) => m@,
        None => Seq::empty(),
    }
}

/// One line per version.
pub open spec fn version_lines(versions: Seq<VersionInfo>) -> Seq<char>
    decreases versions.len(),
{
    if versions.len() == 0 {
        Seq::empty()
    } else {
        let v = versions.last();
        version_lines(versions.drop_last()) + "  v"@ + dec(v.version as nat) + "  "@ + log_time_text(
            v.timestamp,
        ) + "  "@ + message_text(v) + "\n"@
    }
}

/// True where every version has an instant of the calendar's range.
pub open spec fn versions_ok(versions: Seq<VersionInfo>) -> bool {
    forall|i: int| 0 <= i < versions.len() ==> (#[trigger] versions[i]).timestamp.wf()
}

/// The version log as text.
pub open spec fn version_section(from: u64, to: u64, versions: Seq<VersionInfo>) -> Seq<char> {
    "Versions in range (v"@ + dec(min(from, to) as nat) + ", v"@ + dec(max(from, to) as nat)
        + "]:\n"@ + if versions.len() == 0 {
        "  (none)\n"@
    } else {
        version_lines(versions)
    }
}

fn version_section_text(from: u64, to: u64, versions: &Vec<VersionInfo>) -> (r: String)
    requires
        versions_ok(versions@),
    ensures
        r@ == version_section(from, to, versions@),
{
    let mut s = "Versions in range (v".to_owned();
    s.append(
        dec_u64(
            if from <= to {
                from
            } else {
                to
            },
        ).as_str(),
    );
    s.append(", v");
    s.append(
        dec_u64(
            if from <= to {
                to
            } else {
                from
            },
        ).as_str(),
    );
    s.append("]:\n");
    if versions.len() == 0 {
        s.append("  (none)\n");
        return s;
    }
    let ghost start = s@;
    let mut i: usize = 0;
    proof {
        assert(versions@.take(0) =~= Seq::<VersionInfo>::empty());
        assert(start + Seq::<char>::empty() =~= start);
    }
    while i < versions.len()
        invariant
            i <= versions@.len(),
            versions_ok(versions@),
            s@ == start + version_lines(versions@.take(i as int)),
        decreases versions@.len() - i,
    {
        let ghost before = version_lines(versions@.take(i as int));
        proof {
            assert(versions@.take(i + 1).drop_last() =~= versions@.take(i as int));
            assert(versions@.take(i + 1).last() == versions@[i as int]);
        }
        let v = &versions[i];
        let message = match &v.message {
            Some(m) => m.clone(),
            None => String::new(),
        };
        s.append("  v");
        s.append(dec_u64(v.version).as_str());
        s.append("  ");
        s.append(format_log_time(v.timestamp).as_str());
        s.append("  ");
        s.append(message.as_str());
        s.append("\n");
        proof {
            let (a, b, c) = (dec(v.version as nat), log_time_text(v.timestamp), message_text(*v));
            assert(start + before + "  v"@ + a + "  "@ + b + "  "@ + c + "\n"@ =~= start + (before
                + "  v"@ + a + "  "@ + b + "  "@ + c + "\n"@));
        }
        i += 1;
    }
    proof {
        assert(versions@.take(versions@.len() as int) =~= versions@);
    }
    s
}

// ---------- JSON ----------

/// A version as a JSON object.
pub open spec fn version_object(v: VersionInfo) -> Seq<char> {
    object(
        seq![
            ("version"@, dec(v.version as nat)),
            ("timestamp"@, quoted(rfc3339_text(v.timestamp))),
            ("message"@, opt_quoted(opt_view(v.message))),
        ],
    )
}

/// An optional text as JSON.
pub open spec fn opt_quoted(t: Option<Seq<char>>) -> Seq<char> {
    match t {
        Some(s) => quoted(s),
        None => "null"@,
    }
}

/// An optional text as JSON.
pub fn opt_quote(t: &Option<String>) -> (r: String)
    ensures
        r@ == opt_quoted(opt_view(*t)),
{
    match t {
        Some(s) => quote(s.as_str()),
        None => "null".to_owned(),
    }
}

fn version_array(versions: &Vec<VersionInfo>) -> (r: String)
    requires
        versions_ok(versions@),
    ensures
        r@ == array(versions@.map_values(|v: VersionInfo| version_object(v))),
{
    let ghost all = versions@.map_values(|v: VersionInfo| version_object(v));
    let mut items: Vec<String> = Vec::new();
    let mut i: usize = 0;
    proof {
        assert(texts(items@) =~= all.take(0));
    }
    while i < versions.len()
        invariant
            all == versions@.map_values(|v: VersionInfo| version_object(v)),
            versions_ok(versions@),
            i <= versions@.len(),
            texts(items@) == all.take(i as int),
        decreases versions@.len() - i,
    {
        let v = &versions[i];
        let mut m = Members::new();
        m.add_new("version", dec_u64(v.version));
        m.add_new("timestamp", quote(format_rfc3339(v.timestamp).as_str()));
        m.add_new("message", opt_quote(&v.message));
        proof {
            assert(m@ =~= seq![
                ("version"@, dec(v.version as nat)),
                ("timestamp"@, quoted(rfc3339_text(v.timestamp))),
                ("message"@, opt_quoted(opt_view(v.message))),
            ]);
        }
        let text = m.text();
        let ghost before = items@;
        items.push(text);
        proof {
            assert(text@ == all[i as int]);
            assert(texts(items@) =~= texts(before).push(text@));
            assert(all.take(i + 1) =~= all.take(i as int).push(all[i as int]));
        }
        i += 1;
    }
    proof {
        assert(all.take(all.len() as int) =~= all);
    }
    array_text(items.as_slice())
}

/// The texts, each as a JSON string.
pub open spec fn quoted_all(names: Seq<Seq<char>>) -> Seq<Seq<char>> {
    names.map_values(|n: Seq<char>| quoted(n))
}

fn name_array(names: &Vec<String>) -> (r: String)
    ensures
        r@ == array(quoted_all(texts(names@))),
{
    let ghost all = quoted_all(texts(names@));
    let mut items: Vec<String> = Vec::new();
    let mut i: usize = 0;
    proof {
        assert(texts(items@) =~= all.take(0));
    }
    while i < names.len()
        invariant
            all == quoted_all(texts(names@)),
            i <= names@.len(),
            texts(items@) == all.take(i as int),
        decreases names@.len() - i,
    {
        let ghost before = items@;
        items.push(quote(names[i].as_str()));
        proof {
            assert(texts(items@) =~= texts(before).push(all[i as int]));
            assert(all.take(i + 1) =~= all.take(i as int).push(all[i as int]));
        }
        i += 1;
    }
    proof {
        assert(all.take(all.len() as int) =~= all);
    }
    array_text(items.as_slice())
}

/// A branch and version as a JSON object.
pub open spec fn endpoint_object(branch: Seq<char>, version: u64) -> Seq<char> {
    object(seq![("branch"@, quoted(branch)), ("version"@, dec(version as nat))])
}

fn endpoint_json(branch: &str, version: u64) -> (r: String)
    ensures
        r@ == endpoint_object(branch@, version),
{
    let mut m = Members::new();
    m.add_new("branch", quote(branch));
    m.add_new("version", dec_u64(version));
    proof {
        assert(m@ =~= seq![("branch"@, quoted(branch@)), ("version"@, dec(version as nat))]);
    }
    m.text()
}

pub open spec fn row_object(d: RowDelta) -> Seq<char> {
    object(
        seq![
            ("from"@, dec(d.from_rows as nat)),
            ("to"@, dec(d.to_rows as nat)),
            ("net"@, dec_int(d.to_rows - d.from_rows)),
            ("added"@, dec(d.added as nat)),
            ("deleted"@, dec(d.deleted as nat)),
        ],
    )
}

fn row_json(d: &RowDelta) -> (r: String)
    ensures
        r@ == row_object(*d),
{
    let mut m = Members::new();
    m.add_new("from", dec_u64(d.from_rows));
    m.add_new("to", dec_u64(d.to_rows));
    m.add_new("net", dec_i128(d.to_rows as i128 - d.from_rows as i128));
    m.add_new("added", dec_u64(d.added));
    m.add_new("deleted", dec_u64(d.deleted));
    proof {
        assert(m@ =~= seq![
            ("from"@, dec(d.from_rows as nat)),
            ("to"@, dec(d.to_rows as nat)),
            ("net"@, dec_int(d.to_rows - d.from_rows)),
            ("added"@, dec(d.added as nat)),
            ("deleted"@, dec(d.deleted as nat)),
        ]);
    }
    m.text()
}

pub open spec fn fragment_object(d: FragmentDelta) -> Seq<char> {
    object(
        seq![
            ("added"@, array(number_texts(d.added@))),
            ("removed"@, array(number_texts(d.removed@))),
            ("rewritten"@, array(number_texts(d.rewritten@))),
        ],
    )
}

fn fragment_json(d: &FragmentDelta) -> (r: String)
    ensures
        r@ == fragment_object(*d),
{
    let mut m = Members::new();
    m.add_new("added", array_text(number_strings(&d.added).as_slice()));
    m.add_new("removed", array_text(number_strings(&d.removed).as_slice()));
    m.add_new("rewritten", array_text(number_strings(&d.rewritten).as_slice()));
    proof {
        assert(m@ =~= seq![
            ("added"@, array(number_texts(d.added@))),
            ("removed"@, array(number_texts(d.removed@))),
            ("rewritten"@, array(number_texts(d.rewritten@))),
        ]);
    }
    m.text()
}

pub open spec fn index_object(d: IndexDelta) -> Seq<char> {
    object(
        seq![
            ("created"@, array(quoted_all(texts(d.created@)))),
            ("dropped"@, array(quoted_all(texts(d.dropped@)))),
        ],
    )
}

fn index_json(d: &IndexDelta) -> (r: String)
    ensures
        r@ == index_object(*d),
{
    let mut m = Members::new();
    m.add_new("created", name_array(&d.created));
    m.add_new("dropped", name_array(&d.dropped));
    proof {
        assert(m@ =~= seq![
            ("created"@, array(quoted_all(texts(d.created@)))),
            ("dropped"@, array(quoted_all(texts(d.dropped@)))),
        ]);
    }
    m.text()
}

impl DiffReport {
    /// True when the versions have the same content: no change of schema, fragments,
    /// indices or rows.
    pub open spec fn identical(&self) -> bool {
        &&& self.schema.nothing()
        &&& self.fragments.added@.len() == 0
        &&& self.fragments.removed@.len() == 0
        &&& self.fragments.rewritten@.len() == 0
        &&& self.indices.created@.len() == 0
        &&& self.indices.dropped@.len() == 0
        &&& self.rows.added == 0
        &&& self.rows.deleted == 0
        &&& self.rows.from_rows == self.rows.to_rows
    }

    /// What `write_human` writes.
    pub open spec fn human(&self, input: Seq<char>) -> Seq<char> {
        let head = "diff "@ + input + "\n  from  "@ + self.from_branch@ + " v"@ + dec(
            self.from_version as nat,
        ) + "\n  to    "@ + self.to_branch@ + " v"@ + dec(self.to_version as nat) + "\n\n"@;
        if self.identical() {
            head + "No differences.\n"@
        } else {
            head + "Rows: "@ + dec(self.rows.from_rows as nat) + " -> "@ + dec(
                self.rows.to_rows as nat,
            ) + "  (net "@ + signed(self.rows.to_rows - self.rows.from_rows) + "; +"@ + dec(
                self.rows.added as nat,
            ) + " added, -"@ + dec(self.rows.deleted as nat) + " deleted)\n\n"@ + section(
                "Schema changes"@,
                self.schema,
            ) + "\n"@ + fragment_section(self.fragments) + "\n"@ + index_section(self.indices)
                + "\n"@ + version_section(self.from_version, self.to_version, self.versions@)
        }
    }

    /// What `to_json` gives.
    pub open spec fn json(&self) -> Seq<char> {
        object(
            seq![
                ("from"@, endpoint_object(self.from_branch@, self.from_version)),
                ("to"@, endpoint_object(self.to_branch@, self.to_version)),
                ("identical"@, bool_text(self.identical())),
                ("rows"@, row_object(self.rows)),
                ("schema"@, delta_json(self.schema, "name"@, "type"@, "retyped"@)),
                ("fragments"@, fragment_object(self.fragments)),
                ("indices"@, index_object(self.indices)),
                (
                    "versions"@,
                    array(self.versions@.map_values(|v: VersionInfo| version_object(v))),
                ),
            ],
        )
    }

    pub fn is_identical(&self) -> (r: bool)
        ensures
            r == self.identical(),
    {
        self.schema.is_empty() && self.fragments.added.len() == 0 && self.fragments.removed.len()
            == 0 && self.fragments.rewritten.len() == 0 && self.indices.created.len() == 0
            && self.indices.dropped.len() == 0 && self.rows.added == 0 && self.rows.deleted == 0
            && self.rows.from_rows == self.rows.to_rows
    }

    /// The exit code: whether differences were found.
    pub fn outcome(&self) -> (r: Outcome)
        ensures
            r == if self.identical() {
                Outcome::Success
            } else {
                Outcome::Different
            },
    {
        if self.is_identical() {
            Outcome::Success
        } else {
            Outcome::Different
        }
    }

    /// The readable summary.
    pub fn write_human(&self, input: &str) -> (r: String)
        requires
            versions_ok(self.versions@),
        ensures
            r@ == self.human(input@),
    {
        let mut s = "diff ".to_owned();
        s.append(input);
        s.append("\n  from  ");
        s.append(self.from_branch.as_str());
        s.append(" v");
        s.append(dec_u64(self.from_version).as_str());
        s.append("\n  to    ");
        s.append(self.to_branch.as_str());
        s.append(" v");
        s.append(dec_u64(self.to_version).as_str());
        s.append("\n\n");
        if self.is_identical() {
            s.append("No differences.\n");
            return s;
        }
        s.append("Rows: ");
        s.append(dec_u64(self.rows.from_rows).as_str());
        s.append(" -> ");
        s.append(dec_u64(self.rows.to_rows).as_str());
        s.append("  (net ");
        s.append(signed_difference(self.rows.from_rows, self.rows.to_rows).as_str());
        s.append("; +");
        s.append(dec_u64(self.rows.added).as_str());
        s.append(" added, -");
        s.append(dec_u64(self.rows.deleted).as_str());
        s.append(" deleted)\n\n");
        s.append(section_text("Schema changes", &self.schema).as_str());
        s.append("\n");
        s.append(fragment_section_text(&self.fragments).as_str());
        s.append("\n");
        s.append(index_section_text(&self.indices).as_str());
        s.append("\n");
        s.append(
            version_section_text(self.from_version, self.to_version, &self.versions).as_str(),
        );
        s
    }

    /// The summary as one JSON object.
    pub fn to_json(&self) -> (r: String)
        requires
            versions_ok(self.versions@),
        ensures
            r@ == self.json(),
    {
        let mut m = Members::new();
        m.add_new("from", endpoint_json(self.from_branch.as_str(), self.from_version));
        m.add_new("to", endpoint_json(self.to_branch.as_str(), self.to_version));
        m.add_new("identical", bool_string(self.is_identical()));
        m.add_new("rows", row_json(&self.rows));
        m.add_new("schema", self.schema.to_json("name", "type", "retyped"));
        m.add_new("fragments", fragment_json(&self.fragments));
        m.add_new("indices", index_json(&self.indices));
        m.add_new("versions", version_array(&self.versions));
        proof {
            assert(m@ =~= seq![
                ("from"@, endpoint_object(self.from_branch@, self.from_version)),
                ("to"@, endpoint_object(self.to_branch@, self.to_version)),
                ("identical"@, bool_text(self.identical())),
                ("rows"@, row_object(self.rows)),
                ("schema"@, delta_json(self.schema, "name"@, "type"@, "retyped"@)),
                ("fragments"@, fragment_object(self.fragments)),
                ("indices"@, index_object(self.indices)),
                (
                    "versions"@,
                    array(self.versions@.map_values(|v: VersionInfo| version_object(v))),
                ),
            ]);
        }
        m.text()
    }
}

// ---------- laws ----------

/// A version compared with itself is identical.
pub proof fn law_version_is_identical_to_itself(report: DiffReport, e: Endpoint)
    requires
        report.compares(e, e),
        distinct_ids(e.fragments@),
    ensures
        report.identical(),
{
    law_same_has_no_delta(report.schema, labelled(e.schema.fields@));
    law_same_fragments_have_no_delta(report.rows, report.fragments, e.fragments@);
    law_same_indices_have_no_delta(report.indices, e.indices@);
}

/// A change of the live rows is never reported as identical, whatever the fragments
/// show.
pub proof fn law_row_change_is_a_difference(report: DiffReport)
    requires
        report.rows.from_rows != report.rows.to_rows,
    ensures
        !report.identical(),
{
}

/// The versions reported lie after the lower and up to the higher one, and none of
/// those is left out.
pub proof fn law_range_is_half_open(versions: Seq<VersionInfo>, from: u64, to: u64, v: VersionInfo)
    ensures
        in_range(versions, from, to).contains(v) <==> versions.contains(v) && min(from, to)
            < v.version && v.version <= max(from, to),
    decreases versions.len(),
{
    if versions.len() > 0 {
        let init = versions.drop_last();
        law_range_is_half_open(init, from, to, v);
        let before = in_range(init, from, to);
        let after = in_range(versions, from, to);
        if before.contains(v) {
            let i = choose|i: int| 0 <= i < before.len() && before[i] == v;
            assert(after[i] == v);
        }
        if init.contains(v) {
            let i = choose|i: int| 0 <= i < init.len() && init[i] == v;
            assert(versions[i] == v);
        }
        if versions.last() == v {
            assert(versions[versions.len() - 1] == v);
            if min(from, to) < v.version && v.version <= max(from, to) {
                assert(after[after.len() - 1] == v);
            }
        }
        if versions.contains(v) && !init.contains(v) {
            let i = choose|i: int| 0 <= i < versions.len() && versions[i] == v;
            if i < init.len() {
                assert(init[i] == v);
            }
        }
        if after.contains(v) && !before.contains(v) {
            let i = choose|i: int| 0 <= i < after.len() && after[i] == v;
            if i < before.len() {
                assert(before[i] == v);
            }
        }
    }
}

} // verus!
