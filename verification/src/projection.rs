//! Resolve `--columns` / `--exclude-columns` against a schema.
//!
//! Beyond plain top-level column names, both flags accept:
//!
//! * **Glob patterns** (`*`, `?`) matched against top-level column names. A
//!   pattern matching nothing is an error. Matched columns are emitted in schema
//!   order at the position the pattern occupies in the user's list.
//! * **Nested field paths** (`meta.user.id`) that walk into struct columns.
//!
//! **Ambiguity rule:** a token that *exactly* matches a real top-level column name
//! is always that literal column, which wins over both glob and path
//! interpretation. Only when there is no exact match is a token containing
//! `*`/`?` a glob, or a token containing `.` a nested path.
//!
//! Nested projection is surfaced as **flat, dotted-named columns**: projecting
//! `meta.user.id` yields a single leaf column named `meta.user.id`.
use vstd::prelude::*;

use crate::error::Error;
use crate::schema::{
    available, available_names, field_names, find_field, lemma_position, names, position, DataType,
    Field, Kind, Schema,
};
use crate::text::{
    chars_of, find, find_char, has_char, has_text, lemma_find, lemma_split_nonempty, same_chars,
    same_text, split, split_chars, text_of, texts, views,
};
use crate::wildcard::{glob, wildcard_match};

verus! {

// ---------- tokens ----------

/// How a single user token is interpreted.
#[derive(Debug, Clone, Copy, PartialEq, Eq, Structural)]
pub enum Token {
    /// Exact top-level column name (possibly containing `.` or `*`).
    TopLevel,
    /// Glob pattern to expand against top-level names.
    Glob,
    /// Dotted nested path.
    Path,
    /// A plain name that matches nothing.
    Unknown,
}

/// The interpretation of `token` among the columns `cols`.
pub open spec fn token_kind(token: Seq<char>, cols: Seq<Seq<char>>) -> Token {
    if cols.contains(token) {
        Token::TopLevel
    } else if token.contains('*') || token.contains('?') {
        Token::Glob
    } else if token.contains('.') {
        Token::Path
    } else {
        Token::Unknown
    }
}

/// Classify `token`, applying the exact-match-first rule.
pub fn classify(token: &str, top_level: &[String]) -> (r: Token)
    ensures
        r == token_kind(token@, texts(top_level@)),
{
    let chars = chars_of(token);
    if has_text(top_level, token) {
        Token::TopLevel
    } else if has_char(chars.as_slice(), '*') || has_char(chars.as_slice(), '?') {
        Token::Glob
    } else if has_char(chars.as_slice(), '.') {
        Token::Path
    } else {
        Token::Unknown
    }
}

// ---------- refusals ----------

/// Why a token is refused.
pub enum Refusal {
    Unknown(Seq<char>),
    NoMatch(Seq<char>),
    Duplicate(Seq<char>),
    UnknownNested { path: Seq<char>, parent: Seq<char>, field: Seq<char>, fields: Seq<Field> },
    NonStruct { path: Seq<char>, segment: Seq<char>, data_type: Seq<char> },
}

/// True when `e` reports the refusal `r` of a token among the columns `fields`.
pub open spec fn reports(e: Error, r: Refusal, fields: Seq<Field>) -> bool {
    match r {
        Refusal::Unknown(n) => e matches Error::UnknownColumn { name, available: a } && name@ == n
            && a@ == available(fields),
        Refusal::NoMatch(p) => e matches Error::NoGlobMatch { pattern, available: a } && pattern@
            == p && a@ == available(fields),
        Refusal::Duplicate(n) => e matches Error::DuplicateColumn(x) && x@ == n,
        Refusal::UnknownNested {
            path,
            parent,
            field,
            fields: at,
        } => e matches Error::UnknownNestedField { path: p, parent: q, field: f, available: a }
            && p@ == path && q@ == parent && f@ == field && a@ == available(at),
        Refusal::NonStruct {
            path,
            segment,
            data_type,
        } => e matches Error::NonStructField { path: p, segment: s, data_type: d } && p@ == path
            && s@ == segment && d@ == data_type,
    }
}

// ---------- nested paths ----------

/// What the segments `segs` run into when they are followed from `fields`, below
/// `parent`: nothing where each names a field and all but the last a struct.
pub open spec fn path_refusal(
    fields: Seq<Field>,
    segs: Seq<Seq<char>>,
    parent: Seq<char>,
    path: Seq<char>,
) -> Option<Refusal>
    decreases segs.len(),
{
    if segs.len() == 0 {
        None
    } else {
        let at = position(fields, segs[0]);
        if at >= fields.len() {
            Some(
                Refusal::UnknownNested {
                    path,
                    parent: if parent.len() == 0 {
                        "<schema>"@
                    } else {
                        parent
                    },
                    field: segs[0],
                    fields,
                },
            )
        } else if segs.len() == 1 {
            None
        } else {
            match fields[at as int].data_type.kind {
                Kind::Struct(children) => path_refusal(
                    children@,
                    segs.drop_first(),
                    if parent.len() == 0 {
                        segs[0]
                    } else {
                        parent + "."@ + segs[0]
                    },
                    path,
                ),
                _ => Some(
                    Refusal::NonStruct {
                        path,
                        segment: segs[0],
                        data_type: fields[at as int].data_type.debug@,
                    },
                ),
            }
        }
    }
}

/// What the dotted `path` runs into in a schema of `fields`.
pub open spec fn bad_path(fields: Seq<Field>, path: Seq<char>) -> Option<Refusal> {
    path_refusal(fields, split(path, '.'), Seq::empty(), path)
}

fn check_path(
    fields: &[Field],
    segs: &Vec<Vec<char>>,
    from: usize,
    parent: String,
    path: &str,
) -> (r: Result<(), Error>)
    requires
        from < segs@.len(),
    ensures
        match path_refusal(fields@, views(segs@).skip(from as int), parent@, path@) {
            None => r is Ok,
            Some(why) => r matches Err(e) && forall|any: Seq<Field>| #[trigger]
                reports(e, why, any),
        },
    decreases segs@.len() - from,
{
    let ghost rest = views(segs@).skip(from as int);
    let seg = text_of(segs[from].as_slice());
    proof {
        assert(rest[0] == seg@);
        assert(rest.drop_first() =~= views(segs@).skip(from + 1));
        lemma_position(fields@, seg@);
    }
    match find_field(fields, seg.as_str()) {
        None => {
            let shown = if parent.as_str().is_empty() {
                "<schema>".to_owned()
            } else {
                parent
            };
            Err(
                Error::UnknownNestedField {
                    path: path.to_owned(),
                    parent: shown,
                    field: seg,
                    available: available_names(fields),
                },
            )
        },
        Some(at) => {
            let last: usize = segs.len() - 1;
            if from == last {
                return Ok(());
            }
            match &fields[at].data_type.kind {
                Kind::Struct(children) => {
                    let below = if parent.as_str().is_empty() {
                        seg
                    } else {
                        let mut s = parent;
                        s.append(".");
                        s.append(seg.as_str());
                        s
                    };
                    check_path(children.as_slice(), segs, from + 1, below, path)
                },
                _ => Err(
                    Error::NonStructField {
                        path: path.to_owned(),
                        segment: seg,
                        data_type: fields[at].data_type.debug.clone(),
                    },
                ),
            }
        },
    }
}

/// Validate a dotted `path` against `schema`, walking struct fields: every segment
/// names a field of its parent, and every one but the last is a struct.
pub fn validate_path(schema: &Schema, path: &str) -> (r: Result<(), Error>)
    ensures
        match bad_path(schema.fields@, path@) {
            None => r is Ok,
            Some(why) => r matches Err(e) && reports(e, why, schema.fields@),
        },
{
    let chars = chars_of(path);
    let segs = split_chars(chars.as_slice(), '.');
    proof {
        lemma_split_nonempty(path@, '.');
        assert(views(segs@).len() == segs@.len());
        assert(views(segs@).skip(0) =~= views(segs@));
    }
    check_path(schema.fields.as_slice(), &segs, 0, String::new(), path)
}

// ---------- include ----------

/// An entry of the projection being built, and whether a glob introduced it.
pub struct Entry {
    pub name: Seq<char>,
    pub from_glob: bool,
}

/// True when `name` is among the entries.
pub open spec fn listed(entries: Seq<Entry>, name: Seq<char>) -> bool {
    exists|i: int| 0 <= i < entries.len() && (#[trigger] entries[i]).name == name
}

/// True when `name` is among the entries that were named explicitly.
pub open spec fn listed_explicitly(entries: Seq<Entry>, name: Seq<char>) -> bool {
    exists|i: int|
        0 <= i < entries.len() && (#[trigger] entries[i]).name == name && !entries[i].from_glob
}

/// The entries after naming `name` explicitly. Naming an entry explicitly twice is
/// refused; one that a glob introduced stays where it is.
pub open spec fn add_explicit(entries: Seq<Entry>, name: Seq<char>) -> Result<Seq<Entry>, Refusal> {
    if listed_explicitly(entries, name) {
        Err(Refusal::Duplicate(name))
    } else if listed(entries, name) {
        Ok(entries)
    } else {
        Ok(entries.push(Entry { name, from_glob: false }))
    }
}

/// The entries after expanding `pattern` over `cols`: each match that is not listed
/// yet is added, in order.
pub open spec fn add_matches(
    entries: Seq<Entry>,
    pattern: Seq<char>,
    cols: Seq<Seq<char>>,
) -> Seq<Entry>
    decreases cols.len(),
{
    if cols.len() == 0 {
        entries
    } else {
        let before = add_matches(entries, pattern, cols.drop_last());
        if glob(pattern, cols.last()) && !listed(before, cols.last()) {
            before.push(Entry { name: cols.last(), from_glob: true })
        } else {
            before
        }
    }
}

/// True when some column matches `pattern`.
pub open spec fn any_match(pattern: Seq<char>, cols: Seq<Seq<char>>) -> bool {
    exists|i: int| 0 <= i < cols.len() && glob(pattern, #[trigger] cols[i])
}

/// The entries after one more token of the include list.
pub open spec fn add_token(
    fields: Seq<Field>,
    entries: Seq<Entry>,
    token: Seq<char>,
) -> Result<Seq<Entry>, Refusal> {
    match token_kind(token, names(fields)) {
        Token::TopLevel => add_explicit(entries, token),
        Token::Path => match bad_path(fields, token) {
            Some(why) => Err(why),
            None => add_explicit(entries, token),
        },
        Token::Glob => if any_match(token, names(fields)) {
            Ok(add_matches(entries, token, names(fields)))
        } else {
            Err(Refusal::NoMatch(token))
        },
        Token::Unknown => Err(Refusal::Unknown(token)),
    }
}

/// The entries of an include list, token by token, or the first refusal.
pub open spec fn included(fields: Seq<Field>, tokens: Seq<Seq<char>>) -> Result<
    Seq<Entry>,
    Refusal,
>
    decreases tokens.len(),
{
    if tokens.len() == 0 {
        Ok(Seq::empty())
    } else {
        match included(fields, tokens.drop_last()) {
            Err(why) => Err(why),
            Ok(entries) => add_token(fields, entries, tokens.last()),
        }
    }
}

/// The names of a list of entries.
pub open spec fn entry_names(entries: Seq<Entry>) -> Seq<Seq<char>> {
    entries.map_values(|e: Entry| e.name)
}

/// The entries that two parallel vectors hold.
pub open spec fn entries_of(out: Seq<String>, globbed: Seq<bool>) -> Seq<Entry> {
    Seq::new(out.len(), |i: int| Entry { name: out[i]@, from_glob: globbed[i] })
}

/// Where `entry` stands in `out`, if it does.
fn find_entry(out: &Vec<String>, entry: &str) -> (r: Option<usize>)
    ensures
        match r {
            Some(i) => i < out@.len() && out@[i as int]@ == entry@,
            None => forall|i: int| 0 <= i < out@.len() ==> (#[trigger] out@[i])@ != entry@,
        },
{
    let mut i: usize = 0;
    while i < out.len()
        invariant
            i <= out@.len(),
            forall|j: int| 0 <= j < i ==> (#[trigger] out@[j])@ != entry@,
        decreases out@.len() - i,
    {
        if same_text(out[i].as_str(), entry) {
            return Some(i);
        }
        i += 1;
    }
    None
}

/// True when no two entries have the same name.
pub open spec fn distinct(entries: Seq<Entry>) -> bool {
    forall|i: int, j: int|
        0 <= i < j < entries.len() ==> (#[trigger] entries[i]).name != (#[trigger] entries[j]).name
}

/// Add an explicit (exact-name or path) entry. Naming the same entry explicitly
/// twice is an error; if it was already introduced by a glob it is skipped, so
/// overlap does not depend on order.
pub fn push_explicit(entry: &str, out: &mut Vec<String>, globbed: &mut Vec<bool>) -> (r: Result<
    (),
    Error,
>)
    requires
        old(out)@.len() == old(globbed)@.len(),
        distinct(entries_of(old(out)@, old(globbed)@)),
    ensures
        final(out)@.len() == final(globbed)@.len(),
        match add_explicit(entries_of(old(out)@, old(globbed)@), entry@) {
            Ok(entries) => r is Ok && entries_of(final(out)@, final(globbed)@) == entries
                && distinct(entries),
            Err(why) => r matches Err(e) && e matches Error::DuplicateColumn(x) && x@ == entry@
                && why == Refusal::Duplicate(entry@) && final(out)@ == old(out)@
                && final(globbed)@ == old(globbed)@,
        },
{
    let ghost entries = entries_of(out@, globbed@);
    match find_entry(out, entry) {
        Some(i) => {
            proof {
                assert(entries[i as int].name == entry@);
            }
            if globbed[i] {
                proof {
                    if listed_explicitly(entries, entry@) {
                        let j = choose|j: int|
                            0 <= j < entries.len() && (#[trigger] entries[j]).name == entry@
                                && !entries[j].from_glob;
                        assert(i != j);
                        assert(entries[i as int].name != entries[j].name);
                    }
                }
                Ok(())
            } else {
                Err(Error::DuplicateColumn(entry.to_owned()))
            }
        },
        None => {
            proof {
                assert forall|i: int| 0 <= i < entries.len() implies (#[trigger] entries[i]).name
                    != entry@ by {
                    assert(out@[i]@ != entry@);
                }
            }
            out.push(entry.to_owned());
            globbed.push(false);
            proof {
                assert(entries_of(out@, globbed@) =~= entries.push(
                    Entry { name: entry@, from_glob: false },
                ));
            }
            Ok(())
        },
    }
}

/// Add every column that matches `pattern` and is not listed yet, in schema order.
/// Returns whether any column matched.
fn push_matches(
    pattern: &str,
    cols: &Vec<String>,
    out: &mut Vec<String>,
    globbed: &mut Vec<bool>,
) -> (matched: bool)
    requires
        old(out)@.len() == old(globbed)@.len(),
        distinct(entries_of(old(out)@, old(globbed)@)),
    ensures
        final(out)@.len() == final(globbed)@.len(),
        matched == any_match(pattern@, texts(cols@)),
        entries_of(final(out)@, final(globbed)@) == add_matches(
            entries_of(old(out)@, old(globbed)@),
            pattern@,
            texts(cols@),
        ),
        distinct(entries_of(final(out)@, final(globbed)@)),
{
    let ghost start = entries_of(out@, globbed@);
    let ghost all = texts(cols@);
    let mut matched = false;
    let mut i: usize = 0;
    proof {
        assert(all.take(0) =~= Seq::<Seq<char>>::empty());
    }
    while i < cols.len()
        invariant
            i <= cols@.len(),
            all == texts(cols@),
            out@.len() == globbed@.len(),
            entries_of(out@, globbed@) == add_matches(start, pattern@, all.take(i as int)),
            distinct(entries_of(out@, globbed@)),
            matched == any_match(pattern@, all.take(i as int)),
        decreases cols@.len() - i,
    {
        let ghost entries = entries_of(out@, globbed@);
        proof {
            assert(all.take(i + 1).drop_last() =~= all.take(i as int));
            assert(all.take(i + 1).last() == cols@[i as int]@);
        }
        let hit = wildcard_match(pattern, cols[i].as_str());
        proof {
            let next = all.take(i + 1);
            if hit {
                assert(glob(pattern@, next[i as int]));
            } else if any_match(pattern@, next) {
                let k = choose|k: int| 0 <= k < next.len() && glob(pattern@, #[trigger] next[k]);
                assert(k < i);
                assert(all.take(i as int)[k] == next[k]);
            }
            if any_match(pattern@, all.take(i as int)) {
                let k = choose|k: int|
                    0 <= k < i && glob(pattern@, #[trigger] all.take(i as int)[k]);
                assert(next[k] == all.take(i as int)[k]);
            }
        }
        if hit {
            matched = true;
            match find_entry(out, cols[i].as_str()) {
                Some(k) => {
                    proof {
                        assert(entries[k as int].name == cols@[i as int]@);
                    }
                },
                None => {
                    proof {
                        assert forall|k: int| 0 <= k < entries.len() implies (
                        #[trigger] entries[k]).name != cols@[i as int]@ by {
                            assert(out@[k]@ != cols@[i as int]@);
                        }
                    }
                    out.push(cols[i].clone());
                    globbed.push(true);
                    proof {
                        assert(entries_of(out@, globbed@) =~= entries.push(
                            Entry { name: cols@[i as int]@, from_glob: true },
                        ));
                    }
                },
            }
        }
        i += 1;
    }
    proof {
        assert(all.take(cols@.len() as int) =~= all);
    }
    matched
}

proof fn lemma_first_include_refusal(fields: Seq<Field>, tokens: Seq<Seq<char>>, k: int)
    requires
        0 <= k <= tokens.len(),
        included(fields, tokens.take(k)) is Err,
    ensures
        included(fields, tokens) == included(fields, tokens.take(k)),
    decreases tokens.len(),
{
    if k < tokens.len() {
        assert(tokens.drop_last().take(k) =~= tokens.take(k));
        lemma_first_include_refusal(fields, tokens.drop_last(), k);
    } else {
        assert(tokens.take(k) =~= tokens);
    }
}

fn resolve_include(schema: &Schema, incl: &[String]) -> (r: Result<Vec<String>, Error>)
    ensures
        match included(schema.fields@, texts(incl@)) {
            Ok(entries) => r matches Ok(out) && texts(out@) == entry_names(entries) && distinct(
                entries,
            ),
            Err(why) => r matches Err(e) && reports(e, why, schema.fields@),
        },
{
    let all = field_names(schema.fields.as_slice());
    let mut out: Vec<String> = Vec::new();
    let mut globbed: Vec<bool> = Vec::new();
    let mut i: usize = 0;
    let ghost tokens = texts(incl@);
    let ghost fields = schema.fields@;
    proof {
        assert(tokens.take(0) =~= Seq::<Seq<char>>::empty());
        assert(entries_of(out@, globbed@) =~= Seq::<Entry>::empty());
    }
    while i < incl.len()
        invariant
            i <= incl@.len(),
            tokens == texts(incl@),
            fields == schema.fields@,
            texts(all@) == names(fields),
            out@.len() == globbed@.len(),
            included(fields, tokens.take(i as int)) == Ok::<Seq<Entry>, Refusal>(
                entries_of(out@, globbed@),
            ),
            distinct(entries_of(out@, globbed@)),
        decreases incl@.len() - i,
    {
        let token = incl[i].as_str();
        proof {
            assert(tokens.take(i + 1).drop_last() =~= tokens.take(i as int));
            assert(tokens.take(i + 1).last() == token@);
        }
        match classify(token, all.as_slice()) {
            Token::TopLevel => {
                match push_explicit(token, &mut out, &mut globbed) {
                    Ok(()) => {},
                    Err(e) => {
                        proof {
                            lemma_first_include_refusal(fields, tokens, i + 1);
                        }
                        return Err(e);
                    },
                }
            },
            Token::Path => {
                match validate_path(schema, token) {
                    Ok(()) => {},
                    Err(e) => {
                        proof {
                            lemma_first_include_refusal(fields, tokens, i + 1);
                        }
                        return Err(e);
                    },
                }
                match push_explicit(token, &mut out, &mut globbed) {
                    Ok(()) => {},
                    Err(e) => {
                        proof {
                            lemma_first_include_refusal(fields, tokens, i + 1);
                        }
                        return Err(e);
                    },
                }
            },
            Token::Glob => {
                if !push_matches(token, &all, &mut out, &mut globbed) {
                    proof {
                        lemma_first_include_refusal(fields, tokens, i + 1);
                    }
                    return Err(
                        Error::NoGlobMatch {
                            pattern: token.to_owned(),
                            available: available_names(schema.fields.as_slice()),
                        },
                    );
                }
            },
            Token::Unknown => {
                proof {
                    lemma_first_include_refusal(fields, tokens, i + 1);
                }
                return Err(
                    Error::UnknownColumn {
                        name: token.to_owned(),
                        available: available_names(schema.fields.as_slice()),
                    },
                );
            },
        }
        i += 1;
    }
    proof {
        assert(tokens.take(incl@.len() as int) =~= tokens);
        assert(texts(out@) =~= entry_names(entries_of(out@, globbed@)));
    }
    Ok(out)
}

// ---------- exclude ----------

/// The part of a dotted path before its first dot.
pub open spec fn head(path: Seq<char>) -> Seq<char> {
    path.take(find(path, '.') as int)
}

/// Why `token` of an exclude list is refused, given the tokens before it.
pub open spec fn exclude_token_refusal(
    fields: Seq<Field>,
    earlier: Seq<Seq<char>>,
    token: Seq<char>,
) -> Option<Refusal> {
    if earlier.contains(token) {
        Some(Refusal::Duplicate(token))
    } else {
        match token_kind(token, names(fields)) {
            Token::TopLevel => None,
            Token::Path => bad_path(fields, token),
            Token::Glob => if any_match(token, names(fields)) {
                None
            } else {
                Some(Refusal::NoMatch(token))
            },
            Token::Unknown => Some(Refusal::Unknown(token)),
        }
    }
}

/// The first refusal of an exclude list.
pub open spec fn exclude_refusal(fields: Seq<Field>, tokens: Seq<Seq<char>>) -> Option<Refusal>
    decreases tokens.len(),
{
    if tokens.len() == 0 {
        None
    } else {
        match exclude_refusal(fields, tokens.drop_last()) {
            Some(why) => Some(why),
            None => exclude_token_refusal(fields, tokens.drop_last(), tokens.last()),
        }
    }
}

/// True when `token` drops the whole column `name`.
pub open spec fn drops(token: Seq<char>, cols: Seq<Seq<char>>, name: Seq<char>) -> bool {
    match token_kind(token, cols) {
        Token::TopLevel => token == name,
        Token::Glob => glob(token, name),
        _ => false,
    }
}

/// True when some token drops the whole column `name`.
pub open spec fn dropped(tokens: Seq<Seq<char>>, cols: Seq<Seq<char>>, name: Seq<char>) -> bool {
    exists|i: int| 0 <= i < tokens.len() && drops(#[trigger] tokens[i], cols, name)
}

/// True when `token` is a path into the column `name`.
pub open spec fn touches(token: Seq<char>, cols: Seq<Seq<char>>, name: Seq<char>) -> bool {
    token_kind(token, cols) == Token::Path && head(token) == name
}

/// True when some token is a path into the column `name`.
pub open spec fn touched(tokens: Seq<Seq<char>>, cols: Seq<Seq<char>>, name: Seq<char>) -> bool {
    exists|i: int| 0 <= i < tokens.len() && touches(#[trigger] tokens[i], cols, name)
}

/// True when `path` is `prefix` followed by a dot and more.
pub open spec fn under(prefix: Seq<char>, path: Seq<char>) -> bool {
    prefix.len() < path.len() && path[prefix.len() as int] == '.' && path.take(prefix.len() as int)
        == prefix
}

/// True when a path into the column `name` takes `leaf` out, itself or with a
/// subtree around it.
pub open spec fn pruned(
    tokens: Seq<Seq<char>>,
    cols: Seq<Seq<char>>,
    name: Seq<char>,
    leaf: Seq<char>,
) -> bool {
    exists|i: int|
        0 <= i < tokens.len() && touches(#[trigger] tokens[i], cols, name) && (leaf == tokens[i]
            || under(tokens[i], leaf))
}

/// The dotted leaf paths of `field` under `prefix`: a field that is no struct is its
/// own single leaf; a struct expands into its children.
pub open spec fn leaves(prefix: Seq<char>, field: Field) -> Seq<Seq<char>>
    decreases field, 0nat,
{
    match field.data_type.kind {
        Kind::Struct(children) => leaves_of(prefix, children@, children@.len()),
        _ => seq![prefix],
    }
}

/// The leaf paths of the first `n` children, each under `prefix`.
pub open spec fn leaves_of(prefix: Seq<char>, children: Seq<Field>, n: nat) -> Seq<Seq<char>>
    decreases children, n,
{
    if n == 0 || n > children.len() {
        Seq::empty()
    } else {
        leaves_of(prefix, children, (n - 1) as nat) + leaves(
            prefix + "."@ + children[n - 1].name@,
            children[n - 1],
        )
    }
}

/// What is left of one column.
pub open spec fn remains(tokens: Seq<Seq<char>>, cols: Seq<Seq<char>>, field: Field) -> Seq<
    Seq<char>,
> {
    if dropped(tokens, cols, field.name@) {
        Seq::empty()
    } else if !touched(tokens, cols, field.name@) {
        seq![field.name@]
    } else {
        leaves(field.name@, field).filter(
            |leaf: Seq<char>| !pruned(tokens, cols, field.name@, leaf),
        )
    }
}

/// What is left of the first columns, in schema order.
pub open spec fn remaining(tokens: Seq<Seq<char>>, cols: Seq<Seq<char>>, fields: Seq<Field>) -> Seq<
    Seq<char>,
>
    decreases fields.len(),
{
    if fields.len() == 0 {
        Seq::empty()
    } else {
        remaining(tokens, cols, fields.drop_last()) + remains(tokens, cols, fields.last())
    }
}

/// True when `prefix` is a strict path-prefix of `path`.
pub fn is_prefix_path(prefix: &[char], path: &[char]) -> (r: bool)
    ensures
        r == under(prefix@, path@),
{
    if prefix.len() >= path.len() || path[prefix.len()] != '.' {
        return false;
    }
    let start = vstd::slice::slice_subrange(path, 0, prefix.len());
    proof {
        assert(start@ =~= path@.take(prefix@.len() as int));
    }
    same_chars(start, prefix)
}

/// The dotted leaf paths of `field` under `prefix`.
pub fn leaf_paths(prefix: &str, field: &Field) -> (r: Vec<String>)
    ensures
        texts(r@) == leaves(prefix@, *field),
    decreases *field, 0nat,
{
    match &field.data_type.kind {
        Kind::Struct(children) => child_leaf_paths(prefix, children, children.len()),
        _ => {
            let mut out: Vec<String> = Vec::new();
            out.push(prefix.to_owned());
            proof {
                assert(texts(out@) =~= seq![prefix@]);
            }
            out
        },
    }
}

fn child_leaf_paths(prefix: &str, children: &Vec<Field>, n: usize) -> (r: Vec<String>)
    requires
        n <= children@.len(),
    ensures
        texts(r@) == leaves_of(prefix@, children@, n as nat),
    decreases children@, n as nat,
{
    if n == 0 {
        let out: Vec<String> = Vec::new();
        proof {
            assert(texts(out@) =~= Seq::<Seq<char>>::empty());
        }
        return out;
    }
    let mut out = child_leaf_paths(prefix, children, n - 1);
    let child = &children[n - 1];
    let mut below = prefix.to_owned();
    below.append(".");
    below.append(child.name.as_str());
    let ghost before = out@;
    let mut more = leaf_paths(below.as_str(), child);
    let ghost added = more@;
    out.append(&mut more);
    proof {
        assert(texts(out@) =~= texts(before) + texts(added));
    }
    out
}

proof fn lemma_first_exclude_refusal(fields: Seq<Field>, tokens: Seq<Seq<char>>, k: int)
    requires
        0 <= k <= tokens.len(),
        exclude_refusal(fields, tokens.take(k)) is Some,
    ensures
        exclude_refusal(fields, tokens) == exclude_refusal(fields, tokens.take(k)),
    decreases tokens.len(),
{
    if k < tokens.len() {
        assert(tokens.drop_last().take(k) =~= tokens.take(k));
        lemma_first_exclude_refusal(fields, tokens.drop_last(), k);
    } else {
        assert(tokens.take(k) =~= tokens);
    }
}

/// True when some column matches `pattern`.
fn matches_any(pattern: &str, cols: &Vec<String>) -> (r: bool)
    ensures
        r == any_match(pattern@, texts(cols@)),
{
    let mut i: usize = 0;
    while i < cols.len()
        invariant
            i <= cols@.len(),
            forall|j: int| 0 <= j < i ==> !glob(pattern@, #[trigger] texts(cols@)[j]),
        decreases cols@.len() - i,
    {
        if wildcard_match(pattern, cols[i].as_str()) {
            proof {
                assert(glob(pattern@, texts(cols@)[i as int]));
            }
            return true;
        }
        proof {
            assert(texts(cols@)[i as int] == cols@[i as int]@);
        }
        i += 1;
    }
    false
}

/// Validate every token of an exclude list.
fn check_exclude(schema: &Schema, excl: &[String], all: &Vec<String>) -> (r: Result<(), Error>)
    requires
        texts(all@) == names(schema.fields@),
    ensures
        match exclude_refusal(schema.fields@, texts(excl@)) {
            None => r is Ok,
            Some(why) => r matches Err(e) && reports(e, why, schema.fields@),
        },
{
    let ghost tokens = texts(excl@);
    let ghost fields = schema.fields@;
    let mut i: usize = 0;
    proof {
        assert(tokens.take(0) =~= Seq::<Seq<char>>::empty());
    }
    while i < excl.len()
        invariant
            i <= excl@.len(),
            tokens == texts(excl@),
            fields == schema.fields@,
            texts(all@) == names(fields),
            exclude_refusal(fields, tokens.take(i as int)) is None,
        decreases excl@.len() - i,
    {
        let token = excl[i].as_str();
        proof {
            assert(tokens.take(i + 1).drop_last() =~= tokens.take(i as int));
            assert(tokens.take(i + 1).last() == token@);
            if exclude_token_refusal(fields, tokens.take(i as int), token@) is Some {
                lemma_first_exclude_refusal(fields, tokens, i + 1);
            }
        }
        let earlier = vstd::slice::slice_subrange(excl, 0, i);
        proof {
            assert(texts(earlier@) =~= tokens.take(i as int));
        }
        if has_text(earlier, token) {
            return Err(Error::DuplicateColumn(token.to_owned()));
        }
        match classify(token, all.as_slice()) {
            Token::TopLevel => {},
            Token::Path => {
                match validate_path(schema, token) {
                    Ok(()) => {},
                    Err(e) => return Err(e),
                }
            },
            Token::Glob => {
                if !matches_any(token, all) {
                    return Err(
                        Error::NoGlobMatch {
                            pattern: token.to_owned(),
                            available: available_names(schema.fields.as_slice()),
                        },
                    );
                }
            },
            Token::Unknown => {
                return Err(
                    Error::UnknownColumn {
                        name: token.to_owned(),
                        available: available_names(schema.fields.as_slice()),
                    },
                );
            },
        }
        i += 1;
    }
    proof {
        assert(tokens.take(excl@.len() as int) =~= tokens);
    }
    Ok(())
}

/// True when some token drops the whole column `name`.
fn is_dropped(excl: &[String], all: &Vec<String>, name: &str) -> (r: bool)
    ensures
        r == dropped(texts(excl@), texts(all@), name@),
{
    let ghost tokens = texts(excl@);
    let mut i: usize = 0;
    while i < excl.len()
        invariant
            i <= excl@.len(),
            tokens == texts(excl@),
            forall|j: int| 0 <= j < i ==> !drops(#[trigger] tokens[j], texts(all@), name@),
        decreases excl@.len() - i,
    {
        let token = excl[i].as_str();
        proof {
            assert(tokens[i as int] == token@);
        }
        let hit = match classify(token, all.as_slice()) {
            Token::TopLevel => same_text(token, name),
            Token::Glob => wildcard_match(token, name),
            _ => false,
        };
        if hit {
            proof {
                assert(drops(tokens[i as int], texts(all@), name@));
            }
            return true;
        }
        i += 1;
    }
    false
}

/// The paths among the tokens that lead into the column `name`.
fn paths_into(excl: &[String], all: &Vec<String>, name: &str) -> (r: Vec<Vec<char>>)
    ensures
        r@.len() > 0 <==> touched(texts(excl@), texts(all@), name@),
        forall|j: int|
            0 <= j < r@.len() ==> texts(excl@).contains((#[trigger] r@[j])@) && touches(
                r@[j]@,
                texts(all@),
                name@,
            ),
        forall|k: int|
            0 <= k < excl@.len() && touches(#[trigger] texts(excl@)[k], texts(all@), name@)
                ==> views(r@).contains(texts(excl@)[k]),
{
    let ghost tokens = texts(excl@);
    let column = chars_of(name);
    let mut out: Vec<Vec<char>> = Vec::new();
    let mut i: usize = 0;
    while i < excl.len()
        invariant
            i <= excl@.len(),
            tokens == texts(excl@),
            column@ == name@,
            forall|j: int|
                0 <= j < out@.len() ==> tokens.contains((#[trigger] out@[j])@) && touches(
                    out@[j]@,
                    texts(all@),
                    name@,
                ),
            forall|k: int|
                0 <= k < i && touches(#[trigger] tokens[k], texts(all@), name@) ==> views(
                    out@,
                ).contains(tokens[k]),
        decreases excl@.len() - i,
    {
        let token = excl[i].as_str();
        proof {
            assert(tokens[i as int] == token@);
        }
        let kind = classify(token, all.as_slice());
        if kind == Token::Path {
            let chars = chars_of(token);
            let dot = find_char(chars.as_slice(), '.');
            let start = vstd::slice::slice_subrange(chars.as_slice(), 0, dot);
            proof {
                assert(start@ =~= head(token@));
            }
            if same_chars(start, column.as_slice()) {
                let ghost before = out@;
                out.push(chars);
                proof {
                    assert(views(out@) =~= views(before).push(token@));
                    assert(views(out@)[before.len() as int] == token@);
                    assert forall|k: int|
                        0 <= k < i + 1 && touches(
                            #[trigger] tokens[k],
                            texts(all@),
                            name@,
                        ) implies views(out@).contains(tokens[k]) by {
                        if k < i {
                            let m = choose|m: int|
                                0 <= m < views(before).len() && views(before)[m] == tokens[k];
                            assert(views(out@)[m] == tokens[k]);
                        }
                    }
                    assert forall|j: int| 0 <= j < out@.len() implies tokens.contains(
                        (#[trigger] out@[j])@,
                    ) && touches(out@[j]@, texts(all@), name@) by {
                        if j < before.len() {
                            assert(out@[j] == before[j]);
                        } else {
                            assert(out@[j]@ == token@);
                            assert(tokens[i as int] == token@);
                        }
                    }
                }
            }
        }
        i += 1;
    }
    proof {
        if out@.len() > 0 {
            let t = out@[0]@;
            assert(tokens.contains(t));
            let k = choose|k: int| 0 <= k < tokens.len() && tokens[k] == t;
            assert(touches(tokens[k], texts(all@), name@));
        }
        if touched(tokens, texts(all@), name@) {
            let k = choose|k: int|
                0 <= k < tokens.len() && touches(#[trigger] tokens[k], texts(all@), name@);
            assert(views(out@).contains(tokens[k]));
        }
    }
    out
}

/// True when one of the paths takes `leaf` out.
fn is_pruned(paths: &Vec<Vec<char>>, leaf: &[char]) -> (r: bool)
    ensures
        r == exists|j: int|
            0 <= j < paths@.len() && (leaf@ == (#[trigger] paths@[j])@ || under(
                paths@[j]@,
                leaf@,
            )),
{
    let mut j: usize = 0;
    while j < paths.len()
        invariant
            j <= paths@.len(),
            forall|k: int|
                0 <= k < j ==> leaf@ != (#[trigger] paths@[k])@ && !under(paths@[k]@, leaf@),
        decreases paths@.len() - j,
    {
        if same_chars(leaf, paths[j].as_slice()) || is_prefix_path(paths[j].as_slice(), leaf) {
            return true;
        }
        j += 1;
    }
    false
}

/// Keep the leaves that no path takes out.
fn keep_leaves(
    found: &Vec<String>,
    paths: &Vec<Vec<char>>,
    Ghost(gone): Ghost<spec_fn(Seq<char>) -> bool>,
) -> (out: Vec<String>)
    requires
        forall|leaf: Seq<char>| #[trigger]
            gone(leaf) == exists|j: int|
                0 <= j < paths@.len() && (leaf == (#[trigger] paths@[j])@ || under(
                    paths@[j]@,
                    leaf,
                )),
    ensures
        texts(out@) == texts(found@).filter(|leaf: Seq<char>| !gone(leaf)),
{
    let ghost keep = |leaf: Seq<char>| !gone(leaf);
    let mut out: Vec<String> = Vec::new();
    let mut i: usize = 0;
    while i < found.len()
        invariant
            i <= found@.len(),
            keep == (|leaf: Seq<char>| !gone(leaf)),
            forall|leaf: Seq<char>| #[trigger]
                gone(leaf) == exists|j: int|
                    0 <= j < paths@.len() && (leaf == (#[trigger] paths@[j])@ || under(
                        paths@[j]@,
                        leaf,
                    )),
            texts(out@) == texts(found@).take(i as int).filter(keep),
        decreases found@.len() - i,
    {
        let ghost before = out@;
        let leaf = chars_of(found[i].as_str());
        proof {
            reveal_with_fuel(Seq::filter, 2);
            let next = texts(found@).take(i + 1);
            assert(next.drop_last() =~= texts(found@).take(i as int));
            assert(next.last() == found@[i as int]@);
            assert(keep(leaf@) == !gone(leaf@));
        }
        if !is_pruned(paths, leaf.as_slice()) {
            out.push(found[i].clone());
            proof {
                assert(texts(out@) =~= texts(before).push(found@[i as int]@));
            }
        }
        i += 1;
    }
    proof {
        assert(texts(found@).take(found@.len() as int) =~= texts(found@));
    }
    out
}

fn remains_of(excl: &[String], all: &Vec<String>, field: &Field) -> (r: Vec<String>)
    ensures
        texts(r@) == remains(texts(excl@), texts(all@), *field),
{
    let ghost tokens = texts(excl@);
    let ghost cols = texts(all@);
    let name = field.name.as_str();
    let mut out: Vec<String> = Vec::new();
    proof {
        assert(texts(out@) =~= Seq::<Seq<char>>::empty());
    }
    if is_dropped(excl, all, name) {
        return out;
    }
    let paths = paths_into(excl, all, name);
    if paths.len() == 0 {
        out.push(field.name.clone());
        proof {
            assert(texts(out@) =~= seq![name@]);
        }
        return out;
    }
    let found = leaf_paths(name, field);
    let ghost gone = |leaf: Seq<char>| pruned(tokens, cols, name@, leaf);
    proof {
        assert forall|leaf: Seq<char>| #[trigger] gone(leaf) == exists|j: int|
            0 <= j < paths@.len() && (leaf == (#[trigger] paths@[j])@ || under(
                paths@[j]@,
                leaf,
            )) by {
            if gone(leaf) {
                let i = choose|i: int|
                    0 <= i < tokens.len() && touches(#[trigger] tokens[i], cols, name@) && (leaf
                        == tokens[i] || under(tokens[i], leaf));
                assert(views(paths@).contains(tokens[i]));
                let j = choose|j: int| 0 <= j < views(paths@).len() && views(paths@)[j] == tokens[i];
                assert(paths@[j]@ == tokens[i]);
            }
            if exists|j: int|
                0 <= j < paths@.len() && (leaf == (#[trigger] paths@[j])@ || under(
                    paths@[j]@,
                    leaf,
                )) {
                let j = choose|j: int|
                    0 <= j < paths@.len() && (leaf == (#[trigger] paths@[j])@ || under(
                        paths@[j]@,
                        leaf,
                    ));
                assert(tokens.contains(paths@[j]@));
                let i = choose|i: int| 0 <= i < tokens.len() && tokens[i] == paths@[j]@;
                assert(touches(tokens[i], cols, name@));
            }
        }
    }
    let kept = keep_leaves(&found, &paths, Ghost(gone));
    proof {
        let a = |leaf: Seq<char>| !gone(leaf);
        let b = |leaf: Seq<char>| !pruned(tokens, cols, field.name@, leaf);
        assert(a =~= b);
    }
    kept
}

fn resolve_exclude(schema: &Schema, excl: &[String]) -> (r: Result<Vec<String>, Error>)
    ensures
        match exclude_refusal(schema.fields@, texts(excl@)) {
            None => r matches Ok(out) && texts(out@) == remaining(
                texts(excl@),
                names(schema.fields@),
                schema.fields@,
            ),
            Some(why) => r matches Err(e) && reports(e, why, schema.fields@),
        },
{
    let all = field_names(schema.fields.as_slice());
    match check_exclude(schema, excl, &all) {
        Ok(()) => {},
        Err(e) => return Err(e),
    }
    let ghost tokens = texts(excl@);
    let ghost fields = schema.fields@;
    let mut out: Vec<String> = Vec::new();
    let mut i: usize = 0;
    proof {
        assert(fields.take(0) =~= Seq::<Field>::empty());
        assert(texts(out@) =~= Seq::<Seq<char>>::empty());
    }
    while i < schema.fields.len()
        invariant
            i <= fields.len(),
            tokens == texts(excl@),
            fields == schema.fields@,
            texts(all@) == names(fields),
            texts(out@) == remaining(tokens, names(fields), fields.take(i as int)),
        decreases fields.len() - i,
    {
        proof {
            assert(fields.take(i + 1).drop_last() =~= fields.take(i as int));
        }
        let ghost before = out@;
        let mut more = remains_of(excl, &all, &schema.fields[i]);
        let ghost added = more@;
        out.append(&mut more);
        proof {
            assert(texts(out@) =~= texts(before) + texts(added));
        }
        i += 1;
    }
    proof {
        assert(fields.take(fields.len() as int) =~= fields);
    }
    Ok(out)
}

// ---------- resolve ----------

/// Resolve the requested projection against `schema`. `None` when neither flag was
/// provided (all columns, no filtering).
///
/// `exclude` takes precedence over `columns`: with both set, the latter is ignored. The
/// entries are either top-level column names or dotted nested paths.
pub fn resolve(
    schema: &Schema,
    columns: Option<&[String]>,
    exclude: Option<&[String]>,
) -> (r: Result<Option<Vec<String>>, Error>)
    ensures
        match (exclude, columns) {
            (None, None) => r matches Ok(None),
            (Some(excl), _) => match exclude_refusal(schema.fields@, texts(excl@)) {
                None => r matches Ok(Some(out)) && texts(out@) == remaining(
                    texts(excl@),
                    names(schema.fields@),
                    schema.fields@,
                ),
                Some(why) => r matches Err(e) && reports(e, why, schema.fields@),
            },
            (None, Some(incl)) => match included(schema.fields@, texts(incl@)) {
                Ok(entries) => r matches Ok(Some(out)) && texts(out@) == entry_names(entries)
                    && distinct(entries),
                Err(why) => r matches Err(e) && reports(e, why, schema.fields@),
            },
        },
{
    match (exclude, columns) {
        (None, None) => Ok(None),
        (Some(excl), _) => match resolve_exclude(schema, excl) {
            Ok(out) => Ok(Some(out)),
            Err(e) => Err(e),
        },
        (None, Some(incl)) => match resolve_include(schema, incl) {
            Ok(out) => Ok(Some(out)),
            Err(e) => Err(e),
        },
    }
}

// ---------- output fields ----------

/// True when every segment names a field of its parent and every one but the last
/// is a struct.
pub open spec fn path_ok(fields: Seq<Field>, segs: Seq<Seq<char>>) -> bool
    decreases segs.len(),
{
    segs.len() > 0 && position(fields, segs[0]) < fields.len() && (segs.len() == 1 || match fields[
    position(fields, segs[0]) as int].data_type.kind {
        Kind::Struct(children) => path_ok(children@, segs.drop_first()),
        _ => false,
    })
}

proof fn lemma_path_ok(
    fields: Seq<Field>,
    segs: Seq<Seq<char>>,
    parent: Seq<char>,
    path: Seq<char>,
)
    requires
        segs.len() > 0,
    ensures
        path_ok(fields, segs) <==> path_refusal(fields, segs, parent, path) is None,
    decreases segs.len(),
{
    let at = position(fields, segs[0]);
    if at < fields.len() && segs.len() > 1 {
        match fields[at as int].data_type.kind {
            Kind::Struct(children) => {
                lemma_path_ok(
                    children@,
                    segs.drop_first(),
                    if parent.len() == 0 {
                        segs[0]
                    } else {
                        parent + "."@ + segs[0]
                    },
                    path,
                );
            },
            _ => {},
        }
    }
}

/// True of an entry that `schema` can project: a top-level column, or a path that
/// leads to a field.
pub open spec fn valid_entry(fields: Seq<Field>, entry: Seq<char>) -> bool {
    names(fields).contains(entry) || path_ok(fields, split(entry, '.'))
}

/// The field at the end of a path.
pub open spec fn leaf_field(fields: Seq<Field>, segs: Seq<Seq<char>>) -> Field
    decreases segs.len(),
{
    let field = fields[position(fields, segs[0]) as int];
    if segs.len() <= 1 {
        field
    } else {
        match field.data_type.kind {
            Kind::Struct(children) => leaf_field(children@, segs.drop_first()),
            _ => field,
        }
    }
}

/// True when the field at the end of a path, or a struct on the way, is nullable.
pub open spec fn path_nullable(fields: Seq<Field>, segs: Seq<Seq<char>>) -> bool
    decreases segs.len(),
{
    let field = fields[position(fields, segs[0]) as int];
    field.nullable || (segs.len() > 1 && match field.data_type.kind {
        Kind::Struct(children) => path_nullable(children@, segs.drop_first()),
        _ => false,
    })
}

/// True when `field` is the output field of the projection entry `entry`.
pub open spec fn is_projected(field: Field, fields: Seq<Field>, entry: Seq<char>) -> bool {
    if names(fields).contains(entry) {
        field == fields[position(fields, entry) as int]
    } else {
        let segs = split(entry, '.');
        &&& field.name@ == entry
        &&& field.data_type == leaf_field(fields, segs).data_type
        &&& field.nullable == path_nullable(fields, segs)
        &&& field.metadata@.len() == 0
    }
}

fn leaf_at(fields: &[Field], segs: &Vec<Vec<char>>, from: usize) -> (r: (DataType, bool))
    requires
        from < segs@.len(),
        path_ok(fields@, views(segs@).skip(from as int)),
    ensures
        r.0 == leaf_field(fields@, views(segs@).skip(from as int)).data_type,
        r.1 == path_nullable(fields@, views(segs@).skip(from as int)),
    decreases segs@.len() - from,
{
    let ghost rest = views(segs@).skip(from as int);
    let seg = text_of(segs[from].as_slice());
    proof {
        assert(rest[0] == seg@);
        assert(rest.drop_first() =~= views(segs@).skip(from + 1));
        lemma_position(fields@, seg@);
    }
    match find_field(fields, seg.as_str()) {
        Some(at) => {
            let field = &fields[at];
            let last: usize = segs.len() - 1;
            if from == last {
                return (field.data_type.clone(), field.nullable);
            }
            match &field.data_type.kind {
                Kind::Struct(children) => {
                    let (data_type, nullable) = leaf_at(children.as_slice(), segs, from + 1);
                    (data_type, field.nullable || nullable)
                },
                _ => (field.data_type.clone(), field.nullable),
            }
        },
        None => {
            proof {
                assert(false);
            }
            (DataType::utf8(), false)
        },
    }
}

/// Where the fields of a path stand, each among the fields of its parent.
pub open spec fn positions(fields: Seq<Field>, segs: Seq<Seq<char>>) -> Seq<nat>
    decreases segs.len(),
{
    if segs.len() == 0 {
        Seq::empty()
    } else {
        let at = position(fields, segs[0]);
        seq![at] + match fields[at as int].data_type.kind {
            Kind::Struct(children) => positions(children@, segs.drop_first()),
            _ => Seq::empty(),
        }
    }
}

/// Where the field of an entry stands: the place of a top-level column, or the places
/// along a path.
pub open spec fn entry_path(fields: Seq<Field>, entry: Seq<char>) -> Seq<nat> {
    if names(fields).contains(entry) {
        seq![position(fields, entry)]
    } else {
        positions(fields, split(entry, '.'))
    }
}

/// The numbers of a list of places.
pub open spec fn places(v: Seq<usize>) -> Seq<nat> {
    v.map_values(|i: usize| i as nat)
}

/// Where the field of an entry stands.
pub fn entry_positions(schema: &Schema, entry: &str) -> (r: Vec<usize>)
    requires
        valid_entry(schema.fields@, entry@),
    ensures
        places(r@) == entry_path(schema.fields@, entry@),
{
    let mut out: Vec<usize> = Vec::new();
    if let Some(at) = find_field(schema.fields.as_slice(), entry) {
        out.push(at);
        proof {
            assert(places(out@) =~= entry_path(schema.fields@, entry@));
        }
        return out;
    }
    let chars = chars_of(entry);
    let segs = split_chars(chars.as_slice(), '.');
    let ghost all = views(segs@);
    let ghost goal = positions(schema.fields@, all);
    let end: usize = segs.len();
    let mut fields: &Vec<Field> = &schema.fields;
    let mut i: usize = 0;
    let mut going = true;
    proof {
        lemma_split_nonempty(entry@, '.');
        assert(all.len() == segs@.len());
        assert(all.skip(0) =~= all);
        assert(places(out@) + positions(fields@, all.skip(0)) =~= goal);
    }
    while going
        invariant
            all == views(segs@),
            all.len() == segs@.len(),
            end == segs@.len(),
            i <= end,
            going ==> i < end && path_ok(fields@, all.skip(i as int)) && places(out@)
                + positions(fields@, all.skip(i as int)) == goal,
            !going ==> places(out@) == goal,
        decreases end - i + if going {
            1int
        } else {
            0int
        },
    {
        let ghost rest = all.skip(i as int);
        let seg = text_of(segs[i].as_slice());
        proof {
            assert(rest[0] == seg@);
            assert(rest.drop_first() =~= all.skip(i + 1));
            lemma_position(fields@, seg@);
        }
        match find_field(fields.as_slice(), seg.as_str()) {
            Some(at) => {
                let ghost before = out@;
                out.push(at);
                proof {
                    assert(places(out@) =~= places(before) + seq![at as nat]);
                }
                let field = &fields[at];
                i += 1;
                match &field.data_type.kind {
                    Kind::Struct(children) => {
                        proof {
                            assert(places(out@) + positions(children@, all.skip(i as int))
                                =~= places(before) + positions(fields@, rest));
                        }
                        if i < end {
                            fields = children;
                        } else {
                            proof {
                                assert(positions(children@, all.skip(i as int)) =~= Seq::<
                                    nat,
                                >::empty());
                                assert(places(out@) =~= goal);
                            }
                            going = false;
                        }
                    },
                    _ => {
                        proof {
                            assert(places(out@) =~= places(before) + positions(fields@, rest));
                        }
                        going = false;
                    },
                }
            },
            None => {
                proof {
                    assert(false);
                }
                going = false;
            },
        }
    }
    out
}

/// True when `schema` can project `entry`.
pub fn is_entry(schema: &Schema, entry: &str) -> (r: bool)
    ensures
        r == valid_entry(schema.fields@, entry@),
{
    proof {
        lemma_split_nonempty(entry@, '.');
        lemma_path_ok(schema.fields@, split(entry@, '.'), Seq::empty(), entry@);
    }
    find_field(schema.fields.as_slice(), entry).is_some() || validate_path(schema, entry).is_ok()
}

/// Build the flat output field of one resolved projection entry.
///
/// `entry` is either an exact top-level column name (returned as it is, even if it
/// contains `.`) or a dotted path, in which case the leaf's type is used with the
/// full dotted name. A nested leaf is nullable when the leaf or any ancestor
/// struct is.
pub fn projected_field(schema: &Schema, entry: &str) -> (r: Field)
    requires
        valid_entry(schema.fields@, entry@),
    ensures
        is_projected(r, schema.fields@, entry@),
{
    match find_field(schema.fields.as_slice(), entry) {
        Some(at) => schema.fields[at].clone(),
        None => {
            let chars = chars_of(entry);
            let segs = split_chars(chars.as_slice(), '.');
            proof {
                lemma_split_nonempty(entry@, '.');
                assert(views(segs@).len() == segs@.len());
                assert(views(segs@).skip(0) =~= views(segs@));
            }
            let (data_type, nullable) = leaf_at(schema.fields.as_slice(), &segs, 0);
            Field::new(entry, data_type, nullable)
        },
    }
}

// ---------- laws ----------

proof fn lemma_add_matches(
    entries: Seq<Entry>,
    pattern: Seq<char>,
    cols: Seq<Seq<char>>,
    name: Seq<char>,
)
    ensures
        listed(add_matches(entries, pattern, cols), name) <==> listed(entries, name) || (
        cols.contains(name) && glob(pattern, name)),
        listed_explicitly(add_matches(entries, pattern, cols), name) <==> listed_explicitly(
            entries,
            name,
        ),
    decreases cols.len(),
{
    if cols.len() > 0 {
        let front = cols.drop_last();
        let last = cols.last();
        lemma_add_matches(entries, pattern, front, name);
        let before = add_matches(entries, pattern, front);
        let after = add_matches(entries, pattern, cols);
        assert(cols =~= front.push(last));
        assert(cols.contains(name) <==> front.contains(name) || name == last) by {
            if front.contains(name) {
                let i = choose|i: int| 0 <= i < front.len() && front[i] == name;
                assert(cols[i] == name);
            }
            if name == last {
                assert(cols[cols.len() - 1] == name);
            }
        }
        if glob(pattern, last) && !listed(before, last) {
            assert(after == before.push(Entry { name: last, from_glob: true }));
            if listed(before, name) {
                let i = choose|i: int| 0 <= i < before.len() && (#[trigger] before[i]).name == name;
                assert(after[i].name == name);
            }
            if name == last {
                assert(after[before.len() as int].name == name);
            }
            if listed(after, name) {
                let i = choose|i: int| 0 <= i < after.len() && (#[trigger] after[i]).name == name;
                if i < before.len() {
                    assert(before[i].name == name);
                }
            }
            if listed_explicitly(before, name) {
                let i = choose|i: int|
                    0 <= i < before.len() && (#[trigger] before[i]).name == name
                        && !before[i].from_glob;
                assert(after[i].name == name && !after[i].from_glob);
            }
            if listed_explicitly(after, name) {
                let i = choose|i: int|
                    0 <= i < after.len() && (#[trigger] after[i]).name == name
                        && !after[i].from_glob;
                assert(i < before.len());
                assert(before[i].name == name && !before[i].from_glob);
            }
        }
    }
}

/// Every entry of a resolved include list can be projected.
pub proof fn law_included_entries_are_valid(
    fields: Seq<Field>,
    tokens: Seq<Seq<char>>,
    name: Seq<char>,
)
    ensures
        included(fields, tokens) matches Ok(entries) && listed(entries, name) ==> valid_entry(
            fields,
            name,
        ),
    decreases tokens.len(),
{
    if tokens.len() > 0 && included(fields, tokens) is Ok {
        let token = tokens.last();
        law_included_entries_are_valid(fields, tokens.drop_last(), name);
        let before = included(fields, tokens.drop_last())->Ok_0;
        let after = included(fields, tokens)->Ok_0;
        if listed(after, name) && !listed(before, name) {
            match token_kind(token, names(fields)) {
                Token::Glob => {
                    lemma_add_matches(before, token, names(fields), name);
                },
                _ => {
                    let i = choose|i: int| 0 <= i < after.len() && (#[trigger] after[i]).name == name;
                    if i < before.len() {
                        assert(before[i].name == name);
                    }
                    assert(name == token);
                    lemma_split_nonempty(token, '.');
                    lemma_path_ok(fields, split(token, '.'), Seq::empty(), token);
                },
            }
        }
    }
}

/// A column that a pattern matches may be named beside the pattern, before it or
/// behind it: neither order is refused, and both select the same columns.
pub proof fn law_glob_overlap_is_order_insensitive(
    fields: Seq<Field>,
    pattern: Seq<char>,
    column: Seq<char>,
    name: Seq<char>,
)
    requires
        token_kind(pattern, names(fields)) == Token::Glob,
        names(fields).contains(column),
        glob(pattern, column),
    ensures
        included(fields, seq![pattern, column]) is Ok,
        included(fields, seq![column, pattern]) is Ok,
        listed(included(fields, seq![pattern, column])->Ok_0, name) <==> listed(
            included(fields, seq![column, pattern])->Ok_0,
            name,
        ),
{
    reveal_with_fuel(included, 3);
    let cols = names(fields);
    let k = choose|k: int| 0 <= k < cols.len() && cols[k] == column;
    assert(glob(pattern, cols[k]));
    assert(any_match(pattern, cols));
    let none = Seq::<Entry>::empty();
    let a = seq![pattern, column];
    let b = seq![column, pattern];
    assert(a.drop_last() =~= seq![pattern]);
    assert(b.drop_last() =~= seq![column]);
    assert(seq![pattern].drop_last() =~= Seq::<Seq<char>>::empty());
    assert(seq![column].drop_last() =~= Seq::<Seq<char>>::empty());
    lemma_add_matches(none, pattern, cols, column);
    lemma_add_matches(none, pattern, cols, name);
    assert(!listed_explicitly(none, column));
    assert(included(fields, seq![pattern]) == Ok::<Seq<Entry>, Refusal>(
        add_matches(none, pattern, cols),
    ));
    let one = none.push(Entry { name: column, from_glob: false });
    assert(!listed(none, column));
    assert(included(fields, seq![column]) == Ok::<Seq<Entry>, Refusal>(one));
    lemma_add_matches(one, pattern, cols, name);
    assert(listed(one, name) <==> name == column) by {
        if name == column {
            assert(one[0].name == name);
        }
    }
    assert(listed(none, name) == false);
}

/// A token that is a column's name selects that column, whatever characters it holds.
pub proof fn law_exact_name_wins(fields: Seq<Field>, name: Seq<char>)
    requires
        names(fields).contains(name),
    ensures
        included(fields, seq![name]) == Ok::<Seq<Entry>, Refusal>(
            seq![Entry { name, from_glob: false }],
        ),
{
    reveal_with_fuel(included, 2);
    assert(seq![name].drop_last() =~= Seq::<Seq<char>>::empty());
    assert(Seq::<Entry>::empty().push(Entry { name, from_glob: false }) =~= seq![
        Entry { name, from_glob: false },
    ]);
}

/// Naming a column that is already named is refused.
pub proof fn law_naming_twice_is_refused(
    fields: Seq<Field>,
    tokens: Seq<Seq<char>>,
    name: Seq<char>,
)
    requires
        names(fields).contains(name),
        included(fields, tokens) is Ok,
        listed_explicitly(included(fields, tokens)->Ok_0, name),
    ensures
        included(fields, tokens.push(name)) == Err::<Seq<Entry>, Refusal>(Refusal::Duplicate(name)),
{
    assert(tokens.push(name).drop_last() =~= tokens);
}

/// The columns that a pattern matches come in schema order.
pub proof fn law_pattern_keeps_schema_order(fields: Seq<Field>, pattern: Seq<char>)
    requires
        token_kind(pattern, names(fields)) == Token::Glob,
        any_match(pattern, names(fields)),
        names(fields).no_duplicates(),
    ensures
        included(fields, seq![pattern]) matches Ok(entries) && entry_names(entries) == names(
            fields,
        ).filter(|c: Seq<char>| glob(pattern, c)),
{
    reveal_with_fuel(included, 2);
    assert(seq![pattern].drop_last() =~= Seq::<Seq<char>>::empty());
    lemma_matches_in_order(pattern, names(fields));
}

proof fn lemma_matches_in_order(pattern: Seq<char>, cols: Seq<Seq<char>>)
    requires
        cols.no_duplicates(),
    ensures
        entry_names(add_matches(Seq::empty(), pattern, cols)) == cols.filter(
            |c: Seq<char>| glob(pattern, c),
        ),
    decreases cols.len(),
{
    reveal(Seq::filter);
    let none = Seq::<Entry>::empty();
    if cols.len() == 0 {
        assert(entry_names(none) =~= Seq::<Seq<char>>::empty());
    } else {
        let front = cols.drop_last();
        lemma_matches_in_order(pattern, front);
        lemma_add_matches(none, pattern, front, cols.last());
        assert(!front.contains(cols.last()));
        let before = add_matches(none, pattern, front);
        assert(entry_names(before.push(Entry { name: cols.last(), from_glob: true }))
            =~= entry_names(before).push(cols.last()));
    }
}

/// A column that is excluded by name or by a pattern is not among what is left.
pub proof fn law_excluded_columns_are_gone(
    tokens: Seq<Seq<char>>,
    cols: Seq<Seq<char>>,
    fields: Seq<Field>,
    name: Seq<char>,
)
    requires
        dropped(tokens, cols, name),
        !name.contains('.'),
    ensures
        !remaining(tokens, cols, fields).contains(name),
    decreases fields.len(),
{
    if fields.len() > 0 && remaining(tokens, cols, fields).contains(name) {
        let front = remaining(tokens, cols, fields.drop_last());
        let last = fields.last();
        let rest = remains(tokens, cols, last);
        law_excluded_columns_are_gone(tokens, cols, fields.drop_last(), name);
        let k = choose|k: int| 0 <= k < (front + rest).len() && (front + rest)[k] == name;
        if k < front.len() {
            assert(front[k] == name);
        } else {
            assert(rest[k - front.len()] == name);
            let keep = |leaf: Seq<char>| !pruned(tokens, cols, last.name@, leaf);
            lemma_filter_contained(leaves(last.name@, last), keep, name);
            lemma_leaves_are_dotted(last.name@, last, name);
        }
    }
}

/// A leaf other than the column itself has a dotted path.
proof fn lemma_leaves_are_dotted(prefix: Seq<char>, field: Field, leaf: Seq<char>)
    ensures
        leaves(prefix, field).contains(leaf) ==> leaf == prefix || leaf.contains('.'),
    decreases field, 0nat,
{
    match field.data_type.kind {
        Kind::Struct(children) => lemma_child_leaves_are_dotted(
            prefix,
            children@,
            children@.len(),
            leaf,
        ),
        _ => {},
    }
}

proof fn lemma_child_leaves_are_dotted(
    prefix: Seq<char>,
    children: Seq<Field>,
    n: nat,
    leaf: Seq<char>,
)
    ensures
        leaves_of(prefix, children, n).contains(leaf) ==> leaf.contains('.'),
    decreases children, n,
{
    if 0 < n <= children.len() && leaves_of(prefix, children, n).contains(leaf) {
        let child = children[n - 1];
        let path = prefix + "."@ + child.name@;
        lemma_child_leaves_are_dotted(prefix, children, (n - 1) as nat, leaf);
        lemma_leaves_are_dotted(path, child, leaf);
        reveal_strlit(".");
        assert(path[prefix.len() as int] == '.');
        let front = leaves_of(prefix, children, (n - 1) as nat);
        let all = leaves_of(prefix, children, n);
        let k = choose|k: int| 0 <= k < all.len() && all[k] == leaf;
        if k < front.len() {
            assert(front[k] == leaf);
        } else {
            assert(leaves(path, child)[k - front.len()] == leaf);
        }
    }
}

/// The field at the end of a list of places.
pub open spec fn field_at(fields: Seq<Field>, path: Seq<nat>) -> Field
    decreases path.len(),
{
    let field = fields[path[0] as int];
    if path.len() <= 1 {
        field
    } else {
        match field.data_type.kind {
            Kind::Struct(children) => field_at(children@, path.drop_first()),
            _ => field,
        }
    }
}

/// The places of an entry lead to a field of the type that projecting it yields.
pub proof fn law_positions_lead_to_the_field(field: Field, fields: Seq<Field>, entry: Seq<char>)
    requires
        valid_entry(fields, entry),
        is_projected(field, fields, entry),
    ensures
        field_at(fields, entry_path(fields, entry)).data_type == field.data_type,
{
    if !names(fields).contains(entry) {
        lemma_split_nonempty(entry, '.');
        lemma_positions(fields, split(entry, '.'));
    }
}

proof fn lemma_positions(fields: Seq<Field>, segs: Seq<Seq<char>>)
    requires
        path_ok(fields, segs),
    ensures
        positions(fields, segs).len() == segs.len(),
        field_at(fields, positions(fields, segs)) == leaf_field(fields, segs),
    decreases segs.len(),
{
    let at = position(fields, segs[0]);
    match fields[at as int].data_type.kind {
        Kind::Struct(children) => {
            let rest = positions(children@, segs.drop_first());
            assert((seq![at] + rest).drop_first() =~= rest);
            if segs.len() > 1 {
                lemma_positions(children@, segs.drop_first());
            }
        },
        _ => {},
    }
}

/// Excluding nothing keeps every column whole, in schema order.
pub proof fn law_excluding_nothing_keeps_all(cols: Seq<Seq<char>>, fields: Seq<Field>)
    ensures
        remaining(Seq::empty(), cols, fields) == names(fields),
    decreases fields.len(),
{
    let none = Seq::<Seq<char>>::empty();
    if fields.len() == 0 {
        assert(remaining(none, cols, fields) =~= names(fields));
    } else {
        law_excluding_nothing_keeps_all(cols, fields.drop_last());
        assert(!dropped(none, cols, fields.last().name@));
        assert(!touched(none, cols, fields.last().name@));
        assert(names(fields) =~= names(fields.drop_last()) + seq![fields.last().name@]);
    }
}

/// True when the children of `fields`, at every depth, have distinct names without
/// dots.
pub open spec fn plain_names(fields: Seq<Field>) -> bool
    decreases fields,
{
    &&& forall|i: int, j: int|
        0 <= i < j < fields.len() ==> (#[trigger] fields[i]).name@ != (#[trigger] fields[j]).name@
    &&& forall|i: int| 0 <= i < fields.len() ==> plain_field(#[trigger] fields[i])
}

/// True when the names below `field` are plain.
pub open spec fn plain_field(field: Field) -> bool
    decreases field,
{
    match field.data_type.kind {
        Kind::Struct(children) => plain_names(children@) && forall|i: int|
            0 <= i < children@.len() ==> !(#[trigger] children@[i]).name@.contains('.'),
        _ => true,
    }
}

/// The pieces of a path with one more dotless segment.
proof fn lemma_split_push(path: Seq<char>, seg: Seq<char>)
    requires
        !seg.contains('.'),
    ensures
        split(path + "."@ + seg, '.') == split(path, '.').push(seg),
    decreases path.len(),
{
    reveal_strlit(".");
    assert("."@ =~= seq!['.']);
    let all = path + "."@ + seg;
    lemma_find(path, '.');
    lemma_find(seg, '.');
    lemma_find(all, '.');
    let n = find(path, '.');
    if n >= path.len() {
        assert(all[path.len() as int] == '.');
        assert forall|i: int| 0 <= i < path.len() implies #[trigger] all[i] != '.' by {
            assert(all[i] == path[i]);
        }
        crate::text::lemma_find_unique(all, '.', path.len() as int);
        assert(all.take(path.len() as int) =~= path);
        assert(all.skip(path.len() as int + 1) =~= seg);
        assert(split(seg, '.') =~= seq![seg]);
        assert(split(all, '.') =~= seq![path] + seq![seg]);
        assert(split(path, '.').push(seg) =~= seq![path] + seq![seg]);
    } else {
        assert forall|i: int| 0 <= i < n implies #[trigger] all[i] != '.' by {
            assert(all[i] == path[i]);
        }
        crate::text::lemma_find_unique(all, '.', n as int);
        let rest = path.skip(n as int + 1);
        assert(all.skip(n as int + 1) =~= rest + "."@ + seg);
        assert(all.take(n as int) =~= path.take(n as int));
        lemma_split_push(rest, seg);
        assert(seq![path.take(n as int)] + split(rest, '.').push(seg) =~= (seq![
            path.take(n as int),
        ] + split(rest, '.')).push(seg));
    }
}

proof fn lemma_path_down(fields: Seq<Field>, segs: Seq<Seq<char>>, child: Seq<char>)
    requires
        path_ok(fields, segs),
        leaf_field(fields, segs).data_type.kind matches Kind::Struct(children) && position(
            children@,
            child,
        ) < children@.len(),
    ensures
        path_ok(fields, segs.push(child)),
        leaf_field(fields, segs).data_type.kind matches Kind::Struct(children) && leaf_field(
            fields,
            segs.push(child),
        ) == children@[position(children@, child) as int],
    decreases segs.len(),
{
    reveal_with_fuel(path_ok, 3);
    reveal_with_fuel(leaf_field, 3);
    let longer = segs.push(child);
    assert(longer.drop_first() =~= segs.drop_first().push(child));
    assert(longer[0] == segs[0]);
    if segs.len() > 1 {
        let field = fields[position(fields, segs[0]) as int];
        match field.data_type.kind {
            Kind::Struct(children) => {
                lemma_path_down(children@, segs.drop_first(), child);
            },
            _ => {},
        }
    } else {
        assert(longer.drop_first() =~= seq![child]);
    }
}

proof fn lemma_leaves_are_valid(fields: Seq<Field>, prefix: Seq<char>, field: Field, leaf: Seq<char>)
    requires
        path_ok(fields, split(prefix, '.')),
        leaf_field(fields, split(prefix, '.')) == field,
        plain_field(field),
        leaves(prefix, field).contains(leaf),
    ensures
        path_ok(fields, split(leaf, '.')),
    decreases field, 0nat,
{
    match field.data_type.kind {
        Kind::Struct(children) => {
            lemma_child_leaves_are_valid(fields, prefix, field, children@, children@.len(), leaf);
        },
        _ => {
            let i = choose|i: int|
                0 <= i < leaves(prefix, field).len() && leaves(prefix, field)[i] == leaf;
            assert(leaf == prefix);
        },
    }
}

proof fn lemma_child_leaves_are_valid(
    fields: Seq<Field>,
    prefix: Seq<char>,
    field: Field,
    children: Seq<Field>,
    n: nat,
    leaf: Seq<char>,
)
    requires
        path_ok(fields, split(prefix, '.')),
        leaf_field(fields, split(prefix, '.')) == field,
        field.data_type.kind matches Kind::Struct(c) && c@ == children,
        plain_field(field),
        n <= children.len(),
        leaves_of(prefix, children, n).contains(leaf),
    ensures
        path_ok(fields, split(leaf, '.')),
    decreases children, n,
{
    let all = leaves_of(prefix, children, n);
    let i = choose|i: int| 0 <= i < all.len() && all[i] == leaf;
    let front = leaves_of(prefix, children, (n - 1) as nat);
    let child = children[n - 1];
    let below = prefix + "."@ + child.name@;
    if i < front.len() {
        assert(front[i] == leaf);
        lemma_child_leaves_are_valid(fields, prefix, field, children, (n - 1) as nat, leaf);
    } else {
        assert(leaves(below, child)[i - front.len()] == leaf);
        lemma_split_push(prefix, child.name@);
        assert forall|j: int| 0 <= j < n - 1 implies (#[trigger] children[j]).name@
            != child.name@ by {
            assert(children[j].name@ != children[n - 1].name@);
        }
        crate::schema::lemma_position_unique(children, child.name@, n - 1);
        lemma_path_down(fields, split(prefix, '.'), child.name@);
        assert(plain_field(child));
        lemma_leaves_are_valid(fields, below, child, leaf);
    }
}

/// Every entry that an exclude list leaves can be projected, in a schema whose
/// columns have distinct names and whose nested fields have distinct names without
/// dots.
pub proof fn law_remaining_entries_are_valid(
    tokens: Seq<Seq<char>>,
    fields: Seq<Field>,
    entry: Seq<char>,
)
    requires
        plain_names(fields),
        remaining(tokens, names(fields), fields).contains(entry),
    ensures
        valid_entry(fields, entry),
{
    assert(fields.take(fields.len() as int) =~= fields);
    lemma_remaining_prefix(tokens, fields, fields.len(), entry);
}

proof fn lemma_filter_contained(
    s: Seq<Seq<char>>,
    keep: spec_fn(Seq<char>) -> bool,
    x: Seq<char>,
)
    requires
        s.filter(keep).contains(x),
    ensures
        s.contains(x),
        keep(x),
    decreases s.len(),
{
    reveal(Seq::filter);
    let kept = s.filter(keep);
    if s.len() > 0 {
        let front = s.drop_last().filter(keep);
        let i = choose|i: int| 0 <= i < kept.len() && kept[i] == x;
        if i < front.len() {
            assert(front[i] == x);
            lemma_filter_contained(s.drop_last(), keep, x);
            let j = choose|j: int| 0 <= j < s.drop_last().len() && s.drop_last()[j] == x;
            assert(s[j] == x);
        } else {
            assert(s[s.len() - 1] == x);
        }
    }
}

proof fn lemma_remaining_prefix(
    tokens: Seq<Seq<char>>,
    fields: Seq<Field>,
    n: nat,
    entry: Seq<char>,
)
    requires
        plain_names(fields),
        n <= fields.len(),
        remaining(tokens, names(fields), fields.take(n as int)).contains(entry),
    ensures
        valid_entry(fields, entry),
    decreases n,
{
    let cols = names(fields);
    let some = fields.take(n as int);
    let all = remaining(tokens, cols, some);
    let i = choose|i: int| 0 <= i < all.len() && all[i] == entry;
    assert(some.drop_last() =~= fields.take(n - 1));
    let front = remaining(tokens, cols, some.drop_last());
    let field = some.last();
    assert(field == fields[n - 1]);
    let part = remains(tokens, cols, field);
    if i < front.len() {
        assert(front[i] == entry);
        lemma_remaining_prefix(tokens, fields, (n - 1) as nat, entry);
    } else {
        assert(part[i - front.len()] == entry);
        let name = field.name@;
        if !touched(tokens, cols, name) {
            assert(entry == name);
            assert(cols[n - 1] == entry);
        } else {
            let keep = |leaf: Seq<char>| !pruned(tokens, cols, name, leaf);
            let found = leaves(name, field);
            assert(found.filter(keep).contains(entry));
            lemma_filter_contained(found, keep, entry);
            let k = choose|k: int| 0 <= k < tokens.len() && touches(#[trigger] tokens[k], cols, name);
            lemma_find(tokens[k], '.');
            assert(!name.contains('.')) by {
                if name.contains('.') {
                    let j = choose|j: int| 0 <= j < name.len() && name[j] == '.';
                    assert(tokens[k][j] == '.');
                }
            }
            lemma_find(name, '.');
            assert(split(name, '.') =~= seq![name]);
            assert forall|j: int| 0 <= j < n - 1 implies (#[trigger] fields[j]).name@ != name by {
                assert(fields[j].name@ != fields[n - 1].name@);
            }
            crate::schema::lemma_position_unique(fields, name, n - 1);
            assert(plain_field(field));
            lemma_leaves_are_valid(fields, name, field, entry);
        }
    }
}

} // verus!
