//! `cat`: the rows of one or more datasets.
use vstd::prelude::*;

use crate::commands::common::{first_difference, schemas_match};
use crate::dataset::{has_scheme, scheme_qualified};
use crate::error::Error;
use crate::schema::{Field, Schema};
use crate::sort::{sort, text_order, views_of, TextOrder};
use crate::text::{chars_of, copy_texts, dec, has_char, texts};

verus! {

/// True of an input with one of the characters `*`, `?` and `[`.
pub open spec fn has_glob_char(s: Seq<char>) -> bool {
    s.contains('*') || s.contains('?') || s.contains('[')
}

/// True of an input that is a pattern rather than a plain path.
pub fn is_glob_pattern(input: &str) -> (r: bool)
    ensures
        r == has_glob_char(input@),
{
    let chars = chars_of(input);
    has_char(chars.as_slice(), '*') || has_char(chars.as_slice(), '?') || has_char(
        chars.as_slice(),
        '[',
    )
}

/// What the local filesystem says of an input: whether it exists as it is written,
/// and the paths that match it as a pattern, or why it is no pattern.
#[derive(Debug)]
pub struct Probe {
    pub exists: bool,
    pub matches: Result<Vec<String>, String>,
}

/// Why inputs cannot be expanded.
pub enum Failure {
    Invalid(Seq<char>, Seq<char>),
    NoMatch(Seq<char>),
}

/// What one input stands for.
pub open spec fn expansion(input: Seq<char>, probe: Probe) -> Result<Seq<Seq<char>>, Failure> {
    if scheme_qualified(input) || probe.exists || !has_glob_char(input) {
        Ok(seq![input])
    } else {
        match probe.matches {
            Err(why) => Err(Failure::Invalid(input, why@)),
            Ok(found) => if found@.len() == 0 {
                Err(Failure::NoMatch(input))
            } else {
                Ok(texts(found@).sort_by(text_order()))
            },
        }
    }
}

/// What the inputs stand for, or the first failure.
pub open spec fn expansions(inputs: Seq<Seq<char>>, probes: Seq<Probe>) -> Result<
    Seq<Seq<char>>,
    Failure,
>
    decreases inputs.len(),
{
    if inputs.len() == 0 {
        Ok(Seq::empty())
    } else {
        match expansions(inputs.drop_last(), probes) {
            Err(why) => Err(why),
            Ok(before) => match expansion(inputs.last(), probes[inputs.len() - 1]) {
                Err(why) => Err(why),
                Ok(paths) => Ok(before + paths),
            },
        }
    }
}

proof fn lemma_first_failure(inputs: Seq<Seq<char>>, probes: Seq<Probe>, k: int)
    requires
        0 <= k <= inputs.len(),
        expansions(inputs.take(k), probes) is Err,
    ensures
        expansions(inputs, probes) == expansions(inputs.take(k), probes),
    decreases inputs.len() - k,
{
    if k < inputs.len() {
        assert(inputs.take(k + 1).drop_last() =~= inputs.take(k));
        lemma_first_failure(inputs, probes, k + 1);
    } else {
        assert(inputs.take(k) =~= inputs);
    }
}

/// Expand the patterns among the inputs.
///
/// - An input with a scheme is left as it is; so is a path that exists, whatever its
///   characters, and a path without pattern characters.
/// - Any other input is a pattern. Its matches are put in lexicographic order, so
///   that concatenation is deterministic; having none is an error.
pub fn expand_inputs(inputs: &[String], probes: &Vec<Probe>) -> (r: Result<Vec<String>, Error>)
    requires
        probes@.len() == inputs@.len(),
    ensures
        match expansions(texts(inputs@), probes@) {
            Ok(paths) => r matches Ok(v) && texts(v@) == paths,
            Err(Failure::Invalid(p, why)) => r matches Err(
                Error::InvalidGlobPattern { pattern, message },
            ) && pattern@ == p && message@ == why,
            Err(Failure::NoMatch(p)) => r matches Err(Error::InputGlobNoMatch { pattern })
                && pattern@ == p,
        },
{
    let ghost all = texts(inputs@);
    let mut out: Vec<String> = Vec::new();
    let mut i: usize = 0;
    proof {
        assert(all.take(0) =~= Seq::<Seq<char>>::empty());
        assert(texts(out@) =~= Seq::<Seq<char>>::empty());
    }
    while i < inputs.len()
        invariant
            all == texts(inputs@),
            probes@.len() == inputs@.len(),
            i <= inputs@.len(),
            expansions(all.take(i as int), probes@) == Ok::<Seq<Seq<char>>, Failure>(texts(out@)),
        decreases inputs@.len() - i,
    {
        let input = &inputs[i];
        let ghost before = out@;
        proof {
            assert(all[i as int] == input@);
            assert(all.take(i + 1).drop_last() =~= all.take(i as int));
            assert(all.take(i + 1).last() == input@);
            assert(all.take(i + 1).len() - 1 == i);
        }
        if has_scheme(input.as_str()) || probes[i].exists || !is_glob_pattern(input.as_str()) {
            out.push(input.clone());
            proof {
                assert(texts(out@) =~= texts(before) + seq![input@]);
            }
        } else {
            match &probes[i].matches {
                Err(why) => {
                    proof {
                        lemma_first_failure(all, probes@, i + 1);
                    }
                    return Err(
                        Error::InvalidGlobPattern { pattern: input.clone(), message: why.clone() },
                    );
                },
                Ok(found) => {
                    if found.len() == 0 {
                        proof {
                            lemma_first_failure(all, probes@, i + 1);
                        }
                        return Err(Error::InputGlobNoMatch { pattern: input.clone() });
                    }
                    let mut sorted = sort(copy_texts(found.as_slice()), &TextOrder);
                    let ghost added = sorted@;
                    proof {
                        assert(views_of(found@) =~= texts(found@));
                        assert(views_of(added) =~= texts(added));
                    }
                    out.append(&mut sorted);
                    proof {
                        assert(texts(out@) =~= texts(before) + texts(added));
                    }
                },
            }
        }
        i += 1;
    }
    proof {
        assert(all.take(all.len() as int) =~= all);
    }
    Ok(out)
}

/// Inputs have to be given.
pub fn require_inputs(inputs: &[String]) -> (r: Result<(), Error>)
    ensures
        inputs@.len() == 0 ==> r == Err::<(), Error>(Error::EmptyInputs),
        inputs@.len() > 0 ==> r is Ok,
{
    if inputs.len() == 0 {
        Err(Error::EmptyInputs)
    } else {
        Ok(())
    }
}

/// True where two schemas have the same columns in the same order.
pub open spec fn agree(a: Seq<Field>, b: Seq<Field>) -> bool {
    a.len() == b.len() && first_difference(a, b) >= a.len()
}

/// Position of the first schema that does not agree with the first one, or their
/// number.
pub open spec fn first_mismatch(schemas: Seq<Schema>, from: nat) -> nat
    decreases schemas.len() - from,
{
    if from >= schemas.len() || !agree(schemas[0].fields@, schemas[from as int].fields@) {
        from
    } else {
        first_mismatch(schemas, from + 1)
    }
}

/// How the columns of two schemas differ.
pub open spec fn difference(a: Seq<Field>, b: Seq<Field>) -> Seq<char> {
    if a.len() != b.len() {
        "column count differs ("@ + dec(a.len()) + " vs "@ + dec(b.len()) + ")"@
    } else {
        a[first_difference(a, b) as int].name@
    }
}

/// All inputs must have the columns of the first.
pub fn check_schemas(inputs: &Vec<String>, schemas: &Vec<Schema>) -> (r: Result<(), Error>)
    requires
        inputs@.len() == schemas@.len(),
        schemas@.len() > 0,
    ensures
        ({
            let n = first_mismatch(schemas@, 1);
            if n < schemas@.len() {
                r matches Err(Error::SchemaMismatch { left, right, field }) && left@
                    == inputs@[0]@ && right@ == inputs@[n as int]@ && field@ == difference(
                    schemas@[0].fields@,
                    schemas@[n as int].fields@,
                )
            } else {
                r is Ok
            }
        }),
{
    let mut i: usize = 1;
    while i < schemas.len()
        invariant
            1 <= i <= schemas@.len(),
            inputs@.len() == schemas@.len(),
            first_mismatch(schemas@, 1) == first_mismatch(schemas@, i as nat),
        decreases schemas@.len() - i,
    {
        match schemas_match(&schemas[0], &schemas[i]) {
            Ok(()) => {},
            Err(field) => {
                return Err(
                    Error::SchemaMismatch {
                        left: inputs[0].clone(),
                        right: inputs[i].clone(),
                        field,
                    },
                );
            },
        }
        i += 1;
    }
    Ok(())
}

// ---------- laws ----------

/// Inputs that stand for themselves pass through, in their order.
pub proof fn law_plain_inputs_pass_through(inputs: Seq<Seq<char>>, probes: Seq<Probe>)
    requires
        probes.len() >= inputs.len(),
        forall|i: int|
            0 <= i < inputs.len() ==> scheme_qualified(#[trigger] inputs[i]) || probes[i].exists
                || !has_glob_char(inputs[i]),
    ensures
        expansions(inputs, probes) == Ok::<Seq<Seq<char>>, Failure>(inputs),
    decreases inputs.len(),
{
    if inputs.len() > 0 {
        let init = inputs.drop_last();
        assert forall|i: int| 0 <= i < init.len() implies scheme_qualified(#[trigger] init[i])
            || probes[i].exists || !has_glob_char(init[i]) by {
            assert(inputs[i] == init[i]);
        }
        law_plain_inputs_pass_through(init, probes);
        assert(scheme_qualified(inputs[inputs.len() - 1]) || probes[inputs.len() - 1].exists
            || !has_glob_char(inputs[inputs.len() - 1]));
        assert(init + seq![inputs.last()] =~= inputs);
    } else {
        assert(inputs =~= Seq::<Seq<char>>::empty());
    }
}

/// The order in which the filesystem lists the matches of a pattern does not matter.
pub proof fn law_match_order_is_deterministic(input: Seq<char>, a: Probe, b: Probe)
    requires
        a.exists == b.exists,
        a.matches matches Ok(x) && b.matches matches Ok(y) && texts(x@).to_multiset() == texts(
            y@,
        ).to_multiset(),
    ensures
        expansion(input, a) == expansion(input, b),
{
    broadcast use vstd::seq_lib::group_to_multiset_ensures;

    let x = texts(a.matches->Ok_0@);
    let y = texts(b.matches->Ok_0@);
    crate::sort::Order::<String>::lemma_total(&TextOrder);
    x.lemma_sort_by_ensures(text_order());
    y.lemma_sort_by_ensures(text_order());
    assert(x.to_multiset().len() == x.len());
    assert(y.to_multiset().len() == y.len());
    vstd::seq_lib::lemma_sorted_unique(
        x.sort_by(text_order()),
        y.sort_by(text_order()),
        text_order(),
    );
}

} // verus!
