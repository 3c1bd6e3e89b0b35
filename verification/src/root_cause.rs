//! Root-cause ranking and redundancy removal over an entry's accumulated
//! facts: relationships subsumed by an enclosing generic instantiation of
//! themselves are dropped, exact duplicate delegation notes are dropped, and
//! entries carrying a concrete missing-field fact are the root causes.

use vstd::prelude::*;
use crate::cgp_patterns::{ProviderRelationship, ProviderRelationshipV};
use crate::diagnostic_db::{DiagnosticEntry, DiagnosticEntryV};
use crate::text::{contains_pat, contains_sub, strs_of, subvec, to_char_vec, views_of};

verus! {

/// Analyzes entries to determine causal priority.  Root causes are
/// identified by their own facts, so the order is left untouched.
pub fn rank_by_causal_priority(entries: &mut Vec<DiagnosticEntry>)
    ensures
        final(entries)@ == old(entries)@,
{
}

/// An entry is a root cause exactly when it carries a concrete
/// missing-field fact; an entry with only relationships or notes is a pure
/// explanatory link.
pub open spec fn spec_is_root_cause(e: DiagnosticEntryV) -> bool {
    e.field_info is Some
}

/// Decides whether this entry represents a root-cause error.
pub fn is_root_cause(entry: &DiagnosticEntry) -> (r: bool)
    ensures
        r == spec_is_root_cause(entry@),
{
    entry.field_info.is_some()
}

/// Two entries share a source location: some primary span of one names the
/// same file, line and column as some primary span of the other.
pub open spec fn spec_locations_match(a: DiagnosticEntryV, b: DiagnosticEntryV) -> bool {
    exists|i: int, j: int|
        0 <= i < a.primary_spans.len() && 0 <= j < b.primary_spans.len()
            && (#[trigger] a.primary_spans[i]).file_name == (#[trigger] b.primary_spans[j]).file_name
            && a.primary_spans[i].line_start == b.primary_spans[j].line_start
            && a.primary_spans[i].column_start == b.primary_spans[j].column_start
}

#[verifier::loop_isolation(false)]
fn entry_locations_match(a: &DiagnosticEntry, b: &DiagnosticEntry) -> (r: bool)
    ensures
        r == spec_locations_match(a@, b@),
{
    let na = a.primary_spans.len();
    let nb = b.primary_spans.len();
    let mut i: usize = 0;
    while i < na
        invariant
            0 <= i <= na,
            forall|x: int, y: int|
                0 <= x < i && 0 <= y < nb ==> !((#[trigger] a@.primary_spans[x]).file_name == (
                #[trigger] b@.primary_spans[y]).file_name && a@.primary_spans[x].line_start
                    == b@.primary_spans[y].line_start && a@.primary_spans[x].column_start
                    == b@.primary_spans[y].column_start),
        decreases na - i,
    {
        proof {
            assert(a@.primary_spans[i as int] == a.primary_spans@[i as int]@);
        }
        let mut j: usize = 0;
        while j < nb
            invariant
                0 <= j <= nb,
                i < na,
                forall|y: int|
                    0 <= y < j ==> !((#[trigger] b@.primary_spans[y]).file_name
                        == a@.primary_spans[i as int].file_name
                        && a@.primary_spans[i as int].line_start
                        == b@.primary_spans[y].line_start
                        && a@.primary_spans[i as int].column_start
                        == b@.primary_spans[y].column_start),
            decreases nb - j,
        {
            proof {
                assert(b@.primary_spans[j as int] == b.primary_spans@[j as int]@);
            }
            let sa = &a.primary_spans[i];
            let sb = &b.primary_spans[j];
            if sa.file_name == sb.file_name && sa.line_start == sb.line_start && sa.column_start
                == sb.column_start {
                return true;
            }
            j += 1;
        }
        i += 1;
    }
    false
}

/// An entry is a transitive failure when it carries no field fact itself but
/// a root cause at the same location explains it.
pub open spec fn spec_is_transitive_failure(
    e: DiagnosticEntryV,
    all: Seq<DiagnosticEntryV>,
) -> bool {
    e.field_info is None && exists|j: int|
        0 <= j < all.len() && spec_locations_match(e, #[trigger] all[j]) && all[j].field_info
            is Some
}

/// Decides whether the entry is a transitive failure explained by a root
/// cause at the same location.
#[verifier::loop_isolation(false)]
pub fn is_transitive_failure(entry: &DiagnosticEntry, all_entries: &Vec<DiagnosticEntry>) -> (r:
    bool)
    ensures
        r == spec_is_transitive_failure(entry@, views_of(all_entries@)),
{
    if entry.field_info.is_some() {
        return false;
    }
    let n = all_entries.len();
    let mut j: usize = 0;
    while j < n
        invariant
            0 <= j <= n,
            forall|t: int|
                0 <= t < j ==> !(spec_locations_match(
                    entry@,
                    #[trigger] views_of(all_entries@)[t],
                ) && views_of(all_entries@)[t].field_info is Some),
        decreases n - j,
    {
        proof {
            assert(views_of(all_entries@)[j as int] == all_entries@[j as int]@);
        }
        let other = &all_entries[j];
        if entry_locations_match(entry, other) && other.field_info.is_some() {
            return true;
        }
        j += 1;
    }
    false
}

/// Whether `inner` appears as a bracketed type parameter inside `outer`:
/// one of the conventional spellings of a wrapped parameter occurs in the
/// outer type's name.
pub open spec fn spec_is_contained(inner: Seq<char>, outer: Seq<char>) -> bool {
    contains_sub(outer, "<"@ + inner + ">"@) || contains_sub(outer, "<"@ + inner + ","@)
        || contains_sub(outer, ", "@ + inner + ">"@) || contains_sub(
        outer,
        ", "@ + inner + ","@,
    ) || contains_sub(outer, "< "@ + inner) || contains_sub(outer, inner + " >"@)
}

fn wrap_pat(pre: &str, inner: &Vec<char>, post: &str) -> (r: Vec<char>)
    ensures
        r@ == pre@ + inner@ + post@,
{
    let mut r = to_char_vec(pre);
    let mut mid = subvec(inner, 0, inner.len());
    proof {
        assert(inner@.subrange(0, inner@.len() as int) =~= inner@);
    }
    r.append(&mut mid);
    let mut end = to_char_vec(post);
    r.append(&mut end);
    r
}

/// Checks whether `inner_type` appears as a type parameter within
/// `outer_type`.
pub fn is_contained_type_parameter(inner_type: &str, outer_type: &str) -> (r: bool)
    ensures
        r == spec_is_contained(inner_type@, outer_type@),
{
    let inner = to_char_vec(inner_type);
    let outer = to_char_vec(outer_type);
    is_contained_chars(&inner, &outer)
}

pub(crate) fn is_contained_chars(inner: &Vec<char>, outer: &Vec<char>) -> (r: bool)
    ensures
        r == spec_is_contained(inner@, outer@),
{
    let p1 = wrap_pat("<", inner, ">");
    let p2 = wrap_pat("<", inner, ",");
    let p3 = wrap_pat(", ", inner, ">");
    let p4 = wrap_pat(", ", inner, ",");
    let p5 = wrap_pat("< ", inner, "");
    let p6 = wrap_pat("", inner, " >");
    proof {
        reveal_strlit("");
        assert(p5@ =~= "< "@ + inner@);
        assert(p6@ =~= inner@ + " >"@);
    }
    contains_pat(outer, &p1) || contains_pat(outer, &p2) || contains_pat(outer, &p3)
        || contains_pat(outer, &p4) || contains_pat(outer, &p5) || contains_pat(outer, &p6)
}

/// A relationship is redundant exactly when another fact in the same set
/// names the same capability and context and its provider type contains
/// this one as a bracketed type parameter.
pub open spec fn spec_rel_redundant(
    rels: Seq<ProviderRelationshipV>,
    r: ProviderRelationshipV,
) -> bool {
    exists|j: int|
        0 <= j < rels.len() && #[trigger] rels[j] != r && rels[j].component == r.component
            && rels[j].context == r.context && spec_is_contained(
            r.provider_type,
            rels[j].provider_type,
        )
}

/// The relationships that survive containment deduplication, in order,
/// scanning from `k`.
pub open spec fn spec_dedup_rels_from(
    rels: Seq<ProviderRelationshipV>,
    k: int,
) -> Seq<ProviderRelationshipV>
    decreases rels.len() - k,
    when 0 <= k <= rels.len()
{
    if k >= rels.len() {
        Seq::empty()
    } else if spec_rel_redundant(rels, rels[k]) {
        spec_dedup_rels_from(rels, k + 1)
    } else {
        seq![rels[k]] + spec_dedup_rels_from(rels, k + 1)
    }
}

/// The relationships that survive containment deduplication.
pub open spec fn spec_dedup_rels(rels: Seq<ProviderRelationshipV>) -> Seq<ProviderRelationshipV> {
    spec_dedup_rels_from(rels, 0)
}

/// Removes relationships that are subsumed by an enclosing generic
/// instantiation of themselves, keeping order.
#[verifier::loop_isolation(false)]
pub fn deduplicate_provider_relationships(relationships: &Vec<ProviderRelationship>) -> (r: Vec<
    ProviderRelationship,
>)
    ensures
        views_of(r@) == spec_dedup_rels(views_of(relationships@)),
{
    let ghost all = views_of(relationships@);
    let n = relationships.len();
    let mut out: Vec<ProviderRelationship> = Vec::new();
    let mut k: usize = 0;
    while k < n
        invariant
            0 <= k <= n,
            n == all.len(),
            all == views_of(relationships@),
            spec_dedup_rels(all) =~= views_of(out@) + spec_dedup_rels_from(all, k as int),
        decreases n - k,
    {
        proof {
            assert(all[k as int] == relationships@[k as int]@);
        }
        let rel = &relationships[k];
        let inner = to_char_vec(rel.provider_type.as_str());
        let mut redundant = false;
        let mut j: usize = 0;
        while j < n
            invariant
                0 <= j <= n,
                k < n,
                n == all.len(),
                all == views_of(relationships@),
                inner@ == all[k as int].provider_type,
                redundant == exists|t: int|
                    0 <= t < j && #[trigger] all[t] != all[k as int] && all[t].component
                        == all[k as int].component && all[t].context == all[k as int].context
                        && spec_is_contained(
                        all[k as int].provider_type,
                        all[t].provider_type,
                    ),
            decreases n - j,
        {
            proof {
                assert(all[j as int] == relationships@[j as int]@);
            }
            let other = &relationships[j];
            if !other.same_as(rel) && other.component == rel.component && other.context
                == rel.context {
                let outer = to_char_vec(other.provider_type.as_str());
                if is_contained_chars(&inner, &outer) {
                    redundant = true;
                }
            }
            j += 1;
        }
        proof {
            assert(redundant == spec_rel_redundant(all, all[k as int]));
        }
        if !redundant {
            let ghost prev = views_of(out@);
            out.push(rel.clone());
            proof {
                assert(views_of(out@) =~= prev.push(all[k as int]));
            }
        }
        proof {
            assert(spec_dedup_rels(all) =~= views_of(out@) + spec_dedup_rels_from(
                all,
                k as int + 1,
            ));
        }
        k += 1;
    }
    proof {
        assert(views_of(out@) =~= views_of(out@) + spec_dedup_rels_from(all, n as int));
    }
    out
}

/// Containment deduplication keeps only the wrapping relationship: of two
/// facts for the same capability and context where the second provider
/// wraps the first as a type parameter and not the other way round, only
/// the wrapping fact survives.
pub proof fn lemma_containment_dedup(a: ProviderRelationshipV, b: ProviderRelationshipV)
    requires
        a != b,
        a.component == b.component,
        a.context == b.context,
        spec_is_contained(a.provider_type, b.provider_type),
        !spec_is_contained(b.provider_type, a.provider_type),
    ensures
        spec_dedup_rels(seq![a, b]) == seq![b],
{
    let s = seq![a, b];
    assert(s[1] != a && s[1].component == a.component && s[1].context == a.context
        && spec_is_contained(a.provider_type, s[1].provider_type));
    assert(spec_rel_redundant(s, a));
    assert forall|j: int| 0 <= j < s.len() implies !(#[trigger] s[j] != b && s[j].component
        == b.component && s[j].context == b.context && spec_is_contained(
        b.provider_type,
        s[j].provider_type,
    )) by {
        if j == 0 {
            assert(!spec_is_contained(b.provider_type, s[0].provider_type));
        } else {
            assert(s[1] == b);
        }
    }
    assert(!spec_rel_redundant(s, b));
    assert(spec_dedup_rels_from(s, 2) =~= Seq::<ProviderRelationshipV>::empty());
    assert(spec_dedup_rels_from(s, 1) =~= seq![b]);
    assert(spec_dedup_rels(s) == spec_dedup_rels_from(s, 1));
    assert(spec_dedup_rels(s) =~= seq![b]);
}

/// The notes with exact duplicates removed, keeping the first occurrence of
/// each, scanning from `k` with the already-kept notes in `acc`.
pub open spec fn spec_dedup_notes_from(
    all: Seq<Seq<char>>,
    k: int,
    acc: Seq<Seq<char>>,
) -> Seq<Seq<char>>
    decreases all.len() - k,
    when 0 <= k <= all.len()
{
    if k >= all.len() {
        acc
    } else if acc.contains(all[k]) {
        spec_dedup_notes_from(all, k + 1, acc)
    } else {
        spec_dedup_notes_from(all, k + 1, acc.push(all[k]))
    }
}

/// The notes with exact duplicates removed, order preserved.
pub open spec fn spec_dedup_notes(all: Seq<Seq<char>>) -> Seq<Seq<char>> {
    spec_dedup_notes_from(all, 0, Seq::empty())
}

/// Removes exact duplicate delegation notes, keeping the first occurrence
/// of each and preserving order.
#[verifier::loop_isolation(false)]
pub fn deduplicate_delegation_notes(notes: &Vec<String>) -> (r: Vec<String>)
    ensures
        strs_of(r@) == spec_dedup_notes(strs_of(notes@)),
{
    let ghost all = strs_of(notes@);
    let n = notes.len();
    let mut out: Vec<String> = Vec::new();
    proof {
        assert(strs_of(out@) =~= Seq::<Seq<char>>::empty());
    }
    let mut k: usize = 0;
    while k < n
        invariant
            0 <= k <= n,
            n == all.len(),
            all == strs_of(notes@),
            spec_dedup_notes(all) == spec_dedup_notes_from(all, k as int, strs_of(out@)),
        decreases n - k,
    {
        proof {
            assert(all[k as int] == notes@[k as int]@);
        }
        let mut present = false;
        let mut j: usize = 0;
        while j < out.len()
            invariant
                0 <= j <= out.len(),
                k < n,
                all == strs_of(notes@),
                present == exists|t: int| 0 <= t < j && strs_of(out@)[t] == all[k as int],
            decreases out.len() - j,
        {
            if out[j] == notes[k] {
                proof {
                    assert(strs_of(out@)[j as int] == all[k as int]);
                }
                present = true;
            }
            j += 1;
        }
        proof {
            assert(present == strs_of(out@).contains(all[k as int]));
        }
        if !present {
            let ghost prev = strs_of(out@);
            out.push(notes[k].clone());
            proof {
                assert(strs_of(out@) =~= prev.push(all[k as int]));
            }
        }
        k += 1;
    }
    out
}

} // verus!
