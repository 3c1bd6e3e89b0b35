//! The diagnostic database: owns a mapping from a grouping key (primary
//! source location plus capability name) to a merged entry.  It consumes one
//! raw diagnostic at a time, creating or merging entries, and after the
//! whole stream is drained decides which entries are redundant.
//!
//! Merging never discards already-known facts: later-arriving field
//! information, consumer-interface names and error codes only fill gaps.

use vstd::prelude::*;
use crate::cgp_patterns::{
    spec_extract_component_info, spec_extract_consumer_trait, spec_extract_field_info,
    spec_extract_provider_relationship, spec_has_other_hasfield, ComponentInfo, ComponentInfoV,
    FieldInfo, FieldInfoV, ProviderRelationship, ProviderRelationshipV,
    extract_component_info, extract_consumer_trait, extract_field_info,
    extract_provider_relationship, has_other_hasfield_implementations,
};
use crate::raw_diagnostic::{
    clone_opt_string, clone_string_vec, ChildNoteV, DiagnosticLevel, RawDiagnostic,
    RawDiagnosticV, SpanInfo, SpanInfoV,
};
use crate::text::{contains_pat, contains_sub, opt_str, opt_view, strs_of, to_char_vec, views_of};

verus! {

/// A pure source-position value used as part of a grouping key.
#[derive(Debug)]
pub struct SourceLocation {
    pub file: String,
    pub line: usize,
    pub column: usize,
}

/// Ghost view of a source location.
#[verifier::ext_equal]
pub struct SourceLocationV {
    pub file: Seq<char>,
    pub line: int,
    pub column: int,
}

impl View for SourceLocation {
    type V = SourceLocationV;

    open spec fn view(&self) -> SourceLocationV {
        SourceLocationV { file: self.file@, line: self.line as int, column: self.column as int }
    }
}

impl Clone for SourceLocation {
    fn clone(&self) -> (r: Self)
        ensures
            r == *self,
    {
        SourceLocation { file: self.file.clone(), line: self.line, column: self.column }
    }
}

/// The location a span points at.
pub open spec fn spec_location_of(sp: SpanInfoV) -> SourceLocationV {
    SourceLocationV { file: sp.file_name, line: sp.line_start, column: sp.column_start }
}

impl SourceLocation {
    /// The pure location value of a span.
    pub fn from_span(span: &SpanInfo) -> (r: Self)
        ensures
            r@ == spec_location_of(span@),
    {
        SourceLocation {
            file: span.file_name.clone(),
            line: span.line_start,
            column: span.column_start,
        }
    }
}

/// The key that groups related diagnostics: primary location plus the
/// capability name, or its absence.
#[derive(Debug)]
pub struct DiagnosticKey {
    pub location: SourceLocation,
    pub component: Option<String>,
}

/// Ghost view of a grouping key.
#[verifier::ext_equal]
pub struct DiagnosticKeyV {
    pub location: SourceLocationV,
    pub component: Option<Seq<char>>,
}

impl View for DiagnosticKey {
    type V = DiagnosticKeyV;

    open spec fn view(&self) -> DiagnosticKeyV {
        DiagnosticKeyV { location: self.location@, component: opt_str(self.component) }
    }
}

impl Clone for DiagnosticKey {
    fn clone(&self) -> (r: Self)
        ensures
            r == *self,
    {
        DiagnosticKey { location: self.location.clone(), component: clone_opt_string(&self.component) }
    }
}

impl DiagnosticKey {
    /// Whether two keys name the same group.
    pub fn same_as(&self, other: &DiagnosticKey) -> (r: bool)
        ensures
            r == (self@ == other@),
    {
        let loc_eq = self.location.file == other.location.file && self.location.line
            == other.location.line && self.location.column == other.location.column;
        let comp_eq = match (&self.component, &other.component) {
            (Some(a), Some(b)) => *a == *b,
            (None, None) => true,
            _ => false,
        };
        let r = loc_eq && comp_eq;
        proof {
            if r {
                assert(self@ =~= other@);
            }
        }
        r
    }
}

/// A merged diagnostic entry combining the facts of every related record.
#[derive(Debug)]
pub struct DiagnosticEntry {
    /// The first raw diagnostic received at this key.
    pub original: RawDiagnostic,
    /// The reconstructed field requirement, when one was announced.
    pub field_info: Option<FieldInfo>,
    /// Every capability recognized at this key, in arrival order.
    pub component_infos: Vec<ComponentInfo>,
    /// The check interface quoted by a "required by a bound in" note.
    pub consumer_trait: Option<String>,
    /// The provider-relationship facts collected from the notes.
    pub provider_relationships: Vec<ProviderRelationship>,
    /// The raw delegation notes, in arrival order, without exact duplicates.
    pub delegation_notes: Vec<String>,
    /// Whether the record type has other field-accessor implementations.
    pub has_other_hasfield_impls: bool,
    /// Every primary span seen at this key.
    pub primary_spans: Vec<SpanInfo>,
    /// The stable error code, when any record carried one.
    pub error_code: Option<String>,
    /// The main message of the first record.
    pub message: String,
    /// Whether this entry carries a concrete missing-field fact.
    pub is_root_cause: bool,
    /// Whether the entry is redundant and must not be rendered.
    pub suppressed: bool,
}

/// Ghost view of a merged entry.
#[verifier::ext_equal]
pub struct DiagnosticEntryV {
    pub original: RawDiagnosticV,
    pub field_info: Option<FieldInfoV>,
    pub component_infos: Seq<ComponentInfoV>,
    pub consumer_trait: Option<Seq<char>>,
    pub provider_relationships: Seq<ProviderRelationshipV>,
    pub delegation_notes: Seq<Seq<char>>,
    pub has_other_hasfield_impls: bool,
    pub primary_spans: Seq<SpanInfoV>,
    pub error_code: Option<Seq<char>>,
    pub message: Seq<char>,
    pub is_root_cause: bool,
    pub suppressed: bool,
}

impl View for DiagnosticEntry {
    type V = DiagnosticEntryV;

    open spec fn view(&self) -> DiagnosticEntryV {
        DiagnosticEntryV {
            original: self.original@,
            field_info: opt_view(self.field_info),
            component_infos: views_of(self.component_infos@),
            consumer_trait: opt_str(self.consumer_trait),
            provider_relationships: views_of(self.provider_relationships@),
            delegation_notes: strs_of(self.delegation_notes@),
            has_other_hasfield_impls: self.has_other_hasfield_impls,
            primary_spans: views_of(self.primary_spans@),
            error_code: opt_str(self.error_code),
            message: self.message@,
            is_root_cause: self.is_root_cause,
            suppressed: self.suppressed,
        }
    }
}

/// Clones a vector of capability records, preserving it exactly.
pub fn clone_component_infos(v: &Vec<ComponentInfo>) -> (r: Vec<ComponentInfo>)
    ensures
        r@ == v@,
{
    let mut r: Vec<ComponentInfo> = Vec::new();
    let mut i: usize = 0;
    while i < v.len()
        invariant
            i <= v.len(),
            r@ =~= v@.subrange(0, i as int),
        decreases v.len() - i,
    {
        r.push(v[i].clone());
        i += 1;
    }
    proof {
        assert(v@.subrange(0, v@.len() as int) =~= v@);
    }
    r
}

/// Clones a vector of relationship facts, preserving it exactly.
pub fn clone_relationships(v: &Vec<ProviderRelationship>) -> (r: Vec<ProviderRelationship>)
    ensures
        r@ == v@,
{
    let mut r: Vec<ProviderRelationship> = Vec::new();
    let mut i: usize = 0;
    while i < v.len()
        invariant
            i <= v.len(),
            r@ =~= v@.subrange(0, i as int),
        decreases v.len() - i,
    {
        r.push(v[i].clone());
        i += 1;
    }
    proof {
        assert(v@.subrange(0, v@.len() as int) =~= v@);
    }
    r
}

fn clone_opt_field_info(o: &Option<FieldInfo>) -> (r: Option<FieldInfo>)
    ensures
        r == *o,
{
    match o {
        Some(f) => Some(f.clone()),
        None => None,
    }
}

impl Clone for DiagnosticEntry {
    fn clone(&self) -> (r: Self)
        ensures
            r@ == self@,
    {
        let r = DiagnosticEntry {
            original: self.original.clone(),
            field_info: clone_opt_field_info(&self.field_info),
            component_infos: clone_component_infos(&self.component_infos),
            consumer_trait: clone_opt_string(&self.consumer_trait),
            provider_relationships: clone_relationships(&self.provider_relationships),
            delegation_notes: clone_string_vec(&self.delegation_notes),
            has_other_hasfield_impls: self.has_other_hasfield_impls,
            primary_spans: crate::raw_diagnostic::clone_spans(&self.primary_spans),
            error_code: clone_opt_string(&self.error_code),
            message: self.message.clone(),
            is_root_cause: self.is_root_cause,
            suppressed: self.suppressed,
        };
        proof {
            assert(r@ =~= self@);
        }
        r
    }
}

/// The first primary span of a diagnostic, scanning from `k`.
pub open spec fn spec_first_primary_from(spans: Seq<SpanInfoV>, k: int) -> Option<SpanInfoV>
    decreases spans.len() - k,
    when 0 <= k <= spans.len()
{
    if k >= spans.len() {
        None
    } else if spans[k].is_primary {
        Some(spans[k])
    } else {
        spec_first_primary_from(spans, k + 1)
    }
}

/// The first primary span of a diagnostic.
pub open spec fn spec_first_primary(d: RawDiagnosticV) -> Option<SpanInfoV> {
    spec_first_primary_from(d.spans, 0)
}

/// Every primary span of a diagnostic, in order, scanning from `k`.
pub open spec fn spec_primary_spans_from(spans: Seq<SpanInfoV>, k: int) -> Seq<SpanInfoV>
    decreases spans.len() - k,
    when 0 <= k <= spans.len()
{
    if k >= spans.len() {
        Seq::empty()
    } else if spans[k].is_primary {
        seq![spans[k]] + spec_primary_spans_from(spans, k + 1)
    } else {
        spec_primary_spans_from(spans, k + 1)
    }
}

/// The messages a capability may be recognized in: the main message first,
/// then every child note's message.
pub open spec fn spec_diag_messages(d: RawDiagnosticV) -> Seq<Seq<char>> {
    seq![d.message] + Seq::new(d.children.len(), |i: int| d.children[i].message)
}

/// Capability records collected from the given messages, starting from the
/// accumulator: a recognized capability is appended when not yet present.
pub open spec fn spec_collect_components(
    msgs: Seq<Seq<char>>,
    k: int,
    acc: Seq<ComponentInfoV>,
) -> Seq<ComponentInfoV>
    decreases msgs.len() - k,
    when 0 <= k <= msgs.len()
{
    if k >= msgs.len() {
        acc
    } else {
        match spec_extract_component_info(msgs[k]) {
            Some(ci) => if acc.contains(ci) {
                spec_collect_components(msgs, k + 1, acc)
            } else {
                spec_collect_components(msgs, k + 1, acc.push(ci))
            },
            None => spec_collect_components(msgs, k + 1, acc),
        }
    }
}

/// The capability that keys a diagnostic: the first one recognized in the
/// main message or any child note.
pub open spec fn spec_key_component_from(msgs: Seq<Seq<char>>, k: int) -> Option<ComponentInfoV>
    decreases msgs.len() - k,
    when 0 <= k <= msgs.len()
{
    if k >= msgs.len() {
        None
    } else {
        match spec_extract_component_info(msgs[k]) {
            Some(ci) => Some(ci),
            None => spec_key_component_from(msgs, k + 1),
        }
    }
}

/// The consumer-interface name quoted by the first `Note` child that names
/// one.
pub open spec fn spec_consumer_trait_from(children: Seq<ChildNoteV>, k: int) -> Option<Seq<char>>
    decreases children.len() - k,
    when 0 <= k <= children.len()
{
    if k >= children.len() {
        None
    } else if children[k].level == DiagnosticLevel::Note && spec_extract_consumer_trait(
        children[k].message,
    ) is Some {
        spec_extract_consumer_trait(children[k].message)
    } else {
        spec_consumer_trait_from(children, k + 1)
    }
}

/// Every relationship fact announced by a `Note` child, in order.
pub open spec fn spec_provider_rels_from(children: Seq<ChildNoteV>, k: int) -> Seq<
    ProviderRelationshipV,
>
    decreases children.len() - k,
    when 0 <= k <= children.len()
{
    if k >= children.len() {
        Seq::empty()
    } else {
        let rest = spec_provider_rels_from(children, k + 1);
        if children[k].level == DiagnosticLevel::Note {
            match spec_extract_provider_relationship(children[k].message) {
                Some(rel) => seq![rel] + rest,
                None => rest,
            }
        } else {
            rest
        }
    }
}

/// Whether a note message describes one hop of a delegation chain.
pub open spec fn is_delegation_note(m: Seq<char>) -> bool {
    contains_sub(m, "required for"@) && contains_sub(m, "to implement"@)
}

/// Every delegation note carried by a `Note` child, in order.
pub open spec fn spec_delegation_notes_from(children: Seq<ChildNoteV>, k: int) -> Seq<Seq<char>>
    decreases children.len() - k,
    when 0 <= k <= children.len()
{
    if k >= children.len() {
        Seq::empty()
    } else {
        let rest = spec_delegation_notes_from(children, k + 1);
        if children[k].level == DiagnosticLevel::Note && is_delegation_note(children[k].message) {
            seq![children[k].message] + rest
        } else {
            rest
        }
    }
}

/// The grouping key of a diagnostic whose first primary span is `sp`.
pub open spec fn spec_key_of(d: RawDiagnosticV, sp: SpanInfoV) -> DiagnosticKeyV {
    DiagnosticKeyV {
        location: spec_location_of(sp),
        component: match spec_key_component_from(spec_diag_messages(d), 0) {
            Some(ci) => Some(ci.component_type),
            None => None,
        },
    }
}

/// The entry created for the first diagnostic at a key.
pub open spec fn spec_create_entry(d: RawDiagnosticV) -> DiagnosticEntryV {
    DiagnosticEntryV {
        original: d,
        field_info: spec_extract_field_info(d),
        component_infos: spec_collect_components(spec_diag_messages(d), 0, Seq::empty()),
        consumer_trait: spec_consumer_trait_from(d.children, 0),
        provider_relationships: spec_provider_rels_from(d.children, 0),
        delegation_notes: spec_delegation_notes_from(d.children, 0),
        has_other_hasfield_impls: spec_has_other_hasfield(d),
        primary_spans: spec_primary_spans_from(d.spans, 0),
        error_code: d.code,
        message: d.message,
        is_root_cause: spec_extract_field_info(d) is Some,
        suppressed: false,
    }
}

/// Appends to `acc` every element of `new` that `acc` does not already
/// hold.
pub open spec fn spec_append_novel<A>(acc: Seq<A>, new: Seq<A>, k: int) -> Seq<A>
    decreases new.len() - k,
    when 0 <= k <= new.len()
{
    if k >= new.len() {
        acc
    } else if acc.contains(new[k]) {
        spec_append_novel(acc, new, k + 1)
    } else {
        spec_append_novel(acc.push(new[k]), new, k + 1)
    }
}

/// The entry after a later diagnostic at the same key is merged in: facts
/// only fill gaps, never overwrite, and novel relationships, notes, spans
/// and capabilities are appended.
pub open spec fn spec_merge_entry(e: DiagnosticEntryV, d: RawDiagnosticV) -> DiagnosticEntryV {
    DiagnosticEntryV {
        original: e.original,
        field_info: if e.field_info is Some {
            e.field_info
        } else {
            spec_extract_field_info(d)
        },
        is_root_cause: e.is_root_cause || (e.field_info is None && spec_extract_field_info(
            d,
        ) is Some),
        component_infos: spec_collect_components(spec_diag_messages(d), 0, e.component_infos),
        consumer_trait: if e.consumer_trait is Some {
            e.consumer_trait
        } else {
            spec_consumer_trait_from(d.children, 0)
        },
        provider_relationships: spec_append_novel(
            e.provider_relationships,
            spec_provider_rels_from(d.children, 0),
            0,
        ),
        delegation_notes: spec_append_novel(
            e.delegation_notes,
            spec_delegation_notes_from(d.children, 0),
            0,
        ),
        has_other_hasfield_impls: e.has_other_hasfield_impls || spec_has_other_hasfield(d),
        primary_spans: spec_append_novel(e.primary_spans, spec_primary_spans_from(d.spans, 0), 0),
        error_code: if e.error_code is Some {
            e.error_code
        } else {
            d.code
        },
        message: e.message,
        suppressed: e.suppressed,
    }
}

/// Merging never loses already-known facts: field information, the
/// consumer-interface name and the error code survive every merge, and a
/// fact present in either input is present in the merged entry.
pub proof fn lemma_merge_monotone(e: DiagnosticEntryV, d: RawDiagnosticV)
    ensures
        e.field_info is Some ==> spec_merge_entry(e, d).field_info == e.field_info,
        spec_extract_field_info(d) is Some ==> spec_merge_entry(e, d).field_info is Some,
        e.consumer_trait is Some ==> spec_merge_entry(e, d).consumer_trait == e.consumer_trait,
        spec_consumer_trait_from(d.children, 0) is Some ==> spec_merge_entry(
            e,
            d,
        ).consumer_trait is Some,
        e.error_code is Some ==> spec_merge_entry(e, d).error_code == e.error_code,
        d.code is Some ==> spec_merge_entry(e, d).error_code is Some,
        e.is_root_cause ==> spec_merge_entry(e, d).is_root_cause,
        e.has_other_hasfield_impls ==> spec_merge_entry(e, d).has_other_hasfield_impls,
{
}

/// Whether two capability records are field-for-field identical.
fn ci_same(a: &ComponentInfo, b: &ComponentInfo) -> (r: bool)
    ensures
        r == (a@ == b@),
{
    let pt_eq = match (&a.provider_trait, &b.provider_trait) {
        (Some(x), Some(y)) => *x == *y,
        (None, None) => true,
        _ => false,
    };
    let r = a.component_type == b.component_type && pt_eq;
    proof {
        if r {
            assert(a@ =~= b@);
        }
    }
    r
}

fn contains_ci(v: &Vec<ComponentInfo>, ci: &ComponentInfo) -> (r: bool)
    ensures
        r == views_of(v@).contains(ci@),
{
    let mut j: usize = 0;
    while j < v.len()
        invariant
            j <= v.len(),
            forall|t: int| 0 <= t < j ==> views_of(v@)[t] != ci@,
        decreases v.len() - j,
    {
        if ci_same(&v[j], ci) {
            proof {
                assert(views_of(v@)[j as int] == ci@);
            }
            return true;
        }
        j += 1;
    }
    proof {
        assert(forall|t: int| 0 <= t < v@.len() ==> views_of(v@)[t] != ci@);
    }
    false
}

/// Whether two spans are field-for-field identical in view.
#[verifier::loop_isolation(false)]
fn span_same(a: &SpanInfo, b: &SpanInfo) -> (r: bool)
    ensures
        r == (a@ == b@),
{
    if a.text.len() != b.text.len() {
        proof {
            assert(a@.text.len() != b@.text.len());
        }
        return false;
    }
    let mut j: usize = 0;
    while j < a.text.len()
        invariant
            j <= a.text.len(),
            a.text.len() == b.text.len(),
            forall|t: int| 0 <= t < j ==> a@.text[t] == b@.text[t],
        decreases a.text.len() - j,
    {
        if !(a.text[j] == b.text[j]) {
            proof {
                assert(a@.text[j as int] != b@.text[j as int]);
            }
            return false;
        }
        proof {
            assert(a@.text[j as int] == a.text@[j as int]@);
            assert(b@.text[j as int] == b.text@[j as int]@);
        }
        j += 1;
    }
    let label_eq = match (&a.label, &b.label) {
        (Some(x), Some(y)) => *x == *y,
        (None, None) => true,
        _ => false,
    };
    if !label_eq {
        proof {
            assert(a@.label != b@.label);
        }
        return false;
    }
    let r = a.file_name == b.file_name && a.line_start == b.line_start && a.column_start
        == b.column_start && a.column_end == b.column_end && a.is_primary == b.is_primary;
    proof {
        if r {
            assert(a@.text =~= b@.text);
            assert(a@ =~= b@);
        }
    }
    r
}

#[verifier::loop_isolation(false)]
fn contains_span(v: &Vec<SpanInfo>, sp: &SpanInfo) -> (r: bool)
    ensures
        r == views_of(v@).contains(sp@),
{
    let mut j: usize = 0;
    while j < v.len()
        invariant
            j <= v.len(),
            forall|t: int| 0 <= t < j ==> views_of(v@)[t] != sp@,
        decreases v.len() - j,
    {
        if span_same(&v[j], sp) {
            proof {
                assert(views_of(v@)[j as int] == sp@);
            }
            return true;
        }
        j += 1;
    }
    proof {
        assert(forall|t: int| 0 <= t < v@.len() ==> views_of(v@)[t] != sp@);
    }
    false
}

/// Appends to `acc` every capability of the diagnostic's messages that
/// `acc` does not already hold.
#[verifier::loop_isolation(false)]
fn collect_components_into(d: &RawDiagnostic, acc: &mut Vec<ComponentInfo>)
    ensures
        views_of(final(acc)@) == spec_collect_components(
            spec_diag_messages(d@),
            0,
            views_of(old(acc)@),
        ),
{
    let ghost msgs = spec_diag_messages(d@);
    let n = d.children.len();
    proof {
        assert(msgs.len() == n + 1);
        assert(msgs[0] == d@.message);
    }
    match extract_component_info(d.message.as_str()) {
        Some(ci) => {
            if !contains_ci(acc, &ci) {
                let ghost prev = views_of(acc@);
                acc.push(ci);
                proof {
                    assert(views_of(acc@) =~= prev.push(views_of(acc@).last()));
                }
            }
        },
        None => {},
    }
    proof {
        assert(spec_collect_components(msgs, 0, views_of(old(acc)@)) == spec_collect_components(
            msgs,
            1,
            views_of(acc@),
        ));
    }
    let mut c: usize = 0;
    while c < n
        invariant
            0 <= c <= n,
            n == d@.children.len(),
            msgs == spec_diag_messages(d@),
            msgs.len() == n + 1,
            spec_collect_components(msgs, 0, views_of(old(acc)@)) == spec_collect_components(
                msgs,
                c as int + 1,
                views_of(acc@),
            ),
        decreases n - c,
    {
        proof {
            assert(msgs[c as int + 1] == d@.children[c as int].message);
            assert(d@.children[c as int].message == d.children@[c as int]@.message);
        }
        match extract_component_info(d.children[c].message.as_str()) {
            Some(ci) => {
                if !contains_ci(acc, &ci) {
                    let ghost prev = views_of(acc@);
                    let ghost civ = ci@;
                    acc.push(ci);
                    proof {
                        assert(views_of(acc@) =~= prev.push(civ));
                    }
                }
            },
            None => {},
        }
        c += 1;
    }
}

/// The capability that keys the diagnostic: the first one recognized in the
/// main message or any child note.
#[verifier::loop_isolation(false)]
fn key_component(d: &RawDiagnostic) -> (r: Option<ComponentInfo>)
    ensures
        opt_view(r) == spec_key_component_from(spec_diag_messages(d@), 0),
{
    let ghost msgs = spec_diag_messages(d@);
    proof {
        assert(msgs[0] == d@.message);
    }
    if let Some(ci) = extract_component_info(d.message.as_str()) {
        return Some(ci);
    }
    let n = d.children.len();
    let mut k: usize = 0;
    while k < n
        invariant
            0 <= k <= n,
            spec_key_component_from(msgs, 0) == spec_key_component_from(msgs, k as int + 1),
        decreases n - k,
    {
        proof {
            assert(msgs[k as int + 1] == d@.children[k as int].message);
            assert(d@.children[k as int].message == d.children@[k as int]@.message);
        }
        if let Some(ci) = extract_component_info(d.children[k].message.as_str()) {
            return Some(ci);
        }
        k += 1;
    }
    None
}

/// The consumer-interface name quoted by the first `Note` child that names
/// one.
#[verifier::loop_isolation(false)]
fn consumer_trait_of(d: &RawDiagnostic) -> (r: Option<String>)
    ensures
        opt_str(r) == spec_consumer_trait_from(d@.children, 0),
{
    let n = d.children.len();
    let mut k: usize = 0;
    while k < n
        invariant
            0 <= k <= n,
            spec_consumer_trait_from(d@.children, 0) == spec_consumer_trait_from(
                d@.children,
                k as int,
            ),
        decreases n - k,
    {
        let c = &d.children[k];
        proof {
            assert(d@.children[k as int] == d.children@[k as int]@);
        }
        if matches!(c.level, DiagnosticLevel::Note) {
            if let Some(t) = extract_consumer_trait(c.message.as_str()) {
                return Some(t);
            }
        }
        k += 1;
    }
    None
}

/// Every relationship fact announced by a `Note` child, in order.
#[verifier::loop_isolation(false)]
fn provider_rels_of(d: &RawDiagnostic) -> (r: Vec<ProviderRelationship>)
    ensures
        views_of(r@) == spec_provider_rels_from(d@.children, 0),
{
    let n = d.children.len();
    let mut out: Vec<ProviderRelationship> = Vec::new();
    let mut k: usize = 0;
    while k < n
        invariant
            0 <= k <= n,
            spec_provider_rels_from(d@.children, 0) =~= views_of(out@) + spec_provider_rels_from(
                d@.children,
                k as int,
            ),
        decreases n - k,
    {
        let c = &d.children[k];
        proof {
            assert(d@.children[k as int] == d.children@[k as int]@);
        }
        if matches!(c.level, DiagnosticLevel::Note) {
            if let Some(rel) = extract_provider_relationship(c.message.as_str()) {
                out.push(rel);
            }
        }
        proof {
            assert(spec_provider_rels_from(d@.children, 0) =~= views_of(out@)
                + spec_provider_rels_from(d@.children, k as int + 1));
        }
        k += 1;
    }
    proof {
        assert(views_of(out@) =~= views_of(out@) + spec_provider_rels_from(
            d@.children,
            n as int,
        ));
    }
    out
}

fn is_delegation_note_exec(m: &String) -> (r: bool)
    ensures
        r == is_delegation_note(m@),
{
    let v = to_char_vec(m.as_str());
    let p1 = to_char_vec("required for");
    let p2 = to_char_vec("to implement");
    contains_pat(&v, &p1) && contains_pat(&v, &p2)
}

/// Every delegation note carried by a `Note` child, in order.
#[verifier::loop_isolation(false)]
fn delegation_notes_of(d: &RawDiagnostic) -> (r: Vec<String>)
    ensures
        strs_of(r@) == spec_delegation_notes_from(d@.children, 0),
{
    let n = d.children.len();
    let mut out: Vec<String> = Vec::new();
    let mut k: usize = 0;
    while k < n
        invariant
            0 <= k <= n,
            spec_delegation_notes_from(d@.children, 0) =~= strs_of(out@)
                + spec_delegation_notes_from(d@.children, k as int),
        decreases n - k,
    {
        let c = &d.children[k];
        proof {
            assert(d@.children[k as int] == d.children@[k as int]@);
        }
        if matches!(c.level, DiagnosticLevel::Note) && is_delegation_note_exec(&c.message) {
            out.push(c.message.clone());
        }
        proof {
            assert(spec_delegation_notes_from(d@.children, 0) =~= strs_of(out@)
                + spec_delegation_notes_from(d@.children, k as int + 1));
        }
        k += 1;
    }
    proof {
        assert(strs_of(out@) =~= strs_of(out@) + spec_delegation_notes_from(
            d@.children,
            n as int,
        ));
    }
    out
}

/// Every primary span of the diagnostic, in order.
#[verifier::loop_isolation(false)]
fn primary_spans_of(d: &RawDiagnostic) -> (r: Vec<SpanInfo>)
    ensures
        views_of(r@) == spec_primary_spans_from(d@.spans, 0),
{
    let n = d.spans.len();
    let mut out: Vec<SpanInfo> = Vec::new();
    let mut k: usize = 0;
    while k < n
        invariant
            0 <= k <= n,
            spec_primary_spans_from(d@.spans, 0) =~= views_of(out@) + spec_primary_spans_from(
                d@.spans,
                k as int,
            ),
        decreases n - k,
    {
        let sp = &d.spans[k];
        proof {
            assert(d@.spans[k as int] == d.spans@[k as int]@);
        }
        if sp.is_primary {
            out.push(sp.clone());
        }
        proof {
            assert(spec_primary_spans_from(d@.spans, 0) =~= views_of(out@)
                + spec_primary_spans_from(d@.spans, k as int + 1));
        }
        k += 1;
    }
    proof {
        assert(views_of(out@) =~= views_of(out@) + spec_primary_spans_from(d@.spans, n as int));
    }
    out
}

/// Builds the entry for the first diagnostic at a new key.
fn create_entry(diagnostic: &RawDiagnostic) -> (r: DiagnosticEntry)
    ensures
        r@ == spec_create_entry(diagnostic@),
{
    let field_info = extract_field_info(diagnostic);
    let is_root_cause = field_info.is_some();
    let mut component_infos: Vec<ComponentInfo> = Vec::new();
    collect_components_into(diagnostic, &mut component_infos);
    let r = DiagnosticEntry {
        original: diagnostic.clone(),
        field_info,
        component_infos,
        consumer_trait: consumer_trait_of(diagnostic),
        provider_relationships: provider_rels_of(diagnostic),
        delegation_notes: delegation_notes_of(diagnostic),
        has_other_hasfield_impls: has_other_hasfield_implementations(diagnostic),
        primary_spans: primary_spans_of(diagnostic),
        error_code: clone_opt_string(&diagnostic.code),
        message: diagnostic.message.clone(),
        is_root_cause,
        suppressed: false,
    };
    proof {
        assert(views_of(Seq::<ComponentInfo>::empty()) =~= Seq::<ComponentInfoV>::empty());
        assert(r@ =~= spec_create_entry(diagnostic@));
    }
    r
}

/// Merges the facts of a later diagnostic into an existing entry.
#[verifier::loop_isolation(false)]
fn merge_entry(e: DiagnosticEntry, diagnostic: &RawDiagnostic) -> (r: DiagnosticEntry)
    ensures
        r@ == spec_merge_entry(e@, diagnostic@),
{
    let ghost e0 = e@;
    let DiagnosticEntry {
        original,
        field_info,
        component_infos,
        consumer_trait,
        provider_relationships,
        delegation_notes,
        has_other_hasfield_impls,
        primary_spans,
        error_code,
        message,
        is_root_cause,
        suppressed,
    } = e;
    let had_field = field_info.is_some();
    let (field_info, is_root_cause) = if had_field {
        (field_info, is_root_cause)
    } else {
        match extract_field_info(diagnostic) {
            Some(fi) => (Some(fi), true),
            None => (field_info, is_root_cause),
        }
    };
    let mut component_infos = component_infos;
    collect_components_into(diagnostic, &mut component_infos);
    let consumer_trait = if consumer_trait.is_some() {
        consumer_trait
    } else {
        consumer_trait_of(diagnostic)
    };
    let mut rels = provider_relationships;
    let new_rels = provider_rels_of(diagnostic);
    let mut k: usize = 0;
    while k < new_rels.len()
        invariant
            0 <= k <= new_rels.len(),
            spec_append_novel(e0.provider_relationships, views_of(new_rels@), 0)
                == spec_append_novel(views_of(rels@), views_of(new_rels@), k as int),
        decreases new_rels.len() - k,
    {
        proof {
            assert(views_of(new_rels@)[k as int] == new_rels@[k as int]@);
        }
        let mut present = false;
        let mut j: usize = 0;
        while j < rels.len()
            invariant
                0 <= j <= rels.len(),
                present == exists|t: int|
                    0 <= t < j && views_of(rels@)[t] == new_rels@[k as int]@,
            decreases rels.len() - j,
        {
            if rels[j].same_as(&new_rels[k]) {
                proof {
                    assert(views_of(rels@)[j as int] == new_rels@[k as int]@);
                }
                present = true;
            }
            j += 1;
        }
        if !present {
            let ghost prev = views_of(rels@);
            rels.push(new_rels[k].clone());
            proof {
                assert(views_of(rels@) =~= prev.push(new_rels@[k as int]@));
            }
        } else {
            proof {
                assert(views_of(rels@).contains(new_rels@[k as int]@));
            }
        }
        k += 1;
    }
    let mut notes = delegation_notes;
    let new_notes = delegation_notes_of(diagnostic);
    let mut k2: usize = 0;
    while k2 < new_notes.len()
        invariant
            0 <= k2 <= new_notes.len(),
            spec_append_novel(e0.delegation_notes, strs_of(new_notes@), 0) == spec_append_novel(
                strs_of(notes@),
                strs_of(new_notes@),
                k2 as int,
            ),
        decreases new_notes.len() - k2,
    {
        proof {
            assert(strs_of(new_notes@)[k2 as int] == new_notes@[k2 as int]@);
        }
        let mut present = false;
        let mut j: usize = 0;
        while j < notes.len()
            invariant
                0 <= j <= notes.len(),
                present == exists|t: int|
                    0 <= t < j && strs_of(notes@)[t] == new_notes@[k2 as int]@,
            decreases notes.len() - j,
        {
            if notes[j] == new_notes[k2] {
                proof {
                    assert(strs_of(notes@)[j as int] == new_notes@[k2 as int]@);
                }
                present = true;
            }
            j += 1;
        }
        if !present {
            let ghost prev = strs_of(notes@);
            notes.push(new_notes[k2].clone());
            proof {
                assert(strs_of(notes@) =~= prev.push(new_notes@[k2 as int]@));
            }
        } else {
            proof {
                assert(strs_of(notes@).contains(new_notes@[k2 as int]@));
            }
        }
        k2 += 1;
    }
    let has_other_hasfield_impls = has_other_hasfield_impls || has_other_hasfield_implementations(
        diagnostic,
    );
    let mut spans = primary_spans;
    let new_spans = primary_spans_of(diagnostic);
    let mut k3: usize = 0;
    while k3 < new_spans.len()
        invariant
            0 <= k3 <= new_spans.len(),
            spec_append_novel(e0.primary_spans, views_of(new_spans@), 0) == spec_append_novel(
                views_of(spans@),
                views_of(new_spans@),
                k3 as int,
            ),
        decreases new_spans.len() - k3,
    {
        proof {
            assert(views_of(new_spans@)[k3 as int] == new_spans@[k3 as int]@);
        }
        if !contains_span(&spans, &new_spans[k3]) {
            let ghost prev = views_of(spans@);
            spans.push(new_spans[k3].clone());
            proof {
                assert(views_of(spans@) =~= prev.push(new_spans@[k3 as int]@));
            }
        }
        k3 += 1;
    }
    let error_code = if error_code.is_some() {
        error_code
    } else {
        clone_opt_string(&diagnostic.code)
    };
    let r = DiagnosticEntry {
        original,
        field_info,
        component_infos,
        consumer_trait,
        provider_relationships: rels,
        delegation_notes: notes,
        has_other_hasfield_impls,
        primary_spans: spans,
        error_code,
        message,
        is_root_cause,
        suppressed,
    };
    proof {
        assert(r@ =~= spec_merge_entry(e0, diagnostic@));
    }
    r
}

/// Whether every relationship of `a` also stands in `b`.
#[verifier::loop_isolation(false)]
fn rels_subset(a: &Vec<ProviderRelationship>, b: &Vec<ProviderRelationship>) -> (r: bool)
    ensures
        r == (forall|t: int|
            0 <= t < views_of(a@).len() ==> views_of(b@).contains(#[trigger] views_of(a@)[t])),
{
    let na = a.len();
    let mut t: usize = 0;
    while t < na
        invariant
            0 <= t <= na,
            na == a@.len(),
            forall|u: int| 0 <= u < t ==> views_of(b@).contains(#[trigger] views_of(a@)[u]),
        decreases na - t,
    {
        proof {
            assert(views_of(a@)[t as int] == a@[t as int]@);
        }
        let mut found = false;
        let mut j: usize = 0;
        while j < b.len()
            invariant
                0 <= j <= b.len(),
                t < na,
                found == exists|w: int|
                    0 <= w < j && #[trigger] views_of(b@)[w] == views_of(a@)[t as int],
            decreases b.len() - j,
        {
            proof {
                assert(views_of(b@)[j as int] == b@[j as int]@);
            }
            if b[j].same_as(&a[t]) {
                found = true;
            }
            j += 1;
        }
        proof {
            assert(found == views_of(b@).contains(views_of(a@)[t as int]));
        }
        if !found {
            return false;
        }
        t += 1;
    }
    true
}

/// Whether every note of `a` also stands in `b`.
#[verifier::loop_isolation(false)]
fn notes_subset(a: &Vec<String>, b: &Vec<String>) -> (r: bool)
    ensures
        r == (forall|t: int|
            0 <= t < strs_of(a@).len() ==> strs_of(b@).contains(#[trigger] strs_of(a@)[t])),
{
    let na = a.len();
    let mut t: usize = 0;
    while t < na
        invariant
            0 <= t <= na,
            na == a@.len(),
            forall|u: int| 0 <= u < t ==> strs_of(b@).contains(#[trigger] strs_of(a@)[u]),
        decreases na - t,
    {
        proof {
            assert(strs_of(a@)[t as int] == a@[t as int]@);
        }
        let mut found = false;
        let mut j: usize = 0;
        while j < b.len()
            invariant
                0 <= j <= b.len(),
                t < na,
                found == exists|w: int|
                    0 <= w < j && #[trigger] strs_of(b@)[w] == strs_of(a@)[t as int],
            decreases b.len() - j,
        {
            proof {
                assert(strs_of(b@)[j as int] == b@[j as int]@);
            }
            if b[j] == a[t] {
                found = true;
            }
            j += 1;
        }
        proof {
            assert(found == strs_of(b@).contains(strs_of(a@)[t as int]));
        }
        if !found {
            return false;
        }
        t += 1;
    }
    true
}

/// The database of merged entries, keyed by grouping key.
#[derive(Debug)]
pub struct DiagnosticDatabase {
    entries: Vec<(DiagnosticKey, DiagnosticEntry)>,
}

impl View for DiagnosticDatabase {
    type V = Seq<(DiagnosticKeyV, DiagnosticEntryV)>;

    closed spec fn view(&self) -> Seq<(DiagnosticKeyV, DiagnosticEntryV)> {
        Seq::new(self.entries@.len(), |i: int| (self.entries@[i].0@, self.entries@[i].1@))
    }
}

/// The index of the entry stored under `key`, scanning from `k`.
pub open spec fn spec_db_find(
    entries: Seq<(DiagnosticKeyV, DiagnosticEntryV)>,
    key: DiagnosticKeyV,
    k: int,
) -> Option<int>
    decreases entries.len() - k,
    when 0 <= k <= entries.len()
{
    if k >= entries.len() {
        None
    } else if entries[k].0 == key {
        Some(k)
    } else {
        spec_db_find(entries, key, k + 1)
    }
}

/// No two entries share a grouping key.
pub open spec fn spec_db_wf(entries: Seq<(DiagnosticKeyV, DiagnosticEntryV)>) -> bool {
    forall|i: int, j: int|
        0 <= i < j < entries.len() ==> (#[trigger] entries[i]).0 != (#[trigger] entries[j]).0
}

proof fn lemma_db_find_none(
    entries: Seq<(DiagnosticKeyV, DiagnosticEntryV)>,
    key: DiagnosticKeyV,
    k: int,
)
    requires
        0 <= k <= entries.len(),
        spec_db_find(entries, key, k) is None,
    ensures
        forall|i: int| k <= i < entries.len() ==> (#[trigger] entries[i]).0 != key,
    decreases entries.len() - k,
{
    if k < entries.len() {
        lemma_db_find_none(entries, key, k + 1);
    }
}

proof fn lemma_db_find_some(
    entries: Seq<(DiagnosticKeyV, DiagnosticEntryV)>,
    key: DiagnosticKeyV,
    k: int,
)
    requires
        0 <= k <= entries.len(),
        spec_db_find(entries, key, k) is Some,
    ensures
        spec_db_find(entries, key, k) matches Some(i) && k <= i < entries.len() && entries[i].0
            == key,
    decreases entries.len() - k,
{
    if k < entries.len() && entries[k].0 != key {
        lemma_db_find_some(entries, key, k + 1);
    }
}

/// Every relationship and delegation fact of `g` also stands in `f`: `g`
/// adds no unique information beyond `f`.
pub open spec fn spec_entry_subsumed_by(g: DiagnosticEntryV, f: DiagnosticEntryV) -> bool {
    (forall|t: int|
        0 <= t < g.provider_relationships.len() ==> f.provider_relationships.contains(
            #[trigger] g.provider_relationships[t],
        )) && (forall|t: int|
        0 <= t < g.delegation_notes.len() ==> f.delegation_notes.contains(
            #[trigger] g.delegation_notes[t],
        ))
}

/// Whether one entry should be suppressed: it carries no field fact, and
/// some field-bearing entry at the same location already holds every
/// relationship and delegation fact it has, so it adds no unique
/// information.
pub open spec fn spec_suppress_cond(
    entries: Seq<(DiagnosticKeyV, DiagnosticEntryV)>,
    i: int,
) -> bool {
    let e = entries[i].1;
    e.field_info is None && (exists|j: int|
        0 <= j < entries.len() && (#[trigger] entries[j]).0.location == entries[i].0.location
            && entries[j].1.field_info is Some && spec_entry_subsumed_by(e, entries[j].1))
}

/// The entry with its suppressed flag replaced.
pub open spec fn spec_with_suppressed(e: DiagnosticEntryV, s: bool) -> DiagnosticEntryV {
    DiagnosticEntryV { suppressed: s, ..e }
}

/// The non-suppressed entries, in key order, scanning from `k`.
pub open spec fn spec_active_from(
    entries: Seq<(DiagnosticKeyV, DiagnosticEntryV)>,
    k: int,
) -> Seq<DiagnosticEntryV>
    decreases entries.len() - k,
    when 0 <= k <= entries.len()
{
    if k >= entries.len() {
        Seq::empty()
    } else if !entries[k].1.suppressed {
        seq![entries[k].1] + spec_active_from(entries, k + 1)
    } else {
        spec_active_from(entries, k + 1)
    }
}

/// All entries, in key order, scanning from `k`.
pub open spec fn spec_all_from(
    entries: Seq<(DiagnosticKeyV, DiagnosticEntryV)>,
    k: int,
) -> Seq<DiagnosticEntryV>
    decreases entries.len() - k,
    when 0 <= k <= entries.len()
{
    if k >= entries.len() {
        Seq::empty()
    } else {
        seq![entries[k].1] + spec_all_from(entries, k + 1)
    }
}

impl DiagnosticDatabase {
    /// An empty database.
    pub fn new() -> (r: Self)
        ensures
            r@ == Seq::<(DiagnosticKeyV, DiagnosticEntryV)>::empty(),
            spec_db_wf(r@),
    {
        let r = DiagnosticDatabase { entries: Vec::new() };
        proof {
            assert(r@ =~= Seq::<(DiagnosticKeyV, DiagnosticEntryV)>::empty());
        }
        r
    }

    /// Absorbs one raw diagnostic.  A record without a primary span cannot
    /// be grouped and is dropped; otherwise the record is merged into the
    /// entry at its grouping key, or opens a new entry there.
    #[verifier::loop_isolation(false)]
    pub fn add_diagnostic(&mut self, diagnostic: &RawDiagnostic)
        requires
            spec_db_wf(old(self)@),
        ensures
            spec_db_wf(final(self)@),
            match spec_first_primary(diagnostic@) {
                None => final(self)@ == old(self)@,
                Some(sp) => {
                    let key = spec_key_of(diagnostic@, sp);
                    match spec_db_find(old(self)@, key, 0) {
                        Some(i) => final(self)@ == old(self)@.update(
                            i,
                            (key, spec_merge_entry(old(self)@[i].1, diagnostic@)),
                        ),
                        None => final(self)@ == old(self)@.push(
                            (key, spec_create_entry(diagnostic@)),
                        ),
                    }
                },
            },
    {
        let nspans = diagnostic.spans.len();
        let mut si: usize = 0;
        let mut primary_idx: Option<usize> = None;
        while si < nspans
            invariant
                0 <= si <= nspans,
                primary_idx is None,
                spec_first_primary_from(diagnostic@.spans, 0) == spec_first_primary_from(
                    diagnostic@.spans,
                    si as int,
                ),
            decreases nspans - si,
        {
            proof {
                assert(diagnostic@.spans[si as int] == diagnostic.spans@[si as int]@);
            }
            if diagnostic.spans[si].is_primary {
                primary_idx = Some(si);
                break;
            }
            si += 1;
        }
        let pidx = match primary_idx {
            Some(i) => i,
            None => {
                return;
            },
        };
        proof {
            assert(spec_first_primary(diagnostic@) == Some(diagnostic@.spans[pidx as int]));
        }
        let location = SourceLocation::from_span(&diagnostic.spans[pidx]);
        let component = match key_component(diagnostic) {
            Some(ci) => Some(ci.component_type),
            None => None,
        };
        let key = DiagnosticKey { location, component };
        let ghost sp = diagnostic@.spans[pidx as int];
        proof {
            assert(key@ =~= spec_key_of(diagnostic@, sp));
        }
        let n = self.entries.len();
        let mut idx: Option<usize> = None;
        let mut j: usize = 0;
        while j < n
            invariant
                0 <= j <= n,
                idx is None,
                n == self@.len(),
                spec_db_find(self@, key@, 0) == spec_db_find(self@, key@, j as int),
            decreases n - j,
        {
            proof {
                assert(self@[j as int].0 == self.entries@[j as int].0@);
            }
            if self.entries[j].0.same_as(&key) {
                idx = Some(j);
                break;
            }
            j += 1;
        }
        let ghost pre = self@;
        match idx {
            Some(i) => {
                proof {
                    lemma_db_find_some(pre, key@, 0);
                }
                let (k0, e0) = self.entries.remove(i);
                let merged = merge_entry(e0, diagnostic);
                self.entries.insert(i, (k0, merged));
                proof {
                    assert(final(self)@ =~= pre.update(
                        i as int,
                        (key@, spec_merge_entry(pre[i as int].1, diagnostic@)),
                    ));
                    assert(spec_db_wf(final(self)@));
                }
            },
            None => {
                let entry = create_entry(diagnostic);
                self.entries.push((key, entry));
                proof {
                    lemma_db_find_none(pre, key@, 0);
                    assert(final(self)@ =~= pre.push(
                        (key@, spec_create_entry(diagnostic@)),
                    ));
                    assert(spec_db_wf(final(self)@));
                }
            },
        }
    }

    /// Marks as suppressed every entry that is redundant once the whole
    /// stream has been consumed: a capability-level entry whose location
    /// also carries a field-specific entry, unless it adds a relationship
    /// or delegation fact absent from that entry.  Suppressed entries stay
    /// in the database.
    #[verifier::loop_isolation(false)]
    pub fn deduplicate(&mut self)
        ensures
            final(self)@.len() == old(self)@.len(),
            forall|i: int|
                0 <= i < old(self)@.len() ==> (#[trigger] final(self)@[i]).0 == old(self)@[i].0
                    && final(self)@[i].1 == spec_with_suppressed(
                    old(self)@[i].1,
                    old(self)@[i].1.suppressed || spec_suppress_cond(old(self)@, i),
                ),
            spec_db_wf(old(self)@) ==> spec_db_wf(final(self)@),
    {
        let ghost pre = self@;
        let n = self.entries.len();
        let mut out: Vec<(DiagnosticKey, DiagnosticEntry)> = Vec::new();
        let mut i: usize = 0;
        while i < n
            invariant
                0 <= i <= n,
                n == pre.len(),
                self@ == pre,
                out@.len() == i,
                forall|t: int|
                    0 <= t < i ==> (#[trigger] out@[t]).0@ == pre[t].0 && out@[t].1@
                        == spec_with_suppressed(
                        pre[t].1,
                        pre[t].1.suppressed || spec_suppress_cond(pre, t),
                    ),
            decreases n - i,
        {
            let e = &self.entries[i].1;
            let mut subsumed = false;
            let mut j: usize = 0;
            while j < n
                invariant
                    0 <= j <= n,
                    n == pre.len(),
                    self@ == pre,
                    subsumed == exists|t: int|
                        0 <= t < j && (#[trigger] pre[t]).0.location == pre[i as int].0.location
                            && pre[t].1.field_info is Some && spec_entry_subsumed_by(
                            pre[i as int].1,
                            pre[t].1,
                        ),
                decreases n - j,
            {
                proof {
                    assert(pre[j as int].0 == self.entries@[j as int].0@);
                    assert(pre[j as int].1 == self.entries@[j as int].1@);
                    assert(pre[i as int].1 == self.entries@[i as int].1@);
                }
                let other = &self.entries[j];
                let loc_eq = other.0.location.file == self.entries[i].0.location.file
                    && other.0.location.line == self.entries[i].0.location.line
                    && other.0.location.column == self.entries[i].0.location.column;
                if loc_eq && other.1.field_info.is_some() {
                    let rels_ok = rels_subset(
                        &self.entries[i].1.provider_relationships,
                        &other.1.provider_relationships,
                    );
                    let notes_ok = notes_subset(
                        &self.entries[i].1.delegation_notes,
                        &other.1.delegation_notes,
                    );
                    if rels_ok && notes_ok {
                        proof {
                            assert(pre[j as int].0.location =~= pre[i as int].0.location);
                            assert(spec_entry_subsumed_by(pre[i as int].1, pre[j as int].1));
                        }
                        subsumed = true;
                    }
                }
                j += 1;
            }
            let suppress_now = e.field_info.is_none() && subsumed;
            proof {
                assert(suppress_now == spec_suppress_cond(pre, i as int));
            }
            let mut entry = self.entries[i].1.clone();
            let new_flag = entry.suppressed || suppress_now;
            entry.suppressed = new_flag;
            let key = self.entries[i].0.clone();
            proof {
                assert(key@ == pre[i as int].0);
                assert(entry@ =~= spec_with_suppressed(
                    pre[i as int].1,
                    pre[i as int].1.suppressed || spec_suppress_cond(pre, i as int),
                ));
            }
            out.push((key, entry));
            i += 1;
        }
        self.entries = out;
    }

    /// The non-suppressed entries, in stable key order.
    #[verifier::loop_isolation(false)]
    pub fn get_active_entries(&self) -> (r: Vec<DiagnosticEntry>)
        ensures
            views_of(r@) == spec_active_from(self@, 0),
    {
        let n = self.entries.len();
        let mut out: Vec<DiagnosticEntry> = Vec::new();
        let mut i: usize = 0;
        while i < n
            invariant
                0 <= i <= n,
                n == self@.len(),
                spec_active_from(self@, 0) =~= views_of(out@) + spec_active_from(
                    self@,
                    i as int,
                ),
            decreases n - i,
        {
            proof {
                assert(self@[i as int].1 == self.entries@[i as int].1@);
            }
            if !self.entries[i].1.suppressed {
                let ghost prev = views_of(out@);
                out.push(self.entries[i].1.clone());
                proof {
                    assert(views_of(out@) =~= prev.push(self@[i as int].1));
                }
            }
            proof {
                assert(spec_active_from(self@, 0) =~= views_of(out@) + spec_active_from(
                    self@,
                    i as int + 1,
                ));
            }
            i += 1;
        }
        proof {
            assert(views_of(out@) =~= views_of(out@) + spec_active_from(self@, n as int));
        }
        out
    }

    /// All entries, suppressed ones included, in stable key order.
    #[verifier::loop_isolation(false)]
    pub fn get_all_entries(&self) -> (r: Vec<DiagnosticEntry>)
        ensures
            views_of(r@) == spec_all_from(self@, 0),
            r@.len() == self@.len(),
    {
        let n = self.entries.len();
        let mut out: Vec<DiagnosticEntry> = Vec::new();
        let mut i: usize = 0;
        while i < n
            invariant
                0 <= i <= n,
                n == self@.len(),
                out@.len() == i,
                spec_all_from(self@, 0) =~= views_of(out@) + spec_all_from(self@, i as int),
            decreases n - i,
        {
            proof {
                assert(self@[i as int].1 == self.entries@[i as int].1@);
            }
            let ghost prev = views_of(out@);
            out.push(self.entries[i].1.clone());
            proof {
                assert(views_of(out@) =~= prev.push(self@[i as int].1));
                assert(spec_all_from(self@, 0) =~= views_of(out@) + spec_all_from(
                    self@,
                    i as int + 1,
                ));
            }
            i += 1;
        }
        proof {
            assert(views_of(out@) =~= views_of(out@) + spec_all_from(self@, n as int));
        }
        out
    }
}

} // verus!
