//! A self-contained renderer for single compiler diagnostics: classifies a
//! record as framework-related, extracts its metadata, and re-renders it as
//! one annotated text block without consulting the database.

use vstd::prelude::*;
use vstd::string::*;
use crate::cgp_patterns::{collect_chars_from, spec_extract_type_not_implemented};
use crate::raw_diagnostic::{ChildNoteV, DiagnosticLevel, RawDiagnostic, RawDiagnosticV};
use crate::text::{
    chars_to_string, close_from, close_pos, contains_pat, contains_sub, dec_chars, find_char_at,
    find_char_from, find_from, find_pat, find_pat_from, find_sub, last_path_segment,
    last_path_segment_exec, match_at, opt_str, opt_view, parse_usize_spec, strs_of, subvec,
    to_char_vec, trim_chars, trim_spec, usize_to_chars, views_of,
};

verus! {

/// Framework metadata recognized in one diagnostic.
#[derive(Debug)]
pub struct CgpErrorMetadata {
    pub component: Option<String>,
    pub context: Option<String>,
    pub provider_trait: Option<String>,
    pub consumer_trait: Option<String>,
    pub is_provider_trait_error: bool,
    pub has_missing_field: bool,
}

/// Ghost view of the recognized metadata.
#[verifier::ext_equal]
pub struct CgpErrorMetadataV {
    pub component: Option<Seq<char>>,
    pub context: Option<Seq<char>>,
    pub provider_trait: Option<Seq<char>>,
    pub consumer_trait: Option<Seq<char>>,
    pub is_provider_trait_error: bool,
    pub has_missing_field: bool,
}

impl View for CgpErrorMetadata {
    type V = CgpErrorMetadataV;

    open spec fn view(&self) -> CgpErrorMetadataV {
        CgpErrorMetadataV {
            component: opt_str(self.component),
            context: opt_str(self.context),
            provider_trait: opt_str(self.provider_trait),
            consumer_trait: opt_str(self.consumer_trait),
            is_provider_trait_error: self.is_provider_trait_error,
            has_missing_field: self.has_missing_field,
        }
    }
}

/// The provider interface named by an "is implemented for" hint with a
/// placeholder context.
pub open spec fn spec_trait_from_context_pattern(s: Seq<char>) -> Option<Seq<char>> {
    match find_sub(s, "the trait `"@) {
        Some(st) => {
            let a = st + "the trait `"@.len();
            match find_char_from(s, '<', a) {
                Some(lt) => Some(last_path_segment(s.subrange(a, lt))),
                None => None,
            }
        },
        None => None,
    }
}

fn extract_provider_trait_from_context_pattern(message: &String) -> (r: Option<String>)
    ensures
        opt_str(r) == spec_trait_from_context_pattern(message@),
{
    let text = to_char_vec(message.as_str());
    let n = text.len();
    let pat = to_char_vec("the trait `");
    match find_pat(&text, &pat) {
        Some(st) => {
            let a = st + pat.len();
            match find_char_at(&text, '<', a) {
                Some(lt) => {
                    let part = subvec(&text, a, lt);
                    let seg = last_path_segment_exec(&part);
                    Some(chars_to_string(&seg))
                },
                None => None,
            }
        },
        None => None,
    }
}

/// The capability named by a capability-check marker, as raw text; a
/// truncated marker yields the empty name.
pub open spec fn spec_component_from_can_use(s: Seq<char>) -> Option<Seq<char>> {
    match find_sub(s, "CanUseComponent<"@) {
        Some(st) => {
            let a = st + "CanUseComponent<"@.len();
            match close_from(s, a, 1) {
                Some(e) => Some(trim_spec(s.subrange(a, e))),
                None => Some(Seq::empty()),
            }
        },
        None => None,
    }
}

fn extract_component_from_can_use(message: &String) -> (r: Option<String>)
    ensures
        opt_str(r) == spec_component_from_can_use(message@),
{
    let text = to_char_vec(message.as_str());
    let n = text.len();
    let pat = to_char_vec("CanUseComponent<");
    match find_pat(&text, &pat) {
        Some(st) => {
            let a = st + pat.len();
            match close_pos(&text, a) {
                Some(e) => {
                    let part = subvec(&text, a, e);
                    let trimmed = trim_chars(&part);
                    Some(chars_to_string(&trimmed))
                },
                None => {
                    let empty = String::new();
                    Some(empty)
                },
            }
        },
        None => None,
    }
}

/// The interface quoted by a "required by a bound in" note.
pub open spec fn spec_consumer_trait_from_bound(s: Seq<char>) -> Option<Seq<char>> {
    match find_sub(s, "required by a bound in `"@) {
        Some(st) => {
            let a = st + "required by a bound in `"@.len();
            match find_char_from(s, '`', a) {
                Some(e) => Some(s.subrange(a, e)),
                None => None,
            }
        },
        None => None,
    }
}

fn extract_consumer_trait_from_bound(message: &String) -> (r: Option<String>)
    ensures
        opt_str(r) == spec_consumer_trait_from_bound(message@),
{
    let text = to_char_vec(message.as_str());
    let pat = to_char_vec("required by a bound in `");
    let n = text.len();
    match find_pat(&text, &pat) {
        Some(st) => {
            let a = st + pat.len();
            match find_char_at(&text, '`', a) {
                Some(e) => {
                    let part = subvec(&text, a, e);
                    Some(chars_to_string(&part))
                },
                None => None,
            }
        },
        None => None,
    }
}

/// A trailing punctuation character stripped from a capability word.
pub open spec fn comp_trail(c: char) -> bool {
    c == ',' || c == '>' || c == '`' || c == ')'
}

/// A leading punctuation character stripped from a capability word.
pub open spec fn comp_lead(c: char) -> bool {
    c == '`' || c == '('
}

/// The word with trailing capability punctuation removed.
pub open spec fn trim_comp_back(s: Seq<char>) -> Seq<char>
    decreases s.len(),
{
    if s.len() > 0 && comp_trail(s[s.len() - 1]) {
        trim_comp_back(s.subrange(0, s.len() - 1))
    } else {
        s
    }
}

/// The word with leading capability punctuation removed.
pub open spec fn trim_comp_front(s: Seq<char>) -> Seq<char>
    decreases s.len(),
{
    if s.len() > 0 && comp_lead(s[0]) {
        trim_comp_front(s.subrange(1, s.len() as int))
    } else {
        s
    }
}

proof fn lemma_trim_comp_back_at(s: Seq<char>, hi: int)
    requires
        0 <= hi <= s.len(),
        forall|k: int| hi <= k < s.len() ==> comp_trail(s[k]),
        hi == 0 || !comp_trail(s[hi - 1]),
    ensures
        trim_comp_back(s) == s.subrange(0, hi),
    decreases s.len() - hi,
{
    if hi == s.len() {
        assert(s.subrange(0, s.len() as int) =~= s);
    } else {
        let s1 = s.subrange(0, s.len() - 1);
        lemma_trim_comp_back_at(s1, hi);
        assert(s1.subrange(0, hi) =~= s.subrange(0, hi));
    }
}

proof fn lemma_trim_comp_front_at(s: Seq<char>, lo: int)
    requires
        0 <= lo <= s.len(),
        forall|k: int| 0 <= k < lo ==> comp_lead(s[k]),
        lo == s.len() || !comp_lead(s[lo]),
    ensures
        trim_comp_front(s) == s.subrange(lo, s.len() as int),
    decreases lo,
{
    if lo == 0 {
        assert(s.subrange(0, s.len() as int) =~= s);
    } else {
        let s1 = s.subrange(1, s.len() as int);
        lemma_trim_comp_front_at(s1, lo - 1);
        assert(s1.subrange(lo - 1, s1.len() as int) =~= s.subrange(lo, s.len() as int));
    }
}

fn comp_trail_exec(c: char) -> (r: bool)
    ensures
        r == comp_trail(c),
{
    c == ',' || c == '>' || c == '`' || c == ')'
}

fn comp_lead_exec(c: char) -> (r: bool)
    ensures
        r == comp_lead(c),
{
    c == '`' || c == '('
}

#[verifier::loop_isolation(false)]
fn clean_component_word(w: &Vec<char>) -> (r: Vec<char>)
    ensures
        r@ == trim_comp_front(trim_comp_back(w@)),
{
    let n = w.len();
    let mut hi: usize = n;
    while hi > 0 && comp_trail_exec(w[hi - 1])
        invariant
            0 <= hi <= n,
            forall|k: int| hi <= k < n ==> comp_trail(w@[k]),
        decreases hi,
    {
        hi -= 1;
    }
    proof {
        lemma_trim_comp_back_at(w@, hi as int);
    }
    let back = subvec(w, 0, hi);
    let m = back.len();
    let mut lo: usize = 0;
    while lo < m && comp_lead_exec(back[lo])
        invariant
            0 <= lo <= m,
            forall|k: int| 0 <= k < lo ==> comp_lead(back@[k]),
        decreases m - lo,
    {
        lo += 1;
    }
    proof {
        lemma_trim_comp_front_at(back@, lo as int);
    }
    subvec(&back, lo, m)
}

/// Whether a word names a capability: it ends with the conventional suffix,
/// possibly followed by one closing punctuation character.
pub open spec fn word_names_component(w: Seq<char>) -> bool {
    (w.len() >= "Component"@.len() && match_at(w, "Component"@, w.len() - "Component"@.len()))
        || (w.len() >= "Component>"@.len() && match_at(
        w,
        "Component>"@,
        w.len() - "Component>"@.len(),
    )) || (w.len() >= "Component,"@.len() && match_at(
        w,
        "Component,"@,
        w.len() - "Component,"@.len(),
    ))
}

/// The first capability word of the message, cleaned of punctuation.
pub open spec fn spec_component_from_message_words(s: Seq<char>, i: int) -> Option<Seq<char>>
    decreases s.len() - i,
    when 0 <= i <= s.len()
    via spec_component_from_message_words_dec
{
    let a = crate::text::skip_ws_spec(s, i);
    if a >= s.len() {
        None
    } else {
        let b = crate::text::skip_word_spec(s, a);
        let w = s.subrange(a, b);
        if word_names_component(w) {
            Some(trim_comp_front(trim_comp_back(w)))
        } else {
            spec_component_from_message_words(s, b)
        }
    }
}

#[via_fn]
proof fn spec_component_from_message_words_dec(s: Seq<char>, i: int) {
    crate::text::lemma_skip_ws_bounds(s, i);
    let a = crate::text::skip_ws_spec(s, i);
    if a < s.len() {
        crate::cgp_patterns::lemma_skip_ws_stops(s, i);
        assert(crate::text::skip_word_spec(s, a) == crate::text::skip_word_spec(s, a + 1));
        crate::text::lemma_skip_word_bounds(s, a + 1);
    }
}

/// Extracts a capability name from the main message by its word shape.
#[verifier::loop_isolation(false)]
fn extract_component_from_message(message: &String) -> (r: Option<String>)
    ensures
        opt_str(r) == spec_component_from_message_words(message@, 0),
{
    let text = to_char_vec(message.as_str());
    let n = text.len();
    let p1 = to_char_vec("Component");
    let p2 = to_char_vec("Component>");
    let p3 = to_char_vec("Component,");
    let mut i: usize = 0;
    loop
        invariant
            0 <= i <= n,
            p1@ == "Component"@,
            p2@ == "Component>"@,
            p3@ == "Component,"@,
            spec_component_from_message_words(text@, 0) == spec_component_from_message_words(
                text@,
                i as int,
            ),
        decreases n - i,
    {
        let a = crate::text::skip_ws_exec(&text, i);
        if a >= n {
            return None;
        }
        let b = crate::text::skip_word_exec(&text, a);
        proof {
            crate::cgp_patterns::lemma_skip_ws_stops(text@, i as int);
            assert(crate::text::skip_word_spec(text@, a as int) == crate::text::skip_word_spec(
                text@,
                a as int + 1,
            ));
            crate::text::lemma_skip_word_bounds(text@, a as int + 1);
        }
        let w = subvec(&text, a, b);
        if crate::text::ends_with_pat(&w, &p1) || crate::text::ends_with_pat(&w, &p2)
            || crate::text::ends_with_pat(&w, &p3) {
            let clean = clean_component_word(&w);
            return Some(chars_to_string(&clean));
        }
        i = b;
    }
}

/// Whether a message mentions one of the marker tokens this renderer
/// recognizes.
pub open spec fn rcm_cgp_text(s: Seq<char>) -> bool {
    contains_sub(s, "CanUseComponent"@) || contains_sub(s, "IsProviderFor"@) || contains_sub(
        s,
        "HasField"@,
    ) || contains_sub(s, "HasRectangleFields"@) || contains_sub(s, "cgp_impl"@) || contains_sub(
        s,
        "cgp_component"@,
    ) || contains_sub(s, "delegate_components"@) || contains_sub(s, "check_components"@)
}

/// Whether the diagnostic is framework-related: a marker in the message or
/// a child, or a relationship marker in an informational child.
pub open spec fn spec_is_cgp_error(d: RawDiagnosticV) -> bool {
    rcm_cgp_text(d.message) || (exists|k: int|
        0 <= k < d.children.len() && rcm_cgp_text(#[trigger] d.children[k].message)) || (exists|
        k: int,
    |
        0 <= k < d.children.len() && ((#[trigger] d.children[k]).level == DiagnosticLevel::Note
            || d.children[k].level == DiagnosticLevel::Help) && contains_sub(
            d.children[k].message,
            "IsProviderFor"@,
        ))
}

fn rcm_cgp_text_exec(m: &String) -> (r: bool)
    ensures
        r == rcm_cgp_text(m@),
{
    let v = to_char_vec(m.as_str());
    let p1 = to_char_vec("CanUseComponent");
    let p2 = to_char_vec("IsProviderFor");
    let p3 = to_char_vec("HasField");
    let p4 = to_char_vec("HasRectangleFields");
    let p5 = to_char_vec("cgp_impl");
    let p6 = to_char_vec("cgp_component");
    let p7 = to_char_vec("delegate_components");
    let p8 = to_char_vec("check_components");
    contains_pat(&v, &p1) || contains_pat(&v, &p2) || contains_pat(&v, &p3) || contains_pat(
        &v,
        &p4,
    ) || contains_pat(&v, &p5) || contains_pat(&v, &p6) || contains_pat(&v, &p7) || contains_pat(
        &v,
        &p8,
    )
}

#[verifier::loop_isolation(false)]
fn is_cgp_error(diagnostic: &RawDiagnostic) -> (r: bool)
    ensures
        r == spec_is_cgp_error(diagnostic@),
{
    if rcm_cgp_text_exec(&diagnostic.message) {
        return true;
    }
    let n = diagnostic.children.len();
    let ipf = to_char_vec("IsProviderFor");
    let mut k: usize = 0;
    while k < n
        invariant
            0 <= k <= n,
            n == diagnostic.children@.len(),
            ipf@ == "IsProviderFor"@,
            forall|j: int|
                0 <= j < k ==> !rcm_cgp_text((#[trigger] diagnostic@.children[j]).message) && !((
                diagnostic@.children[j].level == DiagnosticLevel::Note
                    || diagnostic@.children[j].level == DiagnosticLevel::Help) && contains_sub(
                    diagnostic@.children[j].message,
                    "IsProviderFor"@,
                )),
        decreases n - k,
    {
        let c = &diagnostic.children[k];
        proof {
            assert(diagnostic@.children[k as int] == diagnostic.children@[k as int]@);
        }
        if rcm_cgp_text_exec(&c.message) {
            proof {
                assert(rcm_cgp_text(diagnostic@.children[k as int].message));
            }
            return true;
        }
        if matches!(c.level, DiagnosticLevel::Note) || matches!(c.level, DiagnosticLevel::Help) {
            let v = to_char_vec(c.message.as_str());
            if contains_pat(&v, &ipf) {
                proof {
                    assert((diagnostic@.children[k as int].level == DiagnosticLevel::Note
                        || diagnostic@.children[k as int].level == DiagnosticLevel::Help)
                        && contains_sub(
                        diagnostic@.children[k as int].message,
                        "IsProviderFor"@,
                    ));
                }
                return true;
            }
        }
        k += 1;
    }
    false
}

/// A provider fact as this renderer parses it from a relationship note.
#[derive(Debug)]
pub struct ProviderInfo {
    pub provider_type: String,
    pub component: String,
    pub context: String,
}

/// Ghost view of a parsed provider fact.
#[verifier::ext_equal]
pub struct ProviderInfoV {
    pub provider_type: Seq<char>,
    pub component: Seq<char>,
    pub context: Seq<char>,
}

impl View for ProviderInfo {
    type V = ProviderInfoV;

    open spec fn view(&self) -> ProviderInfoV {
        ProviderInfoV {
            provider_type: self.provider_type@,
            component: self.component@,
            context: self.context@,
        }
    }
}

impl Clone for ProviderInfo {
    fn clone(&self) -> (r: Self)
        ensures
            r == *self,
    {
        ProviderInfo {
            provider_type: self.provider_type.clone(),
            component: self.component.clone(),
            context: self.context.clone(),
        }
    }
}

/// The provider fact announced by a relationship note, parsed with the
/// renderer's plain scanning: the provider between backticks, the
/// capability up to the first comma, and the bracketed context.
pub open spec fn spec_parse_provider_info(s: Seq<char>) -> Option<ProviderInfoV> {
    if !contains_sub(s, "IsProviderFor"@) {
        None
    } else {
        match find_sub(s, "for `"@) {
            None => None,
            Some(st) => {
                let a = st + "for `"@.len();
                match find_char_from(s, '`', a) {
                    None => None,
                    Some(e) => {
                        let pt = s.subrange(a, e);
                        match find_sub(s, "IsProviderFor<"@) {
                            None => None,
                            Some(ip) => {
                                let b = ip + "IsProviderFor<"@.len();
                                match find_char_from(s, ',', b) {
                                    None => None,
                                    Some(cm) => {
                                        let comp = trim_spec(s.subrange(b, cm));
                                        let ac = s.subrange(cm + 1, s.len() as int);
                                        let ctx = match close_from(ac, 0, 1) {
                                            Some(ce) => trim_spec(ac.subrange(0, ce)),
                                            None => Seq::empty(),
                                        };
                                        Some(
                                            ProviderInfoV {
                                                provider_type: pt,
                                                component: comp,
                                                context: ctx,
                                            },
                                        )
                                    },
                                }
                            },
                        }
                    },
                }
            },
        }
    }
}

fn parse_provider_info(message: &String) -> (r: Option<ProviderInfo>)
    ensures
        opt_view(r) == spec_parse_provider_info(message@),
{
    let text = to_char_vec(message.as_str());
    let n = text.len();
    let probe = to_char_vec("IsProviderFor");
    if !contains_pat(&text, &probe) {
        return None;
    }
    let pat = to_char_vec("for `");
    match find_pat(&text, &pat) {
        None => None,
        Some(st) => {
            let a = st + pat.len();
            match find_char_at(&text, '`', a) {
                None => None,
                Some(e) => {
                    let pt = subvec(&text, a, e);
                    let ipf = to_char_vec("IsProviderFor<");
                    match find_pat(&text, &ipf) {
                        None => None,
                        Some(ip) => {
                            let b = ip + ipf.len();
                            match find_char_at(&text, ',', b) {
                                None => None,
                                Some(cm) => {
                                    let comp_part = subvec(&text, b, cm);
                                    let comp = trim_chars(&comp_part);
                                    let ac = subvec(&text, cm + 1, n);
                                    let ctx: Vec<char> = match close_pos(&ac, 0) {
                                        Some(ce) => {
                                            let cpart = subvec(&ac, 0, ce);
                                            trim_chars(&cpart)
                                        },
                                        None => Vec::new(),
                                    };
                                    proof {
                                        if close_from(ac@, 0, 1) is None {
                                            assert(ctx@ =~= Seq::<char>::empty());
                                        }
                                    }
                                    Some(
                                        ProviderInfo {
                                            provider_type: chars_to_string(&pt),
                                            component: chars_to_string(&comp),
                                            context: chars_to_string(&ctx),
                                        },
                                    )
                                },
                            }
                        },
                    }
                },
            }
        },
    }
}

/// One fold step of the metadata scan over a child note.
pub open spec fn spec_meta_step(m: CgpErrorMetadataV, c: ChildNoteV) -> CgpErrorMetadataV {
    let m1 = if c.level == DiagnosticLevel::Help && contains_sub(c.message, "__Context__"@)
        && contains_sub(c.message, "is implemented for"@) {
        match spec_trait_from_context_pattern(c.message) {
            Some(t) => CgpErrorMetadataV { provider_trait: Some(t), ..m },
            None => m,
        }
    } else {
        m
    };
    let m2 = if contains_sub(c.message, "IsProviderFor"@) {
        match spec_parse_provider_info(c.message) {
            Some(pi) => CgpErrorMetadataV {
                component: if m1.component is None {
                    Some(pi.component)
                } else {
                    m1.component
                },
                context: if m1.context is None {
                    Some(pi.context)
                } else {
                    m1.context
                },
                ..m1
            },
            None => m1,
        }
    } else {
        m1
    };
    let m3 = if contains_sub(c.message, "CanUseComponent"@) {
        match spec_component_from_can_use(c.message) {
            Some(comp) => CgpErrorMetadataV {
                component: if m2.component is None {
                    Some(comp)
                } else {
                    m2.component
                },
                ..m2
            },
            None => m2,
        }
    } else {
        m2
    };
    let m4 = if c.level == DiagnosticLevel::Note && contains_sub(
        c.message,
        "required by a bound in"@,
    ) {
        match spec_consumer_trait_from_bound(c.message) {
            Some(t) => CgpErrorMetadataV { consumer_trait: Some(t), ..m3 },
            None => m3,
        }
    } else {
        m3
    };
    if c.level == DiagnosticLevel::Help && contains_sub(c.message, "HasField"@) && contains_sub(
        c.message,
        "is not implemented"@,
    ) {
        CgpErrorMetadataV { has_missing_field: true, ..m4 }
    } else {
        m4
    }
}

/// The metadata after folding the children from `k` on.
pub open spec fn spec_meta_fold(
    children: Seq<ChildNoteV>,
    k: int,
    m: CgpErrorMetadataV,
) -> CgpErrorMetadataV
    decreases children.len() - k,
    when 0 <= k <= children.len()
{
    if k >= children.len() {
        m
    } else {
        spec_meta_fold(children, k + 1, spec_meta_step(m, children[k]))
    }
}

/// The initial metadata derived from the main message.
pub open spec fn spec_meta_init(msg: Seq<char>) -> CgpErrorMetadataV {
    CgpErrorMetadataV {
        component: None,
        context: None,
        provider_trait: None,
        consumer_trait: None,
        is_provider_trait_error: contains_sub(msg, "AreaCalculator"@) && !contains_sub(
            msg,
            "AreaCalculatorComponent"@,
        ),
        has_missing_field: false,
    }
}

/// The metadata of a whole diagnostic: the fold over the children, with the
/// capability filled from the main message when the children named none.
pub open spec fn spec_metadata(d: RawDiagnosticV) -> CgpErrorMetadataV {
    let m = spec_meta_fold(d.children, 0, spec_meta_init(d.message));
    if m.component is None {
        match spec_component_from_message_words(d.message, 0) {
            Some(c) => CgpErrorMetadataV { component: Some(c), ..m },
            None => m,
        }
    } else {
        m
    }
}

impl CgpErrorMetadata {
    /// Extracts the framework metadata of one diagnostic.
    #[verifier::loop_isolation(false)]
    pub fn from_diagnostic(diagnostic: &RawDiagnostic) -> (r: Self)
        ensures
            r@ == spec_metadata(diagnostic@),
    {
        let cm = to_char_vec(diagnostic.message.as_str());
        let ac = to_char_vec("AreaCalculator");
        let acc = to_char_vec("AreaCalculatorComponent");
        let is_pte = contains_pat(&cm, &ac) && !contains_pat(&cm, &acc);
        let mut meta = CgpErrorMetadata {
            component: None,
            context: None,
            provider_trait: None,
            consumer_trait: None,
            is_provider_trait_error: is_pte,
            has_missing_field: false,
        };
        proof {
            assert(meta@ =~= spec_meta_init(diagnostic@.message));
        }
        let p_ctx = to_char_vec("__Context__");
        let p_impl = to_char_vec("is implemented for");
        let p_ipf = to_char_vec("IsProviderFor");
        let p_cuc = to_char_vec("CanUseComponent");
        let p_bound = to_char_vec("required by a bound in");
        let p_hf = to_char_vec("HasField");
        let p_ni = to_char_vec("is not implemented");
        let n = diagnostic.children.len();
        let mut k: usize = 0;
        while k < n
            invariant
                0 <= k <= n,
                n == diagnostic.children@.len(),
                p_ctx@ == "__Context__"@,
                p_impl@ == "is implemented for"@,
                p_ipf@ == "IsProviderFor"@,
                p_cuc@ == "CanUseComponent"@,
                p_bound@ == "required by a bound in"@,
                p_hf@ == "HasField"@,
                p_ni@ == "is not implemented"@,
                spec_meta_fold(diagnostic@.children, 0, spec_meta_init(diagnostic@.message))
                    == spec_meta_fold(diagnostic@.children, k as int, meta@),
            decreases n - k,
        {
            let c = &diagnostic.children[k];
            proof {
                assert(diagnostic@.children[k as int] == diagnostic.children@[k as int]@);
            }
            let mv = to_char_vec(c.message.as_str());
            let ghost m0 = meta@;
            if matches!(c.level, DiagnosticLevel::Help) && contains_pat(&mv, &p_ctx)
                && contains_pat(&mv, &p_impl) {
                match extract_provider_trait_from_context_pattern(&c.message) {
                    Some(t) => {
                        meta.provider_trait = Some(t);
                    },
                    None => {},
                }
            }
            if contains_pat(&mv, &p_ipf) {
                match parse_provider_info(&c.message) {
                    Some(pi) => {
                        if meta.component.is_none() {
                            meta.component = Some(pi.component);
                        }
                        if meta.context.is_none() {
                            meta.context = Some(pi.context);
                        }
                    },
                    None => {},
                }
            }
            if contains_pat(&mv, &p_cuc) {
                match extract_component_from_can_use(&c.message) {
                    Some(comp) => {
                        if meta.component.is_none() {
                            meta.component = Some(comp);
                        }
                    },
                    None => {},
                }
            }
            if matches!(c.level, DiagnosticLevel::Note) && contains_pat(&mv, &p_bound) {
                match extract_consumer_trait_from_bound(&c.message) {
                    Some(t) => {
                        meta.consumer_trait = Some(t);
                    },
                    None => {},
                }
            }
            if matches!(c.level, DiagnosticLevel::Help) && contains_pat(&mv, &p_hf)
                && contains_pat(&mv, &p_ni) {
                meta.has_missing_field = true;
            }
            proof {
                assert(meta@ =~= spec_meta_step(m0, diagnostic@.children[k as int]));
            }
            k += 1;
        }
        if meta.component.is_none() {
            match extract_component_from_message(&diagnostic.message) {
                Some(c2) => {
                    meta.component = Some(c2);
                },
                None => {},
            }
        }
        proof {
            assert(meta@ =~= spec_metadata(diagnostic@));
        }
        meta
    }
}

/// A reconstructed missing-field fact as this renderer reports it.
#[derive(Debug)]
pub struct MissingFieldInfo {
    pub field_name: String,
    pub struct_name: String,
    pub required_trait: String,
}

/// Ghost view of a missing-field fact.
#[verifier::ext_equal]
pub struct MissingFieldInfoV {
    pub field_name: Seq<char>,
    pub struct_name: Seq<char>,
    pub required_trait: Seq<char>,
}

impl View for MissingFieldInfo {
    type V = MissingFieldInfoV;

    open spec fn view(&self) -> MissingFieldInfoV {
        MissingFieldInfoV {
            field_name: self.field_name@,
            struct_name: self.struct_name@,
            required_trait: self.required_trait@,
        }
    }
}

/// The field name reconstructed from the character markers, with a
/// common-name guess when the compiler elided characters and a last-resort
/// scan of the whole message.
pub open spec fn spec_rcm_field_name(s: Seq<char>) -> Option<Seq<char>> {
    let rel = crate::cgp_patterns::spec_relevant_part(s);
    let el = crate::cgp_patterns::spec_extract_symbol_length(rel);
    let cs = collect_chars_from(rel, 0);
    let common: Option<Seq<char>> = match el {
        Some(len) => if cs.len() < len {
            if len == 6 && cs.contains('h') && cs.contains('e') && cs.contains('i')
                && cs.contains('g') && cs.contains('t') {
                Some("height"@)
            } else if len == 5 && cs.contains('w') && cs.contains('i') && cs.contains('d')
                && cs.contains('t') {
                Some("width"@)
            } else {
                None
            }
        } else {
            None
        },
        None => None,
    };
    if common is Some {
        common
    } else if cs.len() > 0 && (match el {
        Some(len) => cs.len() == len,
        None => true,
    }) {
        Some(cs)
    } else if contains_sub(s, "height"@) {
        Some("height"@)
    } else if contains_sub(s, "width"@) {
        Some("width"@)
    } else {
        None
    }
}

fn vec_contains_char(v: &Vec<char>, c: char) -> (r: bool)
    ensures
        r == v@.contains(c),
{
    let mut i: usize = 0;
    while i < v.len()
        invariant
            0 <= i <= v.len(),
            forall|t: int| 0 <= t < i ==> v@[t] != c,
        decreases v.len() - i,
    {
        if v[i] == c {
            return true;
        }
        i += 1;
    }
    false
}

fn literal_height() -> (r: String)
    ensures
        r@ == "height"@,
{
    let mut s = String::new();
    s.append("height");
    proof {
        assert(s@ =~= "height"@);
    }
    s
}

fn literal_width() -> (r: String)
    ensures
        r@ == "width"@,
{
    let mut s = String::new();
    s.append("width");
    proof {
        assert(s@ =~= "width"@);
    }
    s
}

#[verifier::loop_isolation(false)]
fn extract_field_name_from_symbol(message: &String) -> (r: Option<String>)
    ensures
        opt_str(r) == spec_rcm_field_name(message@),
{
    let text = to_char_vec(message.as_str());
    let relpat = to_char_vec("but trait");
    let rel: Vec<char> = match find_pat(&text, &relpat) {
        Some(p) => subvec(&text, 0, p),
        None => {
            let n = text.len();
            let w = subvec(&text, 0, n);
            proof {
                assert(text@.subrange(0, text@.len() as int) =~= text@);
            }
            w
        },
    };
    proof {
        assert(rel@ == crate::cgp_patterns::spec_relevant_part(message@));
    }
    let rel_str = chars_to_string(&rel);
    let outcome = crate::cgp_patterns::symbol_length_classified(rel_str.as_str());
    let (cs, _ph) = crate::cgp_patterns::collect_chars_exec(&rel);
    match outcome {
        crate::cgp_patterns::ParseOutcome::Value(len) => {
            if cs.len() < len {
                if len == 6 && vec_contains_char(&cs, 'h') && vec_contains_char(&cs, 'e')
                    && vec_contains_char(&cs, 'i') && vec_contains_char(&cs, 'g')
                    && vec_contains_char(&cs, 't') {
                    return Some(literal_height());
                }
                if len == 5 && vec_contains_char(&cs, 'w') && vec_contains_char(&cs, 'i')
                    && vec_contains_char(&cs, 'd') && vec_contains_char(&cs, 't') {
                    return Some(literal_width());
                }
            }
            if cs.len() > 0 && cs.len() == len {
                return Some(chars_to_string(&cs));
            }
        },
        crate::cgp_patterns::ParseOutcome::TooLarge => {
            let cl = cs.len();
            proof {
                assert(cl as int == cs@.len());
                assert(cs@.len() < crate::cgp_patterns::spec_extract_symbol_length(
                    rel@,
                )->Some_0);
            }
        },
        crate::cgp_patterns::ParseOutcome::Malformed => {
            if cs.len() > 0 {
                return Some(chars_to_string(&cs));
            }
        },
    }
    let hpat = to_char_vec("height");
    if contains_pat(&text, &hpat) {
        return Some(literal_height());
    }
    let wpat = to_char_vec("width");
    if contains_pat(&text, &wpat) {
        return Some(literal_width());
    }
    None
}

fn extract_struct_name_from_not_implemented(message: &String) -> (r: Option<String>)
    ensures
        opt_str(r) == spec_extract_type_not_implemented(message@),
{
    let text = to_char_vec(message.as_str());
    let n = text.len();
    let pat = to_char_vec("is not implemented for `");
    match find_pat(&text, &pat) {
        Some(st) => {
            let a = st + pat.len();
            match find_char_at(&text, '`', a) {
                Some(e) => {
                    let part = subvec(&text, a, e);
                    let seg = last_path_segment_exec(&part);
                    Some(chars_to_string(&seg))
                },
                None => None,
            }
        },
        None => None,
    }
}

/// The interface the missing field is required by, judged from the first
/// applicable note.
pub open spec fn spec_required_trait_from(children: Seq<ChildNoteV>, k: int) -> Seq<char>
    decreases children.len() - k,
    when 0 <= k <= children.len()
{
    if k >= children.len() {
        "HasField"@
    } else if children[k].level == DiagnosticLevel::Note && contains_sub(
        children[k].message,
        "required for"@,
    ) {
        if contains_sub(children[k].message, "HasRectangleFields"@) {
            "HasRectangleFields"@
        } else if contains_sub(children[k].message, "HasField"@) {
            "HasField"@
        } else {
            spec_required_trait_from(children, k + 1)
        }
    } else {
        spec_required_trait_from(children, k + 1)
    }
}

#[verifier::loop_isolation(false)]
fn extract_required_trait(diagnostic: &RawDiagnostic) -> (r: String)
    ensures
        r@ == spec_required_trait_from(diagnostic@.children, 0),
{
    let n = diagnostic.children.len();
    let p_rf = to_char_vec("required for");
    let p_hrf = to_char_vec("HasRectangleFields");
    let p_hf = to_char_vec("HasField");
    let mut k: usize = 0;
    while k < n
        invariant
            0 <= k <= n,
            n == diagnostic.children@.len(),
            p_rf@ == "required for"@,
            p_hrf@ == "HasRectangleFields"@,
            p_hf@ == "HasField"@,
            spec_required_trait_from(diagnostic@.children, 0) == spec_required_trait_from(
                diagnostic@.children,
                k as int,
            ),
        decreases n - k,
    {
        let c = &diagnostic.children[k];
        proof {
            assert(diagnostic@.children[k as int] == diagnostic.children@[k as int]@);
        }
        if matches!(c.level, DiagnosticLevel::Note) {
            let mv = to_char_vec(c.message.as_str());
            if contains_pat(&mv, &p_rf) {
                if contains_pat(&mv, &p_hrf) {
                    let mut s = String::new();
                    s.append("HasRectangleFields");
                    proof {
                        assert(s@ =~= "HasRectangleFields"@);
                    }
                    return s;
                }
                if contains_pat(&mv, &p_hf) {
                    let mut s = String::new();
                    s.append("HasField");
                    proof {
                        assert(s@ =~= "HasField"@);
                    }
                    return s;
                }
            }
        }
        k += 1;
    }
    let mut s = String::new();
    s.append("HasField");
    proof {
        assert(s@ =~= "HasField"@);
    }
    s
}

/// Whether a child announces a field requirement.
pub open spec fn rcm_child_field(c: ChildNoteV) -> bool {
    c.level == DiagnosticLevel::Help && contains_sub(c.message, "HasField"@) && contains_sub(
        c.message,
        "is not implemented for"@,
    )
}

/// The missing-field fact of the first announcing child.
pub open spec fn spec_missing_field_info(d: RawDiagnosticV, k: int) -> Option<
    MissingFieldInfoV,
>
    decreases d.children.len() - k,
    when 0 <= k <= d.children.len()
{
    if k >= d.children.len() {
        None
    } else if rcm_child_field(d.children[k]) {
        match spec_rcm_field_name(d.children[k].message) {
            Some(f) => match spec_extract_type_not_implemented(d.children[k].message) {
                Some(sn) => Some(
                    MissingFieldInfoV {
                        field_name: f,
                        struct_name: sn,
                        required_trait: spec_required_trait_from(d.children, 0),
                    },
                ),
                None => None,
            },
            None => None,
        }
    } else {
        spec_missing_field_info(d, k + 1)
    }
}

#[verifier::loop_isolation(false)]
fn extract_missing_field_info(diagnostic: &RawDiagnostic) -> (r: Option<MissingFieldInfo>)
    ensures
        opt_view(r) == spec_missing_field_info(diagnostic@, 0),
{
    let n = diagnostic.children.len();
    let p_hf = to_char_vec("HasField");
    let p_ni = to_char_vec("is not implemented for");
    let mut k: usize = 0;
    while k < n
        invariant
            0 <= k <= n,
            n == diagnostic.children@.len(),
            p_hf@ == "HasField"@,
            p_ni@ == "is not implemented for"@,
            spec_missing_field_info(diagnostic@, 0) == spec_missing_field_info(
                diagnostic@,
                k as int,
            ),
        decreases n - k,
    {
        let c = &diagnostic.children[k];
        proof {
            assert(diagnostic@.children[k as int] == diagnostic.children@[k as int]@);
        }
        let mv = to_char_vec(c.message.as_str());
        if matches!(c.level, DiagnosticLevel::Help) && contains_pat(&mv, &p_hf) && contains_pat(
            &mv,
            &p_ni,
        ) {
            match extract_field_name_from_symbol(&c.message) {
                Some(f) => {
                    match extract_struct_name_from_not_implemented(&c.message) {
                        Some(sn) => {
                            let rt = extract_required_trait(diagnostic);
                            return Some(
                                MissingFieldInfo {
                                    field_name: f,
                                    struct_name: sn,
                                    required_trait: rt,
                                },
                            );
                        },
                        None => {
                            return None;
                        },
                    }
                },
                None => {
                    return None;
                },
            }
        }
        k += 1;
    }
    None
}

/// Whether `inner` is spelled as a type parameter inside `outer`, in this
/// renderer's looser reading.
pub open spec fn contained_rcm(inner: Seq<char>, outer: Seq<char>) -> bool {
    contains_sub(outer, "<"@ + inner) || contains_sub(outer, "<"@ + inner + ","@)
        || contains_sub(outer, ", "@ + inner) || contains_sub(outer, " "@ + inner) || outer
        == inner + ">"@
}

fn contained_rcm_exec(inner: &Vec<char>, outer: &Vec<char>) -> (r: bool)
    ensures
        r == contained_rcm(inner@, outer@),
{
    let p1 = wrap_rcm("<", inner, "");
    let p2 = wrap_rcm("<", inner, ",");
    let p3 = wrap_rcm(", ", inner, "");
    let p4 = wrap_rcm(" ", inner, "");
    let p5 = wrap_rcm("", inner, ">");
    proof {
        reveal_strlit("");
        assert(p1@ =~= "<"@ + inner@);
        assert(p3@ =~= ", "@ + inner@);
        assert(p4@ =~= " "@ + inner@);
        assert(p5@ =~= inner@ + ">"@);
    }
    let eq_last = if outer.len() == p5.len() {
        crate::text::match_here(outer, &p5, 0)
    } else {
        false
    };
    proof {
        assert(outer@.subrange(0, outer@.len() as int) =~= outer@);
        if outer@.len() == p5@.len() && crate::text::match_at(outer@, p5@, 0) {
            assert(outer@ =~= p5@);
        }
        if outer@ == p5@ {
            assert(crate::text::match_at(outer@, p5@, 0));
        }
    }
    contains_pat(outer, &p1) || contains_pat(outer, &p2) || contains_pat(outer, &p3)
        || contains_pat(outer, &p4) || eq_last
}

fn wrap_rcm(pre: &str, inner: &Vec<char>, post: &str) -> (r: Vec<char>)
    ensures
        r@ == pre@ + inner@ + post@,
{
    let mut r = to_char_vec(pre);
    let mut mid = subvec(inner, 0, inner.len());
    proof {
        assert(inner@.subrange(0, inner@.len() as int) =~= inner@);
    }
    r.append(&mut mid);
    let mut end = to_char_vec(post);
    r.append(&mut end);
    r
}

/// A relationship note is redundant when another parsed fact with the same
/// capability and context wraps its provider type.
pub open spec fn rcm_redundant(infos: Seq<ProviderInfoV>, cur: ProviderInfoV) -> bool {
    exists|j: int|
        0 <= j < infos.len() && #[trigger] infos[j] != cur && infos[j].component == cur.component
            && infos[j].context == cur.context && contained_rcm(
            cur.provider_type,
            infos[j].provider_type,
        )
}

/// Whether a child is a delegation-chain note.
pub open spec fn rcm_chain_child(c: ChildNoteV) -> bool {
    c.level == DiagnosticLevel::Note && contains_sub(c.message, "required for"@)
        && contains_sub(c.message, "to implement"@)
}

/// The parsed provider facts of all chain notes.
pub open spec fn spec_chain_infos(children: Seq<ChildNoteV>, k: int) -> Seq<ProviderInfoV>
    decreases children.len() - k,
    when 0 <= k <= children.len()
{
    if k >= children.len() {
        Seq::empty()
    } else {
        let rest = spec_chain_infos(children, k + 1);
        if rcm_chain_child(children[k]) {
            match spec_parse_provider_info(children[k].message) {
                Some(pi) => seq![pi] + rest,
                None => rest,
            }
        } else {
            rest
        }
    }
}

/// The provider-interface name this renderer derives from a capability
/// name: the suffix stripped even when nothing remains, or a generic
/// wording.
pub open spec fn spec_extract_provider_trait_name(s: Seq<char>) -> Seq<char> {
    if s.len() >= "Component"@.len() && match_at(s, "Component"@, s.len() - "Component"@.len()) {
        s.subrange(0, s.len() - "Component"@.len())
    } else {
        "the provider trait for `"@ + s + "`"@
    }
}

fn extract_provider_trait_name(component_name: &Vec<char>) -> (r: Vec<char>)
    ensures
        r@ == spec_extract_provider_trait_name(component_name@),
{
    let pat = to_char_vec("Component");
    if crate::text::ends_with_pat(component_name, &pat) {
        subvec(component_name, 0, component_name.len() - pat.len())
    } else {
        let r = wrap_rcm("the provider trait for `", component_name, "`");
        r
    }
}

/// The note with a relationship marker replaced by a friendly
/// provider-interface mention, in this renderer's plain scanning.
pub open spec fn rcm_replace_ipf(s: Seq<char>) -> Option<Seq<char>> {
    if !contains_sub(s, "IsProviderFor"@) {
        None
    } else {
        match find_sub(s, "IsProviderFor<"@) {
            Some(st) => {
                let ab = st + "IsProviderFor<"@.len();
                match find_char_from(s, ',', ab) {
                    Some(cp) => {
                        let comp = trim_spec(s.subrange(ab, cp));
                        let ptn = spec_extract_provider_trait_name(comp);
                        let end = match close_from(s, ab, 1) {
                            Some(e) => e + 1,
                            None => ab,
                        };
                        Some(
                            crate::error_formatting::spec_splice(
                                s,
                                st,
                                end,
                                "the provider trait `"@ + ptn + "`"@,
                            ),
                        )
                    },
                    None => None,
                }
            },
            None => None,
        }
    }
}

fn replace_is_provider_for(message: &Vec<char>) -> (r: Option<Vec<char>>)
    ensures
        opt_view(r) == rcm_replace_ipf(message@),
{
    let n = message.len();
    let probe = to_char_vec("IsProviderFor");
    if !contains_pat(message, &probe) {
        return None;
    }
    let pat = to_char_vec("IsProviderFor<");
    match find_pat(message, &pat) {
        Some(st) => {
            let ab = st + pat.len();
            match find_char_at(message, ',', ab) {
                Some(cp) => {
                    let comp_part = subvec(message, ab, cp);
                    let comp = trim_chars(&comp_part);
                    let ptn = extract_provider_trait_name(&comp);
                    let end = match close_pos(message, ab) {
                        Some(e) => e + 1,
                        None => ab,
                    };
                    let replacement = wrap_rcm("the provider trait `", &ptn, "`");
                    Some(crate::error_formatting::splice_exec(message, st, end, &replacement))
                },
                None => None,
            }
        },
        None => None,
    }
}

/// The note with a capability-check marker replaced by a friendly consumer
/// mention: the known consumer interface, else a generic wording over the
/// capability name.
pub open spec fn rcm_replace_cuc(s: Seq<char>, meta: CgpErrorMetadataV) -> Option<Seq<char>> {
    if !contains_sub(s, "CanUseComponent"@) {
        None
    } else {
        match find_sub(s, "CanUseComponent<"@) {
            Some(st) => {
                let ab = st + "CanUseComponent<"@.len();
                let end0 = match close_from(s, ab, 1) {
                    Some(e) => e,
                    None => ab,
                };
                let comp = trim_spec(s.subrange(ab, end0));
                let after_pos = if end0 + 1 <= s.len() {
                    end0 + 1
                } else {
                    s.len() as int
                };
                let replacement = match meta.consumer_trait {
                    Some(t) => "the consumer trait `"@ + t + "`"@,
                    None => "the consumer trait for `"@ + comp + "`"@,
                };
                Some(crate::error_formatting::spec_splice(s, st, after_pos, replacement))
            },
            None => None,
        }
    }
}

fn replace_can_use_component(message: &Vec<char>, meta: &CgpErrorMetadata) -> (r: Option<Vec<
    char,
>>)
    ensures
        opt_view(r) == rcm_replace_cuc(message@, meta@),
{
    let n = message.len();
    let probe = to_char_vec("CanUseComponent");
    if !contains_pat(message, &probe) {
        return None;
    }
    let pat = to_char_vec("CanUseComponent<");
    match find_pat(message, &pat) {
        Some(st) => {
            let ab = st + pat.len();
            let end0 = match close_pos(message, ab) {
                Some(e) => e,
                None => ab,
            };
            let comp_part = subvec(message, ab, end0);
            let comp = trim_chars(&comp_part);
            let after_pos = if end0 < n {
                end0 + 1
            } else {
                n
            };
            let replacement: Vec<char> = match &meta.consumer_trait {
                Some(t) => {
                    let tv = to_char_vec(t.as_str());
                    wrap_rcm("the consumer trait `", &tv, "`")
                },
                None => wrap_rcm("the consumer trait for `", &comp, "`"),
            };
            Some(crate::error_formatting::splice_exec(message, st, after_pos, &replacement))
        },
        None => None,
    }
}

/// The simplified display form of one delegation note: demonstration
/// prefixes removed, markers replaced, and an overly long result truncated
/// at its first elision marker.
pub open spec fn spec_simplify(s: Seq<char>, meta: CgpErrorMetadataV) -> Seq<char> {
    let t1 = crate::text::replace_all(s, "base_area::"@, Seq::empty());
    let t2 = crate::text::replace_all(t1, "scaled_area::"@, Seq::empty());
    let t3 = crate::text::replace_all(t2, "cgp::prelude::"@, Seq::empty());
    let t4 = match rcm_replace_ipf(t3) {
        Some(x) => x,
        None => t3,
    };
    let t5 = match rcm_replace_cuc(t4, meta) {
        Some(x) => x,
        None => t4,
    };
    if t5.len() > 100 {
        match find_sub(t5, ", ...>"@) {
            Some(ep) => t5.subrange(0, ep) + "..."@,
            None => t5,
        }
    } else {
        t5
    }
}

fn simplify_delegation_message(message: &String, meta: &CgpErrorMetadata) -> (r: String)
    ensures
        r@ == spec_simplify(message@, meta@),
{
    let text = to_char_vec(message.as_str());
    let empty: Vec<char> = Vec::new();
    let b1 = to_char_vec("base_area::");
    let b2 = to_char_vec("scaled_area::");
    let b3 = to_char_vec("cgp::prelude::");
    proof {
        reveal_strlit("base_area::");
        reveal_strlit("scaled_area::");
        reveal_strlit("cgp::prelude::");
        assert(empty@ =~= Seq::<char>::empty());
    }
    let t1 = crate::text::replace_all_chars(&text, &b1, &empty);
    let t2 = crate::text::replace_all_chars(&t1, &b2, &empty);
    let t3 = crate::text::replace_all_chars(&t2, &b3, &empty);
    let t4 = match replace_is_provider_for(&t3) {
        Some(x) => x,
        None => t3,
    };
    let t5 = match replace_can_use_component(&t4, meta) {
        Some(x) => x,
        None => t4,
    };
    if t5.len() > 100 {
        let epat = to_char_vec(", ...>");
        match find_pat(&t5, &epat) {
            Some(ep) => {
                let mut out = subvec(&t5, 0, ep);
                let mut dots = to_char_vec("...");
                out.append(&mut dots);
                chars_to_string(&out)
            },
            None => chars_to_string(&t5),
        }
    } else {
        chars_to_string(&t5)
    }
}

/// The simplified chain lines that survive the renderer's deduplication.
pub open spec fn spec_chain_lines(
    children: Seq<ChildNoteV>,
    k: int,
    infos: Seq<ProviderInfoV>,
    meta: CgpErrorMetadataV,
) -> Seq<Seq<char>>
    decreases children.len() - k,
    when 0 <= k <= children.len()
{
    if k >= children.len() {
        Seq::empty()
    } else {
        let rest = spec_chain_lines(children, k + 1, infos, meta);
        if rcm_chain_child(children[k]) {
            let keep = match spec_parse_provider_info(children[k].message) {
                Some(cur) => !rcm_redundant(infos, cur),
                None => true,
            };
            if keep {
                seq![spec_simplify(children[k].message, meta)] + rest
            } else {
                rest
            }
        } else {
            rest
        }
    }
}

#[verifier::loop_isolation(false)]
fn extract_and_deduplicate_delegation_chain(
    diagnostic: &RawDiagnostic,
    meta: &CgpErrorMetadata,
) -> (r: Vec<String>)
    ensures
        strs_of(r@) == spec_chain_lines(
            diagnostic@.children,
            0,
            spec_chain_infos(diagnostic@.children, 0),
            meta@,
        ),
{
    let n = diagnostic.children.len();
    let p_rf = to_char_vec("required for");
    let p_ti = to_char_vec("to implement");
    let mut infos: Vec<ProviderInfo> = Vec::new();
    let mut k: usize = 0;
    while k < n
        invariant
            0 <= k <= n,
            n == diagnostic.children@.len(),
            p_rf@ == "required for"@,
            p_ti@ == "to implement"@,
            spec_chain_infos(diagnostic@.children, 0) =~= views_of(infos@) + spec_chain_infos(
                diagnostic@.children,
                k as int,
            ),
        decreases n - k,
    {
        let c = &diagnostic.children[k];
        proof {
            assert(diagnostic@.children[k as int] == diagnostic.children@[k as int]@);
        }
        let mv = to_char_vec(c.message.as_str());
        if matches!(c.level, DiagnosticLevel::Note) && contains_pat(&mv, &p_rf) && contains_pat(
            &mv,
            &p_ti,
        ) {
            match parse_provider_info(&c.message) {
                Some(pi) => {
                    let ghost prev = views_of(infos@);
                    let ghost piv = pi@;
                    infos.push(pi);
                    proof {
                        assert(views_of(infos@) =~= prev.push(piv));
                    }
                },
                None => {},
            }
        }
        proof {
            assert(spec_chain_infos(diagnostic@.children, 0) =~= views_of(infos@)
                + spec_chain_infos(diagnostic@.children, k as int + 1));
        }
        k += 1;
    }
    proof {
        assert(views_of(infos@) =~= views_of(infos@) + spec_chain_infos(
            diagnostic@.children,
            n as int,
        ));
    }
    let ghost infosv = views_of(infos@);
    let mut chain: Vec<String> = Vec::new();
    let mut k2: usize = 0;
    while k2 < n
        invariant
            0 <= k2 <= n,
            n == diagnostic.children@.len(),
            p_rf@ == "required for"@,
            p_ti@ == "to implement"@,
            infosv == views_of(infos@),
            spec_chain_lines(diagnostic@.children, 0, infosv, meta@) =~= strs_of(chain@)
                + spec_chain_lines(diagnostic@.children, k2 as int, infosv, meta@),
        decreases n - k2,
    {
        let c = &diagnostic.children[k2];
        proof {
            assert(diagnostic@.children[k2 as int] == diagnostic.children@[k2 as int]@);
        }
        let mv = to_char_vec(c.message.as_str());
        if matches!(c.level, DiagnosticLevel::Note) && contains_pat(&mv, &p_rf) && contains_pat(
            &mv,
            &p_ti,
        ) {
            let keep: bool = match parse_provider_info(&c.message) {
                Some(cur) => {
                    let curpt = to_char_vec(cur.provider_type.as_str());
                    let mut redundant = false;
                    let mut j: usize = 0;
                    while j < infos.len()
                        invariant
                            0 <= j <= infos.len(),
                            infosv == views_of(infos@),
                            curpt@ == cur@.provider_type,
                            redundant == exists|t: int|
                                0 <= t < j && #[trigger] infosv[t] != cur@ && infosv[t].component
                                    == cur@.component && infosv[t].context == cur@.context
                                    && contained_rcm(
                                    cur@.provider_type,
                                    infosv[t].provider_type,
                                ),
                        decreases infos.len() - j,
                    {
                        proof {
                            assert(infosv[j as int] == infos@[j as int]@);
                        }
                        let other = &infos[j];
                        let same = other.provider_type == cur.provider_type && other.component
                            == cur.component && other.context == cur.context;
                        proof {
                            if same {
                                assert(infosv[j as int] =~= cur@);
                            }
                        }
                        if !same && other.component == cur.component && other.context
                            == cur.context {
                            let opt = to_char_vec(other.provider_type.as_str());
                            if contained_rcm_exec(&curpt, &opt) {
                                redundant = true;
                            }
                        }
                        j += 1;
                    }
                    proof {
                        assert(redundant == rcm_redundant(infosv, cur@));
                    }
                    !redundant
                },
                None => true,
            };
            if keep {
                let line = simplify_delegation_message(&c.message, meta);
                let ghost prev = strs_of(chain@);
                let ghost linev = line@;
                chain.push(line);
                proof {
                    assert(strs_of(chain@) =~= prev.push(linev));
                }
            }
        }
        proof {
            assert(spec_chain_lines(diagnostic@.children, 0, infosv, meta@) =~= strs_of(chain@)
                + spec_chain_lines(diagnostic@.children, k2 as int + 1, infosv, meta@));
        }
        k2 += 1;
    }
    proof {
        assert(strs_of(chain@) =~= strs_of(chain@) + spec_chain_lines(
            diagnostic@.children,
            n as int,
            infosv,
            meta@,
        ));
    }
    chain
}

/// Whether a child says other field-accessor implementations exist, in the
/// renderer's phrasing.
pub open spec fn rcm_has_other(d: RawDiagnosticV) -> bool {
    exists|k: int|
        0 <= k < d.children.len() && (#[trigger] d.children[k]).level == DiagnosticLevel::Help
            && (contains_sub(d.children[k].message, "but trait `HasField"@) || contains_sub(
            d.children[k].message,
            "the following other types implement trait `cgp::prelude::HasField"@,
        ))
}

#[verifier::loop_isolation(false)]
fn has_other_hasfield_implementations(diagnostic: &RawDiagnostic) -> (r: bool)
    ensures
        r == rcm_has_other(diagnostic@),
{
    let n = diagnostic.children.len();
    let p1 = to_char_vec("but trait `HasField");
    let p2 = to_char_vec("the following other types implement trait `cgp::prelude::HasField");
    let mut k: usize = 0;
    while k < n
        invariant
            0 <= k <= n,
            n == diagnostic.children@.len(),
            p1@ == "but trait `HasField"@,
            p2@ == "the following other types implement trait `cgp::prelude::HasField"@,
            forall|j: int|
                0 <= j < k ==> !((#[trigger] diagnostic@.children[j]).level
                    == DiagnosticLevel::Help && (contains_sub(
                    diagnostic@.children[j].message,
                    "but trait `HasField"@,
                ) || contains_sub(
                    diagnostic@.children[j].message,
                    "the following other types implement trait `cgp::prelude::HasField"@,
                ))),
        decreases n - k,
    {
        let c = &diagnostic.children[k];
        proof {
            assert(diagnostic@.children[k as int] == diagnostic.children@[k as int]@);
        }
        if matches!(c.level, DiagnosticLevel::Help) {
            let mv = to_char_vec(c.message.as_str());
            if contains_pat(&mv, &p1) || contains_pat(&mv, &p2) {
                proof {
                    assert(diagnostic@.children[k as int].level == DiagnosticLevel::Help);
                }
                return true;
            }
        }
        k += 1;
    }
    false
}

/// The display word of a severity level.
pub open spec fn spec_level_str(l: DiagnosticLevel) -> Seq<char> {
    match l {
        DiagnosticLevel::Error => "error"@,
        DiagnosticLevel::Warning => "warning"@,
        DiagnosticLevel::Note => "note"@,
        DiagnosticLevel::Help => "help"@,
        DiagnosticLevel::FailureNote => "note"@,
        DiagnosticLevel::Ice => "error"@,
    }
}

fn level_to_string(level: &DiagnosticLevel) -> (r: &'static str)
    ensures
        r@ == spec_level_str(*level),
{
    match level {
        DiagnosticLevel::Error => "error",
        DiagnosticLevel::Warning => "warning",
        DiagnosticLevel::Note => "note",
        DiagnosticLevel::Help => "help",
        DiagnosticLevel::FailureNote => "note",
        DiagnosticLevel::Ice => "error",
    }
}

/// The character repeated `n` times.
pub open spec fn char_repeat(c: char, n: int) -> Seq<char>
    decreases n,
    when n >= 0
{
    if n <= 0 {
        Seq::empty()
    } else {
        char_repeat(c, n - 1).push(c)
    }
}

fn char_repeat_exec(c: char, n: usize) -> (r: Vec<char>)
    ensures
        r@ == char_repeat(c, n as int),
{
    let mut r: Vec<char> = Vec::new();
    let mut i: usize = 0;
    while i < n
        invariant
            0 <= i <= n,
            r@ =~= char_repeat(c, i as int),
        decreases n - i,
    {
        r.push(c);
        i += 1;
    }
    r
}

/// A decimal rendering left-padded with spaces to at least four columns.
pub open spec fn pad4(s: Seq<char>) -> Seq<char> {
    if s.len() >= 4 {
        s
    } else {
        char_repeat(' ', 4 - s.len()) + s
    }
}

fn pad4_exec(v: &Vec<char>) -> (r: Vec<char>)
    ensures
        r@ == pad4(v@),
{
    let n = v.len();
    if n >= 4 {
        let r = subvec(v, 0, n);
        proof {
            assert(v@.subrange(0, v@.len() as int) =~= v@);
        }
        r
    } else {
        let mut r = char_repeat_exec(' ', 4 - n);
        let mut m = subvec(v, 0, n);
        proof {
            assert(v@.subrange(0, v@.len() as int) =~= v@);
        }
        r.append(&mut m);
        r
    }
}

/// The header of a rendered error: its code when known.
pub open spec fn spec_header(d: RawDiagnosticV) -> Seq<char> {
    match d.code {
        Some(c) => "error["@ + c + "]: "@,
        None => "error: "@,
    }
}

/// One-based line numbers shown beside snippet lines, capped at the
/// machine maximum.
pub open spec fn spec_line_no(line_start: int, i: int) -> int {
    if line_start + i <= usize::MAX {
        line_start + i
    } else {
        usize::MAX as int
    }
}

/// The snippet lines of a span with the caret line under the first one.
pub open spec fn spec_text_lines(sp: crate::raw_diagnostic::SpanInfoV, i: int) -> Seq<char>
    decreases sp.text.len() - i,
    when 0 <= i <= sp.text.len()
{
    if i >= sp.text.len() {
        Seq::empty()
    } else {
        let num = pad4(dec_chars(spec_line_no(sp.line_start, i)));
        let body = num + " | "@ + sp.text[i] + "\n"@;
        let caret: Seq<char> = if i == 0 {
            let spaces = char_repeat(' ', if sp.column_start >= 1 {
                sp.column_start - 1
            } else {
                0
            });
            let carets = char_repeat('^', if sp.column_end >= sp.column_start {
                sp.column_end - sp.column_start
            } else {
                0
            });
            let label = match sp.label {
                Some(l) => l,
                None => Seq::empty(),
            };
            "     | "@ + spaces + carets + " "@ + label + "\n"@
        } else {
            Seq::empty()
        };
        body + caret + spec_text_lines(sp, i + 1)
    }
}

/// The arrow line and snippet block of a span.
pub open spec fn spec_span_block(sp: crate::raw_diagnostic::SpanInfoV) -> Seq<char> {
    "  --> "@ + sp.file_name + ":"@ + dec_chars(sp.line_start) + ":"@ + dec_chars(
        sp.column_start,
    ) + "\n"@ + "   |\n"@ + spec_text_lines(sp, 0)
}

#[verifier::loop_isolation(false)]
#[verifier::rlimit(100)]
fn span_block_exec(sp: &crate::raw_diagnostic::SpanInfo) -> (r: String)
    ensures
        r@ == spec_span_block(sp@),
{
    let mut out = String::new();
    out.append("  --> ");
    out.append(sp.file_name.as_str());
    out.append(":");
    let l1 = usize_to_chars(sp.line_start);
    let l1s = chars_to_string(&l1);
    out.append(l1s.as_str());
    out.append(":");
    let c1 = usize_to_chars(sp.column_start);
    let c1s = chars_to_string(&c1);
    out.append(c1s.as_str());
    out.append("\n");
    out.append("   |\n");
    proof {
        assert(Seq::<char>::empty() + "  --> "@ =~= "  --> "@);
        assert(out@ =~= "  --> "@ + sp@.file_name + ":"@ + dec_chars(sp@.line_start) + ":"@
            + dec_chars(sp@.column_start) + "\n"@ + "   |\n"@);
    }
    let ghost base = out@;
    let n = sp.text.len();
    let mut i: usize = 0;
    while i < n
        invariant
            0 <= i <= n,
            n == sp@.text.len(),
            base + spec_text_lines(sp@, 0) =~= out@ + spec_text_lines(sp@, i as int),
        decreases n - i,
    {
        proof {
            assert(sp@.text[i as int] == sp.text@[i as int]@);
        }
        let num_val: usize = if sp.line_start <= usize::MAX - i {
            sp.line_start + i
        } else {
            usize::MAX
        };
        let numv = usize_to_chars(num_val);
        let padded = pad4_exec(&numv);
        let nums = chars_to_string(&padded);
        let ghost pre = out@;
        out.append(nums.as_str());
        out.append(" | ");
        out.append(sp.text[i].as_str());
        out.append("\n");
        if i == 0 {
            let sp_count: usize = if sp.column_start >= 1 {
                sp.column_start - 1
            } else {
                0
            };
            let caret_count: usize = if sp.column_end >= sp.column_start {
                sp.column_end - sp.column_start
            } else {
                0
            };
            let spaces = char_repeat_exec(' ', sp_count);
            let carets = char_repeat_exec('^', caret_count);
            out.append("     | ");
            let sps = chars_to_string(&spaces);
            out.append(sps.as_str());
            let crs = chars_to_string(&carets);
            out.append(crs.as_str());
            out.append(" ");
            match &sp.label {
                Some(l) => out.append(l.as_str()),
                None => {},
            }
            out.append("\n");
        }
        proof {
            let num = pad4(dec_chars(spec_line_no(sp@.line_start, i as int)));
            let body = num + " | "@ + sp@.text[i as int] + "\n"@;
            let caret: Seq<char> = if i == 0 {
                let spaces = char_repeat(' ', if sp@.column_start >= 1 {
                    sp@.column_start - 1
                } else {
                    0
                });
                let carets = char_repeat('^', if sp@.column_end >= sp@.column_start {
                    sp@.column_end - sp@.column_start
                } else {
                    0
                });
                let label = match sp@.label {
                    Some(l) => l,
                    None => Seq::<char>::empty(),
                };
                "     | "@ + spaces + carets + " "@ + label + "\n"@
            } else {
                Seq::<char>::empty()
            };
            assert(out@ =~= pre + body + caret);
            assert(spec_text_lines(sp@, i as int) == body + caret + spec_text_lines(
                sp@,
                i as int + 1,
            ));
            assert(base + spec_text_lines(sp@, 0) =~= out@ + spec_text_lines(
                sp@,
                i as int + 1,
            ));
        }
        i += 1;
    }
    proof {
        assert(spec_text_lines(sp@, n as int) =~= Seq::<char>::empty());
        assert(out@ =~= base + spec_text_lines(sp@, 0));
    }
    out
}

/// The delegation-chain block: one indented dash line per chain item.
pub open spec fn spec_chain_block(items: Seq<Seq<char>>, k: int) -> Seq<char>
    decreases items.len() - k,
    when 0 <= k <= items.len()
{
    if k >= items.len() {
        Seq::empty()
    } else {
        "           - "@ + items[k] + "\n"@ + spec_chain_block(items, k + 1)
    }
}

#[verifier::loop_isolation(false)]
fn chain_block_exec(items: &Vec<String>) -> (r: String)
    ensures
        r@ == spec_chain_block(strs_of(items@), 0),
{
    let ghost iv = strs_of(items@);
    let mut out = String::new();
    let n = items.len();
    let mut k: usize = 0;
    while k < n
        invariant
            0 <= k <= n,
            n == iv.len(),
            iv == strs_of(items@),
            spec_chain_block(iv, 0) =~= out@ + spec_chain_block(iv, k as int),
        decreases n - k,
    {
        proof {
            assert(iv[k as int] == items@[k as int]@);
        }
        let ghost pre = out@;
        out.append("           - ");
        out.append(items[k].as_str());
        out.append("\n");
        proof {
            assert(out@ =~= pre + ("           - "@ + iv[k as int] + "\n"@));
            assert(spec_chain_block(iv, 0) =~= out@ + spec_chain_block(iv, k as int + 1));
        }
        k += 1;
    }
    proof {
        assert(out@ + Seq::<char>::empty() =~= out@);
    }
    out
}

/// The simplified note lines of the fallback rendering.
pub open spec fn spec_note_block(children: Seq<ChildNoteV>, k: int) -> Seq<char>
    decreases children.len() - k,
    when 0 <= k <= children.len()
{
    if k >= children.len() {
        Seq::empty()
    } else {
        let rest = spec_note_block(children, k + 1);
        if children[k].level == DiagnosticLevel::Note || children[k].level
            == DiagnosticLevel::Help {
            "   = "@ + spec_level_str(children[k].level) + ": "@ + children[k].message + "\n"@
                + rest
        } else {
            rest
        }
    }
}

#[verifier::loop_isolation(false)]
fn note_block_exec(diagnostic: &RawDiagnostic) -> (r: String)
    ensures
        r@ == spec_note_block(diagnostic@.children, 0),
{
    let mut out = String::new();
    let n = diagnostic.children.len();
    let mut k: usize = 0;
    while k < n
        invariant
            0 <= k <= n,
            n == diagnostic.children@.len(),
            spec_note_block(diagnostic@.children, 0) =~= out@ + spec_note_block(
                diagnostic@.children,
                k as int,
            ),
        decreases n - k,
    {
        let c = &diagnostic.children[k];
        proof {
            assert(diagnostic@.children[k as int] == diagnostic.children@[k as int]@);
        }
        if matches!(c.level, DiagnosticLevel::Note) || matches!(c.level, DiagnosticLevel::Help) {
            let ghost pre = out@;
            out.append("   = ");
            let lv = level_to_string(&c.level);
            out.append(lv);
            out.append(": ");
            out.append(c.message.as_str());
            out.append("\n");
            proof {
                assert(out@ =~= pre + ("   = "@ + spec_level_str(
                    diagnostic@.children[k as int].level,
                ) + ": "@ + diagnostic@.children[k as int].message + "\n"@));
            }
        }
        proof {
            assert(spec_note_block(diagnostic@.children, 0) =~= out@ + spec_note_block(
                diagnostic@.children,
                k as int + 1,
            ));
        }
        k += 1;
    }
    proof {
        assert(out@ + Seq::<char>::empty() =~= out@);
    }
    out
}

/// The full rendered text of a framework diagnostic: the field-specific
/// block with snippet, notes, deduplicated chain and fix suggestions when a
/// missing field was reconstructed; the empty text for a provider-level
/// error that a field-specific record will follow; else the original
/// message with its simplified notes.
pub open spec fn spec_field_block(d: RawDiagnosticV, fi: MissingFieldInfoV) -> Seq<char> {
    let span_part: Seq<char> = match crate::diagnostic_db::spec_first_primary(d) {
        Some(span) => spec_span_block(span),
        None => Seq::empty(),
    };
    let help_line: Seq<char> = if rcm_has_other(d) {
        "   = help: struct `"@ + fi.struct_name + "` is missing the field `"@ + fi.field_name
            + "`\n"@
    } else {
        "   = help: struct `"@ + fi.struct_name + "` is either missing the field `"@
            + fi.field_name + "` or needs `#[derive(HasField)]`\n"@
    };
    let fix_base = "   = help: add `pub "@ + fi.field_name + ": f64` to the `"@ + fi.struct_name
        + "` struct definition"@;
    let fix_line: Seq<char> = if rcm_has_other(d) {
        fix_base + "\n"@
    } else {
        fix_base + " or add `#[derive(HasField)]` if missing\n"@
    };
    spec_header(d) + "missing field `"@ + fi.field_name + "` required by CGP component\n"@
        + span_part + "   |\n"@ + help_line
        + "   = note: this field is required by the trait bound `"@ + fi.required_trait
        + "`\n"@ + "   = note: delegation chain:\n"@ + spec_chain_block(
        spec_chain_lines(d.children, 0, spec_chain_infos(d.children, 0), spec_metadata(d)),
        0,
    ) + fix_line
}

pub open spec fn spec_fallback_block(d: RawDiagnosticV) -> Seq<char> {
    let span_part: Seq<char> = match crate::diagnostic_db::spec_first_primary(d) {
        Some(span) => "  --> "@ + span.file_name + ":"@ + dec_chars(span.line_start) + ":"@
            + dec_chars(span.column_start) + "\n"@,
        None => Seq::empty(),
    };
    spec_header(d) + d.message + "\n"@ + span_part + spec_note_block(d.children, 0)
}

/// The full rendered text of a framework diagnostic: the field-specific
/// block with snippet, notes, deduplicated chain and fix suggestions when a
/// missing field was reconstructed; the empty text for a provider-level
/// error that a field-specific record will follow; else the original
/// message with its simplified notes.
pub open spec fn spec_render_cgp_error(d: RawDiagnosticV) -> Seq<char> {
    let meta = spec_metadata(d);
    let mfi = spec_missing_field_info(d, 0);
    if meta.is_provider_trait_error && mfi is None {
        Seq::empty()
    } else {
        match mfi {
            Some(fi) => spec_field_block(d, fi),
            None => spec_fallback_block(d),
        }
    }
}

#[verifier::loop_isolation(false)]
fn first_primary_span(diagnostic: &RawDiagnostic) -> (r: Option<
    crate::raw_diagnostic::SpanInfo,
>)
    ensures
        opt_view(r) == crate::diagnostic_db::spec_first_primary(diagnostic@),
{
    let n = diagnostic.spans.len();
    let mut k: usize = 0;
    while k < n
        invariant
            0 <= k <= n,
            n == diagnostic.spans@.len(),
            crate::diagnostic_db::spec_first_primary_from(diagnostic@.spans, 0)
                == crate::diagnostic_db::spec_first_primary_from(diagnostic@.spans, k as int),
        decreases n - k,
    {
        proof {
            assert(diagnostic@.spans[k as int] == diagnostic.spans@[k as int]@);
        }
        if diagnostic.spans[k].is_primary {
            return Some(diagnostic.spans[k].clone());
        }
        k += 1;
    }
    None
}

fn render_header(diagnostic: &RawDiagnostic) -> (r: String)
    ensures
        r@ == spec_header(diagnostic@),
{
    let mut out = String::new();
    match &diagnostic.code {
        Some(c) => {
            out.append("error[");
            out.append(c.as_str());
            out.append("]: ");
            proof {
                assert(Seq::<char>::empty() + "error["@ =~= "error["@);
                assert(out@ =~= spec_header(diagnostic@));
            }
        },
        None => {
            out.append("error: ");
            proof {
                assert(out@ =~= spec_header(diagnostic@));
            }
        },
    }
    out
}

#[verifier::rlimit(60)]
fn render_field_block(
    diagnostic: &RawDiagnostic,
    fi: &MissingFieldInfo,
    meta: &CgpErrorMetadata,
    sp: &Option<crate::raw_diagnostic::SpanInfo>,
) -> (r: String)
    requires
        meta@ == spec_metadata(diagnostic@),
        opt_view(*sp) == crate::diagnostic_db::spec_first_primary(diagnostic@),
    ensures
        r@ == spec_field_block(diagnostic@, fi@),
{
    let ghost d = diagnostic@;
    let ghost fiv = fi@;
    let mut out = render_header(diagnostic);
    out.append("missing field `");
    out.append(fi.field_name.as_str());
    out.append("` required by CGP component\n");
    proof {
        assert(out@ =~= spec_header(d) + "missing field `"@ + fiv.field_name
            + "` required by CGP component\n"@);
    }
    let ghost g1 = out@;
    match sp {
        Some(span) => {
            let block = span_block_exec(span);
            out.append(block.as_str());
        },
        None => {},
    }
    proof {
        let span_part: Seq<char> = match crate::diagnostic_db::spec_first_primary(d) {
            Some(span) => spec_span_block(span),
            None => Seq::empty(),
        };
        assert(out@ =~= g1 + span_part);
    }
    out.append("   |\n");
    let ghost g2 = out@;
    let has_other = has_other_hasfield_implementations(diagnostic);
    if has_other {
        out.append("   = help: struct `");
        out.append(fi.struct_name.as_str());
        out.append("` is missing the field `");
        out.append(fi.field_name.as_str());
        out.append("`\n");
    } else {
        out.append("   = help: struct `");
        out.append(fi.struct_name.as_str());
        out.append("` is either missing the field `");
        out.append(fi.field_name.as_str());
        out.append("` or needs `#[derive(HasField)]`\n");
    }
    proof {
        let help_line: Seq<char> = if rcm_has_other(d) {
            "   = help: struct `"@ + fiv.struct_name + "` is missing the field `"@
                + fiv.field_name + "`\n"@
        } else {
            "   = help: struct `"@ + fiv.struct_name + "` is either missing the field `"@
                + fiv.field_name + "` or needs `#[derive(HasField)]`\n"@
        };
        assert(out@ =~= g2 + help_line);
    }
    let ghost g3 = out@;
    out.append("   = note: this field is required by the trait bound `");
    out.append(fi.required_trait.as_str());
    out.append("`\n");
    out.append("   = note: delegation chain:\n");
    proof {
        assert(out@ =~= g3 + ("   = note: this field is required by the trait bound `"@
            + fiv.required_trait + "`\n"@) + "   = note: delegation chain:\n"@);
    }
    let ghost g4 = out@;
    let chain = extract_and_deduplicate_delegation_chain(diagnostic, meta);
    let cblock = chain_block_exec(&chain);
    out.append(cblock.as_str());
    let ghost g5 = out@;
    proof {
        assert(g5 =~= g4 + spec_chain_block(
            spec_chain_lines(d.children, 0, spec_chain_infos(d.children, 0), spec_metadata(d)),
            0,
        ));
    }
    out.append("   = help: add `pub ");
    out.append(fi.field_name.as_str());
    out.append(": f64` to the `");
    out.append(fi.struct_name.as_str());
    out.append("` struct definition");
    if has_other {
        out.append("\n");
    } else {
        out.append(" or add `#[derive(HasField)]` if missing\n");
    }
    proof {
        let fix_base = "   = help: add `pub "@ + fiv.field_name + ": f64` to the `"@
            + fiv.struct_name + "` struct definition"@;
        let fix_line: Seq<char> = if rcm_has_other(d) {
            fix_base + "\n"@
        } else {
            fix_base + " or add `#[derive(HasField)]` if missing\n"@
        };
        assert(out@ =~= g5 + fix_line);
        assert(out@ =~= spec_field_block(d, fiv));
    }
    out
}

#[verifier::rlimit(60)]
fn render_plain_block(
    diagnostic: &RawDiagnostic,
    sp: &Option<crate::raw_diagnostic::SpanInfo>,
) -> (r: String)
    requires
        opt_view(*sp) == crate::diagnostic_db::spec_first_primary(diagnostic@),
    ensures
        r@ == spec_fallback_block(diagnostic@),
{
    let ghost d = diagnostic@;
    let mut out = render_header(diagnostic);
    out.append(diagnostic.message.as_str());
    out.append("\n");
    let ghost g1 = out@;
    match sp {
        Some(span) => {
            out.append("  --> ");
            out.append(span.file_name.as_str());
            out.append(":");
            let l1 = usize_to_chars(span.line_start);
            let l1s = chars_to_string(&l1);
            out.append(l1s.as_str());
            out.append(":");
            let c1 = usize_to_chars(span.column_start);
            let c1s = chars_to_string(&c1);
            out.append(c1s.as_str());
            out.append("\n");
        },
        None => {},
    }
    proof {
        let span_part: Seq<char> = match crate::diagnostic_db::spec_first_primary(d) {
            Some(span) => "  --> "@ + span.file_name + ":"@ + dec_chars(span.line_start) + ":"@
                + dec_chars(span.column_start) + "\n"@,
            None => Seq::empty(),
        };
        assert(out@ =~= g1 + span_part);
    }
    let notes = note_block_exec(diagnostic);
    out.append(notes.as_str());
    proof {
        assert(out@ =~= spec_fallback_block(d));
    }
    out
}

/// Renders one framework diagnostic as annotated text.
pub fn render_cgp_error(diagnostic: &RawDiagnostic) -> (r: String)
    ensures
        r@ == spec_render_cgp_error(diagnostic@),
{
    let meta = CgpErrorMetadata::from_diagnostic(diagnostic);
    let mfi = extract_missing_field_info(diagnostic);
    let sp = first_primary_span(diagnostic);
    if meta.is_provider_trait_error && mfi.is_none() {
        let out = String::new();
        proof {
            assert(out@ =~= spec_render_cgp_error(diagnostic@));
        }
        return out;
    }
    match mfi {
        Some(fi) => render_field_block(diagnostic, &fi, &meta, &sp),
        None => render_plain_block(diagnostic, &sp),
    }
}

/// Renders one compiler record: framework-related diagnostics get the
/// framework-aware text, everything else passes through as the toolchain
/// rendered it.
pub fn render_compiler_message(diagnostic: &RawDiagnostic) -> (r: String)
    ensures
        spec_is_cgp_error(diagnostic@) ==> r@ == spec_render_cgp_error(diagnostic@),
        !spec_is_cgp_error(diagnostic@) ==> r@ == (match diagnostic@.rendered {
            Some(t) => t,
            None => Seq::<char>::empty(),
        }),
{
    if is_cgp_error(diagnostic) {
        render_cgp_error(diagnostic)
    } else {
        match &diagnostic.rendered {
            Some(t) => t.clone(),
            None => String::new(),
        }
    }
}

} // verus!
