//! Recognizes framework-specific shapes inside free-form diagnostic text:
//! capability markers, field-requirement markers encoded as nested typed
//! character lists, provider-relationship markers, and consumer-interface
//! notes.  Every extractor returns an absence value on malformed input;
//! absence of a match is a normal, silent outcome.

use vstd::prelude::*;
use crate::raw_diagnostic::{ChildNoteV, DiagnosticLevel, RawDiagnostic, RawDiagnosticV};
use crate::text::{
    all_digits, alphabetic_like, alphanumeric_like, char_is_alphabetic, char_is_alphanumeric,
    chars_to_string, close_from, close_pos, comma_at_depth, comma_from, contains_pat,
    contains_sub, digits_part, digits_val, ends_with_pat, find_char_at, find_char_from, find_from,
    find_pat, find_pat_from, find_sub, is_digit_char, last_path_segment, last_path_segment_exec,
    lemma_skip_word_bounds, lemma_skip_ws_bounds, match_at, match_here, opt_idx, opt_str,
    opt_view, parse_usize_spec, replace_all, replace_all_chars, rfind_pat, rfind_sub,
    skip_word_exec, skip_word_spec, skip_ws_exec, skip_ws_spec, subvec, to_char_vec,
    trim_back_char, trim_back_char_exec, trim_chars, trim_spec, whitespace_like, word_trim,
    word_trim_exec,
};

verus! {

/// A recognized capability: its full type name and the provider-interface
/// short name derived from it by stripping the conventional suffix.
#[derive(Debug)]
pub struct ComponentInfo {
    pub component_type: String,
    pub provider_trait: Option<String>,
}

/// Ghost view of a recognized capability.
#[verifier::ext_equal]
pub struct ComponentInfoV {
    pub component_type: Seq<char>,
    pub provider_trait: Option<Seq<char>>,
}

impl View for ComponentInfo {
    type V = ComponentInfoV;

    open spec fn view(&self) -> ComponentInfoV {
        ComponentInfoV {
            component_type: self.component_type@,
            provider_trait: opt_str(self.provider_trait),
        }
    }
}

impl Clone for ComponentInfo {
    fn clone(&self) -> (r: Self)
        ensures
            r == *self,
    {
        ComponentInfo {
            component_type: self.component_type.clone(),
            provider_trait: crate::raw_diagnostic::clone_opt_string(&self.provider_trait),
        }
    }
}

/// A reconstructed field requirement: the field name, whether the name is
/// complete, whether the compiler redacted characters while printing it, and
/// the context record type that is missing the field.
#[derive(Debug)]
pub struct FieldInfo {
    pub field_name: String,
    pub is_complete: bool,
    pub has_unknown_chars: bool,
    pub target_type: String,
}

/// Ghost view of a field requirement.
#[verifier::ext_equal]
pub struct FieldInfoV {
    pub field_name: Seq<char>,
    pub is_complete: bool,
    pub has_unknown_chars: bool,
    pub target_type: Seq<char>,
}

impl View for FieldInfo {
    type V = FieldInfoV;

    open spec fn view(&self) -> FieldInfoV {
        FieldInfoV {
            field_name: self.field_name@,
            is_complete: self.is_complete,
            has_unknown_chars: self.has_unknown_chars,
            target_type: self.target_type@,
        }
    }
}

impl Clone for FieldInfo {
    fn clone(&self) -> (r: Self)
        ensures
            r == *self,
    {
        FieldInfo {
            field_name: self.field_name.clone(),
            is_complete: self.is_complete,
            has_unknown_chars: self.has_unknown_chars,
            target_type: self.target_type.clone(),
        }
    }
}

/// One provider-relationship fact: the provider type is required to supply
/// the capability for the context type.
#[derive(Debug)]
pub struct ProviderRelationship {
    pub provider_type: String,
    pub component: String,
    pub context: String,
}

/// Ghost view of a provider-relationship fact.
#[verifier::ext_equal]
pub struct ProviderRelationshipV {
    pub provider_type: Seq<char>,
    pub component: Seq<char>,
    pub context: Seq<char>,
}

impl View for ProviderRelationship {
    type V = ProviderRelationshipV;

    open spec fn view(&self) -> ProviderRelationshipV {
        ProviderRelationshipV {
            provider_type: self.provider_type@,
            component: self.component@,
            context: self.context@,
        }
    }
}

impl Clone for ProviderRelationship {
    fn clone(&self) -> (r: Self)
        ensures
            r == *self,
    {
        ProviderRelationship {
            provider_type: self.provider_type.clone(),
            component: self.component.clone(),
            context: self.context.clone(),
        }
    }
}

impl ProviderRelationship {
    /// Whether two relationship facts are field-for-field identical.
    pub fn same_as(&self, other: &ProviderRelationship) -> (r: bool)
        ensures
            r == (self@ == other@),
    {
        let r = self.provider_type == other.provider_type && self.component == other.component
            && self.context == other.context;
        proof {
            if r {
                assert(self@ =~= other@);
            }
        }
        r
    }
}

/// The provider-interface short name for a capability name: everything
/// before the last occurrence of the conventional suffix, when non-empty.
pub open spec fn spec_derive_provider_trait_name(s: Seq<char>) -> Option<Seq<char>> {
    match rfind_sub(s, "Component"@) {
        Some(p) => if p > 0 {
            Some(s.subrange(0, p))
        } else {
            None
        },
        None => None,
    }
}

/// The capability record derived from a capability type name.
pub open spec fn component_info_of(ct: Seq<char>) -> ComponentInfoV {
    ComponentInfoV { component_type: ct, provider_trait: spec_derive_provider_trait_name(ct) }
}

pub(crate) fn derive_provider_trait_chars(name: &Vec<char>) -> (r: Option<Vec<char>>)
    ensures
        opt_view(r) == spec_derive_provider_trait_name(name@),
{
    let pat = to_char_vec("Component");
    match rfind_pat(name, &pat) {
        Some(p) => {
            if p > 0 {
                Some(subvec(name, 0, p))
            } else {
                None
            }
        },
        None => None,
    }
}

/// Derives the provider-interface name from a capability name by removing
/// the conventional suffix.
pub fn derive_provider_trait_name(component_name: &str) -> (r: Option<String>)
    ensures
        opt_str(r) == spec_derive_provider_trait_name(component_name@),
{
    let v = to_char_vec(component_name);
    match derive_provider_trait_chars(&v) {
        Some(t) => Some(chars_to_string(&t)),
        None => None,
    }
}

/// The balanced-bracket substring starting at `p` (just after an opening
/// `<`): everything up to the matching `>`, trimmed; when the input is
/// truncated, the best-effort remainder with trailing `>` removed, trimmed.
pub open spec fn spec_extract_balanced(s: Seq<char>, p: int) -> Seq<char>
    recommends
        0 <= p <= s.len(),
{
    match close_from(s, p, 1) {
        Some(e) => trim_spec(s.subrange(p, e)),
        None => trim_spec(trim_back_char(s.subrange(p, s.len() as int), '>')),
    }
}

pub(crate) fn extract_balanced_chars(text: &Vec<char>, start: usize) -> (r: Vec<char>)
    requires
        start <= text@.len(),
    ensures
        r@ == spec_extract_balanced(text@, start as int),
{
    match close_pos(text, start) {
        Some(e) => {
            let part = subvec(text, start, e);
            trim_chars(&part)
        },
        None => {
            let n = text.len();
            let part = subvec(text, start, n);
            let stripped = trim_back_char_exec(&part, '>');
            trim_chars(&stripped)
        },
    }
}

/// Extracts a balanced generic type from `text`, starting just after an
/// opening `<` at character position `start_pos`.
pub fn extract_balanced_generic(text: &str, start_pos: usize) -> (r: Option<String>)
    requires
        start_pos <= text@.len(),
    ensures
        opt_str(r) == Some(spec_extract_balanced(text@, start_pos as int)),
{
    let v = to_char_vec(text);
    let b = extract_balanced_chars(&v, start_pos);
    Some(chars_to_string(&b))
}

/// The capability extracted from a capability-check marker: the balanced
/// bracket group following the marker.
pub open spec fn spec_extract_component_from_can_use(s: Seq<char>) -> Option<ComponentInfoV> {
    match find_sub(s, "CanUseComponent<"@) {
        Some(st) => Some(
            component_info_of(spec_extract_balanced(s, st + "CanUseComponent<"@.len())),
        ),
        None => None,
    }
}

fn component_info_from_chars(ct: Vec<char>) -> (r: ComponentInfo)
    ensures
        r@ == component_info_of(ct@),
{
    let pt = derive_provider_trait_chars(&ct);
    ComponentInfo {
        component_type: chars_to_string(&ct),
        provider_trait: match pt {
            Some(t) => Some(chars_to_string(&t)),
            None => None,
        },
    }
}

/// Extracts the capability named by a capability-check marker.
pub fn extract_component_from_can_use(message: &str) -> (r: Option<ComponentInfo>)
    ensures
        opt_view(r) == spec_extract_component_from_can_use(message@),
{
    let text = to_char_vec(message);
    let pat = to_char_vec("CanUseComponent<");
    let n = text.len();
    match find_pat(&text, &pat) {
        Some(st) => {
            let ct = extract_balanced_chars(&text, st + pat.len());
            Some(component_info_from_chars(ct))
        },
        None => None,
    }
}

/// Start position of a component reference inside a word, walking backward
/// from `i` and skipping over balanced generics; `depth` counts the `>`
/// brackets not yet matched by `<`.
pub open spec fn comp_start(s: Seq<char>, i: int, depth: int) -> int
    decreases i + 1,
    when i < s.len()
{
    if i < 0 {
        0
    } else if s[i] == '>' {
        comp_start(s, i - 1, depth + 1)
    } else if s[i] == '<' {
        comp_start(s, i - 1, depth - 1)
    } else if depth == 0 && !alphanumeric_like(s[i]) && s[i] != '_' {
        i + 1
    } else {
        comp_start(s, i - 1, depth)
    }
}

proof fn lemma_comp_start_bounds(s: Seq<char>, i: int, depth: int)
    requires
        -1 <= i < s.len(),
    ensures
        0 <= comp_start(s, i, depth) <= i + 1,
    decreases i + 1,
{
    if i >= 0 {
        if s[i] == '>' {
            lemma_comp_start_bounds(s, i - 1, depth + 1);
        } else if s[i] == '<' {
            lemma_comp_start_bounds(s, i - 1, depth - 1);
        } else if depth == 0 && !alphanumeric_like(s[i]) && s[i] != '_' {
        } else {
            lemma_comp_start_bounds(s, i - 1, depth);
        }
    }
}

#[verifier::loop_isolation(false)]
fn comp_start_exec(b: &Vec<char>) -> (r: usize)
    ensures
        r == comp_start(b@, b@.len() - 1, 0),
        r <= b@.len(),
{
    let n = b.len();
    if n == 0 {
        return 0;
    }
    let mut i = n;
    let mut gt: usize = 0;
    let mut lt: usize = 0;
    while i > 0
        invariant
            0 <= i <= n,
            gt <= n - i,
            lt <= n - i,
            comp_start(b@, n as int - 1, 0) == comp_start(b@, i as int - 1, gt as int - lt as int),
        decreases i,
    {
        let c = b[i - 1];
        if c == '>' {
            gt += 1;
        } else if c == '<' {
            lt += 1;
        } else if gt == lt && !char_is_alphanumeric(c) && c != '_' {
            proof {
                lemma_comp_start_bounds(b@, n as int - 1, 0);
            }
            return i;
        }
        i -= 1;
    }
    0
}

/// The component type name found inside a cleaned word: the word itself when
/// it plainly ends with the conventional suffix, else the reference ending
/// at the last suffix occurrence, walked back over balanced generics.
pub open spec fn spec_extract_component_type_name(s: Seq<char>) -> Option<Seq<char>> {
    let cpat = "Component"@;
    if s.len() >= cpat.len() && match_at(s, cpat, s.len() - cpat.len()) && find_char_from(
        s,
        '<',
        0,
    ) is None {
        Some(s)
    } else {
        match rfind_sub(s, cpat) {
            Some(pos) => {
                let b = s.subrange(0, pos + cpat.len());
                Some(b.subrange(comp_start(b, b.len() - 1, 0), b.len() as int))
            },
            None => None,
        }
    }
}

fn extract_component_type_name_chars(text: &Vec<char>) -> (r: Option<Vec<char>>)
    ensures
        opt_view(r) == spec_extract_component_type_name(text@),
{
    let cpat = to_char_vec("Component");
    let no_generic = match find_char_at(text, '<', 0) {
        Some(_) => false,
        None => true,
    };
    if ends_with_pat(text, &cpat) && no_generic {
        let n = text.len();
        let r = subvec(text, 0, n);
        proof {
            assert(text@.subrange(0, text@.len() as int) =~= text@);
        }
        Some(r)
    } else {
        match rfind_pat(text, &cpat) {
            Some(pos) => {
                let n = text.len();
                proof {
                    assert(pos + cpat@.len() <= n);
                }
                let b = subvec(text, 0, pos + cpat.len());
                let st = comp_start_exec(&b);
                Some(subvec(&b, st, b.len()))
            },
            None => None,
        }
    }
}

pub proof fn lemma_skip_ws_stops(s: Seq<char>, i: int)
    requires
        0 <= i <= s.len(),
    ensures
        skip_ws_spec(s, i) == s.len() || (skip_ws_spec(s, i) < s.len() && !whitespace_like(
            s[skip_ws_spec(s, i)],
        )),
    decreases s.len() - i,
{
    if i < s.len() && whitespace_like(s[i]) {
        lemma_skip_ws_stops(s, i + 1);
    }
}

/// The first word of the message whose trimmed form holds a capability
/// reference, as a capability record.
pub open spec fn find_component_in_words(s: Seq<char>, i: int) -> Option<ComponentInfoV>
    decreases s.len() - i,
    when 0 <= i <= s.len()
    via find_component_in_words_dec
{
    let a = skip_ws_spec(s, i);
    if a >= s.len() {
        None
    } else {
        let b = skip_word_spec(s, a);
        let w = word_trim(s.subrange(a, b));
        if contains_sub(w, "Component"@) {
            match spec_extract_component_type_name(w) {
                Some(ct) => Some(component_info_of(ct)),
                None => find_component_in_words(s, b),
            }
        } else {
            find_component_in_words(s, b)
        }
    }
}

#[via_fn]
proof fn find_component_in_words_dec(s: Seq<char>, i: int) {
    lemma_skip_ws_bounds(s, i);
    lemma_skip_ws_stops(s, i);
    let a = skip_ws_spec(s, i);
    if a < s.len() {
        assert(skip_word_spec(s, a) == skip_word_spec(s, a + 1));
        lemma_skip_word_bounds(s, a + 1);
    }
}

/// The capability recognized anywhere in a message: an explicit
/// capability-check marker first, else a word carrying the conventional
/// suffix.
pub open spec fn spec_extract_component_info(s: Seq<char>) -> Option<ComponentInfoV> {
    match spec_extract_component_from_can_use(s) {
        Some(ci) => Some(ci),
        None => find_component_in_words(s, 0),
    }
}

/// Extracts capability information from any recognized marker in a message.
#[verifier::loop_isolation(false)]
pub fn extract_component_info(message: &str) -> (r: Option<ComponentInfo>)
    ensures
        opt_view(r) == spec_extract_component_info(message@),
{
    if let Some(info) = extract_component_from_can_use(message) {
        return Some(info);
    }
    let text = to_char_vec(message);
    let n = text.len();
    let cpat = to_char_vec("Component");
    let mut i: usize = 0;
    loop
        invariant
            0 <= i <= n,
            find_component_in_words(text@, 0) == find_component_in_words(text@, i as int),
        decreases n - i,
    {
        let a = skip_ws_exec(&text, i);
        if a >= n {
            return None;
        }
        let b = skip_word_exec(&text, a);
        proof {
            lemma_skip_ws_stops(text@, i as int);
            assert(!whitespace_like(text@[a as int]));
            assert(skip_word_spec(text@, a as int) == skip_word_spec(text@, a as int + 1));
            lemma_skip_word_bounds(text@, a as int + 1);
        }
        let w0 = subvec(&text, a, b);
        let w = word_trim_exec(&w0);
        if contains_pat(&w, &cpat) {
            match extract_component_type_name_chars(&w) {
                Some(ct) => {
                    return Some(component_info_from_chars(ct));
                },
                None => {},
            }
        }
        i = b;
    }
}

/// What a well-formed numeric length marker in the text denotes: the value
/// after the marker token, up to the following comma, as a mathematical
/// number.
pub open spec fn spec_extract_symbol_length(s: Seq<char>) -> Option<int> {
    match find_sub(s, "Symbol<"@) {
        Some(st) => {
            let a = st + "Symbol<"@.len();
            match find_char_from(s, ',', a) {
                Some(cp) => parse_usize_spec(trim_spec(s.subrange(a, cp))),
                None => None,
            }
        },
        None => None,
    }
}

/// Outcome of parsing a decimal length: a machine value, a well-formed
/// number too large for `usize`, or no number at all.
pub enum ParseOutcome {
    Value(usize),
    TooLarge,
    Malformed,
}

/// Parses `text` as a decimal `usize`, distinguishing overflow from
/// malformed input.
#[verifier::loop_isolation(false)]
pub fn parse_usize_classified(text: &Vec<char>) -> (r: ParseOutcome)
    ensures
        match r {
            ParseOutcome::Value(v) => parse_usize_spec(text@) == Some(v as int),
            ParseOutcome::TooLarge => parse_usize_spec(text@) matches Some(w) && w > usize::MAX,
            ParseOutcome::Malformed => parse_usize_spec(text@) is None,
        },
{
    let n = text.len();
    let start: usize = if n > 0 && text[0] == '+' {
        1
    } else {
        0
    };
    let ghost d = digits_part(text@);
    proof {
        assert(text@.subrange(0, text@.len() as int) =~= text@);
        assert(d =~= text@.subrange(start as int, text@.len() as int));
    }
    if start >= n {
        return ParseOutcome::Malformed;
    }
    let mut acc: usize = 0;
    let mut too_large = false;
    let mut i = start;
    while i < n
        invariant
            start <= i <= n,
            start < n,
            all_digits(d.subrange(0, i - start)),
            !too_large ==> acc as int == digits_val(d.subrange(0, i - start)),
            too_large ==> digits_val(d.subrange(0, i - start)) > usize::MAX,
        decreases n - i,
    {
        let c = text[i];
        let cu = c as u32;
        if cu < '0' as u32 || cu > '9' as u32 {
            proof {
                assert(d[i - start] == text@[i as int]);
                assert(!is_digit_char(d[i - start]));
                assert(!all_digits(d));
            }
            return ParseOutcome::Malformed;
        }
        let dv: usize = (cu - '0' as u32) as usize;
        proof {
            assert(d[i - start] == text@[i as int]);
            assert(d.subrange(0, i - start + 1).drop_last() =~= d.subrange(0, i - start));
            assert(all_digits(d.subrange(0, i - start + 1)));
            lemma_digits_val_nonneg(d.subrange(0, i - start));
        }
        if too_large || acc > (usize::MAX - dv) / 10 {
            too_large = true;
        } else {
            acc = acc * 10 + dv;
        }
        i += 1;
    }
    proof {
        assert(d.subrange(0, n - start) =~= d);
    }
    if too_large {
        ParseOutcome::TooLarge
    } else {
        ParseOutcome::Value(acc)
    }
}

pub proof fn lemma_digits_val_nonneg(s: Seq<char>)
    requires
        all_digits(s),
    ensures
        digits_val(s) >= 0,
    decreases s.len(),
{
    if s.len() > 0 {
        assert(all_digits(s.drop_last()));
        lemma_digits_val_nonneg(s.drop_last());
    }
}

/// Extracts the declared field-name length from a length marker.
pub fn extract_symbol_length(text: &str) -> (r: Option<usize>)
    ensures
        r matches Some(v) ==> spec_extract_symbol_length(text@) == Some(v as int),
        r is None ==> (spec_extract_symbol_length(text@) is None || (spec_extract_symbol_length(
            text@,
        ) matches Some(w) && w > usize::MAX)),
{
    match symbol_length_classified(text) {
        ParseOutcome::Value(v) => Some(v),
        ParseOutcome::TooLarge => None,
        ParseOutcome::Malformed => None,
    }
}

pub(crate) fn symbol_length_classified(text: &str) -> (r: ParseOutcome)
    ensures
        match r {
            ParseOutcome::Value(v) => spec_extract_symbol_length(text@) == Some(v as int),
            ParseOutcome::TooLarge => spec_extract_symbol_length(text@) matches Some(w) && w
                > usize::MAX,
            ParseOutcome::Malformed => spec_extract_symbol_length(text@) is None,
        },
{
    let v = to_char_vec(text);
    let pat = to_char_vec("Symbol<");
    let n = v.len();
    match find_pat(&v, &pat) {
        Some(st) => {
            let a = st + pat.len();
            match find_char_at(&v, ',', a) {
                Some(cp) => {
                    let part = subvec(&v, a, cp);
                    let trimmed = trim_chars(&part);
                    parse_usize_classified(&trimmed)
                },
                None => ParseOutcome::Malformed,
            }
        },
        None => ParseOutcome::Malformed,
    }
}

/// A character shown inside a character marker that contributes to the
/// reconstructed name: not a quote, not the redaction placeholder, and
/// alphabetic.
pub open spec fn keeps_char(c: char) -> bool {
    c != '\'' && c != '_' && alphabetic_like(c)
}

/// The characters collected from every character marker at or after `i`.
pub open spec fn collect_chars_from(s: Seq<char>, i: int) -> Seq<char>
    decreases s.len() - i,
    when 0 <= i <= s.len()
{
    if i >= s.len() {
        Seq::empty()
    } else {
        let rest = collect_chars_from(s, i + 1);
        let cpos = i + "Chars<'"@.len();
        if match_at(s, "Chars<'"@, i) && cpos < s.len() && keeps_char(s[cpos]) {
            seq![s[cpos]] + rest
        } else {
            rest
        }
    }
}

/// Whether any character marker at or after `i` shows the redaction
/// placeholder.
pub open spec fn has_placeholder_from(s: Seq<char>, i: int) -> bool
    decreases s.len() - i,
    when 0 <= i <= s.len()
{
    if i >= s.len() {
        false
    } else {
        let cpos = i + "Chars<'"@.len();
        (match_at(s, "Chars<'"@, i) && cpos < s.len() && s[cpos] == '_') || has_placeholder_from(
            s,
            i + 1,
        )
    }
}

#[verifier::loop_isolation(false)]
pub(crate) fn collect_chars_exec(text: &Vec<char>) -> (r: (Vec<char>, bool))
    ensures
        r.0@ == collect_chars_from(text@, 0),
        r.1 == has_placeholder_from(text@, 0),
{
    let n = text.len();
    let pat = to_char_vec("Chars<'");
    let mut out: Vec<char> = Vec::new();
    let mut saw_placeholder = false;
    let mut i: usize = 0;
    while i < n
        invariant
            0 <= i <= n,
            pat@ == "Chars<'"@,
            collect_chars_from(text@, 0) =~= out@ + collect_chars_from(text@, i as int),
            has_placeholder_from(text@, 0) == (saw_placeholder || has_placeholder_from(
                text@,
                i as int,
            )),
        decreases n - i,
    {
        if n - i >= pat.len() && match_here(text, &pat, i) {
            let cpos = i + pat.len();
            if cpos < n {
                let ch = text[cpos];
                if ch == '_' {
                    saw_placeholder = true;
                }
                if ch != '\'' && ch != '_' && char_is_alphabetic(ch) {
                    out.push(ch);
                }
            }
        }
        i += 1;
    }
    (out, saw_placeholder)
}

/// Collects the visible field-name characters from the character markers of
/// the message.
pub fn extract_chars_from_pattern(text: &str) -> (r: Vec<char>)
    ensures
        r@ == collect_chars_from(text@, 0),
{
    let v = to_char_vec(text);
    let (out, _) = collect_chars_exec(&v);
    out
}

/// The part of the message before any competing trait listing.
pub open spec fn spec_relevant_part(s: Seq<char>) -> Seq<char> {
    match find_sub(s, "but trait"@) {
        Some(p) => s.subrange(0, p),
        None => s,
    }
}

/// The reconstructed field name and its completeness: the collected marker
/// characters, complete exactly when their count equals the declared length.
pub open spec fn spec_field_name_parts(s: Seq<char>) -> Option<(Seq<char>, bool)> {
    let rel = spec_relevant_part(s);
    match spec_extract_symbol_length(rel) {
        Some(len) => {
            let cs = collect_chars_from(rel, 0);
            if cs.len() == 0 {
                None
            } else {
                Some((cs, cs.len() as int == len))
            }
        },
        None => None,
    }
}

fn relevant_part_chars(text: &Vec<char>) -> (r: Vec<char>)
    ensures
        r@ == spec_relevant_part(text@),
{
    let pat = to_char_vec("but trait");
    match find_pat(text, &pat) {
        Some(p) => subvec(text, 0, p),
        None => {
            let n = text.len();
            let r = subvec(text, 0, n);
            proof {
                assert(text@.subrange(0, text@.len() as int) =~= text@);
            }
            r
        },
    }
}

/// Reconstructs the field name from the length and character markers of a
/// message; the flag says whether the name is complete.
pub fn extract_field_name_from_symbol(message: &str) -> (r: Option<(String, bool)>)
    ensures
        match r {
            Some(p) => spec_field_name_parts(message@) == Some((p.0@, p.1)),
            None => spec_field_name_parts(message@) is None,
        },
{
    let v = to_char_vec(message);
    match field_name_parts_chars(&v) {
        Some((name, complete, _)) => Some((chars_to_string(&name), complete)),
        None => None,
    }
}

fn field_name_parts_chars(text: &Vec<char>) -> (r: Option<(Vec<char>, bool, bool)>)
    ensures
        match r {
            Some(p) => spec_field_name_parts(text@) == Some((p.0@, p.1)) && p.2
                == has_placeholder_from(spec_relevant_part(text@), 0),
            None => spec_field_name_parts(text@) is None,
        },
{
    let rel = relevant_part_chars(text);
    let rel_str = chars_to_string(&rel);
    let outcome = symbol_length_classified(rel_str.as_str());
    let (cs, saw_placeholder) = collect_chars_exec(&rel);
    match outcome {
        ParseOutcome::Value(len) => {
            if cs.len() == 0 {
                None
            } else {
                let complete = cs.len() == len;
                Some((cs, complete, saw_placeholder))
            }
        },
        ParseOutcome::TooLarge => {
            if cs.len() == 0 {
                None
            } else {
                Some((cs, false, saw_placeholder))
            }
        },
        ParseOutcome::Malformed => None,
    }
}

/// The record type named after a "not implemented for" phrase, with its
/// module path removed.
pub open spec fn spec_extract_type_not_implemented(s: Seq<char>) -> Option<Seq<char>> {
    match find_sub(s, "is not implemented for `"@) {
        Some(st) => {
            let a = st + "is not implemented for `"@.len();
            match find_char_from(s, '`', a) {
                Some(e) => Some(last_path_segment(s.subrange(a, e))),
                None => None,
            }
        },
        None => None,
    }
}

fn extract_type_not_implemented_chars(text: &Vec<char>) -> (r: Option<Vec<char>>)
    ensures
        opt_view(r) == spec_extract_type_not_implemented(text@),
{
    let pat = to_char_vec("is not implemented for `");
    let n = text.len();
    match find_pat(text, &pat) {
        Some(st) => {
            let a = st + pat.len();
            match find_char_at(text, '`', a) {
                Some(e) => {
                    let part = subvec(text, a, e);
                    Some(last_path_segment_exec(&part))
                },
                None => None,
            }
        },
        None => None,
    }
}

/// Whether a child note carries a field-requirement marker.
pub open spec fn child_matches_field(c: ChildNoteV) -> bool {
    c.level == DiagnosticLevel::Help && contains_sub(c.message, "HasField"@) && contains_sub(
        c.message,
        "is not implemented for"@,
    )
}

/// The field requirement of one matching child message.
pub open spec fn spec_field_info_of_message(m: Seq<char>) -> Option<FieldInfoV> {
    match spec_field_name_parts(m) {
        Some(p) => match spec_extract_type_not_implemented(m) {
            Some(t) => Some(
                FieldInfoV {
                    field_name: p.0,
                    is_complete: p.1,
                    has_unknown_chars: has_placeholder_from(spec_relevant_part(m), 0),
                    target_type: t,
                },
            ),
            None => None,
        },
        None => None,
    }
}

/// The field requirement of the first matching child, if any.
pub open spec fn spec_extract_field_info_from(children: Seq<ChildNoteV>, k: int) -> Option<
    FieldInfoV,
>
    decreases children.len() - k,
    when 0 <= k <= children.len()
{
    if k >= children.len() {
        None
    } else if child_matches_field(children[k]) {
        spec_field_info_of_message(children[k].message)
    } else {
        spec_extract_field_info_from(children, k + 1)
    }
}

/// The field requirement extracted from a diagnostic's child notes.
pub open spec fn spec_extract_field_info(d: RawDiagnosticV) -> Option<FieldInfoV> {
    spec_extract_field_info_from(d.children, 0)
}

fn child_matches_field_exec(c: &crate::raw_diagnostic::ChildNote) -> (r: bool)
    ensures
        r == child_matches_field(c@),
{
    if !matches!(c.level, DiagnosticLevel::Help) {
        return false;
    }
    let m = to_char_vec(c.message.as_str());
    let p1 = to_char_vec("HasField");
    let p2 = to_char_vec("is not implemented for");
    contains_pat(&m, &p1) && contains_pat(&m, &p2)
}

fn field_info_of_message(m: &String) -> (r: Option<FieldInfo>)
    ensures
        opt_view(r) == spec_field_info_of_message(m@),
{
    let v = to_char_vec(m.as_str());
    match field_name_parts_chars(&v) {
        Some((name, complete, unknown)) => {
            match extract_type_not_implemented_chars(&v) {
                Some(t) => Some(
                    FieldInfo {
                        field_name: chars_to_string(&name),
                        is_complete: complete,
                        has_unknown_chars: unknown,
                        target_type: chars_to_string(&t),
                    },
                ),
                None => None,
            }
        },
        None => None,
    }
}

/// Extracts the field requirement announced by a diagnostic's child notes.
#[verifier::loop_isolation(false)]
pub fn extract_field_info(diagnostic: &RawDiagnostic) -> (r: Option<FieldInfo>)
    ensures
        opt_view(r) == spec_extract_field_info(diagnostic@),
{
    let n = diagnostic.children.len();
    let mut k: usize = 0;
    while k < n
        invariant
            0 <= k <= n,
            n == diagnostic.children@.len(),
            spec_extract_field_info(diagnostic@) == spec_extract_field_info_from(
                diagnostic@.children,
                k as int,
            ),
        decreases n - k,
    {
        let c = &diagnostic.children[k];
        proof {
            assert(diagnostic@.children[k as int] == diagnostic.children@[k as int]@);
        }
        if child_matches_field_exec(c) {
            return field_info_of_message(&c.message);
        }
        k += 1;
    }
    None
}

/// The provider type named before a "to implement" phrase, with its module
/// path removed.
pub open spec fn spec_extract_type_for_to_implement(s: Seq<char>) -> Option<Seq<char>> {
    match find_sub(s, "for `"@) {
        Some(st) => {
            let a = st + "for `"@.len();
            match find_from(s, "` to"@, a) {
                Some(e) => Some(last_path_segment(s.subrange(a, e))),
                None => None,
            }
        },
        None => None,
    }
}

fn extract_type_for_to_implement_chars(text: &Vec<char>) -> (r: Option<Vec<char>>)
    ensures
        opt_view(r) == spec_extract_type_for_to_implement(text@),
{
    let pat = to_char_vec("for `");
    let n = text.len();
    match find_pat(text, &pat) {
        Some(st) => {
            let a = st + pat.len();
            let pat2 = to_char_vec("` to");
            match find_pat_from(text, &pat2, a) {
                Some(e) => {
                    let part = subvec(text, a, e);
                    Some(last_path_segment_exec(&part))
                },
                None => None,
            }
        },
        None => None,
    }
}

/// The provider-relationship fact carried by a relationship marker: the
/// provider type, then the capability and the context type split at the
/// top-level comma of the marker's bracket group.
pub open spec fn spec_extract_provider_relationship(s: Seq<char>) -> Option<
    ProviderRelationshipV,
> {
    if !contains_sub(s, "IsProviderFor"@) {
        None
    } else {
        match spec_extract_type_for_to_implement(s) {
            Some(pt) => match find_sub(s, "IsProviderFor<"@) {
                Some(st) => {
                    let a = st + "IsProviderFor<"@.len();
                    match comma_from(s, a, 0) {
                        Some(cp) => Some(
                            ProviderRelationshipV {
                                provider_type: pt,
                                component: trim_spec(s.subrange(a, cp)),
                                context: spec_extract_balanced(s, cp + 1),
                            },
                        ),
                        None => None,
                    }
                },
                None => None,
            },
            None => None,
        }
    }
}

/// Extracts the provider-relationship fact announced by a relationship
/// marker in the message.
pub fn extract_provider_relationship(message: &str) -> (r: Option<ProviderRelationship>)
    ensures
        opt_view(r) == spec_extract_provider_relationship(message@),
{
    let text = to_char_vec(message);
    let probe = to_char_vec("IsProviderFor");
    if !contains_pat(&text, &probe) {
        return None;
    }
    let pt = match extract_type_for_to_implement_chars(&text) {
        Some(pt) => pt,
        None => {
            return None;
        },
    };
    let pat = to_char_vec("IsProviderFor<");
    let n = text.len();
    match find_pat(&text, &pat) {
        Some(st) => {
            let a = st + pat.len();
            match comma_at_depth(&text, a) {
                Some(cp) => {
                    let comp_part = subvec(&text, a, cp);
                    let component = trim_chars(&comp_part);
                    let context = extract_balanced_chars(&text, cp + 1);
                    Some(
                        ProviderRelationship {
                            provider_type: chars_to_string(&pt),
                            component: chars_to_string(&component),
                            context: chars_to_string(&context),
                        },
                    )
                },
                None => None,
            }
        },
        None => None,
    }
}

/// Finds the position of a comma at the top level of generic nesting,
/// scanning from `start_pos`.
pub fn find_comma_at_depth(start_pos: usize, text: &str) -> (r: Option<usize>)
    requires
        start_pos <= text@.len(),
    ensures
        opt_idx(r) == comma_from(text@, start_pos as int, 0),
{
    let v = to_char_vec(text);
    comma_at_depth(&v, start_pos)
}

/// The consumer-interface name quoted by a "required by a bound in" note.
pub open spec fn spec_extract_consumer_trait(s: Seq<char>) -> Option<Seq<char>> {
    match find_sub(s, "required by a bound in `"@) {
        Some(st) => {
            let a = st + "required by a bound in `"@.len();
            match find_char_from(s, '`', a) {
                Some(e) => Some(s.subrange(a, e)),
                None => None,
            }
        },
        None => None,
    }
}

/// Extracts the consumer-interface name from a "required by a bound in"
/// note.
pub fn extract_consumer_trait(message: &str) -> (r: Option<String>)
    ensures
        opt_str(r) == spec_extract_consumer_trait(message@),
{
    let text = to_char_vec(message);
    let pat = to_char_vec("required by a bound in `");
    let n = text.len();
    match find_pat(&text, &pat) {
        Some(st) => {
            let a = st + pat.len();
            match find_char_at(&text, '`', a) {
                Some(e) => {
                    let part = subvec(&text, a, e);
                    Some(chars_to_string(&part))
                },
                None => None,
            }
        },
        None => None,
    }
}

/// Whether a child note reports that other field-accessor implementations
/// exist for the record type.
pub open spec fn child_other_hasfield(c: ChildNoteV) -> bool {
    c.level == DiagnosticLevel::Help && (contains_sub(c.message, "but trait `HasField"@)
        || contains_sub(c.message, "the following other types implement trait"@))
}

/// Whether any child note reports other field-accessor implementations.
pub open spec fn spec_has_other_hasfield(d: RawDiagnosticV) -> bool {
    exists|k: int| 0 <= k < d.children.len() && child_other_hasfield(#[trigger] d.children[k])
}

/// Checks whether the diagnostic says that other field-accessor
/// implementations exist for the record type.
#[verifier::loop_isolation(false)]
pub fn has_other_hasfield_implementations(diagnostic: &RawDiagnostic) -> (r: bool)
    ensures
        r == spec_has_other_hasfield(diagnostic@),
{
    let n = diagnostic.children.len();
    let p1 = to_char_vec("but trait `HasField");
    let p2 = to_char_vec("the following other types implement trait");
    let mut k: usize = 0;
    while k < n
        invariant
            0 <= k <= n,
            n == diagnostic.children@.len(),
            p1@ == "but trait `HasField"@,
            p2@ == "the following other types implement trait"@,
            forall|j: int| 0 <= j < k ==> !child_other_hasfield(#[trigger] diagnostic@.children[j]),
        decreases n - k,
    {
        let c = &diagnostic.children[k];
        proof {
            assert(diagnostic@.children[k as int] == diagnostic.children@[k as int]@);
        }
        if matches!(c.level, DiagnosticLevel::Help) {
            let m = to_char_vec(c.message.as_str());
            if contains_pat(&m, &p1) || contains_pat(&m, &p2) {
                proof {
                    assert(child_other_hasfield(diagnostic@.children[k as int]));
                }
                return true;
            }
        }
        k += 1;
    }
    false
}

/// Whether a message mentions any of the framework's marker tokens.
pub open spec fn is_cgp_text(s: Seq<char>) -> bool {
    contains_sub(s, "CanUseComponent"@) || contains_sub(s, "IsProviderFor"@) || contains_sub(
        s,
        "HasField"@,
    ) || contains_sub(s, "cgp_impl"@) || contains_sub(s, "cgp_component"@) || contains_sub(
        s,
        "cgp_auto_getter"@,
    ) || contains_sub(s, "delegate_components"@) || contains_sub(s, "check_components"@)
}

/// Whether the diagnostic is framework-related: a marker token occurs in the
/// main message or in any child note.
pub open spec fn spec_is_cgp_diagnostic(d: RawDiagnosticV) -> bool {
    is_cgp_text(d.message) || exists|k: int|
        0 <= k < d.children.len() && is_cgp_text(#[trigger] d.children[k].message)
}

fn is_cgp_text_exec(m: &String) -> (r: bool)
    ensures
        r == is_cgp_text(m@),
{
    let v = to_char_vec(m.as_str());
    let p1 = to_char_vec("CanUseComponent");
    let p2 = to_char_vec("IsProviderFor");
    let p3 = to_char_vec("HasField");
    let p4 = to_char_vec("cgp_impl");
    let p5 = to_char_vec("cgp_component");
    let p6 = to_char_vec("cgp_auto_getter");
    let p7 = to_char_vec("delegate_components");
    let p8 = to_char_vec("check_components");
    contains_pat(&v, &p1) || contains_pat(&v, &p2) || contains_pat(&v, &p3) || contains_pat(
        &v,
        &p4,
    ) || contains_pat(&v, &p5) || contains_pat(&v, &p6) || contains_pat(&v, &p7) || contains_pat(
        &v,
        &p8,
    )
}

/// Classifies a diagnostic as framework-related or not.
#[verifier::loop_isolation(false)]
pub fn is_cgp_diagnostic(diagnostic: &RawDiagnostic) -> (r: bool)
    ensures
        r == spec_is_cgp_diagnostic(diagnostic@),
{
    if is_cgp_text_exec(&diagnostic.message) {
        return true;
    }
    let n = diagnostic.children.len();
    let mut k: usize = 0;
    while k < n
        invariant
            0 <= k <= n,
            n == diagnostic.children@.len(),
            forall|j: int|
                0 <= j < k ==> !is_cgp_text(#[trigger] diagnostic@.children[j].message),
        decreases n - k,
    {
        let c = &diagnostic.children[k];
        proof {
            assert(diagnostic@.children[k as int] == diagnostic.children@[k as int]@);
        }
        if is_cgp_text_exec(&c.message) {
            proof {
                assert(is_cgp_text(diagnostic@.children[k as int].message));
            }
            return true;
        }
        k += 1;
    }
    false
}

/// One removal pass over the message: every occurrence of the longer
/// prelude path, then every occurrence of the bare crate path.
pub open spec fn spec_strip_pass(s: Seq<char>) -> Seq<char> {
    replace_all(replace_all(s, "cgp::prelude::"@, Seq::empty()), "cgp::"@, Seq::empty())
}

proof fn lemma_strip_pass_shrinks(s: Seq<char>)
    ensures
        spec_strip_pass(s).len() <= s.len(),
        contains_sub(spec_strip_pass(s), "cgp::prelude::"@) || contains_sub(
            spec_strip_pass(s),
            "cgp::"@,
        ) ==> spec_strip_pass(s).len() < s.len(),
{
    reveal_strlit("cgp::prelude::");
    reveal_strlit("cgp::");
    let t1 = replace_all(s, "cgp::prelude::"@, Seq::empty());
    let t = replace_all(t1, "cgp::"@, Seq::empty());
    crate::text::lemma_replace_all_shrinks(s, "cgp::prelude::"@);
    crate::text::lemma_replace_all_shrinks(t1, "cgp::"@);
    if contains_sub(t, "cgp::prelude::"@) || contains_sub(t, "cgp::"@) {
        if !contains_sub(s, "cgp::prelude::"@) && !contains_sub(t1, "cgp::"@) {
            crate::text::lemma_replace_all_absent(s, "cgp::prelude::"@);
            crate::text::lemma_replace_all_absent(t1, "cgp::"@);
            assert(t == s);
            assert(false);
        }
    }
}

/// The message with the conventional namespace prefixes removed: removal
/// passes repeat until no occurrence of either prefix remains, so that
/// occurrences formed at the junction of a removal are removed too.
pub open spec fn spec_strip_module_prefixes(s: Seq<char>) -> Seq<char>
    decreases s.len(),
    via spec_strip_module_prefixes_dec
{
    let t = spec_strip_pass(s);
    if contains_sub(t, "cgp::prelude::"@) || contains_sub(t, "cgp::"@) {
        spec_strip_module_prefixes(t)
    } else {
        t
    }
}

#[via_fn]
proof fn spec_strip_module_prefixes_dec(s: Seq<char>) {
    lemma_strip_pass_shrinks(s);
}

/// The stripped message holds no occurrence of either prefix.
pub proof fn lemma_strip_resolved(s: Seq<char>)
    ensures
        !contains_sub(spec_strip_module_prefixes(s), "cgp::prelude::"@),
        !contains_sub(spec_strip_module_prefixes(s), "cgp::"@),
    decreases s.len(),
{
    lemma_strip_pass_shrinks(s);
    let t = spec_strip_pass(s);
    if contains_sub(t, "cgp::prelude::"@) || contains_sub(t, "cgp::"@) {
        lemma_strip_resolved(t);
    }
}

/// Removes the conventional namespace prefixes from a message, repeating
/// until none remains.
pub fn strip_module_prefixes(message: &str) -> (r: String)
    ensures
        r@ == spec_strip_module_prefixes(message@),
{
    let text = to_char_vec(message);
    let stripped = strip_module_prefixes_chars(&text);
    chars_to_string(&stripped)
}

fn strip_pass_chars(text: &Vec<char>) -> (r: Vec<char>)
    ensures
        r@ == spec_strip_pass(text@),
{
    let p1 = to_char_vec("cgp::prelude::");
    let p2 = to_char_vec("cgp::");
    let empty: Vec<char> = Vec::new();
    proof {
        reveal_strlit("cgp::prelude::");
        reveal_strlit("cgp::");
        assert(empty@ =~= Seq::<char>::empty());
    }
    let once = replace_all_chars(text, &p1, &empty);
    replace_all_chars(&once, &p2, &empty)
}

pub(crate) fn strip_module_prefixes_chars(text: &Vec<char>) -> (r: Vec<char>)
    ensures
        r@ == spec_strip_module_prefixes(text@),
    decreases text@.len(),
{
    let t = strip_pass_chars(text);
    let p1 = to_char_vec("cgp::prelude::");
    let p2 = to_char_vec("cgp::");
    if contains_pat(&t, &p1) || contains_pat(&t, &p2) {
        proof {
            lemma_strip_pass_shrinks(text@);
        }
        strip_module_prefixes_chars(&t)
    } else {
        t
    }
}

/// How often a character occurs in a sequence.
pub open spec fn count_char(s: Seq<char>, c: char) -> int
    decreases s.len(),
{
    if s.len() == 0 {
        0
    } else {
        count_char(s.drop_last(), c) + (if s.last() == c {
            1int
        } else {
            0int
        })
    }
}

/// The bracket balance of a sequence: opening brackets minus closing ones.
pub open spec fn nest_delta(s: Seq<char>) -> int {
    count_char(s, '<') - count_char(s, '>')
}

/// A well-nested bracket text: every prefix has at least as many opening
/// as closing brackets, and the whole is balanced.
pub open spec fn well_nested(s: Seq<char>) -> bool {
    nest_delta(s) == 0 && forall|k: int|
        0 <= k <= s.len() ==> nest_delta(#[trigger] s.subrange(0, k)) >= 0
}

proof fn lemma_count_snoc(s: Seq<char>, i: int, k: int, c: char)
    requires
        0 <= i <= k < s.len(),
    ensures
        count_char(s.subrange(i, k + 1), c) == count_char(s.subrange(i, k), c) + (if s[k] == c {
            1int
        } else {
            0int
        }),
{
    let t = s.subrange(i, k + 1);
    assert(t.drop_last() =~= s.subrange(i, k));
    assert(t.last() == s[k]);
}

proof fn lemma_delta_snoc(s: Seq<char>, i: int, k: int)
    requires
        0 <= i <= k < s.len(),
    ensures
        nest_delta(s.subrange(i, k + 1)) == nest_delta(s.subrange(i, k)) + (if s[k] == '<' {
            1int
        } else if s[k] == '>' {
            -1int
        } else {
            0int
        }),
{
    lemma_count_snoc(s, i, k, '<');
    lemma_count_snoc(s, i, k, '>');
}

proof fn lemma_delta_shift(s: Seq<char>, i: int, k: int)
    requires
        0 <= i < s.len(),
        i + 1 <= k <= s.len(),
    ensures
        nest_delta(s.subrange(i, k)) == (if s[i] == '<' {
            1int
        } else if s[i] == '>' {
            -1int
        } else {
            0int
        }) + nest_delta(s.subrange(i + 1, k)),
    decreases k - i,
{
    if k == i + 1 {
        assert(s.subrange(i + 1, k) =~= Seq::<char>::empty());
        lemma_delta_snoc(s, i, i);
        assert(s.subrange(i, i) =~= Seq::<char>::empty());
        assert(nest_delta(Seq::<char>::empty()) == 0);
    } else {
        lemma_delta_shift(s, i, k - 1);
        lemma_delta_snoc(s, i, k - 1);
        lemma_delta_snoc(s, i + 1, k - 1);
    }
}

proof fn lemma_close_skip(s: Seq<char>, i: int, j: int, d: int)
    requires
        0 <= i <= j <= s.len(),
        forall|k: int|
            i <= k < j ==> !(s[k] == '>' && d + nest_delta(#[trigger] s.subrange(i, k)) == 1),
    ensures
        close_from(s, i, d) == close_from(s, j, d + nest_delta(s.subrange(i, j))),
    decreases j - i,
{
    if i == j {
        assert(s.subrange(i, i) =~= Seq::<char>::empty());
        assert(nest_delta(s.subrange(i, i)) == 0);
    } else {
        let step: int = if s[i] == '<' {
            1int
        } else if s[i] == '>' {
            -1int
        } else {
            0int
        };
        assert(s.subrange(i, i) =~= Seq::<char>::empty());
        assert(nest_delta(s.subrange(i, i)) == 0);
        assert(!(s[i] == '>' && d == 1));
        assert(close_from(s, i, d) == close_from(s, i + 1, d + step));
        assert forall|k: int|
            i + 1 <= k < j implies !(s[k] == '>' && (d + step) + nest_delta(
            #[trigger] s.subrange(i + 1, k),
        ) == 1) by {
            lemma_delta_shift(s, i, k);
            assert(d + nest_delta(s.subrange(i, k)) == (d + step) + nest_delta(
                s.subrange(i + 1, k),
            ));
        }
        lemma_close_skip(s, i + 1, j, d + step);
        lemma_delta_shift(s, i, j);
    }
}

/// Balanced-bracket extraction is correct for arbitrary nesting depth: in
/// any text of the shape `prefix` + `inner` + `>` + `suffix` with `inner`
/// well nested, the scan that starts just after the opening bracket stops
/// exactly at that closing bracket, and the extracted text is `inner`
/// trimmed of surrounding whitespace.
pub proof fn lemma_extract_balanced_correct(
    prefix: Seq<char>,
    inner: Seq<char>,
    suffix: Seq<char>,
)
    requires
        well_nested(inner),
    ensures
        close_from(prefix + inner + seq!['>'] + suffix, prefix.len() as int, 1) == Some(
            prefix.len() + inner.len() as int,
        ),
        spec_extract_balanced(prefix + inner + seq!['>'] + suffix, prefix.len() as int)
            == trim_spec(inner),
{
    let s = prefix + inner + seq!['>'] + suffix;
    let p = prefix.len() as int;
    let l = inner.len() as int;
    assert forall|k: int| p <= k < p + l implies !(s[k] == '>' && 1 + nest_delta(
        #[trigger] s.subrange(p, k),
    ) == 1) by {
        assert(s[k] == inner[k - p]);
        assert(s.subrange(p, k) =~= inner.subrange(0, k - p));
        if s[k] == '>' && 1 + nest_delta(s.subrange(p, k)) == 1 {
            assert(nest_delta(inner.subrange(0, k - p)) == 0);
            lemma_delta_snoc(inner, 0, k - p);
            assert(nest_delta(inner.subrange(0, k - p + 1)) == -1);
            assert(nest_delta(inner.subrange(0, k - p + 1)) >= 0);
        }
    }
    lemma_close_skip(s, p, p + l, 1);
    assert(s.subrange(p, p + l) =~= inner);
    assert(s[p + l] == '>');
    assert(close_from(s, p + l, 1) == Some(p + l));
    assert(close_from(s, p, 1) == Some(p + l));
    assert(spec_extract_balanced(s, p) == trim_spec(s.subrange(p, p + l)));
}

/// Field reconstruction completeness: when the declared length is present
/// and at least one marker character was collected, the reconstructed name
/// is exactly the collected characters, it is complete exactly when their
/// count equals the declared length, and the redaction flag reports exactly
/// whether a placeholder was skipped.
pub proof fn lemma_field_completeness(s: Seq<char>)
    requires
        spec_extract_symbol_length(spec_relevant_part(s)) is Some,
        collect_chars_from(spec_relevant_part(s), 0).len() > 0,
    ensures
        spec_field_name_parts(s) == Some(
            (
                collect_chars_from(spec_relevant_part(s), 0),
                collect_chars_from(spec_relevant_part(s), 0).len() as int
                    == spec_extract_symbol_length(spec_relevant_part(s))->Some_0,
            ),
        ),
        spec_field_info_of_message(s) matches Some(fi) ==> fi.has_unknown_chars
            == has_placeholder_from(spec_relevant_part(s), 0) && fi.field_name
            == collect_chars_from(spec_relevant_part(s), 0),
{
}

/// Namespace-prefix stripping is idempotent: applying it twice yields the
/// same result as once, on every input.
pub proof fn lemma_strip_idempotent(s: Seq<char>)
    ensures
        spec_strip_module_prefixes(spec_strip_module_prefixes(s)) == spec_strip_module_prefixes(
            s,
        ),
{
    let t = spec_strip_module_prefixes(s);
    lemma_strip_resolved(s);
    reveal_strlit("cgp::prelude::");
    reveal_strlit("cgp::");
    crate::text::lemma_replace_all_absent(t, "cgp::prelude::"@);
    crate::text::lemma_replace_all_absent(t, "cgp::"@);
    assert(spec_strip_pass(t) == t);
}

} // verus!
