//! The crate's own model of one structured diagnostic record as emitted by
//! the toolchain: severity, message, child notes, source spans and an
//! optional error code.  Records are immutable once received; the
//! surrounding program converts the toolchain's wire format into this type
//! and hands it to the database.

use vstd::prelude::*;

verus! {

/// Severity of a diagnostic or of one of its child notes.
#[derive(Clone, Copy, PartialEq, Eq, Structural, Debug)]
pub enum DiagnosticLevel {
    Ice,
    Error,
    Warning,
    FailureNote,
    Note,
    Help,
}

/// One child note of a diagnostic: its own severity and message.
#[derive(Debug)]
pub struct ChildNote {
    pub level: DiagnosticLevel,
    pub message: String,
}

/// Ghost view of a child note.
#[verifier::ext_equal]
pub struct ChildNoteV {
    pub level: DiagnosticLevel,
    pub message: Seq<char>,
}

impl View for ChildNote {
    type V = ChildNoteV;

    open spec fn view(&self) -> ChildNoteV {
        ChildNoteV { level: self.level, message: self.message@ }
    }
}

impl Clone for ChildNote {
    fn clone(&self) -> (r: Self)
        ensures
            r == *self,
    {
        ChildNote { level: self.level, message: self.message.clone() }
    }
}

/// One source span of a diagnostic: file, line/column range, optional label,
/// the raw source lines the toolchain embedded, and the primary flag.
#[derive(Debug)]
pub struct SpanInfo {
    pub file_name: String,
    pub line_start: usize,
    pub column_start: usize,
    pub column_end: usize,
    pub is_primary: bool,
    pub label: Option<String>,
    pub text: Vec<String>,
}

/// Ghost view of a source span.
#[verifier::ext_equal]
pub struct SpanInfoV {
    pub file_name: Seq<char>,
    pub line_start: int,
    pub column_start: int,
    pub column_end: int,
    pub is_primary: bool,
    pub label: Option<Seq<char>>,
    pub text: Seq<Seq<char>>,
}

impl View for SpanInfo {
    type V = SpanInfoV;

    open spec fn view(&self) -> SpanInfoV {
        SpanInfoV {
            file_name: self.file_name@,
            line_start: self.line_start as int,
            column_start: self.column_start as int,
            column_end: self.column_end as int,
            is_primary: self.is_primary,
            label: crate::text::opt_str(self.label),
            text: Seq::new(self.text@.len(), |i: int| self.text@[i]@),
        }
    }
}

/// Clones an optional string, preserving it exactly.
pub fn clone_opt_string(o: &Option<String>) -> (r: Option<String>)
    ensures
        r == *o,
{
    match o {
        Some(s) => Some(s.clone()),
        None => None,
    }
}

/// Clones a vector of strings, preserving it exactly.
pub fn clone_string_vec(v: &Vec<String>) -> (r: Vec<String>)
    ensures
        r@ == v@,
{
    let mut r: Vec<String> = Vec::new();
    let mut i: usize = 0;
    while i < v.len()
        invariant
            i <= v.len(),
            r@ =~= v@.subrange(0, i as int),
        decreases v.len() - i,
    {
        r.push(v[i].clone());
        i += 1;
    }
    proof {
        assert(v@.subrange(0, v@.len() as int) =~= v@);
    }
    r
}

impl Clone for SpanInfo {
    fn clone(&self) -> (r: Self)
        ensures
            r@ == self@,
    {
        let r = SpanInfo {
            file_name: self.file_name.clone(),
            line_start: self.line_start,
            column_start: self.column_start,
            column_end: self.column_end,
            is_primary: self.is_primary,
            label: clone_opt_string(&self.label),
            text: clone_string_vec(&self.text),
        };
        proof {
            assert(r@ =~= self@);
        }
        r
    }
}

/// One diagnostic record from the toolchain.
#[derive(Debug)]
pub struct RawDiagnostic {
    pub level: DiagnosticLevel,
    pub message: String,
    pub code: Option<String>,
    pub children: Vec<ChildNote>,
    pub spans: Vec<SpanInfo>,
    pub rendered: Option<String>,
}

/// Ghost view of a diagnostic record.
#[verifier::ext_equal]
pub struct RawDiagnosticV {
    pub level: DiagnosticLevel,
    pub message: Seq<char>,
    pub code: Option<Seq<char>>,
    pub children: Seq<ChildNoteV>,
    pub spans: Seq<SpanInfoV>,
    pub rendered: Option<Seq<char>>,
}

impl View for RawDiagnostic {
    type V = RawDiagnosticV;

    open spec fn view(&self) -> RawDiagnosticV {
        RawDiagnosticV {
            level: self.level,
            message: self.message@,
            code: crate::text::opt_str(self.code),
            children: Seq::new(self.children@.len(), |i: int| self.children@[i]@),
            spans: Seq::new(self.spans@.len(), |i: int| self.spans@[i]@),
            rendered: crate::text::opt_str(self.rendered),
        }
    }
}

fn clone_children(v: &Vec<ChildNote>) -> (r: Vec<ChildNote>)
    ensures
        r@ == v@,
{
    let mut r: Vec<ChildNote> = Vec::new();
    let mut i: usize = 0;
    while i < v.len()
        invariant
            i <= v.len(),
            r@ =~= v@.subrange(0, i as int),
        decreases v.len() - i,
    {
        r.push(v[i].clone());
        i += 1;
    }
    proof {
        assert(v@.subrange(0, v@.len() as int) =~= v@);
    }
    r
}

/// View of a vector of spans: the sequence of the spans' own views.
pub open spec fn spans_view(v: Seq<SpanInfo>) -> Seq<SpanInfoV> {
    Seq::new(v.len(), |i: int| v[i]@)
}

/// Clones a vector of spans, preserving its view.
pub fn clone_spans(v: &Vec<SpanInfo>) -> (r: Vec<SpanInfo>)
    ensures
        spans_view(r@) == spans_view(v@),
{
    let mut r: Vec<SpanInfo> = Vec::new();
    let mut i: usize = 0;
    while i < v.len()
        invariant
            i <= v.len(),
            spans_view(r@) =~= spans_view(v@.subrange(0, i as int)),
        decreases v.len() - i,
    {
        let s = v[i].clone();
        r.push(s);
        proof {
            let pre = v@.subrange(0, i + 1);
            assert(pre.len() == i + 1);
            assert(spans_view(v@.subrange(0, i as int)).len() == i as int);
            assert(r@.len() == i + 1);
            assert(spans_view(r@).len() == spans_view(pre).len());
            assert forall|k: int| 0 <= k < r@.len() implies spans_view(r@)[k] == spans_view(
                pre,
            )[k] by {
                assert(spans_view(r@)[k] == r@[k]@);
                assert(spans_view(pre)[k] == pre[k]@);
                assert(pre[k] == v@[k]);
                if k < i as int {
                    assert(r@[k]@ == spans_view(v@.subrange(0, i as int))[k]);
                    assert(spans_view(v@.subrange(0, i as int))[k] == v@[k]@);
                } else {
                    assert(r@[k] == s);
                }
            }
            assert(spans_view(r@) =~= spans_view(pre));
        }
        i += 1;
    }
    proof {
        assert(v@.subrange(0, v@.len() as int) =~= v@);
    }
    r
}

impl Clone for RawDiagnostic {
    fn clone(&self) -> (r: Self)
        ensures
            r@ == self@,
    {
        let r = RawDiagnostic {
            level: self.level,
            message: self.message.clone(),
            code: clone_opt_string(&self.code),
            children: clone_children(&self.children),
            spans: clone_spans(&self.spans),
            rendered: clone_opt_string(&self.rendered),
        };
        proof {
            assert(r@ =~= self@);
        }
        r
    }
}

} // verus!
