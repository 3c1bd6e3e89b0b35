//! The transformed diagnostic object the engine produces: a one-line
//! message, an optional stable code, an optional multi-section help text,
//! an optional named source text, and labeled spans.  The surrounding
//! program re-serializes it for human-readable or machine-readable output.

use vstd::prelude::*;
use crate::text::{opt_str, opt_view, views_of};

verus! {

/// One labeled span: an optional label, a byte offset into the source text
/// and a length in bytes.
#[derive(Debug)]
pub struct SpanLabel {
    pub label: Option<String>,
    pub offset: usize,
    pub len: usize,
}

/// Ghost view of a labeled span.
#[verifier::ext_equal]
pub struct SpanLabelV {
    pub label: Option<Seq<char>>,
    pub offset: int,
    pub len: int,
}

impl View for SpanLabel {
    type V = SpanLabelV;

    open spec fn view(&self) -> SpanLabelV {
        SpanLabelV {
            label: opt_str(self.label),
            offset: self.offset as int,
            len: self.len as int,
        }
    }
}

/// A source text under the file name it came from.
#[derive(Debug)]
pub struct NamedSourceText {
    pub name: String,
    pub text: String,
}

/// Ghost view of a named source text.
#[verifier::ext_equal]
pub struct NamedSourceTextV {
    pub name: Seq<char>,
    pub text: Seq<char>,
}

impl View for NamedSourceText {
    type V = NamedSourceTextV;

    open spec fn view(&self) -> NamedSourceTextV {
        NamedSourceTextV { name: self.name@, text: self.text@ }
    }
}

/// A framework-aware diagnostic ready for rendering.
#[derive(Debug)]
pub struct CgpDiagnostic {
    /// The main error message.
    pub message: String,
    /// The stable error code, when known.
    pub code: Option<String>,
    /// Help text with suggestions, sections joined by line breaks.
    pub help: Option<String>,
    /// The source text the labels point into, when available.
    pub source_code: Option<NamedSourceText>,
    /// Labeled spans highlighting the primary locations.
    pub labels: Vec<SpanLabel>,
}

/// Ghost view of a framework-aware diagnostic.
#[verifier::ext_equal]
pub struct CgpDiagnosticV {
    pub message: Seq<char>,
    pub code: Option<Seq<char>>,
    pub help: Option<Seq<char>>,
    pub source_code: Option<NamedSourceTextV>,
    pub labels: Seq<SpanLabelV>,
}

impl View for CgpDiagnostic {
    type V = CgpDiagnosticV;

    open spec fn view(&self) -> CgpDiagnosticV {
        CgpDiagnosticV {
            message: self.message@,
            code: opt_str(self.code),
            help: opt_str(self.help),
            source_code: opt_view(self.source_code),
            labels: views_of(self.labels@),
        }
    }
}

} // verus!
