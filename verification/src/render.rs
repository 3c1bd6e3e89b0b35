//! The per-record decision of the streaming pipeline: every incoming
//! record is classified, framework-related diagnostics are absorbed into
//! the database and never immediately printed, and everything else is
//! passed straight through.  The surrounding program performs the printing
//! and pass-through this module decides on.

use vstd::prelude::*;
use vstd::string::*;
use crate::cgp_patterns::spec_is_cgp_diagnostic;
use crate::diagnostic_db::{spec_db_wf, DiagnosticDatabase};
use crate::raw_diagnostic::RawDiagnostic;

verus! {

/// Output mode for rendering records.
#[derive(Debug, Clone, Copy, PartialEq, Eq, Structural)]
pub enum RenderMode {
    /// Human-readable mode: non-framework records print immediately.
    Human,
    /// Machine mode: records are collected for later wire output.
    Json,
}

/// One record of the toolchain stream, reduced to what the decision needs.
#[derive(Debug)]
pub enum StreamRecord {
    /// A compiler diagnostic.
    Compiler(RawDiagnostic),
    /// An artifact was built or found fresh.
    Artifact { target_name: String, fresh: bool },
    /// A build script ran.
    BuildScriptExecuted,
    /// The build finished.
    BuildFinished { success: bool },
    /// A plain text line.
    TextLine,
    /// Any other record kind.
    Other,
}

/// What the surrounding program must do with the record.
#[derive(Debug)]
pub enum RenderAction {
    /// The record was absorbed into the database; print nothing now.
    Absorbed,
    /// Print the record's own rendered text.
    PrintRendered,
    /// Hand the record through for machine output.
    PassThrough,
    /// Print this progress line to the error stream.
    PrintProgress(String),
    /// Report that the build failed.
    PrintBuildFailed,
    /// Print nothing.
    Ignore,
}

/// The progress line shown for an artifact: the verb right-aligned to
/// twelve columns, then the target name.
pub open spec fn spec_progress_line(name: Seq<char>, fresh: bool) -> Seq<char> {
    if fresh {
        "       Fresh "@ + name
    } else {
        "   Compiling "@ + name
    }
}

/// The action decided for one record under one mode.
pub open spec fn spec_render_action(
    record: StreamRecord,
    mode: RenderMode,
    r: RenderAction,
) -> bool {
    match record {
        StreamRecord::Compiler(d) => if spec_is_cgp_diagnostic(d@) {
            r is Absorbed
        } else {
            match mode {
                RenderMode::Human => r is PrintRendered,
                RenderMode::Json => r is PassThrough,
            }
        },
        StreamRecord::Artifact { target_name, fresh } => match mode {
            RenderMode::Human => r matches RenderAction::PrintProgress(line) && line@
                == spec_progress_line(target_name@, fresh),
            RenderMode::Json => r is PassThrough,
        },
        StreamRecord::BuildScriptExecuted => match mode {
            RenderMode::Human => r is Ignore,
            RenderMode::Json => r is PassThrough,
        },
        StreamRecord::BuildFinished { success } => match mode {
            RenderMode::Human => if success {
                r is Ignore
            } else {
                r is PrintBuildFailed
            },
            RenderMode::Json => r is PassThrough,
        },
        StreamRecord::TextLine => match mode {
            RenderMode::Human => r is Ignore,
            RenderMode::Json => r is PassThrough,
        },
        StreamRecord::Other => match mode {
            RenderMode::Human => r is Ignore,
            RenderMode::Json => r is PassThrough,
        },
    }
}

/// Whether the database is left exactly as the absorption of this record
/// demands: framework diagnostics are added, everything else leaves it
/// untouched.
pub open spec fn spec_db_after(
    record: StreamRecord,
    pre: Seq<(crate::diagnostic_db::DiagnosticKeyV, crate::diagnostic_db::DiagnosticEntryV)>,
    post: Seq<(crate::diagnostic_db::DiagnosticKeyV, crate::diagnostic_db::DiagnosticEntryV)>,
) -> bool {
    match record {
        StreamRecord::Compiler(d) => if spec_is_cgp_diagnostic(d@) {
            match crate::diagnostic_db::spec_first_primary(d@) {
                None => post == pre,
                Some(sp) => {
                    let key = crate::diagnostic_db::spec_key_of(d@, sp);
                    match crate::diagnostic_db::spec_db_find(pre, key, 0) {
                        Some(i) => post == pre.update(
                            i,
                            (key, crate::diagnostic_db::spec_merge_entry(pre[i].1, d@)),
                        ),
                        None => post == pre.push(
                            (key, crate::diagnostic_db::spec_create_entry(d@)),
                        ),
                    }
                },
            }
        } else {
            post == pre
        },
        _ => post == pre,
    }
}

/// Decides one record under the given mode, absorbing framework
/// diagnostics into the database.
pub fn render_message_with_mode(
    message: &StreamRecord,
    db: &mut DiagnosticDatabase,
    mode: RenderMode,
) -> (r: RenderAction)
    requires
        spec_db_wf(old(db)@),
    ensures
        spec_db_wf(final(db)@),
        spec_render_action(*message, mode, r),
        spec_db_after(*message, old(db)@, final(db)@),
{
    match message {
        StreamRecord::Compiler(d) => {
            if crate::cgp_patterns::is_cgp_diagnostic(d) {
                db.add_diagnostic(d);
                RenderAction::Absorbed
            } else {
                match mode {
                    RenderMode::Human => RenderAction::PrintRendered,
                    RenderMode::Json => RenderAction::PassThrough,
                }
            }
        },
        StreamRecord::Artifact { target_name, fresh } => {
            match mode {
                RenderMode::Human => {
                    let mut line = String::new();
                    if *fresh {
                        line.append("       Fresh ");
                    } else {
                        line.append("   Compiling ");
                    }
                    line.append(target_name.as_str());
                    proof {
                        assert(Seq::<char>::empty() + "       Fresh "@ =~= "       Fresh "@);
                        assert(Seq::<char>::empty() + "   Compiling "@ =~= "   Compiling "@);
                    }
                    RenderAction::PrintProgress(line)
                },
                RenderMode::Json => RenderAction::PassThrough,
            }
        },
        StreamRecord::BuildScriptExecuted => {
            match mode {
                RenderMode::Human => RenderAction::Ignore,
                RenderMode::Json => RenderAction::PassThrough,
            }
        },
        StreamRecord::BuildFinished { success } => {
            match mode {
                RenderMode::Human => {
                    if *success {
                        RenderAction::Ignore
                    } else {
                        RenderAction::PrintBuildFailed
                    }
                },
                RenderMode::Json => RenderAction::PassThrough,
            }
        },
        StreamRecord::TextLine => {
            match mode {
                RenderMode::Human => RenderAction::Ignore,
                RenderMode::Json => RenderAction::PassThrough,
            }
        },
        StreamRecord::Other => {
            match mode {
                RenderMode::Human => RenderAction::Ignore,
                RenderMode::Json => RenderAction::PassThrough,
            }
        },
    }
}

/// Decides one record in human-readable mode.
pub fn render_message(message: &StreamRecord, db: &mut DiagnosticDatabase) -> (r: RenderAction)
    requires
        spec_db_wf(old(db)@),
    ensures
        spec_db_wf(final(db)@),
        spec_render_action(*message, RenderMode::Human, r),
        spec_db_after(*message, old(db)@, final(db)@),
{
    render_message_with_mode(message, db, RenderMode::Human)
}

} // verus!
