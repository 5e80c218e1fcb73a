//! The scanner's report on one session file and its mathematical view.
//!
//! Every record type has a view in which strings are character sequences, so
//! that specifications can describe a report value for value.
use vstd::prelude::*;
use crate::text::opt_view;

verus! {

/// The scanner's result is a projection, never a claim that the runtime
/// accepts every record as a currently executable session.
#[derive(Clone, Copy, Debug, PartialEq, Eq, Structural)]
pub enum ParseState {
    Healthy,
    Partial,
    Unsupported,
    Corrupt,
}

#[derive(Clone, Debug, PartialEq, Eq)]
pub struct Diagnostic {
    pub code: String,
    pub line: u64,
    pub detail: String,
}

pub struct DiagnosticView {
    pub code: Seq<char>,
    pub line: u64,
    pub detail: Seq<char>,
}

impl View for Diagnostic {
    type V = DiagnosticView;

    open spec fn view(&self) -> DiagnosticView {
        DiagnosticView { code: self.code@, line: self.line, detail: self.detail@ }
    }
}

#[derive(Clone, Debug, PartialEq, Eq)]
pub struct UnknownEntrySummary {
    pub line: u64,
    pub entry_type: String,
    pub byte_length: usize,
    pub sha256: String,
}

pub struct UnknownEntryView {
    pub line: u64,
    pub entry_type: Seq<char>,
    pub byte_length: usize,
    pub sha256: Seq<char>,
}

impl View for UnknownEntrySummary {
    type V = UnknownEntryView;

    open spec fn view(&self) -> UnknownEntryView {
        UnknownEntryView {
            line: self.line,
            entry_type: self.entry_type@,
            byte_length: self.byte_length,
            sha256: self.sha256@,
        }
    }
}

/// A bounded, payload-safe record projection. Unknown records have no role,
/// preview, model, or image data.
#[derive(Clone, Debug, PartialEq, Eq)]
pub struct IndexedEntry {
    pub line: u64,
    pub order: usize,
    pub entry_id: Option<String>,
    pub parent_id: Option<String>,
    pub entry_type: String,
    pub role: Option<String>,
    pub preview: Option<String>,
    pub created_at: Option<String>,
    pub has_image: bool,
    pub model_ref: Option<String>,
}

pub struct EntryView {
    pub line: u64,
    pub order: usize,
    pub entry_id: Option<Seq<char>>,
    pub parent_id: Option<Seq<char>>,
    pub entry_type: Seq<char>,
    pub role: Option<Seq<char>>,
    pub preview: Option<Seq<char>>,
    pub created_at: Option<Seq<char>>,
    pub has_image: bool,
    pub model_ref: Option<Seq<char>>,
}

impl View for IndexedEntry {
    type V = EntryView;

    open spec fn view(&self) -> EntryView {
        EntryView {
            line: self.line,
            order: self.order,
            entry_id: opt_view(self.entry_id),
            parent_id: opt_view(self.parent_id),
            entry_type: self.entry_type@,
            role: opt_view(self.role),
            preview: opt_view(self.preview),
            created_at: opt_view(self.created_at),
            has_image: self.has_image,
            model_ref: opt_view(self.model_ref),
        }
    }
}

#[derive(Clone, Debug, PartialEq, Eq)]
pub struct SessionTreeNode {
    pub entry_id: String,
    pub parent_id: Option<String>,
    pub children: Vec<String>,
}

pub struct TreeNodeView {
    pub entry_id: Seq<char>,
    pub parent_id: Option<Seq<char>>,
    pub children: Seq<Seq<char>>,
}

pub open spec fn strings_view(v: Seq<String>) -> Seq<Seq<char>> {
    v.map_values(|s: String| s@)
}

impl View for SessionTreeNode {
    type V = TreeNodeView;

    open spec fn view(&self) -> TreeNodeView {
        TreeNodeView {
            entry_id: self.entry_id@,
            parent_id: opt_view(self.parent_id),
            children: strings_view(self.children@),
        }
    }
}

/// Renderer-independent timeline block. No raw session payload is kept.
#[derive(Clone, Debug, PartialEq, Eq)]
pub struct GenericTimelineBlock {
    /// Scanner-assigned opaque ID, never a source entry ID.
    pub id: String,
    /// Scanner-assigned parent block ID, only for a unique, acyclic source link.
    pub parent_id: Option<String>,
    pub kind: GenericBlockKind,
    pub source_type: String,
    pub created_at: Option<String>,
    pub preview: Option<String>,
    pub has_image: bool,
    pub title: Option<String>,
    pub tool_name: Option<String>,
    pub collapsible: bool,
    pub truncated: bool,
    pub fallback: bool,
    pub status: GenericBlockStatus,
}

pub struct BlockView {
    pub id: Seq<char>,
    pub parent_id: Option<Seq<char>>,
    pub kind: GenericBlockKind,
    pub source_type: Seq<char>,
    pub created_at: Option<Seq<char>>,
    pub preview: Option<Seq<char>>,
    pub has_image: bool,
    pub title: Option<Seq<char>>,
    pub tool_name: Option<Seq<char>>,
    pub collapsible: bool,
    pub truncated: bool,
    pub fallback: bool,
    pub status: GenericBlockStatus,
}

impl View for GenericTimelineBlock {
    type V = BlockView;

    open spec fn view(&self) -> BlockView {
        BlockView {
            id: self.id@,
            parent_id: opt_view(self.parent_id),
            kind: self.kind,
            source_type: self.source_type@,
            created_at: opt_view(self.created_at),
            preview: opt_view(self.preview),
            has_image: self.has_image,
            title: opt_view(self.title),
            tool_name: opt_view(self.tool_name),
            collapsible: self.collapsible,
            truncated: self.truncated,
            fallback: self.fallback,
            status: self.status,
        }
    }
}

impl GenericTimelineBlock {
    /// A field-for-field copy.
    pub fn copied(&self) -> (r: Self)
        ensures
            r@ == self@,
    {
        GenericTimelineBlock {
            id: self.id.clone(),
            parent_id: clone_opt(&self.parent_id),
            kind: self.kind,
            source_type: self.source_type.clone(),
            created_at: clone_opt(&self.created_at),
            preview: clone_opt(&self.preview),
            has_image: self.has_image,
            title: clone_opt(&self.title),
            tool_name: clone_opt(&self.tool_name),
            collapsible: self.collapsible,
            truncated: self.truncated,
            fallback: self.fallback,
            status: self.status,
        }
    }
}

pub fn clone_opt(o: &Option<String>) -> (r: Option<String>)
    ensures
        opt_view(r) == opt_view(*o),
{
    match o {
        Some(s) => Some(s.clone()),
        None => None,
    }
}

#[derive(Clone, Copy, Debug, PartialEq, Eq, Structural)]
pub enum GenericBlockKind {
    User,
    Assistant,
    Thinking,
    Tool,
    Custom,
    Compaction,
    Unknown,
}

#[derive(Clone, Copy, Debug, PartialEq, Eq, Structural)]
pub enum GenericBlockStatus {
    Complete,
    Running,
    Failed,
    Interrupted,
}

impl Default for GenericBlockStatus {
    fn default() -> (r: Self)
        ensures
            r == GenericBlockStatus::Complete,
    {
        GenericBlockStatus::Complete
    }
}

/// A position-based, chronologically ordered timeline slice: `start..end` is
/// the half-open range inside the report's full `total` block sequence.
#[derive(Clone, Debug, PartialEq, Eq)]
pub struct TimelineSlice {
    pub blocks: Vec<GenericTimelineBlock>,
    pub start: usize,
    pub end: usize,
    pub total: usize,
}

#[derive(Clone, Debug, PartialEq, Eq)]
pub struct ScanReport {
    pub source_name: String,
    pub file_revision: String,
    /// Host-only modification time (seconds, nanoseconds) captured by a
    /// bounded render scan; in-memory scans leave it `None`.
    pub source_modified: Option<(u64, u32)>,
    pub complete_bytes: usize,
    pub partial_tail_bytes: usize,
    pub parse_state: ParseState,
    pub pi_session_id: Option<String>,
    pub session_name: Option<String>,
    /// Host-only scanner data; never serialized to an untrusted UI.
    pub project_cwd: Option<String>,
    pub created_at: Option<String>,
    pub updated_at: Option<String>,
    pub first_user_preview: Option<String>,
    pub last_message_preview: Option<String>,
    pub model_ref: Option<String>,
    pub entry_count: usize,
    pub image_entry_count: usize,
    pub compaction_entry_count: usize,
    pub branch_count: usize,
    pub current_leaf_id: Option<String>,
    pub roots: Vec<String>,
    pub orphan_ids: Vec<String>,
    pub cycle_ids: Vec<String>,
    pub unknown_entries: Vec<UnknownEntrySummary>,
    pub diagnostics: Vec<Diagnostic>,
    pub entries: Vec<IndexedEntry>,
    pub tree: Vec<SessionTreeNode>,
    pub timeline_blocks: Vec<GenericTimelineBlock>,
}

pub open spec fn diagnostics_view(v: Seq<Diagnostic>) -> Seq<DiagnosticView> {
    v.map_values(|d: Diagnostic| d@)
}

pub open spec fn unknown_view(v: Seq<UnknownEntrySummary>) -> Seq<UnknownEntryView> {
    v.map_values(|d: UnknownEntrySummary| d@)
}

pub open spec fn entries_view(v: Seq<IndexedEntry>) -> Seq<EntryView> {
    v.map_values(|e: IndexedEntry| e@)
}

pub open spec fn tree_view(v: Seq<SessionTreeNode>) -> Seq<TreeNodeView> {
    v.map_values(|n: SessionTreeNode| n@)
}

pub open spec fn blocks_view(v: Seq<GenericTimelineBlock>) -> Seq<BlockView> {
    v.map_values(|b: GenericTimelineBlock| b@)
}


pub struct ReportView {
    pub source_name: Seq<char>,
    pub file_revision: Seq<char>,
    pub source_modified: Option<(u64, u32)>,
    pub complete_bytes: usize,
    pub partial_tail_bytes: usize,
    pub parse_state: ParseState,
    pub pi_session_id: Option<Seq<char>>,
    pub session_name: Option<Seq<char>>,
    pub project_cwd: Option<Seq<char>>,
    pub created_at: Option<Seq<char>>,
    pub updated_at: Option<Seq<char>>,
    pub first_user_preview: Option<Seq<char>>,
    pub last_message_preview: Option<Seq<char>>,
    pub model_ref: Option<Seq<char>>,
    pub entry_count: usize,
    pub image_entry_count: usize,
    pub compaction_entry_count: usize,
    pub branch_count: usize,
    pub current_leaf_id: Option<Seq<char>>,
    pub roots: Seq<Seq<char>>,
    pub orphan_ids: Seq<Seq<char>>,
    pub cycle_ids: Seq<Seq<char>>,
    pub unknown_entries: Seq<UnknownEntryView>,
    pub diagnostics: Seq<DiagnosticView>,
    pub entries: Seq<EntryView>,
    pub tree: Seq<TreeNodeView>,
    pub timeline_blocks: Seq<BlockView>,
}

impl View for ScanReport {
    type V = ReportView;

    open spec fn view(&self) -> ReportView {
        ReportView {
            source_name: self.source_name@,
            file_revision: self.file_revision@,
            source_modified: self.source_modified,
            complete_bytes: self.complete_bytes,
            partial_tail_bytes: self.partial_tail_bytes,
            parse_state: self.parse_state,
            pi_session_id: opt_view(self.pi_session_id),
            session_name: opt_view(self.session_name),
            project_cwd: opt_view(self.project_cwd),
            created_at: opt_view(self.created_at),
            updated_at: opt_view(self.updated_at),
            first_user_preview: opt_view(self.first_user_preview),
            last_message_preview: opt_view(self.last_message_preview),
            model_ref: opt_view(self.model_ref),
            entry_count: self.entry_count,
            image_entry_count: self.image_entry_count,
            compaction_entry_count: self.compaction_entry_count,
            branch_count: self.branch_count,
            current_leaf_id: opt_view(self.current_leaf_id),
            roots: strings_view(self.roots@),
            orphan_ids: strings_view(self.orphan_ids@),
            cycle_ids: strings_view(self.cycle_ids@),
            unknown_entries: unknown_view(self.unknown_entries@),
            diagnostics: diagnostics_view(self.diagnostics@),
            entries: entries_view(self.entries@),
            tree: tree_view(self.tree@),
            timeline_blocks: blocks_view(self.timeline_blocks@),
        }
    }
}
} // verus!
