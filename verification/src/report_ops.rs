//! Read-only views of a scan report: positional timeline slices, the contract
//! timeline page, the read-only tree, and the contract projection.
use vstd::prelude::*;
use crate::contracts::{
    BlockId, BlockStatus, EntryId, ProjectId, SessionId, TimelineBlock, TimelineBlockKind,
    TimelinePage, TimelineSource, ReadOnlySessionTree, SessionTreeNode as ContractTreeNode,
    SessionProjection,
};
use crate::json::JsonValue;
use crate::report::{
    BlockView, GenericBlockKind, GenericTimelineBlock, ScanReport, TimelineSlice, blocks_view,
    clone_opt, EntryView, TreeNodeView, entries_view, tree_view, strings_view, SessionTreeNode,
};
use crate::catalog::{title_from_report, title_spec, contract_title_source, contract_title_source_spec, contract_parse_state, contract_parse_state_spec, model_ref};
use crate::text::{str_eq, opt_view, str_chars};

verus! {

/// Maximum number of blocks in one slice.
pub const TIMELINE_SLICE_MAX_LIMIT: usize = 200;

pub struct SliceView {
    pub blocks: Seq<BlockView>,
    pub start: nat,
    pub end: nat,
    pub total: nat,
}

/// The blocks before position `end` (clamped to the total), at most `limit`
/// of them and never more than the slice bound.
pub open spec fn slice_before(blocks: Seq<BlockView>, end: nat, limit: nat) -> SliceView {
    let total = blocks.len();
    let e = if end < total { end } else { total };
    let n = if limit < TIMELINE_SLICE_MAX_LIMIT { limit } else { TIMELINE_SLICE_MAX_LIMIT as nat };
    let start = if e >= n { (e - n) as nat } else { 0 };
    SliceView { blocks: blocks.subrange(start as int, e as int), start, end: e, total }
}

/// Paging backwards from a slice's start gives the slice just before it:
/// the two meet without overlap, together they are the contiguous blocks
/// they span in chronological order, each holds at most the requested (and
/// bounded) number of blocks, and a non-empty request before a non-zero
/// start always makes progress.
pub proof fn lemma_slices_page_without_overlap(blocks: Seq<BlockView>, end: nat, limit: nat)
    ensures
        ({
            let newer = slice_before(blocks, end, limit);
            let older = slice_before(blocks, newer.start, limit);
            &&& older.end == newer.start
            &&& older.blocks + newer.blocks == blocks.subrange(older.start as int, newer.end as int)
            &&& newer.blocks.len() <= limit && newer.blocks.len() <= TIMELINE_SLICE_MAX_LIMIT
            &&& older.blocks.len() <= limit && older.blocks.len() <= TIMELINE_SLICE_MAX_LIMIT
            &&& older.start <= older.end <= newer.start <= newer.end <= blocks.len()
            &&& (limit > 0 && newer.start > 0 ==> older.start < older.end)
        }),
{
    let newer = slice_before(blocks, end, limit);
    let older = slice_before(blocks, newer.start, limit);
    assert(older.blocks + newer.blocks =~= blocks.subrange(older.start as int, newer.end as int));
}

pub open spec fn slice_view(s: TimelineSlice) -> SliceView {
    SliceView { blocks: blocks_view(s.blocks@), start: s.start as nat, end: s.end as nat, total: s.total as nat }
}

pub open spec fn contract_kind(k: GenericBlockKind) -> TimelineBlockKind {
    match k {
        GenericBlockKind::User => TimelineBlockKind::User,
        GenericBlockKind::Assistant => TimelineBlockKind::Assistant,
        GenericBlockKind::Thinking => TimelineBlockKind::Thinking,
        GenericBlockKind::Tool => TimelineBlockKind::Tool,
        GenericBlockKind::Compaction => TimelineBlockKind::Compaction,
        GenericBlockKind::Custom | GenericBlockKind::Unknown => TimelineBlockKind::Custom,
    }
}

pub open spec fn str_is(v: JsonValue, s: Seq<char>) -> bool {
    match v {
        JsonValue::Str(x) => x@ == s,
        _ => false,
    }
}

pub open spec fn starts_with(s: Seq<char>, p: Seq<char>) -> bool {
    p.len() <= s.len() && s.take(p.len() as int) == p
}

/// What the contract carries of a block: its ids, kind, time and source, and
/// as content only its label, preview and image flag.
pub open spec fn contract_block_matches(t: TimelineBlock, b: BlockView, session: Seq<char>) -> bool {
    &&& t.id.0@ == b.id
    &&& match (t.parent_id, b.parent_id) {
        (Some(p), Some(q)) => p.0@ == q,
        (None, None) => true,
        _ => false,
    }
    &&& t.kind == contract_kind(b.kind)
    &&& t.status == BlockStatus::Complete
    &&& opt_view(t.created_at) == b.created_at
    &&& t.source.session_id.0@ == session
    &&& match t.source.entry_id {
        Some(e) => !starts_with(b.id, "line-"@) && e.0@ == b.id,
        None => starts_with(b.id, "line-"@),
    }
    &&& t.source.extension_id is None
    &&& opt_view(t.source.entry_type) == Some(b.source_type)
    &&& match t.content {
        JsonValue::Object(fields) => {
            &&& fields@.len() == 3
            &&& fields@[0].0@ == "label"@
            &&& str_is(fields@[0].1, b.source_type)
            &&& fields@[1].0@ == "preview"@
            &&& match b.preview {
                Some(p) => str_is(fields@[1].1, p),
                None => fields@[1].1 == JsonValue::Null,
            }
            &&& fields@[2].0@ == "hasImage"@ && fields@[2].1 == JsonValue::Bool(b.has_image)
        },
        _ => false,
    }
}

fn starts_with_line(id: &str) -> (r: bool)
    ensures
        r == starts_with(id@, "line-"@),
{
    let chars = str_chars(id);
    let prefix = str_chars("line-");
    if prefix.len() > chars.len() {
        return false;
    }
    let mut i: usize = 0;
    while i < prefix.len()
        invariant
            i <= prefix@.len() <= chars@.len(),
            chars@ == id@,
            prefix@ == "line-"@,
            forall|j: int| 0 <= j < i ==> chars@[j] == prefix@[j],
        decreases prefix.len() - i,
    {
        if chars[i] != prefix[i] {
            assert(chars@.take(prefix@.len() as int)[i as int] != prefix@[i as int]);
            return false;
        }
        i = i + 1;
    }
    assert(chars@.take(prefix@.len() as int) =~= prefix@);
    true
}

fn contract_block(block: &GenericTimelineBlock, session_id: &SessionId) -> (r: TimelineBlock)
    ensures
        contract_block_matches(r, block@, session_id.0@),
{
    let preview = match &block.preview {
        Some(p) => JsonValue::Str(p.clone()),
        None => JsonValue::Null,
    };
    let mut fields: Vec<(String, JsonValue)> = Vec::new();
    fields.push((String::from_str("label"), JsonValue::Str(block.source_type.clone())));
    fields.push((String::from_str("preview"), preview));
    fields.push((String::from_str("hasImage"), JsonValue::Bool(block.has_image)));
    let entry_id = if starts_with_line(block.id.as_str()) {
        None
    } else {
        Some(EntryId::new(block.id.clone()))
    };
    TimelineBlock {
        id: BlockId::new(block.id.clone()),
        parent_id: match &block.parent_id {
            Some(p) => Some(BlockId::new(p.clone())),
            None => None,
        },
        kind: match block.kind {
            GenericBlockKind::User => TimelineBlockKind::User,
            GenericBlockKind::Assistant => TimelineBlockKind::Assistant,
            GenericBlockKind::Thinking => TimelineBlockKind::Thinking,
            GenericBlockKind::Tool => TimelineBlockKind::Tool,
            GenericBlockKind::Compaction => TimelineBlockKind::Compaction,
            GenericBlockKind::Custom | GenericBlockKind::Unknown => TimelineBlockKind::Custom,
        },
        status: BlockStatus::Complete,
        created_at: clone_opt(&block.created_at),
        source: TimelineSource {
            session_id: SessionId::new(session_id.0.clone()),
            entry_id,
            extension_id: None,
            entry_type: Some(block.source_type.clone()),
        },
        content: JsonValue::Object(fields),
    }
}

/// Nodes met from `cursor` following tree parent links, stopping at a
/// repeated id, an id without a node, or when `fuel` runs out.
pub open spec fn path_from(tree: Seq<TreeNodeView>, cursor: Option<Seq<char>>, seen: Seq<Seq<char>>, fuel: nat) -> Seq<Seq<char>>
    decreases fuel,
{
    if fuel == 0 {
        seen
    } else {
        match cursor {
            None => seen,
            Some(id) => if seen.contains(id) {
                seen
            } else {
                path_from(tree, node_parent(tree, id), seen.push(id), (fuel - 1) as nat)
            },
        }
    }
}

/// The parent id of the last node named `id`.
pub open spec fn node_parent(tree: Seq<TreeNodeView>, id: Seq<char>) -> Option<Seq<char>>
    decreases tree.len(),
{
    if tree.len() == 0 {
        None
    } else if tree.last().entry_id == id {
        tree.last().parent_id
    } else {
        node_parent(tree.drop_last(), id)
    }
}

/// The last entry with id `id`.
pub open spec fn entry_named(es: Seq<EntryView>, id: Seq<char>) -> Option<EntryView>
    decreases es.len(),
{
    if es.len() == 0 {
        None
    } else if es.last().entry_id == Some(id) {
        Some(es.last())
    } else {
        entry_named(es.drop_last(), id)
    }
}

/// The ids on the current path: from the current leaf up its ancestors.
pub open spec fn current_path(tree: Seq<TreeNodeView>, leaf: Option<Seq<char>>) -> Seq<Seq<char>> {
    path_from(tree, leaf, Seq::empty(), path_fuel(tree.len()))
}

/// Steps enough to visit every node once more than there are nodes.
pub open spec fn path_fuel(n: nat) -> nat {
    if n < usize::MAX {
        n + 1
    } else {
        n
    }
}

pub open spec fn role_or_type(e: Option<EntryView>) -> Seq<char> {
    match e {
        Some(entry) => match entry.role {
            Some(r) => r,
            None => entry.entry_type,
        },
        None => "unknown"@,
    }
}

pub open spec fn contract_node_matches(t: ContractTreeNode, n: TreeNodeView, es: Seq<EntryView>, path: Seq<Seq<char>>) -> bool {
    let e = entry_named(es, n.entry_id);
    &&& t.entry_id.0@ == n.entry_id
    &&& match (t.parent_id, n.parent_id) {
        (Some(p), Some(q)) => p.0@ == q,
        (None, None) => true,
        _ => false,
    }
    &&& t.role_or_type@ == role_or_type(e)
    &&& opt_view(t.created_at) == match e { Some(x) => x.created_at, None => None }
    &&& opt_view(t.preview) == match e { Some(x) => x.preview, None => None }
    &&& t.children@.len() == n.children.len()
    &&& forall|i: int| 0 <= i < n.children.len() ==> (#[trigger] t.children@[i]).0@ == n.children[i]
    &&& t.is_current_path == path.contains(n.entry_id)
}

impl ScanReport {
    fn timeline_slice_before(&self, end: usize, limit: usize) -> (r: TimelineSlice)
        ensures
            slice_view(r) == slice_before(blocks_view(self.timeline_blocks@), end as nat, limit as nat),
    {
        let total = self.timeline_blocks.len();
        let end = if end < total { end } else { total };
        let n = if limit < TIMELINE_SLICE_MAX_LIMIT { limit } else { TIMELINE_SLICE_MAX_LIMIT };
        let start = if end >= n { end - n } else { 0 };
        let mut blocks: Vec<GenericTimelineBlock> = Vec::new();
        let mut i = start;
        while i < end
            invariant
                start <= i <= end <= self.timeline_blocks@.len(),
                blocks_view(blocks@) == blocks_view(self.timeline_blocks@).subrange(start as int, i as int),
            decreases end - i,
        {
            let ghost before = blocks@;
            blocks.push(self.timeline_blocks[i].copied());
            assert(blocks_view(blocks@) =~= blocks_view(before).push(self.timeline_blocks@[i as int]@));
            assert(blocks_view(self.timeline_blocks@).subrange(start as int, i + 1) =~= blocks_view(self.timeline_blocks@).subrange(start as int, i as int).push(self.timeline_blocks@[i as int]@));
            i = i + 1;
        }
        TimelineSlice { blocks, start, end, total }
    }

    /// The newest chronological slice, at most `limit` (and the bound) blocks.
    pub fn timeline_slice_latest(&self, limit: usize) -> (r: TimelineSlice)
        ensures
            slice_view(r) == slice_before(blocks_view(self.timeline_blocks@), self.timeline_blocks@.len(), limit as nat),
    {
        self.timeline_slice_before(self.timeline_blocks.len(), limit)
    }

    /// The slice immediately before position `before` (clamped).
    pub fn timeline_slice_older(&self, before: usize, limit: usize) -> (r: TimelineSlice)
        ensures
            slice_view(r) == slice_before(blocks_view(self.timeline_blocks@), before as nat, limit as nat),
    {
        let total = self.timeline_blocks.len();
        self.timeline_slice_before(if before < total { before } else { total }, limit)
    }

    /// The whole timeline in the host contract's form. Unknown records stay
    /// generic custom blocks and no raw record reaches the content.
    pub fn timeline_page(&self, session_id: SessionId) -> (r: TimelinePage)
        ensures
            r.session_id.0@ == session_id.0@,
            r.blocks@.len() == self.timeline_blocks@.len(),
            forall|i: int| 0 <= i < r.blocks@.len() ==> contract_block_matches(#[trigger] r.blocks@[i], self.timeline_blocks@[i]@, session_id.0@),
            r.file_revision@ == self.file_revision@,
            r.older_cursor is None,
            r.newer_cursor is None,
            !r.stale_cursor,
    {
        let mut blocks: Vec<TimelineBlock> = Vec::new();
        let mut i: usize = 0;
        while i < self.timeline_blocks.len()
            invariant
                i <= self.timeline_blocks@.len(),
                blocks@.len() == i,
                forall|j: int| 0 <= j < i ==> contract_block_matches(#[trigger] blocks@[j], self.timeline_blocks@[j]@, session_id.0@),
            decreases self.timeline_blocks.len() - i,
        {
            blocks.push(contract_block(&self.timeline_blocks[i], &session_id));
            i = i + 1;
        }
        TimelinePage {
            session_id,
            blocks,
            file_revision: self.file_revision.clone(),
            older_cursor: None,
            newer_cursor: None,
            stale_cursor: false,
        }
    }

    /// The read-only tree contract. `is_current_path` marks the last leaf and
    /// its ancestors; it is a display heuristic, not a navigation claim.
    pub fn read_only_tree(&self, session_id: SessionId) -> (r: ReadOnlySessionTree)
        ensures
            r.session_id.0@ == session_id.0@,
            match (r.current_leaf_id, self.current_leaf_id) {
                (Some(a), Some(b)) => a.0@ == b@,
                (None, None) => true,
                _ => false,
            },
            r.nodes@.len() == self.tree@.len(),
            forall|i: int| 0 <= i < r.nodes@.len() ==> contract_node_matches(
                #[trigger] r.nodes@[i],
                self.tree@[i]@,
                entries_view(self.entries@),
                current_path(tree_view(self.tree@), opt_view(self.current_leaf_id)),
            ),
    {
        let ghost tv = tree_view(self.tree@);
        let ghost es = entries_view(self.entries@);
        let path = current_path_ids(self.tree.as_slice(), &self.current_leaf_id);
        let ghost pv = strings_view(path@);
        let mut nodes: Vec<ContractTreeNode> = Vec::new();
        let mut i: usize = 0;
        while i < self.tree.len()
            invariant
                i <= self.tree@.len(),
                tv == tree_view(self.tree@),
                es == entries_view(self.entries@),
                pv == strings_view(path@),
                pv == current_path(tv, opt_view(self.current_leaf_id)),
                nodes@.len() == i,
                forall|j: int| 0 <= j < i ==> contract_node_matches(#[trigger] nodes@[j], self.tree@[j]@, es, pv),
            decreases self.tree.len() - i,
        {
            let node = &self.tree[i];
            let entry = self.entry_named(node.entry_id.as_str());
            let role = match entry {
                Some(e) => match &e.role {
                    Some(r) => r.clone(),
                    None => e.entry_type.clone(),
                },
                None => crate::contracts::unknown_role_or_type(),
            };
            let mut children: Vec<EntryId> = Vec::new();
            let mut k: usize = 0;
            while k < node.children.len()
                invariant
                    k <= node.children@.len(),
                    children@.len() == k,
                    forall|m: int| 0 <= m < k ==> (#[trigger] children@[m]).0@ == node.children@[m]@,
                decreases node.children.len() - k,
            {
                children.push(EntryId::new(node.children[k].clone()));
                k = k + 1;
            }
            let on_path = contains_str(path.as_slice(), node.entry_id.as_str());
            nodes.push(ContractTreeNode {
                entry_id: EntryId::new(node.entry_id.clone()),
                parent_id: match &node.parent_id {
                    Some(p) => Some(EntryId::new(p.clone())),
                    None => None,
                },
                role_or_type: role,
                created_at: match entry {
                    Some(e) => clone_opt(&e.created_at),
                    None => None,
                },
                preview: match entry {
                    Some(e) => clone_opt(&e.preview),
                    None => None,
                },
                children,
                is_current_path: on_path,
            });
            proof {
                assert(node@.children == strings_view(node.children@));
            }
            i = i + 1;
        }
        ReadOnlySessionTree {
            session_id,
            current_leaf_id: match &self.current_leaf_id {
                Some(id) => Some(EntryId::new(id.clone())),
                None => None,
            },
            nodes,
        }
    }

    fn entry_named(&self, id: &str) -> (r: Option<&crate::report::IndexedEntry>)
        ensures
            match r {
                Some(e) => entry_named(entries_view(self.entries@), id@) == Some(e@),
                None => entry_named(entries_view(self.entries@), id@) is None,
            },
    {
        let ghost es = entries_view(self.entries@);
        let mut i = self.entries.len();
        assert(es.take(i as int) =~= es);
        while i > 0
            invariant
                i <= self.entries@.len(),
                es == entries_view(self.entries@),
                entry_named(es, id@) == entry_named(es.take(i as int), id@),
            decreases i,
        {
            assert(es.take(i as int).last() == self.entries@[i - 1]@);
            assert(es.take(i as int).drop_last() =~= es.take(i - 1));
            let matches = match &self.entries[i - 1].entry_id {
                Some(e) => str_eq(e.as_str(), id),
                None => false,
            };
            if matches {
                return Some(&self.entries[i - 1]);
            }
            i = i - 1;
        }
        None
    }

    /// The contract projection of the scanner metadata; it carries neither a
    /// session file path nor the project working directory.
    pub fn contract_projection(&self, id: SessionId, project_id: Option<ProjectId>) -> (r: SessionProjection)
        ensures
            r.id.0@ == id.0@,
            r.project_id == project_id,
            opt_view(r.pi_session_id) == opt_view(self.pi_session_id),
            opt_view(r.name) == opt_view(self.session_name),
            r.title_source == contract_title_source_spec(
                title_spec(opt_view(self.session_name), opt_view(self.first_user_preview), id.0@).1,
            ),
            opt_view(r.created_at) == opt_view(self.created_at),
            opt_view(r.updated_at) == opt_view(self.updated_at),
            opt_view(r.first_user_preview) == opt_view(self.first_user_preview),
            opt_view(r.last_message_preview) == opt_view(self.last_message_preview),
            r.entry_count == self.entry_count,
            r.branch_count == Some(self.branch_count as u64),
            match (r.current_leaf_id, self.current_leaf_id) {
                (Some(a), Some(b)) => a.0@ == b@,
                (None, None) => true,
                _ => false,
            },
            match (r.model, self.model_ref) {
                (Some(m), Some(mid)) => m.provider@ == "pi"@ && m.id@ == mid@,
                (None, None) => true,
                _ => false,
            },
            r.parse_state == contract_parse_state_spec(self.parse_state),
            r.file_revision@ == self.file_revision@,
    {
        let (_, title_source) = title_from_report(self, id.as_str());
        SessionProjection {
            id,
            project_id,
            pi_session_id: clone_opt(&self.pi_session_id),
            name: clone_opt(&self.session_name),
            title_source: contract_title_source(title_source),
            created_at: clone_opt(&self.created_at),
            updated_at: clone_opt(&self.updated_at),
            first_user_preview: clone_opt(&self.first_user_preview),
            last_message_preview: clone_opt(&self.last_message_preview),
            entry_count: self.entry_count as u64,
            branch_count: Some(self.branch_count as u64),
            current_leaf_id: match &self.current_leaf_id {
                Some(leaf) => Some(EntryId::new(leaf.clone())),
                None => None,
            },
            model: match &self.model_ref {
                Some(m) => Some(model_ref(m.clone())),
                None => None,
            },
            parse_state: contract_parse_state(self.parse_state),
            file_revision: self.file_revision.clone(),
        }
    }
}

pub(crate) fn tree_node_parent(tree: &[SessionTreeNode], id: &str) -> (r: Option<String>)
    ensures
        opt_view(r) == node_parent(tree_view(tree@), id@),
{
    let ghost tv = tree_view(tree@);
    let mut i = tree.len();
    assert(tv.take(i as int) =~= tv);
    while i > 0
        invariant
            i <= tree@.len(),
            tv == tree_view(tree@),
            node_parent(tv, id@) == node_parent(tv.take(i as int), id@),
        decreases i,
    {
        assert(tv.take(i as int).last() == tree@[i - 1]@);
        assert(tv.take(i as int).drop_last() =~= tv.take(i - 1));
        if str_eq(tree[i - 1].entry_id.as_str(), id) {
            return clone_opt(&tree[i - 1].parent_id);
        }
        i = i - 1;
    }
    None
}


pub(crate) fn current_path_ids(tree: &[SessionTreeNode], leaf: &Option<String>) -> (r: Vec<String>)
    ensures
        strings_view(r@) == current_path(tree_view(tree@), opt_view(*leaf)),
{
    let ghost tv = tree_view(tree@);
    let mut path: Vec<String> = Vec::new();
    let mut cursor = clone_opt(leaf);
    let fuel_total = if tree.len() < usize::MAX {
        tree.len() + 1
    } else {
        tree.len()
    };
    let mut fuel: usize = fuel_total;
    assert(strings_view(path@) =~= Seq::<Seq<char>>::empty());
    while fuel > 0
        invariant
            tv == tree_view(tree@),
            fuel <= fuel_total,
            fuel_total == path_fuel(tv.len()),
            path_from(tv, opt_view(cursor), strings_view(path@), fuel as nat) == current_path(tv, opt_view(*leaf)),
        decreases fuel,
    {
        let id = match cursor {
            Some(id) => id,
            None => {
                return path;
            },
        };
        if contains_str(path.as_slice(), id.as_str()) {
            return path;
        }
        let next = tree_node_parent(tree, id.as_str());
        let ghost before = path@;
        path.push(id);
        assert(strings_view(path@) =~= strings_view(before).push(path@.last()@));
        cursor = next;
        fuel = fuel - 1;
    }
    path
}


pub(crate) fn contains_str(v: &[String], s: &str) -> (r: bool)
    ensures
        r == strings_view(v@).contains(s@),
{
    let mut i: usize = 0;
    while i < v.len()
        invariant
            i <= v@.len(),
            forall|j: int| 0 <= j < i ==> v@[j]@ != s@,
        decreases v.len() - i,
    {
        if str_eq(v[i].as_str(), s) {
            assert(strings_view(v@)[i as int] == s@);
            return true;
        }
        i = i + 1;
    }
    assert(!strings_view(v@).contains(s@)) by {
        if strings_view(v@).contains(s@) {
            let j = choose|j: int| 0 <= j < strings_view(v@).len() && strings_view(v@)[j] == s@;
            assert(v@[j]@ == s@);
        }
    }
    false
}

} // verus!
