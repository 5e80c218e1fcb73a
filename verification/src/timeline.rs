//! Generic timeline blocks derived from indexed entries, and positional
//! slices of them.
//!
//! Block ids are positional (`timeline-<n>`). A parent link is kept only when
//! the entry's parent id names exactly one other entry and the link is not on
//! a cycle; source ids never appear in a block.
use vstd::prelude::*;
use crate::report::{EntryView, IndexedEntry, entries_view, GenericBlockKind, GenericBlockStatus, GenericTimelineBlock, BlockView, blocks_view, TimelineSlice};
use crate::semantic::{block_id, timeline_block_id};
use crate::scan::known_types;
use crate::text::{str_eq, opt_view};
use crate::tree::{on_cycle, node_on_cycle, links_view, links_in_range, link_below};

verus! {

/// Number of entries whose id is `id`.
pub open spec fn count_id(es: Seq<EntryView>, id: Seq<char>) -> nat
    decreases es.len(),
{
    if es.len() == 0 {
        0
    } else {
        count_id(es.drop_last(), id) + if es.last().entry_id == Some(id) { 1nat } else { 0nat }
    }
}

/// Position of the last entry whose id is `id`.
pub open spec fn last_index_of(es: Seq<EntryView>, id: Seq<char>) -> Option<nat>
    decreases es.len(),
{
    if es.len() == 0 {
        None
    } else if es.last().entry_id == Some(id) {
        Some((es.len() - 1) as nat)
    } else {
        last_index_of(es.drop_last(), id)
    }
}

/// The entry an entry's parent id names, when it names exactly one entry
/// other than itself.
pub open spec fn unique_parent(es: Seq<EntryView>, i: int) -> Option<nat> {
    match es[i].parent_id {
        Some(p) => if count_id(es, p) == 1 {
            match last_index_of(es, p) {
                Some(j) => if j != i {
                    Some(j)
                } else {
                    None
                },
                None => None,
            }
        } else {
            None
        },
        None => None,
    }
}

pub open spec fn unique_parent_links(es: Seq<EntryView>) -> Seq<Option<nat>> {
    Seq::new(es.len(), |i: int| unique_parent(es, i))
}

/// Links on a cycle are dropped.
pub open spec fn acyclic_block_links(p: Seq<Option<nat>>) -> Seq<Option<nat>> {
    Seq::new(p.len(), |k: int| if on_cycle(p, k as nat) { None } else { p[k] })
}

/// The generic kind of an entry.
pub open spec fn block_kind_spec(e: EntryView) -> GenericBlockKind {
    if e.role == Some("user"@) {
        GenericBlockKind::User
    } else if e.role == Some("assistant"@) {
        GenericBlockKind::Assistant
    } else {
        let t = e.entry_type;
        if t == "compaction"@ {
            GenericBlockKind::Compaction
        } else if t == "tool"@ || t == "tool_result"@ {
            GenericBlockKind::Tool
        } else if t == "thinking_level_change"@ {
            GenericBlockKind::Thinking
        } else if known_types().contains(t) {
            GenericBlockKind::Custom
        } else {
            GenericBlockKind::Unknown
        }
    }
}

pub fn generic_block_kind(entry: &IndexedEntry) -> (r: GenericBlockKind)
    ensures
        r == block_kind_spec(entry@),
{
    let is_user = match &entry.role {
        Some(r) => str_eq(r.as_str(), "user"),
        None => false,
    };
    let is_assistant = match &entry.role {
        Some(r) => str_eq(r.as_str(), "assistant"),
        None => false,
    };
    if is_user {
        return GenericBlockKind::User;
    }
    if is_assistant {
        return GenericBlockKind::Assistant;
    }
    let t = entry.entry_type.as_str();
    if str_eq(t, "compaction") {
        GenericBlockKind::Compaction
    } else if str_eq(t, "tool") || str_eq(t, "tool_result") {
        GenericBlockKind::Tool
    } else if str_eq(t, "thinking_level_change") {
        GenericBlockKind::Thinking
    } else if crate::scan::is_known_type(t) {
        GenericBlockKind::Custom
    } else {
        GenericBlockKind::Unknown
    }
}

pub open spec fn opt_block_id(o: Option<nat>) -> Option<Seq<char>> {
    match o {
        Some(k) => Some(block_id(k)),
        None => None,
    }
}

/// The block of entry `k`, linked to `parent`.
pub open spec fn generic_block_spec(e: EntryView, k: nat, parent: Option<nat>) -> BlockView {
    let kind = block_kind_spec(e);
    BlockView {
        id: block_id(k),
        parent_id: opt_block_id(parent),
        kind,
        source_type: e.entry_type,
        created_at: e.created_at,
        preview: e.preview,
        has_image: e.has_image,
        title: None,
        tool_name: None,
        collapsible: kind == GenericBlockKind::Thinking || kind == GenericBlockKind::Tool || kind
            == GenericBlockKind::Compaction,
        truncated: false,
        fallback: kind == GenericBlockKind::Unknown,
        status: GenericBlockStatus::Complete,
    }
}

/// One block per entry, in order.
pub open spec fn generic_blocks_spec(es: Seq<EntryView>) -> Seq<BlockView> {
    let links = acyclic_block_links(unique_parent_links(es));
    Seq::new(es.len(), |k: int| generic_block_spec(es[k], k as nat, links[k]))
}

fn unique_parent_of(entries: &Vec<IndexedEntry>, i: usize) -> (r: Option<usize>)
    requires
        i < entries@.len(),
    ensures
        match r {
            Some(j) => unique_parent(entries_view(entries@), i as int) == Some(j as nat) && j < entries@.len(),
            None => unique_parent(entries_view(entries@), i as int) is None,
        },
{
    let ghost es = entries_view(entries@);
    let parent = match &entries[i].parent_id {
        Some(p) => p,
        None => {
            return None;
        },
    };
    let mut count: usize = 0;
    let mut last: Option<usize> = None;
    let mut j: usize = 0;
    while j < entries.len()
        invariant
            j <= entries@.len(),
            es == entries_view(entries@),
            count <= j,
            count == count_id(es.take(j as int), parent@),
            match last {
                Some(x) => last_index_of(es.take(j as int), parent@) == Some(x as nat) && x < j,
                None => last_index_of(es.take(j as int), parent@) is None,
            },
        decreases entries.len() - j,
    {
        assert(es.take(j + 1).drop_last() =~= es.take(j as int));
        assert(es.take(j + 1).last() == entries@[j as int]@);
        let matches = match &entries[j].entry_id {
            Some(id) => str_eq(id.as_str(), parent.as_str()),
            None => false,
        };
        if matches {
            count = count + 1;
            last = Some(j);
        }
        j = j + 1;
    }
    assert(es.take(entries@.len() as int) =~= es);
    if count == 1 {
        match last {
            Some(x) => if x != i {
                Some(x)
            } else {
                None
            },
            None => None,
        }
    } else {
        None
    }
}

/// Drops every parent link that lies on a cycle; other links are kept.
pub fn drop_cyclic_timeline_parent_links(parent_indices: &mut Vec<Option<usize>>)
    requires
        links_in_range(old(parent_indices)@),
    ensures
        links_view(final(parent_indices)@) == acyclic_block_links(links_view(old(parent_indices)@)),
        links_in_range(final(parent_indices)@),
        final(parent_indices)@.len() == old(parent_indices)@.len(),
{
    let original = parent_indices.clone();
    let ghost lv = links_view(original@);
    assert(original@ == old(parent_indices)@);
    let n = original.len();
    let mut k: usize = 0;
    while k < n
        invariant
            k <= n,
            n == original@.len(),
            parent_indices@.len() == n,
            lv == links_view(original@),
            original@ == old(parent_indices)@,
            links_in_range(original@),
            forall|j: int| 0 <= j < k ==> links_view(parent_indices@)[j] == acyclic_block_links(lv)[j],
            forall|j: int| k <= j < n ==> parent_indices@[j] == original@[j],
            forall|j: int| 0 <= j < n ==> link_below(#[trigger] parent_indices@[j], n as nat),
        decreases n - k,
    {
        if node_on_cycle(&original, k) {
            parent_indices.set(k, None);
        }
        proof {
            assert(links_view(parent_indices@)[k as int] == acyclic_block_links(lv)[k as int]);
        }
        k = k + 1;
    }
    assert(links_view(parent_indices@) =~= acyclic_block_links(lv));
}

/// One generic block per entry with safe, positional parent links.
pub fn generic_blocks(entries: &Vec<IndexedEntry>) -> (r: Vec<GenericTimelineBlock>)
    ensures
        blocks_view(r@) == generic_blocks_spec(entries_view(entries@)),
{
    let ghost es = entries_view(entries@);
    let n = entries.len();
    let mut links: Vec<Option<usize>> = Vec::new();
    let mut i: usize = 0;
    while i < n
        invariant
            i <= n,
            n == entries@.len(),
            es == entries_view(entries@),
            links@.len() == i,
            forall|k: int| 0 <= k < i ==> links_view(links@)[k] == unique_parent_links(es)[k],
            forall|k: int| 0 <= k < i ==> link_below(#[trigger] links@[k], n as nat),
        decreases n - i,
    {
        let ghost before = links@;
        let link = unique_parent_of(entries, i);
        links.push(link);
        proof {
            assert(links_view(links@) =~= links_view(before).push(match link { Some(x) => Some(x as nat), None => None::<nat> }));
        }
        i = i + 1;
    }
    assert(links_view(links@) =~= unique_parent_links(es));
    assert(links_in_range(links@));
    let ghost raw = links_view(links@);
    drop_cyclic_timeline_parent_links(&mut links);
    let ghost lv = links_view(links@);
    let mut blocks: Vec<GenericTimelineBlock> = Vec::new();
    let mut k: usize = 0;
    while k < n
        invariant
            k <= n,
            n == entries@.len(),
            n == links@.len(),
            es == entries_view(entries@),
            lv == links_view(links@),
            raw == unique_parent_links(es),
            lv == acyclic_block_links(raw),
            blocks_view(blocks@) == Seq::new(k as nat, |j: int| generic_block_spec(es[j], j as nat, lv[j])),
        decreases n - k,
    {
        let parent = links[k];
        proof {
            assert(lv[k as int] == match parent { Some(x) => Some(x as nat), None => None::<nat> });
        }
        let entry = &entries[k];
        let kind = generic_block_kind(entry);
        let parent_id = match parent {
            Some(p) => Some(timeline_block_id(p)),
            None => None,
        };
        let created_at = match &entry.created_at {
            Some(s) => Some(s.clone()),
            None => None,
        };
        let preview = match &entry.preview {
            Some(s) => Some(s.clone()),
            None => None,
        };
        let block = GenericTimelineBlock {
            id: timeline_block_id(k),
            parent_id,
            kind,
            source_type: entry.entry_type.clone(),
            created_at,
            preview,
            has_image: entry.has_image,
            title: None,
            tool_name: None,
            collapsible: match kind {
                GenericBlockKind::Thinking | GenericBlockKind::Tool | GenericBlockKind::Compaction => true,
                _ => false,
            },
            truncated: false,
            fallback: match kind {
                GenericBlockKind::Unknown => true,
                _ => false,
            },
            status: GenericBlockStatus::Complete,
        };
        let ghost before = blocks@;
        blocks.push(block);
        proof {
            assert(blocks_view(before).len() == k);
            assert(before.len() == k);
            assert(es.len() == n);
            assert(es[k as int] == entries@[k as int]@);
            assert(blocks@[k as int]@ == generic_block_spec(es[k as int], k as nat, lv[k as int]));
            assert(blocks_view(blocks@) =~= blocks_view(before).push(blocks@[k as int]@));
            assert(blocks_view(blocks@) =~= Seq::new((k + 1) as nat, |j: int| generic_block_spec(es[j], j as nat, lv[j])));
        }
        k = k + 1;
    }
    assert(blocks_view(blocks@) =~= generic_blocks_spec(es));
    blocks
}

} // verus!
