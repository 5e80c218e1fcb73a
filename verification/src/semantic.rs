//! The render projection: display blocks for each session record.
//!
//! Each complete frame that parses as a JSON object is projected to zero or
//! more display blocks from an allowlisted subset of its fields. Tool calls
//! are correlated with their results by call id; the ids themselves never
//! reach a block. The whole timeline is then held to its total byte budget
//! and paths in display text are redacted.
use vstd::prelude::*;
use crate::json::{
    JsonValue, fields_get, fields_lookup, jstr, jbool, as_str, as_bool, or_else, deref, first_some,
    str_view,
};
use crate::report::{GenericBlockKind, GenericBlockStatus, GenericTimelineBlock, BlockView, blocks_view};
use crate::scan::{
    string_field, string_field_spec, keys_view, as_object, object_fields, fields_ref_matches,
    content_of, content_ref, role_of, role_field, message_of, member_of, opt_has_image, has_image,
    content_has_image, TYPE_LIMIT, lf_frames, lf_frame_seq, utf8_text, opt_seq_or,
};
use crate::display::{
    bounded_display, bounded_display_spec, display_content, display_content_spec, display_limit,
    display_limit_spec, mark_source_truncated, mark_truncated_spec, tool_title, tool_title_spec,
    trim_old_display, trim_old_display_spec, DISPLAY_DETAIL_LIMIT,
};
use crate::text::{safe_text, safe_text_spec, str_eq, opt_view, decimal, push_decimal, push_str};

verus! {

/// What a record contributes to every block it produces.
pub struct EntryContext {
    pub created_at: Option<Seq<char>>,
    pub has_image: bool,
}

/// Blocks so far, and the block index of each tool call id seen (the
/// newest binding of an id wins).
pub struct SemState {
    pub blocks: Seq<BlockView>,
    pub tools: Seq<(Seq<char>, nat)>,
}

pub open spec fn tool_index(tools: Seq<(Seq<char>, nat)>, id: Seq<char>) -> Option<nat>
    decreases tools.len(),
{
    if tools.len() == 0 {
        None
    } else if tools.last().0 == id {
        Some(tools.last().1)
    } else {
        tool_index(tools.drop_last(), id)
    }
}

/// `timeline-<index>`.
pub open spec fn block_id(index: nat) -> Seq<char> {
    "timeline-"@ + decimal(index)
}

pub fn timeline_block_id(index: usize) -> (r: String)
    ensures
        r@ == block_id(index as nat),
{
    let mut s = String::new();
    push_str(&mut s, "timeline-");
    push_decimal(&mut s, index as u64);
    assert(Seq::<char>::empty() + "timeline-"@ =~= "timeline-"@);
    s
}

/// A new block at position `index`; its display text is bounded by its kind.
pub open spec fn make_block(
    index: nat,
    ctx: EntryContext,
    kind: GenericBlockKind,
    source_type: Seq<char>,
    title: Option<Seq<char>>,
    tool_name: Option<Seq<char>>,
    text: Option<Seq<char>>,
    collapsible: bool,
    fallback: bool,
    status: GenericBlockStatus,
) -> BlockView {
    let (preview, truncated) = bounded_display_spec(text, display_limit_spec(kind));
    BlockView {
        id: block_id(index),
        parent_id: None,
        kind,
        source_type: safe_text_spec(source_type, TYPE_LIMIT as nat),
        created_at: ctx.created_at,
        preview,
        has_image: ctx.has_image,
        title,
        tool_name,
        collapsible,
        truncated,
        fallback,
        status,
    }
}

pub open spec fn push_block(
    st: SemState,
    ctx: EntryContext,
    kind: GenericBlockKind,
    source_type: Seq<char>,
    title: Option<Seq<char>>,
    tool_name: Option<Seq<char>>,
    text: Option<Seq<char>>,
    collapsible: bool,
    fallback: bool,
    status: GenericBlockStatus,
) -> SemState {
    SemState {
        blocks: st.blocks.push(
            make_block(
                st.blocks.len(),
                ctx,
                kind,
                source_type,
                title,
                tool_name,
                text,
                collapsible,
                fallback,
                status,
            ),
        ),
        tools: st.tools,
    }
}

pub open spec fn opt_display(v: Option<JsonValue>) -> Option<Seq<char>> {
    match v {
        Some(x) => display_content_spec(Some(x)),
        None => None,
    }
}

pub open spec fn opt_or(a: Option<Seq<char>>, b: Option<Seq<char>>) -> Option<Seq<char>> {
    opt_seq_or(a, b)
}

/// A record field, else the same field of its message.
pub open spec fn field_or_message(
    fields: Seq<(String, JsonValue)>,
    key: Seq<char>,
) -> Option<JsonValue> {
    first_some(fields_get(fields, key), member_of(message_of(fields), key))
}

pub open spec fn bool_or_false(v: Option<bool>) -> bool {
    match v {
        Some(b) => b,
        None => false,
    }
}

/// The status of an assistant message's blocks, from its stop reason.
pub open spec fn assistant_status(fields: Seq<(String, JsonValue)>) -> GenericBlockStatus {
    let m = message_of(fields);
    let reason = jstr(first_some(member_of(m, "stopReason"@), member_of(m, "stop_reason"@)));
    if reason == Some("error"@) {
        GenericBlockStatus::Failed
    } else if reason == Some("aborted"@) {
        GenericBlockStatus::Interrupted
    } else {
        GenericBlockStatus::Complete
    }
}

pub open spec fn is_metadata_type(t: Seq<char>) -> bool {
    t == "session"@ || t == "session_meta"@ || t == "session_info"@ || t == "model_change"@ || t
        == "thinking_level_change"@ || t == "label"@ || t == "branch_summary"@ || t == "custom"@
}

pub open spec fn entry_type_of(fields: Seq<(String, JsonValue)>) -> Seq<char> {
    match string_field_spec(fields, seq!["type"@, "entryType"@]) {
        Some(t) => t,
        None => Seq::empty(),
    }
}

/// Compaction summary text: the record's or message's `summary`, else its content.
pub open spec fn compaction_text(fields: Seq<(String, JsonValue)>) -> Option<Seq<char>> {
    opt_or(opt_display(field_or_message(fields, "summary"@)), display_content_spec(content_of(fields)))
}

/// Shell output: the record's, message's or content object's `output`, else
/// the content, marked when the source says it was truncated.
pub open spec fn bash_output(fields: Seq<(String, JsonValue)>) -> Option<Seq<char>> {
    let output = first_some(
        field_or_message(fields, "output"@),
        member_of(object_fields(content_of(fields)), "output"@),
    );
    mark_truncated_spec(
        opt_or(opt_display(output), display_content_spec(content_of(fields))),
        bool_or_false(jbool(field_or_message(fields, "truncated"@))),
    )
}

pub open spec fn bash_status(cancelled: bool) -> GenericBlockStatus {
    if cancelled {
        GenericBlockStatus::Interrupted
    } else {
        GenericBlockStatus::Complete
    }
}

pub open spec fn is_bash_record(fields: Seq<(String, JsonValue)>) -> bool {
    entry_type_of(fields) == "bashExecution"@ || role_of(fields) == Some("bashExecution"@)
}

pub open spec fn is_message_type(t: Seq<char>) -> bool {
    t == "message"@ || t == "tool"@ || t == "tool_result"@
}

/// The elements a message's content is read as.
pub open spec fn content_items(fields: Seq<(String, JsonValue)>) -> Seq<JsonValue> {
    match content_of(fields) {
        Some(JsonValue::Array(items)) => items@,
        Some(item) => seq![item],
        None => Seq::empty(),
    }
}


pub open spec fn tool_call_status(s: GenericBlockStatus) -> GenericBlockStatus {
    match s {
        GenericBlockStatus::Failed => GenericBlockStatus::Failed,
        GenericBlockStatus::Interrupted => GenericBlockStatus::Interrupted,
        _ => GenericBlockStatus::Running,
    }
}

pub open spec fn opt_seq_default(o: Option<Seq<char>>) -> Seq<char> {
    match o {
        Some(s) => s,
        None => Seq::empty(),
    }
}

pub open spec fn opt_safe_type(o: Option<Seq<char>>) -> Option<Seq<char>> {
    match o {
        Some(s) => Some(safe_text_spec(s, TYPE_LIMIT as nat)),
        None => None,
    }
}

/// What one element of a message's content contributes, and whether it is
/// recognized assistant detail.
pub open spec fn item_step(
    st: SemState,
    ctx: EntryContext,
    role: Option<Seq<char>>,
    astatus: GenericBlockStatus,
    item: JsonValue,
) -> (SemState, bool) {
    match item {
        JsonValue::Object(obj) => {
            let o = obj@;
            let t = opt_seq_default(string_field_spec(o, seq!["type"@]));
            if role == Some("assistant"@) && (t == "text"@ || t == "markdown"@) {
                (
                    push_block(
                        st,
                        ctx,
                        GenericBlockKind::Assistant,
                        "message"@,
                        None,
                        None,
                        opt_display(fields_get(o, "text"@)),
                        false,
                        false,
                        astatus,
                    ),
                    true,
                )
            } else if role == Some("assistant"@) && t == "thinking"@ {
                (
                    push_block(
                        st,
                        ctx,
                        GenericBlockKind::Thinking,
                        "thinking"@,
                        Some("Reasoning"@),
                        None,
                        opt_display(first_some(fields_get(o, "thinking"@), fields_get(o, "text"@))),
                        true,
                        false,
                        astatus,
                    ),
                    true,
                )
            } else if t == "toolCall"@ || t == "tool_call"@ {
                let name = opt_safe_type(string_field_spec(o, seq!["name"@, "toolName"@]));
                let safe = tool_title_spec(name);
                let call_id = string_field_spec(o, seq!["id"@, "toolCallId"@, "tool_call_id"@]);
                let pushed = push_block(
                    st,
                    ctx,
                    GenericBlockKind::Tool,
                    "tool_call"@,
                    Some(safe),
                    Some(safe),
                    None,
                    true,
                    false,
                    tool_call_status(astatus),
                );
                (
                    match call_id {
                        Some(id) => SemState {
                            blocks: pushed.blocks,
                            tools: pushed.tools.push((id, st.blocks.len())),
                        },
                        None => pushed,
                    },
                    true,
                )
            } else if t == "bashExecution"@ {
                (
                    push_block(
                        st,
                        ctx,
                        GenericBlockKind::Tool,
                        "bash_execution"@,
                        Some("bash"@),
                        Some("bash"@),
                        mark_truncated_spec(
                            opt_or(
                                opt_display(fields_get(o, "output"@)),
                                opt_display(fields_get(o, "text"@)),
                            ),
                            bool_or_false(jbool(fields_get(o, "truncated"@))),
                        ),
                        true,
                        false,
                        bash_status(bool_or_false(jbool(fields_get(o, "cancelled"@)))),
                    ),
                    true,
                )
            } else {
                (st, false)
            }
        },
        _ => (st, false),
    }
}

pub open spec fn items_fold(
    st: SemState,
    ctx: EntryContext,
    role: Option<Seq<char>>,
    astatus: GenericBlockStatus,
    items: Seq<JsonValue>,
) -> (SemState, bool)
    decreases items.len(),
{
    if items.len() == 0 {
        (st, false)
    } else {
        let (s0, r0) = items_fold(st, ctx, role, astatus, items.drop_last());
        let (s1, r1) = item_step(s0, ctx, role, astatus, items.last());
        (s1, r0 || r1)
    }
}

pub open spec fn call_id_keys() -> Seq<Seq<char>> {
    seq!["toolCallId"@, "tool_call_id"@]
}

/// The call id of the first element that names one.
pub open spec fn first_item_call_id(items: Seq<JsonValue>) -> Option<Seq<char>>
    decreases items.len(),
{
    if items.len() == 0 {
        None
    } else {
        let here = match items[0] {
            JsonValue::Object(o) => string_field_spec(o@, call_id_keys()),
            _ => None,
        };
        if here is Some {
            here
        } else {
            first_item_call_id(items.drop_first())
        }
    }
}

pub open spec fn error_flag(v: Option<Seq<(String, JsonValue)>>) -> bool {
    bool_or_false(jbool(first_some(member_of(v, "isError"@), member_of(v, "is_error"@))))
}

pub open spec fn any_item_error(items: Seq<JsonValue>) -> bool
    decreases items.len(),
{
    if items.len() == 0 {
        false
    } else {
        (match items[0] {
            JsonValue::Object(o) => error_flag(Some(o@)),
            _ => false,
        }) || any_item_error(items.drop_first())
    }
}

pub open spec fn result_status(failed: bool) -> GenericBlockStatus {
    if failed {
        GenericBlockStatus::Failed
    } else {
        GenericBlockStatus::Complete
    }
}

/// A tool result completes the block of its call when the call is known;
/// otherwise it becomes a block of its own.
pub open spec fn tool_result_step(
    st: SemState,
    ctx: EntryContext,
    fields: Seq<(String, JsonValue)>,
    items: Seq<JsonValue>,
) -> SemState {
    let m = message_of(fields);
    let call_id = opt_or(
        string_field_spec(fields, call_id_keys()),
        opt_or(
            match m {
                Some(mf) => string_field_spec(mf, call_id_keys()),
                None => None,
            },
            first_item_call_id(items),
        ),
    );
    let result = opt_or(
        display_content_spec(content_of(fields)),
        opt_display(fields_get(fields, "output"@)),
    );
    let failed = error_flag(Some(fields)) || error_flag(m) || any_item_error(items);
    let target = match call_id {
        Some(id) => tool_index(st.tools, id),
        None => None,
    };
    match target {
        Some(index) => if index < st.blocks.len() {
            let (display, truncated) = bounded_display_spec(result, DISPLAY_DETAIL_LIMIT as nat);
            let b = st.blocks[index as int];
            SemState {
                blocks: st.blocks.update(
                    index as int,
                    BlockView {
                        preview: if display is Some {
                            display
                        } else {
                            b.preview
                        },
                        truncated: b.truncated || truncated,
                        status: result_status(failed),
                        ..b
                    },
                ),
                tools: st.tools,
            }
        } else {
            st
        },
        None => push_block(
            st,
            ctx,
            GenericBlockKind::Tool,
            "tool_result"@,
            Some("Tool result"@),
            None,
            result,
            true,
            true,
            result_status(failed),
        ),
    }
}

/// A record says it reports an error: its `isError`, or when that is
/// absent its `is_error`, is `true`.
pub open spec fn reports_error(fields: Seq<(String, JsonValue)>) -> bool {
    match fields_get(fields, "isError"@) {
        Some(v) => v == JsonValue::Bool(true),
        None => fields_get(fields, "is_error"@) == Some(JsonValue::Bool(true)),
    }
}

/// A tool result failed when the record, its message object, or any
/// object among its content items reports an error.
pub open spec fn tool_result_failed(fields: Seq<(String, JsonValue)>, items: Seq<JsonValue>) -> bool {
    ||| reports_error(fields)
    ||| (fields_get(fields, "message"@) matches Some(JsonValue::Object(m)) && reports_error(m@))
    ||| exists|i: int| 0 <= i < items.len() && (#[trigger] items[i] matches JsonValue::Object(o) && reports_error(o@))
}

proof fn lemma_error_flag(fields: Seq<(String, JsonValue)>)
    ensures
        error_flag(Some(fields)) == reports_error(fields),
{
}

proof fn lemma_any_item_error(items: Seq<JsonValue>)
    ensures
        any_item_error(items) == exists|i: int|
            0 <= i < items.len() && (#[trigger] items[i] matches JsonValue::Object(o) && reports_error(o@)),
    decreases items.len(),
{
    if items.len() > 0 {
        lemma_any_item_error(items.drop_first());
        match items[0] {
            JsonValue::Object(o) => lemma_error_flag(o@),
            _ => {},
        }
        if exists|i: int| 0 <= i < items.len() && (#[trigger] items[i] matches JsonValue::Object(o) && reports_error(o@)) {
            let i = choose|i: int| 0 <= i < items.len() && (#[trigger] items[i] matches JsonValue::Object(o) && reports_error(o@));
            if i > 0 {
                assert(items.drop_first()[i - 1] == items[i]);
            }
        }
        if exists|i: int|
            0 <= i < items.drop_first().len() && (#[trigger] items.drop_first()[i] matches JsonValue::Object(o) && reports_error(o@)) {
            let i = choose|i: int|
                0 <= i < items.drop_first().len() && (#[trigger] items.drop_first()[i] matches JsonValue::Object(o) && reports_error(o@));
            assert(items[i + 1] == items.drop_first()[i]);
        }
    }
}

proof fn lemma_tool_index_bound(tools: Seq<(Seq<char>, nat)>, id: Seq<char>, n: nat)
    requires
        forall|i: int| 0 <= i < tools.len() ==> (#[trigger] tools[i]).1 < n,
    ensures
        tool_index(tools, id) matches Some(k) ==> k < n,
    decreases tools.len(),
{
    if tools.len() > 0 {
        assert(tools.last() == tools[tools.len() - 1]);
        assert forall|i: int| 0 <= i < tools.drop_last().len() implies (#[trigger] tools.drop_last()[i]).1 < n by {
            assert(tools.drop_last()[i] == tools[i]);
        }
        lemma_tool_index_bound(tools.drop_last(), id, n);
    }
}

/// A tool result lands on exactly one block: the block of its call when the
/// call is known, else a new block of its own; no other block changes. That
/// block is failed exactly when the record, its message or one of its
/// content items reports an error, and complete otherwise.
pub proof fn lemma_tool_result_status(
    st: SemState,
    ctx: EntryContext,
    fields: Seq<(String, JsonValue)>,
    items: Seq<JsonValue>,
)
    requires
        forall|i: int| 0 <= i < st.tools.len() ==> (#[trigger] st.tools[i]).1 < st.blocks.len(),
    ensures
        ({
            let after = tool_result_step(st, ctx, fields, items);
            let status = if tool_result_failed(fields, items) {
                GenericBlockStatus::Failed
            } else {
                GenericBlockStatus::Complete
            };
            ||| (after.blocks.len() == st.blocks.len() + 1 && after.blocks.last().status == status
                && after.blocks.drop_last() == st.blocks)
            ||| (after.blocks.len() == st.blocks.len() && exists|k: int|
                0 <= k < st.blocks.len() && #[trigger] after.blocks[k].status == status && forall|j: int|
                    0 <= j < st.blocks.len() && j != k ==> after.blocks[j] == st.blocks[j])
        }),
{
    lemma_error_flag(fields);
    lemma_any_item_error(items);
    match message_of(fields) {
        Some(m) => lemma_error_flag(m),
        None => {},
    }
    let after = tool_result_step(st, ctx, fields, items);
    let m = message_of(fields);
    let call_id = opt_or(
        string_field_spec(fields, call_id_keys()),
        opt_or(
            match m {
                Some(mf) => string_field_spec(mf, call_id_keys()),
                None => None,
            },
            first_item_call_id(items),
        ),
    );
    match call_id {
        Some(id) => {
            lemma_tool_index_bound(st.tools, id, st.blocks.len());
            match tool_index(st.tools, id) {
                Some(index) => {
                    let k = index as int;
                    assert(after.blocks[k].status == result_status(
                        error_flag(Some(fields)) || error_flag(m) || any_item_error(items),
                    ));
                },
                None => {
                    assert(after.blocks.drop_last() =~= st.blocks);
                },
            }
        },
        None => {
            assert(after.blocks.drop_last() =~= st.blocks);
        },
    }
}

/// The blocks of a message-like record.
pub open spec fn message_step(st: SemState, ctx: EntryContext, fields: Seq<(String, JsonValue)>) -> SemState {
    let role = role_of(fields);
    let astatus = assistant_status(fields);
    let items = content_items(fields);
    let (s1, recognized) = items_fold(st, ctx, role, astatus, items);
    if role == Some("toolResult"@) || entry_type_of(fields) == "tool_result"@ {
        tool_result_step(s1, ctx, fields, items)
    } else if role == Some("user"@) {
        push_block(
            s1,
            ctx,
            GenericBlockKind::User,
            "message"@,
            None,
            None,
            display_content_spec(content_of(fields)),
            false,
            false,
            GenericBlockStatus::Complete,
        )
    } else if role == Some("assistant"@) && !recognized {
        let m = message_of(fields);
        let display = opt_or(
            display_content_spec(content_of(fields)),
            opt_display(first_some(member_of(m, "errorMessage"@), member_of(m, "error_message"@))),
        );
        if display is Some {
            push_block(
                s1,
                ctx,
                GenericBlockKind::Assistant,
                "message"@,
                None,
                None,
                display,
                false,
                false,
                astatus,
            )
        } else {
            s1
        }
    } else {
        s1
    }
}

/// The blocks of one record.
pub open spec fn entry_step(st: SemState, fields: Seq<(String, JsonValue)>) -> SemState {
    let t = entry_type_of(fields);
    let ctx = EntryContext {
        created_at: string_field_spec(fields, seq!["timestamp"@, "createdAt"@, "created_at"@]),
        has_image: opt_has_image(content_of(fields)),
    };
    if is_metadata_type(t) {
        st
    } else if t == "compaction"@ {
        push_block(
            st,
            ctx,
            GenericBlockKind::Compaction,
            "compaction"@,
            Some("Context compacted"@),
            None,
            compaction_text(fields),
            true,
            false,
            GenericBlockStatus::Complete,
        )
    } else if t == "custom_message"@ {
        if jbool(field_or_message(fields, "display"@)) != Some(false) {
            push_block(
                st,
                ctx,
                GenericBlockKind::Custom,
                "custom_message"@,
                Some("Extension message"@),
                None,
                display_content_spec(content_of(fields)),
                true,
                false,
                GenericBlockStatus::Complete,
            )
        } else {
            st
        }
    } else if is_bash_record(fields) {
        push_block(
            st,
            ctx,
            GenericBlockKind::Tool,
            "bash_execution"@,
            Some("bash"@),
            Some("bash"@),
            bash_output(fields),
            true,
            false,
            bash_status(bool_or_false(jbool(field_or_message(fields, "cancelled"@)))),
        )
    } else if !is_message_type(t) {
        push_block(
            st,
            ctx,
            GenericBlockKind::Unknown,
            "unknown"@,
            Some("Unrecognized session entry"@),
            None,
            None,
            true,
            true,
            GenericBlockStatus::Complete,
        )
    } else {
        message_step(st, ctx, fields)
    }
}

/// The members of a frame that is UTF-8 text of a JSON object.
pub open spec fn frame_object(frame: Seq<u8>) -> Option<Seq<(String, JsonValue)>> {
    if vstd::utf8::valid_utf8(frame) {
        match crate::json::serde_json_from_str(vstd::utf8::decode_utf8(frame)) {
            Ok(JsonValue::Object(f)) => Some(f@),
            _ => None,
        }
    } else {
        None
    }
}

pub open spec fn frames_fold(frames: Seq<Seq<u8>>) -> SemState
    decreases frames.len(),
{
    if frames.len() == 0 {
        SemState { blocks: Seq::empty(), tools: Seq::empty() }
    } else {
        let st = frames_fold(frames.drop_last());
        match frame_object(frames.last()) {
            Some(f) => entry_step(st, f),
            None => st,
        }
    }
}

pub open spec fn redact_previews(bs: Seq<BlockView>, root: Option<Seq<char>>) -> Seq<BlockView> {
    bs.map_values(
        |b: BlockView|
            BlockView {
                preview: match b.preview {
                    Some(p) => Some(crate::redact::redact_paths(p, root)),
                    None => None,
                },
                ..b
            },
    )
}

/// The render projection of a session file.
pub open spec fn semantic_blocks_spec(bytes: Seq<u8>, root: Option<Seq<char>>) -> Seq<BlockView> {
    redact_previews(trim_old_display_spec(frames_fold(lf_frame_seq(bytes)).blocks), root)
}


// ---------------------------------------------------------------------------
// Executable projection

pub open spec fn ofv(m: Option<&Vec<(String, JsonValue)>>) -> Option<Seq<(String, JsonValue)>> {
    match m {
        Some(f) => Some(f@),
        None => None,
    }
}

fn member_ref<'a>(m: Option<&'a Vec<(String, JsonValue)>>, key: &str) -> (r: Option<&'a JsonValue>)
    ensures
        deref(r) == member_of(ofv(m), key@),
{
    match m {
        Some(f) => fields_lookup(f, key),
        None => None,
    }
}

fn message_ref<'a>(fields: &'a Vec<(String, JsonValue)>) -> (r: Option<&'a Vec<(String, JsonValue)>>)
    ensures
        ofv(r) == message_of(fields@),
{
    as_object(fields_lookup(fields, "message"))
}

fn field_or_message_ref<'a>(fields: &'a Vec<(String, JsonValue)>, key: &str) -> (r: Option<&'a JsonValue>)
    ensures
        deref(r) == field_or_message(fields@, key@),
{
    or_else(fields_lookup(fields, key), member_ref(message_ref(fields), key))
}

fn opt_str<'a>(o: &'a Option<String>) -> (r: Option<&'a str>)
    ensures
        str_view(r) == opt_view(*o),
{
    match o {
        Some(s) => Some(s.as_str()),
        None => None,
    }
}

fn clone_opt(o: &Option<String>) -> (r: Option<String>)
    ensures
        opt_view(r) == opt_view(*o),
{
    match o {
        Some(s) => Some(s.clone()),
        None => None,
    }
}

fn display_of(v: Option<&JsonValue>) -> (r: Option<String>)
    ensures
        opt_view(r) == opt_display(deref(v)),
{
    match v {
        Some(x) => display_content(Some(x)),
        None => None,
    }
}

fn or_string(a: Option<String>, b: Option<String>) -> (r: Option<String>)
    ensures
        opt_view(r) == opt_or(opt_view(a), opt_view(b)),
{
    match a {
        Some(x) => Some(x),
        None => b,
    }
}

fn bool_or_false_of(v: Option<&JsonValue>) -> (r: bool)
    ensures
        r == bool_or_false(jbool(deref(v))),
{
    match as_bool(v) {
        Some(b) => b,
        None => false,
    }
}

fn opt_eq(o: &Option<String>, lit: &str) -> (r: bool)
    ensures
        r == (opt_view(*o) == Some(lit@)),
{
    match o {
        Some(s) => str_eq(s.as_str(), lit),
        None => false,
    }
}

/// What a record contributes to each of its blocks.
pub struct EntryCtx {
    pub created_at: Option<String>,
    pub has_image: bool,
}

impl EntryCtx {
    pub open spec fn view(&self) -> EntryContext {
        EntryContext { created_at: opt_view(self.created_at), has_image: self.has_image }
    }
}

/// Blocks built so far and the tool-call correlation table.
pub struct SemanticBuilder {
    pub blocks: Vec<GenericTimelineBlock>,
    pub tools: Vec<(String, usize)>,
}

pub open spec fn tools_view(v: Seq<(String, usize)>) -> Seq<(Seq<char>, nat)> {
    v.map_values(|p: (String, usize)| (p.0@, p.1 as nat))
}

impl SemanticBuilder {
    pub open spec fn state(&self) -> SemState {
        SemState { blocks: blocks_view(self.blocks@), tools: tools_view(self.tools@) }
    }

    pub open spec fn wf(&self) -> bool {
        forall|i: int| 0 <= i < self.tools@.len() ==> (#[trigger] self.tools@[i]).1 < self.blocks@.len()
    }

    fn push(
        &mut self,
        ctx: &EntryCtx,
        kind: GenericBlockKind,
        source_type: &str,
        title: Option<String>,
        tool_name: Option<String>,
        text: Option<String>,
        collapsible: bool,
        fallback: bool,
        status: GenericBlockStatus,
    ) -> (index: usize)
        requires
            old(self).wf(),
        ensures
            final(self).wf(),
            index == old(self).blocks@.len(),
            final(self).state() == push_block(
                old(self).state(),
                ctx.view(),
                kind,
                source_type@,
                opt_view(title),
                opt_view(tool_name),
                opt_view(text),
                collapsible,
                fallback,
                status,
            ),
    {
        let (preview, truncated) = bounded_display(opt_str(&text), display_limit(kind));
        let index = self.blocks.len();
        let block = GenericTimelineBlock {
            id: timeline_block_id(index),
            parent_id: None,
            kind,
            source_type: safe_text(source_type, TYPE_LIMIT),
            created_at: clone_opt(&ctx.created_at),
            preview,
            has_image: ctx.has_image,
            title,
            tool_name,
            collapsible,
            truncated,
            fallback,
            status,
        };
        self.blocks.push(block);
        proof {
            assert(blocks_view(self.blocks@) =~= blocks_view(old(self).blocks@).push(block@));
        }
        index
    }

    fn item(
        &mut self,
        ctx: &EntryCtx,
        role: &Option<String>,
        astatus: GenericBlockStatus,
        item: &JsonValue,
    ) -> (recognized: bool)
        requires
            old(self).wf(),
        ensures
            final(self).wf(),
            (final(self).state(), recognized) == item_step(
                old(self).state(),
                ctx.view(),
                opt_view(*role),
                astatus,
                *item,
            ),
    {
        let obj = match item {
            JsonValue::Object(o) => o,
            _ => {
                return false;
            },
        };
        let type_keys = ["type"];
        assert(keys_view(type_keys@) =~= seq!["type"@]);
        let item_type = match string_field(obj, &type_keys) {
            Some(t) => t,
            None => String::new(),
        };
        let t = item_type.as_str();
        let assistant = opt_eq(role, "assistant");
        if assistant && (str_eq(t, "text") || str_eq(t, "markdown")) {
            let text = display_of(fields_lookup(obj, "text"));
            self.push(ctx, GenericBlockKind::Assistant, "message", None, None, text, false, false, astatus);
            true
        } else if assistant && str_eq(t, "thinking") {
            let text = display_of(or_else(fields_lookup(obj, "thinking"), fields_lookup(obj, "text")));
            self.push(
                ctx,
                GenericBlockKind::Thinking,
                "thinking",
                Some(String::from_str("Reasoning")),
                None,
                text,
                true,
                false,
                astatus,
            );
            true
        } else if str_eq(t, "toolCall") || str_eq(t, "tool_call") {
            let name_keys = ["name", "toolName"];
            let id_keys = ["id", "toolCallId", "tool_call_id"];
            assert(keys_view(name_keys@) =~= seq!["name"@, "toolName"@]);
            assert(keys_view(id_keys@) =~= seq!["id"@, "toolCallId"@, "tool_call_id"@]);
            let name = match string_field(obj, &name_keys) {
                Some(n) => Some(safe_text(n.as_str(), TYPE_LIMIT)),
                None => None,
            };
            let safe_name = tool_title(opt_str(&name));
            let call_id = string_field(obj, &id_keys);
            let status = match astatus {
                GenericBlockStatus::Failed => GenericBlockStatus::Failed,
                GenericBlockStatus::Interrupted => GenericBlockStatus::Interrupted,
                _ => GenericBlockStatus::Running,
            };
            let title = clone_opt(&safe_name);
            let ghost mid_tools = self.tools@;
            let index = self.push(ctx, GenericBlockKind::Tool, "tool_call", title, safe_name, None, true, false, status);
            match call_id {
                Some(id) => {
                    self.tools.push((id, index));
                    proof {
                        assert(tools_view(self.tools@) =~= tools_view(mid_tools).push((id@, index as nat)));
                    }
                },
                None => {},
            }
            true
        } else if str_eq(t, "bashExecution") {
            let output = or_string(display_of(fields_lookup(obj, "output")), display_of(fields_lookup(obj, "text")));
            let source_truncated = bool_or_false_of(fields_lookup(obj, "truncated"));
            let cancelled = bool_or_false_of(fields_lookup(obj, "cancelled"));
            self.push(
                ctx,
                GenericBlockKind::Tool,
                "bash_execution",
                Some(String::from_str("bash")),
                Some(String::from_str("bash")),
                mark_source_truncated(output, source_truncated),
                true,
                false,
                if cancelled {
                    GenericBlockStatus::Interrupted
                } else {
                    GenericBlockStatus::Complete
                },
            );
            true
        } else {
            false
        }
    }
}


pub proof fn lemma_tool_lookup(v: Seq<(String, usize)>, k: Seq<char>)
    ensures
        tool_index(tools_view(v), k) == match crate::assoc::lookup(v, k) {
            Some(n) => Some(n as nat),
            None => None::<nat>,
        },
    decreases v.len(),
{
    if v.len() > 0 {
        assert(tools_view(v).drop_last() =~= tools_view(v.drop_last()));
        assert(tools_view(v).last() == (v.last().0@, v.last().1 as nat));
        lemma_tool_lookup(v.drop_last(), k);
    }
}

pub open spec fn refs_view(v: Seq<&JsonValue>) -> Seq<JsonValue> {
    v.map_values(|x: &JsonValue| *x)
}

fn items_of<'a>(content: Option<&'a JsonValue>) -> (r: Vec<&'a JsonValue>)
    ensures
        refs_view(r@) == match deref(content) {
            Some(JsonValue::Array(items)) => items@,
            Some(item) => seq![item],
            None => Seq::empty(),
        },
{
    let mut out: Vec<&'a JsonValue> = Vec::new();
    match content {
        Some(JsonValue::Array(items)) => {
            let mut i: usize = 0;
            while i < items.len()
                invariant
                    i <= items@.len(),
                    refs_view(out@) == items@.take(i as int),
                decreases items.len() - i,
            {
                let ghost prev = out@;
                let r = &items[i];
                assert(*r == items@[i as int]);
                out.push(r);
                assert(out@ == prev.push(r));
                assert(refs_view(out@) =~= refs_view(prev).push(*r));
                assert(items@.take(i + 1) =~= items@.take(i as int).push(items@[i as int]));
                i = i + 1;
            }
            assert(items@.take(items@.len() as int) =~= items@);
        },
        Some(item) => {
            out.push(item);
            assert(refs_view(out@) =~= seq![*item]);
        },
        None => {
            assert(refs_view(out@) =~= Seq::<JsonValue>::empty());
        },
    }
    out
}

fn first_item_call_id_of(items: &Vec<&JsonValue>) -> (r: Option<String>)
    ensures
        opt_view(r) == first_item_call_id(refs_view(items@)),
{
    let keys = ["toolCallId", "tool_call_id"];
    assert(keys_view(keys@) =~= call_id_keys());
    let ghost all = refs_view(items@);
    let mut i: usize = 0;
    assert(all.skip(0) =~= all);
    while i < items.len()
        invariant
            i <= items@.len(),
            all == refs_view(items@),
            keys_view(keys@) == call_id_keys(),
            first_item_call_id(all) == first_item_call_id(all.skip(i as int)),
        decreases items.len() - i,
    {
        assert(all.skip(i as int)[0] == *items@[i as int]);
        assert(all.skip(i as int).drop_first() =~= all.skip(i + 1));
        let item: &JsonValue = items[i];
        assert(*item == all.skip(i as int)[0]);
        match item {
            JsonValue::Object(o) => {
                match string_field(o, &keys) {
                    Some(id) => {
                        return Some(id);
                    },
                    None => {},
                }
            },
            _ => {},
        }
        i = i + 1;
    }
    assert(all.skip(i as int).len() == 0);
    None
}

fn error_flag_of(m: Option<&Vec<(String, JsonValue)>>) -> (r: bool)
    ensures
        r == error_flag(ofv(m)),
{
    bool_or_false_of(or_else(member_ref(m, "isError"), member_ref(m, "is_error")))
}

fn any_item_error_of(items: &Vec<&JsonValue>) -> (r: bool)
    ensures
        r == any_item_error(refs_view(items@)),
{
    let ghost all = refs_view(items@);
    let mut i: usize = 0;
    assert(all.skip(0) =~= all);
    while i < items.len()
        invariant
            i <= items@.len(),
            all == refs_view(items@),
            any_item_error(all) == any_item_error(all.skip(i as int)),
        decreases items.len() - i,
    {
        assert(all.skip(i as int)[0] == *items@[i as int]);
        assert(all.skip(i as int).drop_first() =~= all.skip(i + 1));
        let item: &JsonValue = items[i];
        assert(*item == all.skip(i as int)[0]);
        match item {
            JsonValue::Object(o) => {
                if error_flag_of(Some(o)) {
                    return true;
                }
            },
            _ => {},
        }
        i = i + 1;
    }
    assert(all.skip(i as int).len() == 0);
    false
}

impl SemanticBuilder {
    fn tool_result(
        &mut self,
        ctx: &EntryCtx,
        fields: &Vec<(String, JsonValue)>,
        items: &Vec<&JsonValue>,
    )
        requires
            old(self).wf(),
        ensures
            final(self).wf(),
            final(self).state() == tool_result_step(old(self).state(), ctx.view(), fields@, refs_view(items@)),
    {
        let keys = ["toolCallId", "tool_call_id"];
        assert(keys_view(keys@) =~= call_id_keys());
        let message = message_ref(fields);
        let from_message = match message {
            Some(m) => string_field(m, &keys),
            None => None,
        };
        let call_id = or_string(string_field(fields, &keys), or_string(from_message, first_item_call_id_of(items)));
        let result = or_string(display_content(content_ref(fields)), display_of(fields_lookup(fields, "output")));
        let failed = error_flag_of(Some(fields)) || error_flag_of(message) || any_item_error_of(items);
        let status = if failed {
            GenericBlockStatus::Failed
        } else {
            GenericBlockStatus::Complete
        };
        let target = match &call_id {
            Some(id) => {
                proof {
                    lemma_tool_lookup(self.tools@, id@);
                }
                match crate::assoc::find_last(&self.tools, id.as_str()) {
                    Some(i) => Some(self.tools[i].1),
                    None => None,
                }
            },
            None => None,
        };
        match target {
            Some(index) => {
                let (display, truncated) = bounded_display(opt_str(&result), DISPLAY_DETAIL_LIMIT);
                let ghost before = self.blocks@;
                let b = &mut self.blocks[index];
                if display.is_some() {
                    b.preview = display;
                }
                b.truncated = b.truncated || truncated;
                b.status = status;
                proof {
                    assert(blocks_view(self.blocks@) =~= blocks_view(before).update(index as int, self.blocks@[index as int]@));
                }
            },
            None => {
                self.push(
                    ctx,
                    GenericBlockKind::Tool,
                    "tool_result",
                    Some(String::from_str("Tool result")),
                    None,
                    result,
                    true,
                    true,
                    status,
                );
            },
        }
    }

    fn message(&mut self, ctx: &EntryCtx, fields: &Vec<(String, JsonValue)>, entry_type: &str)
        requires
            old(self).wf(),
            entry_type@ == entry_type_of(fields@),
        ensures
            final(self).wf(),
            final(self).state() == message_step(old(self).state(), ctx.view(), fields@),
    {
        let role = role_field(fields);
        let message = message_ref(fields);
        let reason = as_str(or_else(member_ref(message, "stopReason"), member_ref(message, "stop_reason")));
        let astatus = match reason {
            Some(r) => if str_eq(r, "error") {
                GenericBlockStatus::Failed
            } else if str_eq(r, "aborted") {
                GenericBlockStatus::Interrupted
            } else {
                GenericBlockStatus::Complete
            },
            None => GenericBlockStatus::Complete,
        };
        let content = content_ref(fields);
        let items = items_of(content);
        let ghost all = refs_view(items@);
        let ghost start = self.state();
        let mut recognized = false;
        let mut i: usize = 0;
        while i < items.len()
            invariant
                i <= items@.len(),
                self.wf(),
                all == refs_view(items@),
                (self.state(), recognized) == items_fold(start, ctx.view(), opt_view(role), astatus, all.take(i as int)),
            decreases items.len() - i,
        {
            assert(all.take(i + 1).drop_last() =~= all.take(i as int));
            assert(all.take(i + 1).last() == *items@[i as int]);
            let r = self.item(ctx, &role, astatus, items[i]);
            recognized = recognized || r;
            i = i + 1;
        }
        assert(all.take(all.len() as int) =~= all);
        if opt_eq(&role, "toolResult") || str_eq(entry_type, "tool_result") {
            self.tool_result(ctx, fields, &items);
        } else if opt_eq(&role, "user") {
            self.push(
                ctx,
                GenericBlockKind::User,
                "message",
                None,
                None,
                display_content(content),
                false,
                false,
                GenericBlockStatus::Complete,
            );
        } else if opt_eq(&role, "assistant") && !recognized {
            let display = or_string(
                display_content(content),
                display_of(or_else(member_ref(message, "errorMessage"), member_ref(message, "error_message"))),
            );
            if display.is_some() {
                self.push(ctx, GenericBlockKind::Assistant, "message", None, None, display, false, false, astatus);
            }
        }
    }

    fn entry(&mut self, fields: &Vec<(String, JsonValue)>)
        requires
            old(self).wf(),
        ensures
            final(self).wf(),
            final(self).state() == entry_step(old(self).state(), fields@),
    {
        let type_keys = ["type", "entryType"];
        assert(keys_view(type_keys@) =~= seq!["type"@, "entryType"@]);
        let entry_type = match string_field(fields, &type_keys) {
            Some(t) => t,
            None => String::new(),
        };
        let t = entry_type.as_str();
        if str_eq(t, "session") || str_eq(t, "session_meta") || str_eq(t, "session_info")
            || str_eq(t, "model_change") || str_eq(t, "thinking_level_change") || str_eq(t, "label")
            || str_eq(t, "branch_summary") || str_eq(t, "custom") {
            return;
        }
        let time_keys = ["timestamp", "createdAt", "created_at"];
        assert(keys_view(time_keys@) =~= seq!["timestamp"@, "createdAt"@, "created_at"@]);
        let content = content_ref(fields);
        let ctx = EntryCtx {
            created_at: string_field(fields, &time_keys),
            has_image: match content {
                Some(c) => content_has_image(c),
                None => false,
            },
        };
        if str_eq(t, "compaction") {
            let text = or_string(display_of(field_or_message_ref(fields, "summary")), display_content(content));
            self.push(
                &ctx,
                GenericBlockKind::Compaction,
                "compaction",
                Some(String::from_str("Context compacted")),
                None,
                text,
                true,
                false,
                GenericBlockStatus::Complete,
            );
            return;
        }
        if str_eq(t, "custom_message") {
            let shown = as_bool(field_or_message_ref(fields, "display"));
            let hidden = match shown {
                Some(b) => !b,
                None => false,
            };
            if !hidden {
                self.push(
                    &ctx,
                    GenericBlockKind::Custom,
                    "custom_message",
                    Some(String::from_str("Extension message")),
                    None,
                    display_content(content),
                    true,
                    false,
                    GenericBlockStatus::Complete,
                );
            }
            return;
        }
        let role = role_field(fields);
        if str_eq(t, "bashExecution") || opt_eq(&role, "bashExecution") {
            let content_object = match content {
                Some(JsonValue::Object(o)) => Some(o),
                _ => None,
            };
            proof {
                assert(ofv(content_object) == object_fields(content_of(fields@)));
            }
            let output_value = or_else(field_or_message_ref(fields, "output"), member_ref(content_object, "output"));
            let output = or_string(display_of(output_value), display_content(content));
            let source_truncated = bool_or_false_of(field_or_message_ref(fields, "truncated"));
            let cancelled = bool_or_false_of(field_or_message_ref(fields, "cancelled"));
            self.push(
                &ctx,
                GenericBlockKind::Tool,
                "bash_execution",
                Some(String::from_str("bash")),
                Some(String::from_str("bash")),
                mark_source_truncated(output, source_truncated),
                true,
                false,
                if cancelled {
                    GenericBlockStatus::Interrupted
                } else {
                    GenericBlockStatus::Complete
                },
            );
            return;
        }
        if !(str_eq(t, "message") || str_eq(t, "tool") || str_eq(t, "tool_result")) {
            self.push(
                &ctx,
                GenericBlockKind::Unknown,
                "unknown",
                Some(String::from_str("Unrecognized session entry")),
                None,
                None,
                true,
                true,
                GenericBlockStatus::Complete,
            );
            return;
        }
        self.message(&ctx, fields, t);
    }

    fn frame(&mut self, frame: &[u8])
        requires
            old(self).wf(),
        ensures
            final(self).wf(),
            final(self).state() == match frame_object(frame@) {
                Some(f) => entry_step(old(self).state(), f),
                None => old(self).state(),
            },
    {
        let text = match utf8_text(frame) {
            Ok(t) => t,
            Err(_) => {
                return;
            },
        };
        let value = match crate::json::parse_json_text(text.as_str()) {
            Ok(v) => v,
            Err(_) => {
                return;
            },
        };
        match &value {
            JsonValue::Object(fields) => {
                self.entry(fields);
            },
            _ => {},
        }
    }
}

fn redact_block_previews(blocks: &mut Vec<GenericTimelineBlock>, project_root: Option<&str>)
    ensures
        blocks_view(final(blocks)@) == redact_previews(blocks_view(old(blocks)@), str_view(project_root)),
{
    let ghost original = blocks_view(blocks@);
    let mut i: usize = 0;
    while i < blocks.len()
        invariant
            i <= blocks@.len(),
            original == blocks_view(old(blocks)@),
            blocks@.len() == original.len(),
            blocks_view(blocks@).take(i as int) == redact_previews(original, str_view(project_root)).take(i as int),
            blocks_view(blocks@).skip(i as int) == original.skip(i as int),
        decreases blocks.len() - i,
    {
        let ghost before = blocks@;
        assert(original.skip(i as int)[0] == before[i as int]@);
        let redacted = match &blocks[i].preview {
            Some(text) => Some(crate::redact::redact_display_paths(text.as_str(), project_root)),
            None => None,
        };
        let ghost expected = redact_previews(original, str_view(project_root))[i as int];
        proof {
            assert(opt_view(redacted) == expected.preview);
        }
        let b = &mut blocks[i];
        b.preview = redacted;
        proof {
            assert(blocks@[i as int]@ == expected);
            assert forall|k: int| 0 <= k < blocks@.len() && k != i implies blocks@[k] == before[k] by {}
            assert(blocks_view(blocks@).take(i + 1) =~= redact_previews(original, str_view(project_root)).take(i + 1));
            assert(blocks_view(before).skip(i as int) == original.skip(i as int));
            assert forall|k: int| 0 <= k < original.len() - (i + 1) implies #[trigger] blocks_view(blocks@).skip(i + 1)[k] == original.skip(i + 1)[k] by {
                assert(blocks_view(blocks@).skip(i + 1)[k] == blocks@[i + 1 + k]@);
                assert(blocks@[i + 1 + k] == before[i + 1 + k]);
                assert(blocks_view(before).skip(i as int)[k + 1] == before[i + 1 + k]@);
            }
            assert(blocks_view(blocks@).skip(i + 1) =~= original.skip(i + 1));
        }
        i = i + 1;
    }
    assert(i == blocks@.len());
    assert(blocks_view(blocks@) =~= blocks_view(blocks@).take(i as int));
    assert(redact_previews(original, str_view(project_root)).len() == original.len());
    assert(redact_previews(original, str_view(project_root)) =~= redact_previews(original, str_view(project_root)).take(i as int));
}

/// The render projection of a session file's bytes: display blocks for each
/// record, trimmed to the timeline budget, with paths redacted (a known
/// project root becomes `<workspace>`).
pub fn semantic_blocks(bytes: &[u8], project_root: Option<&str>) -> (r: Vec<GenericTimelineBlock>)
    ensures
        blocks_view(r@) == semantic_blocks_spec(bytes@, str_view(project_root)),
{
    let (frames, _) = lf_frames(bytes);
    let ghost fs = lf_frame_seq(bytes@);
    let mut builder = SemanticBuilder { blocks: Vec::new(), tools: Vec::new() };
    let mut i: usize = 0;
    proof {
        assert(blocks_view(builder.blocks@) =~= Seq::<BlockView>::empty());
        assert(tools_view(builder.tools@) =~= Seq::<(Seq<char>, nat)>::empty());
        assert(fs.take(0).len() == 0);
        assert(builder.state() == frames_fold(fs.take(0)));
    }
    while i < frames.len()
        invariant
            i <= frames@.len(),
            frames@.len() == fs.len(),
            fs == lf_frame_seq(bytes@),
            forall|j: int| 0 <= j < frames@.len() ==> (#[trigger] frames@[j]).1@ == fs[j],
            builder.wf(),
            builder.state() == frames_fold(fs.take(i as int)),
        decreases frames.len() - i,
    {
        assert(fs.take(i + 1).drop_last() =~= fs.take(i as int));
        assert(fs.take(i + 1).last() == frames@[i as int].1@);
        builder.frame(frames[i].1);
        i = i + 1;
    }
    assert(fs.take(fs.len() as int) =~= fs);
    let mut blocks = builder.blocks;
    trim_old_display(&mut blocks);
    redact_block_previews(&mut blocks, project_root);
    blocks
}

} // verus!
