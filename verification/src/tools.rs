//! Tool results as MCP servers report them, and the text a model reads of them.
use vstd::prelude::*;

use crate::json::{
    json_as_str, json_bool_field, json_get, json_str_field, json_text, to_json_string, Json,
    JsonMember, JsonValue,
};
use crate::naming::ToolExecutionError;
use crate::text::{join, join_strings, owned, str_eq, views};

verus! {

broadcast use vstd::string::group_string_axioms;

/// One part of a tool's output.
#[allow(inconsistent_fields)]
#[derive(Debug, Clone, PartialEq)]
pub enum ToolContent {
    Text { text: String },
    Image { data: String, mime_type: String },
    Resource {
        uri: String,
        mime_type: Option<String>,
        text: Option<String>,
        blob: Option<String>,
    },
}

/// The model of one part of a tool's output.
pub enum ContentModel {
    Text(Seq<char>),
    Image(Seq<char>, Seq<char>),
    Resource(Seq<char>, Option<Seq<char>>, Option<Seq<char>>, Option<Seq<char>>),
}

pub open spec fn opt_view(o: Option<String>) -> Option<Seq<char>> {
    match o {
        Some(s) => Some(s@),
        None => None,
    }
}

impl View for ToolContent {
    type V = ContentModel;

    open spec fn view(&self) -> ContentModel {
        match self {
            ToolContent::Text { text } => ContentModel::Text(text@),
            ToolContent::Image { data, mime_type } => ContentModel::Image(data@, mime_type@),
            ToolContent::Resource { uri, mime_type, text, blob } => ContentModel::Resource(
                uri@,
                opt_view(*mime_type),
                opt_view(*text),
                opt_view(*blob),
            ),
        }
    }
}

/// The result of running a tool.
#[derive(Debug, Clone, PartialEq)]
pub struct ToolResult {
    pub content: Vec<ToolContent>,
    pub is_error: bool,
}

/// The models of a run of contents.
pub open spec fn contents_view(v: Seq<ToolContent>) -> Seq<ContentModel> {
    v.map_values(|c: ToolContent| c@)
}

/// A string member, or `default` where it is missing or not a string.
pub open spec fn str_or(j: Json, key: Seq<char>, default: Seq<char>) -> Seq<char> {
    match json_str_field(j, key) {
        Some(s) => s,
        None => default,
    }
}

/// The MIME type of an item: `mimeType` where present, else `mime_type`.
pub open spec fn item_mime(item: Json) -> Option<Seq<char>> {
    match json_get(item, "mimeType"@) {
        Some(v) => json_as_str(v),
        None => json_str_field(item, "mime_type"@),
    }
}

/// The part that one MCP content item becomes; an item of a type other than
/// text, image or resource becomes a text naming the type after `unsupported`.
pub open spec fn normalize_item(item: Json, unsupported: Seq<char>) -> ContentModel {
    let ty = str_or(item, "type"@, "text"@);
    if ty == "text"@ {
        ContentModel::Text(str_or(item, "text"@, Seq::empty()))
    } else if ty == "image"@ {
        ContentModel::Image(
            str_or(item, "data"@, Seq::empty()),
            match item_mime(item) {
                Some(m) => m,
                None => "image/png"@,
            },
        )
    } else if ty == "resource"@ {
        ContentModel::Resource(
            str_or(item, "uri"@, Seq::empty()),
            item_mime(item),
            json_str_field(item, "text"@),
            json_str_field(item, "blob"@),
        )
    } else {
        ContentModel::Text(unsupported + ty + "]"@)
    }
}

/// The error flag of a raw result: `isError` where present, else `is_error`; false otherwise.
pub open spec fn raw_is_error(raw: Json) -> bool {
    match json_get(raw, "isError"@) {
        Some(Json::Bool(b)) => b,
        Some(_) => false,
        None => match json_bool_field(raw, "is_error"@) {
            Some(b) => b,
            None => false,
        },
    }
}

fn raw_is_error_exec(raw: &JsonValue) -> (r: bool)
    ensures
        r == raw_is_error(raw@),
{
    match raw.get("isError") {
        Some(v) => match v.as_bool() {
            Some(b) => b,
            None => false,
        },
        None => match raw.bool_field("is_error") {
            Some(b) => b,
            None => false,
        },
    }
}

fn str_or_exec(item: &JsonValue, key: &str, default: &str) -> (r: String)
    ensures
        r@ == str_or(item@, key@, default@),
{
    match item.str_field(key) {
        Some(s) => s.clone(),
        None => owned(default),
    }
}

fn item_mime_exec(item: &JsonValue) -> (r: Option<String>)
    ensures
        opt_view(r) == item_mime(item@),
{
    let found = match item.get("mimeType") {
        Some(v) => v.as_str(),
        None => item.str_field("mime_type"),
    };
    match found {
        Some(s) => Some(s.clone()),
        None => None,
    }
}

fn opt_string(o: Option<&String>) -> (r: Option<String>)
    ensures
        opt_view(r) == (match o {
            Some(s) => Some(s@),
            None => None::<Seq<char>>,
        }),
{
    match o {
        Some(s) => Some(s.clone()),
        None => None,
    }
}

/// The part that one MCP content item becomes.
pub fn normalize_content_item(item: &JsonValue, unsupported: &str) -> (r: ToolContent)
    ensures
        r@ == normalize_item(item@, unsupported@),
{
    proof {
        reveal_strlit("");
    }
    let ty = str_or_exec(item, "type", "text");
    if str_eq(ty.as_str(), "text") {
        let t = str_or_exec(item, "text", "");
        assert(ty@ == "text"@);
        assert(t@ == str_or(item@, "text"@, Seq::empty()));
        let r = ToolContent::Text { text: t };
        assert(r@ == normalize_item(item@, unsupported@));
        r
    } else if str_eq(ty.as_str(), "image") {
        let mime_type = match item_mime_exec(item) {
            Some(m) => m,
            None => owned("image/png"),
        };
        let data = str_or_exec(item, "data", "");
        assert(data@ == str_or(item@, "data"@, Seq::empty()));
        assert(mime_type@ == (match item_mime(item@) { Some(m) => m, None => "image/png"@ }));
        assert(ty@ == "image"@ && ty@ != "text"@);
        let r = ToolContent::Image { data, mime_type };
        assert(r@ == ContentModel::Image(data@, mime_type@));
        assert(r@ == normalize_item(item@, unsupported@));
        r
    } else if str_eq(ty.as_str(), "resource") {
        let uri = str_or_exec(item, "uri", "");
        let mime_type = item_mime_exec(item);
        let text = opt_string(item.str_field("text"));
        let blob = opt_string(item.str_field("blob"));
        assert(uri@ == str_or(item@, "uri"@, Seq::empty()));
        assert(opt_view(mime_type) == item_mime(item@));
        assert(opt_view(text) == json_str_field(item@, "text"@));
        assert(opt_view(blob) == json_str_field(item@, "blob"@));
        assert(ty@ == "resource"@ && ty@ != "text"@ && ty@ != "image"@);
        let r = ToolContent::Resource { uri, mime_type, text, blob };
        assert(r@ == ContentModel::Resource(uri@, opt_view(mime_type), opt_view(text), opt_view(blob)));
        assert(r@ == normalize_item(item@, unsupported@));
        r
    } else {
        let mut text = owned(unsupported);
        text.append(ty.as_str());
        text.append("]");
        assert(text@ == unsupported@ + ty@ + "]"@);
        let r = ToolContent::Text { text };
        assert(r@ == ContentModel::Text(unsupported@ + ty@ + "]"@));
        assert(ty@ != "text"@ && ty@ != "image"@ && ty@ != "resource"@);
        assert(r@ == normalize_item(item@, unsupported@));
        r
    }
}

/// The parts that a run of MCP content items become.
pub fn normalize_items(items: &Vec<JsonValue>, unsupported: &str) -> (r: Vec<ToolContent>)
    ensures
        r@.len() == items@.len(),
        forall|i: int| 0 <= i < items@.len() ==> (#[trigger] r@[i])@ == normalize_item(items@[i]@, unsupported@),
{
    let mut out: Vec<ToolContent> = Vec::new();
    let mut i: usize = 0;
    while i < items.len()
        invariant
            i <= items.len(),
            out@.len() == i,
            forall|j: int| 0 <= j < i ==> (#[trigger] out@[j])@ == normalize_item(items@[j]@, unsupported@),
        decreases items.len() - i,
    {
        out.push(normalize_content_item(&items[i], unsupported));
        i = i + 1;
    }
    out
}

/// The items of the `content` array of a raw result, or nothing where the
/// member is missing or not an array.
pub open spec fn content_items(raw: Json) -> Option<Seq<Json>> {
    match json_get(raw, "content"@) {
        Some(Json::Array(items)) => Some(items),
        _ => None,
    }
}

/// Whether `content` is the normalized form of `items`.
pub open spec fn normalized_from(content: Seq<ContentModel>, items: Seq<Json>, unsupported: Seq<char>) -> bool {
    &&& content.len() == items.len()
    &&& forall|i: int| 0 <= i < items.len() ==> #[trigger] content[i] == normalize_item(items[i], unsupported)
}

/// The view of the items held by a JSON array.
proof fn lemma_array_items(v: JsonValue, items: Vec<JsonValue>)
    requires
        v == JsonValue::Array(items),
    ensures
        v@ == Json::Array(v@->Array_0),
        v@->Array_0.len() == items@.len(),
        forall|i: int| 0 <= i < items@.len() ==> #[trigger] v@->Array_0[i] == items@[i]@,
{
}

impl ToolResult {
    /// Reads a raw MCP `{ content: [...], isError }` response. A missing or
    /// non-array `content` gives no parts; each item becomes one part.
    pub fn from_mcp_response(raw: JsonValue) -> (r: ToolResult)
        ensures
            r.is_error == raw_is_error(raw@),
            match content_items(raw@) {
                Some(items) => normalized_from(contents_view(r.content@), items, "[Unsupported content type: "@),
                None => r.content@.len() == 0,
            },
    {
        let is_error = raw_is_error_exec(&raw);
        let content = match raw.get("content") {
            Some(c) => match c.as_array() {
                Some(items) => {
                    proof {
                        lemma_array_items(*c, *items);
                    }
                    normalize_items(items, "[Unsupported content type: ")
                },
                None => Vec::new(),
            },
            None => Vec::new(),
        };
        ToolResult { content, is_error }
    }
}


/// The line a part contributes to a tool report: non-empty text, `[Image]`,
/// or a resource's text (`[Resource: uri]` where it has none); empty text adds nothing.
pub open spec fn content_line(c: ContentModel) -> Option<Seq<char>> {
    match c {
        ContentModel::Text(t) => if t.len() > 0 { Some(t) } else { None },
        ContentModel::Image(_, _) => Some("[Image]"@),
        ContentModel::Resource(uri, _, text, _) => Some(
            match text {
                Some(t) => t,
                None => "[Resource: "@ + uri + "]"@,
            },
        ),
    }
}

/// The lines that a run of parts contributes, in order.
pub open spec fn content_lines(cs: Seq<ContentModel>) -> Seq<Seq<char>>
    decreases cs.len(),
{
    if cs.len() == 0 {
        Seq::empty()
    } else {
        match content_line(cs.last()) {
            Some(l) => content_lines(cs.drop_last()).push(l),
            None => content_lines(cs.drop_last()),
        }
    }
}

/// A part that the full report shows: non-empty text, an image, or a
/// resource whose text is missing or non-empty.
pub open spec fn shows_in_report(c: ContentModel) -> bool {
    match c {
        ContentModel::Text(t) => t.len() > 0,
        ContentModel::Image(_, _) => true,
        ContentModel::Resource(_, _, text, _) => match text {
            Some(t) => t.len() > 0,
            None => true,
        },
    }
}

/// A part that counts as output in a conversation's tool message: non-empty text.
pub open spec fn is_nonempty_text(c: ContentModel) -> bool {
    match c {
        ContentModel::Text(t) => t.len() > 0,
        _ => false,
    }
}

/// The lines of a tool report: name, arguments, status, and, where
/// `has_content`, a blank line, `[Error]` or `[Result]`, and the parts' lines.
pub open spec fn report_lines(
    name: Seq<char>,
    args: Seq<char>,
    is_error: bool,
    cs: Seq<ContentModel>,
    has_content: bool,
) -> Seq<Seq<char>> {
    let head = seq![
        "[Tool: "@ + name + "]"@,
        "Arguments: "@ + args,
        "Status: "@ + (if is_error { "error"@ } else { "success"@ }),
    ];
    if has_content {
        head + seq![Seq::empty(), if is_error { "[Error]"@ } else { "[Result]"@ }] + content_lines(cs)
    } else {
        head
    }
}

/// Appends the report lines of `cs` to `lines`.
fn push_content_lines(lines: &mut Vec<String>, cs: &Vec<ToolContent>)
    ensures
        views(final(lines)@) == views(old(lines)@) + content_lines(contents_view(cs@)),
{
    let ghost start = views(lines@);
    let mut i: usize = 0;
    while i < cs.len()
        invariant
            i <= cs.len(),
            views(lines@) == start + content_lines(contents_view(cs@.subrange(0, i as int))),
        decreases cs.len() - i,
    {
        let ghost before = views(lines@);
        proof {
            let sub = contents_view(cs@.subrange(0, i + 1));
            assert(sub.drop_last() =~= contents_view(cs@.subrange(0, i as int)));
            assert(sub.last() == cs@[i as int]@);
        }
        match &cs[i] {
            ToolContent::Text { text } => {
                if !text.as_str().is_empty() {
                    lines.push(text.clone());
                    proof { assert(views(lines@) =~= before.push(text@)); }
                }
            },
            ToolContent::Image { .. } => {
                lines.push(owned("[Image]"));
                proof { assert(views(lines@) =~= before.push("[Image]"@)); }
            },
            ToolContent::Resource { uri, text, .. } => {
                let line = match text {
                    Some(t) => t.clone(),
                    None => {
                        let mut l = owned("[Resource: ");
                        l.append(uri.as_str());
                        l.append("]");
                        l
                    },
                };
                lines.push(line);
                proof { assert(views(lines@) =~= before.push(line@)); }
            },
        }
        i = i + 1;
    }
    proof {
        assert(cs@.subrange(0, cs@.len() as int) =~= cs@);
    }
}

/// Builds the text of a tool report over the given `has_content` flag.
fn build_report(name: &str, arguments: &JsonValue, is_error: bool, cs: &Vec<ToolContent>, has_content: bool) -> (r: String)
    ensures
        r@ == join(
            report_lines(name@, json_text(arguments@), is_error, contents_view(cs@), has_content),
            "\n"@,
        ),
{
    let args = to_json_string(arguments);
    let mut lines: Vec<String> = Vec::new();
    let mut l0 = owned("[Tool: ");
    l0.append(name);
    l0.append("]");
    lines.push(l0);
    let mut l1 = owned("Arguments: ");
    l1.append(args.as_str());
    lines.push(l1);
    let mut l2 = owned("Status: ");
    l2.append(if is_error { "error" } else { "success" });
    lines.push(l2);
    if has_content {
        lines.push(String::new());
        lines.push(owned(if is_error { "[Error]" } else { "[Result]" }));
        push_content_lines(&mut lines, cs);
    }
    proof {
        let expected = report_lines(name@, json_text(arguments@), is_error, contents_view(cs@), has_content);
        assert(views(lines@) =~= expected);
    }
    join_strings(lines.as_slice(), "\n")
}

impl ToolResult {
    /// The report a model reads of this result: the tool's name, its
    /// arguments as JSON, its status and, when any part shows, its parts.
    pub fn format_for_ai(&self, tool_name: &str, arguments: &JsonValue) -> (r: String)
        ensures
            r@ == join(
                report_lines(
                    tool_name@,
                    json_text(arguments@),
                    self.is_error,
                    contents_view(self.content@),
                    exists|i: int| 0 <= i < self.content@.len() && shows_in_report(#[trigger] self.content@[i]@),
                ),
                "\n"@,
            ),
    {
        let mut has_content = false;
        let mut i: usize = 0;
        while i < self.content.len()
            invariant
                i <= self.content@.len(),
                has_content == exists|j: int| 0 <= j < i && shows_in_report(#[trigger] self.content@[j]@),
            decreases self.content.len() - i,
        {
            let shows = match &self.content[i] {
                ToolContent::Text { text } => !text.as_str().is_empty(),
                ToolContent::Image { .. } => true,
                ToolContent::Resource { text, .. } => match text {
                    Some(t) => !t.as_str().is_empty(),
                    None => true,
                },
            };
            assert(shows == shows_in_report(self.content@[i as int]@));
            has_content = has_content || shows;
            i = i + 1;
        }
        build_report(tool_name, arguments, self.is_error, &self.content, has_content)
    }
}


/// One part of a tool's output, as a conversation stores it.
#[allow(inconsistent_fields)]
#[derive(Debug, Clone, PartialEq)]
pub enum ConversationToolContent {
    Text { text: String },
    Image { data: String, mime_type: String },
    Resource {
        uri: String,
        mime_type: Option<String>,
        text: Option<String>,
        blob: Option<String>,
    },
}

impl View for ConversationToolContent {
    type V = ContentModel;

    open spec fn view(&self) -> ContentModel {
        match self {
            ConversationToolContent::Text { text } => ContentModel::Text(text@),
            ConversationToolContent::Image { data, mime_type } => ContentModel::Image(data@, mime_type@),
            ConversationToolContent::Resource { uri, mime_type, text, blob } => ContentModel::Resource(
                uri@,
                opt_view(*mime_type),
                opt_view(*text),
                opt_view(*blob),
            ),
        }
    }
}

impl ConversationToolContent {
    /// The same part, moved over from a registry result.
    pub fn from_tool_content(c: ToolContent) -> (r: ConversationToolContent)
        ensures
            r@ == c@,
    {
        match c {
            ToolContent::Text { text } => ConversationToolContent::Text { text },
            ToolContent::Image { data, mime_type } => ConversationToolContent::Image { data, mime_type },
            ToolContent::Resource { uri, mime_type, text, blob } => ConversationToolContent::Resource {
                uri,
                mime_type,
                text,
                blob,
            },
        }
    }
}

/// The models of a run of conversation contents.
pub open spec fn conv_contents_view(v: Seq<ConversationToolContent>) -> Seq<ContentModel> {
    v.map_values(|c: ConversationToolContent| c@)
}

/// The result of a tool call, as a conversation stores it.
#[derive(Debug, Clone, PartialEq)]
pub struct ConversationToolResult {
    pub content: Vec<ConversationToolContent>,
    pub is_error: bool,
}

pub fn opt_copy(o: &Option<String>) -> (r: Option<String>)
    ensures
        opt_view(r) == opt_view(*o),
{
    match o {
        Some(s) => Some(s.clone()),
        None => None,
    }
}

impl ConversationToolContent {
    /// The same part as a registry result holds it.
    pub fn copy_from(c: &ToolContent) -> (r: ConversationToolContent)
        ensures
            r@ == c@,
    {
        match c {
            ToolContent::Text { text } => ConversationToolContent::Text { text: text.clone() },
            ToolContent::Image { data, mime_type } => ConversationToolContent::Image {
                data: data.clone(),
                mime_type: mime_type.clone(),
            },
            ToolContent::Resource { uri, mime_type, text, blob } => ConversationToolContent::Resource {
                uri: uri.clone(),
                mime_type: opt_copy(mime_type),
                text: opt_copy(text),
                blob: opt_copy(blob),
            },
        }
    }
}

pub proof fn lemma_map_push<A, B>(s: Seq<A>, x: A, f: spec_fn(A) -> B)
    ensures
        s.push(x).map_values(f) == s.map_values(f).push(f(x)),
{
    assert(s.push(x).map_values(f) =~= s.map_values(f).push(f(x)));
}

/// Copies a run of registry parts into conversation parts.
pub fn conversation_contents(cs: &Vec<ToolContent>) -> (r: Vec<ConversationToolContent>)
    ensures
        conv_contents_view(r@) == contents_view(cs@),
{
    let mut out: Vec<ConversationToolContent> = Vec::new();
    let mut i: usize = 0;
    while i < cs.len()
        invariant
            i <= cs.len(),
            conv_contents_view(out@) == contents_view(cs@.subrange(0, i as int)),
        decreases cs.len() - i,
    {
        let ghost before = out@;
        out.push(ConversationToolContent::copy_from(&cs[i]));
        proof {
            assert(cs@.subrange(0, i + 1) =~= cs@.subrange(0, i as int).push(cs@[i as int]));
            lemma_map_push(before, out@.last(), |c: ConversationToolContent| c@);
            lemma_map_push(cs@.subrange(0, i as int), cs@[i as int], |c: ToolContent| c@);
            assert(out@ =~= before.push(out@.last()));
        }
        i = i + 1;
    }
    proof {
        assert(cs@.subrange(0, cs@.len() as int) =~= cs@);
    }
    out
}

impl ConversationToolResult {
    /// The same result as the registry reported it.
    pub fn from_tool_result(r: &ToolResult) -> (out: ConversationToolResult)
        ensures
            out.is_error == r.is_error,
            conv_contents_view(out.content@) == contents_view(r.content@),
    {
        ConversationToolResult { content: conversation_contents(&r.content), is_error: r.is_error }
    }
}

/// A tool call that a model asked for, with its result once it ran.
#[derive(Debug, Clone)]
pub struct ConversationToolCall {
    pub id: String,
    pub name: String,
    pub arguments: JsonValue,
    pub result: Option<ConversationToolResult>,
    pub qualified_name: Option<String>,
}

/// Normalizes a raw MCP result for a conversation: without `content` the
/// whole raw value, as JSON text, becomes the one text part; a `content` that
/// is not an array is refused; otherwise each item becomes one part.
pub fn normalize_raw_tool_result(raw: JsonValue) -> (r: Result<ConversationToolResult, ToolExecutionError>)
    ensures
        match json_get(raw@, "content"@) {
            None => r matches Ok(res) && res.is_error == raw_is_error(raw@) && conv_contents_view(res.content@)
                == seq![ContentModel::Text(json_text(raw@))],
            Some(Json::Array(items)) => r matches Ok(res) && res.is_error == raw_is_error(raw@)
                && normalized_from(conv_contents_view(res.content@), items, "[Unsupported tool content type: "@),
            Some(_) => r matches Err(ToolExecutionError::InvalidResult(m)) && m@ == "content must be an array"@,
        },
{
    let is_error = raw_is_error_exec(&raw);
    match raw.get("content") {
        None => {
            let text = to_json_string(&raw);
            let mut content: Vec<ConversationToolContent> = Vec::new();
            content.push(ConversationToolContent::Text { text });
            proof {
                assert(conv_contents_view(content@) =~= seq![ContentModel::Text(json_text(raw@))]);
            }
            Ok(ConversationToolResult { content, is_error })
        },
        Some(c) => match c.as_array() {
            Some(items) => {
                proof {
                    lemma_array_items(*c, *items);
                }
                let parts = normalize_items(items, "[Unsupported tool content type: ");
                let content = conversation_contents(&parts);
                Ok(ConversationToolResult { content, is_error })
            },
            None => Err(ToolExecutionError::InvalidResult(owned("content must be an array"))),
        },
    }
}

/// The call with the normalized raw result attached.
pub fn attach_raw_result(call: ConversationToolCall, raw_result: JsonValue) -> (r: Result<ConversationToolCall, ToolExecutionError>)
    ensures
        match normalize_spec_ok(raw_result@) {
            true => r matches Ok(done) && done.id == call.id && done.name == call.name
                && done.arguments == call.arguments && done.qualified_name == call.qualified_name
                && done.result is Some,
            false => r matches Err(ToolExecutionError::InvalidResult(m)) && m@ == "content must be an array"@,
        },
        r matches Ok(done) ==> done.result matches Some(res) && res.is_error == raw_is_error(raw_result@),
{
    match normalize_raw_tool_result(raw_result) {
        Ok(result) => Ok(ConversationToolCall { result: Some(result), ..call }),
        Err(e) => Err(e),
    }
}

/// Whether a raw result normalizes: its `content` is missing or an array.
pub open spec fn normalize_spec_ok(raw: Json) -> bool {
    match json_get(raw, "content"@) {
        None => true,
        Some(Json::Array(_)) => true,
        Some(_) => false,
    }
}

/// The text a call's result is stored as (see `format_tool_result`).
pub open spec fn tool_result_text(call: ConversationToolCall) -> Seq<char> {
    match call.result {
        None => "[Tool: "@ + call.name@ + "]\n[No result]"@,
        Some(res) => join(
            report_lines(
                call.name@,
                json_text(call.arguments@),
                res.is_error,
                conv_contents_view(res.content@),
                exists|i: int| 0 <= i < res.content@.len() && is_nonempty_text(#[trigger] res.content@[i]@),
            ),
            "\n"@,
        ),
    }
}

/// The text a failed call hands back to the model.
pub open spec fn call_failure_text(name: Seq<char>, error: Seq<char>) -> Seq<char> {
    "Tool '"@ + name + "' failed: "@ + error
}

/// A call that could not run, handed back with an error result whose one
/// text part says why, so that the model sees the failure and the turn
/// goes on.
pub fn failed_call(call: ConversationToolCall, error: &str) -> (r: ConversationToolCall)
    ensures
        r.id == call.id,
        r.name == call.name,
        r.arguments == call.arguments,
        r.qualified_name == call.qualified_name,
        r.result matches Some(res) && res.is_error && res.content@.len() == 1 && res.content@[0]@ == ContentModel::Text(
            call_failure_text(call.name@, error@),
        ),
{
    let mut text = owned("Tool '");
    text.append(call.name.as_str());
    text.append("' failed: ");
    text.append(error);
    let content = vec![ConversationToolContent::Text { text }];
    ConversationToolCall {
        result: Some(ConversationToolResult { content, is_error: true }),
        ..call
    }
}

/// What a call that was run comes to: the completed call where it ran,
/// else the call with an error result saying why, so that the turn goes
/// on.
pub fn settle_call(call: ConversationToolCall, outcome: Result<ConversationToolCall, String>) -> (r: ConversationToolCall)
    ensures
        match outcome {
            Ok(done) => r == done,
            Err(e) => {
                &&& r.id == call.id
                &&& r.name == call.name
                &&& r.arguments == call.arguments
                &&& r.qualified_name == call.qualified_name
                &&& r.result matches Some(res) && res.is_error && res.content@.len() == 1 && res.content@[0]@
                    == ContentModel::Text(call_failure_text(call.name@, e@))
            },
        },
{
    match outcome {
        Ok(done) => done,
        Err(e) => failed_call(call, e.as_str()),
    }
}

/// The text of the tool message stored after a call: `[Tool: name]` and
/// `[No result]` before the call ran, the report over its result after.
pub fn format_tool_result(call: &ConversationToolCall) -> (r: String)
    ensures
        r@ == tool_result_text(*call),
{
    match &call.result {
        None => {
            let mut out = owned("[Tool: ");
            out.append(call.name.as_str());
            out.append("]\n[No result]");
            out
        },
        Some(result) => {
            let mut has_content = false;
            let mut parts: Vec<ToolContent> = Vec::new();
            let mut i: usize = 0;
            while i < result.content.len()
                invariant
                    i <= result.content@.len(),
                    has_content == exists|j: int| 0 <= j < i && is_nonempty_text(#[trigger] result.content@[j]@),
                    contents_view(parts@) == conv_contents_view(result.content@.subrange(0, i as int)),
                decreases result.content.len() - i,
            {
                let ghost before = parts@;
                let part = match &result.content[i] {
                    ConversationToolContent::Text { text } => {
                        has_content = has_content || !text.as_str().is_empty();
                        ToolContent::Text { text: text.clone() }
                    },
                    ConversationToolContent::Image { data, mime_type } => ToolContent::Image {
                        data: data.clone(),
                        mime_type: mime_type.clone(),
                    },
                    ConversationToolContent::Resource { uri, mime_type, text, blob } => ToolContent::Resource {
                        uri: uri.clone(),
                        mime_type: opt_copy(mime_type),
                        text: opt_copy(text),
                        blob: opt_copy(blob),
                    },
                };
                proof {
                    assert(has_content == exists|j: int| 0 <= j < i + 1 && is_nonempty_text(#[trigger] result.content@[j]@)) by {
                        if is_nonempty_text(result.content@[i as int]@) {
                            assert(0 <= i < i + 1);
                        }
                    }
                }
                parts.push(part);
                proof {
                    assert(result.content@.subrange(0, i + 1) =~= result.content@.subrange(0, i as int).push(result.content@[i as int]));
                    lemma_map_push(before, part, |c: ToolContent| c@);
                    lemma_map_push(result.content@.subrange(0, i as int), result.content@[i as int], |c: ConversationToolContent| c@);
                }
                i = i + 1;
            }
            proof {
                assert(result.content@.subrange(0, result.content@.len() as int) =~= result.content@);
            }
            build_report(call.name.as_str(), &call.arguments, result.is_error, &parts, has_content)
        },
    }
}

/// An optional string as JSON: the string, or `null`.
pub open spec fn opt_str_json(o: Option<Seq<char>>) -> Json {
    match o {
        Some(s) => Json::Str(s),
        None => Json::Null,
    }
}

/// One part of a stored result as JSON, tagged by its `type`.
pub open spec fn content_json(c: ContentModel) -> Json {
    match c {
        ContentModel::Text(t) => Json::Object(seq!["type"@, "text"@], seq![Json::Str("text"@), Json::Str(t)]),
        ContentModel::Image(d, m) => Json::Object(
            seq!["type"@, "data"@, "mimeType"@],
            seq![Json::Str("image"@), Json::Str(d), Json::Str(m)],
        ),
        ContentModel::Resource(u, m, t, b) => Json::Object(
            seq!["type"@, "uri"@, "mimeType"@, "text"@, "blob"@],
            seq![Json::Str("resource"@), Json::Str(u), opt_str_json(m), opt_str_json(t), opt_str_json(b)],
        ),
    }
}

/// A stored result as JSON: its parts and `isError`.
pub open spec fn result_json(r: ConversationToolResult) -> Json {
    Json::Object(
        seq!["content"@, "isError"@],
        seq![Json::Array(conv_contents_view(r.content@).map_values(|c: ContentModel| content_json(c))), Json::Bool(r.is_error)],
    )
}

/// A tool call as JSON, field by field; a missing result or qualified name
/// is `null`.
pub open spec fn call_json(c: ConversationToolCall) -> Json {
    Json::Object(
        seq!["id"@, "name"@, "arguments"@, "result"@, "qualified_name"@],
        seq![
            Json::Str(c.id@),
            Json::Str(c.name@),
            c.arguments@,
            match c.result {
                Some(r) => result_json(r),
                None => Json::Null,
            },
            opt_str_json(opt_view(c.qualified_name)),
        ],
    )
}

fn opt_json(o: &Option<String>) -> (r: JsonValue)
    ensures
        r@ == opt_str_json(opt_view(*o)),
{
    match o {
        Some(s) => JsonValue::String(s.clone()),
        None => JsonValue::Null,
    }
}

fn member(key: &str, value: JsonValue) -> (r: JsonMember)
    ensures
        r.key@ == key@,
        r.value == value,
{
    JsonMember { key: owned(key), value }
}

impl ConversationToolContent {
    /// The part as JSON, tagged by its `type`.
    pub fn to_json(&self) -> (r: JsonValue)
        ensures
            r@ == content_json(self@),
    {
        let mut ms: Vec<JsonMember> = Vec::new();
        match self {
            ConversationToolContent::Text { text } => {
                ms.push(member("type", JsonValue::String(owned("text"))));
                ms.push(member("text", JsonValue::String(text.clone())));
            },
            ConversationToolContent::Image { data, mime_type } => {
                ms.push(member("type", JsonValue::String(owned("image"))));
                ms.push(member("data", JsonValue::String(data.clone())));
                ms.push(member("mimeType", JsonValue::String(mime_type.clone())));
            },
            ConversationToolContent::Resource { uri, mime_type, text, blob } => {
                ms.push(member("type", JsonValue::String(owned("resource"))));
                ms.push(member("uri", JsonValue::String(uri.clone())));
                ms.push(member("mimeType", opt_json(mime_type)));
                ms.push(member("text", opt_json(text)));
                ms.push(member("blob", opt_json(blob)));
            },
        }
        let r = JsonValue::Object(ms);
        proof {
            let vs = content_json(self@)->Object_1;
            assert forall|k: int| 0 <= k < ms@.len() implies (#[trigger] ms@[k]).value@ == vs[k] by {
                match self {
                    ConversationToolContent::Text { text } => {
                        if k == 0 { assert(ms@[0].value@ == Json::Str("text"@)); } else { assert(ms@[1].value@ == Json::Str(text@)); }
                    },
                    ConversationToolContent::Image { data, mime_type } => {
                        if k == 0 { assert(ms@[0].value@ == Json::Str("image"@)); }
                        else if k == 1 { assert(ms@[1].value@ == Json::Str(data@)); }
                        else { assert(ms@[2].value@ == Json::Str(mime_type@)); }
                    },
                    ConversationToolContent::Resource { uri, .. } => {
                        if k == 0 { assert(ms@[0].value@ == Json::Str("resource"@)); }
                        else if k == 1 { assert(ms@[1].value@ == Json::Str(uri@)); }
                    },
                }
            }
            assert(r@->Object_0 =~= content_json(self@)->Object_0);
            assert(r@->Object_1 =~= vs);
        }
        r
    }
}

impl ConversationToolResult {
    /// The result as JSON: its parts and `isError`.
    pub fn to_json(&self) -> (r: JsonValue)
        ensures
            r@ == result_json(*self),
    {
        let mut items: Vec<JsonValue> = Vec::new();
        let mut i: usize = 0;
        while i < self.content.len()
            invariant
                i <= self.content@.len(),
                items@.len() == i,
                forall|j: int| 0 <= j < i ==> (#[trigger] items@[j])@ == content_json(self.content@[j]@),
            decreases self.content.len() - i,
        {
            items.push(self.content[i].to_json());
            i = i + 1;
        }
        let arr = JsonValue::Array(items);
        proof {
            assert(arr@->Array_0 =~= conv_contents_view(self.content@).map_values(|c: ContentModel| content_json(c)));
        }
        let mut ms: Vec<JsonMember> = Vec::new();
        ms.push(member("content", arr));
        ms.push(member("isError", JsonValue::Bool(self.is_error)));
        let r = JsonValue::Object(ms);
        proof {
            assert(ms@[1].value@ == Json::Bool(self.is_error));
            assert(r@->Object_0 =~= result_json(*self)->Object_0);
            assert(r@->Object_1 =~= result_json(*self)->Object_1);
        }
        r
    }
}

impl ConversationToolCall {
    /// The call as JSON, field by field.
    pub fn to_json(&self) -> (r: JsonValue)
        ensures
            r@ == call_json(*self),
    {
        let result = match &self.result {
            Some(res) => res.to_json(),
            None => JsonValue::Null,
        };
        let mut ms: Vec<JsonMember> = Vec::new();
        ms.push(member("id", JsonValue::String(self.id.clone())));
        ms.push(member("name", JsonValue::String(self.name.clone())));
        ms.push(member("arguments", self.arguments.copy()));
        ms.push(member("result", result));
        ms.push(member("qualified_name", opt_json(&self.qualified_name)));
        let r = JsonValue::Object(ms);
        proof {
            assert(ms@[0].value@ == Json::Str(self.id@));
            assert(ms@[1].value@ == Json::Str(self.name@));
            assert(ms@[2].value@ == self.arguments@);
            assert(ms@[3].value@ == call_json(*self)->Object_1[3]);
            assert(ms@[4].value@ == opt_str_json(opt_view(self.qualified_name)));
            assert(r@->Object_0 =~= call_json(*self)->Object_0);
            assert(r@->Object_1 =~= call_json(*self)->Object_1);
        }
        r
    }
}

/// A run of calls as a JSON array.
pub fn calls_to_json(calls: &Vec<ConversationToolCall>) -> (r: JsonValue)
    ensures
        r@ == Json::Array(calls@.map_values(|c: ConversationToolCall| call_json(c))),
{
    let mut items: Vec<JsonValue> = Vec::new();
    let mut i: usize = 0;
    while i < calls.len()
        invariant
            i <= calls@.len(),
            items@.len() == i,
            forall|j: int| 0 <= j < i ==> (#[trigger] items@[j])@ == call_json(calls@[j]),
        decreases calls.len() - i,
    {
        items.push(calls[i].to_json());
        i = i + 1;
    }
    let r = JsonValue::Array(items);
    proof {
        assert(r@->Array_0 =~= calls@.map_values(|c: ConversationToolCall| call_json(c)));
    }
    r
}

} // verus!
