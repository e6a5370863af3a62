//! The data of MCP servers, their tools and the content pipeline. Maps of
//! the wire format are held as lists of `(key, value)` pairs; the one float
//! setting as its `f32` bit pattern.
use vstd::prelude::*;

use crate::json::JsonValue;

verus! {

/// How a server is reached.
#[derive(Debug)]
pub enum TransportConfig {
    Stdio { command: String, args: Vec<String>, env: Vec<(String, String)>, cwd: Option<String> },
    Sse { url: String, headers: Vec<(String, String)> },
    Http { url: String, headers: Vec<(String, String)>, session_id: Option<String> },
}

/// The model of a transport.
pub enum TransportModel {
    Stdio(Seq<char>, Seq<String>, Seq<(Seq<char>, Seq<char>)>, Option<String>),
    Sse(Seq<char>, Seq<(Seq<char>, Seq<char>)>),
    Http(Seq<char>, Seq<(Seq<char>, Seq<char>)>, Option<String>),
}

/// The text of each pair.
pub open spec fn pairs_view(v: Seq<(String, String)>) -> Seq<(Seq<char>, Seq<char>)> {
    v.map_values(|p: (String, String)| (p.0@, p.1@))
}

impl View for TransportConfig {
    type V = TransportModel;

    open spec fn view(&self) -> TransportModel {
        match self {
            TransportConfig::Stdio { command, args, env, cwd } => TransportModel::Stdio(command@, args@, pairs_view(env@), *cwd),
            TransportConfig::Sse { url, headers } => TransportModel::Sse(url@, pairs_view(headers@)),
            TransportConfig::Http { url, headers, session_id } => TransportModel::Http(url@, pairs_view(headers@), *session_id),
        }
    }
}

/// A copy of each pair.
pub fn clone_pairs(v: &Vec<(String, String)>) -> (r: Vec<(String, String)>)
    ensures
        pairs_view(r@) == pairs_view(v@),
{
    let mut out: Vec<(String, String)> = Vec::new();
    let mut i: usize = 0;
    while i < v.len()
        invariant
            i <= v@.len(),
            out@.len() == i,
            forall|j: int| 0 <= j < i ==> (#[trigger] out@[j]).0@ == v@[j].0@ && out@[j].1@ == v@[j].1@,
        decreases v.len() - i,
    {
        out.push((v[i].0.clone(), v[i].1.clone()));
        i = i + 1;
    }
    assert(pairs_view(out@) =~= pairs_view(v@));
    out
}

impl Clone for TransportConfig {
    fn clone(&self) -> (r: Self)
        ensures
            r@ == self@,
    {
        match self {
            TransportConfig::Stdio { command, args, env, cwd } => {
                let a = args.clone();
                assert(a@ =~= args@);
                TransportConfig::Stdio { command: command.clone(), args: a, env: clone_pairs(env), cwd: cwd.clone() }
            },
            TransportConfig::Sse { url, headers } => TransportConfig::Sse { url: url.clone(), headers: clone_pairs(headers) },
            TransportConfig::Http { url, headers, session_id } => TransportConfig::Http {
                url: url.clone(),
                headers: clone_pairs(headers),
                session_id: session_id.clone(),
            },
        }
    }
}

/// A configured MCP server.
#[derive(Debug)]
pub struct ServerConfig {
    pub id: String,
    pub name: String,
    pub transport: TransportConfig,
    pub auto_reconnect: bool,
    pub reconnect_interval_ms: u64,
    pub max_reconnect_attempts: u32,
    pub heartbeat_interval_ms: u64,
    pub protocol_version: Option<String>,
}

/// Two server configurations agree field by field.
pub open spec fn same_server(a: ServerConfig, b: ServerConfig) -> bool {
    &&& a.id == b.id
    &&& a.name == b.name
    &&& a.transport@ == b.transport@
    &&& a.auto_reconnect == b.auto_reconnect
    &&& a.reconnect_interval_ms == b.reconnect_interval_ms
    &&& a.max_reconnect_attempts == b.max_reconnect_attempts
    &&& a.heartbeat_interval_ms == b.heartbeat_interval_ms
    &&& a.protocol_version == b.protocol_version
}

impl Clone for ServerConfig {
    fn clone(&self) -> (r: Self)
        ensures
            same_server(r, *self),
    {
        ServerConfig {
            id: self.id.clone(),
            name: self.name.clone(),
            transport: self.transport.clone(),
            auto_reconnect: self.auto_reconnect,
            reconnect_interval_ms: self.reconnect_interval_ms,
            max_reconnect_attempts: self.max_reconnect_attempts,
            heartbeat_interval_ms: self.heartbeat_interval_ms,
            protocol_version: self.protocol_version.clone(),
        }
    }
}

/// A server reconnects unless told otherwise.
pub fn default_auto_reconnect() -> (r: bool)
    ensures
        r,
{
    true
}

/// Five seconds between reconnection attempts.
pub fn default_reconnect_interval_ms() -> (r: u64)
    ensures
        r == 5000,
{
    5000
}

/// Five reconnection attempts.
pub fn default_max_reconnect_attempts() -> (r: u32)
    ensures
        r == 5,
{
    5
}

/// Thirty seconds between heartbeats.
pub fn default_heartbeat_interval_ms() -> (r: u64)
    ensures
        r == 30000,
{
    30000
}

/// How a server's connection stands.
#[derive(Debug, Clone)]
pub struct ConnectionStatus {
    pub server_id: String,
    pub connected: bool,
    pub last_ping_at: Option<u64>,
    pub reconnect_attempts: u32,
    pub error: Option<String>,
}

/// A tool as a server lists it, tied to that server.
#[derive(Debug, Clone)]
pub struct NormalizedTool {
    pub name: String,
    pub server_id: String,
    pub qualified_name: String,
    pub description: Option<String>,
    pub input_schema: JsonValue,
    pub annotations: Option<ToolAnnotations>,
}

/// The shape of a tool's arguments.
#[derive(Debug)]
pub struct InputSchema {
    pub schema_type: String,
    pub properties: Option<Vec<(String, NormalizedProperty)>>,
    pub required: Option<Vec<String>>,
}

/// One property of an argument schema.
#[derive(Debug)]
pub struct NormalizedProperty {
    pub property_type: String,
    pub description: Option<String>,
    pub default: Option<JsonValue>,
    pub enum_values: Option<Vec<String>>,
    pub items: Option<Box<NormalizedProperty>>,
    pub properties: Option<Vec<(String, NormalizedProperty)>>,
    pub required: Option<Vec<String>>,
    pub any_of: Option<Vec<NormalizedProperty>>,
    pub one_of: Option<Vec<NormalizedProperty>>,
}

/// Hints a server gives about a tool.
#[derive(Debug)]
pub struct ToolAnnotations {
    pub title: Option<String>,
    pub read_only_hint: Option<bool>,
    pub destructive_hint: Option<bool>,
    pub idempotent_hint: Option<bool>,
    pub open_world_hint: Option<bool>,
}

impl Clone for ToolAnnotations {
    fn clone(&self) -> (r: Self)
        ensures
            r == *self,
    {
        ToolAnnotations {
            title: self.title.clone(),
            read_only_hint: self.read_only_hint,
            destructive_hint: self.destructive_hint,
            idempotent_hint: self.idempotent_hint,
            open_world_hint: self.open_world_hint,
        }
    }
}

/// What a server answered to a tool call.
#[derive(Debug, Clone)]
pub struct ToolCallResult {
    pub server_id: String,
    pub tool_name: String,
    pub content: Vec<ToolCallContent>,
    pub is_error: Option<bool>,
}

/// One part of a tool call's answer.
#[derive(Debug, Clone)]
pub enum ToolCallContent {
    Text { text: String },
    Image { data: String, mime_type: String },
    Resource { uri: String, mime_type: Option<String>, text: Option<String>, blob: Option<String> },
}

/// How registered names are formed and how often tools are refreshed.
#[derive(Debug, Clone)]
pub struct ToolRegistryOptions {
    pub namespace_separator: Option<String>,
    pub refresh_interval_ms: Option<u64>,
}

/// An item of a tool's output, before it is routed to the model.
#[derive(Debug, Clone)]
pub struct PayloadItem {
    pub item_type: String,
    pub text: Option<String>,
    pub data: Option<String>,
    pub mime_type: Option<String>,
    pub uri: Option<String>,
    pub blob: Option<String>,
}

/// What was found out about a payload item.
#[derive(Debug, Clone)]
pub struct DetectionResult {
    pub kind: String,
    pub mime_type: Option<String>,
    pub size_bytes: usize,
    pub needs_compression: bool,
    pub needs_prefix_fix: bool,
    pub is_base64: bool,
}

/// A payload item as it was transformed.
#[derive(Debug, Clone)]
pub struct TransformResult {
    pub result_type: String,
    pub text: Option<String>,
    pub image_url: Option<ImageUrl>,
    pub original_size_bytes: usize,
    pub transformed_size_bytes: usize,
    pub was_compressed: bool,
}

/// The address of an image.
#[derive(Debug, Clone)]
pub struct ImageUrl {
    pub url: String,
}

/// Where vision content went, and whether a fallback was needed.
#[derive(Debug, Clone)]
pub struct VisionRouteResult {
    pub content: VisionContent,
    pub fallback_used: bool,
    pub fallback_reason: Option<String>,
}

/// Content handed to a vision model.
#[derive(Debug, Clone)]
pub enum VisionContent {
    ImageUrl { image_url: ImageUrl },
    Text { text: String },
}

/// Limits of the content pipeline.
#[derive(Debug)]
pub struct PipelineConfig {
    pub compression_threshold_bytes: usize,
    pub max_payload_bytes: usize,
    pub jpeg_quality: u8,
    pub max_width: u32,
    pub max_height: u32,
    pub mime_whitelist: Vec<String>,
    pub enable_compression: bool,
    pub temp_url_endpoint: Option<String>,
}

/// Two pipeline configurations agree field by field.
pub open spec fn same_pipeline(a: PipelineConfig, b: PipelineConfig) -> bool {
    &&& a.compression_threshold_bytes == b.compression_threshold_bytes
    &&& a.max_payload_bytes == b.max_payload_bytes
    &&& a.jpeg_quality == b.jpeg_quality
    &&& a.max_width == b.max_width
    &&& a.max_height == b.max_height
    &&& a.mime_whitelist@ == b.mime_whitelist@
    &&& a.enable_compression == b.enable_compression
    &&& a.temp_url_endpoint == b.temp_url_endpoint
}

impl Clone for PipelineConfig {
    fn clone(&self) -> (r: Self)
        ensures
            same_pipeline(r, *self),
    {
        let w = self.mime_whitelist.clone();
        assert(w@ =~= self.mime_whitelist@);
        PipelineConfig {
            compression_threshold_bytes: self.compression_threshold_bytes,
            max_payload_bytes: self.max_payload_bytes,
            jpeg_quality: self.jpeg_quality,
            max_width: self.max_width,
            max_height: self.max_height,
            mime_whitelist: w,
            enable_compression: self.enable_compression,
            temp_url_endpoint: self.temp_url_endpoint.clone(),
        }
    }
}

/// Payloads above 4 MiB are compressed.
pub fn default_compression_threshold() -> (r: usize)
    ensures
        r == 4 * 1024 * 1024,
{
    4 * 1024 * 1024
}

/// Payloads are at most 20 MiB.
pub fn default_max_payload() -> (r: usize)
    ensures
        r == 20 * 1024 * 1024,
{
    20 * 1024 * 1024
}

/// JPEG quality 80.
pub fn default_jpeg_quality() -> (r: u8)
    ensures
        r == 80,
{
    80
}

/// Images at most 2048 pixels wide.
pub fn default_max_width() -> (r: u32)
    ensures
        r == 2048,
{
    2048
}

/// Images at most 2048 pixels high.
pub fn default_max_height() -> (r: u32)
    ensures
        r == 2048,
{
    2048
}

/// The image types the pipeline passes on.
pub open spec fn mime_whitelist() -> Seq<Seq<char>> {
    seq!["image/png"@, "image/jpeg"@, "image/gif"@, "image/webp"@, "image/svg+xml"@, "image/bmp"@, "image/tiff"@]
}

/// The image types the pipeline passes on, in this order: png, jpeg, gif,
/// webp, svg+xml, bmp, tiff.
pub fn default_mime_whitelist() -> (r: Vec<String>)
    ensures
        crate::text::views(r@) == mime_whitelist(),
{
    let mut v: Vec<String> = Vec::new();
    v.push("image/png".to_string());
    v.push("image/jpeg".to_string());
    v.push("image/gif".to_string());
    v.push("image/webp".to_string());
    v.push("image/svg+xml".to_string());
    v.push("image/bmp".to_string());
    v.push("image/tiff".to_string());
    assert(crate::text::views(v@) =~= mime_whitelist());
    v
}

/// Compression is on.
pub fn default_enable_compression() -> (r: bool)
    ensures
        r,
{
    true
}

impl Default for PipelineConfig {
    fn default() -> (r: Self)
        ensures
            r.compression_threshold_bytes == 4 * 1024 * 1024,
            r.max_payload_bytes == 20 * 1024 * 1024,
            r.jpeg_quality == 80,
            r.max_width == 2048,
            r.max_height == 2048,
            crate::text::views(r.mime_whitelist@) == mime_whitelist(),
            r.enable_compression,
            r.temp_url_endpoint is None,
    {
        PipelineConfig {
            compression_threshold_bytes: default_compression_threshold(),
            max_payload_bytes: default_max_payload(),
            jpeg_quality: default_jpeg_quality(),
            max_width: default_max_width(),
            max_height: default_max_height(),
            mime_whitelist: default_mime_whitelist(),
            enable_compression: default_enable_compression(),
            temp_url_endpoint: None,
        }
    }
}

/// A tool call as the conversation loop carries it.
#[derive(Debug, Clone)]
pub struct ToolCall {
    pub id: String,
    pub name: String,
    pub arguments: JsonValue,
}

/// A tool's answer as the conversation loop carries it.
#[derive(Debug, Clone)]
pub struct ToolResult {
    pub tool_call_id: String,
    pub content: Vec<VisionContent>,
    pub is_error: Option<bool>,
}

/// A message of the conversation loop.
#[derive(Debug, Clone)]
pub struct ConversationMessage {
    pub role: String,
    pub content: JsonValue,
    pub tool_calls: Option<Vec<ToolCall>>,
    pub tool_call_id: Option<String>,
    pub name: Option<String>,
}

/// Limits of the conversation loop; `context_window_sliding_ratio` is an
/// `f32` bit pattern.
#[derive(Debug, Clone, Copy)]
pub struct ConversationLoopConfig {
    pub max_tool_rounds: u32,
    pub max_context_tokens: u32,
    pub image_token_cost: u32,
    pub context_window_sliding_ratio: u32,
    pub retry_attempts: u32,
    pub retry_delay_ms: u64,
    pub enable_vision_injection: bool,
}

/// Ten tool rounds.
pub fn default_max_tool_rounds() -> (r: u32)
    ensures
        r == 10,
{
    10
}

/// 128000 context tokens.
pub fn default_max_context_tokens() -> (r: u32)
    ensures
        r == 128000,
{
    128000
}

/// An image costs 85 tokens.
pub fn default_image_token_cost() -> (r: u32)
    ensures
        r == 85,
{
    85
}

/// The sliding ratio 0.7, as the bit pattern of that `f32`.
pub fn default_context_window_sliding_ratio() -> (r: u32)
    ensures
        r == 0x3f33_3333,
{
    0x3f33_3333
}

/// Two retries.
pub fn default_retry_attempts() -> (r: u32)
    ensures
        r == 2,
{
    2
}

/// One second between retries.
pub fn default_retry_delay_ms() -> (r: u64)
    ensures
        r == 1000,
{
    1000
}

/// Images are injected for vision models.
pub fn default_enable_vision_injection() -> (r: bool)
    ensures
        r,
{
    true
}

impl Default for ConversationLoopConfig {
    fn default() -> (r: Self)
        ensures
            r.max_tool_rounds == 10,
            r.max_context_tokens == 128000,
            r.image_token_cost == 85,
            r.context_window_sliding_ratio == 0x3f33_3333,
            r.retry_attempts == 2,
            r.retry_delay_ms == 1000,
            r.enable_vision_injection,
    {
        ConversationLoopConfig {
            max_tool_rounds: default_max_tool_rounds(),
            max_context_tokens: default_max_context_tokens(),
            image_token_cost: default_image_token_cost(),
            context_window_sliding_ratio: default_context_window_sliding_ratio(),
            retry_attempts: default_retry_attempts(),
            retry_delay_ms: default_retry_delay_ms(),
            enable_vision_injection: default_enable_vision_injection(),
        }
    }
}

/// A stored conversation loop session.
#[derive(Debug, Clone)]
pub struct SessionState {
    pub id: String,
    pub messages: Vec<ConversationMessage>,
    pub created_at: u64,
    pub updated_at: u64,
    pub metadata: Vec<(String, JsonValue)>,
}

/// What the MCP configuration file holds.
#[derive(Debug)]
pub struct McpConfig {
    pub servers: Vec<ServerConfig>,
    pub pipeline_config: Option<PipelineConfig>,
    pub conversation_config: Option<ConversationLoopConfig>,
}

} // verus!
