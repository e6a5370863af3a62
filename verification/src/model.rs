//! The models a provider offers, and the provider itself. Float settings
//! are held as the bit patterns of their `f32` values.
use vstd::prelude::*;

use crate::text::{chars_of, contains, contains_seq, lower_seq, starts_with, str_eq, to_ascii_lowercase};

verus! {

broadcast use vstd::string::group_string_axioms;

/// What a text model can do besides chatting.
#[derive(Debug, Clone, Copy, PartialEq, Eq, Structural)]
pub enum TextModelCapability {
    FIM,
    ToolUse,
    Reasoning,
}

/// The names and descriptions of a model.
#[derive(Debug)]
pub struct ModelMetadata {
    pub name: String,
    pub display_name: String,
    pub creator: Option<String>,
    pub version: Option<String>,
    pub description: Option<String>,
}

impl Clone for ModelMetadata {
    fn clone(&self) -> (r: Self)
        ensures
            r == *self,
    {
        ModelMetadata {
            name: self.name.clone(),
            display_name: self.display_name.clone(),
            creator: self.creator.clone(),
            version: self.version.clone(),
            description: self.description.clone(),
        }
    }
}

/// Sampling settings of a text model; `temperature`, `top_p` and the two
/// penalties are `f32` bit patterns.
#[derive(Debug)]
pub struct TextGenerationParams {
    pub temperature: Option<u32>,
    pub top_p: Option<u32>,
    pub top_k: Option<u32>,
    pub max_tokens: Option<i32>,
    pub presence_penalty: Option<u32>,
    pub frequency_penalty: Option<u32>,
    pub stop_sequences: Option<Vec<String>>,
    pub seed: Option<u64>,
}

pub open spec fn opt_strings(o: Option<Vec<String>>) -> Option<Seq<String>> {
    match o {
        Some(v) => Some(v@),
        None => None,
    }
}

pub open spec fn same_text_params(a: TextGenerationParams, b: TextGenerationParams) -> bool {
    &&& a.temperature == b.temperature
    &&& a.top_p == b.top_p
    &&& a.top_k == b.top_k
    &&& a.max_tokens == b.max_tokens
    &&& a.presence_penalty == b.presence_penalty
    &&& a.frequency_penalty == b.frequency_penalty
    &&& opt_strings(a.stop_sequences) == opt_strings(b.stop_sequences)
    &&& a.seed == b.seed
}

pub open spec fn empty_text_params(p: TextGenerationParams) -> bool {
    &&& p.temperature is None
    &&& p.top_p is None
    &&& p.top_k is None
    &&& p.max_tokens is None
    &&& p.presence_penalty is None
    &&& p.frequency_penalty is None
    &&& p.stop_sequences is None
    &&& p.seed is None
}

fn clone_strings(v: &Vec<String>) -> (r: Vec<String>)
    ensures
        r@ == v@,
{
    let r = v.clone();
    assert(r@ =~= v@);
    r
}

fn clone_opt_strings(v: &Option<Vec<String>>) -> (r: Option<Vec<String>>)
    ensures
        opt_strings(r) == opt_strings(*v),
{
    match v {
        Some(x) => Some(clone_strings(x)),
        None => None,
    }
}

impl Clone for TextGenerationParams {
    fn clone(&self) -> (r: Self)
        ensures
            same_text_params(r, *self),
    {
        TextGenerationParams {
            temperature: self.temperature,
            top_p: self.top_p,
            top_k: self.top_k,
            max_tokens: self.max_tokens,
            presence_penalty: self.presence_penalty,
            frequency_penalty: self.frequency_penalty,
            stop_sequences: clone_opt_strings(&self.stop_sequences),
            seed: self.seed,
        }
    }
}

impl Default for TextGenerationParams {
    fn default() -> (r: Self)
        ensures
            empty_text_params(r),
    {
        TextGenerationParams {
            temperature: None,
            top_p: None,
            top_k: None,
            max_tokens: None,
            presence_penalty: None,
            frequency_penalty: None,
            stop_sequences: None,
            seed: None,
        }
    }
}

/// Settings of an image model; `cfg_scale` is an `f32` bit pattern.
#[derive(Debug)]
pub struct ImageGenerationParams {
    pub width: u32,
    pub height: u32,
    pub steps: u32,
    pub cfg_scale: u32,
    pub sampler: Option<String>,
    pub style_preset: Option<String>,
}

impl Clone for ImageGenerationParams {
    fn clone(&self) -> (r: Self)
        ensures
            r == *self,
    {
        ImageGenerationParams {
            width: self.width,
            height: self.height,
            steps: self.steps,
            cfg_scale: self.cfg_scale,
            sampler: self.sampler.clone(),
            style_preset: self.style_preset.clone(),
        }
    }
}

impl Default for ImageGenerationParams {
    fn default() -> (r: Self)
        ensures
            r.width == 0 && r.height == 0 && r.steps == 0 && r.cfg_scale == 0,
            r.sampler is None && r.style_preset is None,
    {
        ImageGenerationParams { width: 0, height: 0, steps: 0, cfg_scale: 0, sampler: None, style_preset: None }
    }
}

/// Settings of an embedding model.
#[derive(Debug, Clone, Copy)]
pub struct EmbeddingParams {
    pub embedding_dim: Option<usize>,
    pub normalize: bool,
    pub truncate: bool,
}

impl Default for EmbeddingParams {
    fn default() -> (r: Self)
        ensures
            r.embedding_dim is None && !r.normalize && !r.truncate,
    {
        EmbeddingParams { embedding_dim: None, normalize: false, truncate: false }
    }
}

/// Settings of a reranker; `score_threshold` is an `f32` bit pattern.
#[derive(Debug, Clone, Copy)]
pub struct RerankerParams {
    pub top_n: Option<usize>,
    pub return_documents: bool,
    pub score_threshold: Option<u32>,
}

impl Default for RerankerParams {
    fn default() -> (r: Self)
        ensures
            r.top_n is None && !r.return_documents && r.score_threshold is None,
    {
        RerankerParams { top_n: None, return_documents: false, score_threshold: None }
    }
}

/// What a model accepts as images.
#[derive(Debug, Clone, Copy)]
pub struct VisionSupport {
    pub context_window: Option<u32>,
    pub max_resolution: Option<(u32, u32)>,
}

impl Default for VisionSupport {
    fn default() -> (r: Self)
        ensures
            r.context_window is None && r.max_resolution is None,
    {
        VisionSupport { context_window: None, max_resolution: None }
    }
}

/// What a model accepts as audio; `max_duration` is an `f32` bit pattern.
#[derive(Debug, Clone, Copy)]
pub struct AudioSupport {
    pub sample_rate: Option<u32>,
    pub max_duration: Option<u32>,
}

impl Default for AudioSupport {
    fn default() -> (r: Self)
        ensures
            r.sample_rate is None && r.max_duration is None,
    {
        AudioSupport { sample_rate: None, max_duration: None }
    }
}

/// What a model accepts as text.
#[derive(Debug)]
pub struct TextSupport {
    pub context_window: u32,
    pub languages: Vec<String>,
}

impl Clone for TextSupport {
    fn clone(&self) -> (r: Self)
        ensures
            r.context_window == self.context_window && r.languages@ == self.languages@,
    {
        TextSupport { context_window: self.context_window, languages: clone_strings(&self.languages) }
    }
}

impl Default for TextSupport {
    fn default() -> (r: Self)
        ensures
            r.context_window == 0 && r.languages@.len() == 0,
    {
        TextSupport { context_window: 0, languages: Vec::new() }
    }
}

/// The media a model takes besides text.
#[derive(Debug)]
pub struct MultimodalConfig {
    pub vision: Option<VisionSupport>,
    pub audio: Option<AudioSupport>,
    pub text: Option<TextSupport>,
}

pub open spec fn same_multimodal(a: MultimodalConfig, b: MultimodalConfig) -> bool {
    &&& a.vision == b.vision
    &&& a.audio == b.audio
    &&& match (a.text, b.text) {
        (None, None) => true,
        (Some(x), Some(y)) => x.context_window == y.context_window && x.languages@ == y.languages@,
        _ => false,
    }
}

impl Clone for MultimodalConfig {
    fn clone(&self) -> (r: Self)
        ensures
            same_multimodal(r, *self),
    {
        let text = match &self.text {
            Some(t) => Some(t.clone()),
            None => None,
        };
        MultimodalConfig { vision: self.vision, audio: self.audio, text }
    }
}

impl Default for MultimodalConfig {
    fn default() -> (r: Self)
        ensures
            r.vision is None && r.audio is None && r.text is None,
    {
        MultimodalConfig { vision: None, audio: None, text: None }
    }
}

/// The kind of a model, with its settings.
#[derive(Debug)]
pub enum ModelInfo {
    TextGeneration {
        parameters: TextGenerationParams,
        capabilities: Vec<TextModelCapability>,
        multimodal: Option<MultimodalConfig>,
    },
    ImageGeneration { parameters: ImageGenerationParams },
    Embedding { parameters: EmbeddingParams },
    Reranker { parameters: RerankerParams },
    Audio {},
}

pub open spec fn same_model_info(a: ModelInfo, b: ModelInfo) -> bool {
    match (a, b) {
        (
            ModelInfo::TextGeneration { parameters: p1, capabilities: c1, multimodal: m1 },
            ModelInfo::TextGeneration { parameters: p2, capabilities: c2, multimodal: m2 },
        ) => {
            &&& same_text_params(p1, p2)
            &&& c1@ == c2@
            &&& match (m1, m2) {
                (None, None) => true,
                (Some(x), Some(y)) => same_multimodal(x, y),
                _ => false,
            }
        },
        (ModelInfo::ImageGeneration { parameters: p1 }, ModelInfo::ImageGeneration { parameters: p2 }) => p1 == p2,
        (ModelInfo::Embedding { parameters: p1 }, ModelInfo::Embedding { parameters: p2 }) => p1 == p2,
        (ModelInfo::Reranker { parameters: p1 }, ModelInfo::Reranker { parameters: p2 }) => p1 == p2,
        (ModelInfo::Audio {}, ModelInfo::Audio {}) => true,
        _ => false,
    }
}

impl Clone for ModelInfo {
    fn clone(&self) -> (r: Self)
        ensures
            same_model_info(r, *self),
    {
        match self {
            ModelInfo::TextGeneration { parameters, capabilities, multimodal } => {
                let caps = capabilities.clone();
                assert(caps@ =~= capabilities@);
                let mm = match multimodal {
                    Some(m) => Some(m.clone()),
                    None => None,
                };
                ModelInfo::TextGeneration { parameters: parameters.clone(), capabilities: caps, multimodal: mm }
            },
            ModelInfo::ImageGeneration { parameters } => ModelInfo::ImageGeneration { parameters: parameters.clone() },
            ModelInfo::Embedding { parameters } => ModelInfo::Embedding { parameters: *parameters },
            ModelInfo::Reranker { parameters } => ModelInfo::Reranker { parameters: *parameters },
            ModelInfo::Audio {} => ModelInfo::Audio {},
        }
    }
}

/// A model a provider offers.
#[derive(Debug)]
pub struct Model {
    pub metadata: ModelMetadata,
    pub model_info: ModelInfo,
    pub tokenizer: Option<String>,
    pub max_input_size: usize,
    pub api_endpoint: Option<String>,
}

pub open spec fn same_model(a: Model, b: Model) -> bool {
    &&& a.metadata == b.metadata
    &&& same_model_info(a.model_info, b.model_info)
    &&& a.tokenizer == b.tokenizer
    &&& a.max_input_size == b.max_input_size
    &&& a.api_endpoint == b.api_endpoint
}

impl Clone for Model {
    fn clone(&self) -> (r: Self)
        ensures
            same_model(r, *self),
    {
        Model {
            metadata: self.metadata.clone(),
            model_info: self.model_info.clone(),
            tokenizer: self.tokenizer.clone(),
            max_input_size: self.max_input_size,
            api_endpoint: self.api_endpoint.clone(),
        }
    }
}

/// `str::starts_with`.
pub open spec fn starts(s: Seq<char>, p: Seq<char>) -> bool {
    p.len() <= s.len() && s.subrange(0, p.len() as int) == p
}

/// The kind a model id suggests: embedding, reranker, image, audio, or
/// else a text model that uses tools, reasons where the id says so, and
/// fills in the middle where it names code.
pub open spec fn infer_kind(id: Seq<char>) -> (int, bool, bool) {
    let l = lower_seq(id);
    if contains_seq(l, "embed"@) {
        (1, false, false)
    } else if contains_seq(l, "rerank"@) {
        (2, false, false)
    } else if contains_seq(l, "dall-e"@) || contains_seq(l, "gpt-image"@) || contains_seq(l, "image"@) {
        (3, false, false)
    } else if contains_seq(l, "tts"@) || contains_seq(l, "whisper"@) || contains_seq(l, "audio"@) {
        (4, false, false)
    } else {
        let reasoning = contains_seq(l, "reasoning"@) || contains_seq(l, "reasoner"@) || contains_seq(l, "thinking"@)
            || starts(l, "o1"@) || starts(l, "o3"@) || starts(l, "o4"@) || starts(l, "r1"@)
            || contains_seq(l, "deepseek-reasoner"@);
        let fim = contains_seq(l, "coder"@) || contains_seq(l, "code"@);
        (0, reasoning, fim)
    }
}

/// The kind of an inferred model info, as `infer_kind` numbers them.
pub open spec fn info_kind(info: ModelInfo) -> int {
    match info {
        ModelInfo::TextGeneration { .. } => 0,
        ModelInfo::Embedding { .. } => 1,
        ModelInfo::Reranker { .. } => 2,
        ModelInfo::ImageGeneration { .. } => 3,
        ModelInfo::Audio {} => 4,
    }
}

/// The capabilities a text model gets: tool use, then reasoning and
/// fill-in-the-middle where inferred.
pub open spec fn inferred_capabilities(reasoning: bool, fim: bool) -> Seq<TextModelCapability> {
    let a = seq![TextModelCapability::ToolUse];
    let b = if reasoning { a.push(TextModelCapability::Reasoning) } else { a };
    if fim { b.push(TextModelCapability::FIM) } else { b }
}

fn has(l: &Vec<char>, pat: &str) -> (r: bool)
    ensures
        r == contains_seq(l@, pat@),
{
    contains(l.as_slice(), chars_of(pat).as_slice())
}

fn begins(l: &Vec<char>, pat: &str) -> (r: bool)
    ensures
        r == starts(l@, pat@),
{
    let p = chars_of(pat);
    starts_with(l.as_slice(), p.as_slice())
}

/// Infers a model's kind and capabilities from its id, case-insensitively:
/// `embed` → embedding, `rerank` → reranker, `dall-e`/`gpt-image`/`image` →
/// image generation, `tts`/`whisper`/`audio` → audio; anything else is a
/// text model with tool use, plus reasoning for reasoning markers
/// (`reasoning`, `reasoner`, `thinking`, a leading `o1`/`o3`/`o4`/`r1`) and
/// fill-in-the-middle for `coder`/`code`. Settings are the defaults.
pub fn infer_model_info(id: &str) -> (r: ModelInfo)
    ensures
        info_kind(r) == infer_kind(id@).0,
        r matches ModelInfo::TextGeneration { parameters, capabilities, multimodal } ==> {
            &&& empty_text_params(parameters)
            &&& capabilities@ == inferred_capabilities(infer_kind(id@).1, infer_kind(id@).2)
            &&& multimodal is None
        },
        r matches ModelInfo::ImageGeneration { parameters } ==> parameters.width == 0 && parameters.height == 0
            && parameters.steps == 0 && parameters.cfg_scale == 0 && parameters.sampler is None
            && parameters.style_preset is None,
        r matches ModelInfo::Embedding { parameters } ==> parameters.embedding_dim is None
            && !parameters.normalize && !parameters.truncate,
        r matches ModelInfo::Reranker { parameters } ==> parameters.top_n is None
            && !parameters.return_documents && parameters.score_threshold is None,
{
    let lower = to_ascii_lowercase(id);
    if has(&lower, "embed") {
        return ModelInfo::Embedding { parameters: EmbeddingParams::default() };
    }
    if has(&lower, "rerank") {
        return ModelInfo::Reranker { parameters: RerankerParams::default() };
    }
    if has(&lower, "dall-e") || has(&lower, "gpt-image") || has(&lower, "image") {
        return ModelInfo::ImageGeneration { parameters: ImageGenerationParams::default() };
    }
    if has(&lower, "tts") || has(&lower, "whisper") || has(&lower, "audio") {
        return ModelInfo::Audio {};
    }
    let mut capabilities: Vec<TextModelCapability> = Vec::new();
    capabilities.push(TextModelCapability::ToolUse);
    let reasoning = has(&lower, "reasoning") || has(&lower, "reasoner") || has(&lower, "thinking")
        || begins(&lower, "o1") || begins(&lower, "o3") || begins(&lower, "o4") || begins(&lower, "r1")
        || has(&lower, "deepseek-reasoner");
    if reasoning {
        capabilities.push(TextModelCapability::Reasoning);
    }
    if has(&lower, "coder") || has(&lower, "code") {
        capabilities.push(TextModelCapability::FIM);
    }
    proof {
        let ghost k = infer_kind(id@);
        assert(capabilities@ =~= inferred_capabilities(k.1, k.2));
    }
    ModelInfo::TextGeneration { parameters: TextGenerationParams::default(), capabilities, multimodal: None }
}

} // verus!
