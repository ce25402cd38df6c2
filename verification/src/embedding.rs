//! Choosing the note-embedding provider from the engine's configuration,
//! and the runtime status that reports the choice.
//!
//! The choice is made in up to two steps: `plan_embedding_provider` decides
//! everything that the configuration and the available credentials decide;
//! for a local provider it asks the caller to try loading the local model
//! and `local_embedding_selection` finishes with the outcome.

use vstd::prelude::*;
use crate::text::{
    ascii_lower, ascii_lower_vec, chars_eq_str, chars_of, concat_str, find_from, find_from_vec, first_occurrence, occurs,
    starts_with, starts_with_vec, string_from_chars, trim, trim_vec,
};

verus! {

/// The embedding section of the engine's configuration.
pub struct EmbeddingConfig {
    pub provider: String,
    pub model: String,
    pub dimensions: usize,
    pub base_url: Option<String>,
}

/// The credentials an OpenAI-style embedder reads its API key from.
#[derive(PartialEq, Eq, Structural, Clone, Copy, Debug)]
pub enum ApiKeySource {
    /// `OPENAI_API_KEY`.
    OpenAi,
    /// `MINDVAULT_EMBEDDING_API_KEY`, else `OPENAI_API_KEY`.
    EmbeddingThenOpenAi,
}

/// The embedder to build.
pub enum EmbedderPlan {
    /// No embedder: vectors are not computed.
    Disabled,
    /// An OpenAI-compatible HTTP embedder.
    OpenAiCompatible { base_url: String, api_key: ApiKeySource, model: String, dimensions: usize },
    /// An Ollama embedder.
    Ollama { base_url: String, model: String, dimensions: usize },
    /// The local fastembed embedder, already loaded.
    LocalFastembed { model: String },
}

/// What the engine reports about its embedding provider.
pub struct KnowledgeVaultIndexNoteEmbeddingProviderRuntimeStatus {
    pub configured_provider: String,
    pub configured_model: String,
    pub configured_dimensions: usize,
    pub effective_provider: String,
    pub effective_model: String,
    pub effective_dimensions: usize,
    pub fallback_to_noop: bool,
    pub reason: Option<String>,
    pub local_embeddings_feature_enabled: bool,
}

/// A finished choice: the embedder, the vector width of the store, and the
/// status to report.
pub struct EmbeddingSelection {
    pub plan: EmbedderPlan,
    pub vector_dimensions: usize,
    pub status: KnowledgeVaultIndexNoteEmbeddingProviderRuntimeStatus,
}

/// The first step of the choice.
pub enum EmbeddingStep {
    /// The choice is made.
    Selected(EmbeddingSelection),
    /// Load the local model `model` and pass the outcome to
    /// `local_embedding_selection`.
    TryLocal { model: String },
}

/// The specification view of a plan.
pub enum PlanView {
    Disabled,
    OpenAiCompatible { base_url: Seq<char>, api_key: ApiKeySource, model: Seq<char>, dimensions: usize },
    Ollama { base_url: Seq<char>, model: Seq<char>, dimensions: usize },
    LocalFastembed { model: Seq<char> },
}

/// The specification view of a runtime status.
pub struct StatusView {
    pub configured_provider: Seq<char>,
    pub configured_model: Seq<char>,
    pub configured_dimensions: usize,
    pub effective_provider: Seq<char>,
    pub effective_model: Seq<char>,
    pub effective_dimensions: usize,
    pub fallback_to_noop: bool,
    pub reason: Option<Seq<char>>,
    pub local_embeddings_feature_enabled: bool,
}

/// The specification view of a finished choice.
pub struct SelectionView {
    pub plan: PlanView,
    pub vector_dimensions: usize,
    pub status: StatusView,
}

/// The specification view of a first step.
pub enum StepView {
    Selected(SelectionView),
    TryLocal(Seq<char>),
}

/// The specification view of the configuration.
pub struct ConfigView {
    pub provider: Seq<char>,
    pub model: Seq<char>,
    pub dimensions: usize,
    pub base_url: Option<Seq<char>>,
}

impl View for EmbeddingConfig {
    type V = ConfigView;

    open spec fn view(&self) -> ConfigView {
        ConfigView {
            provider: self.provider@,
            model: self.model@,
            dimensions: self.dimensions,
            base_url: match self.base_url {
                Some(u) => Some(u@),
                None => None,
            },
        }
    }
}

impl View for EmbedderPlan {
    type V = PlanView;

    open spec fn view(&self) -> PlanView {
        match self {
            EmbedderPlan::Disabled => PlanView::Disabled,
            EmbedderPlan::OpenAiCompatible { base_url, api_key, model, dimensions } => PlanView::OpenAiCompatible {
                base_url: base_url@,
                api_key: *api_key,
                model: model@,
                dimensions: *dimensions,
            },
            EmbedderPlan::Ollama { base_url, model, dimensions } => PlanView::Ollama { base_url: base_url@, model: model@, dimensions: *dimensions },
            EmbedderPlan::LocalFastembed { model } => PlanView::LocalFastembed { model: model@ },
        }
    }
}

impl View for KnowledgeVaultIndexNoteEmbeddingProviderRuntimeStatus {
    type V = StatusView;

    open spec fn view(&self) -> StatusView {
        StatusView {
            configured_provider: self.configured_provider@,
            configured_model: self.configured_model@,
            configured_dimensions: self.configured_dimensions,
            effective_provider: self.effective_provider@,
            effective_model: self.effective_model@,
            effective_dimensions: self.effective_dimensions,
            fallback_to_noop: self.fallback_to_noop,
            reason: match self.reason {
                Some(r) => Some(r@),
                None => None,
            },
            local_embeddings_feature_enabled: self.local_embeddings_feature_enabled,
        }
    }
}

impl View for EmbeddingSelection {
    type V = SelectionView;

    open spec fn view(&self) -> SelectionView {
        SelectionView { plan: self.plan@, vector_dimensions: self.vector_dimensions, status: self.status@ }
    }
}

impl View for EmbeddingStep {
    type V = StepView;

    open spec fn view(&self) -> StepView {
        match self {
            EmbeddingStep::Selected(s) => StepView::Selected(s@),
            EmbeddingStep::TryLocal { model } => StepView::TryLocal(model@),
        }
    }
}

/// The status for a configuration and an effective provider.
pub open spec fn status_of(
    cfg: ConfigView,
    provider: Seq<char>,
    model: Seq<char>,
    dimensions: usize,
    fallback: bool,
    reason: Option<Seq<char>>,
    feature: bool,
) -> StatusView {
    StatusView {
        configured_provider: cfg.provider,
        configured_model: cfg.model,
        configured_dimensions: cfg.dimensions,
        effective_provider: provider,
        effective_model: model,
        effective_dimensions: dimensions,
        fallback_to_noop: fallback,
        reason,
        local_embeddings_feature_enabled: feature,
    }
}

/// No embedder, with the status that says why.
pub open spec fn noop_selection(cfg: ConfigView, fallback: bool, reason: Option<Seq<char>>, feature: bool) -> SelectionView {
    SelectionView {
        plan: PlanView::Disabled,
        vector_dimensions: cfg.dimensions,
        status: status_of(cfg, "noop"@, "noop"@, cfg.dimensions, fallback, reason, feature),
    }
}

/// The local model to load: `bge-small-en-v1.5` in place of an OpenAI
/// `text-embedding-…` model name, else the configured model.
pub open spec fn local_model_for(model: Seq<char>) -> Seq<char> {
    if starts_with(model, "text-embedding-"@) { "bge-small-en-v1.5"@ } else { model }
}

/// The Ollama model: `nomic-embed-text` in place of an OpenAI
/// `text-embedding-…` model name, else the configured model.
pub open spec fn ollama_model_for(model: Seq<char>) -> Seq<char> {
    if starts_with(model, "text-embedding-"@) { "nomic-embed-text"@ } else { model }
}

/// The reason reported when a model name is replaced for a provider.
pub open spec fn remap_reason(configured: Seq<char>, used: Seq<char>, provider: Seq<char>) -> Option<Seq<char>> {
    if used != configured {
        Some("model '"@ + configured + "' auto-mapped to '"@ + used + "' for "@ + provider)
    } else {
        None
    }
}

/// Whether `s` contains `pat`.
pub open spec fn contains_text(s: Seq<char>, pat: Seq<char>) -> bool {
    find_from(s, pat, 0) is Some
}

/// The first step of the choice, for a configuration, whether
/// `OPENAI_API_KEY` is available, and whether the local-embeddings feature
/// is built in. The provider name is read trimmed and in ASCII lowercase.
pub open spec fn embedding_step(cfg: ConfigView, openai_key: bool, feature: bool) -> StepView {
    let p = ascii_lower(trim(cfg.provider));
    if p == "openai"@ {
        let base = match cfg.base_url { Some(u) => u, None => "https://api.openai.com/v1"@ };
        if !openai_key && contains_text(base, "api.openai.com"@) {
            StepView::Selected(noop_selection(cfg, true, Some("OPENAI_API_KEY not found in any credential backend"@), feature))
        } else {
            StepView::Selected(SelectionView {
                plan: PlanView::OpenAiCompatible { base_url: base, api_key: ApiKeySource::OpenAi, model: cfg.model, dimensions: cfg.dimensions },
                vector_dimensions: cfg.dimensions,
                status: status_of(cfg, "openai"@, cfg.model, cfg.dimensions, false, None, feature),
            })
        }
    } else if p == "openai-compatible"@ || p == "openai_compatible"@ {
        let base = match cfg.base_url { Some(u) => u, None => "http://localhost:8080/v1"@ };
        StepView::Selected(SelectionView {
            plan: PlanView::OpenAiCompatible { base_url: base, api_key: ApiKeySource::EmbeddingThenOpenAi, model: cfg.model, dimensions: cfg.dimensions },
            vector_dimensions: cfg.dimensions,
            status: status_of(cfg, "openai-compatible"@, cfg.model, cfg.dimensions, false, None, feature),
        })
    } else if p == "ollama"@ {
        let base = match cfg.base_url { Some(u) => u, None => "http://localhost:11434/v1"@ };
        let model = ollama_model_for(cfg.model);
        StepView::Selected(SelectionView {
            plan: PlanView::Ollama { base_url: base, model, dimensions: cfg.dimensions },
            vector_dimensions: cfg.dimensions,
            status: status_of(cfg, "ollama"@, model, cfg.dimensions, false, remap_reason(cfg.model, model, "ollama"@), feature),
        })
    } else if p == "noop"@ || p == "none"@ || p == "disabled"@ {
        StepView::Selected(noop_selection(cfg, false, None, feature))
    } else if p == "local_fastembed"@ || p == "fastembed"@ || p == "local"@ {
        StepView::TryLocal(local_model_for(cfg.model))
    } else {
        StepView::Selected(noop_selection(cfg, true, Some("unknown embedding provider '"@ + p + "'"@), feature))
    }
}

/// The choice once the local model `model` was tried: loaded with its
/// vector width, or failed with an error message.
pub open spec fn local_selection(cfg: ConfigView, model: Seq<char>, loaded: Result<usize, Seq<char>>, feature: bool) -> SelectionView {
    match loaded {
        Ok(d) => SelectionView {
            plan: PlanView::LocalFastembed { model },
            vector_dimensions: d,
            status: status_of(cfg, "local_fastembed"@, model, d, false, remap_reason(cfg.model, model, "local_fastembed"@), feature),
        },
        Err(e) => noop_selection(cfg, true, Some("local_fastembed initialization failed: "@ + e), feature),
    }
}

fn status(
    cfg: &EmbeddingConfig,
    provider: &str,
    model: String,
    dimensions: usize,
    fallback: bool,
    reason: Option<String>,
    feature: bool,
) -> (s: KnowledgeVaultIndexNoteEmbeddingProviderRuntimeStatus)
    ensures
        s@ == status_of(cfg@, provider@, model@, dimensions, fallback, crate::obsidian::opt_string_view(&reason), feature),
{
    KnowledgeVaultIndexNoteEmbeddingProviderRuntimeStatus {
        configured_provider: cfg.provider.clone(),
        configured_model: cfg.model.clone(),
        configured_dimensions: cfg.dimensions,
        effective_provider: provider.to_string(),
        effective_model: model,
        effective_dimensions: dimensions,
        fallback_to_noop: fallback,
        reason,
        local_embeddings_feature_enabled: feature,
    }
}

fn noop(cfg: &EmbeddingConfig, fallback: bool, reason: Option<String>, feature: bool) -> (s: EmbeddingSelection)
    ensures
        s@ == noop_selection(cfg@, fallback, crate::obsidian::opt_string_view(&reason), feature),
{
    EmbeddingSelection {
        plan: EmbedderPlan::Disabled,
        vector_dimensions: cfg.dimensions,
        status: status(cfg, "noop", "noop".to_string(), cfg.dimensions, fallback, reason, feature),
    }
}

/// The local model to load for a configured model name.
pub fn default_local_model_if_needed(config_model: &str) -> (out: String)
    ensures
        out@ == local_model_for(config_model@),
{
    let m = chars_of(config_model);
    let p = chars_of("text-embedding-");
    if starts_with_vec(m.as_slice(), p.as_slice()) {
        "bge-small-en-v1.5".to_string()
    } else {
        config_model.to_string()
    }
}

fn ollama_model(config_model: &str) -> (out: String)
    ensures
        out@ == ollama_model_for(config_model@),
{
    let m = chars_of(config_model);
    let p = chars_of("text-embedding-");
    if starts_with_vec(m.as_slice(), p.as_slice()) {
        "nomic-embed-text".to_string()
    } else {
        config_model.to_string()
    }
}

fn remap(configured: &str, used: &str, provider: &str) -> (r: Option<String>)
    ensures
        crate::obsidian::opt_string_view(&r) == remap_reason(configured@, used@, provider@),
{
    let a = chars_of(configured);
    if crate::text::chars_eq_str(a.as_slice(), used) {
        None
    } else {
        let s = concat_str("model '", configured);
        let s = concat_str(s.as_str(), "' auto-mapped to '");
        let s = concat_str(s.as_str(), used);
        let s = concat_str(s.as_str(), "' for ");
        Some(concat_str(s.as_str(), provider))
    }
}

/// Takes the first step of choosing the embedding provider.
pub fn plan_embedding_provider(config: &EmbeddingConfig, openai_key_available: bool, local_feature_enabled: bool) -> (step: EmbeddingStep)
    ensures
        step@ == embedding_step(config@, openai_key_available, local_feature_enabled),
{
    let raw = chars_of(config.provider.as_str());
    let t = trim_vec(raw.as_slice());
    let pv = ascii_lower_vec(t.as_slice());
    let p = pv.as_slice();
    let feature = local_feature_enabled;
    if chars_eq_str(p, "openai") {
        let base = match &config.base_url {
            Some(u) => u.clone(),
            None => "https://api.openai.com/v1".to_string(),
        };
        let bc = chars_of(base.as_str());
        let host = chars_of("api.openai.com");
        if !openai_key_available && find_from_vec(bc.as_slice(), host.as_slice(), 0).is_some() {
            return EmbeddingStep::Selected(noop(config, true, Some("OPENAI_API_KEY not found in any credential backend".to_string()), feature));
        }
        let st = status(config, "openai", config.model.clone(), config.dimensions, false, None, feature);
        EmbeddingStep::Selected(EmbeddingSelection {
            plan: EmbedderPlan::OpenAiCompatible { base_url: base, api_key: ApiKeySource::OpenAi, model: config.model.clone(), dimensions: config.dimensions },
            vector_dimensions: config.dimensions,
            status: st,
        })
    } else if chars_eq_str(p, "openai-compatible") || chars_eq_str(p, "openai_compatible") {
        let base = match &config.base_url {
            Some(u) => u.clone(),
            None => "http://localhost:8080/v1".to_string(),
        };
        let st = status(config, "openai-compatible", config.model.clone(), config.dimensions, false, None, feature);
        EmbeddingStep::Selected(EmbeddingSelection {
            plan: EmbedderPlan::OpenAiCompatible { base_url: base, api_key: ApiKeySource::EmbeddingThenOpenAi, model: config.model.clone(), dimensions: config.dimensions },
            vector_dimensions: config.dimensions,
            status: st,
        })
    } else if chars_eq_str(p, "ollama") {
        let base = match &config.base_url {
            Some(u) => u.clone(),
            None => "http://localhost:11434/v1".to_string(),
        };
        let model = ollama_model(config.model.as_str());
        let reason = remap(config.model.as_str(), model.as_str(), "ollama");
        let st = status(config, "ollama", model.clone(), config.dimensions, false, reason, feature);
        EmbeddingStep::Selected(EmbeddingSelection {
            plan: EmbedderPlan::Ollama { base_url: base, model, dimensions: config.dimensions },
            vector_dimensions: config.dimensions,
            status: st,
        })
    } else if chars_eq_str(p, "noop") || chars_eq_str(p, "none") || chars_eq_str(p, "disabled") {
        EmbeddingStep::Selected(noop(config, false, None, feature))
    } else if chars_eq_str(p, "local_fastembed") || chars_eq_str(p, "fastembed") || chars_eq_str(p, "local") {
        EmbeddingStep::TryLocal { model: default_local_model_if_needed(config.model.as_str()) }
    } else {
        let name = string_from_chars(p);
        let r = concat_str("unknown embedding provider '", name.as_str());
        let r = concat_str(r.as_str(), "'");
        EmbeddingStep::Selected(noop(config, true, Some(r), feature))
    }
}

/// Finishes the choice for a local provider once `model` was tried: `Ok`
/// with the loaded model's vector width, or `Err` with the error message.
pub fn local_embedding_selection(config: &EmbeddingConfig, model: &str, loaded: Result<usize, String>, local_feature_enabled: bool) -> (s: EmbeddingSelection)
    ensures
        s@ == local_selection(config@, model@, match loaded {
            Ok(d) => Ok(d),
            Err(e) => Err(e@),
        }, local_feature_enabled),
{
    match loaded {
        Ok(d) => {
            let reason = remap(config.model.as_str(), model, "local_fastembed");
            let st = status(config, "local_fastembed", model.to_string(), d, false, reason, local_feature_enabled);
            EmbeddingSelection { plan: EmbedderPlan::LocalFastembed { model: model.to_string() }, vector_dimensions: d, status: st }
        },
        Err(e) => {
            let r = concat_str("local_fastembed initialization failed: ", e.as_str());
            noop(config, true, Some(r), local_feature_enabled)
        },
    }
}

/// Whenever the choice falls back, no embedder is built: a fallback status
/// always comes with the disabled plan, and the vector width stays the
/// configured one.
pub proof fn lemma_fallback_means_no_embedder(cfg: ConfigView, openai_key: bool, feature: bool, model: Seq<char>, loaded: Result<usize, Seq<char>>)
    ensures
        embedding_step(cfg, openai_key, feature) matches StepView::Selected(s)
            ==> (s.status.fallback_to_noop ==> s.plan is Disabled && s.vector_dimensions == cfg.dimensions),
        local_selection(cfg, model, loaded, feature).status.fallback_to_noop
            ==> local_selection(cfg, model, loaded, feature).plan is Disabled
                && local_selection(cfg, model, loaded, feature).vector_dimensions == cfg.dimensions,
{
}

/// Which embedder a configuration selects, by its provider name (ignoring
/// ASCII case and surrounding whitespace): `openai` selects the OpenAI API
/// with the configured model and dimensions, unless no OpenAI key is found
/// for the default `https://api.openai.com/v1`, which falls back to no
/// embedder; `openai-compatible` (or with `_`) selects that API at the
/// configured URL, `http://localhost:8080/v1` by default; `ollama` selects
/// Ollama at `http://localhost:11434/v1` by default, mapping OpenAI model
/// names to `nomic-embed-text`; `noop`, `none` and `disabled` select no
/// embedder without a fallback; the local names try the local model,
/// mapping OpenAI model names to `bge-small-en-v1.5`; any other name falls
/// back to no embedder. Whatever is selected keeps the configured
/// dimensions, and the status reports the configuration as given.
pub proof fn lemma_provider_selection(cfg: ConfigView, openai_key: bool, feature: bool)
    ensures
        ({
            let p = ascii_lower(trim(cfg.provider));
            let step = embedding_step(cfg, openai_key, feature);
            p == "openai"@ && openai_key ==> step == StepView::Selected(SelectionView {
                    plan: PlanView::OpenAiCompatible {
                        base_url: if cfg.base_url is Some { cfg.base_url->0 } else { "https://api.openai.com/v1"@ },
                        api_key: ApiKeySource::OpenAi, model: cfg.model, dimensions: cfg.dimensions },
                    vector_dimensions: cfg.dimensions,
                    status: status_of(cfg, "openai"@, cfg.model, cfg.dimensions, false, None, feature),
                })
        }),
        ({
            let p = ascii_lower(trim(cfg.provider));
            let step = embedding_step(cfg, openai_key, feature);
            p == "openai"@ && !openai_key && cfg.base_url is None ==> (step matches StepView::Selected(sel)
                    && sel.plan is Disabled && sel.status.fallback_to_noop)
        }),
        ({
            let p = ascii_lower(trim(cfg.provider));
            let step = embedding_step(cfg, openai_key, feature);
            (p == "openai-compatible"@ || p == "openai_compatible"@) ==> (step matches StepView::Selected(sel)
                    && sel.plan == PlanView::OpenAiCompatible {
                        base_url: if cfg.base_url is Some { cfg.base_url->0 } else { "http://localhost:8080/v1"@ },
                        api_key: ApiKeySource::EmbeddingThenOpenAi, model: cfg.model, dimensions: cfg.dimensions })
        }),
        ({
            let p = ascii_lower(trim(cfg.provider));
            let step = embedding_step(cfg, openai_key, feature);
            p == "ollama"@ ==> (step matches StepView::Selected(sel) && sel.plan == PlanView::Ollama {
                        base_url: if cfg.base_url is Some { cfg.base_url->0 } else { "http://localhost:11434/v1"@ },
                        model: if starts_with(cfg.model, "text-embedding-"@) { "nomic-embed-text"@ } else { cfg.model },
                        dimensions: cfg.dimensions })
        }),
        ({
            let p = ascii_lower(trim(cfg.provider));
            let step = embedding_step(cfg, openai_key, feature);
            (p == "noop"@ || p == "none"@ || p == "disabled"@) ==> (step matches StepView::Selected(sel)
                    && sel.plan is Disabled && !sel.status.fallback_to_noop && sel.status.reason is None)
        }),
        ({
            let p = ascii_lower(trim(cfg.provider));
            let step = embedding_step(cfg, openai_key, feature);
            (p == "local_fastembed"@ || p == "fastembed"@ || p == "local"@) ==> step == StepView::TryLocal(
                    if starts_with(cfg.model, "text-embedding-"@) { "bge-small-en-v1.5"@ } else { cfg.model })
        }),
        ({
            let p = ascii_lower(trim(cfg.provider));
            let step = embedding_step(cfg, openai_key, feature);
            step matches StepView::Selected(sel) ==> sel.vector_dimensions == cfg.dimensions
                && sel.status.configured_provider == cfg.provider && sel.status.configured_model == cfg.model
                && sel.status.configured_dimensions == cfg.dimensions
        }),
{
    let p = ascii_lower(trim(cfg.provider));
    reveal_strlit("openai");
    reveal_strlit("openai-compatible");
    reveal_strlit("openai_compatible");
    reveal_strlit("ollama");
    reveal_strlit("noop");
    reveal_strlit("none");
    reveal_strlit("disabled");
    reveal_strlit("local_fastembed");
    reveal_strlit("fastembed");
    reveal_strlit("local");
    if p == "ollama"@ {
        assert("ollama"@[1] != "openai"@[1]);
        assert(p != "openai"@);
    }
    if p == "openai"@ && !openai_key && cfg.base_url is None {
        reveal_strlit("https://api.openai.com/v1");
        reveal_strlit("api.openai.com");
        let base = "https://api.openai.com/v1"@;
        let pat = "api.openai.com"@;
        assert(occurs(base, pat, 8)) by {
            assert(base.subrange(8, 22) =~= pat);
        }
        assert(forall|k: int| 0 <= k < 8 ==> !occurs(base, pat, k)) by {
            assert forall|k: int| 0 <= k < 8 implies !occurs(base, pat, k) by {
                if occurs(base, pat, k) {
                    assert(base.subrange(k, k + pat.len())[0] == base[k]);
                }
            }
        }
        assert(first_occurrence(base, pat, 0, 8));
    }
}

} // verus!
