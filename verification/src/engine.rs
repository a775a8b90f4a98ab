//! The model side of the gateway: resolving what a client calls a model to
//! its configuration, keeping one warm instance per model, and the choices
//! made when a model is handed a request.
use vstd::prelude::*;
use crate::config::{ModelConfig, ModelConfigView};
use crate::keyed::TextMap;
use crate::text::{join, lowercase, lowercase_of, str_eq};

verus! {

/// Why the engine could not serve a request.
#[derive(Debug)]
pub enum EngineError {
    /// The selector names no configured model.
    ModelUnavailable(String),
    /// The model could not be built or placed on a device.
    ModelLoadFailed(String),
    /// Generation failed with the given description.
    GenerationFailed(String),
}

/// Model of an [`EngineError`].
pub enum EngineErrorView {
    ModelUnavailable(Seq<char>),
    ModelLoadFailed(Seq<char>),
    GenerationFailed(Seq<char>),
}

impl View for EngineError {
    type V = EngineErrorView;

    open spec fn view(&self) -> EngineErrorView {
        match *self {
            EngineError::ModelUnavailable(selector) => EngineErrorView::ModelUnavailable(selector@),
            EngineError::ModelLoadFailed(reason) => EngineErrorView::ModelLoadFailed(reason@),
            EngineError::GenerationFailed(reason) => EngineErrorView::GenerationFailed(reason@),
        }
    }
}

/// The sentence shown for an engine error.
pub open spec fn engine_error_text(error: EngineErrorView) -> Seq<char> {
    match error {
        EngineErrorView::ModelUnavailable(selector) => "Model '"@ + selector + "' not configured"@,
        EngineErrorView::ModelLoadFailed(reason) => reason,
        EngineErrorView::GenerationFailed(reason) => reason,
    }
}

/// The HTTP status an engine error is answered with where it keeps a
/// request from starting: 404 for a model that is not configured, which is
/// the client's doing, and 500 for what went wrong in the engine.
pub open spec fn engine_error_status(error: EngineErrorView) -> u16 {
    match error {
        EngineErrorView::ModelUnavailable(_) => 404,
        EngineErrorView::ModelLoadFailed(_) => 500,
        EngineErrorView::GenerationFailed(_) => 500,
    }
}

impl EngineError {
    /// The sentence shown for this error.
    pub fn message(&self) -> (text: String)
        ensures
            text@ == engine_error_text(self@),
    {
        match self {
            EngineError::ModelUnavailable(selector) => {
                let mut text = join("Model '", selector.as_str());
                text.append("' not configured");
                text
            },
            EngineError::ModelLoadFailed(reason) => reason.clone(),
            EngineError::GenerationFailed(reason) => reason.clone(),
        }
    }

    /// The HTTP status this error is answered with where it keeps a request
    /// from starting.
    pub fn status(&self) -> (code: u16)
        ensures
            code == engine_error_status(self@),
    {
        match self {
            EngineError::ModelUnavailable(_) => 404,
            EngineError::ModelLoadFailed(_) => 500,
            EngineError::GenerationFailed(_) => 500,
        }
    }
}

/// Whether a client may call the model by this selector: it is the model's
/// canonical id or its display name, letter for letter.
pub open spec fn claims(model: ModelConfigView, selector: Seq<char>) -> bool {
    model.id == selector || model.name == selector
}

/// Index of the last configured model that answers to the selector, or -1.
/// Where two entries share a selector, the later one wins.
pub open spec fn last_claiming(configs: Seq<ModelConfigView>, selector: Seq<char>) -> int
    decreases configs.len(),
{
    if configs.len() == 0 {
        -1
    } else if claims(configs.last(), selector) {
        configs.len() - 1
    } else {
        last_claiming(configs.drop_last(), selector)
    }
}

/// Index of the last configured model with this canonical id, or -1.
pub open spec fn last_with_id(configs: Seq<ModelConfigView>, id: Seq<char>) -> int
    decreases configs.len(),
{
    if configs.len() == 0 {
        -1
    } else if configs.last().id == id {
        configs.len() - 1
    } else {
        last_with_id(configs.drop_last(), id)
    }
}

/// What a selector resolves to: the canonical id of the last entry that
/// answers to it, with the last entry configured under that id.
pub open spec fn resolution(configs: Seq<ModelConfigView>, selector: Seq<char>) -> Option<
    (Seq<char>, ModelConfigView),
> {
    let found = last_claiming(configs, selector);
    if found < 0 {
        None
    } else {
        Some((configs[found].id, configs[last_with_id(configs, configs[found].id)]))
    }
}

/// `last_claiming` is the greatest index that answers to the selector.
pub proof fn lemma_last_claiming(configs: Seq<ModelConfigView>, selector: Seq<char>)
    ensures
        -1 <= last_claiming(configs, selector) < configs.len(),
        last_claiming(configs, selector) >= 0 ==> claims(
            configs[last_claiming(configs, selector)],
            selector,
        ),
        forall|k: int|
            last_claiming(configs, selector) < k < configs.len() ==> !claims(
                #[trigger] configs[k],
                selector,
            ),
    decreases configs.len(),
{
    if configs.len() > 0 && !claims(configs.last(), selector) {
        let shorter = configs.drop_last();
        lemma_last_claiming(shorter, selector);
        assert forall|k: int| last_claiming(configs, selector) < k < configs.len() implies !claims(
            #[trigger] configs[k],
            selector,
        ) by {
            if k < shorter.len() {
                assert(shorter[k] == configs[k]);
            }
        }
    }
}

/// `last_with_id` is the greatest index configured under the id.
pub proof fn lemma_last_with_id(configs: Seq<ModelConfigView>, id: Seq<char>)
    ensures
        -1 <= last_with_id(configs, id) < configs.len(),
        last_with_id(configs, id) >= 0 ==> configs[last_with_id(configs, id)].id == id,
        forall|k: int|
            last_with_id(configs, id) < k < configs.len() ==> (#[trigger] configs[k]).id != id,
    decreases configs.len(),
{
    if configs.len() > 0 && configs.last().id != id {
        let shorter = configs.drop_last();
        lemma_last_with_id(shorter, id);
        assert forall|k: int| last_with_id(configs, id) < k < configs.len() implies (
        #[trigger] configs[k]).id != id by {
            if k < shorter.len() {
                assert(shorter[k] == configs[k]);
            }
        }
    }
}

/// An index that answers to the selector, with none after it, is
/// `last_claiming`.
pub proof fn lemma_last_claiming_at(configs: Seq<ModelConfigView>, selector: Seq<char>, at: int)
    requires
        -1 <= at < configs.len(),
        at >= 0 ==> claims(configs[at], selector),
        forall|k: int| at < k < configs.len() ==> !claims(#[trigger] configs[k], selector),
    ensures
        last_claiming(configs, selector) == at,
{
    lemma_last_claiming(configs, selector);
}

/// An index configured under the id, with none after it, is `last_with_id`.
pub proof fn lemma_last_with_id_at(configs: Seq<ModelConfigView>, id: Seq<char>, at: int)
    requires
        -1 <= at < configs.len(),
        at >= 0 ==> configs[at].id == id,
        forall|k: int| at < k < configs.len() ==> (#[trigger] configs[k]).id != id,
    ensures
        last_with_id(configs, id) == at,
{
    lemma_last_with_id(configs, id);
}

/// Index of the last entry that answers to the selector, if any.
pub fn find_last_claiming(configs: &Vec<ModelConfig>, selector: &str) -> (found: Option<usize>)
    ensures
        match found {
            Some(at) => at < configs.len() && at as int == last_claiming(
                configs.deep_view(),
                selector@,
            ),
            None => last_claiming(configs.deep_view(), selector@) == -1,
        },
{
    let mut i: usize = configs.len();
    while i > 0
        invariant
            i <= configs.len(),
            forall|k: int|
                i <= k < configs.len() ==> !claims(#[trigger] configs.deep_view()[k], selector@),
        decreases i,
    {
        i -= 1;
        let entry = &configs[i];
        assert(configs.deep_view()[i as int] == entry@);
        if str_eq(entry.id.as_str(), selector) || str_eq(entry.name.as_str(), selector) {
            proof {
                lemma_last_claiming_at(configs.deep_view(), selector@, i as int);
            }
            return Some(i);
        }
    }
    proof {
        lemma_last_claiming_at(configs.deep_view(), selector@, -1);
    }
    None
}

/// Index of the last entry configured under the id, if any.
pub fn find_last_with_id(configs: &Vec<ModelConfig>, id: &str) -> (found: Option<usize>)
    ensures
        match found {
            Some(at) => at < configs.len() && at as int == last_with_id(configs.deep_view(), id@),
            None => last_with_id(configs.deep_view(), id@) == -1,
        },
{
    let mut i: usize = configs.len();
    while i > 0
        invariant
            i <= configs.len(),
            forall|k: int| i <= k < configs.len() ==> (#[trigger] configs.deep_view()[k]).id != id@,
        decreases i,
    {
        i -= 1;
        let entry = &configs[i];
        assert(configs.deep_view()[i as int] == entry@);
        if str_eq(entry.id.as_str(), id) {
            proof {
                lemma_last_with_id_at(configs.deep_view(), id@, i as int);
            }
            return Some(i);
        }
    }
    proof {
        lemma_last_with_id_at(configs.deep_view(), id@, -1);
    }
    None
}

/// What a model is loaded from: its path where one is configured, its
/// display name otherwise.
pub open spec fn model_source(model: ModelConfigView) -> Seq<char> {
    match model.path {
        Some(path) => path,
        None => model.name,
    }
}

/// What the model is loaded from.
pub fn model_identifier(model: &ModelConfig) -> (source: String)
    ensures
        source@ == model_source(model@),
{
    match &model.path {
        Some(path) => path.clone(),
        None => model.name.clone(),
    }
}

/// Where a model can be placed.
#[derive(Debug, Clone, Copy, PartialEq, Eq, Structural)]
pub enum DeviceKind {
    Cuda,
    Metal,
    Cpu,
}

/// The device a lowercase name stands for: `cuda`, `metal`, and the
/// processor for every other name.
pub open spec fn device_named(lowered: Seq<char>) -> DeviceKind {
    if lowered == "cuda"@ {
        DeviceKind::Cuda
    } else if lowered == "metal"@ {
        DeviceKind::Metal
    } else {
        DeviceKind::Cpu
    }
}

/// The device a name in lowercase stands for.
pub fn device_from_lowercase(lowered: &str) -> (device: DeviceKind)
    ensures
        device == device_named(lowered@),
{
    if str_eq(lowered, "cuda") {
        DeviceKind::Cuda
    } else if str_eq(lowered, "metal") {
        DeviceKind::Metal
    } else {
        DeviceKind::Cpu
    }
}

/// The device a name stands for, whatever its case.
pub fn parse_device(name: &str) -> (device: DeviceKind)
    ensures
        device == device_named(lowercase_of(name@)),
{
    let lowered = lowercase(name);
    device_from_lowercase(lowered.as_str())
}

/// The device a model is placed on: the one asked for where it is at hand,
/// the processor otherwise.
pub fn select_device(requested: DeviceKind, at_hand: bool) -> (device: DeviceKind)
    ensures
        device == if at_hand {
            requested
        } else {
            DeviceKind::Cpu
        },
{
    if at_hand {
        requested
    } else {
        DeviceKind::Cpu
    }
}

/// Who speaks in a message, as an engine is told.
#[derive(Debug, Clone, Copy, PartialEq, Eq, Structural)]
pub enum MessageRole {
    User,
    Assistant,
    System,
}

/// The speaker a lowercase role stands for; an unknown role is the user.
pub open spec fn role_named(lowered: Seq<char>) -> MessageRole {
    if lowered == "assistant"@ {
        MessageRole::Assistant
    } else if lowered == "system"@ {
        MessageRole::System
    } else {
        MessageRole::User
    }
}

/// The speaker a role in lowercase stands for.
pub fn role_from_lowercase(lowered: &str) -> (role: MessageRole)
    ensures
        role == role_named(lowered@),
{
    if str_eq(lowered, "assistant") {
        MessageRole::Assistant
    } else if str_eq(lowered, "system") {
        MessageRole::System
    } else {
        MessageRole::User
    }
}

/// The speaker a role stands for, whatever its case.
pub fn parse_role(role: &str) -> (speaker: MessageRole)
    ensures
        speaker == role_named(lowercase_of(role@)),
{
    let lowered = lowercase(role);
    role_from_lowercase(lowered.as_str())
}

/// How the sampler of a request is set up.
#[derive(Debug, Clone, Copy, PartialEq, Eq, Structural)]
pub struct SamplingPlan {
    /// Most tokens to generate.
    pub max_len: usize,
    /// The top-k cut, where one applies.
    pub top_k: Option<usize>,
    /// Whether the top-p cut applies.
    pub use_top_p: bool,
    /// Whether the repeat penalty applies, which replaces the whole sampler.
    pub use_repeat_penalty: bool,
    /// Whether stop sequences are set.
    pub use_stop: bool,
}

/// The sampler set-up of a request: a top-k cut for a positive `top_k`, a
/// top-p cut where the value lies in range, a repeat penalty unless it is
/// neutral, and stop sequences where there are any.
pub open spec fn sampling_plan(
    max_token: usize,
    top_k: i32,
    top_p_in_range: bool,
    repeat_penalty_is_neutral: bool,
    stop_count: usize,
) -> SamplingPlan {
    SamplingPlan {
        max_len: max_token,
        top_k: if top_k > 0 {
            Some(top_k as usize)
        } else {
            None
        },
        use_top_p: top_p_in_range,
        use_repeat_penalty: !repeat_penalty_is_neutral,
        use_stop: stop_count > 0,
    }
}

/// Decides how the sampler of a request is set up.
pub fn plan_sampling(
    max_token: usize,
    top_k: i32,
    top_p_in_range: bool,
    repeat_penalty_is_neutral: bool,
    stop_count: usize,
) -> (plan: SamplingPlan)
    ensures
        plan == sampling_plan(max_token, top_k, top_p_in_range, repeat_penalty_is_neutral, stop_count),
{
    SamplingPlan {
        max_len: max_token,
        top_k: if top_k > 0 {
            Some(top_k as usize)
        } else {
            None
        },
        use_top_p: top_p_in_range,
        use_repeat_penalty: !repeat_penalty_is_neutral,
        use_stop: stop_count > 0,
    }
}

/// What is to be done to have a model at hand.
pub enum LoadPlan<'a, M> {
    /// The model is warm: this is it.
    Cached(&'a M),
    /// The model is to be built and then handed to
    /// [`M1EngineAdapter::cache_model`].
    Build {
        /// The canonical id the model is cached under.
        canonical_id: String,
        /// What the model is loaded from.
        source: String,
        /// The device that was asked for.
        device: DeviceKind,
    },
}

/// The configured models and the warm instance of each model that has been
/// loaded. `M` is the handle of a loaded model.
pub struct M1EngineAdapter<M> {
    models: TextMap<M>,
    model_configs: Vec<ModelConfig>,
}

impl<M> M1EngineAdapter<M> {
    /// The adapter is well formed: every warm model is kept under the
    /// canonical id of a configured model.
    pub closed spec fn wf(self) -> bool {
        &&& self.models.wf()
        &&& forall|id: Seq<char>| #[trigger]
            self.models@.dom().contains(id) ==> is_canonical_id(self.model_configs.deep_view(), id)
    }

    /// No model is warm under anything but the canonical id of a configured
    /// model.
    pub proof fn lemma_cache_is_keyed_by_canonical_ids(self, id: Seq<char>)
        requires
            self.wf(),
            self.cache().dom().contains(id),
        ensures
            is_canonical_id(self.configs(), id),
    {
    }

    /// The configured models, in the order of the configuration.
    pub closed spec fn configs(self) -> Seq<ModelConfigView> {
        self.model_configs.deep_view()
    }

    /// The warm models, by canonical id.
    pub closed spec fn cache(self) -> Map<Seq<char>, M> {
        self.models@
    }

    /// An adapter for the configured models, with nothing loaded.
    pub fn new(configs: Vec<ModelConfig>) -> (adapter: Self)
        ensures
            adapter.wf(),
            adapter.configs() == configs.deep_view(),
            adapter.cache() == Map::<Seq<char>, M>::empty(),
    {
        M1EngineAdapter { models: TextMap::new(), model_configs: configs }
    }

    /// The display names of the configured models, in order.
    pub fn get_available_models(&self) -> (names: Vec<String>)
        ensures
            names.deep_view() == display_names(self.configs()),
    {
        let mut names: Vec<String> = Vec::new();
        let mut i: usize = 0;
        while i < self.model_configs.len()
            invariant
                i <= self.model_configs.len(),
                names.len() == i,
                forall|k: int| 0 <= k < i ==> (#[trigger] names[k])@ == self.model_configs[k].name@,
            decreases self.model_configs.len() - i,
        {
            names.push(self.model_configs[i].name.clone());
            i += 1;
        }
        assert(names.deep_view() =~= display_names(self.configs()));
        names
    }

    /// Resolves what a client calls a model, its canonical id or its
    /// display name, to the canonical id and the configuration.
    pub fn resolve_model(&self, model_id: &str) -> (resolved: Result<(String, ModelConfig), EngineError>)
        ensures
            match resolved {
                Ok((canonical_id, config)) => resolution(self.configs(), model_id@) == Some(
                    (canonical_id@, config@),
                ),
                Err(error) => resolution(self.configs(), model_id@) is None && error@
                    == EngineErrorView::ModelUnavailable(model_id@),
            },
    {
        match find_last_claiming(&self.model_configs, model_id) {
            Some(found) => {
                let canonical_id = self.model_configs[found].id.clone();
                assert(self.model_configs.deep_view()[found as int] == self.model_configs[found as int]@);
                match find_last_with_id(&self.model_configs, canonical_id.as_str()) {
                    Some(at) => {
                        assert(self.model_configs.deep_view()[at as int] == self.model_configs[at as int]@);
                        Ok((canonical_id, self.model_configs[at].clone()))
                    },
                    None => {
                        proof {
                            lemma_last_with_id(self.configs(), canonical_id@);
                        }
                        Err(EngineError::ModelUnavailable(model_id.to_owned()))
                    },
                }
            },
            None => Err(EngineError::ModelUnavailable(model_id.to_owned())),
        }
    }

    /// Whether some model is configured under this canonical id.
    pub fn is_configured(&self, canonical_id: &str) -> (configured: bool)
        ensures
            configured == is_canonical_id(self.configs(), canonical_id@),
    {
        find_last_with_id(&self.model_configs, canonical_id).is_some()
    }

    /// The warm instance of the model, if it has been loaded.
    pub fn cached_model(&self, canonical_id: &str) -> (model: Option<&M>)
        requires
            self.wf(),
        ensures
            match model {
                Some(warm) => self.cache().dom().contains(canonical_id@) && *warm == self.cache()[canonical_id@],
                None => !self.cache().dom().contains(canonical_id@),
            },
    {
        self.models.get(canonical_id)
    }

    /// Keeps the model that was built as the warm instance of the canonical
    /// id, which is the id of a configured model. A model that was cached
    /// under the id in the meantime gives way: from here on every request
    /// is handed the one given.
    pub fn cache_model(&mut self, canonical_id: String, model: M)
        requires
            old(self).wf(),
            is_canonical_id(old(self).configs(), canonical_id@),
        ensures
            final(self).wf(),
            final(self).configs() == old(self).configs(),
            final(self).cache() == old(self).cache().insert(canonical_id@, model),
    {
        let _ = self.models.insert(canonical_id, model);
    }

    /// Decides what is to be done to have the model at hand: nothing where
    /// it is warm, and a build from its source otherwise.
    pub fn plan_load(&self, model_id: &str, device: &str) -> (plan: Result<
        LoadPlan<'_, M>,
        EngineError,
    >)
        requires
            self.wf(),
        ensures
            match plan {
                Ok(LoadPlan::Cached(warm)) => {
                    &&& resolution(self.configs(), model_id@) is Some
                    &&& self.cache().dom().contains(canonical_id_of(self.configs(), model_id@))
                    &&& *warm == self.cache()[canonical_id_of(self.configs(), model_id@)]
                },
                Ok(LoadPlan::Build { canonical_id, source, device: wanted }) => {
                    &&& resolution(self.configs(), model_id@) is Some
                    &&& canonical_id@ == canonical_id_of(self.configs(), model_id@)
                    &&& is_canonical_id(self.configs(), canonical_id@)
                    &&& !self.cache().dom().contains(canonical_id@)
                    &&& source@ == model_source(config_of(self.configs(), model_id@))
                    &&& wanted == device_named(lowercase_of(device@))
                },
                Err(error) => resolution(self.configs(), model_id@) is None && error@
                    == EngineErrorView::ModelUnavailable(model_id@),
            },
    {
        match self.resolve_model(model_id) {
            Ok((canonical_id, config)) => {
                proof {
                    lemma_resolved_id_is_canonical(self.configs(), model_id@);
                }
                match self.models.get(canonical_id.as_str()) {
                    Some(warm) => Ok(LoadPlan::Cached(warm)),
                    None => Ok(
                        LoadPlan::Build {
                            canonical_id,
                            source: model_identifier(&config),
                            device: parse_device(device),
                        },
                    ),
                }
            },
            Err(error) => Err(error),
        }
    }
}

/// Whether some model is configured under this canonical id.
pub open spec fn is_canonical_id(configs: Seq<ModelConfigView>, id: Seq<char>) -> bool {
    last_with_id(configs, id) >= 0
}

/// What a selector resolves to is the canonical id of a configured model.
pub proof fn lemma_resolved_id_is_canonical(configs: Seq<ModelConfigView>, selector: Seq<char>)
    requires
        resolution(configs, selector) is Some,
    ensures
        is_canonical_id(configs, canonical_id_of(configs, selector)),
{
    lemma_last_claiming(configs, selector);
    lemma_last_with_id(configs, canonical_id_of(configs, selector));
    assert(configs[last_claiming(configs, selector)].id == canonical_id_of(configs, selector));
}

/// The canonical id a selector resolves to, where it resolves.
pub open spec fn canonical_id_of(configs: Seq<ModelConfigView>, selector: Seq<char>) -> Seq<char> {
    configs[last_claiming(configs, selector)].id
}

/// The configuration a selector resolves to, where it resolves.
pub open spec fn config_of(configs: Seq<ModelConfigView>, selector: Seq<char>) -> ModelConfigView {
    configs[last_with_id(configs, canonical_id_of(configs, selector))]
}

/// The display names of the models, in order.
pub open spec fn display_names(configs: Seq<ModelConfigView>) -> Seq<Seq<char>> {
    Seq::new(configs.len(), |i: int| configs[i].name)
}

/// Whether the entry at `at` keeps its two selectors to itself: every entry
/// that answers to its id or to its display name is configured under the
/// same canonical id.
pub open spec fn selectors_unshared(configs: Seq<ModelConfigView>, at: int) -> bool {
    forall|k: int|
        0 <= k < configs.len() && (claims(#[trigger] configs[k], configs[at].id) || claims(
            configs[k],
            configs[at].name,
        )) ==> configs[k].id == configs[at].id
}

/// Every configured model can be reached by its canonical id and by its
/// display name: both resolve, each to the canonical id of some configured
/// model and to a configuration under that id.
pub proof fn lemma_configured_selectors_resolve(configs: Seq<ModelConfigView>, at: int)
    requires
        0 <= at < configs.len(),
    ensures
        resolution(configs, configs[at].id) is Some,
        resolution(configs, configs[at].name) is Some,
        config_of(configs, configs[at].id).id == canonical_id_of(configs, configs[at].id),
        config_of(configs, configs[at].name).id == canonical_id_of(configs, configs[at].name),
{
    let by_id = configs[at].id;
    let by_name = configs[at].name;
    lemma_last_claiming(configs, by_id);
    lemma_last_claiming(configs, by_name);
    assert(claims(configs[at], by_id));
    assert(claims(configs[at], by_name));
    lemma_last_with_id(configs, canonical_id_of(configs, by_id));
    lemma_last_with_id(configs, canonical_id_of(configs, by_name));
    assert(configs[last_claiming(configs, by_id)].id == canonical_id_of(configs, by_id));
    assert(configs[last_claiming(configs, by_name)].id == canonical_id_of(configs, by_name));
}

/// A configured model whose selectors are not shared with a model of
/// another id resolves alike by its canonical id and by its display name:
/// to its own canonical id, and to one and the same configuration.
pub proof fn lemma_id_and_name_resolve_alike(configs: Seq<ModelConfigView>, at: int)
    requires
        0 <= at < configs.len(),
        selectors_unshared(configs, at),
    ensures
        resolution(configs, configs[at].id) is Some,
        resolution(configs, configs[at].name) == resolution(configs, configs[at].id),
        canonical_id_of(configs, configs[at].id) == configs[at].id,
        canonical_id_of(configs, configs[at].name) == configs[at].id,
{
    lemma_configured_selectors_resolve(configs, at);
    let by_id = configs[at].id;
    let by_name = configs[at].name;
    lemma_last_claiming(configs, by_id);
    lemma_last_claiming(configs, by_name);
    let first = last_claiming(configs, by_id);
    let second = last_claiming(configs, by_name);
    assert(claims(configs[at], by_id));
    assert(claims(configs[at], by_name));
    assert(claims(configs[first], by_id));
    assert(claims(configs[second], by_name));
}

/// The cache after the models built by racing requests for one canonical
/// id have been handed in, in the order in which they arrive.
pub open spec fn cache_after_builds<M>(cache: Map<Seq<char>, M>, id: Seq<char>, built: Seq<M>) -> Map<
    Seq<char>,
    M,
>
    decreases built.len(),
{
    if built.len() == 0 {
        cache
    } else {
        cache_after_builds(cache, id, built.drop_last()).insert(id, built.last())
    }
}

/// However many requests built the same model at once, the cache settles on
/// one instance: the last one handed in. The others are dropped from the
/// cache, and no other model is touched.
pub proof fn lemma_racing_builds_converge<M>(cache: Map<Seq<char>, M>, id: Seq<char>, built: Seq<M>)
    requires
        built.len() > 0,
    ensures
        cache_after_builds(cache, id, built) == cache.insert(id, built.last()),
    decreases built.len(),
{
    if built.len() > 1 {
        lemma_racing_builds_converge(cache, id, built.drop_last());
        assert(cache.insert(id, built.drop_last().last()).insert(id, built.last()) =~= cache.insert(
            id,
            built.last(),
        ));
    } else {
        assert(built.drop_last().len() == 0);
        assert(cache_after_builds(cache, id, built.drop_last()) == cache);
    }
}

} // verus!
