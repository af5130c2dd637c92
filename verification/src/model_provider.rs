//! Which model a session asks, how a request to it is authorised, and how a test of a model is
//! reported.

use crate::message_log::MessageRole;
use crate::observation_cas::agrees;
use crate::text::{
    after_prefix, blank, concat2, concat3, copy_optional, first_chars, join, joined,
    law_trimming_takes_off_the_whitespace_around, lemma_first_unique, lemma_single_spaced, limited,
    normalize_optional_string, normalized, occurs_at, optional_text, single_spaced, split_at_text,
    split_text, strip_prefix, text_equals, texts, trim, trimmed, white_space, words, words_of,
};
use vstd::prelude::*;

verus! {

/// The form of the requests that a provider is sent.
#[derive(Debug, PartialEq, Eq)]
pub enum WireApi {
    AnthropicMessages,
    OpenAiResponses,
    OpenAiChatCompletions,
    /// A form that is not spoken here, by its name.
    Other(String),
}

pub enum WireView {
    AnthropicMessages,
    OpenAiResponses,
    OpenAiChatCompletions,
    Other(Seq<char>),
}

impl View for WireApi {
    type V = WireView;

    open spec fn view(&self) -> WireView {
        match self {
            WireApi::AnthropicMessages => WireView::AnthropicMessages,
            WireApi::OpenAiResponses => WireView::OpenAiResponses,
            WireApi::OpenAiChatCompletions => WireView::OpenAiChatCompletions,
            WireApi::Other(name) => WireView::Other(name@),
        }
    }
}

fn copy_wire_api(api: &WireApi) -> (result: WireApi)
    ensures
        result@ == api@,
{
    match api {
        WireApi::AnthropicMessages => WireApi::AnthropicMessages,
        WireApi::OpenAiResponses => WireApi::OpenAiResponses,
        WireApi::OpenAiChatCompletions => WireApi::OpenAiChatCompletions,
        WireApi::Other(name) => WireApi::Other(name.clone()),
    }
}

/// The form of the requests that a user chose for a model.
#[derive(Clone, Copy, Debug, PartialEq, Eq, Structural)]
pub enum CustomModelProviderApi {
    OpenAiCompletions,
    OpenAiResponses,
    AnthropicMessages,
}

/// The form of the requests that a user chose for a model.
pub open spec fn wire_api_of(api: CustomModelProviderApi) -> WireView {
    match api {
        CustomModelProviderApi::OpenAiCompletions => WireView::OpenAiChatCompletions,
        CustomModelProviderApi::OpenAiResponses => WireView::OpenAiResponses,
        CustomModelProviderApi::AnthropicMessages => WireView::AnthropicMessages,
    }
}

/// The form of the requests that a user chose for a model.
pub fn model_wire_api_to_wire_api(api: CustomModelProviderApi) -> (result: WireApi)
    ensures
        result@ == wire_api_of(api),
{
    match api {
        CustomModelProviderApi::OpenAiCompletions => WireApi::OpenAiChatCompletions,
        CustomModelProviderApi::OpenAiResponses => WireApi::OpenAiResponses,
        CustomModelProviderApi::AnthropicMessages => WireApi::AnthropicMessages,
    }
}

/// How requests to a provider are authorised.
#[derive(Debug, PartialEq, Eq)]
pub enum AuthSpec {
    /// By a key from the environment, in a header of its own.
    ApiKeyEnv { source: String, header_name: String, prefix: Option<String> },
    /// By a bearer token from the environment.
    BearerEnv { source: String },
    /// By a fixed header.
    StaticHeader { header_name: String, value: String },
    /// By a token that a command prints.
    CommandToken { source: String, header_name: String, prefix: Option<String> },
    /// Not at all.
    Anonymous,
}

pub enum AuthView {
    ApiKeyEnv { source: Seq<char>, header: Seq<char>, prefix: Option<Seq<char>> },
    BearerEnv { source: Seq<char> },
    StaticHeader { header: Seq<char>, value: Seq<char> },
    CommandToken { source: Seq<char>, header: Seq<char>, prefix: Option<Seq<char>> },
    Anonymous,
}

impl View for AuthSpec {
    type V = AuthView;

    open spec fn view(&self) -> AuthView {
        match self {
            AuthSpec::ApiKeyEnv { source, header_name, prefix } => AuthView::ApiKeyEnv {
                source: source@,
                header: header_name@,
                prefix: optional_text(*prefix),
            },
            AuthSpec::BearerEnv { source } => AuthView::BearerEnv { source: source@ },
            AuthSpec::StaticHeader { header_name, value } => AuthView::StaticHeader {
                header: header_name@,
                value: value@,
            },
            AuthSpec::CommandToken { source, header_name, prefix } => AuthView::CommandToken {
                source: source@,
                header: header_name@,
                prefix: optional_text(*prefix),
            },
            AuthSpec::Anonymous => AuthView::Anonymous,
        }
    }
}

/// A secret behind its prefix.
pub open spec fn prefixed(value: Seq<char>, prefix: Option<Seq<char>>) -> Seq<char> {
    match normalized(prefix) {
        Some(prefix) => prefix + " "@ + trimmed(value),
        None => trimmed(value),
    }
}

/// A secret behind its prefix.
pub fn apply_auth_prefix(value: &str, prefix: &Option<String>) -> (result: String)
    ensures
        result@ == prefixed(value@, optional_text(*prefix)),
{
    match normalize_optional_string(prefix) {
        Some(prefix) => concat3(prefix.as_str(), " ", trim(value)),
        None => trim(value).to_owned(),
    }
}

/// How requests are authorised with a key that the user gave.
pub open spec fn authorised(source: AuthView, key: Seq<char>) -> AuthView {
    match source {
        AuthView::ApiKeyEnv { source: _, header, prefix } => AuthView::StaticHeader {
            header,
            value: prefixed(key, prefix),
        },
        AuthView::BearerEnv { source: _ } => AuthView::StaticHeader {
            header: "authorization"@,
            value: "Bearer "@ + trimmed(key),
        },
        AuthView::Anonymous => AuthView::StaticHeader {
            header: "authorization"@,
            value: "Bearer "@ + trimmed(key),
        },
        AuthView::StaticHeader { header, value: _ } => AuthView::StaticHeader {
            header,
            value: trimmed(key),
        },
        AuthView::CommandToken { source: _, header, prefix } => AuthView::StaticHeader {
            header,
            value: prefixed(key, prefix),
        },
    }
}

/// How requests are authorised with a key that the user gave.
pub fn auth_spec_with_model_api_key(source: &AuthSpec, model_api_key: &str) -> (result: AuthSpec)
    ensures
        result@ == authorised(source@, model_api_key@),
{
    match source {
        AuthSpec::ApiKeyEnv { source: _, header_name, prefix } => AuthSpec::StaticHeader {
            header_name: header_name.clone(),
            value: apply_auth_prefix(model_api_key, prefix),
        },
        AuthSpec::BearerEnv { source: _ } => bearer(model_api_key),
        AuthSpec::Anonymous => bearer(model_api_key),
        AuthSpec::StaticHeader { header_name, value: _ } => AuthSpec::StaticHeader {
            header_name: header_name.clone(),
            value: trim(model_api_key).to_owned(),
        },
        AuthSpec::CommandToken { source: _, header_name, prefix } => AuthSpec::StaticHeader {
            header_name: header_name.clone(),
            value: apply_auth_prefix(model_api_key, prefix),
        },
    }
}

fn bearer(key: &str) -> (result: AuthSpec)
    ensures
        result@ == (AuthView::StaticHeader {
            header: "authorization"@,
            value: "Bearer "@ + trimmed(key@),
        }),
{
    AuthSpec::StaticHeader {
        header_name: "authorization".to_owned(),
        value: concat2("Bearer ", trim(key)),
    }
}

/// With a key that the user gave, requests are authorised by a fixed header whatever they were
/// authorised by before, and the header keeps its name where it had one.
pub proof fn law_keys_become_headers(source: AuthView, key: Seq<char>)
    ensures
        authorised(source, key) is StaticHeader,
        match source {
            AuthView::ApiKeyEnv { source: _, header, prefix: _ } => authorised(
                source,
                key,
            )->StaticHeader_header == header,
            AuthView::StaticHeader { header, value: _ } => authorised(
                source,
                key,
            )->StaticHeader_header == header,
            AuthView::CommandToken { source: _, header, prefix: _ } => authorised(
                source,
                key,
            )->StaticHeader_header == header,
            _ => authorised(source, key)->StaticHeader_header == "authorization"@,
        },
        authorised(authorised(source, key), key) is StaticHeader,
{
}

/// What kind of provider a provider is.
#[derive(Debug, PartialEq, Eq)]
pub enum ModelProviderKind {
    Custom,
    BuiltIn(String),
}

pub enum KindView {
    Custom,
    BuiltIn(Seq<char>),
}

impl View for ModelProviderKind {
    type V = KindView;

    open spec fn view(&self) -> KindView {
        match self {
            ModelProviderKind::Custom => KindView::Custom,
            ModelProviderKind::BuiltIn(name) => KindView::BuiltIn(name@),
        }
    }
}

fn copy_kind(kind: &ModelProviderKind) -> (result: ModelProviderKind)
    ensures
        result@ == kind@,
{
    match kind {
        ModelProviderKind::Custom => ModelProviderKind::Custom,
        ModelProviderKind::BuiltIn(name) => ModelProviderKind::BuiltIn(name.clone()),
    }
}

/// How long a request may take and how often it is repeated, where nothing else is set.
#[derive(Clone, Copy, Debug, PartialEq, Eq, Structural)]
pub struct RequestDefaults {
    pub timeout_ms: u64,
    pub max_retries: u32,
    pub retry_backoff_ms: u64,
}

/// A provider of models.
#[derive(Debug)]
pub struct ModelProviderInfo {
    pub provider_key: String,
    pub name: String,
    pub provider_kind: ModelProviderKind,
    pub wire_api: WireApi,
    pub auth: AuthSpec,
    pub http_headers: Vec<(String, String)>,
    pub defaults: Option<RequestDefaults>,
    pub supports_streaming: bool,
    pub supports_tool_calls: bool,
    pub supports_vision: bool,
}

pub struct ProviderView {
    pub key: Seq<char>,
    pub name: Seq<char>,
    pub kind: KindView,
    pub wire_api: WireView,
    pub auth: AuthView,
    pub headers: Seq<(Seq<char>, Seq<char>)>,
    pub defaults: Option<RequestDefaults>,
    pub streams: bool,
    pub calls_tools: bool,
    pub sees: bool,
}

pub open spec fn header_views(headers: Seq<(String, String)>) -> Seq<(Seq<char>, Seq<char>)> {
    Seq::new(headers.len(), |i: int| (headers[i].0@, headers[i].1@))
}

impl View for ModelProviderInfo {
    type V = ProviderView;

    open spec fn view(&self) -> ProviderView {
        ProviderView {
            key: self.provider_key@,
            name: self.name@,
            kind: self.provider_kind@,
            wire_api: self.wire_api@,
            auth: self.auth@,
            headers: header_views(self.http_headers@),
            defaults: self.defaults,
            streams: self.supports_streaming,
            calls_tools: self.supports_tool_calls,
            sees: self.supports_vision,
        }
    }
}

/// How requests to a provider of the user's own are authorised.
pub open spec fn custom_auth(api: CustomModelProviderApi, key: Option<Seq<char>>) -> AuthView {
    match key {
        None => AuthView::Anonymous,
        Some(key) => match api {
            CustomModelProviderApi::AnthropicMessages => AuthView::StaticHeader {
                header: "x-api-key"@,
                value: trimmed(key),
            },
            _ => AuthView::StaticHeader {
                header: "authorization"@,
                value: "Bearer "@ + trimmed(key),
            },
        },
    }
}

/// A provider of the user's own.
pub open spec fn custom_provider(
    id: Seq<char>,
    api: CustomModelProviderApi,
    key: Option<Seq<char>>,
    sees: bool,
    defaults: RequestDefaults,
) -> ProviderView {
    ProviderView {
        key: id,
        name: id,
        kind: KindView::Custom,
        wire_api: wire_api_of(api),
        auth: custom_auth(api, key),
        headers: if api == CustomModelProviderApi::AnthropicMessages {
            seq![("anthropic-version"@, "2023-06-01"@)]
        } else {
            Seq::empty()
        },
        defaults: Some(defaults),
        streams: true,
        calls_tools: true,
        sees,
    }
}

/// A provider of the user's own.
pub fn custom_model_provider_info(
    provider_id: &str,
    api: CustomModelProviderApi,
    api_key: &Option<String>,
    supports_vision: bool,
    defaults: RequestDefaults,
) -> (result: ModelProviderInfo)
    ensures
        result@ == custom_provider(
            provider_id@,
            api,
            optional_text(*api_key),
            supports_vision,
            defaults,
        ),
{
    let mut http_headers: Vec<(String, String)> = Vec::new();
    let auth = match api {
        CustomModelProviderApi::AnthropicMessages => {
            http_headers.push(("anthropic-version".to_owned(), "2023-06-01".to_owned()));
            match api_key {
                Some(key) => AuthSpec::StaticHeader {
                    header_name: "x-api-key".to_owned(),
                    value: trim(key.as_str()).to_owned(),
                },
                None => AuthSpec::Anonymous,
            }
        },
        _ => match api_key {
            Some(key) => bearer(key.as_str()),
            None => AuthSpec::Anonymous,
        },
    };
    let result = ModelProviderInfo {
        provider_key: provider_id.to_owned(),
        name: provider_id.to_owned(),
        provider_kind: ModelProviderKind::Custom,
        wire_api: model_wire_api_to_wire_api(api),
        auth,
        http_headers,
        defaults: Some(defaults),
        supports_streaming: true,
        supports_tool_calls: true,
        supports_vision,
    };
    assert(result@.headers =~= custom_provider(
        provider_id@,
        api,
        optional_text(*api_key),
        supports_vision,
        defaults,
    ).headers);
    result
}

/// A model that can be chosen.
#[derive(Debug)]
pub struct CatalogModel {
    pub provider_id: String,
    pub model: String,
    pub built_in: bool,
    pub model_api: Option<CustomModelProviderApi>,
    pub supports_vision: bool,
    pub diagnostic: Option<String>,
    pub model_max_output_tokens: Option<u64>,
    pub model_api_base: Option<String>,
    pub model_thinking_mode: Option<String>,
}

/// What the user has configured about models.
#[derive(Debug)]
pub struct ModelSettings {
    pub model_provider_id: Option<String>,
    pub model: Option<String>,
    pub model_thinking_mode: Option<String>,
    pub models: Vec<CatalogModel>,
}

/// The place of the first model of a provider with a name, or the number of models.
pub open spec fn model_place(
    models: Seq<CatalogModel>,
    provider: Seq<char>,
    model: Seq<char>,
) -> nat
    decreases models.len(),
{
    if models.len() == 0 {
        0
    } else if models[0].provider_id@ == provider && models[0].model@ == model {
        0
    } else {
        1 + model_place(models.subrange(1, models.len() as int), provider, model)
    }
}

/// The first model of a provider with a name.
pub open spec fn model_named(
    models: Seq<CatalogModel>,
    provider: Seq<char>,
    model: Seq<char>,
) -> Option<CatalogModel> {
    let place = model_place(models, provider, model);
    if place < models.len() {
        Some(models[place as int])
    } else {
        None
    }
}

proof fn lemma_model_place(
    models: Seq<CatalogModel>,
    provider: Seq<char>,
    model: Seq<char>,
    at: nat,
)
    requires
        at <= models.len(),
        forall|j: int|
            0 <= j < at ==> !((#[trigger] models[j]).provider_id@ == provider && models[j].model@
                == model),
        at < models.len() ==> models[at as int].provider_id@ == provider && models[at as int].model@
            == model,
    ensures
        model_place(models, provider, model) == at,
    decreases models.len(),
{
    if models.len() > 0 && at > 0 {
        let rest = models.subrange(1, models.len() as int);
        assert forall|j: int| 0 <= j < at - 1 implies !((#[trigger] rest[j]).provider_id@
            == provider && rest[j].model@ == model) by {
            assert(rest[j] == models[j + 1]);
        }
        if at < models.len() {
            assert(rest[at - 1] == models[at as int]);
        }
        assert(!(models[0].provider_id@ == provider && models[0].model@ == model));
        lemma_model_place(rest, provider, model, (at - 1) as nat);
    }
}

/// The first model of a provider with a name.
pub fn find_model<'a>(models: &'a Vec<CatalogModel>, provider_id: &str, model: &str) -> (result:
    Option<&'a CatalogModel>)
    ensures
        match result {
            Some(found) => model_named(models@, provider_id@, model@) == Some(*found),
            None => model_named(models@, provider_id@, model@) == None::<CatalogModel>,
        },
{
    let mut i: usize = 0;
    while i < models.len()
        invariant
            i <= models.len(),
            forall|j: int|
                0 <= j < i ==> !((#[trigger] models@[j]).provider_id@ == provider_id@
                    && models@[j].model@ == model@),
        decreases models.len() - i,
    {
        if text_equals(models[i].provider_id.as_str(), provider_id) && text_equals(
            models[i].model.as_str(),
            model,
        ) {
            proof {
                lemma_model_place(models@, provider_id@, model@, i as nat);
            }
            return Some(&models[i]);
        }
        i = i + 1;
    }
    proof {
        lemma_model_place(models@, provider_id@, model@, i as nat);
    }
    None
}

pub const MODEL_NOT_CONFIGURED: &'static str =
    "global model is not configured; configure a model in Settings";

/// What is wrong with sending images to the model that the user chose.
pub open spec fn vision_error(settings: ModelSettings) -> Option<Seq<char>> {
    match (optional_text(settings.model_provider_id), optional_text(settings.model)) {
        (Some(provider), Some(model)) => match model_named(settings.models@, provider, model) {
            None => Some("selected model is unavailable"@),
            Some(item) => if item.supports_vision {
                None
            } else {
                Some(
                    "selected model does not support image input: providerId="@ + provider
                        + " model="@ + model,
                )
            },
        },
        _ => Some(MODEL_NOT_CONFIGURED@),
    }
}

/// Checks that the model that the user chose can be sent images.
pub fn ensure_selected_model_supports_vision(settings: &ModelSettings) -> (result: Result<
    (),
    String,
>)
    ensures
        match result {
            Ok(_) => vision_error(*settings) == None::<Seq<char>>,
            Err(message) => vision_error(*settings) == Some(message@),
        },
{
    let provider_id = match &settings.model_provider_id {
        Some(provider_id) => provider_id.as_str(),
        None => {
            return Err(MODEL_NOT_CONFIGURED.to_owned());
        },
    };
    let model = match &settings.model {
        Some(model) => model.as_str(),
        None => {
            return Err(MODEL_NOT_CONFIGURED.to_owned());
        },
    };
    match find_model(&settings.models, provider_id, model) {
        None => Err("selected model is unavailable".to_owned()),
        Some(item) => if item.supports_vision {
            Ok(())
        } else {
            let head = concat2(
                "selected model does not support image input: providerId=",
                provider_id,
            );
            Err(concat3(head.as_str(), " model=", model))
        },
    }
}

/// The text `head` followed by which provider and model it is about.
pub open spec fn about_model(head: Seq<char>, provider: Seq<char>, model: Seq<char>) -> Seq<char> {
    head + provider + " model="@ + model
}

fn name_model(head: &str, provider_id: &str, model: &str) -> (result: String)
    ensures
        result@ == about_model(head@, provider_id@, model@),
{
    concat3(concat2(head, provider_id).as_str(), " model=", model)
}

/// How a session asks its model.
#[derive(Debug)]
pub struct ModelSessionConfig {
    pub provider_kind: ModelProviderKind,
    pub provider_id: String,
    pub model: String,
    pub api_base: Option<String>,
    pub defaults: RequestDefaults,
    pub max_output_tokens: u64,
    pub thinking_mode: Option<String>,
}

pub struct ConfigView {
    pub kind: KindView,
    pub provider: Seq<char>,
    pub model: Seq<char>,
    pub api_base: Option<Seq<char>>,
    pub defaults: RequestDefaults,
    pub max_output_tokens: u64,
    pub thinking_mode: Option<Seq<char>>,
}

impl View for ModelSessionConfig {
    type V = ConfigView;

    open spec fn view(&self) -> ConfigView {
        ConfigView {
            kind: self.provider_kind@,
            provider: self.provider_id@,
            model: self.model@,
            api_base: optional_text(self.api_base),
            defaults: self.defaults,
            max_output_tokens: self.max_output_tokens,
            thinking_mode: optional_text(self.thinking_mode),
        }
    }
}

/// How a session asks its model, and the provider that is entered for it in place of the one that
/// is built in, if any.
#[derive(Debug)]
pub struct ModelSession {
    pub config: ModelSessionConfig,
    pub registered: Option<ModelProviderInfo>,
}

pub struct SessionView {
    pub config: ConfigView,
    pub registered: Option<ProviderView>,
}

pub open spec fn optional_provider(provider: Option<ModelProviderInfo>) -> Option<ProviderView> {
    match provider {
        Some(provider) => Some(provider@),
        None => None,
    }
}

impl View for ModelSession {
    type V = SessionView;

    open spec fn view(&self) -> SessionView {
        SessionView { config: self.config@, registered: optional_provider(self.registered) }
    }
}

pub open spec fn read_key(key: Result<Option<String>, String>) -> Result<
    Option<Seq<char>>,
    Seq<char>,
> {
    match key {
        Ok(key) => Ok(optional_text(key)),
        Err(error) => Err(error@),
    }
}

/// The provider of a model, before a key that the user gave is taken into it.
pub open spec fn chosen_provider(
    item: CatalogModel,
    provider: Seq<char>,
    model: Seq<char>,
    key: Option<Seq<char>>,
    built_in: Option<ProviderView>,
    defaults: RequestDefaults,
) -> Result<ProviderView, Seq<char>> {
    if item.built_in {
        match built_in {
            None => Err("unknown model provider: "@ + provider),
            Some(found) => match item.model_api {
                Some(api) => Ok(ProviderView { wire_api: wire_api_of(api), ..found }),
                None => Ok(found),
            },
        }
    } else {
        match item.model_api {
            None => Err(about_model("custom model API is missing: providerId="@, provider, model)),
            Some(api) => Ok(custom_provider(provider, api, key, item.supports_vision, defaults)),
        }
    }
}

/// The provider that is entered for a session.
pub open spec fn registered_provider(
    built_in: bool,
    provider: ProviderView,
    key: Option<Seq<char>>,
) -> Option<ProviderView> {
    if !built_in {
        Some(provider)
    } else {
        match key {
            Some(key) => Some(ProviderView { auth: authorised(provider.auth, key), ..provider }),
            None => None,
        }
    }
}

/// How a session asks a model of a provider, with the key that was read for the provider and the
/// provider that is built in under its name.
pub open spec fn model_session(
    settings: ModelSettings,
    provider_id: Seq<char>,
    model: Seq<char>,
    key: Result<Option<Seq<char>>, Seq<char>>,
    built_in: Option<ProviderView>,
    defaults: RequestDefaults,
) -> Result<SessionView, Seq<char>> {
    let id = trimmed(provider_id);
    let name = trimmed(model);
    if id.len() == 0 || name.len() == 0 {
        Err("providerId and model are required"@)
    } else {
        match key {
            Err(error) => Err(error),
            Ok(key) => match model_named(settings.models@, id, name) {
                None => Err(
                    about_model(
                        "selected model provider is not configured or model is unavailable: providerId="@,
                        id,
                        name,
                    ),
                ),
                Some(item) => match optional_text(item.diagnostic) {
                    Some(diagnostic) => Err(diagnostic),
                    None => match chosen_provider(item, id, name, key, built_in, defaults) {
                        Err(error) => Err(error),
                        Ok(provider) => if provider.auth !is Anonymous && key is None {
                            Err(
                                "model provider "@ + id
                                    + " requires API key; configure it in Settings or set the provider-specific API key environment variable"@,
                            )
                        } else {
                            match item.model_max_output_tokens {
                                None => Err(
                                    about_model(
                                        "custom model maxOutputTokens is missing: providerId="@,
                                        id,
                                        name,
                                    ),
                                ),
                                Some(tokens) => Ok(
                                    SessionView {
                                        config: ConfigView {
                                            kind: provider.kind,
                                            provider: id,
                                            model: name,
                                            api_base: optional_text(item.model_api_base),
                                            defaults,
                                            max_output_tokens: tokens,
                                            thinking_mode: thinking_mode(settings, item, id, name),
                                        },
                                        registered: registered_provider(
                                            item.built_in,
                                            provider,
                                            key,
                                        ),
                                    },
                                ),
                            }
                        },
                    },
                },
            },
        }
    }
}

/// How a model is to think: as the user set it for the model that they chose, else as the model's
/// entry says.
pub open spec fn thinking_mode(
    settings: ModelSettings,
    item: CatalogModel,
    provider: Seq<char>,
    model: Seq<char>,
) -> Option<Seq<char>> {
    if optional_text(settings.model_provider_id) == Some(provider) && optional_text(settings.model)
        == Some(model) {
        optional_text(settings.model_thinking_mode)
    } else {
        optional_text(item.model_thinking_mode)
    }
}

fn choose_thinking_mode(
    settings: &ModelSettings,
    item: &CatalogModel,
    provider_id: &String,
    model: &String,
) -> (result: Option<String>)
    ensures
        optional_text(result) == thinking_mode(*settings, *item, provider_id@, model@),
{
    let chosen = match (&settings.model_provider_id, &settings.model) {
        (Some(own_provider), Some(own_model)) => text_equals(
            own_provider.as_str(),
            provider_id.as_str(),
        ) && text_equals(own_model.as_str(), model.as_str()),
        _ => false,
    };
    if chosen {
        copy_optional(&settings.model_thinking_mode)
    } else {
        copy_optional(&item.model_thinking_mode)
    }
}

fn choose_provider(
    item: &CatalogModel,
    provider_id: &str,
    model: &str,
    key: &Option<String>,
    built_in: Option<ModelProviderInfo>,
    defaults: RequestDefaults,
) -> (result: Result<ModelProviderInfo, String>)
    ensures
        agrees(
            result,
            |provider: ModelProviderInfo| provider@,
            chosen_provider(
                *item,
                provider_id@,
                model@,
                optional_text(*key),
                optional_provider(built_in),
                defaults,
            ),
        ),
{
    if item.built_in {
        match built_in {
            None => Err(concat2("unknown model provider: ", provider_id)),
            Some(found) => {
                let mut provider = found;
                match item.model_api {
                    Some(api) => {
                        provider.wire_api = model_wire_api_to_wire_api(api);
                    },
                    None => {},
                }
                Ok(provider)
            },
        }
    } else {
        match item.model_api {
            None => Err(name_model("custom model API is missing: providerId=", provider_id, model)),
            Some(api) => Ok(
                custom_model_provider_info(provider_id, api, key, item.supports_vision, defaults),
            ),
        }
    }
}

fn register_provider(built_in: bool, provider: ModelProviderInfo, key: &Option<String>) -> (result:
    Option<ModelProviderInfo>)
    ensures
        optional_provider(result) == registered_provider(built_in, provider@, optional_text(*key)),
{
    if !built_in {
        return Some(provider);
    }
    match key {
        Some(key) => {
            let mut entered = provider;
            let auth = auth_spec_with_model_api_key(&entered.auth, key.as_str());
            entered.auth = auth;
            Some(entered)
        },
        None => None,
    }
}

/// How a session asks a model of a provider.
pub fn model_session_config_and_registry_for(
    settings: &ModelSettings,
    provider_id: &str,
    model: &str,
    model_api_key: &Result<Option<String>, String>,
    built_in: Option<ModelProviderInfo>,
    defaults: RequestDefaults,
) -> (result: Result<ModelSession, String>)
    ensures
        agrees(
            result,
            |session: ModelSession| session@,
            model_session(
                *settings,
                provider_id@,
                model@,
                read_key(*model_api_key),
                optional_provider(built_in),
                defaults,
            ),
        ),
{
    let id = trim(provider_id).to_owned();
    let name = trim(model).to_owned();
    if id.as_str().is_empty() || name.as_str().is_empty() {
        return Err("providerId and model are required".to_owned());
    }
    let key = match model_api_key {
        Ok(key) => key,
        Err(error) => {
            return Err(error.clone());
        },
    };
    let item = match find_model(&settings.models, id.as_str(), name.as_str()) {
        Some(item) => item,
        None => {
            return Err(
                name_model(
                    "selected model provider is not configured or model is unavailable: providerId=",
                    id.as_str(),
                    name.as_str(),
                ),
            );
        },
    };
    match &item.diagnostic {
        Some(diagnostic) => {
            return Err(diagnostic.clone());
        },
        None => {},
    }
    let provider = match choose_provider(item, id.as_str(), name.as_str(), key, built_in, defaults) {
        Ok(provider) => provider,
        Err(error) => {
            return Err(error);
        },
    };
    let authorises = match &provider.auth {
        AuthSpec::Anonymous => false,
        _ => true,
    };
    if authorises && key.is_none() {
        return Err(
            concat3(
                "model provider ",
                id.as_str(),
                " requires API key; configure it in Settings or set the provider-specific API key environment variable",
            ),
        );
    }
    let tokens: u64 = match item.model_max_output_tokens {
        Some(tokens) => tokens,
        None => {
            return Err(
                name_model(
                    "custom model maxOutputTokens is missing: providerId=",
                    id.as_str(),
                    name.as_str(),
                ),
            );
        },
    };
    let thinking_mode = choose_thinking_mode(settings, item, &id, &name);
    let config = ModelSessionConfig {
        provider_kind: copy_kind(&provider.provider_kind),
        provider_id: id,
        model: name,
        api_base: copy_optional(&item.model_api_base),
        defaults,
        max_output_tokens: tokens,
        thinking_mode,
    };
    Ok(ModelSession { config, registered: register_provider(item.built_in, provider, key) })
}

/// The provider and the model that the user chose.
pub open spec fn chosen_model(settings: ModelSettings) -> Result<
    (Seq<char>, Seq<char>),
    Seq<char>,
> {
    match (
        normalized(optional_text(settings.model_provider_id)),
        normalized(optional_text(settings.model)),
    ) {
        (Some(provider), Some(model)) => Ok((provider, model)),
        _ => Err(MODEL_NOT_CONFIGURED@),
    }
}

/// The provider and the model that the user chose.
pub fn selected_model(settings: &ModelSettings) -> (result: Result<(String, String), String>)
    ensures
        agrees(
            result,
            |chosen: (String, String)| (chosen.0@, chosen.1@),
            chosen_model(*settings),
        ),
{
    let provider_id = match normalize_optional_string(&settings.model_provider_id) {
        Some(provider_id) => provider_id,
        None => {
            return Err(MODEL_NOT_CONFIGURED.to_owned());
        },
    };
    match normalize_optional_string(&settings.model) {
        Some(model) => Ok((provider_id, model)),
        None => Err(MODEL_NOT_CONFIGURED.to_owned()),
    }
}

/// How a session asks the model that the user chose.
pub fn model_session_config_and_registry(
    settings: &ModelSettings,
    model_api_key: &Result<Option<String>, String>,
    built_in: Option<ModelProviderInfo>,
    defaults: RequestDefaults,
) -> (result: Result<ModelSession, String>)
    ensures
        agrees(
            result,
            |session: ModelSession| session@,
            match chosen_model(*settings) {
                Err(error) => Err(error),
                Ok(chosen) => model_session(
                    *settings,
                    chosen.0,
                    chosen.1,
                    read_key(*model_api_key),
                    optional_provider(built_in),
                    defaults,
                ),
            },
        ),
{
    match selected_model(settings) {
        Err(error) => Err(error),
        Ok((provider_id, model)) => model_session_config_and_registry_for(
            settings,
            provider_id.as_str(),
            model.as_str(),
            model_api_key,
            built_in,
            defaults,
        ),
    }
}

/// A session that is given a model asks that model: it has its provider and its name, and no model
/// is asked without the key that its provider needs.
pub proof fn law_sessions_ask_the_named_model(
    settings: ModelSettings,
    provider_id: Seq<char>,
    model: Seq<char>,
    key: Result<Option<Seq<char>>, Seq<char>>,
    built_in: Option<ProviderView>,
    defaults: RequestDefaults,
)
    requires
        model_session(settings, provider_id, model, key, built_in, defaults) is Ok,
    ensures
        ({
            let session = model_session(
                settings,
                provider_id,
                model,
                key,
                built_in,
                defaults,
            )->Ok_0;
            let item = model_named(settings.models@, trimmed(provider_id), trimmed(model));
            &&& session.config.provider == trimmed(provider_id)
            &&& session.config.model == trimmed(model)
            &&& item is Some && item->0.diagnostic is None
            &&& match session.registered {
                Some(provider) => provider.auth is StaticHeader || provider.auth is Anonymous,
                None => item->0.built_in && built_in is Some && built_in->0.auth is Anonymous && key
                    == Ok::<Option<Seq<char>>, Seq<char>>(None),
            }
        }),
{
}

/// The form of the requests to a provider: that of the provider that was entered, else that of the
/// one that is built in.
pub fn model_config_wire_api(
    provider_id: &str,
    registered: &Option<ModelProviderInfo>,
    built_in: &Option<WireApi>,
) -> (result: Result<WireApi, String>)
    ensures
        agrees(
            result,
            |api: WireApi| api@,
            match (registered, built_in) {
                (Some(provider), _) => Ok(provider@.wire_api),
                (None, Some(api)) => Ok(api@),
                (None, None) => Err("unknown model provider: "@ + provider_id@),
            },
        ),
{
    match (registered, built_in) {
        (Some(provider), _) => Ok(copy_wire_api(&provider.wire_api)),
        (None, Some(api)) => Ok(copy_wire_api(api)),
        (None, None) => Err(concat2("unknown model provider: ", provider_id)),
    }
}

/// A client that speaks one form of requests.
#[derive(Clone, Copy, Debug, PartialEq, Eq, Structural)]
pub enum ModelClient {
    AnthropicMessages,
    OpenAiResponses,
    OpenAiCompatible,
}

/// The client for a form of requests.
pub open spec fn client_for(api: WireView) -> Option<ModelClient> {
    match api {
        WireView::AnthropicMessages => Some(ModelClient::AnthropicMessages),
        WireView::OpenAiResponses => Some(ModelClient::OpenAiResponses),
        WireView::OpenAiChatCompletions => Some(ModelClient::OpenAiCompatible),
        WireView::Other(_) => None,
    }
}

/// The client that a run asks its model with.
pub fn query_client(api: &WireApi) -> (result: Result<ModelClient, String>)
    ensures
        match client_for(api@) {
            Some(client) => result == Ok::<ModelClient, String>(client),
            None => result matches Err(message) && message@ == "model wire API "@
                + api@->Other_0 + " is not supported by the Local Runtime Host"@,
        },
{
    match api {
        WireApi::AnthropicMessages => Ok(ModelClient::AnthropicMessages),
        WireApi::OpenAiResponses => Ok(ModelClient::OpenAiResponses),
        WireApi::OpenAiChatCompletions => Ok(ModelClient::OpenAiCompatible),
        WireApi::Other(name) => Err(
            concat3(
                "model wire API ",
                name.as_str(),
                " is not supported by the Local Runtime Host",
            ),
        ),
    }
}

/// The client that a model is tested with.
pub fn test_client(api: &WireApi) -> (result: Result<ModelClient, String>)
    ensures
        match client_for(api@) {
            Some(client) => result == Ok::<ModelClient, String>(client),
            None => result matches Err(message) && message@
                == "model test does not support wire API "@ + api@->Other_0,
        },
{
    match api {
        WireApi::AnthropicMessages => Ok(ModelClient::AnthropicMessages),
        WireApi::OpenAiResponses => Ok(ModelClient::OpenAiResponses),
        WireApi::OpenAiChatCompletions => Ok(ModelClient::OpenAiCompatible),
        WireApi::Other(name) => Err(
            concat2("model test does not support wire API ", name.as_str()),
        ),
    }
}

/// A text on one line of at most 96 characters.
pub open spec fn keyword(value: Seq<char>) -> Seq<char> {
    let line = joined(words(value), " "@);
    if line.len() <= 96 {
        line
    } else {
        limited(line, 93) + "..."@
    }
}

/// A text on one line of at most 96 characters.
pub fn model_test_keyword(value: &str) -> (result: String)
    ensures
        result@ == keyword(value@),
{
    let line = join(&words_of(value), " ");
    if line.as_str().unicode_len() <= 96 {
        return line;
    }
    concat2(first_chars(line.as_str(), 93).as_str(), "...")
}

/// What a test of a model reports stays short.
pub proof fn law_keywords_are_bounded(value: Seq<char>)
    ensures
        keyword(value).len() <= 96,
        joined(words(value), " "@).len() <= 96 ==> keyword(value) == joined(words(value), " "@),
{
    reveal_strlit("...");
}

/// What a test of a model reports stands on one line with single spaces, and shortening it again
/// changes nothing.
pub proof fn law_keywords_settle(value: Seq<char>)
    ensures
        single_spaced(keyword(value)),
        keyword(keyword(value)) == keyword(value),
{
    reveal_strlit("...");
    let line = joined(words(value), " "@);
    let short = keyword(value);
    lemma_single_spaced(value);
    if line.len() > 96 {
        assert forall|i: int| 0 <= i < short.len() && white_space(#[trigger] short[i]) implies
            short[i] == ' ' && 0 < i && i + 1 < short.len() && !white_space(short[i - 1])
            && !white_space(short[i + 1]) by {
            assert(i < 93);
            assert(short[i] == line[i]);
            assert(short[i - 1] == line[i - 1]);
            if i < 92 {
                assert(short[i + 1] == line[i + 1]);
            } else {
                assert(short[i + 1] == "..."@[0]);
            }
        }
    }
    lemma_single_spaced(short);
    law_keywords_are_bounded(value);
}

/// Why a model gave no answer.
#[derive(Debug)]
pub struct ModelClientError {
    pub provider_code: Option<String>,
    pub message: String,
}

/// The keyword for why a model gave no answer: the provider's own, else the message's.
pub open spec fn error_keyword(code: Option<Seq<char>>, message: Seq<char>) -> Seq<char> {
    match code {
        Some(code) if trimmed(code).len() > 0 => keyword(code),
        _ => keyword(message),
    }
}

/// The keyword for why a model gave no answer.
pub fn model_test_error_keyword(error: &ModelClientError) -> (result: String)
    ensures
        result@ == error_keyword(optional_text(error.provider_code), error.message@),
{
    match &error.provider_code {
        Some(code) => {
            if !trim(code.as_str()).is_empty() {
                return model_test_keyword(code.as_str());
            }
        },
        None => {},
    }
    model_test_keyword(error.message.as_str())
}

/// How a test of a model went.
#[derive(Debug)]
pub struct ModelTestResponse {
    pub http_status: Option<u16>,
    pub latency_ms: u64,
    pub output_preview: Option<String>,
    pub error_keyword: Option<String>,
}

pub struct TestView {
    pub http_status: Option<u16>,
    pub latency_ms: u64,
    pub preview: Option<Seq<char>>,
    pub error: Option<Seq<char>>,
}

impl View for ModelTestResponse {
    type V = TestView;

    open spec fn view(&self) -> TestView {
        TestView {
            http_status: self.http_status,
            latency_ms: self.latency_ms,
            preview: optional_text(self.output_preview),
            error: optional_text(self.error_keyword),
        }
    }
}

pub const MODEL_TEST_TIMEOUT_MS: u64 = 15_000;

pub const MODEL_TEST_OUTPUT_TOKENS: u64 = 32;

/// A session for the test of a model: it waits shortly, tries once and asks for little.
pub open spec fn test_config(config: ConfigView) -> ConfigView {
    ConfigView {
        defaults: RequestDefaults {
            timeout_ms: MODEL_TEST_TIMEOUT_MS,
            max_retries: 0,
            retry_backoff_ms: config.defaults.retry_backoff_ms,
        },
        max_output_tokens: MODEL_TEST_OUTPUT_TOKENS,
        ..config
    }
}

/// How the test of a model goes on.
#[derive(Debug)]
pub enum ModelTest {
    /// The test is over before anything was asked.
    Done(ModelTestResponse),
    /// The model is asked.
    Ask(ModelSession),
}

/// The report of a test that asked nothing.
pub open spec fn unasked(latency_ms: u64, keyword: Seq<char>) -> TestView {
    TestView { http_status: None, latency_ms, preview: None, error: Some(keyword) }
}

/// Decides how the test of a model begins.
pub fn begin_model_test(
    settings: &ModelSettings,
    provider_id: &str,
    model: &str,
    model_api_key: &Result<Option<String>, String>,
    built_in: Option<ModelProviderInfo>,
    defaults: RequestDefaults,
    elapsed_ms: u64,
) -> (result: ModelTest)
    ensures
        if model_named(settings.models@, trimmed(provider_id@), trimmed(model@)) is None {
            result matches ModelTest::Done(report) && report@ == unasked(
                elapsed_ms,
                "model_not_available"@,
            )
        } else {
            match model_session(
                *settings,
                provider_id@,
                model@,
                read_key(*model_api_key),
                optional_provider(built_in),
                defaults,
            ) {
                Err(error) => result matches ModelTest::Done(report) && report@ == unasked(
                    elapsed_ms,
                    keyword(error),
                ),
                Ok(session) => result matches ModelTest::Ask(given) && given@.registered
                    == session.registered && given@.config == test_config(session.config),
            }
        },
{
    if find_model(&settings.models, trim(provider_id), trim(model)).is_none() {
        return ModelTest::Done(
            ModelTestResponse {
                http_status: None,
                latency_ms: elapsed_ms,
                output_preview: None,
                error_keyword: Some("model_not_available".to_owned()),
            },
        );
    }
    match model_session_config_and_registry_for(
        settings,
        provider_id,
        model,
        model_api_key,
        built_in,
        defaults,
    ) {
        Err(error) => ModelTest::Done(
            ModelTestResponse {
                http_status: None,
                latency_ms: elapsed_ms,
                output_preview: None,
                error_keyword: Some(model_test_keyword(error.as_str())),
            },
        ),
        Ok(session) => {
            let mut session = session;
            session.config.defaults =
            RequestDefaults {
                timeout_ms: MODEL_TEST_TIMEOUT_MS,
                max_retries: 0,
                retry_backoff_ms: session.config.defaults.retry_backoff_ms,
            };
            session.config.max_output_tokens = MODEL_TEST_OUTPUT_TOKENS;
            ModelTest::Ask(session)
        },
    }
}

pub const MODEL_TEST_PROMPT_TOKENS: u64 = 32;

pub const MODEL_TEST_ID: &'static str = "model-test";

pub const MODEL_TEST_MESSAGE_ID: &'static str = "model-test-user";

pub const MODEL_TEST_MESSAGE: &'static str = "Reply with a short connectivity confirmation.";

/// A message of the prompt that a model is tested with.
#[derive(Debug)]
pub struct ModelTestMessage {
    pub message_id: String,
    pub role: MessageRole,
    pub content: String,
    pub tool_calls: Vec<String>,
    pub tool_call_id: Option<String>,
    pub reasoning_content: Option<String>,
}

pub struct TestMessageView {
    pub message_id: Seq<char>,
    pub role: MessageRole,
    pub content: Seq<char>,
    pub tool_calls: Seq<Seq<char>>,
    pub tool_call_id: Option<Seq<char>>,
    pub reasoning_content: Option<Seq<char>>,
}

impl View for ModelTestMessage {
    type V = TestMessageView;

    open spec fn view(&self) -> TestMessageView {
        TestMessageView {
            message_id: self.message_id@,
            role: self.role,
            content: self.content@,
            tool_calls: texts(self.tool_calls@),
            tool_call_id: optional_text(self.tool_call_id),
            reasoning_content: optional_text(self.reasoning_content),
        }
    }
}

/// What a model is asked when it is tested, apart from its session.
#[derive(Debug)]
pub struct ModelTestPrompt {
    pub session_id: String,
    pub turn_id: String,
    pub loop_index: u64,
    pub system_prompt: Option<String>,
    pub messages: Vec<ModelTestMessage>,
    pub tools: Vec<String>,
    /// Whether the model may call a tool.
    pub chooses_tools: bool,
    /// The tokens that the prompt is taken to hold.
    pub prompt_token_estimate: u64,
    /// The tokens that the context is taken to hold.
    pub context_token_estimate: u64,
    pub prompt_cache_key: Option<String>,
    pub prompt_cache_retention: Option<String>,
    pub system_prompt_manifest_json: Option<String>,
    pub compression_stats_json: Option<String>,
}

pub struct TestPromptView {
    pub session: Seq<char>,
    pub turn: Seq<char>,
    pub loop_index: u64,
    pub system_prompt: Option<Seq<char>>,
    pub messages: Seq<TestMessageView>,
    pub tools: Seq<Seq<char>>,
    pub chooses_tools: bool,
    pub prompt_token_estimate: u64,
    pub context_token_estimate: u64,
    pub prompt_cache_key: Option<Seq<char>>,
    pub prompt_cache_retention: Option<Seq<char>>,
    pub system_prompt_manifest_json: Option<Seq<char>>,
    pub compression_stats_json: Option<Seq<char>>,
}

impl View for ModelTestPrompt {
    type V = TestPromptView;

    open spec fn view(&self) -> TestPromptView {
        TestPromptView {
            session: self.session_id@,
            turn: self.turn_id@,
            loop_index: self.loop_index,
            system_prompt: optional_text(self.system_prompt),
            messages: self.messages@.map_values(|message: ModelTestMessage| message@),
            tools: texts(self.tools@),
            chooses_tools: self.chooses_tools,
            prompt_token_estimate: self.prompt_token_estimate,
            context_token_estimate: self.context_token_estimate,
            prompt_cache_key: optional_text(self.prompt_cache_key),
            prompt_cache_retention: optional_text(self.prompt_cache_retention),
            system_prompt_manifest_json: optional_text(self.system_prompt_manifest_json),
            compression_stats_json: optional_text(self.compression_stats_json),
        }
    }
}

/// What a model is asked when it is tested: one short message of the user, with no system prompt
/// and no tools.
pub open spec fn test_prompt() -> TestPromptView {
    TestPromptView {
        session: "model-test"@,
        turn: "model-test"@,
        loop_index: 0,
        system_prompt: None,
        messages: seq![
            TestMessageView {
                message_id: "model-test-user"@,
                role: MessageRole::User,
                content: "Reply with a short connectivity confirmation."@,
                tool_calls: Seq::empty(),
                tool_call_id: None,
                reasoning_content: None,
            },
        ],
        tools: Seq::empty(),
        chooses_tools: false,
        prompt_token_estimate: 32,
        context_token_estimate: 32,
        prompt_cache_key: None,
        prompt_cache_retention: None,
        system_prompt_manifest_json: None,
        compression_stats_json: None,
    }
}

/// What a model is asked when it is tested.
pub fn model_test_prompt() -> (result: ModelTestPrompt)
    ensures
        result@ == test_prompt(),
{
    let message = ModelTestMessage {
        message_id: MODEL_TEST_MESSAGE_ID.to_owned(),
        role: MessageRole::User,
        content: MODEL_TEST_MESSAGE.to_owned(),
        tool_calls: Vec::new(),
        tool_call_id: None,
        reasoning_content: None,
    };
    assert(texts(message.tool_calls@) =~= Seq::<Seq<char>>::empty());
    let mut messages: Vec<ModelTestMessage> = Vec::new();
    messages.push(message);
    let result = ModelTestPrompt {
        session_id: MODEL_TEST_ID.to_owned(),
        turn_id: MODEL_TEST_ID.to_owned(),
        loop_index: 0,
        system_prompt: None,
        messages,
        tools: Vec::new(),
        chooses_tools: false,
        prompt_token_estimate: MODEL_TEST_PROMPT_TOKENS,
        context_token_estimate: MODEL_TEST_PROMPT_TOKENS,
        prompt_cache_key: None,
        prompt_cache_retention: None,
        system_prompt_manifest_json: None,
        compression_stats_json: None,
    };
    assert(result@.messages =~= test_prompt().messages);
    assert(result@.tools =~= test_prompt().tools);
    result
}

/// What a model that is tested answered.
#[derive(Debug)]
pub enum ModelAnswer {
    Content(String),
    Failed(ModelClientError),
}

/// Reports how the test of a model went.
pub fn finish_model_test(answer: &ModelAnswer, http_status: Option<u16>, elapsed_ms: u64) -> (result:
    ModelTestResponse)
    ensures
        result@ == match answer {
            ModelAnswer::Content(content) => TestView {
                http_status,
                latency_ms: elapsed_ms,
                preview: Some(keyword(content@)),
                error: None,
            },
            ModelAnswer::Failed(error) => TestView {
                http_status,
                latency_ms: elapsed_ms,
                preview: None,
                error: Some(error_keyword(optional_text(error.provider_code), error.message@)),
            },
        },
{
    match answer {
        ModelAnswer::Content(content) => ModelTestResponse {
            http_status,
            latency_ms: elapsed_ms,
            output_preview: Some(model_test_keyword(content.as_str())),
            error_keyword: None,
        },
        ModelAnswer::Failed(error) => ModelTestResponse {
            http_status,
            latency_ms: elapsed_ms,
            output_preview: None,
            error_keyword: Some(model_test_error_keyword(error)),
        },
    }
}

/// Whether a prompt that failed may be tried again, as the message of the failure says.
pub open spec fn retryable(message: Seq<char>) -> bool {
    match after_prefix(message, "model_client_error(kind="@) {
        None => false,
        Some(metadata) => match split_at_text(metadata, ",retryable="@) {
            None => false,
            Some(parts) => match split_at_text(parts.1, "): "@) {
                None => false,
                Some(answer) => answer.0 == "true"@,
            },
        },
    }
}

/// Whether a prompt that failed may be tried again, as the message of the failure says.
pub fn session_prompt_loop_failure_retryable(message: &str) -> (result: bool)
    ensures
        result == retryable(message@),
{
    let metadata = match strip_prefix(message, "model_client_error(kind=") {
        Some(metadata) => metadata,
        None => {
            return false;
        },
    };
    let parts = match split_text(metadata, ",retryable=") {
        Some(parts) => parts,
        None => {
            return false;
        },
    };
    match split_text(parts.1, "): ") {
        Some(answer) => text_equals(answer.0, "true"),
        None => false,
    }
}

/// The greatest number that a scale is computed with.
pub open spec fn saturated(n: int) -> int {
    if n > u64::MAX {
        u64::MAX as int
    } else {
        n
    }
}

/// How much larger than an estimate of tokens the actual number was, in hundredths of a percent:
/// never less than the estimate, and at most ten times as much.
pub open spec fn estimate_scale(actual: u64, estimated: u64) -> int {
    if estimated == 0 {
        10_000
    } else {
        let scale = saturated(saturated(actual * 10_000) + estimated - 1) / (estimated as int);
        if scale < 10_000 {
            10_000
        } else if scale > 100_000 {
            100_000
        } else {
            scale
        }
    }
}

/// How much larger than an estimate of tokens the actual number was, in hundredths of a percent.
pub fn prompt_token_estimate_scale_basis_points(actual: u64, estimated: u64) -> (result: u32)
    ensures
        result == estimate_scale(actual, estimated),
{
    if estimated == 0 {
        return 10_000;
    }
    let product: u128 = (actual as u128) * 10_000;
    let most: u128 = u64::MAX as u128;
    let capped: u128 = if product > most {
        most
    } else {
        product
    };
    let sum: u128 = capped + (estimated as u128 - 1);
    let total: u128 = if sum > most {
        most
    } else {
        sum
    };
    let scale: u128 = total / (estimated as u128);
    assert(scale == total as int / estimated as int);
    if scale < 10_000 {
        10_000
    } else if scale > 100_000 {
        100_000
    } else {
        scale as u32
    }
}

/// An estimate that is scaled is conservative: the scale stays between one and ten, and unless it
/// is at its greatest the scaled estimate is at least the actual number. The numbers are such that
/// nothing saturates.
pub proof fn law_scaled_estimates_are_conservative(actual: u64, estimated: u64)
    requires
        estimated > 0,
        actual * 10_000 + estimated - 1 <= u64::MAX,
    ensures
        10_000 <= estimate_scale(actual, estimated) <= 100_000,
        estimate_scale(actual, estimated) < 100_000 ==> estimate_scale(actual, estimated)
            * estimated >= actual * 10_000,
{
    let total = actual * 10_000 + estimated - 1;
    let scale = total / (estimated as int);
    vstd::arithmetic::div_mod::lemma_fundamental_div_mod(total, estimated as int);
    let rest = total % (estimated as int);
    assert(total == (estimated as int) * scale + rest);
    assert(rest <= estimated - 1) by {
        vstd::arithmetic::div_mod::lemma_mod_bound(total, estimated as int);
    }
    assert((estimated as int) * scale >= actual * 10_000);
    assert((estimated as int) * scale == scale * (estimated as int)) by (nonlinear_arith);
    if scale < 10_000 {
        assert(10_000 * (estimated as int) >= scale * (estimated as int)) by (nonlinear_arith)
            requires
                scale < 10_000,
                estimated > 0,
        ;
    }
}

/// The scale of an estimate is the least one that is conservative: any scale below it that is
/// allowed at all makes the scaled estimate less than the actual number.
pub proof fn law_the_scale_of_estimates_is_least(actual: u64, estimated: u64, scale: int)
    requires
        estimated > 0,
        10_000 <= scale < estimate_scale(actual, estimated),
    ensures
        scale * estimated < actual * 10_000,
{
    let total = saturated(saturated(actual * 10_000) + estimated - 1);
    let most = total / (estimated as int);
    vstd::arithmetic::div_mod::lemma_fundamental_div_mod(total, estimated as int);
    vstd::arithmetic::div_mod::lemma_mod_bound(total, estimated as int);
    assert(scale + 1 <= most);
    assert((scale + 1) * (estimated as int) <= (estimated as int) * most) by (nonlinear_arith)
        requires
            scale + 1 <= most,
            estimated > 0,
    ;
    assert((scale + 1) * (estimated as int) == scale * (estimated as int) + estimated)
        by (nonlinear_arith);
    assert(total <= actual * 10_000 + estimated - 1);
}

/// The scale of an estimate grows with the actual number.
pub proof fn law_the_scale_of_estimates_grows(actual: u64, more: u64, estimated: u64)
    requires
        actual <= more,
    ensures
        estimate_scale(actual, estimated) <= estimate_scale(more, estimated),
{
    if estimated > 0 {
        let less = saturated(saturated(actual * 10_000) + estimated - 1);
        let greater = saturated(saturated(more * 10_000) + estimated - 1);
        assert(less <= greater);
        vstd::arithmetic::div_mod::lemma_div_is_ordered(less, greater, estimated as int);
    }
}

/// The parts of the configuration of a run that the user may set.
#[derive(Clone, Copy, Debug, PartialEq, Eq, Structural)]
pub struct RunLimits {
    pub auto_continue_after_resume_wait: bool,
    pub model_context_tokens: u64,
    pub model_max_output_tokens: u64,
    pub tool_parallelism: usize,
    pub prompt_token_estimate_scale_basis_points: u32,
}

/// What the user has set about runs.
#[derive(Clone, Copy, Debug, PartialEq, Eq, Structural)]
pub struct RunSettings {
    pub auto_continue_after_resume_wait: bool,
    pub model_context_tokens: Option<u64>,
    pub model_max_output_tokens: Option<u64>,
    pub tool_parallelism: Option<usize>,
}

/// The configuration of a run: what the request asks for, else what the user has set, else what
/// holds without; and the scale of estimates by what the provider last counted.
pub fn agent_runtime_config(
    initial: RunLimits,
    settings: RunSettings,
    auto_continue_after_resume_wait: Option<bool>,
    counted_tokens: Option<u64>,
    estimated_tokens: Option<u64>,
) -> (result: RunLimits)
    ensures
        result.auto_continue_after_resume_wait == match auto_continue_after_resume_wait {
            Some(asked) => asked,
            None => settings.auto_continue_after_resume_wait,
        },
        result.model_context_tokens == match settings.model_context_tokens {
            Some(tokens) => tokens,
            None => initial.model_context_tokens,
        },
        result.model_max_output_tokens == match settings.model_max_output_tokens {
            Some(tokens) => tokens,
            None => initial.model_max_output_tokens,
        },
        result.tool_parallelism == match settings.tool_parallelism {
            Some(count) => count,
            None => initial.tool_parallelism,
        },
        result.prompt_token_estimate_scale_basis_points == match (counted_tokens, estimated_tokens) {
            (Some(actual), Some(estimated)) => estimate_scale(actual, estimated),
            _ => initial.prompt_token_estimate_scale_basis_points as int,
        },
{
    RunLimits {
        auto_continue_after_resume_wait: match auto_continue_after_resume_wait {
            Some(asked) => asked,
            None => settings.auto_continue_after_resume_wait,
        },
        model_context_tokens: match settings.model_context_tokens {
            Some(tokens) => tokens,
            None => initial.model_context_tokens,
        },
        model_max_output_tokens: match settings.model_max_output_tokens {
            Some(tokens) => tokens,
            None => initial.model_max_output_tokens,
        },
        tool_parallelism: match settings.tool_parallelism {
            Some(count) => count,
            None => initial.tool_parallelism,
        },
        prompt_token_estimate_scale_basis_points: match (counted_tokens, estimated_tokens) {
            (Some(actual), Some(estimated)) => prompt_token_estimate_scale_basis_points(
                actual,
                estimated,
            ),
            _ => initial.prompt_token_estimate_scale_basis_points,
        },
    }
}

/// Whether two texts that may be missing are the same.
pub open spec fn same_text(a: Option<String>, b: Option<String>) -> bool {
    match (a, b) {
        (Some(a), Some(b)) => a@ == b@,
        (None, None) => true,
        _ => false,
    }
}

/// Whether the model at a place is the first of a provider with a name.
pub open spec fn first_listed(
    models: Seq<CatalogModel>,
    provider: Seq<char>,
    model: Seq<char>,
    at: int,
) -> bool {
    &&& 0 <= at < models.len()
    &&& models[at].provider_id@ == provider
    &&& models[at].model@ == model
    &&& forall|j: int|
        0 <= j < at ==> !((#[trigger] models[j]).provider_id@ == provider && models[j].model@
            == model)
}

/// Whether no model of a provider has a name.
pub open spec fn unlisted(
    models: Seq<CatalogModel>,
    provider: Seq<char>,
    model: Seq<char>,
) -> bool {
    forall|j: int|
        0 <= j < models.len() ==> !((#[trigger] models[j]).provider_id@ == provider
            && models[j].model@ == model)
}

/// The model of a provider with a name is the first that is listed so, and there is none exactly
/// where none is listed so.
pub proof fn law_models_are_found_by_provider_and_name(
    models: Seq<CatalogModel>,
    provider: Seq<char>,
    model: Seq<char>,
)
    ensures
        model_named(models, provider, model) is None <==> unlisted(models, provider, model),
        forall|at: int| #[trigger]
            first_listed(models, provider, model, at) ==> model_named(models, provider, model)
                == Some(models[at]),
        model_named(models, provider, model) is Some ==> exists|at: int|
            first_listed(models, provider, model, at),
    decreases models.len(),
{
    assert forall|at: int| #[trigger] first_listed(models, provider, model, at) implies model_named(
        models,
        provider,
        model,
    ) == Some(models[at]) by {
        lemma_model_place(models, provider, model, at as nat);
    }
    if unlisted(models, provider, model) {
        lemma_model_place(models, provider, model, models.len());
    } else if models.len() > 0 {
        let rest = models.subrange(1, models.len() as int);
        if models[0].provider_id@ == provider && models[0].model@ == model {
            assert(first_listed(models, provider, model, 0));
        } else {
            law_models_are_found_by_provider_and_name(rest, provider, model);
            let k = choose|k: int|
                0 <= k < models.len() && (#[trigger] models[k]).provider_id@ == provider
                    && models[k].model@ == model;
            assert(rest[k - 1] == models[k]);
            let at = choose|at: int| first_listed(rest, provider, model, at);
            assert(rest[at] == models[at + 1]);
            assert forall|j: int| 0 <= j < at + 1 implies !((#[trigger] models[j]).provider_id@
                == provider && models[j].model@ == model) by {
                if j > 0 {
                    assert(rest[j - 1] == models[j]);
                }
            }
            assert(first_listed(models, provider, model, at + 1));
        }
    }
}

/// Whether a header that holds a key has a name and a value.
pub open spec fn is_header(auth: AuthSpec, header: Seq<char>, content: Seq<char>) -> bool {
    auth matches AuthSpec::StaticHeader { header_name, value } && header_name@ == header && value@
        == content
}

/// A session asks its model where, for how much and in which way the entry of the model says: the
/// address, the bound on the answer and the form of the requests are those of the first entry under
/// the names that were given, the times are those that were given, and the key that was read goes
/// into the header that the provider wants.
pub proof fn law_sessions_are_set_up_as_the_catalog_says(
    settings: ModelSettings,
    provider_id: Seq<char>,
    model: Seq<char>,
    key: Option<String>,
    built_in: Option<ModelProviderInfo>,
    defaults: RequestDefaults,
    at: int,
    session: ModelSession,
)
    requires
        first_listed(settings.models@, trimmed(provider_id), trimmed(model), at),
        model_session(
            settings,
            provider_id,
            model,
            Ok(optional_text(key)),
            optional_provider(built_in),
            defaults,
        ) == Ok::<SessionView, Seq<char>>(session@),
    ensures
        ({
            let item = settings.models@[at];
            let config = session.config;
            let chosen = settings.model_provider_id is Some && settings.model is Some
                && settings.model_provider_id->0@ == trimmed(provider_id) && settings.model->0@
                == trimmed(model);
            &&& config.provider_id@ == trimmed(provider_id)
            &&& config.model@ == trimmed(model)
            &&& same_text(config.api_base, item.model_api_base)
            &&& item.model_max_output_tokens == Some(config.max_output_tokens)
            &&& config.defaults == defaults
            &&& chosen ==> same_text(config.thinking_mode, settings.model_thinking_mode)
            &&& !chosen ==> same_text(config.thinking_mode, item.model_thinking_mode)
            &&& item.diagnostic is None
            &&& !item.built_in ==> (session.registered matches Some(provider) && {
                &&& config.provider_kind@ is Custom
                &&& provider.provider_kind@ is Custom
                &&& provider.provider_key@ == trimmed(provider_id)
                &&& provider.name@ == trimmed(provider_id)
                &&& provider.defaults == Some(defaults)
                &&& provider.supports_streaming
                &&& provider.supports_tool_calls
                &&& provider.supports_vision == item.supports_vision
                &&& match item.model_api {
                    Some(CustomModelProviderApi::OpenAiCompletions) => {
                        &&& provider.wire_api is OpenAiChatCompletions
                        &&& provider.http_headers@.len() == 0
                        &&& key is Some ==> is_header(
                            provider.auth,
                            "authorization"@,
                            "Bearer "@ + trimmed(key->0@),
                        )
                    },
                    Some(CustomModelProviderApi::OpenAiResponses) => {
                        &&& provider.wire_api is OpenAiResponses
                        &&& provider.http_headers@.len() == 0
                        &&& key is Some ==> is_header(
                            provider.auth,
                            "authorization"@,
                            "Bearer "@ + trimmed(key->0@),
                        )
                    },
                    Some(CustomModelProviderApi::AnthropicMessages) => {
                        &&& provider.wire_api is AnthropicMessages
                        &&& provider.http_headers@.len() == 1
                        &&& provider.http_headers@[0].0@ == "anthropic-version"@
                        &&& provider.http_headers@[0].1@ == "2023-06-01"@
                        &&& key is Some ==> is_header(
                            provider.auth,
                            "x-api-key"@,
                            trimmed(key->0@),
                        )
                    },
                    None => false,
                }
                &&& key is None ==> provider.auth is Anonymous
            })
            &&& item.built_in ==> (built_in matches Some(found) && {
                &&& config.provider_kind@ == found.provider_kind@
                &&& session.registered is Some <==> key is Some
                &&& key is None ==> found.auth is Anonymous
                &&& session.registered matches Some(provider) ==> {
                    &&& provider.provider_key@ == found.provider_key@
                    &&& provider.name@ == found.name@
                    &&& provider.provider_kind@ == found.provider_kind@
                    &&& provider.defaults == found.defaults
                    &&& provider.supports_streaming == found.supports_streaming
                    &&& provider.supports_tool_calls == found.supports_tool_calls
                    &&& provider.supports_vision == found.supports_vision
                    &&& header_views(provider.http_headers@) == header_views(found.http_headers@)
                    &&& match item.model_api {
                        Some(CustomModelProviderApi::OpenAiCompletions) => provider.wire_api
                            is OpenAiChatCompletions,
                        Some(CustomModelProviderApi::OpenAiResponses) => provider.wire_api
                            is OpenAiResponses,
                        Some(CustomModelProviderApi::AnthropicMessages) => provider.wire_api
                            is AnthropicMessages,
                        None => provider.wire_api@ == found.wire_api@,
                    }
                    &&& match found.auth {
                        AuthSpec::StaticHeader { header_name, value: _ } => is_header(
                            provider.auth,
                            header_name@,
                            trimmed(key->0@),
                        ),
                        AuthSpec::BearerEnv { source: _ } => is_header(
                            provider.auth,
                            "authorization"@,
                            "Bearer "@ + trimmed(key->0@),
                        ),
                        AuthSpec::Anonymous => is_header(
                            provider.auth,
                            "authorization"@,
                            "Bearer "@ + trimmed(key->0@),
                        ),
                        AuthSpec::ApiKeyEnv { source: _, header_name, prefix } => is_header(
                            provider.auth,
                            header_name@,
                            if prefix is Some && !blank(prefix->0@) {
                                trimmed(prefix->0@) + " "@ + trimmed(key->0@)
                            } else {
                                trimmed(key->0@)
                            },
                        ),
                        AuthSpec::CommandToken { source: _, header_name, prefix } => is_header(
                            provider.auth,
                            header_name@,
                            if prefix is Some && !blank(prefix->0@) {
                                trimmed(prefix->0@) + " "@ + trimmed(key->0@)
                            } else {
                                trimmed(key->0@)
                            },
                        ),
                    }
                }
            })
        }),
{
    law_models_are_found_by_provider_and_name(
        settings.models@,
        trimmed(provider_id),
        trimmed(model),
    );
    let item = settings.models@[at];
    assert(model_named(settings.models@, trimmed(provider_id), trimmed(model)) == Some(item));
    if session.registered is Some {
        let headers = session.registered->0.http_headers@;
        assert(session@.registered->0.headers == header_views(headers));
        assert(header_views(headers).len() == headers.len());
        if !item.built_in && item.model_api == Some(CustomModelProviderApi::AnthropicMessages) {
            assert(header_views(headers)[0] == ("anthropic-version"@, "2023-06-01"@));
        }
    }
    if built_in is Some {
        match built_in->0.auth {
            AuthSpec::ApiKeyEnv { source: _, header_name: _, prefix } => {
                if prefix is Some {
                    law_trimming_takes_off_the_whitespace_around(prefix->0@);
                }
            },
            AuthSpec::CommandToken { source: _, header_name: _, prefix } => {
                if prefix is Some {
                    law_trimming_takes_off_the_whitespace_around(prefix->0@);
                }
            },
            _ => {},
        }
    }
}

/// A session is given a model exactly where provider and model are named, a key could be looked
/// for, the first entry under the names has nothing wrong with it and bounds the answer, a provider
/// of the user's own says how it is asked, and one that is built in is known and has the key that it
/// needs. A failure to look for the key and what is wrong with the entry are reported as they are.
pub proof fn law_sessions_are_given_exactly_the_models_that_can_be_asked(
    settings: ModelSettings,
    provider_id: Seq<char>,
    model: Seq<char>,
    key: Result<Option<String>, String>,
    built_in: Option<ModelProviderInfo>,
    defaults: RequestDefaults,
)
    ensures
        ({
            let session = model_session(
                settings,
                provider_id,
                model,
                read_key(key),
                optional_provider(built_in),
                defaults,
            );
            let named = !blank(provider_id) && !blank(model);
            &&& session is Ok <==> named && key is Ok && exists|at: int| #[trigger]
                first_listed(settings.models@, trimmed(provider_id), trimmed(model), at) && {
                    let item = settings.models@[at];
                    &&& item.diagnostic is None
                    &&& item.model_max_output_tokens is Some
                    &&& !item.built_in ==> item.model_api is Some
                    &&& item.built_in ==> built_in is Some && (built_in->0.auth is Anonymous
                        || key->Ok_0 is Some)
                }
            &&& !named ==> session == Err::<SessionView, Seq<char>>(
                "providerId and model are required"@,
            )
            &&& named && key is Err ==> session == Err::<SessionView, Seq<char>>(key->Err_0@)
            &&& named && key is Ok && unlisted(
                settings.models@,
                trimmed(provider_id),
                trimmed(model),
            ) ==> session == Err::<SessionView, Seq<char>>(
                "selected model provider is not configured or model is unavailable: providerId="@
                    + trimmed(provider_id) + " model="@ + trimmed(model),
            )
            &&& named && key is Ok ==> forall|at: int| #[trigger]
                first_listed(settings.models@, trimmed(provider_id), trimmed(model), at) ==> {
                    let item = settings.models@[at];
                    let needs = "model provider "@ + trimmed(provider_id)
                        + " requires API key; configure it in Settings or set the provider-specific API key environment variable"@;
                    &&& item.diagnostic is Some ==> session == Err::<SessionView, Seq<char>>(
                        item.diagnostic->0@,
                    )
                    &&& item.diagnostic is None && item.built_in && built_in is None ==> session
                        == Err::<SessionView, Seq<char>>(
                        "unknown model provider: "@ + trimmed(provider_id),
                    )
                    &&& item.diagnostic is None && !item.built_in && item.model_api is None
                        ==> session == Err::<SessionView, Seq<char>>(
                        "custom model API is missing: providerId="@ + trimmed(provider_id)
                            + " model="@ + trimmed(model),
                    )
                    &&& item.diagnostic is None && item.built_in && built_in is Some
                        && built_in->0.auth !is Anonymous && key->Ok_0 is None ==> session == Err::<
                        SessionView,
                        Seq<char>,
                    >(needs)
                    &&& item.diagnostic is None && !item.built_in && item.model_api is Some
                        && item.model_max_output_tokens is None ==> session == Err::<
                        SessionView,
                        Seq<char>,
                    >(
                        "custom model maxOutputTokens is missing: providerId="@ + trimmed(
                            provider_id,
                        ) + " model="@ + trimmed(model),
                    )
                }
        }),
{
    law_models_are_found_by_provider_and_name(
        settings.models@,
        trimmed(provider_id),
        trimmed(model),
    );
    law_trimming_takes_off_the_whitespace_around(provider_id);
    law_trimming_takes_off_the_whitespace_around(model);
    if model_named(settings.models@, trimmed(provider_id), trimmed(model)) is Some {
        let at = choose|at: int|
            first_listed(settings.models@, trimmed(provider_id), trimmed(model), at);
        assert(first_listed(settings.models@, trimmed(provider_id), trimmed(model), at));
    }
}

/// Images may be sent exactly to a chosen model whose first entry can see them.
pub proof fn law_images_go_to_models_that_see(settings: ModelSettings)
    ensures
        vision_error(settings) is None <==> settings.model_provider_id is Some && settings.model
            is Some && exists|at: int| #[trigger]
            first_listed(
                settings.models@,
                settings.model_provider_id->0@,
                settings.model->0@,
                at,
            ) && settings.models@[at].supports_vision,
{
    if settings.model_provider_id is Some && settings.model is Some {
        law_models_are_found_by_provider_and_name(
            settings.models@,
            settings.model_provider_id->0@,
            settings.model->0@,
        );
        if model_named(
            settings.models@,
            settings.model_provider_id->0@,
            settings.model->0@,
        ) is Some {
            let at = choose|at: int|
                first_listed(
                    settings.models@,
                    settings.model_provider_id->0@,
                    settings.model->0@,
                    at,
                );
            assert(first_listed(
                settings.models@,
                settings.model_provider_id->0@,
                settings.model->0@,
                at,
            ));
        }
    }
}

/// The user has chosen a model exactly where both its provider and its name say something.
pub proof fn law_models_are_chosen_by_both_names(settings: ModelSettings)
    ensures
        ({
            let named = settings.model_provider_id is Some && !blank(
                settings.model_provider_id->0@,
            ) && settings.model is Some && !blank(settings.model->0@);
            &&& named ==> chosen_model(settings) == Ok::<(Seq<char>, Seq<char>), Seq<char>>(
                (trimmed(settings.model_provider_id->0@), trimmed(settings.model->0@)),
            )
            &&& !named ==> chosen_model(settings) == Err::<(Seq<char>, Seq<char>), Seq<char>>(
                "global model is not configured; configure a model in Settings"@,
            )
        }),
{
    if settings.model_provider_id is Some {
        law_trimming_takes_off_the_whitespace_around(settings.model_provider_id->0@);
    }
    if settings.model is Some {
        law_trimming_takes_off_the_whitespace_around(settings.model->0@);
    }
}

/// A key in a header is the key of the user without the whitespace around it, behind the prefix
/// that the header had, or behind the name of the scheme where there was no header.
pub proof fn law_headers_hold_the_key(source: AuthSpec, key: Seq<char>, made: AuthSpec)
    requires
        made@ == authorised(source@, key),
    ensures
        made matches AuthSpec::StaticHeader { header_name, value } && match source {
            AuthSpec::StaticHeader { header_name: own, value: _ } => header_name@ == own@ && value@
                == trimmed(key),
            AuthSpec::BearerEnv { source: _ } => header_name@ == "authorization"@ && value@
                == "Bearer "@ + trimmed(key),
            AuthSpec::Anonymous => header_name@ == "authorization"@ && value@ == "Bearer "@
                + trimmed(key),
            AuthSpec::ApiKeyEnv { source: _, header_name: own, prefix } => header_name@ == own@
                && value@ == if prefix is Some && !blank(prefix->0@) {
                trimmed(prefix->0@) + " "@ + trimmed(key)
            } else {
                trimmed(key)
            },
            AuthSpec::CommandToken { source: _, header_name: own, prefix } => header_name@ == own@
                && value@ == if prefix is Some && !blank(prefix->0@) {
                trimmed(prefix->0@) + " "@ + trimmed(key)
            } else {
                trimmed(key)
            },
        },
{
    match source {
        AuthSpec::ApiKeyEnv { source: _, header_name: _, prefix } => {
            if prefix is Some {
                law_trimming_takes_off_the_whitespace_around(prefix->0@);
            }
        },
        AuthSpec::CommandToken { source: _, header_name: _, prefix } => {
            if prefix is Some {
                law_trimming_takes_off_the_whitespace_around(prefix->0@);
            }
        },
        _ => {},
    }
}

/// Each form of requests has a client of its own, and no other form has one.
pub proof fn law_clients_speak_one_form(a: WireApi, b: WireApi)
    ensures
        client_for(a@) is None <==> a is Other,
        client_for(a@) is Some && client_for(a@) == client_for(b@) ==> a@ == b@,
        a is AnthropicMessages ==> client_for(a@) == Some(ModelClient::AnthropicMessages),
        a is OpenAiResponses ==> client_for(a@) == Some(ModelClient::OpenAiResponses),
{
}

/// The test of a model asks the same model at the same place, but waits at most fifteen seconds,
/// does not try again and asks for 32 tokens.
pub proof fn law_tests_ask_shortly(config: ModelSessionConfig, made: ModelSessionConfig)
    requires
        made@ == test_config(config@),
    ensures
        made.provider_id@ == config.provider_id@,
        made.model@ == config.model@,
        made.provider_kind@ == config.provider_kind@,
        same_text(made.api_base, config.api_base),
        same_text(made.thinking_mode, config.thinking_mode),
        made.defaults.timeout_ms == 15_000,
        made.defaults.max_retries == 0,
        made.defaults.retry_backoff_ms == config.defaults.retry_backoff_ms,
        made.max_output_tokens == 32,
{
}

/// A failure is told by the code of the provider where that says something, else by its message.
pub proof fn law_failures_are_told_by_their_code(code: Seq<char>, message: Seq<char>)
    ensures
        !blank(code) ==> error_keyword(Some(code), message) == keyword(code),
        blank(code) ==> error_keyword(Some(code), message) == keyword(message),
        error_keyword(None, message) == keyword(message),
{
    law_trimming_takes_off_the_whitespace_around(code);
}

/// Whether a failure of a model's client may be tried again is what its message says: a message
/// that gives the kind and says that it may be is followed, one that says anything else is not, and
/// nor is a message of another form.
pub proof fn law_only_failures_that_say_so_are_tried_again(
    kind: Seq<char>,
    answer: Seq<char>,
    rest: Seq<char>,
    message: Seq<char>,
)
    requires
        forall|i: int| 0 <= i < kind.len() ==> (#[trigger] kind[i]) != ',',
        forall|i: int| 0 <= i < answer.len() ==> (#[trigger] answer[i]) != ')',
    ensures
        retryable(
            "model_client_error(kind="@ + kind + ",retryable="@ + answer + "): "@ + rest,
        ) <==> answer == "true"@,
        retryable(message) ==> exists|kind: Seq<char>, rest: Seq<char>|
            message == #[trigger] ("model_client_error(kind="@ + kind + ",retryable="@ + "true"@
                + "): "@ + rest),
{
    reveal_strlit("model_client_error(kind=");
    reveal_strlit(",retryable=");
    reveal_strlit("): ");
    let head = "model_client_error(kind="@;
    let mark = ",retryable="@;
    let end = "): "@;
    let whole = head + kind + mark + answer + end + rest;
    let metadata = kind + mark + answer + end + rest;
    let tail = answer + end + rest;
    assert(whole.subrange(0, head.len() as int) =~= head);
    assert(whole.subrange(head.len() as int, whole.len() as int) =~= metadata);
    assert(metadata.subrange(kind.len() as int, (kind.len() + mark.len()) as int) =~= mark);
    assert forall|j: int| 0 <= j < kind.len() implies !#[trigger] occurs_at(metadata, mark, j) by {
        if occurs_at(metadata, mark, j) {
            assert(metadata.subrange(j, j + mark.len())[0] == metadata[j]);
            assert(metadata[j] == kind[j]);
            assert(mark[0] == ',');
        }
    }
    lemma_first_unique(metadata, mark, kind.len() as int);
    assert(metadata.subrange((kind.len() + mark.len()) as int, metadata.len() as int) =~= tail);
    assert(metadata.subrange(0, kind.len() as int) =~= kind);
    assert(tail.subrange(answer.len() as int, (answer.len() + end.len()) as int) =~= end);
    assert forall|j: int| 0 <= j < answer.len() implies !#[trigger] occurs_at(tail, end, j) by {
        if occurs_at(tail, end, j) {
            assert(tail.subrange(j, j + end.len())[0] == tail[j]);
            assert(tail[j] == answer[j]);
            assert(end[0] == ')');
        }
    }
    lemma_first_unique(tail, end, answer.len() as int);
    assert(tail.subrange(0, answer.len() as int) =~= answer);
    if retryable(message) {
        let given = after_prefix(message, head)->0;
        let parts = split_at_text(given, mark)->0;
        let said = split_at_text(parts.1, end)->0;
        let at = crate::text::first_occurrence(given, mark)->0;
        let to = crate::text::first_occurrence(parts.1, end)->0;
        assert(occurs_at(given, mark, at));
        assert(occurs_at(parts.1, end, to));
        assert(parts.1 =~= said.0 + end + said.1);
        assert(given =~= parts.0 + mark + parts.1);
        assert(message =~= head + given);
        assert(message =~= head + parts.0 + mark + "true"@ + end + said.1);
    }
}

} // verus!
