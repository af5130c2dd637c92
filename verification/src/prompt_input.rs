//! What a user sends to an agent: prompts, supplements, answers to questions, and requests to
//! answer at once or to compact the context.

use crate::digest::{tagged, tagged_text_digest};
use crate::json::{
    field, json_parsed, json_text, json_views, keys_distinct, lemma_entry_at, list, object2, plain, text_json, write_json,
    Json, JsonView,
};
use crate::local_attachments::LocalImageInputRequest;
use crate::message_log::{run_views, ProjectedAgentRun, RunView};
use crate::observation_cas::{agrees, optional_json};
use crate::operation_receipts::{deterministic_identity, identity};
use crate::text::{
    begins_with, blank, concat2, concat3, ends_with_text,
    law_trimming_takes_off_the_whitespace_around, normalize_optional_string, normalized, occurs_at,
    occurs_in, optional_text, required, required_string, text_equals, texts, trim, trimmed,
};
use vstd::prelude::*;
use vstd::utf8::encode_utf8;

verus! {

pub const SESSION_PROMPT_METHOD: &'static str = "session/prompt";

/// A prompt to a session.
#[derive(Debug)]
pub struct AgentInputRequest {
    pub operation_id: String,
    pub session_id: Option<String>,
    pub message: String,
    pub tail_policy: Option<String>,
    pub rewrite_target_message_id: Option<String>,
    pub rewrite_expected_tail_message_id: Option<String>,
    pub auto_continue_after_resume_wait: Option<bool>,
    pub attachments: Vec<LocalImageInputRequest>,
}

/// The answer to a prompt: the identities of the run that it started.
#[derive(Debug)]
pub struct AgentInputResponse {
    pub session_id: String,
    pub agent_run_id: String,
    pub turn_id: String,
    pub stream_items: Vec<Json>,
}

pub struct ResponseView {
    pub session: Seq<char>,
    pub run: Seq<char>,
    pub turn: Seq<char>,
    pub items: Seq<JsonView>,
}

impl View for AgentInputResponse {
    type V = ResponseView;

    open spec fn view(&self) -> ResponseView {
        ResponseView {
            session: self.session_id@,
            run: self.agent_run_id@,
            turn: self.turn_id@,
            items: crate::json::json_views(self.stream_items@),
        }
    }
}

/// The last message of the user that a prompt takes the place of.
#[derive(Debug)]
pub struct RewriteLastUserInput {
    pub target_chat_message_id: String,
    pub expected_tail_chat_message_id: String,
}

pub struct RewriteView {
    pub target: Seq<char>,
    pub expected_tail: Seq<char>,
}

impl View for RewriteLastUserInput {
    type V = RewriteView;

    open spec fn view(&self) -> RewriteView {
        RewriteView {
            target: self.target_chat_message_id@,
            expected_tail: self.expected_tail_chat_message_id@,
        }
    }
}

pub open spec fn optional_rewrite(value: Option<RewriteLastUserInput>) -> Option<RewriteView> {
    match value {
        Some(rewrite) => Some(rewrite@),
        None => None,
    }
}

/// Why a prompt is refused.
#[derive(Debug)]
pub struct AgentInputCommandError {
    code: &'static str,
    message: String,
}

pub struct InputErrorView {
    pub code: Seq<char>,
    pub message: Seq<char>,
}

impl View for AgentInputCommandError {
    type V = InputErrorView;

    closed spec fn view(&self) -> InputErrorView {
        InputErrorView { code: self.code@, message: self.message@ }
    }
}

/// The error of a prompt that failed.
pub open spec fn failed_error(message: Seq<char>) -> InputErrorView {
    InputErrorView { code: "session_prompt_failed"@, message }
}

/// The error of a prompt whose operation was used for another prompt.
pub open spec fn conflict_error(operation_id: Seq<char>) -> InputErrorView {
    InputErrorView {
        code: "operation_id_conflict"@,
        message: "operationId was already used for a different session/prompt request: "@
            + operation_id,
    }
}

impl AgentInputCommandError {
    pub fn code(&self) -> (result: &'static str)
        ensures
            result@ == self@.code,
    {
        self.code
    }

    pub fn message(&self) -> (result: &str)
        ensures
            result@ == self@.message,
    {
        self.message.as_str()
    }

    pub fn failed(message: &str) -> (result: AgentInputCommandError)
        ensures
            result@ == failed_error(message@),
    {
        AgentInputCommandError { code: "session_prompt_failed", message: message.to_owned() }
    }

    pub fn conflict(operation_id: &str) -> (result: AgentInputCommandError)
        ensures
            result@ == conflict_error(operation_id@),
    {
        AgentInputCommandError {
            code: "operation_id_conflict",
            message: concat2(
                "operationId was already used for a different session/prompt request: ",
                operation_id,
            ),
        }
    }
}

/// The session that a request is for.
pub open spec fn session_of(raw: Option<Seq<char>>) -> Seq<char> {
    match normalized(raw) {
        Some(id) => id,
        None => "chat-default"@,
    }
}

/// The session that a request is for.
pub fn normalize_session_id(raw: &Option<String>) -> (result: String)
    ensures
        result@ == session_of(optional_text(*raw)),
{
    match normalize_optional_string(raw) {
        Some(id) => id,
        None => "chat-default".to_owned(),
    }
}

/// The text that is there, or else the empty one.
pub open spec fn text_or_empty(value: Option<Seq<char>>) -> Seq<char> {
    match value {
        Some(text) => text,
        None => ""@,
    }
}

fn text_or_blank(value: &Option<String>) -> (result: &str)
    ensures
        result@ == text_or_empty(optional_text(*value)),
{
    match value {
        Some(text) => text.as_str(),
        None => "",
    }
}

/// What a prompt takes the place of.
pub open spec fn rewrite_of(
    policy: Option<Seq<char>>,
    target: Option<Seq<char>>,
    expected_tail: Option<Seq<char>>,
) -> Result<Option<RewriteView>, Seq<char>> {
    match normalized(policy) {
        None => Ok(None),
        Some(policy) => if policy == "append"@ {
            Ok(None)
        } else if policy == "rewriteLastUser"@ {
            match required(text_or_empty(target), "rewriteTargetMessageId"@) {
                Err(error) => Err(error),
                Ok(target) => match required(
                    text_or_empty(expected_tail),
                    "rewriteExpectedTailMessageId"@,
                ) {
                    Err(error) => Err(error),
                    Ok(expected_tail) => Ok(Some(RewriteView { target, expected_tail })),
                },
            }
        } else {
            Err("unsupported tailPolicy: "@ + policy)
        },
    }
}

/// What a prompt takes the place of.
pub fn rewrite_last_user_input_from_request(request: &AgentInputRequest) -> (result: Result<
    Option<RewriteLastUserInput>,
    String,
>)
    ensures
        agrees(
            result,
            |rewrite: Option<RewriteLastUserInput>| optional_rewrite(rewrite),
            rewrite_of(
                optional_text(request.tail_policy),
                optional_text(request.rewrite_target_message_id),
                optional_text(request.rewrite_expected_tail_message_id),
            ),
        ),
{
    let policy = match normalize_optional_string(&request.tail_policy) {
        Some(policy) => policy,
        None => {
            return Ok(None);
        },
    };
    if text_equals(policy.as_str(), "append") {
        return Ok(None);
    }
    if !text_equals(policy.as_str(), "rewriteLastUser") {
        return Err(concat2("unsupported tailPolicy: ", policy.as_str()));
    }
    let target = match required_string(
        text_or_blank(&request.rewrite_target_message_id),
        "rewriteTargetMessageId",
    ) {
        Ok(target) => target,
        Err(error) => {
            return Err(error);
        },
    };
    match required_string(
        text_or_blank(&request.rewrite_expected_tail_message_id),
        "rewriteExpectedTailMessageId",
    ) {
        Ok(expected_tail) => Ok(
            Some(
                RewriteLastUserInput {
                    target_chat_message_id: target,
                    expected_tail_chat_message_id: expected_tail,
                },
            ),
        ),
        Err(error) => Err(error),
    }
}

/// The JSON value of an image of a prompt.
pub open spec fn attachment_json(attachment: LocalImageInputRequest) -> JsonView {
    JsonView::Object(
        seq![
            ("placeholder"@, JsonView::Text(attachment.placeholder@)),
            ("localPath"@, JsonView::Text(attachment.local_path@)),
        ],
    )
}

/// The JSON values of the images of a prompt.
pub open spec fn attachment_jsons(attachments: Seq<LocalImageInputRequest>) -> Seq<JsonView> {
    Seq::new(attachments.len(), |i: int| attachment_json(attachments[i]))
}

/// The JSON value of an optional answer.
pub open spec fn optional_bool(value: Option<bool>) -> JsonView {
    match value {
        Some(value) => JsonView::Bool(value),
        None => JsonView::Null,
    }
}

/// The policy for the tail of a session, by its name.
pub open spec fn policy_name(rewrite: Option<RewriteView>) -> Seq<char> {
    match rewrite {
        Some(_) => "rewriteLastUser"@,
        None => "append"@,
    }
}

/// The message that a prompt replaces.
pub open spec fn rewrite_target(rewrite: Option<RewriteView>) -> Option<Seq<char>> {
    match rewrite {
        Some(rewrite) => Some(rewrite.target),
        None => None,
    }
}

/// The message that a prompt takes for the last.
pub open spec fn rewrite_tail(rewrite: Option<RewriteView>) -> Option<Seq<char>> {
    match rewrite {
        Some(rewrite) => Some(rewrite.expected_tail),
        None => None,
    }
}

/// The JSON value that two prompts share exactly where they ask for the same.
pub open spec fn canonical_value(
    session: Seq<char>,
    message: Seq<char>,
    rewrite: Option<RewriteView>,
    auto_continue: Option<bool>,
    attachments: Seq<LocalImageInputRequest>,
) -> JsonView {
    JsonView::Object(
        seq![
            ("sessionId"@, JsonView::Text(session)),
            ("message"@, JsonView::Text(message)),
            ("tailPolicy"@, JsonView::Text(policy_name(rewrite))),
            ("rewriteTargetMessageId"@, optional_json(rewrite_target(rewrite))),
            ("rewriteExpectedTailMessageId"@, optional_json(rewrite_tail(rewrite))),
            ("autoContinueAfterResumeWait"@, optional_bool(auto_continue)),
            ("attachments"@, JsonView::List(attachment_jsons(attachments))),
        ],
    )
}

proof fn lemma_canonical_plain(
    session: Seq<char>,
    message: Seq<char>,
    rewrite: Option<RewriteView>,
    auto_continue: Option<bool>,
    attachments: Seq<LocalImageInputRequest>,
)
    ensures
        plain(canonical_value(session, message, rewrite, auto_continue, attachments), 100),
{
    reveal_strlit("sessionId");
    reveal_strlit("message");
    reveal_strlit("tailPolicy");
    reveal_strlit("rewriteTargetMessageId");
    reveal_strlit("rewriteExpectedTailMessageId");
    reveal_strlit("autoContinueAfterResumeWait");
    reveal_strlit("attachments");
    reveal_strlit("placeholder");
    reveal_strlit("localPath");
    assert("sessionId"@.len() == 9 && "message"@.len() == 7 && "tailPolicy"@.len() == 10);
    assert("rewriteTargetMessageId"@.len() == 22 && "rewriteExpectedTailMessageId"@.len() == 28);
    assert("autoContinueAfterResumeWait"@.len() == 27 && "attachments"@.len() == 11);
    assert("placeholder"@.len() == 11 && "localPath"@.len() == 9);
    let items = attachment_jsons(attachments);
    assert forall|i: int| 0 <= i < items.len() implies plain(#[trigger] items[i], 98) by {
        let inner = items[i]->Object_0;
        assert(inner[0].0 == "placeholder"@ && inner[1].0 == "localPath"@);
        assert(keys_distinct(inner));
        assert forall|j: int| 0 <= j < inner.len() implies plain((#[trigger] inner[j]).1, 97) by {
        }
    }
    let value = canonical_value(session, message, rewrite, auto_continue, attachments);
    let entries = value->Object_0;
    assert(entries[0].0 == "sessionId"@ && entries[1].0 == "message"@ && entries[2].0
        == "tailPolicy"@ && entries[3].0 == "rewriteTargetMessageId"@ && entries[4].0
        == "rewriteExpectedTailMessageId"@ && entries[5].0 == "autoContinueAfterResumeWait"@
        && entries[6].0 == "attachments"@);
    assert(keys_distinct(entries));
    assert(plain(entries[6].1, 99));
    assert forall|j: int| 0 <= j < entries.len() implies plain((#[trigger] entries[j]).1, 99) by {
    }
}

fn attachments_json(attachments: &Vec<LocalImageInputRequest>) -> (result: Json)
    ensures
        result@ == JsonView::List(attachment_jsons(attachments@)),
{
    let mut items: Vec<Json> = Vec::new();
    let mut i: usize = 0;
    while i < attachments.len()
        invariant
            i <= attachments.len(),
            items.len() == i,
            forall|j: int| 0 <= j < i ==> (#[trigger] items@[j])@ == attachment_json(attachments@[j]),
        decreases attachments.len() - i,
    {
        items.push(
            object2(
                "placeholder",
                text_json(attachments[i].placeholder.as_str()),
                "localPath",
                text_json(attachments[i].local_path.as_str()),
            ),
        );
        i = i + 1;
    }
    assert(json_views(items@) =~= attachment_jsons(attachments@));
    list(items)
}

fn json_of_optional(value: &Option<String>) -> (result: Json)
    ensures
        result@ == optional_json(optional_text(*value)),
{
    match value {
        Some(text) => text_json(text.as_str()),
        None => Json::Null,
    }
}

/// The text that two prompts share exactly where they ask for the same. It reads back as the value
/// that was written.
pub fn canonical_request(
    session_id: &str,
    message: &str,
    rewrite: &Option<RewriteLastUserInput>,
    auto_continue_after_resume_wait: Option<bool>,
    attachments: &Vec<LocalImageInputRequest>,
) -> (result: String)
    ensures
        ({
            let value = canonical_value(
                session_id@,
                message@,
                optional_rewrite(*rewrite),
                auto_continue_after_resume_wait,
                attachments@,
            );
            &&& result@ == json_text(value)
            &&& json_parsed(result@) == Ok::<JsonView, Seq<char>>(value)
        }),
{
    let (policy, target, tail): (&str, Option<String>, Option<String>) = match rewrite {
        Some(rewrite) => (
            "rewriteLastUser",
            Some(rewrite.target_chat_message_id.clone()),
            Some(rewrite.expected_tail_chat_message_id.clone()),
        ),
        None => ("append", None, None),
    };
    let auto_continue = match auto_continue_after_resume_wait {
        Some(value) => Json::Bool(value),
        None => Json::Null,
    };
    let mut entries: Vec<(String, Json)> = Vec::new();
    entries.push(("sessionId".to_owned(), text_json(session_id)));
    entries.push(("message".to_owned(), text_json(message)));
    entries.push(("tailPolicy".to_owned(), text_json(policy)));
    entries.push(("rewriteTargetMessageId".to_owned(), json_of_optional(&target)));
    entries.push(("rewriteExpectedTailMessageId".to_owned(), json_of_optional(&tail)));
    entries.push(("autoContinueAfterResumeWait".to_owned(), auto_continue));
    entries.push(("attachments".to_owned(), attachments_json(attachments)));
    let value = Json::Object(entries);
    proof {
        let wanted = canonical_value(
            session_id@,
            message@,
            optional_rewrite(*rewrite),
            auto_continue_after_resume_wait,
            attachments@,
        );
        assert(optional_text(target) == rewrite_target(optional_rewrite(*rewrite)));
        assert(optional_text(tail) == rewrite_tail(optional_rewrite(*rewrite)));
        assert(auto_continue@ == optional_bool(auto_continue_after_resume_wait));
        let given = value@->Object_0;
        let expected = wanted->Object_0;
        assert(given.len() == 7 && expected.len() == 7);
        assert(given[0] == expected[0] && given[1] == expected[1] && given[2] == expected[2]);
        assert(given[3] == expected[3] && given[4] == expected[4] && given[5] == expected[5]);
        assert(given[6] == expected[6]);
        assert(given =~= expected);
        lemma_canonical_plain(
            session_id@,
            message@,
            optional_rewrite(*rewrite),
            auto_continue_after_resume_wait,
            attachments@,
        );
    }
    write_json(&value)
}

/// What a prompt asks for.
pub struct PromptView {
    pub message: Seq<char>,
    pub rewrite: Option<RewriteView>,
    /// The digest of the text that it shares with the prompts that ask for the same.
    pub digest: Seq<char>,
    /// The answer that it is owed.
    pub response: ResponseView,
}

/// The answer that an operation is owed.
pub open spec fn expected_response(session: Seq<char>, operation_id: Seq<char>) -> ResponseView {
    ResponseView {
        session,
        run: identity("agent-run-"@, SESSION_PROMPT_METHOD@, operation_id),
        turn: identity("turn-"@, SESSION_PROMPT_METHOD@, operation_id),
        items: Seq::empty(),
    }
}

/// The JSON value that a request shares exactly with the requests that ask for the same.
pub open spec fn asked(request: AgentInputRequest) -> JsonView {
    canonical_value(
        session_of(optional_text(request.session_id)),
        trimmed(request.message@),
        rewrite_of(
            optional_text(request.tail_policy),
            optional_text(request.rewrite_target_message_id),
            optional_text(request.rewrite_expected_tail_message_id),
        )->Ok_0,
        request.auto_continue_after_resume_wait,
        request.attachments@,
    )
}

/// Whether the text of what a request asks for reads back as it was written.
pub open spec fn asked_reads_back(request: AgentInputRequest) -> bool {
    json_parsed(json_text(asked(request))) == Ok::<JsonView, Seq<char>>(asked(request))
}

/// What a prompt asks for.
pub open spec fn prompt_of(request: AgentInputRequest) -> Result<PromptView, InputErrorView> {
    let session = session_of(optional_text(request.session_id));
    match required(request.message@, "message"@) {
        Err(error) => Err(failed_error(error)),
        Ok(message) => match rewrite_of(
            optional_text(request.tail_policy),
            optional_text(request.rewrite_target_message_id),
            optional_text(request.rewrite_expected_tail_message_id),
        ) {
            Err(error) => Err(failed_error(error)),
            Ok(rewrite) => if rewrite is Some && request.attachments@.len() > 0 {
                Err(failed_error("rewriteLastUser does not support input images"@))
            } else {
                Ok(
                    PromptView {
                        message,
                        rewrite,
                        digest: tagged(encode_utf8(json_text(asked(request)))),
                        response: expected_response(session, request.operation_id@),
                    },
                )
            },
        },
    }
}

/// A prompt that can be carried out.
#[derive(Debug)]
pub struct Prompt {
    pub message: String,
    pub rewrite: Option<RewriteLastUserInput>,
    pub digest: String,
    pub response: AgentInputResponse,
}

impl View for Prompt {
    type V = PromptView;

    open spec fn view(&self) -> PromptView {
        PromptView {
            message: self.message@,
            rewrite: optional_rewrite(self.rewrite),
            digest: self.digest@,
            response: self.response@,
        }
    }
}

/// What a prompt asks for, or why it is refused.
pub fn plan_input(request: &AgentInputRequest) -> (result: Result<Prompt, AgentInputCommandError>)
    ensures
        match result {
            Ok(prompt) => prompt_of(*request) == Ok::<PromptView, InputErrorView>(prompt@),
            Err(error) => prompt_of(*request) == Err::<PromptView, InputErrorView>(error@),
        },
        result is Ok ==> asked_reads_back(*request),
{
    let session_id = normalize_session_id(&request.session_id);
    let message = match required_string(request.message.as_str(), "message") {
        Ok(message) => message,
        Err(error) => {
            return Err(AgentInputCommandError::failed(error.as_str()));
        },
    };
    let rewrite = match rewrite_last_user_input_from_request(request) {
        Ok(rewrite) => rewrite,
        Err(error) => {
            return Err(AgentInputCommandError::failed(error.as_str()));
        },
    };
    if rewrite.is_some() && request.attachments.len() > 0 {
        return Err(
            AgentInputCommandError::failed("rewriteLastUser does not support input images"),
        );
    }
    let canonical = canonical_request(
        session_id.as_str(),
        message.as_str(),
        &rewrite,
        request.auto_continue_after_resume_wait,
        &request.attachments,
    );
    let digest = tagged_text_digest(canonical.as_str());
    let response = AgentInputResponse {
        session_id,
        agent_run_id: deterministic_identity(
            "agent-run-",
            SESSION_PROMPT_METHOD,
            request.operation_id.as_str(),
        ),
        turn_id: deterministic_identity(
            "turn-",
            SESSION_PROMPT_METHOD,
            request.operation_id.as_str(),
        ),
        stream_items: Vec::new(),
    };
    assert(response@.items =~= Seq::empty());
    Ok(Prompt { message, rewrite, digest, response })
}

/// A receipt of an earlier prompt with the same operation: the digest of what that prompt asked
/// for, and its answer as far as it could be read.
#[derive(Debug)]
pub struct PromptReceipt {
    pub request_digest: String,
    pub response: Result<AgentInputResponse, String>,
}

pub struct ReceiptView {
    pub digest: Seq<char>,
    pub response: Result<ResponseView, Seq<char>>,
}

impl View for PromptReceipt {
    type V = ReceiptView;

    open spec fn view(&self) -> ReceiptView {
        ReceiptView {
            digest: self.request_digest@,
            response: match self.response {
                Ok(response) => Ok(response@),
                Err(error) => Err(error@),
            },
        }
    }
}

pub open spec fn read_receipt(read: Result<Option<PromptReceipt>, String>) -> Result<
    Option<ReceiptView>,
    Seq<char>,
> {
    match read {
        Ok(Some(receipt)) => Ok(Some(receipt@)),
        Ok(None) => Ok(None),
        Err(error) => Err(error@),
    }
}

pub open spec fn known_run(known: Result<bool, String>) -> Result<bool, Seq<char>> {
    match known {
        Ok(known) => Ok(known),
        Err(error) => Err(error@),
    }
}

/// What a prompt comes to.
#[derive(Debug)]
pub enum InputAction {
    /// The prompt was carried out before, and is answered as it was.
    Replay(AgentInputResponse),
    /// The prompt has a receipt and no run: it is started with the identities of the receipt.
    Restart(Prompt),
    /// The prompt is new: its receipt is written, and then it is started.
    Start(Prompt),
}

pub enum ActionView {
    Replay(ResponseView),
    Restart(PromptView),
    Start(PromptView),
}

impl View for InputAction {
    type V = ActionView;

    open spec fn view(&self) -> ActionView {
        match self {
            InputAction::Replay(response) => ActionView::Replay(response@),
            InputAction::Restart(prompt) => ActionView::Restart(prompt@),
            InputAction::Start(prompt) => ActionView::Start(prompt@),
        }
    }
}

/// What a prompt comes to, with the receipt that was read for its operation and whether the run
/// of that operation is known.
pub open spec fn input_action(
    prompt: PromptView,
    operation_id: Seq<char>,
    read: Result<Option<ReceiptView>, Seq<char>>,
    known: Result<bool, Seq<char>>,
) -> Result<ActionView, InputErrorView> {
    match read {
        Err(error) => Err(failed_error(error)),
        Ok(None) => Ok(ActionView::Start(prompt)),
        Ok(Some(receipt)) => if receipt.digest != prompt.digest {
            Err(conflict_error(operation_id))
        } else {
            match receipt.response {
                Err(error) => Err(
                    failed_error("decode persisted session/prompt result failed: "@ + error),
                ),
                Ok(response) => if response != prompt.response {
                    Err(failed_error("persisted session/prompt result identity mismatch"@))
                } else {
                    match known {
                        Err(error) => Err(failed_error(error)),
                        Ok(true) => Ok(ActionView::Replay(response)),
                        Ok(false) => Ok(ActionView::Restart(prompt)),
                    }
                },
            }
        },
    }
}

/// Whether a persisted answer is the one that is owed: answers to prompts hold no stream items.
fn same_response(persisted: &AgentInputResponse, expected: &AgentInputResponse) -> (result: bool)
    requires
        expected@.items.len() == 0,
    ensures
        result == (persisted@ == expected@),
{
    let same = text_equals(persisted.session_id.as_str(), expected.session_id.as_str())
        && text_equals(persisted.agent_run_id.as_str(), expected.agent_run_id.as_str())
        && text_equals(persisted.turn_id.as_str(), expected.turn_id.as_str())
        && persisted.stream_items.len() == 0;
    proof {
        if same {
            assert(persisted@.items =~= expected@.items);
        }
    }
    same
}

/// Decides what a prompt comes to.
pub fn input(
    request: &AgentInputRequest,
    read: &Result<Option<PromptReceipt>, String>,
    known: &Result<bool, String>,
) -> (result: Result<InputAction, AgentInputCommandError>)
    ensures
        match prompt_of(*request) {
            Err(error) => result matches Err(given) && given@ == error,
            Ok(prompt) => match input_action(
                prompt,
                request.operation_id@,
                read_receipt(*read),
                known_run(*known),
            ) {
                Ok(action) => result matches Ok(given) && given@ == action,
                Err(error) => result matches Err(given) && given@ == error,
            },
        },
        prompt_of(*request) is Ok ==> asked_reads_back(*request),
{
    let prompt = match plan_input(request) {
        Ok(prompt) => prompt,
        Err(error) => {
            return Err(error);
        },
    };
    let receipt = match read {
        Err(error) => {
            return Err(AgentInputCommandError::failed(error.as_str()));
        },
        Ok(None) => {
            return Ok(InputAction::Start(prompt));
        },
        Ok(Some(receipt)) => receipt,
    };
    if !text_equals(receipt.request_digest.as_str(), prompt.digest.as_str()) {
        return Err(AgentInputCommandError::conflict(request.operation_id.as_str()));
    }
    match &receipt.response {
        Err(error) => Err(
            AgentInputCommandError::failed(
                concat2("decode persisted session/prompt result failed: ", error.as_str()).as_str(),
            ),
        ),
        Ok(response) => {
            if !same_response(response, &prompt.response) {
                return Err(
                    AgentInputCommandError::failed(
                        "persisted session/prompt result identity mismatch",
                    ),
                );
            }
            match known {
                Err(error) => Err(AgentInputCommandError::failed(error.as_str())),
                Ok(true) => Ok(InputAction::Replay(prompt.response)),
                Ok(false) => Ok(InputAction::Restart(prompt)),
            }
        },
    }
}

/// A prompt that is sent again is answered as it was, and is started at most once: with the
/// receipt that was written for it and its run known it is replayed, and without the run it is
/// started with the same identities. Another prompt with the same operation is refused.
pub proof fn law_prompts_are_idempotent(
    request: AgentInputRequest,
    again: AgentInputRequest,
    known: Result<bool, Seq<char>>,
)
    requires
        prompt_of(request) is Ok,
        prompt_of(again) is Ok,
        again.operation_id@ == request.operation_id@,
    ensures
        ({
            let first = prompt_of(request)->Ok_0;
            let second = prompt_of(again)->Ok_0;
            let operation = request.operation_id@;
            let receipt = ReceiptView { digest: first.digest, response: Ok(first.response) };
            &&& input_action(first, operation, Ok(None), known) == Ok::<ActionView, InputErrorView>(
                ActionView::Start(first),
            )
            &&& input_action(first, operation, Ok(Some(receipt)), Ok(true)) == Ok::<
                ActionView,
                InputErrorView,
            >(ActionView::Replay(first.response))
            &&& input_action(first, operation, Ok(Some(receipt)), Ok(false)) == Ok::<
                ActionView,
                InputErrorView,
            >(ActionView::Restart(first))
            &&& second.digest != first.digest ==> input_action(
                second,
                operation,
                Ok(Some(receipt)),
                known,
            ) == Err::<ActionView, InputErrorView>(conflict_error(operation))
            &&& second.response.run == first.response.run && second.response.turn
                == first.response.turn
        }),
{
}

/// Whether two requests ask for the same: the same session, the same message, the same place in the
/// session, the same images and the same answer to what becomes of a wait.
pub open spec fn ask_alike(a: AgentInputRequest, b: AgentInputRequest) -> bool {
    let rewrite = |request: AgentInputRequest|
        rewrite_of(
            optional_text(request.tail_policy),
            optional_text(request.rewrite_target_message_id),
            optional_text(request.rewrite_expected_tail_message_id),
        )->Ok_0;
    &&& session_of(optional_text(a.session_id)) == session_of(optional_text(b.session_id))
    &&& trimmed(a.message@) == trimmed(b.message@)
    &&& rewrite(a) == rewrite(b)
    &&& a.auto_continue_after_resume_wait == b.auto_continue_after_resume_wait
    &&& a.attachments@.len() == b.attachments@.len()
    &&& forall|i: int|
        0 <= i < a.attachments@.len() ==> (#[trigger] a.attachments@[i]).placeholder@
            == b.attachments@[i].placeholder@ && a.attachments@[i].local_path@
            == b.attachments@[i].local_path@
}

/// Requests share what is digested of them exactly where they ask for the same.
pub proof fn lemma_asked(a: AgentInputRequest, b: AgentInputRequest)
    requires
        prompt_of(a) is Ok,
        prompt_of(b) is Ok,
    ensures
        ask_alike(a, b) <==> asked(a) == asked(b),
{
    let x = asked(a)->Object_0;
    let y = asked(b)->Object_0;
    let u = attachment_jsons(a.attachments@);
    let v = attachment_jsons(b.attachments@);
    if asked(a) == asked(b) {
        assert(x[0].1 == y[0].1 && x[1].1 == y[1].1 && x[2].1 == y[2].1 && x[3].1 == y[3].1);
        assert(x[4].1 == y[4].1 && x[5].1 == y[5].1 && x[6].1 == y[6].1);
        assert(u == v);
        reveal_strlit("rewriteLastUser");
        reveal_strlit("append");
        assert("rewriteLastUser"@.len() != "append"@.len());
        assert forall|i: int| 0 <= i < a.attachments@.len() implies (
        #[trigger] a.attachments@[i]).placeholder@ == b.attachments@[i].placeholder@
            && a.attachments@[i].local_path@ == b.attachments@[i].local_path@ by {
            assert(u[i] == v[i]);
            assert(u[i]->Object_0[0].1 == v[i]->Object_0[0].1);
            assert(u[i]->Object_0[1].1 == v[i]->Object_0[1].1);
        }
    }
    if ask_alike(a, b) {
        assert forall|i: int| 0 <= i < u.len() implies u[i] == v[i] by {
            assert(a.attachments@[i].placeholder@ == b.attachments@[i].placeholder@);
        }
        assert(u =~= v);
        assert(x =~= y);
    }
}

/// A prompt that asks for something else under an operation that was carried out is refused as a
/// conflict, and one that asks for the same is not: what is digested of two prompts differs where
/// they ask for different things. The digests of the two differ where the digested texts do.
pub proof fn law_changed_prompts_conflict(
    request: AgentInputRequest,
    again: AgentInputRequest,
    known: Result<bool, Seq<char>>,
)
    requires
        prompt_of(request) is Ok,
        prompt_of(again) is Ok,
        again.operation_id@ == request.operation_id@,
        asked_reads_back(request),
        asked_reads_back(again),
        prompt_of(request)->Ok_0.digest == prompt_of(again)->Ok_0.digest ==> json_text(
            asked(request),
        ) == json_text(asked(again)),
    ensures
        ({
            let first = prompt_of(request)->Ok_0;
            let second = prompt_of(again)->Ok_0;
            let operation = request.operation_id@;
            let receipt = ReceiptView { digest: first.digest, response: Ok(first.response) };
            let action = input_action(second, operation, Ok(Some(receipt)), known);
            &&& !ask_alike(request, again) ==> action == Err::<ActionView, InputErrorView>(
                conflict_error(operation),
            )
            &&& ask_alike(request, again) ==> action == input_action(
                first,
                operation,
                Ok(Some(receipt)),
                known,
            )
        }),
{
    lemma_asked(request, again);
}

/// Answers a prompt once its run was started.
pub fn confirm_started(response: AgentInputResponse, agent_run_id: &str, turn_id: &str) -> (result:
    Result<AgentInputResponse, AgentInputCommandError>)
    ensures
        if agent_run_id@ == response@.run && turn_id@ == response@.turn {
            result == Ok::<AgentInputResponse, AgentInputCommandError>(response)
        } else {
            result matches Err(error) && error@ == failed_error(
                "session/prompt started with identities that differ from its durable receipt"@,
            )
        },
{
    if text_equals(agent_run_id, response.agent_run_id.as_str()) && text_equals(
        turn_id,
        response.turn_id.as_str(),
    ) {
        Ok(response)
    } else {
        Err(
            AgentInputCommandError::failed(
                "session/prompt started with identities that differ from its durable receipt",
            ),
        )
    }
}

/// The run that was updated last; of several, the last one.
pub open spec fn last_updated(runs: Seq<RunView>) -> Option<RunView>
    decreases runs.len(),
{
    if runs.len() == 0 {
        None
    } else {
        let run = runs[runs.len() - 1];
        match last_updated(runs.subrange(0, runs.len() - 1)) {
            Some(best) => if best.updated_at > run.updated_at {
                Some(best)
            } else {
                Some(run)
            },
            None => Some(run),
        }
    }
}

fn find_last_updated(runs: &Vec<ProjectedAgentRun>) -> (result: Option<usize>)
    ensures
        match result {
            Some(at) => at < runs.len() && last_updated(run_views(runs@)) == Some(runs@[at as int]@),
            None => runs.len() == 0 && last_updated(run_views(runs@)) == None::<RunView>,
        },
{
    let ghost all = run_views(runs@);
    let mut best: Option<usize> = None;
    let mut i: usize = 0;
    assert(all.subrange(0, 0) =~= Seq::empty());
    while i < runs.len()
        invariant
            i <= runs.len(),
            all == run_views(runs@),
            match best {
                Some(at) => at < i && last_updated(all.subrange(0, i as int)) == Some(
                    runs@[at as int]@,
                ),
                None => i == 0 && last_updated(all.subrange(0, i as int)) == None::<RunView>,
            },
        decreases runs.len() - i,
    {
        let ghost next = all.subrange(0, i + 1);
        assert(next.subrange(0, i as int) =~= all.subrange(0, i as int));
        assert(next[i as int] == runs@[i as int]@);
        best =
        match best {
            Some(at) => if runs[at].updated_at_ms > runs[i].updated_at_ms {
                Some(at)
            } else {
                Some(i)
            },
            None => Some(i),
        };
        i = i + 1;
    }
    assert(all.subrange(0, all.len() as int) =~= all);
    best
}

/// The session whose context is compacted and the run that this is recorded for.
pub open spec fn compaction(session: Seq<char>, active: bool, runs: Seq<RunView>) -> Result<
    (Seq<char>, Seq<char>),
    Seq<char>,
> {
    match required(session, "sessionId"@) {
        Err(error) => Err(error),
        Ok(session) => if active {
            Err("cannot compact context while an AgentRun is active"@)
        } else {
            match last_updated(runs) {
                Some(run) => Ok((session, run.id)),
                None => Err("context compaction requires an existing AgentRun"@),
            }
        },
    }
}

/// The session whose context is compacted and the run that this is recorded for.
pub fn compact_context(session_id: &str, active: bool, runs: &Vec<ProjectedAgentRun>) -> (result:
    Result<(String, String), String>)
    ensures
        agrees(
            result,
            |found: (String, String)| (found.0@, found.1@),
            compaction(session_id@, active, run_views(runs@)),
        ),
{
    let session = match required_string(session_id, "sessionId") {
        Ok(session) => session,
        Err(error) => {
            return Err(error);
        },
    };
    if active {
        return Err("cannot compact context while an AgentRun is active".to_owned());
    }
    match find_last_updated(runs) {
        Some(at) => Ok((session, runs[at].agent_run_id.clone())),
        None => Err("context compaction requires an existing AgentRun".to_owned()),
    }
}

/// More that the user has to say to a run.
#[derive(Debug)]
pub struct AgentSupplementRequest {
    pub session_id: String,
    pub agent_run_id: String,
    pub message: String,
}

/// A supplement that is handed to its run.
#[derive(Debug)]
pub struct Supplement {
    pub session_id: String,
    pub agent_run_id: String,
    pub message: String,
}

pub struct SupplementView {
    pub session: Seq<char>,
    pub run: Seq<char>,
    pub message: Seq<char>,
}

impl View for Supplement {
    type V = SupplementView;

    open spec fn view(&self) -> SupplementView {
        SupplementView {
            session: self.session_id@,
            run: self.agent_run_id@,
            message: self.message@,
        }
    }
}

/// A supplement with all that it has to give.
pub open spec fn given_supplement(request: AgentSupplementRequest) -> Result<
    SupplementView,
    Seq<char>,
> {
    match required(request.agent_run_id@, "agentRunId"@) {
        Err(error) => Err(error),
        Ok(run) => match required(request.session_id@, "sessionId"@) {
            Err(error) => Err(error),
            Ok(session) => match required(request.message@, "message"@) {
                Err(error) => Err(error),
                Ok(message) => Ok(SupplementView { session, run, message }),
            },
        },
    }
}

/// The supplement that is handed to its run, where the run is active in its session.
pub open spec fn accepted_supplement(
    request: AgentSupplementRequest,
    active_session: Option<Seq<char>>,
) -> Result<SupplementView, Seq<char>> {
    match given_supplement(request) {
        Err(error) => Err(error),
        Ok(supplement) => match active_session {
            None => Err(
                "turn supplement rejected: active agent run not found for agentRunId="@
                    + supplement.run,
            ),
            Some(active) => if supplement.session == active {
                Ok(supplement)
            } else {
                Err(
                    "turn supplement sessionId mismatch: expected="@ + active + " actual="@
                        + supplement.session,
                )
            },
        },
    }
}

/// The supplement that is handed to its run, where the run is active in its session.
pub fn enqueue_supplement(
    request: &AgentSupplementRequest,
    active_session: &Option<String>,
) -> (result: Result<Supplement, String>)
    ensures
        agrees(
            result,
            |supplement: Supplement| supplement@,
            accepted_supplement(*request, optional_text(*active_session)),
        ),
{
    let agent_run_id = match required_string(request.agent_run_id.as_str(), "agentRunId") {
        Ok(id) => id,
        Err(error) => {
            return Err(error);
        },
    };
    let session_id = match required_string(request.session_id.as_str(), "sessionId") {
        Ok(id) => id,
        Err(error) => {
            return Err(error);
        },
    };
    let message = match required_string(request.message.as_str(), "message") {
        Ok(message) => message,
        Err(error) => {
            return Err(error);
        },
    };
    match active_session {
        None => Err(
            concat2(
                "turn supplement rejected: active agent run not found for agentRunId=",
                agent_run_id.as_str(),
            ),
        ),
        Some(active) => if text_equals(session_id.as_str(), active.as_str()) {
            Ok(Supplement { session_id, agent_run_id, message })
        } else {
            let expected = concat2("turn supplement sessionId mismatch: expected=", active.as_str());
            Err(concat3(expected.as_str(), " actual=", session_id.as_str()))
        },
    }
}

/// The answer to a supplement that was handed to its run.
#[derive(Debug)]
pub struct AgentSupplementResponse {
    pub accepted: bool,
    pub session_id: String,
    pub agent_run_id: String,
    pub queued_count: usize,
}

/// The answer to a supplement that was handed to its run, with how many the run has before it.
pub fn supplement_response(supplement: &Supplement, queued_count: usize) -> (result:
    AgentSupplementResponse)
    ensures
        result.accepted,
        result.session_id@ == supplement.session_id@,
        result.agent_run_id@ == supplement.agent_run_id@,
        result.queued_count == queued_count,
{
    AgentSupplementResponse {
        accepted: true,
        session_id: supplement.session_id.clone(),
        agent_run_id: supplement.agent_run_id.clone(),
        queued_count,
    }
}

/// What became of a request to answer at once.
#[derive(Clone, Copy, Debug, PartialEq, Eq, Structural)]
pub enum AnswerNowDisposition {
    Accepted,
    AlreadyConverging,
}

pub const ANSWER_NOW_SOURCE: &'static str = "electron.host_bridge";

/// A request to answer at once, as it is recorded for the run that is to answer.
#[derive(Debug)]
pub struct AnswerNowFact {
    pub session_id: String,
    pub turn_id: String,
    pub agent_run_id: String,
    pub source: String,
}

pub struct AnswerNowFactView {
    pub session: Seq<char>,
    pub turn: Seq<char>,
    pub run: Seq<char>,
    pub source: Seq<char>,
}

impl View for AnswerNowFact {
    type V = AnswerNowFactView;

    open spec fn view(&self) -> AnswerNowFactView {
        AnswerNowFactView {
            session: self.session_id@,
            turn: self.turn_id@,
            run: self.agent_run_id@,
            source: self.source@,
        }
    }
}

/// What is recorded of a request to answer at once, for the run `active` if it is active.
pub open spec fn answer_now_fact(run: Seq<char>, active: Option<ActiveRun>) -> Result<
    AnswerNowFactView,
    Seq<char>,
> {
    match required(run, "agentRunId"@) {
        Err(error) => Err(error),
        Ok(id) => match active {
            None => Err("agentRunNotActive"@),
            Some(active) => Ok(
                AnswerNowFactView {
                    session: active.session_id@,
                    turn: active.turn_id@,
                    run: id,
                    source: "electron.host_bridge"@,
                },
            ),
        },
    }
}

/// What is recorded of a request to answer at once.
pub fn answer_now(agent_run_id: &str, active: &Option<ActiveRun>) -> (result: Result<
    AnswerNowFact,
    String,
>)
    ensures
        agrees(
            result,
            |fact: AnswerNowFact| fact@,
            answer_now_fact(agent_run_id@, *active),
        ),
{
    match required_string(agent_run_id, "agentRunId") {
        Err(error) => Err(error),
        Ok(id) => match active {
            None => Err("agentRunNotActive".to_owned()),
            Some(active) => Ok(
                AnswerNowFact {
                    session_id: active.session_id.clone(),
                    turn_id: active.turn_id.clone(),
                    agent_run_id: id,
                    source: ANSWER_NOW_SOURCE.to_owned(),
                },
            ),
        },
    }
}

/// The answer to a request to answer at once.
#[derive(Debug)]
pub struct AgentAnswerNowResponse {
    pub accepted: bool,
    pub disposition: &'static str,
    pub session_id: String,
    pub agent_run_id: String,
    pub intervention_id: String,
}

pub struct AnswerNowView {
    pub accepted: bool,
    pub disposition: Seq<char>,
    pub session: Seq<char>,
    pub run: Seq<char>,
    pub intervention: Seq<char>,
}

impl View for AgentAnswerNowResponse {
    type V = AnswerNowView;

    open spec fn view(&self) -> AnswerNowView {
        AnswerNowView {
            accepted: self.accepted,
            disposition: self.disposition@,
            session: self.session_id@,
            run: self.agent_run_id@,
            intervention: self.intervention_id@,
        }
    }
}

/// How a request to answer at once is answered. Where the run was answering already, the request is
/// recorded again, and that it is recorded is no failure.
pub open spec fn answer_now_answer(
    disposition: AnswerNowDisposition,
    recorded: Result<(), Seq<char>>,
    fact: AnswerNowFactView,
    intervention: Seq<char>,
) -> Result<AnswerNowView, Seq<char>> {
    match disposition {
        AnswerNowDisposition::Accepted => Ok(
            AnswerNowView {
                accepted: true,
                disposition: "accepted"@,
                session: fact.session,
                run: fact.run,
                intervention,
            },
        ),
        AnswerNowDisposition::AlreadyConverging => if recorded matches Err(error) && error
            != "alreadyConverging"@ {
            Err(recorded->Err_0)
        } else {
            Ok(
                AnswerNowView {
                    accepted: false,
                    disposition: "alreadyConverging"@,
                    session: fact.session,
                    run: fact.run,
                    intervention,
                },
            )
        },
    }
}

/// Whether something was recorded.
pub open spec fn record_outcome(recorded: Result<(), String>) -> Result<(), Seq<char>> {
    match recorded {
        Ok(_) => Ok(()),
        Err(error) => Err(error@),
    }
}

/// How a request to answer at once is answered.
pub fn answer_now_response(
    disposition: AnswerNowDisposition,
    recorded: &Result<(), String>,
    fact: &AnswerNowFact,
    intervention_id: &str,
) -> (result: Result<AgentAnswerNowResponse, String>)
    ensures
        agrees(
            result,
            |response: AgentAnswerNowResponse| response@,
            answer_now_answer(disposition, record_outcome(*recorded), fact@, intervention_id@),
        ),
{
    let (accepted, name) = match disposition {
        AnswerNowDisposition::Accepted => (true, "accepted"),
        AnswerNowDisposition::AlreadyConverging => {
            match recorded {
                Err(error) => {
                    if !text_equals(error.as_str(), "alreadyConverging") {
                        return Err(error.clone());
                    }
                },
                Ok(_) => {},
            }
            (false, "alreadyConverging")
        },
    };
    Ok(
        AgentAnswerNowResponse {
            accepted,
            disposition: name,
            session_id: fact.session_id.clone(),
            agent_run_id: fact.agent_run_id.clone(),
            intervention_id: intervention_id.to_owned(),
        },
    )
}

/// The answers that say something, each on a line of its own.
pub open spec fn option_lines(answers: Seq<Seq<char>>) -> Seq<char>
    decreases answers.len(),
{
    if answers.len() == 0 {
        Seq::empty()
    } else {
        let n = answers.len() - 1;
        let before = option_lines(answers.subrange(0, n));
        if trimmed(answers[n]).len() == 0 {
            before
        } else {
            before + ("- "@ + trimmed(answers[n]) + "\n"@)
        }
    }
}

/// The message that answers a question.
pub open spec fn question_answer(
    question: Seq<char>,
    answers: Seq<Seq<char>>,
    text: Option<Seq<char>>,
) -> Result<Seq<char>, Seq<char>> {
    let options = option_lines(answers);
    let free = normalized(text);
    if options.len() == 0 && free is None {
        Err("question answer cannot be empty"@)
    } else {
        let head = "Answer for pending question "@ + question + ":"@;
        let chosen = if options.len() > 0 {
            head + ("\nSelected options:\n"@ + options)
        } else {
            head
        };
        Ok(
            match free {
                Some(text) => chosen + ("\nFree-form answer:\n"@ + text),
                None => chosen,
            },
        )
    }
}

fn write_options(answers: &Vec<String>) -> (result: String)
    ensures
        result@ == option_lines(texts(answers@)),
{
    let ghost all = texts(answers@);
    let mut result = String::new();
    let mut i: usize = 0;
    assert(all.subrange(0, 0) =~= Seq::empty());
    while i < answers.len()
        invariant
            i <= answers.len(),
            all == texts(answers@),
            result@ == option_lines(all.subrange(0, i as int)),
        decreases answers.len() - i,
    {
        let answer = trim(answers[i].as_str());
        let ghost next = all.subrange(0, i + 1);
        assert(next.subrange(0, i as int) =~= all.subrange(0, i as int));
        assert(next[i as int] == answers@[i as int]@);
        if !answer.is_empty() {
            result.append(concat3("- ", answer, "\n").as_str());
        }
        i = i + 1;
    }
    assert(all.subrange(0, all.len() as int) =~= all);
    result
}

/// The message that answers a question.
pub fn build_question_answer_message(
    question_id: &str,
    answers: &Vec<String>,
    answer_text: &Option<String>,
) -> (result: Result<String, String>)
    ensures
        agrees(
            result,
            |message: String| message@,
            question_answer(question_id@, texts(answers@), optional_text(*answer_text)),
        ),
{
    let options = write_options(answers);
    let text = normalize_optional_string(answer_text);
    if options.as_str().is_empty() && text.is_none() {
        return Err("question answer cannot be empty".to_owned());
    }
    let mut message = concat3("Answer for pending question ", question_id, ":");
    if !options.as_str().is_empty() {
        message.append(concat2("\nSelected options:\n", options.as_str()).as_str());
    }
    match text {
        Some(text) => {
            message.append(concat2("\nFree-form answer:\n", text.as_str()).as_str());
        },
        None => {},
    }
    Ok(message)
}

/// What a checkpoint of a session says of the turn that it was taken in.
#[derive(Debug)]
pub struct SessionCheckpoint {
    pub turn_id: String,
    pub status: String,
    pub done_reason: Option<String>,
}

/// Whether a turn was left for the answer to a question.
pub open spec fn paused_for_question(checkpoint: SessionCheckpoint) -> bool {
    checkpoint.status@ == "paused_question"@ || optional_text(checkpoint.done_reason) == Some(
        "question"@,
    )
}

/// The turn that was left for the answer to a question, by the newest checkpoint of the session.
pub fn latest_paused_question_turn_id(
    newest: &Option<SessionCheckpoint>,
    session_id: &str,
) -> (result: Result<String, String>)
    ensures
        agrees(
            result,
            |turn: String| turn@,
            match newest {
                Some(checkpoint) if paused_for_question(*checkpoint) => Ok(checkpoint.turn_id@),
                _ => Err("paused question checkpoint not found for sessionId="@ + session_id@),
            },
        ),
{
    match newest {
        Some(checkpoint) => {
            let asked = match &checkpoint.done_reason {
                Some(reason) => text_equals(reason.as_str(), "question"),
                None => false,
            };
            if text_equals(checkpoint.status.as_str(), "paused_question") || asked {
                return Ok(checkpoint.turn_id.clone());
            }
        },
        None => {},
    }
    Err(concat2("paused question checkpoint not found for sessionId=", session_id))
}

/// The run that is active in a session.
#[derive(Debug)]
pub struct ActiveRun {
    pub session_id: String,
    pub agent_run_id: String,
    pub turn_id: String,
}

/// What the answer to a question comes to.
#[derive(Debug)]
pub enum QuestionAnswer {
    /// The message is handed to the active run as a supplement, and the run is the answer.
    Supplement { request: AgentSupplementRequest, response: AgentInputResponse },
    /// A run is started with the message, from the turn that was left.
    Start { session_id: String, message: String, resume_from_turn_id: String },
}

/// Decides what the answer to a question comes to.
pub fn question_answer_action(
    session_id: &Option<String>,
    question_id: &str,
    answers: &Vec<String>,
    answer_text: &Option<String>,
    paused_turn: &Result<String, String>,
    active: &Option<ActiveRun>,
) -> (result: Result<QuestionAnswer, String>)
    ensures
        ({
            let session = session_of(optional_text(*session_id));
            match required(question_id@, "questionId"@) {
                Err(error) => result matches Err(given) && given@ == error,
                Ok(question) => match question_answer(
                    question,
                    texts(answers@),
                    optional_text(*answer_text),
                ) {
                    Err(error) => result matches Err(given) && given@ == error,
                    Ok(text) => match paused_turn {
                        Err(error) => result matches Err(given) && given@ == error@,
                        Ok(turn) => match active {
                            Some(run) => result matches Ok(
                                QuestionAnswer::Supplement { request, response },
                            ) && request.session_id@ == session && request.agent_run_id@
                                == run.agent_run_id@ && request.message@ == text && response@ == (
                            ResponseView {
                                session,
                                run: run.agent_run_id@,
                                turn: run.turn_id@,
                                items: Seq::empty(),
                            }),
                            None => result matches Ok(
                                QuestionAnswer::Start {
                                    session_id: given,
                                    message,
                                    resume_from_turn_id,
                                },
                            ) && given@ == session && message@ == text && resume_from_turn_id@
                                == turn@,
                        },
                    },
                },
            }
        }),
{
    let session = normalize_session_id(session_id);
    let question = match required_string(question_id, "questionId") {
        Ok(question) => question,
        Err(error) => {
            return Err(error);
        },
    };
    let message = match build_question_answer_message(question.as_str(), answers, answer_text) {
        Ok(message) => message,
        Err(error) => {
            return Err(error);
        },
    };
    let turn = match paused_turn {
        Ok(turn) => turn.clone(),
        Err(error) => {
            return Err(error.clone());
        },
    };
    match active {
        Some(run) => {
            let response = AgentInputResponse {
                session_id: session.clone(),
                agent_run_id: run.agent_run_id.clone(),
                turn_id: run.turn_id.clone(),
                stream_items: Vec::new(),
            };
            assert(response@.items =~= Seq::empty());
            Ok(
                QuestionAnswer::Supplement {
                    request: AgentSupplementRequest {
                        session_id: session,
                        agent_run_id: run.agent_run_id.clone(),
                        message,
                    },
                    response,
                },
            )
        },
        None => Ok(
            QuestionAnswer::Start { session_id: session, message, resume_from_turn_id: turn },
        ),
    }
}

/// Whether no option of an answer says anything.
pub open spec fn all_blank(answers: Seq<String>) -> bool {
    forall|i: int| 0 <= i < answers.len() ==> blank((#[trigger] answers[i])@)
}

/// Whether the free text of an answer says something.
pub open spec fn says_something(text: Option<String>) -> bool {
    text matches Some(text) && !blank(text@)
}

proof fn lemma_option_lines(answers: Seq<String>)
    ensures
        option_lines(texts(answers)).len() == 0 <==> all_blank(answers),
        forall|i: int|
            0 <= i < answers.len() && !blank((#[trigger] answers[i])@) ==> occurs_in(
                option_lines(texts(answers)),
                "- "@ + trimmed(answers[i]@) + "\n"@,
            ),
    decreases answers.len(),
{
    reveal_strlit("- ");
    reveal_strlit("\n");
    let all = texts(answers);
    if answers.len() > 0 {
        let n = answers.len() - 1;
        let init = answers.subrange(0, n);
        lemma_option_lines(init);
        assert(texts(init) =~= all.subrange(0, n));
        law_trimming_takes_off_the_whitespace_around(answers[n]@);
        let before = option_lines(all.subrange(0, n));
        let line = "- "@ + trimmed(answers[n]@) + "\n"@;
        assert(all[n] == answers[n]@);
        if all_blank(answers) {
            assert forall|i: int| 0 <= i < init.len() implies blank((#[trigger] init[i])@) by {
                assert(init[i] == answers[i]);
            }
            assert(blank(answers[n]@));
        }
        if option_lines(all).len() == 0 {
            assert forall|i: int| 0 <= i < answers.len() implies blank(
                (#[trigger] answers[i])@,
            ) by {
                if i < n {
                    assert(init[i] == answers[i]);
                }
            }
        }
        assert forall|i: int| 0 <= i < answers.len() && !blank((#[trigger] answers[i])@) implies
            occurs_in(option_lines(all), "- "@ + trimmed(answers[i]@) + "\n"@) by {
            let own = "- "@ + trimmed(answers[i]@) + "\n"@;
            if i < n {
                assert(init[i] == answers[i]);
                let at = choose|at: int| occurs_at(before, own, at);
                assert(option_lines(all).subrange(at, at + own.len()) =~= before.subrange(
                    at,
                    at + own.len(),
                ));
                assert(occurs_at(option_lines(all), own, at));
            } else {
                assert(option_lines(all).subrange(
                    before.len() as int,
                    (before.len() + line.len()) as int,
                ) =~= line);
                assert(occurs_at(option_lines(all), line, before.len() as int));
            }
        }
    }
}

/// An answer is refused exactly where neither an option nor the free text says anything. Every
/// other answer names its question, holds a line for each option that says something, with or
/// without free text, and ends with the free text that says something.
pub proof fn law_answers_hold_all_that_was_said(
    question: Seq<char>,
    answers: Seq<String>,
    text: Option<String>,
)
    ensures
        question_answer(question, texts(answers), optional_text(text)) is Err <==> all_blank(
            answers,
        ) && !says_something(text),
        question_answer(question, texts(answers), optional_text(text)) matches Ok(message) ==> {
            &&& begins_with(message, "Answer for pending question "@ + question + ":"@)
            &&& forall|i: int|
                0 <= i < answers.len() && !blank((#[trigger] answers[i])@) ==> occurs_in(
                    message,
                    "- "@ + trimmed(answers[i]@) + "\n"@,
                )
            &&& says_something(text) ==> ends_with_text(
                message,
                "\nFree-form answer:\n"@ + trimmed(text->0@),
            )
        },
{
    let all = texts(answers);
    let options = option_lines(all);
    lemma_option_lines(answers);
    if text is Some {
        law_trimming_takes_off_the_whitespace_around(text->0@);
    }
    let result = question_answer(question, all, optional_text(text));
    if result is Ok {
        let message = result->Ok_0;
        let head = "Answer for pending question "@ + question + ":"@;
        let mark = "\nSelected options:\n"@;
        assert(message.subrange(0, head.len() as int) =~= head);
        assert forall|i: int| 0 <= i < answers.len() && !blank((#[trigger] answers[i])@) implies
            occurs_in(message, "- "@ + trimmed(answers[i]@) + "\n"@) by {
            let own = "- "@ + trimmed(answers[i]@) + "\n"@;
            let at = choose|at: int| occurs_at(options, own, at);
            let from = head.len() + mark.len();
            assert(message.subrange(from + at, from + at + own.len()) =~= options.subrange(
                at,
                at + own.len(),
            ));
            assert(occurs_at(message, own, from + at));
        }
        if says_something(text) {
            let end = "\nFree-form answer:\n"@ + trimmed(text->0@);
            assert(message.subrange(message.len() - end.len(), message.len() as int) =~= end);
        }
    }
}

/// How one more option changes an answer: an option that says something adds its line to an answer
/// that has options, and the line and the mark before the options to one that has none; a blank one
/// changes nothing. Free text that says something is added to what the options give, and blank text
/// adds nothing.
pub proof fn law_answers_grow_by_what_is_said(
    question: Seq<char>,
    answers: Seq<Seq<char>>,
    option: Seq<char>,
    text: Seq<char>,
    message: Seq<char>,
)
    requires
        question_answer(question, answers, None) == Ok::<Seq<char>, Seq<char>>(message),
    ensures
        blank(option) ==> question_answer(question, answers.push(option), None) == Ok::<
            Seq<char>,
            Seq<char>,
        >(message),
        !blank(option) ==> question_answer(question, answers.push(option), None) == Ok::<
            Seq<char>,
            Seq<char>,
        >(message + ("- "@ + trimmed(option) + "\n"@)),
        blank(text) ==> question_answer(question, answers, Some(text)) == Ok::<
            Seq<char>,
            Seq<char>,
        >(message),
        !blank(text) ==> question_answer(question, answers, Some(text)) == Ok::<
            Seq<char>,
            Seq<char>,
        >(message + ("\nFree-form answer:\n"@ + trimmed(text))),
{
    law_trimming_takes_off_the_whitespace_around(option);
    law_trimming_takes_off_the_whitespace_around(text);
    let more = answers.push(option);
    assert(more.subrange(0, more.len() - 1) =~= answers);
    let head = "Answer for pending question "@ + question + ":"@;
    let mark = "\nSelected options:\n"@;
    let line = "- "@ + trimmed(option) + "\n"@;
    assert(head + (mark + (option_lines(answers) + line)) =~= head + (mark + option_lines(answers))
        + line);
}

/// What an answer of one option, and one of free text alone, is.
pub proof fn law_short_answers(question: Seq<char>, option: Seq<char>, text: Seq<char>)
    ensures
        !blank(option) ==> question_answer(question, seq![option], None) == Ok::<
            Seq<char>,
            Seq<char>,
        >(
            "Answer for pending question "@ + question + ":"@ + ("\nSelected options:\n"@ + ("- "@
                + trimmed(option) + "\n"@)),
        ),
        !blank(text) ==> question_answer(question, seq![], Some(text)) == Ok::<
            Seq<char>,
            Seq<char>,
        >(
            "Answer for pending question "@ + question + ":"@ + ("\nFree-form answer:\n"@
                + trimmed(text)),
        ),
{
    reveal_strlit("- ");
    law_trimming_takes_off_the_whitespace_around(option);
    law_trimming_takes_off_the_whitespace_around(text);
    let one = seq![option];
    assert(one.subrange(0, 0) =~= Seq::empty());
    assert(option_lines(one.subrange(0, 0)).len() == 0);
    assert(Seq::<char>::empty() + ("- "@ + trimmed(option) + "\n"@) =~= "- "@ + trimmed(option)
        + "\n"@);
    assert(option_lines(one) == option_lines(one.subrange(0, 0)) + ("- "@ + trimmed(option)
        + "\n"@) || blank(option));
}

/// Whether an optional text says something.
pub open spec fn said(text: Option<String>) -> bool {
    text matches Some(text) && !blank(text@)
}

/// The policy of a request for what follows the last input of the user, where it names one.
pub open spec fn has_policy(request: AgentInputRequest, policy: Seq<char>) -> bool {
    said(request.tail_policy) && trimmed(request.tail_policy->0@) == policy
}

/// A prompt is accepted exactly where it says something and, where it is to take the place of the
/// last input of the user, names the message that it replaces and the one that is expected behind it
/// and has no images; no other policy is known than that and to append.
pub proof fn law_prompts_are_accepted_where_they_say_something(request: AgentInputRequest)
    ensures
        prompt_of(request) is Ok <==> {
            &&& !blank(request.message@)
            &&& !said(request.tail_policy) || has_policy(request, "append"@) || (has_policy(
                request,
                "rewriteLastUser"@,
            ) && said(request.rewrite_target_message_id) && said(
                request.rewrite_expected_tail_message_id,
            ) && request.attachments@.len() == 0)
        },
        prompt_of(request) matches Err(error) ==> error.code == "session_prompt_failed"@,
{
    lemma_said(request.tail_policy);
    lemma_said(request.rewrite_target_message_id);
    lemma_said(request.rewrite_expected_tail_message_id);
    law_trimming_takes_off_the_whitespace_around(request.message@);
    reveal_strlit("append");
    reveal_strlit("rewriteLastUser");
    assert("append"@[0] == 'a' && "rewriteLastUser"@[0] == 'r');
}

proof fn lemma_said(text: Option<String>)
    ensures
        said(text) ==> normalized(optional_text(text)) == Some(trimmed(text->0@)),
        !said(text) ==> normalized(optional_text(text)) is None,
        trimmed(text_or_empty(optional_text(text))).len() > 0 <==> said(text),
        said(text) ==> text_or_empty(optional_text(text)) == text->0@,
{
    reveal_strlit("");
    assert(""@ =~= Seq::<char>::empty());
    law_trimming_takes_off_the_whitespace_around(Seq::empty());
    if text is Some {
        law_trimming_takes_off_the_whitespace_around(text->0@);
    }
}

/// A prompt carries what was asked: the message without the whitespace around it, the session that
/// was named or the one that holds without a name, and the messages that a rewrite is about; what it
/// is answered with names the session, and a run and a turn that its operation alone decides.
pub proof fn law_prompts_carry_what_was_asked(request: AgentInputRequest, prompt: Prompt)
    requires
        prompt_of(request) == Ok::<PromptView, InputErrorView>(prompt@),
    ensures
        prompt.message@ == trimmed(request.message@),
        said(request.session_id) ==> prompt.response.session_id@ == trimmed(request.session_id->0@),
        !said(request.session_id) ==> prompt.response.session_id@ == "chat-default"@,
        prompt.response.agent_run_id@ == identity(
            "agent-run-"@,
            "session/prompt"@,
            request.operation_id@,
        ),
        prompt.response.turn_id@ == identity("turn-"@, "session/prompt"@, request.operation_id@),
        prompt.response.stream_items@.len() == 0,
        prompt.rewrite is Some <==> has_policy(request, "rewriteLastUser"@),
        prompt.rewrite matches Some(rewrite) ==> rewrite.target_chat_message_id@ == trimmed(
            request.rewrite_target_message_id->0@,
        ) && rewrite.expected_tail_chat_message_id@ == trimmed(
            request.rewrite_expected_tail_message_id->0@,
        ),
        prompt.digest@ == tagged(encode_utf8(json_text(asked(request)))),
        field(asked(request), "message"@) == Some(JsonView::Text(trimmed(request.message@))),
        field(asked(request), "sessionId"@) == Some(JsonView::Text(prompt.response.session_id@)),
{
    law_prompts_are_accepted_where_they_say_something(request);
    lemma_said(request.session_id);
    lemma_said(request.tail_policy);
    lemma_said(request.rewrite_target_message_id);
    lemma_said(request.rewrite_expected_tail_message_id);
    law_trimming_takes_off_the_whitespace_around(request.message@);
    reveal_strlit("append");
    reveal_strlit("rewriteLastUser");
    assert("append"@[0] == 'a' && "rewriteLastUser"@[0] == 'r');
    assert(prompt.response@.items == json_views(prompt.response.stream_items@));
    assert(json_views(prompt.response.stream_items@).len() == prompt.response.stream_items@.len());
    reveal_strlit("sessionId");
    reveal_strlit("message");
    assert("sessionId"@[0] == 's' && "message"@[0] == 'm');
    let entries = asked(request)->Object_0;
    let rest = entries.subrange(1, entries.len() as int);
    assert(rest[0] == entries[1]);
    assert(crate::json::entry(entries, "message"@) == crate::json::entry(rest, "message"@));
}

/// The context of a session is compacted exactly where the session is named, nothing runs in it and
/// it has a run, and it is compacted for a run that no other was updated after.
pub proof fn law_contexts_are_compacted_for_the_last_run(
    session: Seq<char>,
    active: bool,
    runs: Seq<ProjectedAgentRun>,
)
    ensures
        compaction(session, active, run_views(runs)) is Ok <==> !blank(session) && !active
            && runs.len() > 0,
        compaction(session, active, run_views(runs)) matches Ok((named, run)) ==> named == trimmed(
            session,
        ) && exists|i: int|
            0 <= i < runs.len() && (#[trigger] runs[i]).agent_run_id@ == run && forall|k: int|
                0 <= k < runs.len() ==> (#[trigger] runs[k]).updated_at_ms <= runs[i].updated_at_ms,
{
    law_trimming_takes_off_the_whitespace_around(session);
    lemma_last_updated(runs);
}

proof fn lemma_last_updated(runs: Seq<ProjectedAgentRun>)
    ensures
        last_updated(run_views(runs)) is None <==> runs.len() == 0,
        last_updated(run_views(runs)) matches Some(run) ==> exists|i: int|
            0 <= i < runs.len() && (#[trigger] runs[i])@ == run && forall|k: int|
                0 <= k < runs.len() ==> (#[trigger] runs[k]).updated_at_ms <= runs[i].updated_at_ms,
    decreases runs.len(),
{
    let all = run_views(runs);
    if runs.len() > 0 {
        let n = runs.len() - 1;
        let init = runs.subrange(0, n);
        lemma_last_updated(init);
        assert(run_views(init) =~= all.subrange(0, n));
        assert(all[n] == runs[n]@);
        match last_updated(all.subrange(0, n)) {
            None => {
                assert(runs[n]@ == last_updated(all)->0);
            },
            Some(best) => {
                let i = choose|i: int|
                    0 <= i < init.len() && (#[trigger] init[i])@ == best && forall|k: int|
                        0 <= k < init.len() ==> (#[trigger] init[k]).updated_at_ms
                            <= init[i].updated_at_ms;
                assert(init[i] == runs[i]);
                let at = if best.updated_at > runs[n].updated_at_ms {
                    i
                } else {
                    n
                };
                assert(runs[at]@ == last_updated(all)->0);
                assert forall|k: int| 0 <= k < runs.len() implies (#[trigger] runs[k]).updated_at_ms
                    <= runs[at].updated_at_ms by {
                    if k < n {
                        assert(init[k] == runs[k]);
                    }
                }
            },
        }
    }
}

/// A supplement is accepted exactly where it says something to a run and a session that are named,
/// and the run is active in that session; it is handed on as it was sent.
pub proof fn law_supplements_reach_their_run(
    request: AgentSupplementRequest,
    active_session: Option<Seq<char>>,
    supplement: Supplement,
)
    ensures
        accepted_supplement(request, active_session) is Ok <==> !blank(request.agent_run_id@)
            && !blank(request.session_id@) && !blank(request.message@) && active_session == Some(
            trimmed(request.session_id@),
        ),
        accepted_supplement(request, active_session) == Ok::<SupplementView, Seq<char>>(supplement@)
            ==> supplement.session_id@ == trimmed(request.session_id@) && supplement.agent_run_id@
            == trimmed(request.agent_run_id@) && supplement.message@ == trimmed(request.message@),
{
    law_trimming_takes_off_the_whitespace_around(request.agent_run_id@);
    law_trimming_takes_off_the_whitespace_around(request.session_id@);
    law_trimming_takes_off_the_whitespace_around(request.message@);
}

/// The wish for an answer at once is recorded exactly for a run that is named and active, in the
/// session and the turn in which it is.
pub proof fn law_answers_are_wished_of_active_runs(
    run: Seq<char>,
    active: Option<ActiveRun>,
    fact: AnswerNowFact,
)
    ensures
        answer_now_fact(run, active) is Ok <==> !blank(run) && active is Some,
        !blank(run) && active is None ==> answer_now_fact(run, active) == Err::<
            AnswerNowFactView,
            Seq<char>,
        >("agentRunNotActive"@),
        answer_now_fact(run, active) == Ok::<AnswerNowFactView, Seq<char>>(fact@)
            ==> fact.session_id@ == active->0.session_id@ && fact.turn_id@ == active->0.turn_id@
            && fact.agent_run_id@ == trimmed(run) && fact.source@ == "electron.host_bridge"@,
{
    law_trimming_takes_off_the_whitespace_around(run);
}

/// What a wish for an answer is answered: that it was accepted, or that the run is about to answer
/// already, which is no failure; another failure to record the wish of a run that is about to answer
/// is reported.
pub proof fn law_wishes_are_answered_by_disposition(
    disposition: AnswerNowDisposition,
    recorded: Result<(), Seq<char>>,
    fact: AnswerNowFact,
    intervention: Seq<char>,
    response: AgentAnswerNowResponse,
)
    ensures
        answer_now_answer(disposition, recorded, fact@, intervention) is Ok <==> disposition
            is Accepted || recorded is Ok || recorded->Err_0 == "alreadyConverging"@,
        answer_now_answer(disposition, recorded, fact@, intervention) is Err ==> answer_now_answer(
            disposition,
            recorded,
            fact@,
            intervention,
        ) == Err::<AnswerNowView, Seq<char>>(recorded->Err_0),
        answer_now_answer(disposition, recorded, fact@, intervention) == Ok::<
            AnswerNowView,
            Seq<char>,
        >(response@) ==> {
            &&& response.accepted <==> disposition is Accepted
            &&& disposition is Accepted ==> response.disposition@ == "accepted"@
            &&& disposition is AlreadyConverging ==> response.disposition@ == "alreadyConverging"@
            &&& response.session_id@ == fact.session_id@
            &&& response.agent_run_id@ == fact.agent_run_id@
            &&& response.intervention_id@ == intervention
        },
{
}

/// A turn was left for a question exactly where its checkpoint says so, by its status or by its
/// reason.
pub proof fn law_questions_pause_their_turn(checkpoint: SessionCheckpoint)
    ensures
        paused_for_question(checkpoint) <==> checkpoint.status@ == "paused_question"@ || (
        checkpoint.done_reason matches Some(reason) && reason@ == "question"@),
{
}

/// A request is written down in full: the session, the message, whether it is appended or rewrites
/// the last input and, where it does, the two messages that it names, whether the run goes on by
/// itself, and every image with its placeholder and its path.
pub proof fn law_requests_are_written_down_in_full(
    session: Seq<char>,
    message: Seq<char>,
    rewrite: Option<RewriteView>,
    auto_continue: Option<bool>,
    attachments: Seq<LocalImageInputRequest>,
)
    ensures
        ({
            let value = canonical_value(session, message, rewrite, auto_continue, attachments);
            &&& field(value, "sessionId"@) == Some(JsonView::Text(session))
            &&& field(value, "message"@) == Some(JsonView::Text(message))
            &&& field(value, "tailPolicy"@) == Some(
                JsonView::Text(
                    if rewrite is Some {
                        "rewriteLastUser"@
                    } else {
                        "append"@
                    },
                ),
            )
            &&& rewrite matches Some(about) ==> field(value, "rewriteTargetMessageId"@) == Some(
                JsonView::Text(about.target),
            ) && field(value, "rewriteExpectedTailMessageId"@) == Some(
                JsonView::Text(about.expected_tail),
            )
            &&& rewrite is None ==> field(value, "rewriteTargetMessageId"@) == Some(JsonView::Null)
                && field(value, "rewriteExpectedTailMessageId"@) == Some(JsonView::Null)
            &&& auto_continue is None ==> field(value, "autoContinueAfterResumeWait"@) == Some(
                JsonView::Null,
            )
            &&& auto_continue matches Some(goes_on) ==> field(value, "autoContinueAfterResumeWait"@)
                == Some(JsonView::Bool(goes_on))
            &&& field(value, "attachments"@) matches Some(JsonView::List(images)) && images.len()
                == attachments.len() && forall|i: int|
                0 <= i < images.len() ==> field(#[trigger] images[i], "placeholder"@) == Some(
                    JsonView::Text(attachments[i].placeholder@),
                ) && field(images[i], "localPath"@) == Some(
                    JsonView::Text(attachments[i].local_path@),
                )
        }),
{
    lemma_canonical_plain(session, message, rewrite, auto_continue, attachments);
    let value = canonical_value(session, message, rewrite, auto_continue, attachments);
    let entries = value->Object_0;
    lemma_entry_at(entries, 0);
    lemma_entry_at(entries, 1);
    lemma_entry_at(entries, 2);
    lemma_entry_at(entries, 3);
    lemma_entry_at(entries, 4);
    lemma_entry_at(entries, 5);
    lemma_entry_at(entries, 6);
    let images = attachment_jsons(attachments);
    reveal_strlit("placeholder");
    reveal_strlit("localPath");
    assert("placeholder"@.len() == 11 && "localPath"@.len() == 9);
    assert forall|i: int| 0 <= i < images.len() implies field(#[trigger] images[i], "placeholder"@)
        == Some(JsonView::Text(attachments[i].placeholder@)) && field(images[i], "localPath"@)
        == Some(JsonView::Text(attachments[i].local_path@)) by {
        let inner = images[i]->Object_0;
        assert(inner[0].0 == "placeholder"@ && inner[1].0 == "localPath"@);
        assert(keys_distinct(inner));
        lemma_entry_at(inner, 0);
        lemma_entry_at(inner, 1);
    }
}

} // verus!
