//! The store of the bearer tokens that MCP servers are connected with.

use crate::sorting::{
    key_less, key_views, law_stable_order, lemma_key_order_total, places, sorted_places,
    stable_order,
};
use crate::text::{chars_of, concat2, contains, occurs_in, text_equals, text_less};
use vstd::prelude::*;

verus! {

pub const CREDENTIALS_SCHEMA: &'static str = "native.mcp.credentials.v1";

/// A bearer token of a plugin.
#[derive(Debug)]
pub struct McpBearerCredential {
    pub plugin_name: String,
    pub credential_ref: String,
    pub bearer_token: String,
    pub updated_at_ms: i64,
}

pub struct CredentialView {
    pub plugin_name: Seq<char>,
    pub credential_ref: Seq<char>,
    pub bearer_token: Seq<char>,
    pub updated_at_ms: i64,
}

impl View for McpBearerCredential {
    type V = CredentialView;

    open spec fn view(&self) -> CredentialView {
        CredentialView {
            plugin_name: self.plugin_name@,
            credential_ref: self.credential_ref@,
            bearer_token: self.bearer_token@,
            updated_at_ms: self.updated_at_ms,
        }
    }
}

/// The store of bearer tokens.
#[derive(Debug)]
pub struct McpCredentialStore {
    pub schema: String,
    pub credentials: Vec<McpBearerCredential>,
}

/// What a list of credentials holds.
pub open spec fn credential_views(credentials: Seq<McpBearerCredential>) -> Seq<CredentialView> {
    Seq::new(credentials.len(), |i: int| credentials[i]@)
}

/// What a credential is found by.
pub open spec fn key_of(credential: CredentialView) -> (Seq<char>, Seq<char>) {
    (credential.plugin_name, credential.credential_ref)
}

/// The keys of credentials.
pub open spec fn keys_of(credentials: Seq<CredentialView>) -> Seq<(Seq<char>, Seq<char>)> {
    Seq::new(credentials.len(), |i: int| key_of(credentials[i]))
}

/// The first place of a credential with the given key.
pub open spec fn found(credentials: Seq<CredentialView>, key: (Seq<char>, Seq<char>)) -> Option<int>
    decreases credentials.len(),
{
    if credentials.len() == 0 {
        None
    } else {
        let n = credentials.len() - 1;
        match found(credentials.subrange(0, n), key) {
            Some(i) => Some(i),
            None => if key_of(credentials[n]) == key {
                Some(n)
            } else {
                None
            },
        }
    }
}

/// The token under the given key.
pub open spec fn token(credentials: Seq<CredentialView>, key: (Seq<char>, Seq<char>)) -> Option<
    Seq<char>,
> {
    match found(credentials, key) {
        Some(i) => Some(credentials[i].bearer_token),
        None => None,
    }
}

/// The credentials in the order of their keys.
pub open spec fn sorted_credentials(credentials: Seq<CredentialView>) -> Seq<CredentialView> {
    Seq::new(credentials.len(), |i: int| credentials[stable_order(keys_of(credentials))[i]])
}

/// The credentials with the given one in place of the one with its key, or added.
pub open spec fn replaced_or_added(
    credentials: Seq<CredentialView>,
    credential: CredentialView,
) -> Seq<CredentialView> {
    match found(credentials, key_of(credential)) {
        Some(i) => credentials.update(i, credential),
        None => credentials.push(credential),
    }
}

/// The credentials after one was set.
pub open spec fn with_credential(
    credentials: Seq<CredentialView>,
    credential: CredentialView,
) -> Seq<CredentialView> {
    sorted_credentials(replaced_or_added(credentials, credential))
}

proof fn lemma_found(credentials: Seq<CredentialView>, key: (Seq<char>, Seq<char>))
    ensures
        match found(credentials, key) {
            Some(i) => 0 <= i < credentials.len() && key_of(credentials[i]) == key && forall|j: int|
                0 <= j < i ==> key_of(#[trigger] credentials[j]) != key,
            None => forall|j: int|
                0 <= j < credentials.len() ==> key_of(#[trigger] credentials[j]) != key,
        },
    decreases credentials.len(),
{
    if credentials.len() > 0 {
        let n = credentials.len() - 1;
        let init = credentials.subrange(0, n);
        lemma_found(init, key);
        match found(init, key) {
            Some(i) => {
                assert forall|j: int| 0 <= j < i implies key_of(#[trigger] credentials[j])
                    != key by {
                    assert(init[j] == credentials[j]);
                }
            },
            None => {
                assert forall|j: int| 0 <= j < n implies key_of(#[trigger] credentials[j])
                    != key by {
                    assert(init[j] == credentials[j]);
                }
            },
        }
    }
}

proof fn lemma_found_at(credentials: Seq<CredentialView>, key: (Seq<char>, Seq<char>), at: int)
    requires
        0 <= at < credentials.len(),
        key_of(credentials[at]) == key,
        forall|j: int| 0 <= j < at ==> key_of(#[trigger] credentials[j]) != key,
    ensures
        found(credentials, key) == Some(at),
{
    lemma_found(credentials, key);
    match found(credentials, key) {
        Some(i) => {
            if i < at {
                assert(key_of(credentials[i]) != key);
            }
            if at < i {
                assert(key_of(credentials[at]) != key);
            }
        },
        None => {
            assert(key_of(credentials[at]) != key);
        },
    }
}

/// Sorting changes no token.
proof fn lemma_sorting_keeps_tokens(
    credentials: Seq<CredentialView>,
    key: (Seq<char>, Seq<char>),
)
    ensures
        token(sorted_credentials(credentials), key) == token(credentials, key),
{
    let keys = keys_of(credentials);
    let order = stable_order(keys);
    let sorted = sorted_credentials(credentials);
    law_stable_order(keys);
    lemma_found(credentials, key);
    match found(credentials, key) {
        Some(i) => {
            assert(order.contains(i));
            let k = choose|k: int| 0 <= k < order.len() && order[k] == i;
            assert(sorted[k] == credentials[i]);
            assert forall|j: int| 0 <= j < k implies key_of(#[trigger] sorted[j]) != key by {
                assert(sorted[j] == credentials[order[j]]);
                assert(key_less(keys[order[j]], keys[order[k]]) || (keys[order[j]]
                    == keys[order[k]] && order[j] < order[k]));
                lemma_key_order_total(keys[order[j]], keys[order[k]]);
                if key_of(sorted[j]) == key {
                    assert(keys[order[j]] == key && keys[i] == key);
                    assert(key_of(credentials[order[j]]) != key);
                }
            }
            lemma_found_at(sorted, key, k);
        },
        None => {
            lemma_found(sorted, key);
            match found(sorted, key) {
                Some(k) => {
                    assert(sorted[k] == credentials[order[k]]);
                    assert(key_of(credentials[order[k]]) != key);
                },
                None => {},
            }
        },
    }
}

/// A token that was set is the one that is found, and setting it changes no other token.
pub proof fn law_get_after_set(
    credentials: Seq<CredentialView>,
    credential: CredentialView,
    key: (Seq<char>, Seq<char>),
)
    ensures
        token(with_credential(credentials, credential), key) == if key == key_of(credential) {
            Some(credential.bearer_token)
        } else {
            token(credentials, key)
        },
{
    let own = key_of(credential);
    let changed = replaced_or_added(credentials, credential);
    lemma_sorting_keeps_tokens(changed, key);
    lemma_found(credentials, own);
    lemma_found(credentials, key);
    match found(credentials, own) {
        Some(i) => {
            assert(changed =~= credentials.update(i, credential));
            if key == own {
                assert forall|j: int| 0 <= j < i implies key_of(#[trigger] changed[j]) != key by {
                    assert(changed[j] == credentials[j]);
                }
                lemma_found_at(changed, key, i);
            } else {
                match found(credentials, key) {
                    Some(k) => {
                        assert forall|j: int| 0 <= j < k implies key_of(#[trigger] changed[j])
                            != key by {
                            if j != i {
                                assert(changed[j] == credentials[j]);
                            }
                        }
                        assert(changed[k] == credentials[k]);
                        lemma_found_at(changed, key, k);
                    },
                    None => {
                        lemma_found(changed, key);
                        match found(changed, key) {
                            Some(k) => {
                                if k != i {
                                    assert(changed[k] == credentials[k]);
                                    assert(key_of(credentials[k]) != key);
                                }
                            },
                            None => {},
                        }
                    },
                }
            }
        },
        None => {
            let n = credentials.len() as int;
            assert(changed.subrange(0, n) =~= credentials);
            assert(changed[n] == credential);
        },
    }
}

/// Whether no two credentials have the same key.
pub open spec fn keys_unique(credentials: Seq<CredentialView>) -> bool {
    forall|i: int, j: int|
        0 <= i < j < credentials.len() ==> key_of(#[trigger] credentials[i]) != key_of(
            #[trigger] credentials[j],
        )
}

/// Whether the credentials stand in the order of their keys.
pub open spec fn keys_sorted(credentials: Seq<CredentialView>) -> bool {
    forall|i: int, j: int|
        0 <= i < j < credentials.len() ==> !key_less(
            key_of(#[trigger] credentials[j]),
            key_of(#[trigger] credentials[i]),
        )
}

/// Setting a credential leaves the store sorted by its keys, and no key occurs twice where none
/// did before.
pub proof fn law_set_keeps_order(credentials: Seq<CredentialView>, credential: CredentialView)
    ensures
        keys_sorted(with_credential(credentials, credential)),
        keys_unique(credentials) ==> keys_unique(with_credential(credentials, credential)),
{
    let changed = replaced_or_added(credentials, credential);
    let keys = keys_of(changed);
    let order = stable_order(keys);
    let after = with_credential(credentials, credential);
    law_stable_order(keys);
    lemma_found(credentials, key_of(credential));
    assert forall|i: int, j: int| 0 <= i < j < after.len() implies !key_less(
        key_of(#[trigger] after[j]),
        key_of(#[trigger] after[i]),
    ) by {
        assert(after[i] == changed[order[i]] && after[j] == changed[order[j]]);
        lemma_key_order_total(keys[order[i]], keys[order[j]]);
    }
    if keys_unique(credentials) {
        assert forall|i: int, j: int| 0 <= i < j < changed.len() implies key_of(
            #[trigger] changed[i],
        ) != key_of(#[trigger] changed[j]) by {
            match found(credentials, key_of(credential)) {
                Some(at) => {
                    if i != at {
                        assert(changed[i] == credentials[i]);
                    }
                    if j != at {
                        assert(changed[j] == credentials[j]);
                    }
                    assert(key_of(credentials[i]) != key_of(credentials[j]));
                },
                None => {
                    assert(changed[i] == credentials[i]);
                    if j < credentials.len() {
                        assert(changed[j] == credentials[j]);
                        assert(key_of(credentials[i]) != key_of(credentials[j]));
                    }
                },
            }
        }
        assert forall|i: int, j: int| 0 <= i < j < after.len() implies key_of(#[trigger] after[i])
            != key_of(#[trigger] after[j]) by {
            assert(after[i] == changed[order[i]] && after[j] == changed[order[j]]);
            assert(order[i] != order[j]);
            if order[i] < order[j] {
                assert(key_of(changed[order[i]]) != key_of(changed[order[j]]));
            } else {
                assert(key_of(changed[order[j]]) != key_of(changed[order[i]]));
            }
        }
    }
}

impl McpCredentialStore {
    /// A store with no credentials.
    pub fn empty() -> (result: McpCredentialStore)
        ensures
            result.schema@ == CREDENTIALS_SCHEMA@,
            credential_views(result.credentials@) == Seq::<CredentialView>::empty(),
    {
        let result = McpCredentialStore {
            schema: CREDENTIALS_SCHEMA.to_owned(),
            credentials: Vec::new(),
        };
        assert(credential_views(result.credentials@) =~= Seq::empty());
        result
    }

    fn position(&self, plugin_name: &str, credential_ref: &str) -> (result: Option<usize>)
        ensures
            match result {
                Some(i) => i < self.credentials.len() && found(
                    credential_views(self.credentials@),
                    (plugin_name@, credential_ref@),
                ) == Some(i as int),
                None => found(
                    credential_views(self.credentials@),
                    (plugin_name@, credential_ref@),
                ) == None::<int>,
            },
    {
        let ghost all = credential_views(self.credentials@);
        let ghost key = (plugin_name@, credential_ref@);
        let mut i: usize = 0;
        while i < self.credentials.len()
            invariant
                i <= self.credentials.len(),
                all == credential_views(self.credentials@),
                key == (plugin_name@, credential_ref@),
                forall|j: int| 0 <= j < i ==> key_of(#[trigger] all[j]) != key,
            decreases self.credentials.len() - i,
        {
            assert(all[i as int] == self.credentials@[i as int]@);
            if text_equals(self.credentials[i].plugin_name.as_str(), plugin_name) && text_equals(
                self.credentials[i].credential_ref.as_str(),
                credential_ref,
            ) {
                proof {
                    lemma_found_at(all, key, i as int);
                }
                return Some(i);
            }
            i = i + 1;
        }
        proof {
            lemma_found(all, key);
        }
        None
    }

    /// The token of a plugin's credential.
    pub fn get(&self, plugin_name: &str, credential_ref: &str) -> (result: Option<&str>)
        ensures
            match result {
                Some(text) => token(
                    credential_views(self.credentials@),
                    (plugin_name@, credential_ref@),
                ) == Some(text@),
                None => token(
                    credential_views(self.credentials@),
                    (plugin_name@, credential_ref@),
                ) == None::<Seq<char>>,
            },
    {
        match self.position(plugin_name, credential_ref) {
            Some(i) => Some(self.credentials[i].bearer_token.as_str()),
            None => None,
        }
    }

    /// Sets the token of a plugin's credential.
    pub fn set(
        &mut self,
        plugin_name: String,
        credential_ref: String,
        bearer_token: String,
        updated_at_ms: i64,
    )
        ensures
            final(self).schema@ == old(self).schema@,
            credential_views(final(self).credentials@) == with_credential(
                credential_views(old(self).credentials@),
                (CredentialView {
                    plugin_name: plugin_name@,
                    credential_ref: credential_ref@,
                    bearer_token: bearer_token@,
                    updated_at_ms,
                }),
            ),
    {
        let ghost before = credential_views(self.credentials@);
        let position = self.position(plugin_name.as_str(), credential_ref.as_str());
        let credential = McpBearerCredential {
            plugin_name,
            credential_ref,
            bearer_token,
            updated_at_ms,
        };
        let ghost view = credential@;
        match position {
            Some(i) => {
                self.credentials.set(i, credential);
                assert(credential_views(self.credentials@) =~= before.update(i as int, view));
            },
            None => {
                self.credentials.push(credential);
                assert(credential_views(self.credentials@) =~= before.push(view));
            },
        }
        self.sort();
    }

    fn sort(&mut self)
        ensures
            final(self).schema@ == old(self).schema@,
            credential_views(final(self).credentials@) == sorted_credentials(
                credential_views(old(self).credentials@),
            ),
    {
        let ghost all = credential_views(self.credentials@);
        let mut keys: Vec<(String, String)> = Vec::new();
        let mut i: usize = 0;
        while i < self.credentials.len()
            invariant
                i <= self.credentials.len(),
                keys.len() == i,
                forall|j: int|
                    0 <= j < i ==> (#[trigger] keys@[j]).0@ == self.credentials@[j].plugin_name@
                        && keys@[j].1@ == self.credentials@[j].credential_ref@,
            decreases self.credentials.len() - i,
        {
            keys.push(
                (
                    self.credentials[i].plugin_name.clone(),
                    self.credentials[i].credential_ref.clone(),
                ),
            );
            i = i + 1;
        }
        assert(key_views(keys@) =~= keys_of(all));
        let order = sorted_places(&keys);
        let mut sorted: Vec<McpBearerCredential> = Vec::new();
        let mut k: usize = 0;
        while k < order.len()
            invariant
                k <= order.len(),
                sorted.len() == k,
                order.len() == self.credentials.len(),
                forall|i: int|
                    0 <= i < order.len() ==> #[trigger] order@[i] < self.credentials.len(),
                forall|j: int|
                    0 <= j < k ==> (#[trigger] sorted@[j])@
                        == self.credentials@[order@[j] as int]@,
            decreases order.len() - k,
        {
            let credential = &self.credentials[order[k]];
            sorted.push(
                McpBearerCredential {
                    plugin_name: credential.plugin_name.clone(),
                    credential_ref: credential.credential_ref.clone(),
                    bearer_token: credential.bearer_token.clone(),
                    updated_at_ms: credential.updated_at_ms,
                },
            );
            k = k + 1;
        }
        proof {
            let wanted = sorted_credentials(all);
            let places = stable_order(keys_of(all));
            assert forall|i: int| 0 <= i < wanted.len() implies credential_views(sorted@)[i]
                == wanted[i] by {
                assert(places[i] == order@[i]);
                assert(sorted@[i]@ == self.credentials@[order@[i] as int]@);
            }
            assert(credential_views(sorted@) =~= wanted);
        }
        self.credentials = sorted;
    }
}

/// Whether a character may stand in a name in lower-kebab-case.
pub open spec fn kebab_char(c: char) -> bool {
    ('a' <= c && c <= 'z') || ('0' <= c && c <= '9') || c == '-'
}

/// Whether a name is in canonical lower-kebab-case.
pub open spec fn lower_kebab(value: Seq<char>) -> bool {
    &&& 0 < value.len() <= 128
    &&& value[0] != '-'
    &&& value[value.len() - 1] != '-'
    &&& !occurs_in(value, "--"@)
    &&& forall|i: int| 0 <= i < value.len() ==> kebab_char(#[trigger] value[i])
}

/// Accepts a name in canonical lower-kebab-case.
pub fn validate_lower_kebab(label: &str, value: &str) -> (result: Result<(), String>)
    ensures
        match result {
            Ok(_) => lower_kebab(value@),
            Err(message) => !lower_kebab(value@) && message@ == label@
                + " must be canonical lower-kebab-case"@,
        },
{
    let chars = chars_of(value);
    let n: usize = chars.len();
    let mut valid = n > 0 && n <= 128 && chars[0] != '-' && chars[n - 1] != '-' && !contains(
        value,
        "--",
    );
    let mut i: usize = 0;
    while i < n
        invariant
            i <= n,
            n == chars.len(),
            chars@ == value@,
            valid == (0 < value@.len() <= 128 && value@[0] != '-' && value@[value@.len() - 1]
                != '-' && !occurs_in(value@, "--"@) && forall|j: int|
                0 <= j < i ==> kebab_char(#[trigger] value@[j])),
        decreases n - i,
    {
        let c: char = chars[i];
        if !(('a' <= c && c <= 'z') || ('0' <= c && c <= '9') || c == '-') {
            valid = false;
        }
        i = i + 1;
    }
    if valid {
        Ok(())
    } else {
        Err(concat2(label, " must be canonical lower-kebab-case"))
    }
}

/// The first rule that a store's credentials break. `tokens_valid` says of each credential whether
/// its token may be sent as a bearer token.
pub open spec fn credentials_error(
    credentials: Seq<CredentialView>,
    tokens_valid: Seq<bool>,
) -> Option<Seq<char>>
    decreases credentials.len(),
{
    if credentials.len() == 0 {
        None
    } else {
        let n = credentials.len() - 1;
        let before = credentials.subrange(0, n);
        match credentials_error(before, tokens_valid) {
            Some(error) => Some(error),
            None => if !lower_kebab(credentials[n].plugin_name) {
                Some("MCP credential pluginName"@ + " must be canonical lower-kebab-case"@)
            } else if !lower_kebab(credentials[n].credential_ref) {
                Some("MCP credential credentialRef"@ + " must be canonical lower-kebab-case"@)
            } else if !tokens_valid[n] {
                Some("Native MCP bearer token is invalid"@)
            } else if credentials[n].updated_at_ms < 0 {
                Some("Native MCP credential updatedAtMs is invalid"@)
            } else if found(before, key_of(credentials[n])) is Some {
                Some("duplicate Native MCP credential binding"@)
            } else {
                None
            },
        }
    }
}

/// The first rule that a store breaks.
pub open spec fn store_error(
    schema: Seq<char>,
    credentials: Seq<CredentialView>,
    tokens_valid: Seq<bool>,
) -> Option<Seq<char>> {
    if schema != CREDENTIALS_SCHEMA@ {
        Some("Native MCP credential schema mismatch"@)
    } else {
        credentials_error(credentials, tokens_valid)
    }
}

proof fn lemma_credentials_error(
    credentials: Seq<CredentialView>,
    tokens_valid: Seq<bool>,
    n: int,
)
    requires
        0 <= n <= credentials.len(),
        credentials_error(credentials.subrange(0, n), tokens_valid) is Some,
    ensures
        credentials_error(credentials, tokens_valid) == credentials_error(
            credentials.subrange(0, n),
            tokens_valid,
        ),
    decreases credentials.len(),
{
    if n < credentials.len() {
        let init = credentials.subrange(0, credentials.len() - 1);
        assert(init.subrange(0, n) =~= credentials.subrange(0, n));
        lemma_credentials_error(init, tokens_valid, n);
    } else {
        assert(credentials.subrange(0, n) =~= credentials);
    }
}

/// No key occurs twice in a store that breaks no rule.
pub proof fn law_valid_store_is_unique(credentials: Seq<CredentialView>, tokens_valid: Seq<bool>)
    requires
        credentials_error(credentials, tokens_valid) is None,
    ensures
        keys_unique(credentials),
    decreases credentials.len(),
{
    if credentials.len() > 0 {
        let n = credentials.len() - 1;
        let before = credentials.subrange(0, n);
        law_valid_store_is_unique(before, tokens_valid);
        lemma_found(before, key_of(credentials[n]));
        assert forall|i: int, j: int| 0 <= i < j < credentials.len() implies key_of(
            #[trigger] credentials[i],
        ) != key_of(#[trigger] credentials[j]) by {
            assert(before[i] == credentials[i]);
            if j < n {
                assert(before[j] == credentials[j]);
            }
        }
    }
}

fn has_key_before(store: &McpCredentialStore, end: usize) -> (result: bool)
    requires
        end < store.credentials.len(),
    ensures
        result == (found(
            credential_views(store.credentials@).subrange(0, end as int),
            key_of(credential_views(store.credentials@)[end as int]),
        ) is Some),
{
    let ghost before = credential_views(store.credentials@).subrange(0, end as int);
    let ghost key = key_of(credential_views(store.credentials@)[end as int]);
    let mut i: usize = 0;
    proof {
        lemma_found(before, key);
    }
    while i < end
        invariant
            i <= end,
            end < store.credentials.len(),
            before == credential_views(store.credentials@).subrange(0, end as int),
            key == key_of(credential_views(store.credentials@)[end as int]),
            forall|j: int| 0 <= j < i ==> key_of(#[trigger] before[j]) != key,
            match found(before, key) {
                Some(k) => 0 <= k < before.len() && key_of(before[k]) == key,
                None => forall|j: int| 0 <= j < before.len() ==> key_of(#[trigger] before[j]) != key,
            },
        decreases end - i,
    {
        assert(before[i as int] == store.credentials@[i as int]@);
        if text_equals(
            store.credentials[i].plugin_name.as_str(),
            store.credentials[end].plugin_name.as_str(),
        ) && text_equals(
            store.credentials[i].credential_ref.as_str(),
            store.credentials[end].credential_ref.as_str(),
        ) {
            assert(key_of(before[i as int]) == key);
            return true;
        }
        i = i + 1;
    }
    false
}

impl McpCredentialStore {
    /// Accepts a store that breaks no rule. `tokens_valid` says of each credential whether its
    /// token may be sent as a bearer token.
    pub fn validate(&self, tokens_valid: &Vec<bool>) -> (result: Result<(), String>)
        requires
            tokens_valid.len() == self.credentials.len(),
        ensures
            match result {
                Ok(_) => store_error(
                    self.schema@,
                    credential_views(self.credentials@),
                    tokens_valid@,
                ) == None::<Seq<char>>,
                Err(message) => store_error(
                    self.schema@,
                    credential_views(self.credentials@),
                    tokens_valid@,
                ) == Some(message@),
            },
    {
        if !text_equals(self.schema.as_str(), CREDENTIALS_SCHEMA) {
            return Err("Native MCP credential schema mismatch".to_owned());
        }
        let ghost all = credential_views(self.credentials@);
        let mut i: usize = 0;
        assert(all.subrange(0, 0) =~= Seq::empty());
        while i < self.credentials.len()
            invariant
                i <= self.credentials.len(),
                tokens_valid.len() == self.credentials.len(),
                self.schema@ == CREDENTIALS_SCHEMA@,
                all == credential_views(self.credentials@),
                credentials_error(all.subrange(0, i as int), tokens_valid@) is None,
            decreases self.credentials.len() - i,
        {
            proof {
                let next = all.subrange(0, i + 1);
                assert(next.subrange(0, i as int) =~= all.subrange(0, i as int));
                assert(next[i as int] == self.credentials@[i as int]@);
                if credentials_error(next, tokens_valid@) is Some {
                    lemma_credentials_error(all, tokens_valid@, i + 1);
                }
            }
            match validate_lower_kebab(
                "MCP credential pluginName",
                self.credentials[i].plugin_name.as_str(),
            ) {
                Ok(_) => {},
                Err(message) => {
                    return Err(message);
                },
            }
            match validate_lower_kebab(
                "MCP credential credentialRef",
                self.credentials[i].credential_ref.as_str(),
            ) {
                Ok(_) => {},
                Err(message) => {
                    return Err(message);
                },
            }
            if !tokens_valid[i] {
                return Err("Native MCP bearer token is invalid".to_owned());
            }
            if self.credentials[i].updated_at_ms < 0 {
                return Err("Native MCP credential updatedAtMs is invalid".to_owned());
            }
            if has_key_before(self, i) {
                return Err("duplicate Native MCP credential binding".to_owned());
            }
            i = i + 1;
        }
        assert(all.subrange(0, all.len() as int) =~= all);
        Ok(())
    }
}

/// Whether the credential at a place is the first of a plugin under a name.
pub open spec fn first_credential(
    credentials: Seq<CredentialView>,
    plugin: Seq<char>,
    name: Seq<char>,
    at: int,
) -> bool {
    &&& 0 <= at < credentials.len()
    &&& credentials[at].plugin_name == plugin
    &&& credentials[at].credential_ref == name
    &&& forall|k: int|
        0 <= k < at ==> !((#[trigger] credentials[k]).plugin_name == plugin
            && credentials[k].credential_ref == name)
}

/// A token is found by its plugin and its name together, and there is none exactly where no
/// credential has both.
pub proof fn law_tokens_are_found_by_plugin_and_name(
    credentials: Seq<CredentialView>,
    plugin: Seq<char>,
    name: Seq<char>,
)
    ensures
        token(credentials, (plugin, name)) is None <==> forall|k: int|
            0 <= k < credentials.len() ==> !((#[trigger] credentials[k]).plugin_name == plugin
                && credentials[k].credential_ref == name),
        token(credentials, (plugin, name)) is Some ==> exists|at: int|
            first_credential(credentials, plugin, name, at) && token(credentials, (plugin, name))
                == Some(credentials[at].bearer_token),
{
    lemma_first_found(credentials, plugin, name);
}

proof fn lemma_first_found(credentials: Seq<CredentialView>, plugin: Seq<char>, name: Seq<char>)
    ensures
        match found(credentials, (plugin, name)) {
            Some(at) => first_credential(credentials, plugin, name, at),
            None => forall|k: int|
                0 <= k < credentials.len() ==> !((#[trigger] credentials[k]).plugin_name == plugin
                    && credentials[k].credential_ref == name),
        },
    decreases credentials.len(),
{
    if credentials.len() > 0 {
        let n = credentials.len() - 1;
        let init = credentials.subrange(0, n);
        lemma_first_found(init, plugin, name);
        assert forall|k: int| 0 <= k < n implies #[trigger] init[k] == credentials[k] by {}
        assert(forall|k: int| 0 <= k < n ==> #[trigger] credentials[k] == init[k]);
        if let Some(at) = found(init, (plugin, name)) {
            assert(init[at] == credentials[at]);
        }
    }
}

/// A name is in lower kebab case exactly where it is made of up to 128 small letters and digits of
/// ASCII with single hyphens between them.
pub proof fn law_names_in_kebab_case(value: Seq<char>)
    ensures
        lower_kebab(value) <==> {
            &&& 0 < value.len() <= 128
            &&& forall|i: int|
                0 <= i < value.len() ==> ('a' <= #[trigger] value[i] && value[i] <= 'z') || ('0'
                    <= value[i] && value[i] <= '9') || (value[i] == '-' && 0 < i && i + 1
                    < value.len() && value[i - 1] != '-')
        },
{
    reveal_strlit("--");
    if lower_kebab(value) {
        assert forall|i: int| 0 <= i < value.len() implies ('a' <= #[trigger] value[i] && value[i]
            <= 'z') || ('0' <= value[i] && value[i] <= '9') || (value[i] == '-' && 0 < i && i + 1
            < value.len() && value[i - 1] != '-') by {
            assert(kebab_char(value[i]));
            if value[i] == '-' && i > 0 && value[i - 1] == '-' {
                assert(value.subrange(i - 1, i + 1) =~= "--"@);
                assert(crate::text::occurs_at(value, "--"@, i - 1));
            }
        }
    }
    if 0 < value.len() <= 128 && (forall|i: int|
        0 <= i < value.len() ==> ('a' <= #[trigger] value[i] && value[i] <= 'z') || ('0' <= value[i]
            && value[i] <= '9') || (value[i] == '-' && 0 < i && i + 1 < value.len() && value[i - 1]
            != '-')) {
        assert(value[0] != '-');
        assert(value[value.len() - 1] != '-');
        if occurs_in(value, "--"@) {
            let at = choose|at: int| crate::text::occurs_at(value, "--"@, at);
            assert(value.subrange(at, at + 2)[0] == value[at]);
            assert(value.subrange(at, at + 2)[1] == value[at + 1]);
            assert(value[at + 1] == '-' && value[at] == '-');
            assert(value[(at + 1) - 1] == value[at]);
        }
    }
}

/// Credentials are sound exactly where each is named in lower kebab case, has a sound token and a
/// time, and no two are of one plugin under one name.
pub proof fn law_sound_credentials_are_accepted(
    credentials: Seq<CredentialView>,
    tokens_valid: Seq<bool>,
)
    requires
        tokens_valid.len() >= credentials.len(),
    ensures
        credentials_error(credentials, tokens_valid) is None <==> {
            &&& forall|i: int|
                0 <= i < credentials.len() ==> lower_kebab((#[trigger] credentials[i]).plugin_name)
                    && lower_kebab(credentials[i].credential_ref) && tokens_valid[i]
                    && credentials[i].updated_at_ms >= 0
            &&& forall|i: int, j: int|
                0 <= i < j < credentials.len() ==> !((#[trigger] credentials[i]).plugin_name == (
                #[trigger] credentials[j]).plugin_name && credentials[i].credential_ref
                    == credentials[j].credential_ref)
        },
    decreases credentials.len(),
{
    if credentials.len() > 0 {
        let n = credentials.len() - 1;
        let init = credentials.subrange(0, n);
        law_sound_credentials_are_accepted(init, tokens_valid);
        let last = credentials[n];
        lemma_first_found(init, last.plugin_name, last.credential_ref);
        assert forall|k: int| 0 <= k < n implies #[trigger] init[k] == credentials[k] by {}
        assert(forall|k: int| 0 <= k < n ==> #[trigger] credentials[k] == init[k]);
        if let Some(at) = found(init, (last.plugin_name, last.credential_ref)) {
            assert(init[at] == credentials[at]);
        }
        if credentials_error(credentials, tokens_valid) is None {
            assert forall|i: int, j: int| 0 <= i < j < credentials.len() implies !((
            #[trigger] credentials[i]).plugin_name == (#[trigger] credentials[j]).plugin_name
                && credentials[i].credential_ref == credentials[j].credential_ref) by {
                assert(init[i] == credentials[i]);
                if j < n {
                    assert(init[j] == credentials[j]);
                }
            }
        }
    }
}

/// Stored credentials are sound exactly where they are of the schema that is known and each is sound.
pub proof fn law_stores_are_of_one_schema(
    schema: Seq<char>,
    credentials: Seq<CredentialView>,
    tokens_valid: Seq<bool>,
)
    ensures
        store_error(schema, credentials, tokens_valid) is None <==> schema
            == "native.mcp.credentials.v1"@ && credentials_error(credentials, tokens_valid) is None,
{
}

/// Credentials are sorted by their plugin and, under one plugin, by their name, and are else the ones
/// that they were.
pub proof fn law_credentials_are_sorted_by_name(credentials: Seq<CredentialView>)
    ensures
        sorted_credentials(credentials).len() == credentials.len(),
        forall|i: int|
            0 <= i < credentials.len() ==> sorted_credentials(credentials).contains(
                #[trigger] credentials[i],
            ),
        forall|i: int|
            0 <= i < credentials.len() ==> credentials.contains(
                #[trigger] sorted_credentials(credentials)[i],
            ),
        forall|i: int, j: int|
            0 <= i < j < credentials.len() ==> {
                let a = #[trigger] sorted_credentials(credentials)[i];
                let b = #[trigger] sorted_credentials(credentials)[j];
                !text_less(b.plugin_name, a.plugin_name) && (a.plugin_name == b.plugin_name
                    ==> !text_less(b.credential_ref, a.credential_ref))
            },
{
    let keys = keys_of(credentials);
    let order = stable_order(keys);
    let sorted = sorted_credentials(credentials);
    law_stable_order(keys);
    assert forall|i: int| 0 <= i < credentials.len() implies sorted.contains(
        #[trigger] credentials[i],
    ) by {
        assert(order.contains(i));
        let at = choose|at: int| 0 <= at < order.len() && order[at] == i;
        assert(sorted[at] == credentials[i]);
    }
    assert forall|i: int| 0 <= i < credentials.len() implies credentials.contains(
        #[trigger] sorted[i],
    ) by {
        assert(0 <= order[i] < credentials.len());
        assert(sorted[i] == credentials[order[i]]);
    }
    assert forall|i: int, j: int| 0 <= i < j < credentials.len() implies {
        let a = #[trigger] sorted[i];
        let b = #[trigger] sorted[j];
        !text_less(b.plugin_name, a.plugin_name) && (a.plugin_name == b.plugin_name ==> !text_less(
            b.credential_ref,
            a.credential_ref,
        ))
    } by {
        assert(0 <= order[i] < keys.len() && 0 <= order[j] < keys.len());
        lemma_key_order_total(keys[order[i]], keys[order[j]]);
        assert(keys[order[i]] == key_of(sorted[i]) && keys[order[j]] == key_of(sorted[j]));
        crate::text::lemma_text_order_total(sorted[i].plugin_name, sorted[j].plugin_name);
        crate::text::lemma_text_order_total(sorted[i].credential_ref, sorted[j].credential_ref);
    }
}

} // verus!
