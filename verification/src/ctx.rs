//! Execution context for agents: a key/value scratch store, an ordered
//! log, and the configuration and accumulator for outbound chat requests.
use vstd::prelude::*;

use crate::agent::StepError;
use crate::agent::StepErrorView;
use crate::text::str_eq;

verus! {

/// LLM provider selection.
#[derive(Debug, Clone, Copy, PartialEq, Eq, Structural)]
pub enum Provider {
    /// Ollama (default). Local inference, no API key needed.
    Ollama,
    /// OpenAI-compatible APIs (OpenRouter, etc.).
    OpenAi,
    /// Anthropic API.
    Anthropic,
}

/// Whether `c` is `t`, allowing `c` to be the ASCII uppercase form of `t`.
pub open spec fn char_lowers_to(c: char, t: char) -> bool {
    c == t || (0x41 <= c as u32 && c as u32 <= 0x5a && c as u32 + 0x20 == t as u32)
}

/// Whether `s`, lowered ASCII-letterwise, equals `t`.
pub open spec fn matches_lowered(s: Seq<char>, t: Seq<char>) -> bool {
    s.len() == t.len() && (forall|i: int| 0 <= i < s.len() ==> char_lowers_to(s[i], t[i]))
}

/// The provider a name selects: unrecognized names select Ollama.
pub open spec fn provider_of(s: Seq<char>) -> Provider {
    if matches_lowered(s, "openai"@) {
        Provider::OpenAi
    } else if matches_lowered(s, "anthropic"@) {
        Provider::Anthropic
    } else {
        Provider::Ollama
    }
}

/// A base URL with its trailing slashes removed.
pub open spec fn trimmed_base(s: Seq<char>) -> Seq<char>
    decreases s.len(),
{
    if s.len() > 0 && s.last() == '/' {
        trimmed_base(s.drop_last())
    } else {
        s
    }
}

/// The path each provider's chat endpoint hangs off the base URL.
pub open spec fn endpoint_suffix(p: Provider) -> Seq<char> {
    match p {
        Provider::Ollama => "/api/chat"@,
        Provider::OpenAi => "/v1/chat/completions"@,
        Provider::Anthropic => "/v1/messages"@,
    }
}

fn str_matches_lowered(s: &str, t: &str) -> (r: bool)
    ensures
        r == matches_lowered(s@, t@),
{
    let n = s.unicode_len();
    if n != t.unicode_len() {
        return false;
    }
    let mut i: usize = 0;
    while i < n
        invariant
            n == s@.len(),
            n == t@.len(),
            i <= n,
            forall|j: int| 0 <= j < i ==> char_lowers_to(s@[j], t@[j]),
        decreases n - i,
    {
        let c = s.get_char(i) as u32;
        let e = t.get_char(i) as u32;
        if !(c == e || (0x41 <= c && c <= 0x5a && c + 0x20 == e)) {
            return false;
        }
        i += 1;
    }
    true
}

/// The message text a provider's chat response carries at that
/// provider's usual path, if any: the named results of the JSON
/// lookups, selected by provider.
pub open spec fn response_content(p: Provider, v: serde_json::Value) -> Option<Seq<char>> {
    match p {
        Provider::Ollama => crate::json::ollama_content_of(v),
        Provider::OpenAi => crate::json::openai_content_of(v),
        Provider::Anthropic => crate::json::anthropic_content_of(v),
    }
}

impl Provider {
    /// Extract the assistant message from a provider-specific JSON
    /// response: the content at the provider's usual path, or the
    /// missing-content error when the response has another shape.
    pub fn parse_response(&self, json: &serde_json::Value) -> (r: Result<String, StepError>)
        ensures
            (match response_content(*self, *json) {
                Some(text) => r matches Ok(v) && v@ == text,
                None => r matches Err(e) && e@ == StepErrorView::Other(
                    "llm response missing message content"@,
                ),
            }),
    {
        let content: Option<String> = match self {
            Provider::Ollama => crate::json::ollama_content(json),
            Provider::OpenAi => crate::json::openai_content(json),
            Provider::Anthropic => crate::json::anthropic_content(json),
        };
        content_or_missing(content)
    }

    /// Parse a provider name. Unrecognized values default to Ollama.
    pub fn from_str(s: &str) -> (r: Self)
        ensures
            r == provider_of(s@),
    {
        if str_matches_lowered(s, "openai") {
            Provider::OpenAi
        } else if str_matches_lowered(s, "anthropic") {
            Provider::Anthropic
        } else {
            Provider::Ollama
        }
    }

    /// Return the full chat endpoint URL for this provider.
    pub fn endpoint(&self, base_url: &str) -> (r: String)
        ensures
            r@ == trimmed_base(base_url@) + endpoint_suffix(*self),
    {
        let n = base_url.unicode_len();
        let mut end: usize = n;
        proof {
            assert(base_url@.subrange(0, n as int) =~= base_url@);
        }
        while end > 0 && base_url.get_char(end - 1) == '/'
            invariant
                n == base_url@.len(),
                end <= n,
                trimmed_base(base_url@) == trimmed_base(base_url@.subrange(0, end as int)),
            decreases end,
        {
            proof {
                let pre = base_url@.subrange(0, end as int);
                assert(pre.drop_last() =~= base_url@.subrange(0, end - 1));
            }
            end -= 1;
        }
        let base = substring(base_url, 0, end);
        proof {
            let pre = base_url@.subrange(0, end as int);
            assert(trimmed_base(pre) == pre);
        }
        let owned = base.to_owned();
        match self {
            Provider::Ollama => owned.concat("/api/chat"),
            Provider::OpenAi => owned.concat("/v1/chat/completions"),
            Provider::Anthropic => owned.concat("/v1/messages"),
        }
    }
}

/// Turn content extracted from a provider response into the caller's
/// result: the content itself, or the missing-content error when there
/// was none.
pub fn content_or_missing(content: Option<String>) -> (r: Result<String, StepError>)
    ensures
        content matches Some(s) ==> (r matches Ok(v) && v@ == s@),
        content is None ==> (r matches Err(e) && e@ == StepErrorView::Other(
            "llm response missing message content"@,
        )),
{
    match content {
        Some(s) => Ok(s),
        None => Err(StepError::other("llm response missing message content")),
    }
}

/// The substring of `s` covering the character positions `from..to`.
fn substring<'a>(s: &'a str, from: usize, to: usize) -> (r: &'a str)
    requires
        from <= to <= s@.len(),
    ensures
        r@ == s@.subrange(from as int, to as int),
{
    s.substring_char(from, to)
}

/// Configuration for the outbound chat request client: where to send
/// requests and how to shape them.
#[derive(Debug)]
pub struct LlmConfig {
    /// Base URL of the provider's API.
    pub base_url: String,
    /// Model identifier to request.
    pub model: String,
    /// Context-window / max-token budget passed through to the provider.
    pub num_ctx: u32,
    /// API credential, if the provider needs one.
    pub api_key: Option<String>,
    /// Which provider's request and response shapes to use.
    pub provider: Provider,
}

/// The mathematical picture of an [`LlmConfig`].
pub struct LlmConfigView {
    pub base_url: Seq<char>,
    pub model: Seq<char>,
    pub num_ctx: u32,
    pub api_key: Option<Seq<char>>,
    pub provider: Provider,
}

impl View for LlmConfig {
    type V = LlmConfigView;

    open spec fn view(&self) -> LlmConfigView {
        LlmConfigView {
            base_url: self.base_url@,
            model: self.model@,
            num_ctx: self.num_ctx,
            api_key: match self.api_key {
                Some(k) => Some(k@),
                None => None,
            },
            provider: self.provider,
        }
    }
}

/// The configuration used when none is supplied: a local Ollama.
pub open spec fn default_llm_config() -> LlmConfigView {
    LlmConfigView {
        base_url: "http://localhost:11434"@,
        model: "llama3.1:8b"@,
        num_ctx: 4096,
        api_key: None,
        provider: Provider::Ollama,
    }
}

impl LlmConfig {
    /// The configuration used when none is supplied.
    pub fn defaults() -> (r: Self)
        ensures
            r@ == default_llm_config(),
    {
        LlmConfig {
            base_url: "http://localhost:11434".to_owned(),
            model: "llama3.1:8b".to_owned(),
            num_ctx: 4096,
            api_key: None,
            provider: Provider::Ollama,
        }
    }

    fn duplicate(&self) -> (r: Self)
        ensures
            r@ == self@,
    {
        LlmConfig {
            base_url: self.base_url.clone(),
            model: self.model.clone(),
            num_ctx: self.num_ctx,
            api_key: match &self.api_key {
                Some(k) => Some(k.clone()),
                None => None,
            },
            provider: self.provider,
        }
    }
}

/// The keys of the first components of `s` are pairwise distinct.
pub open spec fn unique_keys(s: Seq<(Seq<char>, Seq<char>)>) -> bool {
    forall|i: int, j: int| 0 <= i < j < s.len() ==> s[i].0 != s[j].0
}

/// The finite map an association list denotes: later entries win.
pub open spec fn as_map(s: Seq<(Seq<char>, Seq<char>)>) -> Map<Seq<char>, Seq<char>>
    decreases s.len(),
{
    if s.len() == 0 {
        Map::empty()
    } else {
        as_map(s.drop_last()).insert(s.last().0, s.last().1)
    }
}

proof fn lemma_as_map_contains(s: Seq<(Seq<char>, Seq<char>)>, k: Seq<char>)
    ensures
        as_map(s).contains_key(k) <==> (exists|i: int| 0 <= i < s.len() && s[i].0 == k),
    decreases s.len(),
{
    if s.len() > 0 {
        lemma_as_map_contains(s.drop_last(), k);
        if s.last().0 == k {
            assert(s[s.len() - 1].0 == k);
        } else if as_map(s).contains_key(k) {
            let i = choose|i: int| 0 <= i < s.drop_last().len() && s.drop_last()[i].0 == k;
            assert(s[i].0 == k);
        } else if exists|i: int| 0 <= i < s.len() && s[i].0 == k {
            let i = choose|i: int| 0 <= i < s.len() && s[i].0 == k;
            assert(s.drop_last()[i].0 == k);
        }
    }
}

proof fn lemma_unique_drop_last(s: Seq<(Seq<char>, Seq<char>)>)
    requires
        unique_keys(s),
        s.len() > 0,
    ensures
        unique_keys(s.drop_last()),
{
    assert forall|i: int, j: int| 0 <= i < j < s.drop_last().len() implies s.drop_last()[i].0
        != s.drop_last()[j].0 by {
        assert(s[i].0 != s[j].0);
    }
}

proof fn lemma_as_map_at(s: Seq<(Seq<char>, Seq<char>)>, i: int)
    requires
        unique_keys(s),
        0 <= i < s.len(),
    ensures
        as_map(s).contains_key(s[i].0),
        as_map(s)[s[i].0] == s[i].1,
    decreases s.len(),
{
    lemma_unique_drop_last(s);
    if i < s.len() - 1 {
        lemma_as_map_at(s.drop_last(), i);
        assert(s.drop_last()[i] == s[i]);
        assert(s[i].0 != s.last().0);
    }
}

proof fn lemma_as_map_push(s: Seq<(Seq<char>, Seq<char>)>, p: (Seq<char>, Seq<char>))
    ensures
        as_map(s.push(p)) == as_map(s).insert(p.0, p.1),
{
    assert(s.push(p).drop_last() =~= s);
    assert(s.push(p).last() == p);
}

proof fn lemma_as_map_update(s: Seq<(Seq<char>, Seq<char>)>, i: int, v: Seq<char>)
    requires
        unique_keys(s),
        0 <= i < s.len(),
    ensures
        as_map(s.update(i, (s[i].0, v))) =~= as_map(s).insert(s[i].0, v),
        unique_keys(s.update(i, (s[i].0, v))),
    decreases s.len(),
{
    let t = s.update(i, (s[i].0, v));
    assert forall|a: int, b: int| 0 <= a < b < t.len() implies t[a].0 != t[b].0 by {
        assert(s[a].0 != s[b].0);
    }
    lemma_unique_drop_last(s);
    if i == s.len() - 1 {
        assert(t.drop_last() =~= s.drop_last());
    } else {
        lemma_as_map_update(s.drop_last(), i, v);
        assert(t.drop_last() =~= s.drop_last().update(i, (s[i].0, v)));
        assert(s.drop_last()[i] == s[i]);
        assert(s[i].0 != s.last().0);
    }
}

proof fn lemma_as_map_remove(s: Seq<(Seq<char>, Seq<char>)>, i: int)
    requires
        unique_keys(s),
        0 <= i < s.len(),
    ensures
        as_map(s.remove(i)) =~= as_map(s).remove(s[i].0),
        unique_keys(s.remove(i)),
    decreases s.len(),
{
    let t = s.remove(i);
    assert forall|a: int, b: int| 0 <= a < b < t.len() implies t[a].0 != t[b].0 by {
        let sa = if a < i {
            a
        } else {
            a + 1
        };
        let sb = if b < i {
            b
        } else {
            b + 1
        };
        assert(t[a] == s[sa]);
        assert(t[b] == s[sb]);
        assert(s[sa].0 != s[sb].0);
    }
    lemma_unique_drop_last(s);
    if i == s.len() - 1 {
        assert(t =~= s.drop_last());
        lemma_as_map_contains(s.drop_last(), s[i].0);
        assert(forall|j: int| 0 <= j < s.len() - 1 ==> s.drop_last()[j] == s[j]);
        assert(!as_map(s.drop_last()).contains_key(s[i].0));
    } else {
        lemma_as_map_remove(s.drop_last(), i);
        assert(t.drop_last() =~= s.drop_last().remove(i));
        assert(t.last() == s.last());
        assert(s.drop_last()[i] == s[i]);
        assert(s[i].0 != s.last().0);
    }
}

/// The character-sequence views of an association list's entries.
pub open spec fn pairs_of(s: Seq<(String, String)>) -> Seq<(Seq<char>, Seq<char>)> {
    s.map_values(|p: (String, String)| (p.0@, p.1@))
}

/// Execution context handed to agents: a key/value scratch store, an
/// ordered in-memory log, and the configuration for outbound chat
/// requests.
pub struct Ctx {
    store: Vec<(String, String)>,
    log: Vec<String>,
    llm: LlmConfig,
}

/// The mathematical picture of a [`Ctx`]: the store as a finite map, the
/// log as a sequence, and the request configuration.
pub struct CtxView {
    pub kv: Map<Seq<char>, Seq<char>>,
    pub log: Seq<Seq<char>>,
    pub llm: LlmConfigView,
}

impl View for Ctx {
    type V = CtxView;

    closed spec fn view(&self) -> CtxView {
        CtxView { kv: as_map(self.store_pairs()), log: self.log@.map_values(|m: String| m@), llm: self.llm@ }
    }
}

fn find_key(store: &Vec<(String, String)>, key: &str) -> (r: Option<usize>)
    ensures
        match r {
            Some(i) => i < store@.len() && pairs_of(store@)[i as int].0 == key@,
            None => forall|i: int| 0 <= i < store@.len() ==> pairs_of(store@)[i].0 != key@,
        },
{
    let n = store.len();
    let mut i: usize = 0;
    while i < n
        invariant
            n == store@.len(),
            i <= n,
            forall|j: int| 0 <= j < i ==> pairs_of(store@)[j].0 != key@,
        decreases n - i,
    {
        if str_eq(store[i].0.as_str(), key) {
            return Some(i);
        }
        i += 1;
    }
    None
}

impl Ctx {
    pub closed spec fn store_pairs(&self) -> Seq<(Seq<char>, Seq<char>)> {
        pairs_of(self.store@)
    }

    #[verifier::type_invariant]
    spec fn wf(&self) -> bool {
        unique_keys(self.store_pairs())
    }

    /// Create a new context with the default request configuration.
    pub fn new() -> (r: Self)
        ensures
            r@.kv == Map::<Seq<char>, Seq<char>>::empty(),
            r@.log == Seq::<Seq<char>>::empty(),
            r@.llm == default_llm_config(),
    {
        Self::with_config(LlmConfig::defaults())
    }

    /// Create a new context with the given request configuration.
    pub fn with_config(llm: LlmConfig) -> (r: Self)
        ensures
            r@.kv == Map::<Seq<char>, Seq<char>>::empty(),
            r@.log == Seq::<Seq<char>>::empty(),
            r@.llm == llm@,
    {
        let r = Ctx { store: Vec::new(), log: Vec::new(), llm };
        proof {
            assert(r.store_pairs() =~= Seq::<(Seq<char>, Seq<char>)>::empty());
            assert(r@.log =~= Seq::<Seq<char>>::empty());
        }
        r
    }

    /// Insert or overwrite a key in the KV store.
    pub fn set(&mut self, key: &str, value: &str)
        ensures
            final(self)@.kv == old(self)@.kv.insert(key@, value@),
            final(self)@.log == old(self)@.log,
            final(self)@.llm == old(self)@.llm,
    {
        proof {
            use_type_invariant(&*self);
        }
        let ghost pairs0 = self.store_pairs();
        let mut store: Vec<(String, String)> = Vec::new();
        core::mem::swap(&mut self.store, &mut store);
        match find_key(&store, key) {
            Some(i) => {
                proof {
                    lemma_as_map_remove(pairs0, i as int);
                }
                let _ = store.remove(i);
                proof {
                    assert(pairs_of(store@) =~= pairs0.remove(i as int));
                }
            },
            None => {
                proof {
                    lemma_as_map_contains(pairs0, key@);
                    assert(as_map(pairs0).remove(key@) =~= as_map(pairs0));
                }
            },
        }
        let ghost pairs1 = pairs_of(store@);
        proof {
            assert(forall|j: int| 0 <= j < pairs1.len() ==> pairs1[j].0 != key@);
        }
        store.push((key.to_owned(), value.to_owned()));
        proof {
            assert(pairs_of(store@) =~= pairs1.push((key@, value@)));
            lemma_as_map_push(pairs1, (key@, value@));
            assert(as_map(pairs0).remove(key@).insert(key@, value@) =~= as_map(pairs0).insert(
                key@,
                value@,
            ));
            assert forall|a: int, b: int|
                0 <= a < b < pairs_of(store@).len() implies pairs_of(store@)[a].0 != pairs_of(
                store@,
            )[b].0 by {
                if b < pairs1.len() {
                    assert(pairs1[a].0 != pairs1[b].0);
                } else {
                    assert(pairs1[a].0 != key@);
                }
            }
        }
        self.store = store;
    }

    /// Look up a key in the KV store.
    pub fn get(&self, key: &str) -> (r: Option<&str>)
        ensures
            match r {
                Some(v) => self@.kv.contains_key(key@) && v@ == self@.kv[key@],
                None => !self@.kv.contains_key(key@),
            },
    {
        proof {
            use_type_invariant(&*self);
            lemma_as_map_contains(self.store_pairs(), key@);
        }
        match find_key(&self.store, key) {
            Some(i) => {
                proof {
                    lemma_as_map_at(self.store_pairs(), i as int);
                }
                Some(self.store[i].1.as_str())
            },
            None => None,
        }
    }

    /// Remove a key from the KV store, returning its value if it existed.
    pub fn remove(&mut self, key: &str) -> (r: Option<String>)
        ensures
            final(self)@.kv == old(self)@.kv.remove(key@),
            final(self)@.log == old(self)@.log,
            final(self)@.llm == old(self)@.llm,
            match r {
                Some(v) => old(self)@.kv.contains_key(key@) && v@ == old(self)@.kv[key@],
                None => !old(self)@.kv.contains_key(key@),
            },
    {
        proof {
            use_type_invariant(&*self);
            lemma_as_map_contains(self.store_pairs(), key@);
        }
        let ghost pairs0 = self.store_pairs();
        let mut store: Vec<(String, String)> = Vec::new();
        core::mem::swap(&mut self.store, &mut store);
        match find_key(&store, key) {
            Some(i) => {
                proof {
                    lemma_as_map_at(pairs0, i as int);
                    lemma_as_map_remove(pairs0, i as int);
                }
                let pair = store.remove(i);
                proof {
                    assert(pairs_of(store@) =~= pairs0.remove(i as int));
                }
                self.store = store;
                Some(pair.1)
            },
            None => {
                proof {
                    assert(as_map(pairs0).remove(key@) =~= as_map(pairs0));
                }
                self.store = store;
                None
            },
        }
    }

    /// Append a message to the event log.
    pub fn log(&mut self, msg: &str)
        ensures
            final(self)@.log == old(self)@.log.push(msg@),
            final(self)@.kv == old(self)@.kv,
            final(self)@.llm == old(self)@.llm,
    {
        proof {
            use_type_invariant(&*self);
        }
        let mut log: Vec<String> = Vec::new();
        core::mem::swap(&mut self.log, &mut log);
        let ghost log0 = log@;
        log.push(msg.to_owned());
        self.log = log;
        proof {
            assert(self@.log =~= old(self)@.log.push(msg@));
        }
    }

    /// Return all log messages in order.
    pub fn logs(&self) -> (r: &[String])
        ensures
            r@.map_values(|m: String| m@) == self@.log,
    {
        self.log.as_slice()
    }

    /// Clear the event log, leaving the KV store intact.
    pub fn clear_logs(&mut self)
        ensures
            final(self)@.log == Seq::<Seq<char>>::empty(),
            final(self)@.kv == old(self)@.kv,
            final(self)@.llm == old(self)@.llm,
    {
        proof {
            use_type_invariant(&*self);
        }
        self.log = Vec::new();
        proof {
            assert(self@.log =~= Seq::<Seq<char>>::empty());
        }
    }

    /// Clear both the KV store and the event log.
    pub fn clear(&mut self)
        ensures
            final(self)@.log == Seq::<Seq<char>>::empty(),
            final(self)@.kv == Map::<Seq<char>, Seq<char>>::empty(),
            final(self)@.llm == old(self)@.llm,
    {
        proof {
            use_type_invariant(&*self);
        }
        self.store = Vec::new();
        self.log = Vec::new();
        proof {
            assert(self@.log =~= Seq::<Seq<char>>::empty());
            assert(self.store_pairs() =~= Seq::<(Seq<char>, Seq<char>)>::empty());
        }
    }

    /// Start building an outbound chat request.
    pub fn llm(&self) -> (r: LlmRequestBuilder)
        ensures
            r@.llm == self@.llm,
            r@.system is None,
            r@.messages == Seq::<Seq<char>>::empty(),
    {
        let r = LlmRequestBuilder { client: self.llm.duplicate(), system: None, messages: Vec::new() };
        proof {
            assert(r@.messages =~= Seq::<Seq<char>>::empty());
        }
        r
    }
}

impl Default for Ctx {
    /// The same as [`Ctx::new`].
    fn default() -> (r: Self)
        ensures
            r@.kv == Map::<Seq<char>, Seq<char>>::empty(),
            r@.log == Seq::<Seq<char>>::empty(),
            r@.llm == default_llm_config(),
    {
        Ctx::new()
    }
}

/// Accumulator for one outbound chat request: an optional system prompt
/// and ordered user messages, plus the configuration to send them with.
pub struct LlmRequestBuilder {
    /// The configuration the request will be sent with.
    pub client: LlmConfig,
    /// The system prompt, if one was set.
    pub system: Option<String>,
    /// The user messages, in order.
    pub messages: Vec<String>,
}

/// The mathematical picture of an [`LlmRequestBuilder`].
pub struct LlmRequestView {
    pub llm: LlmConfigView,
    pub system: Option<Seq<char>>,
    pub messages: Seq<Seq<char>>,
}

impl View for LlmRequestBuilder {
    type V = LlmRequestView;

    open spec fn view(&self) -> LlmRequestView {
        LlmRequestView {
            llm: self.client@,
            system: match self.system {
                Some(m) => Some(m@),
                None => None,
            },
            messages: self.messages@.map_values(|m: String| m@),
        }
    }
}

impl LlmRequestBuilder {
    /// Set the system prompt.
    pub fn system(self, msg: &str) -> (r: Self)
        ensures
            r@.system == Some(msg@),
            r@.messages == self@.messages,
            r@.llm == self@.llm,
    {
        let r = LlmRequestBuilder { system: Some(msg.to_owned()), ..self };
        proof {
            assert(r@.messages =~= self@.messages);
        }
        r
    }

    /// Append a user message.
    pub fn user(self, msg: &str) -> (r: Self)
        ensures
            r@.messages == self@.messages.push(msg@),
            r@.system == self@.system,
            r@.llm == self@.llm,
    {
        let mut messages = self.messages;
        let ghost messages0 = messages@;
        messages.push(msg.to_owned());
        let r = LlmRequestBuilder { client: self.client, system: self.system, messages };
        proof {
            assert(r@.messages =~= messages0.map_values(|m: String| m@).push(msg@));
        }
        r
    }
}

} // verus!
