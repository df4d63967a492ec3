//! The persisted value vocabulary of the session store: thread keys, harness
//! kinds, session and execution states, message roles and sandbox
//! capabilities, each with the exact text it is stored as.
use vstd::prelude::*;

verus! {

/// True when `a` and `b` hold the same characters.
pub fn text_eq(a: &str, b: &str) -> (r: bool)
    ensures
        r == (a@ == b@),
{
    let x = a.to_owned();
    let y = b.to_owned();
    x == y
}

/// True when `a` and `b` hold the same optional text.
pub fn opt_text_eq(a: Option<&str>, b: Option<&str>) -> (r: bool)
    ensures
        r == (opt_view(a) == opt_view(b)),
{
    match (a, b) {
        (None, None) => true,
        (Some(x), Some(y)) => text_eq(x, y),
        _ => false,
    }
}

/// The characters of an optional text.
pub open spec fn opt_view(o: Option<&str>) -> Option<Seq<char>> {
    match o {
        Some(s) => Some(s@),
        None => None,
    }
}

/// The characters of an optional owned text.
pub open spec fn opt_string_view(o: Option<String>) -> Option<Seq<char>> {
    match o {
        Some(s) => Some(s@),
        None => None,
    }
}

/// Borrows an optional owned text.
pub fn opt_as_str(o: &Option<String>) -> (r: Option<&str>)
    ensures
        opt_view(r) == opt_string_view(*o),
{
    match o {
        Some(s) => Some(s.as_str()),
        None => None,
    }
}

/// Copies an optional text.
pub fn opt_to_owned(o: Option<&str>) -> (r: Option<String>)
    ensures
        opt_string_view(r) == opt_view(o),
{
    match o {
        Some(s) => Some(s.to_owned()),
        None => None,
    }
}

/// Copies an optional owned text.
pub fn opt_clone(o: &Option<String>) -> (r: Option<String>)
    ensures
        r == *o,
{
    match o {
        Some(s) => Some(s.clone()),
        None => None,
    }
}

/// A character that may not appear in a thread key.
pub open spec fn is_key_space(c: char) -> bool {
    c == ' ' || c == '\t' || c == '\n' || c == '\r'
}

/// Why `s` is not a valid thread key: it is empty, or holds a blank or a
/// line break.
pub open spec fn invalid_thread_key_reason(s: Seq<char>) -> Seq<char> {
    if s.len() == 0 {
        "thread key must not be empty"@
    } else {
        "thread key must not contain whitespace"@
    }
}

/// A thread key is non-empty text without blanks or line breaks.
pub open spec fn is_valid_thread_key(s: Seq<char>) -> bool {
    s.len() > 0 && forall|i: int| 0 <= i < s.len() ==> !is_key_space(#[trigger] s[i])
}

/// Identifies one conversation thread, such as `slack:C123:1712.0001`.
#[derive(Clone, Debug, PartialEq, Eq)]
pub struct ThreadKey {
    key: String,
}

impl View for ThreadKey {
    type V = Seq<char>;

    open spec fn view(&self) -> Seq<char> {
        self.spec_key()@
    }
}

impl ThreadKey {
    pub closed spec fn spec_key(&self) -> String {
        self.key
    }

    /// Accepts `key` exactly when it is a valid thread key.
    pub fn parse(key: String) -> (r: Result<ThreadKey, String>)
        ensures
            r is Ok <==> is_valid_thread_key(key@),
            r matches Ok(k) ==> k@ == key@,
            r matches Err(m) ==> m@ == invalid_thread_key_reason(key@),
    {
        let n = key.as_str().unicode_len();
        if n == 0 {
            return Err("thread key must not be empty".to_owned());
        }
        let mut i: usize = 0;
        while i < n
            invariant
                n == key@.len(),
                0 <= i <= n,
                forall|j: int| 0 <= j < i ==> !is_key_space(#[trigger] key@[j]),
            decreases n - i,
        {
            let c = key.as_str().get_char(i);
            if c == ' ' || c == '\t' || c == '\n' || c == '\r' {
                return Err("thread key must not contain whitespace".to_owned());
            }
            i = i + 1;
        }
        Ok(ThreadKey { key })
    }

    /// The key's text.
    pub fn as_str(&self) -> (r: &str)
        ensures
            r@ == self@,
    {
        self.key.as_str()
    }

    /// True when both keys hold the same text.
    pub fn same(&self, other: &ThreadKey) -> (r: bool)
        ensures
            r == (self@ == other@),
    {
        text_eq(self.key.as_str(), other.key.as_str())
    }

    /// A copy of the key.
    pub fn duplicate(&self) -> (r: ThreadKey)
        ensures
            r == *self,
    {
        ThreadKey { key: self.key.clone() }
    }
}

/// The agent harness that runs a session's turns.
#[derive(Clone, Copy, Debug, PartialEq, Eq, Structural)]
pub enum HarnessType {
    Codex,
    Amp,
    ClaudeCode,
}

impl HarnessType {
    /// The value stored as `s`, if any.
    pub open spec fn spec_parse(s: Seq<char>) -> Option<HarnessType> {
        if s == "codex"@ {
            Some(HarnessType::Codex)
        } else if s == "amp"@ {
            Some(HarnessType::Amp)
        } else if s == "claudecode"@ {
            Some(HarnessType::ClaudeCode)
        } else {
            None
        }
    }

    /// Reading back the stored text gives the value again.
    pub proof fn parse_round_trip(v: HarnessType)
        ensures
            Self::spec_parse(v.spec_str()) == Some(v),
    {
        reveal_strlit("codex");
        reveal_strlit("amp");
        reveal_strlit("claudecode");
        assert("amp"@.len() != "codex"@.len());
        assert("claudecode"@.len() != "codex"@.len());
        assert("claudecode"@.len() != "amp"@.len());
    }

    pub open spec fn spec_str(self) -> Seq<char> {
        match self {
            HarnessType::Codex => "codex"@,
            HarnessType::Amp => "amp"@,
            HarnessType::ClaudeCode => "claudecode"@,
        }
    }

    /// The wire and storage text of the harness.
    pub fn as_str(&self) -> (r: &'static str)
        ensures
            r@ == self.spec_str(),
    {
        match self {
            HarnessType::Codex => "codex",
            HarnessType::Amp => "amp",
            HarnessType::ClaudeCode => "claudecode",
        }
    }

    /// Reads a harness from its storage text.
    pub fn parse(s: &str) -> (r: Option<HarnessType>)
        ensures
            r == Self::spec_parse(s@),
    {
        proof {
            reveal_strlit("codex");
            reveal_strlit("amp");
            reveal_strlit("claudecode");
        }
        if text_eq(s, "codex") {
            Some(HarnessType::Codex)
        } else if text_eq(s, "amp") {
            Some(HarnessType::Amp)
        } else if text_eq(s, "claudecode") {
            Some(HarnessType::ClaudeCode)
        } else {
            None
        }
    }

    pub fn same(&self, other: &HarnessType) -> (r: bool)
        ensures
            r == (*self == *other),
    {
        match (self, other) {
            (HarnessType::Codex, HarnessType::Codex) => true,
            (HarnessType::Amp, HarnessType::Amp) => true,
            (HarnessType::ClaudeCode, HarnessType::ClaudeCode) => true,
            _ => false,
        }
    }
}

/// The coarse state of a session.
#[derive(Clone, Copy, Debug, PartialEq, Eq, Structural)]
pub enum SessionStatus {
    Idle,
    Executing,
    Failed,
}

impl SessionStatus {
    /// The value stored as `s`, if any.
    pub open spec fn spec_parse(s: Seq<char>) -> Option<SessionStatus> {
        if s == "idle"@ {
            Some(SessionStatus::Idle)
        } else if s == "executing"@ {
            Some(SessionStatus::Executing)
        } else if s == "failed"@ {
            Some(SessionStatus::Failed)
        } else {
            None
        }
    }

    /// Reading back the stored text gives the value again.
    pub proof fn parse_round_trip(v: SessionStatus)
        ensures
            Self::spec_parse(v.spec_str()) == Some(v),
    {
        reveal_strlit("idle");
        reveal_strlit("executing");
        reveal_strlit("failed");
        assert("executing"@.len() != "idle"@.len());
        assert("failed"@.len() != "idle"@.len());
        assert("failed"@.len() != "executing"@.len());
    }

    pub open spec fn spec_str(self) -> Seq<char> {
        match self {
            SessionStatus::Idle => "idle"@,
            SessionStatus::Executing => "executing"@,
            SessionStatus::Failed => "failed"@,
        }
    }

    /// The storage text of the status.
    pub fn as_str(&self) -> (r: &'static str)
        ensures
            r@ == self.spec_str(),
    {
        match self {
            SessionStatus::Idle => "idle",
            SessionStatus::Executing => "executing",
            SessionStatus::Failed => "failed",
        }
    }

    /// Reads a status from its storage text.
    pub fn parse(s: &str) -> (r: Option<SessionStatus>)
        ensures
            r == Self::spec_parse(s@),
    {
        proof {
            reveal_strlit("idle");
            reveal_strlit("executing");
            reveal_strlit("failed");
        }
        if text_eq(s, "idle") {
            Some(SessionStatus::Idle)
        } else if text_eq(s, "executing") {
            Some(SessionStatus::Executing)
        } else if text_eq(s, "failed") {
            Some(SessionStatus::Failed)
        } else {
            None
        }
    }
}

/// The lifecycle state of one execution (turn) of a session.
#[derive(Clone, Copy, Debug, PartialEq, Eq, Structural)]
pub enum ExecutionStatus {
    Queued,
    Running,
    Completed,
    Failed,
    Cancelled,
}

impl ExecutionStatus {
    /// The value stored as `s`, if any.
    pub open spec fn spec_parse(s: Seq<char>) -> Option<ExecutionStatus> {
        if s == "queued"@ {
            Some(ExecutionStatus::Queued)
        } else if s == "running"@ {
            Some(ExecutionStatus::Running)
        } else if s == "completed"@ {
            Some(ExecutionStatus::Completed)
        } else if s == "failed"@ {
            Some(ExecutionStatus::Failed)
        } else if s == "cancelled"@ {
            Some(ExecutionStatus::Cancelled)
        } else {
            None
        }
    }

    /// Reading back the stored text gives the value again.
    pub proof fn parse_round_trip(v: ExecutionStatus)
        ensures
            Self::spec_parse(v.spec_str()) == Some(v),
    {
        reveal_strlit("queued");
        reveal_strlit("running");
        reveal_strlit("completed");
        reveal_strlit("failed");
        reveal_strlit("cancelled");
        assert("running"@.len() != "queued"@.len());
        assert("completed"@.len() != "queued"@.len());
        assert("completed"@.len() != "running"@.len());
        assert("failed"@[0] != "queued"@[0]);
        assert("failed"@.len() != "running"@.len());
        assert("failed"@.len() != "completed"@.len());
        assert("cancelled"@.len() != "queued"@.len());
        assert("cancelled"@.len() != "running"@.len());
        assert("cancelled"@[1] != "completed"@[1]);
        assert("cancelled"@.len() != "failed"@.len());
    }

    pub open spec fn spec_str(self) -> Seq<char> {
        match self {
            ExecutionStatus::Queued => "queued"@,
            ExecutionStatus::Running => "running"@,
            ExecutionStatus::Completed => "completed"@,
            ExecutionStatus::Failed => "failed"@,
            ExecutionStatus::Cancelled => "cancelled"@,
        }
    }

    /// Queued and running executions are active; the others are terminal.
    pub open spec fn spec_is_active(self) -> bool {
        self == ExecutionStatus::Queued || self == ExecutionStatus::Running
    }

    /// The storage text of the status.
    pub fn as_str(&self) -> (r: &'static str)
        ensures
            r@ == self.spec_str(),
    {
        match self {
            ExecutionStatus::Queued => "queued",
            ExecutionStatus::Running => "running",
            ExecutionStatus::Completed => "completed",
            ExecutionStatus::Failed => "failed",
            ExecutionStatus::Cancelled => "cancelled",
        }
    }

    pub fn is_active(&self) -> (r: bool)
        ensures
            r == self.spec_is_active(),
    {
        match self {
            ExecutionStatus::Queued | ExecutionStatus::Running => true,
            _ => false,
        }
    }

    /// Reads a status from its storage text.
    pub fn parse(s: &str) -> (r: Option<ExecutionStatus>)
        ensures
            r == Self::spec_parse(s@),
    {
        proof {
            reveal_strlit("queued");
            reveal_strlit("running");
            reveal_strlit("completed");
            reveal_strlit("failed");
            reveal_strlit("cancelled");
        }
        if text_eq(s, "queued") {
            Some(ExecutionStatus::Queued)
        } else if text_eq(s, "running") {
            Some(ExecutionStatus::Running)
        } else if text_eq(s, "completed") {
            Some(ExecutionStatus::Completed)
        } else if text_eq(s, "failed") {
            Some(ExecutionStatus::Failed)
        } else if text_eq(s, "cancelled") {
            Some(ExecutionStatus::Cancelled)
        } else {
            None
        }
    }
}

/// Who wrote a session message.
#[derive(Clone, Copy, Debug, PartialEq, Eq, Structural)]
pub enum MessageRole {
    User,
    Assistant,
    System,
}

impl MessageRole {
    /// The value stored as `s`, if any.
    pub open spec fn spec_parse(s: Seq<char>) -> Option<MessageRole> {
        if s == "user"@ {
            Some(MessageRole::User)
        } else if s == "assistant"@ {
            Some(MessageRole::Assistant)
        } else if s == "system"@ {
            Some(MessageRole::System)
        } else {
            None
        }
    }

    /// Reading back the stored text gives the value again.
    pub proof fn parse_round_trip(v: MessageRole)
        ensures
            Self::spec_parse(v.spec_str()) == Some(v),
    {
        reveal_strlit("user");
        reveal_strlit("assistant");
        reveal_strlit("system");
        assert("assistant"@.len() != "user"@.len());
        assert("system"@.len() != "user"@.len());
        assert("system"@.len() != "assistant"@.len());
    }

    pub open spec fn spec_str(self) -> Seq<char> {
        match self {
            MessageRole::User => "user"@,
            MessageRole::Assistant => "assistant"@,
            MessageRole::System => "system"@,
        }
    }

    /// The storage text of the role.
    pub fn as_str(&self) -> (r: &'static str)
        ensures
            r@ == self.spec_str(),
    {
        match self {
            MessageRole::User => "user",
            MessageRole::Assistant => "assistant",
            MessageRole::System => "system",
        }
    }

    /// Reads a role from its storage text.
    pub fn parse(s: &str) -> (r: Option<MessageRole>)
        ensures
            r == Self::spec_parse(s@),
    {
        proof {
            reveal_strlit("user");
            reveal_strlit("assistant");
            reveal_strlit("system");
        }
        if text_eq(s, "user") {
            Some(MessageRole::User)
        } else if text_eq(s, "assistant") {
            Some(MessageRole::Assistant)
        } else if text_eq(s, "system") {
            Some(MessageRole::System)
        } else {
            None
        }
    }
}

/// How a sandbox may use the shared repository cache.
#[derive(Clone, Copy, Debug, PartialEq, Eq, Structural)]
pub enum SandboxRepoCacheAccess {
    Disabled,
    ReadOnly,
    ReadWrite,
}

impl SandboxRepoCacheAccess {
    /// The value stored as `s`, if any.
    pub open spec fn spec_parse(s: Seq<char>) -> Option<SandboxRepoCacheAccess> {
        if s == "disabled"@ {
            Some(SandboxRepoCacheAccess::Disabled)
        } else if s == "read_only"@ {
            Some(SandboxRepoCacheAccess::ReadOnly)
        } else if s == "read_write"@ {
            Some(SandboxRepoCacheAccess::ReadWrite)
        } else {
            None
        }
    }

    /// Reading back the stored text gives the value again.
    pub proof fn parse_round_trip(v: SandboxRepoCacheAccess)
        ensures
            Self::spec_parse(v.spec_str()) == Some(v),
    {
        reveal_strlit("disabled");
        reveal_strlit("read_only");
        reveal_strlit("read_write");
        assert("read_only"@.len() != "disabled"@.len());
        assert("read_write"@.len() != "disabled"@.len());
        assert("read_write"@.len() != "read_only"@.len());
    }

    pub open spec fn spec_str(self) -> Seq<char> {
        match self {
            SandboxRepoCacheAccess::Disabled => "disabled"@,
            SandboxRepoCacheAccess::ReadOnly => "read_only"@,
            SandboxRepoCacheAccess::ReadWrite => "read_write"@,
        }
    }

    /// The access that a row written before the access column existed
    /// implies: an enabled cache was mounted read-only.
    pub open spec fn spec_from_legacy_enabled(enabled: bool) -> SandboxRepoCacheAccess {
        if enabled {
            SandboxRepoCacheAccess::ReadOnly
        } else {
            SandboxRepoCacheAccess::Disabled
        }
    }

    /// The storage text of the access.
    pub fn as_str(&self) -> (r: &'static str)
        ensures
            r@ == self.spec_str(),
    {
        match self {
            SandboxRepoCacheAccess::Disabled => "disabled",
            SandboxRepoCacheAccess::ReadOnly => "read_only",
            SandboxRepoCacheAccess::ReadWrite => "read_write",
        }
    }

    pub fn from_legacy_enabled(enabled: bool) -> (r: SandboxRepoCacheAccess)
        ensures
            r == Self::spec_from_legacy_enabled(enabled),
    {
        if enabled {
            SandboxRepoCacheAccess::ReadOnly
        } else {
            SandboxRepoCacheAccess::Disabled
        }
    }

    /// Reads an access from its storage text.
    pub fn parse(s: &str) -> (r: Option<SandboxRepoCacheAccess>)
        ensures
            r == Self::spec_parse(s@),
    {
        proof {
            reveal_strlit("disabled");
            reveal_strlit("read_only");
            reveal_strlit("read_write");
        }
        if text_eq(s, "disabled") {
            Some(SandboxRepoCacheAccess::Disabled)
        } else if text_eq(s, "read_only") {
            Some(SandboxRepoCacheAccess::ReadOnly)
        } else if text_eq(s, "read_write") {
            Some(SandboxRepoCacheAccess::ReadWrite)
        } else {
            None
        }
    }
}

/// What a sandbox was provisioned with.
#[derive(Clone, Copy, Debug, PartialEq, Eq, Structural)]
pub struct SandboxCapabilities {
    pub repo_cache: SandboxRepoCacheAccess,
    pub observability_enabled: bool,
    pub api_server_enabled: bool,
}

impl SandboxCapabilities {
    pub open spec fn spec_repo_cache_enabled(self) -> bool {
        self.repo_cache != SandboxRepoCacheAccess::Disabled
    }

    /// True unless the repository cache is disabled.
    pub fn repo_cache_enabled(&self) -> (r: bool)
        ensures
            r == self.spec_repo_cache_enabled(),
    {
        match self.repo_cache {
            SandboxRepoCacheAccess::Disabled => false,
            _ => true,
        }
    }
}

} // verus!
