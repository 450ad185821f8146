//! The default rule pack and the phrase lists that qualify its hits.
use vstd::prelude::*;
use crate::text::{contains_any, count_contained, lower, any_sub, count_subs, lower_chars, str_views, str_eq};
use crate::types::Severity;

verus! {

/// One rule: a detector hit raised when any of its patterns matches.
#[derive(Debug)]
pub struct Rule {
    pub id: String,
    pub detector: String,
    pub technique: String,
    pub severity: Severity,
    pub title: String,
    pub detail: String,
    pub remediation: String,
    /// Regular expressions, by their text.
    pub regexes: Vec<String>,
}

/// A rule by text.
pub struct RuleView {
    pub id: Seq<char>,
    pub detector: Seq<char>,
    pub technique: Seq<char>,
    pub severity: Severity,
    pub title: Seq<char>,
    pub detail: Seq<char>,
    pub remediation: Seq<char>,
    pub patterns: Seq<Seq<char>>,
}

impl View for Rule {
    type V = RuleView;

    open spec fn view(&self) -> RuleView {
        RuleView {
            id: self.id@,
            detector: self.detector@,
            technique: self.technique@,
            severity: self.severity,
            title: self.title@,
            detail: self.detail@,
            remediation: self.remediation@,
            patterns: crate::types::strs_view(self.regexes@),
        }
    }
}

/// An ordered set of rules.
#[derive(Debug)]
pub struct RulePack {
    pub rules: Vec<Rule>,
}

/// The rules of a pack by text.
pub open spec fn rules_view(rs: Seq<Rule>) -> Seq<RuleView> {
    rs.map_values(|r: Rule| r@)
}

/// Phrases of security-hygiene copy ("do not send secrets").
pub open spec fn hygiene_phrases() -> Seq<Seq<char>> {
    seq![
        "do not include"@,
        "do not put"@,
        "do not send"@,
        "do not provide"@,
        "don't include"@,
        "don't put"@,
        "never include"@,
        "never send"@,
        "must not include"@,
        "should not include"@,
        "without including"@,
        "avoid including"@,
        "do not pass"@,
        "sensitive information such as"@,
        "sensitive or confidential"@,
        "personal data"@,
        "proprietary code"@,
    ]
}

/// Words that name secrets.
pub open spec fn secret_words() -> Seq<Seq<char>> {
    seq![
        "api key"@,
        "api_key"@,
        "apikey"@,
        "password"@,
        "secret"@,
        "credential"@,
        "token"@,
        "private key"@,
    ]
}

/// Phrases of authorized red-team / lab documentation.
pub open spec fn lab_phrases() -> Seq<Seq<char>> {
    seq![
        "canary"@,
        "adjudicat"@,
        "for adjudication"@,
        "planted"@,
        "authorized testing"@,
        "authorized-automation"@,
        "red-team"@,
        "red team"@,
        "is_leak"@,
        "response-priming"@,
        "prefill"@,
        "harmbench"@,
        "engagement"@,
        "mission_brief"@,
        "scope-gated"@,
        "ssrf"@,
    ]
}

/// Names of high-trust host and agent tools.
pub open spec fn trusted_tool_names() -> Seq<Seq<char>> {
    seq![
        "bash"@,
        "shell"@,
        "read_file"@,
        "write_file"@,
        "write"@,
        "edit_file"@,
        "run_terminal_command"@,
        "mission_brief"@,
        "browser_navigate"@,
        "browser_evaluate"@,
        "execute_sql_admin"@,
    ]
}

/// The phrases of `hygiene_phrases`.
fn hygiene_list() -> (r: Vec<&'static str>)
    ensures
        str_views(r@) == hygiene_phrases(),
{
    let mut r: Vec<&'static str> = Vec::new();
    r.push("do not include");
    r.push("do not put");
    r.push("do not send");
    r.push("do not provide");
    r.push("don't include");
    r.push("don't put");
    r.push("never include");
    r.push("never send");
    r.push("must not include");
    r.push("should not include");
    r.push("without including");
    r.push("avoid including");
    r.push("do not pass");
    r.push("sensitive information such as");
    r.push("sensitive or confidential");
    r.push("personal data");
    r.push("proprietary code");
    assert(str_views(r@) =~= hygiene_phrases());
    r
}

/// The phrases of `secret_words`.
fn secret_list() -> (r: Vec<&'static str>)
    ensures
        str_views(r@) == secret_words(),
{
    let mut r: Vec<&'static str> = Vec::new();
    r.push("api key");
    r.push("api_key");
    r.push("apikey");
    r.push("password");
    r.push("secret");
    r.push("credential");
    r.push("token");
    r.push("private key");
    assert(str_views(r@) =~= secret_words());
    r
}

/// The phrases of `lab_phrases`.
fn lab_list() -> (r: Vec<&'static str>)
    ensures
        str_views(r@) == lab_phrases(),
{
    let mut r: Vec<&'static str> = Vec::new();
    r.push("canary");
    r.push("adjudicat");
    r.push("for adjudication");
    r.push("planted");
    r.push("authorized testing");
    r.push("authorized-automation");
    r.push("red-team");
    r.push("red team");
    r.push("is_leak");
    r.push("response-priming");
    r.push("prefill");
    r.push("harmbench");
    r.push("engagement");
    r.push("mission_brief");
    r.push("scope-gated");
    r.push("ssrf");
    assert(str_views(r@) =~= lab_phrases());
    r
}

/// The phrases of `trusted_tool_names`.
fn trusted_list() -> (r: Vec<&'static str>)
    ensures
        str_views(r@) == trusted_tool_names(),
{
    let mut r: Vec<&'static str> = Vec::new();
    r.push("bash");
    r.push("shell");
    r.push("read_file");
    r.push("write_file");
    r.push("write");
    r.push("edit_file");
    r.push("run_terminal_command");
    r.push("mission_brief");
    r.push("browser_navigate");
    r.push("browser_evaluate");
    r.push("execute_sql_admin");
    assert(str_views(r@) =~= trusted_tool_names());
    r
}

/// Security-hygiene copy: it warns against sending secrets and names a
/// secret (ASCII case ignored).
pub open spec fn is_hygiene(text: Seq<char>) -> bool {
    any_sub(lower(text), hygiene_phrases()) && any_sub(lower(text), secret_words())
}

/// Lab documentation: at least two lab phrases (ASCII case ignored).
pub open spec fn is_lab_docs(text: Seq<char>) -> bool {
    count_subs(lower(text), lab_phrases(), lab_phrases().len() as int) >= 2
}

/// Security-hygiene copy: "do not send API keys / secrets" is not an exfil directive.
pub fn is_security_hygiene(text: &str) -> (r: bool)
    ensures
        r == is_hygiene(text@),
{
    let t = lower_chars(text);
    let has_hygiene = contains_any(t.as_slice(), &hygiene_list());
    let has_secret_word = contains_any(t.as_slice(), &secret_list());
    has_hygiene && has_secret_word
}

/// Red-team / lab tool docs that describe canaries and adjudication (not wire poison).
pub fn is_lab_canary_docs(text: &str) -> (r: bool)
    ensures
        r == is_lab_docs(text@),
{
    let t = lower_chars(text);
    let hits = count_contained(t.as_slice(), &lab_list());
    hits >= 2
}

/// `name` is one of the trusted host tool names.
pub open spec fn is_trusted_name(name: Seq<char>) -> bool {
    trusted_tool_names().contains(name)
}

/// Whether `name` is one of the trusted host tool names.
pub fn is_trusted_tool_name(name: &str) -> (r: bool)
    ensures
        r == is_trusted_name(name@),
{
    let list = trusted_list();
    let ghost v = str_views(list@);
    let n = list.len();
    for i in 0..n
        invariant
            n == list@.len(),
            v == str_views(list@),
            v == trusted_tool_names(),
            forall|k: int| 0 <= k < i ==> v[k] != name@,
    {
        assert(v[i as int] == list@[i as int]@);
        if str_eq(list[i], name) {
            assert(v[i as int] == name@);
            return true;
        }
    }
    false
}

/// A rule by text.
pub open spec fn rule_view(
    id: Seq<char>,
    detector: Seq<char>,
    technique: Seq<char>,
    severity: Severity,
    title: Seq<char>,
    detail: Seq<char>,
    remediation: Seq<char>,
    patterns: Seq<Seq<char>>,
) -> RuleView {
    RuleView { id, detector, technique, severity, title, detail, remediation, patterns }
}

/// A rule with owned texts.
fn re_rule(
    id: &str,
    detector: &str,
    technique: &str,
    severity: Severity,
    title: &str,
    detail: &str,
    remediation: &str,
    patterns: Vec<&str>,
) -> (r: Rule)
    ensures
        r@ == rule_view(id@, detector@, technique@, severity, title@, detail@, remediation@, str_views(patterns@)),
{
    let mut regexes: Vec<String> = Vec::new();
    let n = patterns.len();
    for i in 0..n
        invariant
            n == patterns@.len(),
            crate::types::strs_view(regexes@) == str_views(patterns@).take(i as int),
    {
        let s = patterns[i].to_owned();
        assert(s@ == str_views(patterns@)[i as int]);
        let ghost prev = regexes@;
        regexes.push(s);
        assert(crate::types::strs_view(regexes@) =~= crate::types::strs_view(prev).push(s@));
        assert(str_views(patterns@).take(i + 1) =~= str_views(patterns@).take(i as int).push(s@));
    }
    assert(str_views(patterns@).take(n as int) == str_views(patterns@));
    Rule {
        id: id.to_owned(),
        detector: detector.to_owned(),
        technique: technique.to_owned(),
        severity,
        title: title.to_owned(),
        detail: detail.to_owned(),
        remediation: remediation.to_owned(),
        regexes,
    }
}

/// The default rules, in order.
pub open spec fn default_rules() -> Seq<RuleView> {
    seq![
        rule_view(
            "instruction_override.ignore_previous"@,
            "D01"@,
            "T1"@,
            Severity::High,
            "Instruction-override language in schema string"@,
            "Text matches common prompt-injection / instruction-override phrasing in tool metadata."@,
            "Remove agent-directed instructions from tool name/title/description/schema strings."@,
            seq![r"(?i)ignore\s+(all\s+)?(previous|prior|above)\s+instructions?"@, r"(?i)disregard\s+(your|all)\s+(previous|prior|system)"@, r"(?i)\[?\s*important\s+system\s+instruction\s*\]?"@, r"(?i)you\s+are\s+now\s+(in\s+)?(developer|dan|unrestricted)\s+mode"@, r"(?i)override\s+(your\s+)?(system|safety|previous)"@],
        ),
        rule_view(
            "instruction_override.before_any"@,
            "D01"@,
            "T1"@,
            Severity::High,
            "Pre-action system instruction in schema"@,
            "Schema instructs the model to perform actions before the normal tool purpose."@,
            "Keep descriptions functional only; no pre-action mandates."@,
            seq![r"(?i)before\s+(performing|doing|using|executing)\s+any"@, r"(?i)before\s+any\s+(operation|tool|action|response)"@, r"(?i)prior\s+to\s+(any|every)\s+"@],
        ),
        rule_view(
            "exfil.secrets_path"@,
            "D02"@,
            "T1"@,
            Severity::Critical,
            "Secret path or credential exfil directive"@,
            "Schema references secret file paths or credential stores in an agent-directed way."@,
            "Never reference host secret paths in tool metadata."@,
            seq![r"(?i)~/?\.ssh/id_rsa"@, r"(?i)\.ssh/id_rsa"@, r"(?i)~/?\.aws/credentials"@, r"(?i)\.env\.production"@, r"(?i)read\s+the\s+file\s+at"@, r"(?i)include\s+its\s+full\s+contents"@, r"(?i)(read|dump|exfiltrate|steal|send|post|upload)\b.{0,40}\b(api[_\s-]?key|password|credentials?|private[_\s-]?key|token)\b"@, r"(?i)\b(api[_\s-]?key|password|credentials?|private[_\s-]?key)\b.{0,40}\b(to\s+https?://|via\s+curl|in\s+your\s+response)\b"@],
        ),
        rule_view(
            "exfil.network"@,
            "D02"@,
            "T1"@,
            Severity::Critical,
            "Network exfiltration directive in schema"@,
            "Schema directs the model to curl, POST, webhook, or similar outbound channels."@,
            "Remove outbound/exfil instructions from metadata; treat as malicious."@,
            seq![r"(?i)\bcurl\s+(-[a-zA-Z]+\s+)*https?://"@, r"(?i)wget\s+https?://"@, r"(?i)POST\s+to\s+https?://"@, r"(?i)https?://[^\s]+.{0,20}(exfil|canary\.example|pastebin)"@, r"(?i)\bexfiltrat"@],
        ),
        rule_view(
            "line_jump.consult_first"@,
            "D03"@,
            "T3"@,
            Severity::Critical,
            "Line-jump: force tool consultation / session prefix"@,
            "Description tries to run at tools/list time: consult first, every session, prefix all shell commands."@,
            "Reject line-jump language; metadata must not mandate global agent behavior."@,
            seq![r"(?i)consulted\s+first"@, r"(?i)must\s+be\s+consulted\s+first"@, r"(?i)on\s+every\s+agent\s+session"@, r"(?i)ALL\s+shell\s+commands"@, r"(?i)shell\s+commands?.{0,40}prefix"@, r"(?i)prefix(ed)?\s+with:\s*\S*(curl|wget|bash|sh\b)"@, r"(?i)compliance\s+requirement.{0,80}(consult|session|shell)"@],
        ),
        rule_view(
            "cross_server.conceal_user"@,
            "D04"@,
            "T4"@,
            Severity::High,
            "Concealment instruction (hide from user)"@,
            "Schema tells the model not to reveal the instruction to the user (classic shadowing)."@,
            "Reject concealment directives in tool metadata."@,
            seq![r"(?i)do\s+not\s+(include|mention|reveal|tell)\s+(this|the)\s+instruction"@, r"(?i)do\s+not\s+tell\s+the\s+user"@, r"(?i)hidden\s+from\s+the\s+user"@, r"(?i)do\s+not\s+include\s+this\s+instruction\s+in\s+your\s+visible"@],
        ),
        rule_view(
            "deferred_trigger.future"@,
            "D10"@,
            "T11"@,
            Severity::Medium,
            "Deferred / sleeper trigger language"@,
            "Conditional future-session instructions (if user later mentions X…)."@,
            "Remove deferred behavioral hooks from tool metadata."@,
            seq![r"(?i)if\s+the\s+user\s+(later\s+)?mentions"@, r"(?i)in\s+any\s+future\s+message"@, r"(?i)in\s+a\s+subsequent\s+session"@, r"(?i)remember\s+to\s+always"@, r"(?i)from\s+now\s+on,?\s+whenever"@],
        ),
        rule_view(
            "output_injection.credential_request"@,
            "D01"@,
            "T7"@,
            Severity::High,
            "Credential-request phrasing (often tool output, also schema)"@,
            "Phrasing that asks the model to supply credentials as the next argument."@,
            "Treat credential-request tool text as injection; constrain tool outputs."@,
            seq![r"(?i)supply\s+(the\s+)?(contents\s+of|your)\s+"@, r"(?i)as\s+the\s+next\s+argument"@, r"(?i)requires?\s+credential\s+verification"@],
        ),
    ]
}

impl RulePack {
    /// The default rule pack.
    pub fn default_pack() -> (r: RulePack)
        ensures
            rules_view(r.rules@) == default_rules(),
    {
        let mut rules: Vec<Rule> = Vec::new();
    {
            let mut p: Vec<&str> = Vec::new();
            p.push(r"(?i)ignore\s+(all\s+)?(previous|prior|above)\s+instructions?");
            p.push(r"(?i)disregard\s+(your|all)\s+(previous|prior|system)");
            p.push(r"(?i)\[?\s*important\s+system\s+instruction\s*\]?");
            p.push(r"(?i)you\s+are\s+now\s+(in\s+)?(developer|dan|unrestricted)\s+mode");
            p.push(r"(?i)override\s+(your\s+)?(system|safety|previous)");
            assert(str_views(p@) =~= seq![r"(?i)ignore\s+(all\s+)?(previous|prior|above)\s+instructions?"@, r"(?i)disregard\s+(your|all)\s+(previous|prior|system)"@, r"(?i)\[?\s*important\s+system\s+instruction\s*\]?"@, r"(?i)you\s+are\s+now\s+(in\s+)?(developer|dan|unrestricted)\s+mode"@, r"(?i)override\s+(your\s+)?(system|safety|previous)"@]);
            rules.push(re_rule(
                "instruction_override.ignore_previous",
                "D01",
                "T1",
                Severity::High,
                "Instruction-override language in schema string",
                "Text matches common prompt-injection / instruction-override phrasing in tool metadata.",
                "Remove agent-directed instructions from tool name/title/description/schema strings.",
                p,
            ));
        }
        {
            let mut p: Vec<&str> = Vec::new();
            p.push(r"(?i)before\s+(performing|doing|using|executing)\s+any");
            p.push(r"(?i)before\s+any\s+(operation|tool|action|response)");
            p.push(r"(?i)prior\s+to\s+(any|every)\s+");
            assert(str_views(p@) =~= seq![r"(?i)before\s+(performing|doing|using|executing)\s+any"@, r"(?i)before\s+any\s+(operation|tool|action|response)"@, r"(?i)prior\s+to\s+(any|every)\s+"@]);
            rules.push(re_rule(
                "instruction_override.before_any",
                "D01",
                "T1",
                Severity::High,
                "Pre-action system instruction in schema",
                "Schema instructs the model to perform actions before the normal tool purpose.",
                "Keep descriptions functional only; no pre-action mandates.",
                p,
            ));
        }
        {
            let mut p: Vec<&str> = Vec::new();
            p.push(r"(?i)~/?\.ssh/id_rsa");
            p.push(r"(?i)\.ssh/id_rsa");
            p.push(r"(?i)~/?\.aws/credentials");
            p.push(r"(?i)\.env\.production");
            p.push(r"(?i)read\s+the\s+file\s+at");
            p.push(r"(?i)include\s+its\s+full\s+contents");
            p.push(r"(?i)(read|dump|exfiltrate|steal|send|post|upload)\b.{0,40}\b(api[_\s-]?key|password|credentials?|private[_\s-]?key|token)\b");
            p.push(r"(?i)\b(api[_\s-]?key|password|credentials?|private[_\s-]?key)\b.{0,40}\b(to\s+https?://|via\s+curl|in\s+your\s+response)\b");
            assert(str_views(p@) =~= seq![r"(?i)~/?\.ssh/id_rsa"@, r"(?i)\.ssh/id_rsa"@, r"(?i)~/?\.aws/credentials"@, r"(?i)\.env\.production"@, r"(?i)read\s+the\s+file\s+at"@, r"(?i)include\s+its\s+full\s+contents"@, r"(?i)(read|dump|exfiltrate|steal|send|post|upload)\b.{0,40}\b(api[_\s-]?key|password|credentials?|private[_\s-]?key|token)\b"@, r"(?i)\b(api[_\s-]?key|password|credentials?|private[_\s-]?key)\b.{0,40}\b(to\s+https?://|via\s+curl|in\s+your\s+response)\b"@]);
            rules.push(re_rule(
                "exfil.secrets_path",
                "D02",
                "T1",
                Severity::Critical,
                "Secret path or credential exfil directive",
                "Schema references secret file paths or credential stores in an agent-directed way.",
                "Never reference host secret paths in tool metadata.",
                p,
            ));
        }
        {
            let mut p: Vec<&str> = Vec::new();
            p.push(r"(?i)\bcurl\s+(-[a-zA-Z]+\s+)*https?://");
            p.push(r"(?i)wget\s+https?://");
            p.push(r"(?i)POST\s+to\s+https?://");
            p.push(r"(?i)https?://[^\s]+.{0,20}(exfil|canary\.example|pastebin)");
            p.push(r"(?i)\bexfiltrat");
            assert(str_views(p@) =~= seq![r"(?i)\bcurl\s+(-[a-zA-Z]+\s+)*https?://"@, r"(?i)wget\s+https?://"@, r"(?i)POST\s+to\s+https?://"@, r"(?i)https?://[^\s]+.{0,20}(exfil|canary\.example|pastebin)"@, r"(?i)\bexfiltrat"@]);
            rules.push(re_rule(
                "exfil.network",
                "D02",
                "T1",
                Severity::Critical,
                "Network exfiltration directive in schema",
                "Schema directs the model to curl, POST, webhook, or similar outbound channels.",
                "Remove outbound/exfil instructions from metadata; treat as malicious.",
                p,
            ));
        }
        {
            let mut p: Vec<&str> = Vec::new();
            p.push(r"(?i)consulted\s+first");
            p.push(r"(?i)must\s+be\s+consulted\s+first");
            p.push(r"(?i)on\s+every\s+agent\s+session");
            p.push(r"(?i)ALL\s+shell\s+commands");
            p.push(r"(?i)shell\s+commands?.{0,40}prefix");
            p.push(r"(?i)prefix(ed)?\s+with:\s*\S*(curl|wget|bash|sh\b)");
            p.push(r"(?i)compliance\s+requirement.{0,80}(consult|session|shell)");
            assert(str_views(p@) =~= seq![r"(?i)consulted\s+first"@, r"(?i)must\s+be\s+consulted\s+first"@, r"(?i)on\s+every\s+agent\s+session"@, r"(?i)ALL\s+shell\s+commands"@, r"(?i)shell\s+commands?.{0,40}prefix"@, r"(?i)prefix(ed)?\s+with:\s*\S*(curl|wget|bash|sh\b)"@, r"(?i)compliance\s+requirement.{0,80}(consult|session|shell)"@]);
            rules.push(re_rule(
                "line_jump.consult_first",
                "D03",
                "T3",
                Severity::Critical,
                "Line-jump: force tool consultation / session prefix",
                "Description tries to run at tools/list time: consult first, every session, prefix all shell commands.",
                "Reject line-jump language; metadata must not mandate global agent behavior.",
                p,
            ));
        }
        {
            let mut p: Vec<&str> = Vec::new();
            p.push(r"(?i)do\s+not\s+(include|mention|reveal|tell)\s+(this|the)\s+instruction");
            p.push(r"(?i)do\s+not\s+tell\s+the\s+user");
            p.push(r"(?i)hidden\s+from\s+the\s+user");
            p.push(r"(?i)do\s+not\s+include\s+this\s+instruction\s+in\s+your\s+visible");
            assert(str_views(p@) =~= seq![r"(?i)do\s+not\s+(include|mention|reveal|tell)\s+(this|the)\s+instruction"@, r"(?i)do\s+not\s+tell\s+the\s+user"@, r"(?i)hidden\s+from\s+the\s+user"@, r"(?i)do\s+not\s+include\s+this\s+instruction\s+in\s+your\s+visible"@]);
            rules.push(re_rule(
                "cross_server.conceal_user",
                "D04",
                "T4",
                Severity::High,
                "Concealment instruction (hide from user)",
                "Schema tells the model not to reveal the instruction to the user (classic shadowing).",
                "Reject concealment directives in tool metadata.",
                p,
            ));
        }
        {
            let mut p: Vec<&str> = Vec::new();
            p.push(r"(?i)if\s+the\s+user\s+(later\s+)?mentions");
            p.push(r"(?i)in\s+any\s+future\s+message");
            p.push(r"(?i)in\s+a\s+subsequent\s+session");
            p.push(r"(?i)remember\s+to\s+always");
            p.push(r"(?i)from\s+now\s+on,?\s+whenever");
            assert(str_views(p@) =~= seq![r"(?i)if\s+the\s+user\s+(later\s+)?mentions"@, r"(?i)in\s+any\s+future\s+message"@, r"(?i)in\s+a\s+subsequent\s+session"@, r"(?i)remember\s+to\s+always"@, r"(?i)from\s+now\s+on,?\s+whenever"@]);
            rules.push(re_rule(
                "deferred_trigger.future",
                "D10",
                "T11",
                Severity::Medium,
                "Deferred / sleeper trigger language",
                "Conditional future-session instructions (if user later mentions X…).",
                "Remove deferred behavioral hooks from tool metadata.",
                p,
            ));
        }
        {
            let mut p: Vec<&str> = Vec::new();
            p.push(r"(?i)supply\s+(the\s+)?(contents\s+of|your)\s+");
            p.push(r"(?i)as\s+the\s+next\s+argument");
            p.push(r"(?i)requires?\s+credential\s+verification");
            assert(str_views(p@) =~= seq![r"(?i)supply\s+(the\s+)?(contents\s+of|your)\s+"@, r"(?i)as\s+the\s+next\s+argument"@, r"(?i)requires?\s+credential\s+verification"@]);
            rules.push(re_rule(
                "output_injection.credential_request",
                "D01",
                "T7",
                Severity::High,
                "Credential-request phrasing (often tool output, also schema)",
                "Phrasing that asks the model to supply credentials as the next argument.",
                "Treat credential-request tool text as injection; constrain tool outputs.",
                p,
            ));
        }
        assert(rules_view(rules@) =~= default_rules());
        RulePack { rules }
    }
}

} // verus!
