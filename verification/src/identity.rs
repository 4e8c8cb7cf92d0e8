//! The agent's identity and the system prompt that is built from it.

use crate::json;
use crate::json::Json;
use crate::text;
use crate::text::{chars_of, push_decimal, same_text, slice_text, trim};
use vstd::prelude::*;
use vstd::string::*;

verus! {

/// Agent name when no spark config exists.
pub const DEFAULT_CALLSIGN: &'static str = "AOS";

/// Path of the spark identity configuration file.
pub const SPARK_CONFIG_PATH: &'static str = "home://.config/spark.toml";

/// Agent role when no spark config exists.
pub const DEFAULT_CLASS: &'static str = "a secure coding assistant";

/// Instruction appended to the system prompt until an identity is configured.
pub const ONBOARDING_PROMPT: &'static str = "# Important: Identity Setup Required

This is your first session. You have no name or identity yet. Introduce
yourself briefly, then ask the user one open question about how they'd like
to work together. Let the conversation flow naturally. From it, derive a name,
personality, and focus that feel right — then surface what you came up with
and let the user react. Adjust from there. Once you've landed on something,
call `save_identity` to save it. Always call it — if the user wants to skip,
derive something fitting from the exchange and confirm it casually before saving.";

/// Agent identity configuration.
#[derive(Debug)]
pub struct SparkConfig {
    /// Agent name/identifier.
    pub callsign: String,
    /// Agent role description.
    pub class: String,
    /// Personality traits.
    pub aura: String,
    /// Communication style preferences.
    pub signal: String,
    /// Core directives and constraints.
    pub core: String,
}

#[verifier::ext_equal]
pub struct SparkView {
    pub callsign: Seq<char>,
    pub class: Seq<char>,
    pub aura: Seq<char>,
    pub signal: Seq<char>,
    pub core: Seq<char>,
}

pub open spec fn default_spark() -> SparkView {
    SparkView {
        callsign: DEFAULT_CALLSIGN@,
        class: DEFAULT_CLASS@,
        aura: Seq::empty(),
        signal: Seq::empty(),
        core: Seq::empty(),
    }
}

impl Default for SparkConfig {
    fn default() -> (r: Self)
        ensures
            r@ == default_spark(),
    {
        let spark = SparkConfig {
            callsign: DEFAULT_CALLSIGN.to_owned(),
            class: DEFAULT_CLASS.to_owned(),
            aura: String::new(),
            signal: String::new(),
            core: String::new(),
        };
        assert(spark@ =~= default_spark());
        spark
    }
}

pub open spec fn opening(spark: SparkView) -> Seq<char> {
    let name = if spark.callsign.len() == 0 {
        DEFAULT_CALLSIGN@
    } else {
        spark.callsign
    };
    if spark.class.len() == 0 {
        "You are "@ + name + "."@
    } else {
        "You are "@ + name + ", "@ + spark.class + "."@
    }
}

/// A section behind an empty line; an empty one is left out.
pub open spec fn section(title: Seq<char>, body: Seq<char>) -> Seq<char> {
    if body.len() == 0 {
        Seq::empty()
    } else {
        "\n\n"@ + title + body
    }
}

/// Who the agent is, then personality, style and directives.
pub open spec fn preamble(spark: SparkView) -> Seq<char> {
    opening(spark) + section("# Personality\n"@, spark.aura) + section(
        "# Communication Style\n"@,
        spark.signal,
    ) + section("# Core Directives\n"@, spark.core)
}

fn push_section(out: &mut String, title: &str, body: &str)
    ensures
        final(out)@ == old(out)@ + section(title@, body@),
{
    let ghost start = out@;
    if chars_of(body).len() > 0 {
        out.append("\n\n");
        out.append(title);
        out.append(body);
    }
    assert(out@ =~= start + section(title@, body@));
}

impl SparkConfig {
    pub open spec fn view(&self) -> SparkView {
        SparkView {
            callsign: self.callsign@,
            class: self.class@,
            aura: self.aura@,
            signal: self.signal@,
            core: self.core@,
        }
    }

    /// The identity preamble of a prompt.
    pub fn build_preamble(&self) -> (r: String)
        ensures
            r@ == preamble(self@),
    {
        let mut out: String = "You are ".to_owned();
        if chars_of(self.callsign.as_str()).len() == 0 {
            out.append(DEFAULT_CALLSIGN);
        } else {
            out.append(self.callsign.as_str());
        }
        if chars_of(self.class.as_str()).len() > 0 {
            out.append(", ");
            out.append(self.class.as_str());
        }
        out.append(".");
        assert(out@ =~= opening(self@));
        push_section(&mut out, "# Personality\n", self.aura.as_str());
        push_section(&mut out, "# Communication Style\n", self.signal.as_str());
        push_section(&mut out, "# Core Directives\n", self.core.as_str());
        out
    }
}

/// Request payload for building the system prompt.
#[derive(Debug)]
pub struct BuildRequest {
    /// Absolute path to the workspace root directory.
    pub workspace_root: String,
    /// Session ID for correlation.
    pub session_id: Option<String>,
}

/// Response payload with the assembled system prompt.
#[derive(Debug)]
pub struct BuildResponse {
    /// The fully assembled system prompt.
    pub prompt: String,
    /// Session ID echoed from the request.
    pub session_id: Option<String>,
}

/// What a command asks of the identity.
#[derive(Clone, Copy, Debug, PartialEq, Eq, Structural)]
pub enum IdentityCommand {
    Export,
    Import,
    Other,
}

/// State of the identity.
#[derive(Debug)]
pub struct IdentityBuilder {
    /// The spark identity configuration.
    pub spark: SparkConfig,
    /// Whether the user has completed identity onboarding.
    pub onboarded: bool,
}

#[verifier::ext_equal]
pub struct IdentityView {
    pub spark: SparkView,
    pub onboarded: bool,
}

impl Default for IdentityBuilder {
    fn default() -> (r: Self)
        ensures
            r@ == (IdentityView { spark: default_spark(), onboarded: false }),
    {
        IdentityBuilder { spark: SparkConfig::default(), onboarded: false }
    }
}

pub open spec fn environment(workspace_root: Seq<char>) -> Seq<char> {
    "# Environment\n- Current working directory: "@ + workspace_root
        + "\n- Platform: Unicity AOS"@
}

pub open spec fn maybe_spark(spark: Option<SparkConfig>) -> Option<SparkView> {
    match spark {
        Some(spark) => Some(spark@),
        None => None,
    }
}

/// The identity after a look at the configuration file. A named configuration
/// is taken over by one who has none yet.
pub open spec fn adopted(before: IdentityView, loaded: Option<SparkView>) -> IdentityView {
    match loaded {
        Some(spark) => if !before.onboarded && spark.callsign.len() > 0 {
            IdentityView { spark, onboarded: true }
        } else {
            before
        },
        None => before,
    }
}

/// The prompt of an identity: its preamble before the environment, or the
/// request to set one up behind it.
pub open spec fn prompt_of(identity: IdentityView, workspace_root: Seq<char>) -> Seq<char> {
    if identity.onboarded {
        preamble(identity.spark) + "\n\n"@ + environment(workspace_root)
    } else {
        environment(workspace_root) + "\n\n"@ + ONBOARDING_PROMPT@
    }
}

/// A path without slashes at its end.
pub open spec fn without_end_slashes(path: Seq<char>) -> Seq<char>
    decreases path.len(),
{
    if path.len() > 0 && path.last() == '/' {
        without_end_slashes(path.drop_last())
    } else {
        path
    }
}

fn strip_end_slashes(path: &str) -> (r: String)
    ensures
        r@ == without_end_slashes(path@),
{
    let chars = chars_of(path);
    let mut end: usize = chars.len();
    assert(chars@.subrange(0, end as int) =~= chars@);
    while end > 0 && chars[end - 1] == '/'
        invariant
            end <= chars@.len(),
            without_end_slashes(path@) == without_end_slashes(chars@.subrange(0, end as int)),
        decreases end,
    {
        assert(chars@.subrange(0, end as int).drop_last() =~= chars@.subrange(0, end - 1));
        end = end - 1;
    }
    slice_text(&chars, 0, end)
}

impl IdentityBuilder {
    pub open spec fn view(&self) -> IdentityView {
        IdentityView { spark: self.spark@, onboarded: self.onboarded }
    }

    /// Builds the system prompt from the spark identity. `loaded` is the
    /// configuration file where it could be read and parsed.
    pub fn build_system_prompt(&mut self, req: BuildRequest, loaded: Option<SparkConfig>) -> (r:
        BuildResponse)
        ensures
            final(self)@ == adopted(old(self)@, maybe_spark(loaded)),
            r.prompt@ == prompt_of(final(self)@, without_end_slashes(req.workspace_root@)),
            r.session_id == req.session_id,
    {
        let root = strip_end_slashes(req.workspace_root.as_str());
        let prompt = self.build_prompt_text(root.as_str(), loaded);
        BuildResponse { prompt, session_id: req.session_id }
    }

    /// The system prompt for a working directory.
    pub fn build_prompt_text(&mut self, workspace_root: &str, loaded: Option<SparkConfig>) -> (r:
        String)
        ensures
            final(self)@ == adopted(old(self)@, maybe_spark(loaded)),
            r@ == prompt_of(final(self)@, workspace_root@),
    {
        if let Some(spark) = loaded {
            if !self.onboarded && chars_of(spark.callsign.as_str()).len() > 0 {
                self.spark = spark;
                self.onboarded = true;
            }
        }
        let mut around: String = "# Environment\n- Current working directory: ".to_owned();
        around.append(workspace_root);
        around.append("\n- Platform: Unicity AOS");
        if self.onboarded {
            let mut prompt = self.spark.build_preamble();
            prompt.append("\n\n");
            prompt.append(around.as_str());
            assert(prompt@ =~= prompt_of(self@, workspace_root@));
            prompt
        } else {
            around.append("\n\n");
            around.append(ONBOARDING_PROMPT);
            around
        }
    }

    /// The command of a payload, and the session that it came from.
    pub fn handle_command(&self, payload: &Json) -> (r: (IdentityCommand, String))
        ensures
            ({
                let command = match json::text_of(payload@, "text"@) {
                    Some(command) => text::trimmed(command),
                    None => Seq::empty(),
                };
                &&& r.0 == (if command == "identity-export"@ {
                    IdentityCommand::Export
                } else if command == "identity-import"@ {
                    IdentityCommand::Import
                } else {
                    IdentityCommand::Other
                })
                &&& r.1@ == (match json::text_of(payload@, "session_id"@) {
                    Some(session) => session,
                    None => "default"@,
                })
            }),
    {
        let session: String = match payload.text_field("session_id") {
            Some(session) => session.to_owned(),
            None => "default".to_owned(),
        };
        proof {
            reveal_strlit("identity-export");
            reveal_strlit("identity-import");
            let none = Seq::<char>::empty();
            assert("identity-export"@.len() != none.len());
            assert("identity-import"@.len() != none.len());
        }
        let command = match payload.text_field("text") {
            Some(command) => if same_text(
                trim(&chars_of(command)).as_str(),
                "identity-export",
            ) {
                IdentityCommand::Export
            } else if same_text(trim(&chars_of(command)).as_str(), "identity-import") {
                IdentityCommand::Import
            } else {
                IdentityCommand::Other
            },
            None => IdentityCommand::Other,
        };
        (command, session)
    }

    /// The report on an export of some bytes.
    pub fn export_report(&self, bytes: usize) -> (r: String)
        ensures
            r@ == "Identity exported to "@ + SPARK_CONFIG_PATH@ + " ("@ + text::decimal(
                bytes as nat,
            ) + " bytes)"@,
    {
        let mut out: String = "Identity exported to ".to_owned();
        out.append(SPARK_CONFIG_PATH);
        out.append(" (");
        push_decimal(&mut out, bytes as u128);
        out.append(" bytes)");
        out
    }

    /// Takes an imported identity over, or the default where the file could
    /// not be parsed, and reports it.
    pub fn import(&mut self, parsed: Option<SparkConfig>) -> (r: String)
        ensures
            final(self)@ == (IdentityView {
                spark: match maybe_spark(parsed) {
                    Some(spark) => spark,
                    None => default_spark(),
                },
                onboarded: true,
            }),
            r@ == import_report(final(self)@.spark.callsign),
    {
        self.spark =
        match parsed {
            Some(spark) => spark,
            None => SparkConfig::default(),
        };
        self.onboarded = true;
        let mut out: String = "Identity imported from ".to_owned();
        out.append(SPARK_CONFIG_PATH);
        out.append(" (callsign: ");
        out.append(self.spark.callsign.as_str());
        out.append(")");
        out
    }

    /// Saves the agent's identity.
    pub fn save_identity(&mut self, args: SparkConfig)
        ensures
            final(self)@ == (IdentityView { spark: args@, onboarded: true }),
    {
        self.spark = args;
        self.onboarded = true;
    }
}

pub open spec fn import_report(callsign: Seq<char>) -> Seq<char> {
    "Identity imported from "@ + SPARK_CONFIG_PATH@ + " (callsign: "@ + callsign + ")"@
}

/// An identity once established is kept, whatever the file says.
pub proof fn identities_are_kept(identity: IdentityView, loaded: Option<SparkView>)
    requires
        identity.onboarded,
    ensures
        adopted(identity, loaded) == identity,
{
}

/// A stub without a name does not end the onboarding.
pub proof fn nameless_files_are_ignored(identity: IdentityView, loaded: SparkView)
    requires
        loaded.callsign.len() == 0,
    ensures
        adopted(identity, Some(loaded)) == identity,
{
}

} // verus!
