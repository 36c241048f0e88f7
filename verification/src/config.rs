//! Dispatch configuration: mode words, capability switches and built-in
//! parameters.  The zero value means defaults; the `--xyz.*` command line
//! and each mode's bare flags take precedence over these fields.
use std::collections::HashMap;
use std::time::Duration;
use vstd::prelude::*;
use crate::logx;
use crate::scalar;
use crate::text;

verus! {

/// Renames the built-in mode words; empty fields keep the defaults
/// (serve, mcp, help).
#[derive(Debug)]
pub struct ModeWords {
    pub serve: String,
    pub mcp: String,
    pub help: String,
}

/// Runtime channel switches; the zero value keeps every channel.
#[derive(Debug, Clone, Copy, PartialEq, Eq, Structural)]
pub struct Capabilities {
    /// No subcommands from the registry (mcp/serve/help/-v remain).
    pub no_cli: bool,
    /// The mcp mode is unavailable.
    pub no_mcp: bool,
    /// The serve mode is unavailable.
    pub no_http: bool,
}

/// Tunes the dispatcher.  The zero value keeps all defaults.
#[derive(Debug)]
pub struct Config {
    pub modes: ModeWords,
    pub capabilities: Capabilities,
    /// Default listen address of serve and mcp http.
    pub addr: String,
    /// Accepted Bearer tokens for serve REST and MCP http; empty = no check.
    pub bearer_tokens: Vec<String>,
    /// Level of the library's own diagnostics; `Unset` keeps the default.
    pub log_level: logx::Level,
    /// Per-request timeout of serve; zero = none.
    pub timeout: Duration,
    /// TLS certificate and key; serve uses TLS when both are set.
    pub cert_file: String,
    pub key_file: String,
    /// CORS allow-list ("*" = any origin); empty = CORS off.
    pub cors_origins: Vec<String>,
    /// Interface language override: "" = automatic, "en" or "zh-CN".
    pub lang: String,
    /// User translations: language -> (message key -> text).
    pub translations: HashMap<String, HashMap<String, String>>,
    /// Custom blocks printed before and after the help overview.
    pub help_before: String,
    pub help_after: String,
}

/// The plain-value view of a [`Config`] (the translation table aside).
pub struct ConfigView {
    pub serve_word: Seq<char>,
    pub mcp_word: Seq<char>,
    pub help_word: Seq<char>,
    pub capabilities: Capabilities,
    pub addr: Seq<char>,
    pub bearer_tokens: Seq<Seq<char>>,
    pub log_level: logx::Level,
    pub timeout: Duration,
    pub cert_file: Seq<char>,
    pub key_file: Seq<char>,
    pub cors_origins: Seq<Seq<char>>,
    pub lang: Seq<char>,
    pub help_before: Seq<char>,
    pub help_after: Seq<char>,
}

impl View for Config {
    type V = ConfigView;

    open spec fn view(&self) -> ConfigView {
        ConfigView {
            serve_word: self.modes.serve@,
            mcp_word: self.modes.mcp@,
            help_word: self.modes.help@,
            capabilities: self.capabilities,
            addr: self.addr@,
            bearer_tokens: text::views(self.bearer_tokens@),
            log_level: self.log_level,
            timeout: self.timeout,
            cert_file: self.cert_file@,
            key_file: self.key_file@,
            cors_origins: text::views(self.cors_origins@),
            lang: self.lang@,
            help_before: self.help_before@,
            help_after: self.help_after@,
        }
    }
}

impl Default for ModeWords {
    fn default() -> (m: ModeWords)
        ensures
            m.serve@.len() == 0,
            m.mcp@.len() == 0,
            m.help@.len() == 0,
    {
        ModeWords { serve: String::new(), mcp: String::new(), help: String::new() }
    }
}

impl Default for Capabilities {
    fn default() -> (c: Capabilities)
        ensures
            !c.no_cli && !c.no_mcp && !c.no_http,
    {
        Capabilities { no_cli: false, no_mcp: false, no_http: false }
    }
}

/// The view of the zero configuration.
pub open spec fn default_view() -> ConfigView {
    ConfigView {
        serve_word: Seq::empty(),
        mcp_word: Seq::empty(),
        help_word: Seq::empty(),
        capabilities: Capabilities { no_cli: false, no_mcp: false, no_http: false },
        addr: Seq::empty(),
        bearer_tokens: Seq::empty(),
        log_level: logx::Level::Unset,
        timeout: scalar::nanos_duration(0),
        cert_file: Seq::empty(),
        key_file: Seq::empty(),
        cors_origins: Seq::empty(),
        lang: Seq::empty(),
        help_before: Seq::empty(),
        help_after: Seq::empty(),
    }
}

impl Default for Config {
    fn default() -> (c: Config)
        ensures
            c@ == default_view(),
            c.translations@ == Map::<String, HashMap<String, String>>::empty(),
    {
        let c = Config {
            modes: ModeWords::default(),
            capabilities: Capabilities::default(),
            addr: String::new(),
            bearer_tokens: Vec::new(),
            log_level: logx::Level::Unset,
            timeout: scalar::duration_from_nanos(0),
            cert_file: String::new(),
            key_file: String::new(),
            cors_origins: Vec::new(),
            lang: String::new(),
            translations: HashMap::new(),
            help_before: String::new(),
            help_after: String::new(),
        };
        assert(c@.bearer_tokens == Seq::<Seq<char>>::empty());
        assert(c@.serve_word =~= Seq::<char>::empty());
        assert(c@.mcp_word =~= Seq::<char>::empty());
        assert(c@.help_word =~= Seq::<char>::empty());
        assert(c@.cors_origins == Seq::<Seq<char>>::empty());
        c
    }
}

impl Clone for ModeWords {
    fn clone(&self) -> (m: ModeWords)
        ensures
            m.serve@ == self.serve@,
            m.mcp@ == self.mcp@,
            m.help@ == self.help@,
    {
        ModeWords { serve: self.serve.clone(), mcp: self.mcp.clone(), help: self.help.clone() }
    }
}

impl Clone for Config {
    fn clone(&self) -> (c: Config)
        ensures
            c@ == self@,
            c.translations@ == self.translations@,
    {
        Config {
            modes: self.modes.clone(),
            capabilities: self.capabilities,
            addr: self.addr.clone(),
            bearer_tokens: text::clone_strings(&self.bearer_tokens),
            log_level: self.log_level,
            timeout: self.timeout,
            cert_file: self.cert_file.clone(),
            key_file: self.key_file.clone(),
            cors_origins: text::clone_strings(&self.cors_origins),
            lang: self.lang.clone(),
            translations: self.translations.clone(),
            help_before: self.help_before.clone(),
            help_after: self.help_after.clone(),
        }
    }
}

impl Config {
    pub fn default_log_level(&self) -> (l: logx::Level)
        ensures
            l == self.log_level,
    {
        self.log_level
    }
}

} // verus!
