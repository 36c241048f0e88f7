//! Built-in interface texts: a language, a per-language catalog and user
//! overrides.  English is the default; Chinese ships with the library.
//! `t(key)` gives the current text of a key; overrides win over the
//! built-in catalog, and an unknown key falls back to the key itself.
//! The process-wide selection of the original is held in [`LangState`].
use vstd::prelude::*;
use crate::text;

verus! {

/// The supported languages.
#[derive(Debug, Clone, Copy, PartialEq, Eq, Structural)]
pub enum XyzLang {
    En,
    ZhCn,
}

impl Default for XyzLang {
    fn default() -> (l: XyzLang)
        ensures
            l == XyzLang::En,
    {
        XyzLang::En
    }
}

/// The `--xyz.lang` spelling of a language.
pub open spec fn lang_name(l: XyzLang) -> Seq<char> {
    match l {
        XyzLang::En => "en"@,
        XyzLang::ZhCn => "zh-CN"@,
    }
}

/// The language a `--xyz.lang` value names.
pub open spec fn lang_of_name(s: Seq<char>) -> Option<XyzLang> {
    if s == "en"@ {
        Some(XyzLang::En)
    } else if s == "zh-CN"@ {
        Some(XyzLang::ZhCn)
    } else {
        None
    }
}

/// The language that the environment values `LC_ALL` then `LANG` select:
/// the first one that is set and non-empty decides, a `zh` prefix (any
/// case) selecting Chinese; none of them set selects English.
pub open spec fn detect_spec(lc_all: Option<Seq<char>>, lang: Option<Seq<char>>) -> XyzLang {
    let pick = |v: Seq<char>|
        if text::is_prefix("zh"@, text::lower(v)) {
            XyzLang::ZhCn
        } else {
            XyzLang::En
        };
    match lc_all {
        Some(v) if v.len() > 0 => pick(v),
        _ => match lang {
            Some(v) if v.len() > 0 => pick(v),
            _ => XyzLang::En,
        },
    }
}

impl XyzLang {
    pub fn as_str(&self) -> (s: &'static str)
        ensures
            s@ == lang_name(*self),
    {
        match self {
            XyzLang::En => "en",
            XyzLang::ZhCn => "zh-CN",
        }
    }

    /// Parses a `--xyz.lang` value; unknown values give `None`.
    pub fn parse(s: &str) -> (r: Option<XyzLang>)
        ensures
            r == lang_of_name(s@),
    {
        if text::str_eq(s, "en") {
            Some(XyzLang::En)
        } else if text::str_eq(s, "zh-CN") {
            Some(XyzLang::ZhCn)
        } else {
            None
        }
    }

    /// Detection from the values of `LC_ALL` and `LANG` (the caller reads
    /// the environment).
    pub fn detect(lc_all: Option<&str>, lang: Option<&str>) -> (r: XyzLang)
        ensures
            r == detect_spec(
                match lc_all { Some(v) => Some(v@), None => None },
                match lang { Some(v) => Some(v@), None => None },
            ),
    {
        let chosen: Option<&str> = match lc_all {
            Some(v) if !v.is_empty() => Some(v),
            _ => match lang {
                Some(v) if !v.is_empty() => Some(v),
                _ => None,
            },
        };
        match chosen {
            Some(v) => {
                let low = text::to_ascii_lower(v);
                if text::str_starts_with(low.as_str(), "zh") {
                    XyzLang::ZhCn
                } else {
                    XyzLang::En
                }
            },
            None => XyzLang::En,
        }
    }
}

/// The built-in English catalog.
pub open spec fn en_text(key: Seq<char>) -> Option<Seq<char>> {
    if key == "overview.usage_line"@ {
        Some("Usage (the mode is detected automatically; definitions live in one place):"@)
    } else if key == "overview.cli_mode"@ {
        Some("  <app> [command] [args]         CLI mode (subcommands + flags/positionals; -h help, -v version)"@)
    } else if key == "overview.serve_mode"@ {
        Some("  <app> {0} [--addr :8080]    HTTP mode (REST routes + /openapi.json + optional /mcp)"@)
    } else if key == "overview.mcp_mode"@ {
        Some("  <app> {0} stdio|http        MCP mode (official SDK; --versions pins revisions)"@)
    } else if key == "overview.builtins"@ {
        Some("Built-in parameters (xyz.Config in code or on the command line): --xyz.addr=:8080 (default listen address) --xyz.bearer=tok1,tok2 (Bearer credentials for serve and MCP http)"@)
    } else if key == "overview.commands"@ {
        Some("Commands:"@)
    } else if key == "overview.disabled"@ {
        Some(" (disabled)"@)
    } else if key == "overview.not_compiled"@ {
        Some(" (not compiled into this binary)"@)
    } else if key == "help.usage"@ {
        Some("Usage:"@)
    } else if key == "help.aliases"@ {
        Some("Aliases:"@)
    } else if key == "help.commands"@ {
        Some("Commands:"@)
    } else if key == "help.flags"@ {
        Some("Flags:"@)
    } else if key == "help.global_flags"@ {
        Some("Global Flags:"@)
    } else if key == "help.commands_placeholder"@ {
        Some("[command]"@)
    } else if key == "help.flags_placeholder"@ {
        Some("[flags]"@)
    } else if key == "help.json_flag"@ {
        Some("output JSON instead of the human-readable form"@)
    } else if key == "help.version_flag"@ {
        Some("print version information"@)
    } else if key == "help.help_flag"@ {
        Some("print help"@)
    } else if key == "cli.err_positional_count"@ {
        Some("{0}: positional argument count mismatch (want {1} to {2}, got {3})"@)
    } else if key == "warn.mode_disabled"@ {
        Some("{0} mode was disabled (Config.Capabilities.No{1})"@)
    } else if key == "warn.no_cli"@ {
        Some("subcommands unavailable: CLI is disabled (Config.Capabilities.NoCLI; {0}/{1}/help/-v remain available)"@)
    } else if key == "warn.bearer_stdio"@ {
        Some("Bearer credential checks only apply to the http transport; stdio is a local process and is not protected"@)
    } else if key == "stub.not_compiled"@ {
        Some("this binary was built without the {0} frontend"@)
    } else if key == "log.serve_listening"@ {
        Some("listening on {0}://{1} (REST + /openapi.json{2})"@)
    } else if key == "log.graceful"@ {
        Some("gracefully shut down (ctx cancelled)"@)
    } else if key == "log.mcp_listening"@ {
        Some("MCP listening on {0}"@)
    } else if key == "log.cors_on"@ {
        Some("CORS enabled: {0}"@)
    } else if key == "log.debug_dispatch"@ {
        Some("dispatch: mode word='{0}' addr={1} tokens={2} timeout={3:?} cors={4}"@)
    } else if key == "mcp.usage"@ {
        Some("usage: mcp stdio|http [--addr :8080] [--versions 2025-06-18,2026-07-28] [--name N] [--server-version V]"@)
    } else if key == "mcp.err_missing_transport"@ {
        Some("missing transport"@)
    } else if key == "mcp.err_unknown_transport"@ {
        Some("unknown transport {0} (want stdio|http)"@)
    } else if key == "mcp.err_sse_removed"@ {
        Some("this SDK removed the legacy HTTP+SSE transport with the 2026-07-28 revision (available: stdio|http)"@)
    } else if key == "mcp.err_unknown_version"@ {
        Some("unknown protocol version {0} (known: {1})"@)
    } else if key == "mcp.err_empty_version"@ {
        Some("empty protocol version in --versions"@)
    } else if key == "mcp.err_transport_versions"@ {
        Some("transport {0} cannot serve any of the requested versions {1}"@)
    } else if key == "mcp.err_usage_extra_arg"@ {
        Some("unexpected argument {0}"@)
    } else {
        None
    }
}

/// The built-in Chinese catalog.
pub open spec fn zh_text(key: Seq<char>) -> Option<Seq<char>> {
    if key == "overview.usage_line"@ {
        Some("用法（模式由程序自动判断，定义只有一份）:"@)
    } else if key == "overview.cli_mode"@ {
        Some("  <app> [命令] [参数]           CLI 模式（子命令 + flag/位置参数；-h 帮助，-v 版本）"@)
    } else if key == "overview.serve_mode"@ {
        Some("  <app> {0} [--addr :8080]      HTTP 模式（REST 路由 + /openapi.json + 可挂 /mcp）"@)
    } else if key == "overview.mcp_mode"@ {
        Some("  <app> {0} stdio|http          MCP 模式（官方 SDK；--versions 限定协议版本）"@)
    } else if key == "overview.builtins"@ {
        Some("内置参数（代码中的 xyz_rust::Config 或命令行）：--xyz.addr=:8080（默认监听地址） --xyz.bearer=tok1,tok2（serve 与 MCP http 的 Bearer 凭据）"@)
    } else if key == "overview.commands"@ {
        Some("命令:"@)
    } else if key == "overview.disabled"@ {
        Some("（已禁用）"@)
    } else if key == "overview.not_compiled"@ {
        Some("（本二进制未编译）"@)
    } else if key == "help.usage"@ {
        Some("Usage:"@)
    } else if key == "help.aliases"@ {
        Some("Aliases:"@)
    } else if key == "help.commands"@ {
        Some("命令:"@)
    } else if key == "help.flags"@ {
        Some("Flags:"@)
    } else if key == "help.global_flags"@ {
        Some("Global Flags:"@)
    } else if key == "help.commands_placeholder"@ {
        Some("[命令]"@)
    } else if key == "help.flags_placeholder"@ {
        Some("[flags]"@)
    } else if key == "help.json_flag"@ {
        Some("输出 JSON 而不是人类可读格式"@)
    } else if key == "help.version_flag"@ {
        Some("输出版本信息"@)
    } else if key == "help.help_flag"@ {
        Some("打印帮助"@)
    } else if key == "cli.err_positional_count"@ {
        Some("{0}: 位置参数数量不符（需要 {1} 到 {2} 个，收到 {3} 个）"@)
    } else if key == "warn.mode_disabled"@ {
        Some("{0} 模式已被禁用（Config.Capabilities.No{1}）"@)
    } else if key == "warn.no_cli"@ {
        Some("子命令不可用：CLI 已禁用（Config.Capabilities.NoCLI；{0}/{1}/help/-v 仍可用）"@)
    } else if key == "warn.bearer_stdio"@ {
        Some("Bearer 凭据校验只作用于 http 传输，stdio 为本地进程不受保护"@)
    } else if key == "stub.not_compiled"@ {
        Some("本二进制未编译 {0} 前端"@)
    } else if key == "log.serve_listening"@ {
        Some("监听 {0}://{1}（REST + /openapi.json{2}）"@)
    } else if key == "log.graceful"@ {
        Some("已优雅关停（ctx 取消）"@)
    } else if key == "log.mcp_listening"@ {
        Some("MCP 监听 {0}"@)
    } else if key == "log.cors_on"@ {
        Some("CORS 开启：{0}"@)
    } else if key == "log.debug_dispatch"@ {
        Some("dispatch: mode word={0} addr={1} tokens={2} timeout={3} cors={4}"@)
    } else if key == "mcp.usage"@ {
        Some("用法: mcp stdio|http [--addr :8080] [--versions 2025-06-18,2026-07-28]"@)
    } else if key == "mcp.err_missing_transport"@ {
        Some("missing transport"@)
    } else if key == "mcp.err_unknown_transport"@ {
        Some("unknown transport {0} (want stdio|http)"@)
    } else if key == "mcp.err_sse_removed"@ {
        Some("本 SDK（官方 Rust SDK rmcp）已随 2026-07-28 修订移除 HTTP+SSE 传输（可用 stdio|http）"@)
    } else if key == "mcp.err_unknown_version"@ {
        Some("unknown protocol version {0} (known: {1})"@)
    } else if key == "mcp.err_empty_version"@ {
        Some("empty protocol version in --versions"@)
    } else if key == "mcp.err_transport_versions"@ {
        Some("transport {0} cannot serve any of the requested versions {1}"@)
    } else if key == "mcp.err_usage_extra_arg"@ {
        Some("unexpected argument {0}"@)
    } else {
        None
    }
}

fn en_lookup(key: &str) -> (r: Option<&'static str>)
    ensures
        match r {
            Some(v) => en_text(key@) == Some(v@),
            None => en_text(key@) is None,
        },
{
    if text::str_eq(key, "overview.usage_line") {
        Some("Usage (the mode is detected automatically; definitions live in one place):")
    } else if text::str_eq(key, "overview.cli_mode") {
        Some("  <app> [command] [args]         CLI mode (subcommands + flags/positionals; -h help, -v version)")
    } else if text::str_eq(key, "overview.serve_mode") {
        Some("  <app> {0} [--addr :8080]    HTTP mode (REST routes + /openapi.json + optional /mcp)")
    } else if text::str_eq(key, "overview.mcp_mode") {
        Some("  <app> {0} stdio|http        MCP mode (official SDK; --versions pins revisions)")
    } else if text::str_eq(key, "overview.builtins") {
        Some("Built-in parameters (xyz.Config in code or on the command line): --xyz.addr=:8080 (default listen address) --xyz.bearer=tok1,tok2 (Bearer credentials for serve and MCP http)")
    } else if text::str_eq(key, "overview.commands") {
        Some("Commands:")
    } else if text::str_eq(key, "overview.disabled") {
        Some(" (disabled)")
    } else if text::str_eq(key, "overview.not_compiled") {
        Some(" (not compiled into this binary)")
    } else if text::str_eq(key, "help.usage") {
        Some("Usage:")
    } else if text::str_eq(key, "help.aliases") {
        Some("Aliases:")
    } else if text::str_eq(key, "help.commands") {
        Some("Commands:")
    } else if text::str_eq(key, "help.flags") {
        Some("Flags:")
    } else if text::str_eq(key, "help.global_flags") {
        Some("Global Flags:")
    } else if text::str_eq(key, "help.commands_placeholder") {
        Some("[command]")
    } else if text::str_eq(key, "help.flags_placeholder") {
        Some("[flags]")
    } else if text::str_eq(key, "help.json_flag") {
        Some("output JSON instead of the human-readable form")
    } else if text::str_eq(key, "help.version_flag") {
        Some("print version information")
    } else if text::str_eq(key, "help.help_flag") {
        Some("print help")
    } else if text::str_eq(key, "cli.err_positional_count") {
        Some("{0}: positional argument count mismatch (want {1} to {2}, got {3})")
    } else if text::str_eq(key, "warn.mode_disabled") {
        Some("{0} mode was disabled (Config.Capabilities.No{1})")
    } else if text::str_eq(key, "warn.no_cli") {
        Some("subcommands unavailable: CLI is disabled (Config.Capabilities.NoCLI; {0}/{1}/help/-v remain available)")
    } else if text::str_eq(key, "warn.bearer_stdio") {
        Some("Bearer credential checks only apply to the http transport; stdio is a local process and is not protected")
    } else if text::str_eq(key, "stub.not_compiled") {
        Some("this binary was built without the {0} frontend")
    } else if text::str_eq(key, "log.serve_listening") {
        Some("listening on {0}://{1} (REST + /openapi.json{2})")
    } else if text::str_eq(key, "log.graceful") {
        Some("gracefully shut down (ctx cancelled)")
    } else if text::str_eq(key, "log.mcp_listening") {
        Some("MCP listening on {0}")
    } else if text::str_eq(key, "log.cors_on") {
        Some("CORS enabled: {0}")
    } else if text::str_eq(key, "log.debug_dispatch") {
        Some("dispatch: mode word='{0}' addr={1} tokens={2} timeout={3:?} cors={4}")
    } else if text::str_eq(key, "mcp.usage") {
        Some("usage: mcp stdio|http [--addr :8080] [--versions 2025-06-18,2026-07-28] [--name N] [--server-version V]")
    } else if text::str_eq(key, "mcp.err_missing_transport") {
        Some("missing transport")
    } else if text::str_eq(key, "mcp.err_unknown_transport") {
        Some("unknown transport {0} (want stdio|http)")
    } else if text::str_eq(key, "mcp.err_sse_removed") {
        Some("this SDK removed the legacy HTTP+SSE transport with the 2026-07-28 revision (available: stdio|http)")
    } else if text::str_eq(key, "mcp.err_unknown_version") {
        Some("unknown protocol version {0} (known: {1})")
    } else if text::str_eq(key, "mcp.err_empty_version") {
        Some("empty protocol version in --versions")
    } else if text::str_eq(key, "mcp.err_transport_versions") {
        Some("transport {0} cannot serve any of the requested versions {1}")
    } else if text::str_eq(key, "mcp.err_usage_extra_arg") {
        Some("unexpected argument {0}")
    } else {
        None
    }
}

fn zh_lookup(key: &str) -> (r: Option<&'static str>)
    ensures
        match r {
            Some(v) => zh_text(key@) == Some(v@),
            None => zh_text(key@) is None,
        },
{
    if text::str_eq(key, "overview.usage_line") {
        Some("用法（模式由程序自动判断，定义只有一份）:")
    } else if text::str_eq(key, "overview.cli_mode") {
        Some("  <app> [命令] [参数]           CLI 模式（子命令 + flag/位置参数；-h 帮助，-v 版本）")
    } else if text::str_eq(key, "overview.serve_mode") {
        Some("  <app> {0} [--addr :8080]      HTTP 模式（REST 路由 + /openapi.json + 可挂 /mcp）")
    } else if text::str_eq(key, "overview.mcp_mode") {
        Some("  <app> {0} stdio|http          MCP 模式（官方 SDK；--versions 限定协议版本）")
    } else if text::str_eq(key, "overview.builtins") {
        Some("内置参数（代码中的 xyz_rust::Config 或命令行）：--xyz.addr=:8080（默认监听地址） --xyz.bearer=tok1,tok2（serve 与 MCP http 的 Bearer 凭据）")
    } else if text::str_eq(key, "overview.commands") {
        Some("命令:")
    } else if text::str_eq(key, "overview.disabled") {
        Some("（已禁用）")
    } else if text::str_eq(key, "overview.not_compiled") {
        Some("（本二进制未编译）")
    } else if text::str_eq(key, "help.usage") {
        Some("Usage:")
    } else if text::str_eq(key, "help.aliases") {
        Some("Aliases:")
    } else if text::str_eq(key, "help.commands") {
        Some("命令:")
    } else if text::str_eq(key, "help.flags") {
        Some("Flags:")
    } else if text::str_eq(key, "help.global_flags") {
        Some("Global Flags:")
    } else if text::str_eq(key, "help.commands_placeholder") {
        Some("[命令]")
    } else if text::str_eq(key, "help.flags_placeholder") {
        Some("[flags]")
    } else if text::str_eq(key, "help.json_flag") {
        Some("输出 JSON 而不是人类可读格式")
    } else if text::str_eq(key, "help.version_flag") {
        Some("输出版本信息")
    } else if text::str_eq(key, "help.help_flag") {
        Some("打印帮助")
    } else if text::str_eq(key, "cli.err_positional_count") {
        Some("{0}: 位置参数数量不符（需要 {1} 到 {2} 个，收到 {3} 个）")
    } else if text::str_eq(key, "warn.mode_disabled") {
        Some("{0} 模式已被禁用（Config.Capabilities.No{1}）")
    } else if text::str_eq(key, "warn.no_cli") {
        Some("子命令不可用：CLI 已禁用（Config.Capabilities.NoCLI；{0}/{1}/help/-v 仍可用）")
    } else if text::str_eq(key, "warn.bearer_stdio") {
        Some("Bearer 凭据校验只作用于 http 传输，stdio 为本地进程不受保护")
    } else if text::str_eq(key, "stub.not_compiled") {
        Some("本二进制未编译 {0} 前端")
    } else if text::str_eq(key, "log.serve_listening") {
        Some("监听 {0}://{1}（REST + /openapi.json{2}）")
    } else if text::str_eq(key, "log.graceful") {
        Some("已优雅关停（ctx 取消）")
    } else if text::str_eq(key, "log.mcp_listening") {
        Some("MCP 监听 {0}")
    } else if text::str_eq(key, "log.cors_on") {
        Some("CORS 开启：{0}")
    } else if text::str_eq(key, "log.debug_dispatch") {
        Some("dispatch: mode word={0} addr={1} tokens={2} timeout={3} cors={4}")
    } else if text::str_eq(key, "mcp.usage") {
        Some("用法: mcp stdio|http [--addr :8080] [--versions 2025-06-18,2026-07-28]")
    } else if text::str_eq(key, "mcp.err_missing_transport") {
        Some("missing transport")
    } else if text::str_eq(key, "mcp.err_unknown_transport") {
        Some("unknown transport {0} (want stdio|http)")
    } else if text::str_eq(key, "mcp.err_sse_removed") {
        Some("本 SDK（官方 Rust SDK rmcp）已随 2026-07-28 修订移除 HTTP+SSE 传输（可用 stdio|http）")
    } else if text::str_eq(key, "mcp.err_unknown_version") {
        Some("unknown protocol version {0} (known: {1})")
    } else if text::str_eq(key, "mcp.err_empty_version") {
        Some("empty protocol version in --versions")
    } else if text::str_eq(key, "mcp.err_transport_versions") {
        Some("transport {0} cannot serve any of the requested versions {1}")
    } else if text::str_eq(key, "mcp.err_usage_extra_arg") {
        Some("unexpected argument {0}")
    } else {
        None
    }
}

/// The built-in text of `key` in `lang`.
pub open spec fn catalog(lang: XyzLang, key: Seq<char>) -> Option<Seq<char>> {
    match lang {
        XyzLang::En => en_text(key),
        XyzLang::ZhCn => zh_text(key),
    }
}

/// The override of `key`: the last pair with that key wins, as when a map
/// is built from the pairs in order.
pub open spec fn override_of(ov: Seq<(String, String)>, key: Seq<char>) -> Option<Seq<char>>
    decreases ov.len(),
{
    if ov.len() == 0 {
        None
    } else if ov.last().0@ == key {
        Some(ov.last().1@)
    } else {
        override_of(ov.drop_last(), key)
    }
}

/// The map that the override pairs build when inserted in order (a later
/// pair for a key replaces an earlier one).
pub open spec fn override_map(ov: Seq<(String, String)>) -> Map<Seq<char>, Seq<char>>
    decreases ov.len(),
{
    if ov.len() == 0 {
        Map::empty()
    } else {
        override_map(ov.drop_last()).insert(ov.last().0@, ov.last().1@)
    }
}

/// The override table is the map its pairs build: a key has at most one
/// text, the one the map holds for it.
pub proof fn lemma_overrides_are_a_map(ov: Seq<(String, String)>, key: Seq<char>)
    ensures
        override_of(ov, key) == (if override_map(ov).contains_key(key) {
            Some(override_map(ov)[key])
        } else {
            None::<Seq<char>>
        }),
    decreases ov.len(),
{
    if ov.len() > 0 {
        lemma_overrides_are_a_map(ov.drop_last(), key);
    }
}

/// The current language and optional override table.  The table's pairs
/// stand for the map they build in order (see [`override_map`]).
pub struct LangState {
    pub lang: XyzLang,
    pub overrides: Option<Vec<(String, String)>>,
}

/// The text of `key` in a state: override, then built-in, then the key.
pub open spec fn t_spec(state: LangState, key: Seq<char>) -> Seq<char> {
    let ov = match state.overrides {
        Some(v) => override_of(v@, key),
        None => None,
    };
    match ov {
        Some(x) => x,
        None => match catalog(state.lang, key) {
            Some(x) => x,
            None => key,
        },
    }
}

/// The template `s` with `{i}` replaced by `params[i]` for each `i` in
/// order.
pub open spec fn fill(s: Seq<char>, params: Seq<Seq<char>>) -> Seq<char>
    decreases params.len(),
{
    if params.len() == 0 {
        s
    } else {
        let pat = seq!['{'] + text::decimal((params.len() - 1) as nat) + seq!['}'];
        text::replace_all(fill(s, params.drop_last()), pat, params.last())
    }
}

impl LangState {
    /// English without overrides (the zero configuration).
    pub fn new() -> (s: LangState)
        ensures
            s.lang == XyzLang::En,
            s.overrides is None,
    {
        LangState { lang: XyzLang::En, overrides: None }
    }
}

/// Sets the language and the override table (`None` = no overrides).
pub fn set(state: &mut LangState, lang: XyzLang, overrides: Option<Vec<(String, String)>>)
    ensures
        final(state).lang == lang,
        final(state).overrides == overrides,
{
    state.lang = lang;
    state.overrides = overrides;
}

/// The current language.
pub fn lang(state: &LangState) -> (l: XyzLang)
    ensures
        l == state.lang,
{
    state.lang
}

fn lookup(lang: XyzLang, key: &str) -> (r: String)
    ensures
        r@ == (match catalog(lang, key@) {
            Some(x) => x,
            None => key@,
        }),
{
    let hit = match lang {
        XyzLang::ZhCn => zh_lookup(key),
        XyzLang::En => en_lookup(key),
    };
    match hit {
        Some(v) => text::owned(v),
        None => text::owned(key),
    }
}

fn find_override(ov: &Vec<(String, String)>, key: &str) -> (r: Option<String>)
    ensures
        match r {
            Some(x) => override_of(ov@, key@) == Some(x@),
            None => override_of(ov@, key@) is None,
        },
{
    let mut i = ov.len();
    assert(ov@.take(ov.len() as int) == ov@);
    while i > 0
        invariant
            i <= ov.len(),
            override_of(ov@, key@) == override_of(ov@.take(i as int), key@),
        decreases i,
    {
        let ghost pre = ov@.take(i as int);
        assert(pre.drop_last() == ov@.take(i - 1));
        assert(pre.last() == ov@[i - 1]);
        if text::str_eq(ov[i - 1].0.as_str(), key) {
            return Some(ov[i - 1].1.clone());
        }
        i -= 1;
    }
    None
}

/// The current text of `key`.
pub fn t(state: &LangState, key: &str) -> (r: String)
    ensures
        r@ == t_spec(*state, key@),
{
    proof {
        assert(state.overrides matches Some(v) ==> v@.take(v@.len() as int) == v@);
    }
    let overridden = match &state.overrides {
        Some(ov) => find_override(ov, key),
        None => None,
    };
    match overridden {
        Some(s) => s,
        None => lookup(state.lang, key),
    }
}

/// The current text of `key` with `{0}`, `{1}`, ... replaced by the
/// parameters in order.
pub fn tf(state: &LangState, key: &str, params: &[&str]) -> (r: String)
    ensures
        r@ == fill(t_spec(*state, key@), params@.map_values(|p: &str| p@)),
{
    let mut out = t(state, key);
    let ghost ps = params@.map_values(|p: &str| p@);
    let mut i: usize = 0;
    while i < params.len()
        invariant
            i <= params.len(),
            ps == params@.map_values(|p: &str| p@),
            out@ == fill(t_spec(*state, key@), ps.take(i as int)),
        decreases params.len() - i,
    {
        let digits = text::decimal_of(i as u64);
        let mut pat = text::owned("{");
        text::append(&mut pat, digits.as_str());
        text::append(&mut pat, "}");
        proof {
            reveal_strlit("{");
            reveal_strlit("}");
            assert(ps.take(i + 1).drop_last() == ps.take(i as int));
            assert(ps.take(i + 1).last() == params@[i as int]@);
            assert("{"@ == seq!['{']);
            assert("}"@ == seq!['}']);
            assert(pat@ == seq!['{'] + text::decimal(i as nat) + seq!['}']);
            assert(ps.take(i + 1).len() - 1 == i);
        }
        out = text::replace(out.as_str(), pat.as_str(), params[i]);
        i += 1;
    }
    assert(ps.take(params.len() as int) == ps);
    out
}

} // verus!
