//! Daemon configuration: its sections, their defaults, `~` expansion and
//! the checks run on a loaded configuration. Reading the file and the
//! environment happens at the edge; the values read are passed in.

use vstd::prelude::*;
use crate::logging::{level_of_text, parse_level_error_text, parse_log_level, LogLevel};
use crate::text::{chars_of, concat, owned, push_str, slice_chars, string_from_chars};

verus! {

/// A configured filesystem path, `~` already expanded.
#[derive(Debug, Clone, PartialEq, Eq)]
pub struct ConfigPath(pub String);

/// `base` joined with `rest` as `PathBuf::join` does on Unix: an absolute
/// `rest` replaces `base`; otherwise one separator goes between them unless
/// `base` is empty or already ends with one.
pub open spec fn join_path(base: Seq<char>, rest: Seq<char>) -> Seq<char> {
    if rest.len() > 0 && rest[0] == '/' {
        rest
    } else if base.len() == 0 {
        rest
    } else if base.last() == '/' {
        base + rest
    } else {
        base + seq!['/'] + rest
    }
}

/// `~` and a leading `~/` replaced by the home directory, when one is known.
pub open spec fn expand_tilde_spec(p: Seq<char>, home: Option<Seq<char>>) -> Seq<char> {
    match home {
        Some(h) => if p.len() >= 2 && p[0] == '~' && p[1] == '/' {
            join_path(h, p.skip(2))
        } else if p == seq!['~'] {
            h
        } else {
            p
        },
        None => p,
    }
}

/// Joins a path and a relative rest.
pub fn join_path_exec(base: &str, rest: &str) -> (r: String)
    ensures
        r@ == join_path(base@, rest@),
{
    let b = chars_of(base);
    let t = chars_of(rest);
    if t.len() > 0 && t[0] == '/' {
        return owned(rest);
    }
    if b.len() == 0 {
        return owned(rest);
    }
    if b[b.len() - 1] == '/' {
        return concat(base, rest);
    }
    let mut s = concat(base, "/");
    push_str(&mut s, rest);
    proof {
        reveal_strlit("/");
        assert(b@.last() == base@.last());
    }
    s
}

/// Expands a leading `~` against `home`.
pub fn expand_tilde(p: &str, home: Option<&str>) -> (r: String)
    ensures
        r@ == expand_tilde_spec(
            p@,
            match home {
                Some(h) => Some(h@),
                None => None,
            },
        ),
{
    let v = chars_of(p);
    match home {
        Some(h) => {
            if v.len() >= 2 && v[0] == '~' && v[1] == '/' {
                let rest = string_from_chars(&slice_chars(&v, 2, v.len()));
                assert(rest@ =~= p@.skip(2));
                join_path_exec(h, rest.as_str())
            } else if v.len() == 1 && v[0] == '~' {
                assert(p@ =~= seq!['~']);
                owned(h)
            } else {
                proof {
                    if p@ == seq!['~'] {
                        assert(v@.len() == 1);
                    }
                }
                owned(p)
            }
        },
        None => owned(p),
    }
}

#[derive(Debug, Clone, PartialEq, Eq)]
pub struct HttpConfig {
    pub bind: String,
}

impl HttpConfig {
    pub fn default() -> (c: HttpConfig)
        ensures
            c.bind@ == "127.0.0.1:7777"@,
    {
        HttpConfig { bind: owned("127.0.0.1:7777") }
    }
}

#[derive(Debug, Clone, PartialEq, Eq)]
pub struct McpConfig {
    pub transport: String,
    pub socket: ConfigPath,
}

impl McpConfig {
    /// The defaults: stdio transport, socket under the per-user data dir.
    pub fn default_with_home(home: Option<&str>) -> (c: McpConfig)
        ensures
            c.transport@ == "stdio"@,
            c.socket.0@ == expand_tilde_spec(
                "~/.local/share/hypomnema/mcp.sock"@,
                match home {
                    Some(h) => Some(h@),
                    None => None,
                },
            ),
    {
        McpConfig {
            transport: owned("stdio"),
            socket: ConfigPath(expand_tilde("~/.local/share/hypomnema/mcp.sock", home)),
        }
    }
}

#[derive(Debug, Clone, PartialEq, Eq)]
pub struct EmbeddingConfig {
    pub endpoint: String,
    pub model: String,
    pub dimension: u32,
    pub api_key: String,
    pub extension_path: ConfigPath,
    pub timeout_ms: u64,
    pub max_retries: u8,
    pub batch_size: u8,
}

impl EmbeddingConfig {
    /// The defaults. `extension_suffix` is the platform's shared-library
    /// suffix (`so`, `dylib` or `dll`).
    pub fn default_with(home: Option<&str>, extension_suffix: &str) -> (c: EmbeddingConfig)
        ensures
            c.endpoint@ == "http://127.0.0.1:8080/v1/embeddings"@,
            c.model@ == "nomic-embed-text-v1.5"@,
            c.dimension == 768,
            c.api_key@.len() == 0,
            c.extension_path.0@ == expand_tilde_spec(
                "~/.local/share/hypomnema/sqlite-vec."@ + extension_suffix@,
                match home {
                    Some(h) => Some(h@),
                    None => None,
                },
            ),
            c.timeout_ms == 30000,
            c.max_retries == 1,
            c.batch_size == 1,
    {
        let path = concat("~/.local/share/hypomnema/sqlite-vec.", extension_suffix);
        EmbeddingConfig {
            endpoint: owned("http://127.0.0.1:8080/v1/embeddings"),
            model: owned("nomic-embed-text-v1.5"),
            dimension: 768,
            api_key: String::new(),
            extension_path: ConfigPath(expand_tilde(path.as_str(), home)),
            timeout_ms: 30000,
            max_retries: 1,
            batch_size: 1,
        }
    }
}

/// The environment variable that overrides the sqlite-vec extension path.
pub const VEC_EXT_PATH_ENV: &'static str = "HYPOMNEMA_VEC_EXT_PATH";

impl EmbeddingConfig {
    /// The sqlite-vec extension path: the value of `VEC_EXT_PATH_ENV`,
    /// passed in as `env_override`, wins over the configured path.
    pub fn resolved_extension_path(&self, env_override: Option<String>) -> (p: String)
        ensures
            p@ == match env_override {
                Some(o) => o@,
                None => self.extension_path.0@,
            },
    {
        match env_override {
            Some(o) => o,
            None => self.extension_path.0.clone(),
        }
    }
}

#[derive(Debug, Clone, PartialEq, Eq)]
pub struct WatcherConfig {
    pub debounce_ms: u64,
    pub ignore_patterns: Vec<String>,
}

impl WatcherConfig {
    /// The defaults: 500 ms debounce, and the VCS, editor, trash,
    /// sync-conflict and temporary files ignored.
    pub fn default() -> (c: WatcherConfig)
        ensures
            c.debounce_ms == 500,
            c.ignore_patterns@.len() == 5,
            c.ignore_patterns@[0]@ == ".git/**"@,
            c.ignore_patterns@[1]@ == ".obsidian/**"@,
            c.ignore_patterns@[2]@ == ".trash/**"@,
            c.ignore_patterns@[3]@ == "*.sync-conflict-*"@,
            c.ignore_patterns@[4]@ == "**/*.tmp"@,
    {
        let mut v: Vec<String> = Vec::new();
        v.push(owned(".git/**"));
        v.push(owned(".obsidian/**"));
        v.push(owned(".trash/**"));
        v.push(owned("*.sync-conflict-*"));
        v.push(owned("**/*.tmp"));
        WatcherConfig { debounce_ms: 500, ignore_patterns: v }
    }
}

#[verifier::external_type_specification]
#[verifier::external_body]
pub struct ExGlob(globset::Glob);

#[verifier::external_type_specification]
#[verifier::external_body]
pub struct ExGlobSetBuilder(globset::GlobSetBuilder);

#[verifier::external_type_specification]
#[verifier::external_body]
pub struct ExGlobSet(globset::GlobSet);

/// Whether `p` parses as a glob pattern with globset's default options.
pub uninterp spec fn glob_parses(p: Seq<char>) -> bool;

/// The pattern text a parsed glob was made from.
pub uninterp spec fn glob_pattern(g: globset::Glob) -> Seq<char>;

/// The patterns added to a builder, in the order they were added.
pub uninterp spec fn glob_builder_patterns(b: globset::GlobSetBuilder) -> Seq<Seq<char>>;

/// Whether these patterns, in this order, compile into one matcher.
pub uninterp spec fn glob_set_builds(ps: Seq<Seq<char>>) -> bool;

/// The patterns a built matcher was compiled from, in order.
pub uninterp spec fn glob_set_patterns(s: globset::GlobSet) -> Seq<Seq<char>>;

/// `globset::Glob::new`, its error rendered through `Display`. Whether a
/// pattern parses is named, not described; a parsed glob keeps its pattern
/// text. The error text is not stated.
#[verifier::external_body]
fn glob_new(pattern: &str) -> (r: Result<globset::Glob, String>)
    ensures
        r is Ok <==> glob_parses(pattern@),
        r matches Ok(g) ==> glob_pattern(g) == pattern@,
{
    match globset::Glob::new(pattern) {
        Ok(g) => Ok(g),
        Err(e) => Err(e.to_string()),
    }
}

/// `globset::GlobSetBuilder::new`: a builder holding no patterns.
#[verifier::external_body]
fn glob_set_builder() -> (b: globset::GlobSetBuilder)
    ensures
        glob_builder_patterns(b) == Seq::<Seq<char>>::empty(),
{
    globset::GlobSetBuilder::new()
}

/// `globset::GlobSetBuilder::add`: appends a glob's pattern to the builder.
#[verifier::external_body]
fn glob_set_add(b: &mut globset::GlobSetBuilder, g: globset::Glob)
    ensures
        glob_builder_patterns(*final(b)) == glob_builder_patterns(*old(b)).push(glob_pattern(g)),
{
    b.add(g);
}

/// `globset::GlobSetBuilder::build`, its error rendered through `Display`.
/// Building compiles the builder's patterns; whether that succeeds is named
/// over the patterns, not described, and the error text is not stated. A
/// built matcher is compiled from exactly the builder's patterns.
#[verifier::external_body]
fn glob_set_build(b: &globset::GlobSetBuilder) -> (r: Result<globset::GlobSet, String>)
    ensures
        r is Ok <==> glob_set_builds(glob_builder_patterns(*b)),
        r matches Ok(s) ==> glob_set_patterns(s) == glob_builder_patterns(*b),
{
    match b.build() {
        Ok(s) => Ok(s),
        Err(e) => Err(e.to_string()),
    }
}

/// Why the ignore patterns did not compile.
#[derive(Debug, Clone, PartialEq, Eq)]
pub enum IgnorePatternError {
    /// This pattern is not a valid glob; `cause` is the parser's message.
    InvalidPattern { pattern: String, cause: String },
    /// The set of patterns did not compile.
    Compile(String),
}

impl IgnorePatternError {
    /// The error with its cause, as the error chain renders it.
    pub fn display_text(&self) -> (s: String)
        ensures
            s@ == match *self {
                IgnorePatternError::InvalidPattern { pattern, cause } =>
                    "invalid ignore pattern in watcher.ignore_patterns: "@ + crate::control_plane::debug_text_of(pattern@) + ": "@ + cause@,
                IgnorePatternError::Compile(cause) => "compiling watcher.ignore_patterns into GlobSet: "@ + cause@,
            },
    {
        match self {
            IgnorePatternError::InvalidPattern { pattern, cause } => {
                let mut s = concat(
                    "invalid ignore pattern in watcher.ignore_patterns: ",
                    crate::control_plane::debug_quoted(pattern.as_str()).as_str(),
                );
                push_str(&mut s, ": ");
                push_str(&mut s, cause.as_str());
                s
            },
            IgnorePatternError::Compile(cause) => concat(
                "compiling watcher.ignore_patterns into GlobSet: ",
                cause.as_str(),
            ),
        }
    }
}

impl WatcherConfig {
    /// The ignore patterns compiled into one matcher. The first pattern, in
    /// order, that is not a valid glob is reported; with every pattern
    /// valid, the set is built from all of them, in order.
    pub fn compiled_ignores(&self) -> (r: Result<globset::GlobSet, IgnorePatternError>)
        ensures
            (forall|i: int| 0 <= i < self.ignore_patterns@.len() ==> glob_parses(
                #[trigger] self.ignore_patterns@[i]@,
            )) ==> (r is Ok <==> glob_set_builds(self.ignore_patterns@.map_values(|p: String| p@))),
            r matches Ok(s) ==> glob_set_patterns(s) == self.ignore_patterns@.map_values(|p: String| p@),
            (forall|i: int| 0 <= i < self.ignore_patterns@.len() ==> glob_parses(
                #[trigger] self.ignore_patterns@[i]@,
            )) ==> !(r matches Err(IgnorePatternError::InvalidPattern { .. })),
            (exists|i: int| 0 <= i < self.ignore_patterns@.len() && !glob_parses(
                #[trigger] self.ignore_patterns@[i]@,
            )) ==> (r matches Err(IgnorePatternError::InvalidPattern { .. })),
            r matches Err(IgnorePatternError::InvalidPattern { pattern, .. }) ==> exists|i: int|
                0 <= i < self.ignore_patterns@.len() && #[trigger] self.ignore_patterns@[i] == pattern
                    && !glob_parses(pattern@) && forall|j: int|
                    0 <= j < i ==> glob_parses(#[trigger] self.ignore_patterns@[j]@),
    {
        let mut b = glob_set_builder();
        let mut i: usize = 0;
        while i < self.ignore_patterns.len()
            invariant
                i <= self.ignore_patterns@.len(),
                forall|j: int| 0 <= j < i ==> glob_parses(#[trigger] self.ignore_patterns@[j]@),
                glob_builder_patterns(b) == self.ignore_patterns@.map_values(|p: String| p@).take(i as int),
            decreases self.ignore_patterns@.len() - i,
        {
            let p = &self.ignore_patterns[i];
            match glob_new(p.as_str()) {
                Ok(g) => glob_set_add(&mut b, g),
                Err(cause) => {
                    return Err(IgnorePatternError::InvalidPattern { pattern: p.clone(), cause });
                },
            }
            i += 1;
        }
        proof {
            let pats = self.ignore_patterns@.map_values(|p: String| p@);
            assert(pats.take(i as int) =~= pats);
        }
        match glob_set_build(&b) {
            Ok(s) => Ok(s),
            Err(cause) => Err(IgnorePatternError::Compile(cause)),
        }
    }
}

#[derive(Debug, Clone, PartialEq, Eq)]
pub struct StorageConfig {
    pub data_dir: ConfigPath,
    pub index_file: String,
    pub outbox_file: String,
}

impl StorageConfig {
    pub fn default_with_home(home: Option<&str>) -> (c: StorageConfig)
        ensures
            c.data_dir.0@ == expand_tilde_spec(
                "~/.local/share/hypomnema"@,
                match home {
                    Some(h) => Some(h@),
                    None => None,
                },
            ),
            c.index_file@ == "index.sqlite"@,
            c.outbox_file@ == "outbox.jsonl"@,
    {
        StorageConfig {
            data_dir: ConfigPath(expand_tilde("~/.local/share/hypomnema", home)),
            index_file: owned("index.sqlite"),
            outbox_file: owned("outbox.jsonl"),
        }
    }
}

#[derive(Debug, Clone, PartialEq, Eq)]
pub struct LoggingConfig {
    pub level: String,
    pub notify_level: String,
    pub tokio_level: String,
}

impl LoggingConfig {
    /// The defaults: info for the daemon, warn for the watcher, error for
    /// the runtime.
    pub fn default() -> (c: LoggingConfig)
        ensures
            c.level@ == "info"@,
            c.notify_level@ == "warn"@,
            c.tokio_level@ == "error"@,
    {
        LoggingConfig {
            level: owned("info"),
            notify_level: owned("warn"),
            tokio_level: owned("error"),
        }
    }
}

/// Defaults of semantic search.
#[derive(Debug, Clone, PartialEq, Eq)]
pub struct SemanticSearchConfig {
    pub default_granularity: String,
    pub default_chunks_per_document: u32,
}

impl SemanticSearchConfig {
    /// Document granularity with three evidence chunks per document.
    pub fn default() -> (c: SemanticSearchConfig)
        ensures
            c.default_granularity@ == "document"@,
            c.default_chunks_per_document == 3,
    {
        SemanticSearchConfig { default_granularity: owned("document"), default_chunks_per_document: 3 }
    }
}

#[derive(Debug, Clone, PartialEq, Eq)]
pub struct Config {
    pub vault: ConfigPath,
    pub http: HttpConfig,
    pub mcp: McpConfig,
    pub embedding: EmbeddingConfig,
    pub watcher: WatcherConfig,
    pub storage: StorageConfig,
    pub logging: LoggingConfig,
}

impl Config {
    /// A configuration for `vault` with every section at its defaults.
    pub fn default_for_smoke_test(vault: String, home: Option<&str>, extension_suffix: &str) -> (c:
        Config)
        ensures
            c.vault.0 == vault,
            c.logging.level@ == "info"@,
            c.logging.notify_level@ == "warn"@,
            c.logging.tokio_level@ == "error"@,
            c.http.bind@ == "127.0.0.1:7777"@,
            c.embedding.dimension == 768,
            c.embedding.model@ == "nomic-embed-text-v1.5"@,
            c.watcher.debounce_ms == 500,
            c.storage.index_file@ == "index.sqlite"@,
            c.mcp.transport@ == "stdio"@,
    {
        Config {
            vault: ConfigPath(vault),
            http: HttpConfig::default(),
            mcp: McpConfig::default_with_home(home),
            embedding: EmbeddingConfig::default_with(home, extension_suffix),
            watcher: WatcherConfig::default(),
            storage: StorageConfig::default_with_home(home),
            logging: LoggingConfig::default(),
        }
    }

    /// Checks that the three configured log levels parse, in order.
    pub fn validate_levels(&self) -> (r: Result<(), String>)
        ensures
            r is Ok <==> (level_of_text(self.logging.level@) is Some && level_of_text(
                self.logging.notify_level@,
            ) is Some && level_of_text(self.logging.tokio_level@) is Some),
            r matches Err(m) ==> m@ == (if level_of_text(self.logging.level@) is None {
                level_error_text("logging.level"@, self.logging.level@)
            } else if level_of_text(self.logging.notify_level@) is None {
                level_error_text("logging.notify_level"@, self.logging.notify_level@)
            } else {
                level_error_text("logging.tokio_level"@, self.logging.tokio_level@)
            }),
    {
        match parse_level(self.logging.level.as_str(), "logging.level") {
            Err(m) => { return Err(m); },
            Ok(_) => {},
        }
        match parse_level(self.logging.notify_level.as_str(), "logging.notify_level") {
            Err(m) => { return Err(m); },
            Ok(_) => {},
        }
        match parse_level(self.logging.tokio_level.as_str(), "logging.tokio_level") {
            Err(m) => { return Err(m); },
            Ok(_) => {},
        }
        Ok(())
    }
}

/// The message of a configured level that does not parse.
pub open spec fn level_error_text(field: Seq<char>, s: Seq<char>) -> Seq<char> {
    field + " = \""@ + s + "\" is not a valid tracing level: "@ + parse_level_error_text()
}

/// Parses a configured level, naming the field when it does not parse.
pub fn parse_level(s: &str, field: &str) -> (r: Result<LogLevel, String>)
    ensures
        match r {
            Ok(l) => level_of_text(s@) == Some(l),
            Err(m) => level_of_text(s@) is None && m@ == level_error_text(field@, s@),
        },
{
    match parse_log_level(s) {
        Ok(l) => Ok(l),
        Err(e) => {
            let mut m = concat(field, " = \"");
            push_str(&mut m, s);
            push_str(&mut m, "\" is not a valid tracing level: ");
            push_str(&mut m, e.as_str());
            Err(m)
        },
    }
}

} // verus!
