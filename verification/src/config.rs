//! Project configuration.

use vstd::prelude::*;
use crate::text::{concat3, owned, parse_bool, parse_usize, spec_parse_bool, spec_parse_unsigned, str_eq};
use crate::types::DEFAULT_DATA_DIR;

verus! {

/// Directory of the configuration.
pub const CONFIG_DIR: &'static str = ".oc_diagdoc";

/// File name of the configuration.
pub const CONFIG_FILE: &'static str = "config.yaml";

/// Validation settings.
#[derive(Debug, Clone, Copy, PartialEq, Eq)]
pub struct ValidationConfig {
    pub check_yaml: bool,
    pub check_links: bool,
    pub check_orphans: bool,
    pub strict_schema: bool,
}

impl Default for ValidationConfig {
    fn default() -> (c: ValidationConfig)
        ensures
            c == (ValidationConfig { check_yaml: true, check_links: true, check_orphans: true, strict_schema: false }),
    {
        ValidationConfig { check_yaml: true, check_links: true, check_orphans: true, strict_schema: false }
    }
}

/// Coverage settings.
#[derive(Debug, Clone, Copy, PartialEq, Eq)]
pub struct CoverageConfig {
    pub min_words: usize,
    pub min_sections: usize,
    pub detect_placeholders: bool,
    pub detect_stubs: bool,
}

impl Default for CoverageConfig {
    fn default() -> (c: CoverageConfig)
        ensures
            c == (CoverageConfig { min_words: 300, min_sections: 3, detect_placeholders: true, detect_stubs: true }),
    {
        CoverageConfig { min_words: 300, min_sections: 3, detect_placeholders: true, detect_stubs: true }
    }
}

/// The default validation settings.
pub open spec fn default_validation() -> ValidationConfig {
    ValidationConfig { check_yaml: true, check_links: true, check_orphans: true, strict_schema: false }
}

/// The default coverage settings.
pub open spec fn default_coverage() -> CoverageConfig {
    CoverageConfig { min_words: 300, min_sections: 3, detect_placeholders: true, detect_stubs: true }
}

/// Whether validation settings are the default ones.
fn validation_is_default(v: &ValidationConfig) -> (r: bool)
    ensures
        r == (*v == default_validation()),
{
    v.check_yaml && v.check_links && v.check_orphans && !v.strict_schema
}

/// Whether coverage settings are the default ones.
fn coverage_is_default(c: &CoverageConfig) -> (r: bool)
    ensures
        r == (*c == default_coverage()),
{
    c.min_words == 300 && c.min_sections == 3 && c.detect_placeholders && c.detect_stubs
}

/// Global configuration of a project.
#[derive(Debug, Clone)]
pub struct OcConfig {
    pub data_dir: String,
    pub output_dir: String,
    pub cache_enabled: bool,
    pub cache_dir: String,
    pub verbose: bool,
    pub parallel: bool,
    pub threads: usize,
    pub validation: ValidationConfig,
    pub coverage: CoverageConfig,
}

/// The default configuration.
pub open spec fn is_default_config(c: OcConfig) -> bool {
    &&& c.data_dir@ == DEFAULT_DATA_DIR@
    &&& c.output_dir@ == "./output"@
    &&& c.cache_enabled
    &&& c.cache_dir@ == ".oc_diagdoc/cache"@
    &&& !c.verbose
    &&& c.parallel
    &&& c.threads == 0
    &&& c.validation == (ValidationConfig { check_yaml: true, check_links: true, check_orphans: true, strict_schema: false })
    &&& c.coverage == (CoverageConfig { min_words: 300, min_sections: 3, detect_placeholders: true, detect_stubs: true })
}

impl Default for OcConfig {
    fn default() -> (c: OcConfig)
        ensures
            is_default_config(c),
    {
        OcConfig {
            data_dir: owned(DEFAULT_DATA_DIR),
            output_dir: owned("./output"),
            cache_enabled: true,
            cache_dir: owned(".oc_diagdoc/cache"),
            verbose: false,
            parallel: true,
            threads: 0,
            validation: ValidationConfig::default(),
            coverage: CoverageConfig::default(),
        }
    }
}

/// Settings read from the environment, each `None` when the variable is unset.
pub struct EnvValues {
    pub data_dir: Option<String>,
    pub output_dir: Option<String>,
    pub cache_enabled: Option<String>,
    pub verbose: Option<String>,
    pub parallel: Option<String>,
    pub threads: Option<String>,
    pub min_words: Option<String>,
}

/// A boolean setting: the parsed value, or `default` when it does not parse.
pub open spec fn bool_or(s: Seq<char>, default: bool) -> bool {
    match spec_parse_bool(s) {
        Some(b) => b,
        None => default,
    }
}

/// A count setting: the parsed value, or `default` when it does not parse.
pub open spec fn usize_or(s: Seq<char>, default: usize) -> usize {
    match spec_parse_unsigned(s, usize::MAX as nat) {
        Some(v) => v as usize,
        None => default,
    }
}

impl OcConfig {
    /// A builder with no setting chosen.
    pub fn builder() -> (b: OcConfigBuilder)
        ensures
            b.is_blank(),
    {
        OcConfigBuilder::new()
    }

    /// The default configuration overridden by the environment settings:
    /// directories are taken as given, flags and counts when they parse
    /// (otherwise `cache_enabled`/`parallel` become true, `verbose` false,
    /// `threads` 0 and `min_words` 300).
    pub fn from_env_values(env: &EnvValues) -> (c: OcConfig)
        ensures
            c.data_dir@ == (match env.data_dir { Some(v) => v@, None => DEFAULT_DATA_DIR@ }),
            c.output_dir@ == (match env.output_dir { Some(v) => v@, None => "./output"@ }),
            c.cache_enabled == (match env.cache_enabled { Some(v) => bool_or(v@, true), None => true }),
            c.verbose == (match env.verbose { Some(v) => bool_or(v@, false), None => false }),
            c.parallel == (match env.parallel { Some(v) => bool_or(v@, true), None => true }),
            c.threads == (match env.threads { Some(v) => usize_or(v@, 0), None => 0 }),
            c.coverage.min_words == (match env.min_words { Some(v) => usize_or(v@, 300), None => 300 }),
            c.cache_dir@ == ".oc_diagdoc/cache"@,
            c.validation == (ValidationConfig { check_yaml: true, check_links: true, check_orphans: true, strict_schema: false }),
            c.coverage.min_sections == 3 && c.coverage.detect_placeholders && c.coverage.detect_stubs,
    {
        let mut c = OcConfig::default();
        if let Some(v) = &env.data_dir {
            c.data_dir = v.clone();
        }
        if let Some(v) = &env.output_dir {
            c.output_dir = v.clone();
        }
        if let Some(v) = &env.cache_enabled {
            c.cache_enabled = match parse_bool(v.as_str()) { Some(b) => b, None => true };
        }
        if let Some(v) = &env.verbose {
            c.verbose = match parse_bool(v.as_str()) { Some(b) => b, None => false };
        }
        if let Some(v) = &env.parallel {
            c.parallel = match parse_bool(v.as_str()) { Some(b) => b, None => true };
        }
        if let Some(v) = &env.threads {
            c.threads = match parse_usize(v.as_str()) { Some(n) => n, None => 0 };
        }
        if let Some(v) = &env.min_words {
            c.coverage.min_words = match parse_usize(v.as_str()) { Some(n) => n, None => 300 };
        }
        c
    }

    /// Takes from `other` every setting that differs from the default: the
    /// other configuration has priority wherever it sets a value of its own.
    pub fn merge(&mut self, other: OcConfig)
        ensures
            final(self).data_dir@ == (if other.data_dir@ != DEFAULT_DATA_DIR@ { other.data_dir@ } else { old(self).data_dir@ }),
            final(self).output_dir@ == (if other.output_dir@ != "./output"@ { other.output_dir@ } else { old(self).output_dir@ }),
            final(self).verbose == (old(self).verbose || other.verbose),
            final(self).parallel == (old(self).parallel && other.parallel),
            final(self).threads == (if other.threads > 0 { other.threads } else { old(self).threads }),
            final(self).cache_enabled == (old(self).cache_enabled && other.cache_enabled),
            final(self).cache_dir@ == (if other.cache_dir@ != ".oc_diagdoc/cache"@ { other.cache_dir@ } else { old(self).cache_dir@ }),
            final(self).validation == (if other.validation != default_validation() { other.validation } else { old(self).validation }),
            final(self).coverage == (if other.coverage != default_coverage() { other.coverage } else { old(self).coverage }),
    {
        if !str_eq(other.data_dir.as_str(), DEFAULT_DATA_DIR) {
            self.data_dir = other.data_dir;
        }
        if !str_eq(other.output_dir.as_str(), "./output") {
            self.output_dir = other.output_dir;
        }
        if other.verbose {
            self.verbose = true;
        }
        if !other.parallel {
            self.parallel = false;
        }
        if other.threads > 0 {
            self.threads = other.threads;
        }
        if !other.cache_enabled {
            self.cache_enabled = false;
        }
        if !str_eq(other.cache_dir.as_str(), ".oc_diagdoc/cache") {
            self.cache_dir = other.cache_dir;
        }
        if !validation_is_default(&other.validation) {
            self.validation = other.validation;
        }
        if !coverage_is_default(&other.coverage) {
            self.coverage = other.coverage;
        }
    }

    /// Path of the configuration file: `.oc_diagdoc/config.yaml`.
    pub fn config_path() -> (p: String)
        ensures
            p@ == CONFIG_DIR@ + "/"@ + CONFIG_FILE@,
    {
        concat3(CONFIG_DIR, "/", CONFIG_FILE)
    }
}

/// Builder of an [`OcConfig`].
#[derive(Debug)]
pub struct OcConfigBuilder {
    pub data_dir: Option<String>,
    pub output_dir: Option<String>,
    pub cache_enabled: Option<bool>,
    pub cache_dir: Option<String>,
    pub verbose: Option<bool>,
    pub parallel: Option<bool>,
    pub threads: Option<usize>,
}

impl OcConfigBuilder {
    /// No setting is chosen.
    pub open spec fn is_blank(&self) -> bool {
        self.data_dir is None && self.output_dir is None && self.cache_enabled is None
            && self.cache_dir is None && self.verbose is None && self.parallel is None
            && self.threads is None
    }

    pub fn new() -> (b: OcConfigBuilder)
        ensures
            b.is_blank(),
    {
        OcConfigBuilder {
            data_dir: None,
            output_dir: None,
            cache_enabled: None,
            cache_dir: None,
            verbose: None,
            parallel: None,
            threads: None,
        }
    }

    pub fn data_dir(self, dir: &str) -> (b: OcConfigBuilder)
        ensures
            b.data_dir matches Some(d) && d@ == dir@,
            b == (OcConfigBuilder { data_dir: b.data_dir, ..self }),
    {
        OcConfigBuilder { data_dir: Some(owned(dir)), ..self }
    }

    pub fn output_dir(self, dir: &str) -> (b: OcConfigBuilder)
        ensures
            b.output_dir matches Some(d) && d@ == dir@,
            b == (OcConfigBuilder { output_dir: b.output_dir, ..self }),
    {
        OcConfigBuilder { output_dir: Some(owned(dir)), ..self }
    }

    pub fn cache_enabled(self, enabled: bool) -> (b: OcConfigBuilder)
        ensures
            b == (OcConfigBuilder { cache_enabled: Some(enabled), ..self }),
    {
        OcConfigBuilder { cache_enabled: Some(enabled), ..self }
    }

    pub fn cache_dir(self, dir: &str) -> (b: OcConfigBuilder)
        ensures
            b.cache_dir matches Some(d) && d@ == dir@,
            b == (OcConfigBuilder { cache_dir: b.cache_dir, ..self }),
    {
        OcConfigBuilder { cache_dir: Some(owned(dir)), ..self }
    }

    pub fn verbose(self, v: bool) -> (b: OcConfigBuilder)
        ensures
            b == (OcConfigBuilder { verbose: Some(v), ..self }),
    {
        OcConfigBuilder { verbose: Some(v), ..self }
    }

    pub fn parallel(self, p: bool) -> (b: OcConfigBuilder)
        ensures
            b == (OcConfigBuilder { parallel: Some(p), ..self }),
    {
        OcConfigBuilder { parallel: Some(p), ..self }
    }

    pub fn threads(self, t: usize) -> (b: OcConfigBuilder)
        ensures
            b == (OcConfigBuilder { threads: Some(t), ..self }),
    {
        OcConfigBuilder { threads: Some(t), ..self }
    }

    /// The configuration: chosen settings, defaults elsewhere.
    pub fn build(self) -> (c: OcConfig)
        ensures
            c.data_dir@ == (match self.data_dir { Some(d) => d@, None => DEFAULT_DATA_DIR@ }),
            c.output_dir@ == (match self.output_dir { Some(d) => d@, None => "./output"@ }),
            c.cache_enabled == (match self.cache_enabled { Some(x) => x, None => true }),
            c.cache_dir@ == (match self.cache_dir { Some(d) => d@, None => ".oc_diagdoc/cache"@ }),
            c.verbose == (match self.verbose { Some(x) => x, None => false }),
            c.parallel == (match self.parallel { Some(x) => x, None => true }),
            c.threads == (match self.threads { Some(x) => x, None => 0 }),
            c.validation == (ValidationConfig { check_yaml: true, check_links: true, check_orphans: true, strict_schema: false }),
            c.coverage == (CoverageConfig { min_words: 300, min_sections: 3, detect_placeholders: true, detect_stubs: true }),
    {
        let d = OcConfig::default();
        OcConfig {
            data_dir: match self.data_dir { Some(x) => x, None => d.data_dir },
            output_dir: match self.output_dir { Some(x) => x, None => d.output_dir },
            cache_enabled: match self.cache_enabled { Some(x) => x, None => d.cache_enabled },
            cache_dir: match self.cache_dir { Some(x) => x, None => d.cache_dir },
            verbose: match self.verbose { Some(x) => x, None => d.verbose },
            parallel: match self.parallel { Some(x) => x, None => d.parallel },
            threads: match self.threads { Some(x) => x, None => d.threads },
            validation: d.validation,
            coverage: d.coverage,
        }
    }
}

} // verus!
