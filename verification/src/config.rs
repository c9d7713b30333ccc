//! The configuration value: backend priorities, behaviour flags, shim and
//! telemetry settings, with dot-notation get and set over the fixed key set.
//! Reading and writing the configuration file happens at the program edge;
//! this module owns the keys, the defaults and the value parsing.

use vstd::prelude::*;
use vstd::string::StringExecFns;

use crate::strutil::{
    bool_seq, bool_string, parse_bool, join_with_commas, join_commas, split_and_trim,
    split_commas, trim_all, str_eq,
};

verus! {

/// Backend-related configuration.
#[derive(Debug)]
pub struct BackendConfig {
    /// Priority order for backends; the first has the highest priority.
    pub priority: Vec<String>,
    /// Backends the user disabled.
    pub disabled: Vec<String>,
}

/// Behaviour flags.
#[derive(Debug)]
pub struct BehaviorConfig {
    /// Show verbose output.
    pub verbose: bool,
    /// Automatically confirm prompts.
    pub auto_confirm: bool,
    /// Create shims for installed binaries.
    pub create_shims: bool,
}

/// Shim-related configuration.
#[derive(Debug)]
pub struct ShimConfig {
    /// Automatically refresh shims after an install.
    pub auto_refresh: bool,
}

/// Telemetry configuration.
#[derive(Debug)]
pub struct TelemetryConfig {
    /// Whether anonymized telemetry is enabled.
    pub enabled: bool,
    /// The permanent anonymous client identifier, once generated.
    pub client_id: Option<String>,
}

/// The whole configuration value.
#[derive(Debug)]
pub struct Config {
    /// Backend preferences.
    pub backends: BackendConfig,
    /// Behaviour settings.
    pub behavior: BehaviorConfig,
    /// Shim settings.
    pub shims: ShimConfig,
    /// Telemetry settings.
    pub telemetry: TelemetryConfig,
}

/// The value taken for `telemetry.enabled` when the stored configuration
/// does not mention it.
pub fn default_telemetry_enabled() -> (b: bool)
    ensures
        b,
{
    true
}

impl Default for BehaviorConfig {
    /// Quiet, auto-confirming, shim-creating.
    fn default() -> (c: BehaviorConfig)
        ensures
            !c.verbose,
            c.auto_confirm,
            c.create_shims,
    {
        BehaviorConfig { verbose: false, auto_confirm: true, create_shims: true }
    }
}

impl Default for ShimConfig {
    /// Shims are refreshed automatically.
    fn default() -> (c: ShimConfig)
        ensures
            c.auto_refresh,
    {
        ShimConfig { auto_refresh: true }
    }
}

impl Default for TelemetryConfig {
    /// No telemetry state yet.
    fn default() -> (c: TelemetryConfig)
        ensures
            !c.enabled,
            c.client_id is None,
    {
        TelemetryConfig { enabled: false, client_id: None }
    }
}

/// The default backend priority order.
pub open spec fn default_priority() -> Seq<Seq<char>> {
    seq!["apt"@, "winget"@, "brew"@, "snap"@, "npm"@, "pip"@]
}

impl Default for BackendConfig {
    /// The fixed priority list, nothing disabled.
    fn default() -> (c: BackendConfig)
        ensures
            c.priority.deep_view() == default_priority(),
            c.disabled@.len() == 0,
    {
        let mut priority: Vec<String> = Vec::new();
        priority.push("apt".to_owned());
        priority.push("winget".to_owned());
        priority.push("brew".to_owned());
        priority.push("snap".to_owned());
        priority.push("npm".to_owned());
        priority.push("pip".to_owned());
        proof {
            assert(priority.deep_view() =~~= default_priority());
        }
        BackendConfig { priority, disabled: Vec::new() }
    }
}

impl Default for Config {
    /// The defaults of every section.
    fn default() -> (c: Config)
        ensures
            c.backends.priority.deep_view() == default_priority(),
            c.backends.disabled@.len() == 0,
            !c.behavior.verbose,
            c.behavior.auto_confirm,
            c.behavior.create_shims,
            c.shims.auto_refresh,
            !c.telemetry.enabled,
            c.telemetry.client_id is None,
    {
        Config {
            backends: BackendConfig::default(),
            behavior: BehaviorConfig::default(),
            shims: ShimConfig::default(),
            telemetry: TelemetryConfig::default(),
        }
    }
}

/// What `get` answers for a key: the rendered value for each known key,
/// nothing for an unknown one.
pub open spec fn get_spec(c: Config, key: Seq<char>) -> Option<Seq<char>> {
    if key == "backends.priority"@ {
        Some(join_commas(c.backends.priority.deep_view()))
    } else if key == "backends.disabled"@ {
        Some(join_commas(c.backends.disabled.deep_view()))
    } else if key == "behavior.verbose"@ {
        Some(bool_seq(c.behavior.verbose))
    } else if key == "behavior.auto_confirm"@ {
        Some(bool_seq(c.behavior.auto_confirm))
    } else if key == "behavior.create_shims"@ {
        Some(bool_seq(c.behavior.create_shims))
    } else if key == "shims.auto_refresh"@ {
        Some(bool_seq(c.shims.auto_refresh))
    } else if key == "telemetry.enabled"@ {
        Some(bool_seq(c.telemetry.enabled))
    } else if key == "telemetry.client_id"@ {
        match c.telemetry.client_id {
            Some(v) => Some(v@),
            None => None,
        }
    } else {
        None
    }
}

/// Whether a key is one of the configuration keys.
pub open spec fn known_key(key: Seq<char>) -> bool {
    ||| key == "backends.priority"@
    ||| key == "backends.disabled"@
    ||| key == "behavior.verbose"@
    ||| key == "behavior.auto_confirm"@
    ||| key == "behavior.create_shims"@
    ||| key == "shims.auto_refresh"@
    ||| key == "telemetry.enabled"@
    ||| key == "telemetry.client_id"@
}

impl Config {
    /// Read a configuration value by its dot-notation key.
    pub fn get(&self, key: &str) -> (r: Option<String>)
        ensures
            r is Some <==> get_spec(*self, key@) is Some,
            r matches Some(v) ==> v@ == get_spec(*self, key@)->Some_0,
    {
        if str_eq(key, "backends.priority") {
            Some(join_with_commas(&self.backends.priority))
        } else if str_eq(key, "backends.disabled") {
            Some(join_with_commas(&self.backends.disabled))
        } else if str_eq(key, "behavior.verbose") {
            Some(bool_string(self.behavior.verbose))
        } else if str_eq(key, "behavior.auto_confirm") {
            Some(bool_string(self.behavior.auto_confirm))
        } else if str_eq(key, "behavior.create_shims") {
            Some(bool_string(self.behavior.create_shims))
        } else if str_eq(key, "shims.auto_refresh") {
            Some(bool_string(self.shims.auto_refresh))
        } else if str_eq(key, "telemetry.enabled") {
            Some(bool_string(self.telemetry.enabled))
        } else if str_eq(key, "telemetry.client_id") {
            match &self.telemetry.client_id {
                Some(v) => Some(v.clone()),
                None => None,
            }
        } else {
            None
        }
    }

    /// Write a configuration value by its dot-notation key. List keys take
    /// a comma-separated list whose pieces are trimmed; boolean keys take
    /// exactly `true` or `false` and reject anything else; an unknown key is
    /// an error naming the key; on any error the configuration is unchanged.
    pub fn set(&mut self, key: &str, value: &str) -> (r: Result<(), String>)
        ensures
            r is Ok <==> (known_key(key@) && (is_bool_key(key@) ==> value@ == "true"@ || value@
                == "false"@)),
            key@ == "backends.priority"@ ==> final(self).backends.priority.deep_view()
                == trim_all(split_commas(value@)) && final(self).backends.disabled == old(
                self,
            ).backends.disabled && unchanged_but_backends(*old(self), *final(self)),
            key@ == "backends.disabled"@ ==> final(self).backends.disabled.deep_view()
                == trim_all(split_commas(value@)) && final(self).backends.priority == old(
                self,
            ).backends.priority && unchanged_but_backends(*old(self), *final(self)),
            key@ == "behavior.verbose"@ && r is Ok ==> final(self).behavior.verbose == (value@
                == "true"@) && final(self).behavior.auto_confirm == old(
                self,
            ).behavior.auto_confirm && final(self).behavior.create_shims == old(
                self,
            ).behavior.create_shims && unchanged_but_behavior(*old(self), *final(self)),
            key@ == "behavior.auto_confirm"@ && r is Ok ==> final(self).behavior.auto_confirm == (
            value@ == "true"@) && final(self).behavior.verbose == old(self).behavior.verbose
                && final(self).behavior.create_shims == old(self).behavior.create_shims
                && unchanged_but_behavior(*old(self), *final(self)),
            key@ == "behavior.create_shims"@ && r is Ok ==> final(self).behavior.create_shims == (
            value@ == "true"@) && final(self).behavior.verbose == old(self).behavior.verbose
                && final(self).behavior.auto_confirm == old(self).behavior.auto_confirm
                && unchanged_but_behavior(*old(self), *final(self)),
            key@ == "shims.auto_refresh"@ && r is Ok ==> final(self).shims.auto_refresh == (value@
                == "true"@) && unchanged_but_shims(*old(self), *final(self)),
            key@ == "telemetry.enabled"@ && r is Ok ==> final(self).telemetry.enabled == (value@
                == "true"@) && final(self).telemetry.client_id == old(self).telemetry.client_id
                && unchanged_but_telemetry(*old(self), *final(self)),
            key@ == "telemetry.client_id"@ ==> ((final(self).telemetry.client_id matches Some(v)
                && v@ == value@) && final(self).telemetry.enabled == old(self).telemetry.enabled
                && unchanged_but_telemetry(*old(self), *final(self))),
            r is Err ==> *final(self) == *old(self),
            !known_key(key@) ==> (r matches Err(e) && e@ == "Unknown config key: "@ + key@),
            known_key(key@) && r is Err ==> (r matches Err(e) && e@ == "Invalid boolean"@),
    {
        proof {
            lemma_keys_distinct();
        }
        if str_eq(key, "backends.priority") {
            self.backends.priority = split_and_trim(value);
            Ok(())
        } else if str_eq(key, "backends.disabled") {
            self.backends.disabled = split_and_trim(value);
            Ok(())
        } else if str_eq(key, "behavior.verbose") {
            match parse_bool(value) {
                Some(b) => {
                    self.behavior.verbose = b;
                    Ok(())
                },
                None => Err("Invalid boolean".to_owned()),
            }
        } else if str_eq(key, "behavior.auto_confirm") {
            match parse_bool(value) {
                Some(b) => {
                    self.behavior.auto_confirm = b;
                    Ok(())
                },
                None => Err("Invalid boolean".to_owned()),
            }
        } else if str_eq(key, "behavior.create_shims") {
            match parse_bool(value) {
                Some(b) => {
                    self.behavior.create_shims = b;
                    Ok(())
                },
                None => Err("Invalid boolean".to_owned()),
            }
        } else if str_eq(key, "shims.auto_refresh") {
            match parse_bool(value) {
                Some(b) => {
                    self.shims.auto_refresh = b;
                    Ok(())
                },
                None => Err("Invalid boolean".to_owned()),
            }
        } else if str_eq(key, "telemetry.enabled") {
            match parse_bool(value) {
                Some(b) => {
                    self.telemetry.enabled = b;
                    Ok(())
                },
                None => Err("Invalid boolean".to_owned()),
            }
        } else if str_eq(key, "telemetry.client_id") {
            self.telemetry.client_id = Some(value.to_owned());
            Ok(())
        } else {
            let mut msg = "Unknown config key: ".to_owned();
            msg.append(key);
            Err(msg)
        }
    }

    /// The fixed set of configuration keys, in display order.
    pub fn list_keys() -> (r: Vec<&'static str>)
        ensures
            r@.len() == 8,
            r@[0]@ == "backends.priority"@,
            r@[1]@ == "backends.disabled"@,
            r@[2]@ == "behavior.verbose"@,
            r@[3]@ == "behavior.auto_confirm"@,
            r@[4]@ == "behavior.create_shims"@,
            r@[5]@ == "shims.auto_refresh"@,
            r@[6]@ == "telemetry.enabled"@,
            r@[7]@ == "telemetry.client_id"@,
    {
        let mut r: Vec<&'static str> = Vec::new();
        r.push("backends.priority");
        r.push("backends.disabled");
        r.push("behavior.verbose");
        r.push("behavior.auto_confirm");
        r.push("behavior.create_shims");
        r.push("shims.auto_refresh");
        r.push("telemetry.enabled");
        r.push("telemetry.client_id");
        r
    }
}

/// The eight configuration keys are pairwise distinct.
proof fn lemma_keys_distinct()
    ensures
        "backends.priority"@ != "backends.disabled"@,
        "backends.priority"@ != "behavior.verbose"@,
        "backends.priority"@ != "behavior.auto_confirm"@,
        "backends.priority"@ != "behavior.create_shims"@,
        "backends.priority"@ != "shims.auto_refresh"@,
        "backends.priority"@ != "telemetry.enabled"@,
        "backends.priority"@ != "telemetry.client_id"@,
        "backends.disabled"@ != "behavior.verbose"@,
        "backends.disabled"@ != "behavior.auto_confirm"@,
        "backends.disabled"@ != "behavior.create_shims"@,
        "backends.disabled"@ != "shims.auto_refresh"@,
        "backends.disabled"@ != "telemetry.enabled"@,
        "backends.disabled"@ != "telemetry.client_id"@,
        "behavior.verbose"@ != "behavior.auto_confirm"@,
        "behavior.verbose"@ != "behavior.create_shims"@,
        "behavior.verbose"@ != "shims.auto_refresh"@,
        "behavior.verbose"@ != "telemetry.enabled"@,
        "behavior.verbose"@ != "telemetry.client_id"@,
        "behavior.auto_confirm"@ != "behavior.create_shims"@,
        "behavior.auto_confirm"@ != "shims.auto_refresh"@,
        "behavior.auto_confirm"@ != "telemetry.enabled"@,
        "behavior.auto_confirm"@ != "telemetry.client_id"@,
        "behavior.create_shims"@ != "shims.auto_refresh"@,
        "behavior.create_shims"@ != "telemetry.enabled"@,
        "behavior.create_shims"@ != "telemetry.client_id"@,
        "shims.auto_refresh"@ != "telemetry.enabled"@,
        "shims.auto_refresh"@ != "telemetry.client_id"@,
        "telemetry.enabled"@ != "telemetry.client_id"@,
{
    reveal_strlit("backends.priority");
    reveal_strlit("backends.disabled");
    reveal_strlit("behavior.verbose");
    reveal_strlit("behavior.auto_confirm");
    reveal_strlit("behavior.create_shims");
    reveal_strlit("shims.auto_refresh");
    reveal_strlit("telemetry.enabled");
    reveal_strlit("telemetry.client_id");
    assert("backends.priority"@[0] == 'b' && "backends.disabled"@[0] == 'b'
        && "behavior.verbose"@[0] == 'b' && "behavior.auto_confirm"@[0] == 'b'
        && "behavior.create_shims"@[0] == 'b' && "shims.auto_refresh"@[0] == 's'
        && "telemetry.enabled"@[0] == 't' && "telemetry.client_id"@[0] == 't');
    assert("backends.priority"@[1] == 'a' && "backends.disabled"@[1] == 'a'
        && "behavior.verbose"@[1] == 'e' && "behavior.auto_confirm"@[1] == 'e'
        && "behavior.create_shims"@[1] == 'e');
    assert("backends.priority"@[9] == 'p' && "backends.disabled"@[9] == 'd');
    assert("behavior.verbose"@[9] == 'v' && "behavior.auto_confirm"@[9] == 'a'
        && "behavior.create_shims"@[9] == 'c');
    assert("telemetry.enabled"@[10] == 'e' && "telemetry.client_id"@[10] == 'c');
}

/// Whether the key names a boolean setting.
pub open spec fn is_bool_key(key: Seq<char>) -> bool {
    ||| key == "behavior.verbose"@
    ||| key == "behavior.auto_confirm"@
    ||| key == "behavior.create_shims"@
    ||| key == "shims.auto_refresh"@
    ||| key == "telemetry.enabled"@
}

/// Everything outside the backends section is the same in both values.
pub open spec fn unchanged_but_backends(a: Config, b: Config) -> bool {
    a.behavior == b.behavior && a.shims == b.shims && a.telemetry == b.telemetry
}

/// Everything outside the behaviour section is the same in both values.
pub open spec fn unchanged_but_behavior(a: Config, b: Config) -> bool {
    a.backends == b.backends && a.shims == b.shims && a.telemetry == b.telemetry
}

/// Everything outside the shims section is the same in both values.
pub open spec fn unchanged_but_shims(a: Config, b: Config) -> bool {
    a.backends == b.backends && a.behavior == b.behavior && a.telemetry == b.telemetry
}

/// Everything outside the telemetry section is the same in both values.
pub open spec fn unchanged_but_telemetry(a: Config, b: Config) -> bool {
    a.backends == b.backends && a.behavior == b.behavior && a.shims == b.shims
}

} // verus!
