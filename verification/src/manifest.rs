//! The permission manifest: what a plugin's settings allow its module to
//! reach once it is instantiated.

use vstd::prelude::*;
use crate::expand::{expand_env_vars, resolved_path, sanitized_path};
use crate::identity::copy_pairs;
use crate::text::{copy_strings, TextPairs};

verus! {

/// The mathematical value of a [`PluginConfig`].
pub struct PluginConfigView {
    pub wasm_path: Seq<char>,
    pub allowed_paths: Seq<Seq<char>>,
    pub allowed_hosts: Seq<Seq<char>>,
    pub enable_wasi: bool,
    pub cli: bool,
    pub config: TextPairs,
}

/// The settings with which a caller asks for a plugin: where its module
/// lies, which paths and hosts it may reach, whether it gets WASI and the
/// command bridge, and its configuration pairs.
#[derive(Debug)]
pub struct PluginConfig {
    pub wasm_path: String,
    pub allowed_paths: Vec<String>,
    pub allowed_hosts: Vec<String>,
    pub enable_wasi: bool,
    pub cli: bool,
    pub config: Vec<(String, String)>,
}

impl View for PluginConfig {
    type V = PluginConfigView;

    open spec fn view(&self) -> PluginConfigView {
        PluginConfigView {
            wasm_path: self.wasm_path@,
            allowed_paths: self.allowed_paths.deep_view(),
            allowed_hosts: self.allowed_hosts.deep_view(),
            enable_wasi: self.enable_wasi,
            cli: self.cli,
            config: self.config.deep_view(),
        }
    }
}

/// The mathematical value of a [`PermissionManifest`].
pub struct ManifestView {
    pub wasm_path: Seq<char>,
    pub allowed_paths: TextPairs,
    pub allowed_hosts: Seq<Seq<char>>,
    pub config: TextPairs,
    pub enable_wasi: bool,
}

/// The permissions and configuration under which a module is instantiated.
///
/// Each allowed path pairs a host path with the path under which the module
/// sees it. Where a host path or a configuration key is listed twice, the
/// later entry is the one that counts.
#[derive(Debug, Clone, PartialEq, Eq)]
pub struct PermissionManifest {
    pub wasm_path: String,
    pub allowed_paths: Vec<(String, String)>,
    pub allowed_hosts: Vec<String>,
    pub config: Vec<(String, String)>,
    pub enable_wasi: bool,
}

impl View for PermissionManifest {
    type V = ManifestView;

    open spec fn view(&self) -> ManifestView {
        ManifestView {
            wasm_path: self.wasm_path@,
            allowed_paths: self.allowed_paths.deep_view(),
            allowed_hosts: self.allowed_hosts.deep_view(),
            config: self.config.deep_view(),
            enable_wasi: self.enable_wasi,
        }
    }
}

/// One allow-list rule expanded: the resolved host path and the sanitized
/// path under which the module sees it.
pub open spec fn expanded_rule(env: TextPairs) -> spec_fn(Seq<char>) -> (
    Seq<char>,
    Seq<char>,
) {
    |rule: Seq<char>| (resolved_path(rule, env), sanitized_path(rule))
}

/// The manifest that settings, a data directory, a platform identifier and
/// an environment determine: every allow-list rule expanded, then the data
/// directory as `data`; the hosts as listed; the configuration pairs as
/// listed, then the platform under the key `platform`.
pub open spec fn manifest_of(
    settings: PluginConfigView,
    data_dir_path: Seq<char>,
    platform: Seq<char>,
    env: TextPairs,
) -> ManifestView {
    ManifestView {
        wasm_path: settings.wasm_path,
        allowed_paths: settings.allowed_paths.map_values(expanded_rule(env)).push(
            (data_dir_path, "data"@),
        ),
        allowed_hosts: settings.allowed_hosts,
        config: settings.config.push(("platform"@, platform)),
        enable_wasi: settings.enable_wasi,
    }
}

/// Builds the permission manifest for a plugin.
pub fn build_manifest(
    settings: &PluginConfig,
    data_dir_path: &str,
    platform: &str,
    env: &Vec<(String, String)>,
) -> (manifest: PermissionManifest)
    ensures
        manifest@ == manifest_of(settings@, data_dir_path@, platform@, env.deep_view()),
{
    let ghost rules = settings.allowed_paths.deep_view();
    let ghost expand = expanded_rule(env.deep_view());
    let mut allowed_paths: Vec<(String, String)> = Vec::new();
    let mut i: usize = 0;
    proof {
        assert(allowed_paths.deep_view() =~= rules.take(0).map_values(expand));
    }
    while i < settings.allowed_paths.len()
        invariant
            i <= settings.allowed_paths.len(),
            rules == settings.allowed_paths.deep_view(),
            expand == expanded_rule(env.deep_view()),
            allowed_paths.deep_view() == rules.take(i as int).map_values(expand),
        decreases settings.allowed_paths.len() - i,
    {
        let ghost before = allowed_paths.deep_view();
        let expanded = expand_env_vars(settings.allowed_paths[i].as_str(), env);
        allowed_paths.push(expanded);
        proof {
            assert(allowed_paths.deep_view() =~= before.push(expand(rules[i as int])));
            assert(rules.take(i as int).map_values(expand).push(expand(rules[i as int]))
                =~= rules.take(i + 1).map_values(expand));
        }
        i = i + 1;
    }
    let ghost expanded_all = allowed_paths.deep_view();
    allowed_paths.push((data_dir_path.to_owned(), "data".to_owned()));
    let ghost listed = settings.config.deep_view();
    let mut config = copy_pairs(&settings.config);
    config.push(("platform".to_owned(), platform.to_owned()));
    let manifest = PermissionManifest {
        wasm_path: settings.wasm_path.clone(),
        allowed_paths,
        allowed_hosts: copy_strings(&settings.allowed_hosts),
        config,
        enable_wasi: settings.enable_wasi,
    };
    proof {
        assert(rules.take(rules.len() as int) =~= rules);
        assert(manifest.allowed_paths.deep_view() =~= expanded_all.push(
            (data_dir_path@, "data"@),
        ));
        assert(manifest.config.deep_view() =~= listed.push(("platform"@, platform@)));
    }
    manifest
}

} // verus!
