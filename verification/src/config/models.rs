//! The shape of the configuration documents, version 1.
//!
//! These are plain records. A field keeps the name it has in the document,
//! except where that name is a keyword; the doc comment then gives it.

use std::collections::HashMap;
use vstd::prelude::*;

verus! {

/// A JSON value of any shape, as `serde_json` holds it. Nothing is known of
/// what is inside.
#[verifier::external_type_specification]
#[verifier::external_body]
pub struct ExJsonValue(serde_json::Value);

/// A release channel: which manifest and engine a profile gets by default.
#[derive(Debug)]
pub struct ChannelV1 {
    pub schema: String,
    pub name: String,
    pub description: String,
    pub priority: i64,
    pub defaults: ChannelDefaults,
    pub manifests: HashMap<String, String>,
    pub constraints: Option<ChannelConstraints>,
}

#[derive(Debug)]
pub struct ChannelDefaults {
    pub manifest: String,
    pub engine: String,
    pub settings_preset: String,
}

#[derive(Debug)]
pub struct ChannelConstraints {
    pub min_vulkan: Option<String>,
    pub gpu_vendors: Option<Vec<String>>,
}

/// An engine: where its archive comes from and how it is laid out.
#[derive(Debug)]
pub struct EngineV1 {
    pub schema: String,
    pub id: String,
    /// `type` in the document.
    pub engine_type: String,
    pub source: EngineSource,
    pub layout: EngineLayout,
    pub sha256: String,
}

#[derive(Debug)]
pub struct EngineSource {
    pub kind: String,
    pub url: String,
}

#[derive(Debug)]
pub struct EngineLayout {
    pub proton_root_subdir: String,
    pub runner: String,
}

/// An application: how it is installed, run and launched.
#[derive(Debug)]
pub struct ManifestV1 {
    pub schema: String,
    pub id: String,
    pub display_name: String,
    pub installer: Installer,
    pub engine: ManifestEngineRef,
    pub runtime: RuntimeConfig,
    pub env: Option<EnvConfig>,
    pub launch: LaunchConfig,
}

#[derive(Debug)]
pub struct Installer {
    /// `type` in the document.
    pub installer_type: String,
    pub source: InstallerSource,
    pub install_dir: String,
}

#[derive(Debug)]
pub struct InstallerSource {
    pub url: String,
    pub sha256: Option<String>,
}

#[derive(Debug)]
pub struct ManifestEngineRef {
    /// `ref` in the document.
    pub engine_ref: String,
}

#[derive(Debug)]
pub struct RuntimeConfig {
    pub wineprefix_layout: String,
    pub dx: DxConfig,
    pub components: ComponentsConfig,
}

#[derive(Debug)]
pub struct DxConfig {
    pub preferred: String,
    pub allow_dx12: bool,
}

#[derive(Debug)]
pub struct ComponentsConfig {
    pub dxvk: ToggleConfig,
    pub vkd3d: ToggleConfig,
}

#[derive(Debug)]
pub struct ToggleConfig {
    pub enabled: bool,
}

#[derive(Debug)]
pub struct EnvConfig {
    pub base: Option<HashMap<String, String>>,
}

#[derive(Debug)]
pub struct LaunchConfig {
    pub entrypoints: Vec<Entrypoint>,
}

#[derive(Debug)]
pub struct Entrypoint {
    pub name: String,
    /// `type` in the document.
    pub entry_type: String,
    pub path: Option<String>,
    pub args: Option<Vec<String>>,
}

/// A profile: one installation, with what it overrides.
#[derive(Debug)]
pub struct ProfileV1 {
    pub schema: String,
    pub name: String,
    pub channel: String,
    pub manifest: String,
    pub engine: String,
    pub overrides: serde_json::Value,
}

} // verus!
