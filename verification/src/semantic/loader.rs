//! How a project is loaded for analysis.

use vstd::prelude::*;

use crate::graph::loader::LoadSettings;
use crate::semantic::service::LoadKind;
use crate::switches::{is_off, switched_off, text_at};

verus! {

/// The variable that turns build scripts off.
pub const BUILD_SCRIPTS_ENV: &'static str = "RMC_BUILD_SCRIPTS";

/// Whether build scripts are run, by the value of the variable: they are, unless
/// the value is a word for off.
pub fn parse_build_scripts(value: Option<&str>) -> (r: bool)
    ensures
        r == !is_off(text_at(value)),
{
    !switched_off(value)
}

/// How a project is loaded for a kind, by the value of the variable.
pub open spec fn settings_of(kind: LoadKind, build_scripts_env: Option<Seq<char>>) -> LoadSettings {
    let build_scripts = !is_off(build_scripts_env);
    match kind {
        LoadKind::Fast => LoadSettings {
            sysroot: false,
            no_deps: true,
            all_features: false,
            all_targets: false,
            set_test: false,
            build_scripts,
        },
        LoadKind::Full => LoadSettings {
            sysroot: true,
            no_deps: false,
            all_features: true,
            all_targets: true,
            set_test: true,
            build_scripts,
        },
    }
}

/// A full load leaves nothing out, neither dependencies nor features, targets or tests;
/// a fast one loads none of them. Build scripts run in both, unless they are turned off.
pub proof fn a_full_load_leaves_nothing_out(value: Option<Seq<char>>)
    ensures
        ({
            let full = settings_of(LoadKind::Full, value);
            let fast = settings_of(LoadKind::Fast, value);
            &&& full.sysroot && !full.no_deps && full.all_features && full.all_targets
                && full.set_test
            &&& !fast.sysroot && fast.no_deps && !fast.all_features && !fast.all_targets
                && !fast.set_test
            &&& full.build_scripts == fast.build_scripts
            &&& full.build_scripts <==> !is_off(value)
            &&& settings_of(LoadKind::Full, None).build_scripts
        }),
{
}

/// How a project is loaded: quickly, without its dependencies, or in full, as a
/// rename needs it.
pub fn load_settings(kind: LoadKind, build_scripts_env: Option<&str>) -> (s: LoadSettings)
    ensures
        s == settings_of(kind, text_at(build_scripts_env)),
{
    let build_scripts: bool = parse_build_scripts(build_scripts_env);
    match kind {
        LoadKind::Fast => LoadSettings {
            sysroot: false,
            no_deps: true,
            all_features: false,
            all_targets: false,
            set_test: false,
            build_scripts,
        },
        LoadKind::Full => LoadSettings {
            sysroot: true,
            no_deps: false,
            all_features: true,
            all_targets: true,
            set_test: true,
            build_scripts,
        },
    }
}

} // verus!
