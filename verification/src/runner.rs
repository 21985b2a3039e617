//! What `myco run` runs, and with which debugger settings.
use vstd::prelude::*;

use crate::myco_toml::MycoToml;

verus! {

/// How the V8 inspector is set up for a run.
#[derive(Debug, Clone, Copy, PartialEq, Eq, Structural)]
pub struct DebugOptions {
    pub port: u16,
    pub break_on_start: bool,
    pub wait_for_connection: bool,
}

/// The inspector settings the `run` flags ask for: none unless one of
/// `--inspect`, `--inspect-brk`, `--inspect-wait` is given; `--inspect-brk`
/// breaks on start, and both it and `--inspect-wait` wait for a debugger.
pub fn debug_options(inspect: bool, inspect_brk: bool, inspect_wait: bool, port: u16) -> (r: Option<DebugOptions>)
    ensures
        r == if inspect || inspect_brk || inspect_wait {
            Some(DebugOptions { port, break_on_start: inspect_brk, wait_for_connection: inspect_brk || inspect_wait })
        } else {
            None
        },
{
    if inspect || inspect_brk || inspect_wait {
        Some(DebugOptions { port, break_on_start: inspect_brk, wait_for_connection: inspect_brk || inspect_wait })
    } else {
        None
    }
}

/// The file a script name runs: the `[run]` table's entry for it, or the name
/// itself taken as a path.
pub fn script_target(myco_toml: &MycoToml, script: &str) -> (r: String)
    requires
        myco_toml.wf(),
    ensures
        r@ == match myco_toml.run {
            Some(m) => if m.as_map().contains_key(script@) {
                m.as_map()[script@]@
            } else {
                script@
            },
            None => script@,
        },
{
    match &myco_toml.run {
        Some(m) => match m.get(script) {
            Some(p) => p.clone(),
            None => script.to_owned(),
        },
        None => script.to_owned(),
    }
}

} // verus!
