//! Options of a script run.
use vstd::prelude::*;

verus! {

#[verifier::external_type_specification]
#[verifier::external_body]
pub struct ExPathBuf(std::path::PathBuf);

/// How a script is run: `allow_shell` and `allow_network` lift the sandbox
/// (both off by default), `args` are the trailing command-line arguments
/// (`system/options/args`), `walk` selects the tree-walking evaluator,
/// `trace` traces each VM instruction, `module_paths` are the directories
/// that `import %file` searches (`system/options/module-path`), and
/// `no_stdlib` skips the automatic import of the standard library module.
#[derive(Clone, Debug, Default)]
pub struct RunOptions {
    pub allow_shell: bool,
    pub allow_network: bool,
    pub args: Vec<String>,
    pub walk: bool,
    pub trace: bool,
    pub module_paths: Vec<std::path::PathBuf>,
    pub no_stdlib: bool,
}

} // verus!
