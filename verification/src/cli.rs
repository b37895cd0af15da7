//! The options of the command-line tool's commands.
use vstd::prelude::*;

verus! {

/// The options of the `asm` command: the assembly file, the destination (by default the
/// source's name with the `hack` extension, beside it), whether an existing destination may
/// be overwritten, and whether a parse error is traced in full.
pub struct Asm {
    pub file_name: String,
    pub dest_name: Option<String>,
    pub overwrite: bool,
    pub debug: bool,
}

/// The options of the `vm` command: the VM file, the destination (by default the source's
/// name with the `hack` extension, beside it), whether an existing destination may be
/// overwritten, and whether errors are traced in full.
pub struct Vm {
    pub file_name: String,
    pub dest_name: Option<String>,
    pub overwrite: bool,
    pub debug: bool,
}

} // verus!
