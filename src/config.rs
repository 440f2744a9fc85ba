//! The rule set: what a rule matches, how it renames, and where it sends a
//! file.
use vstd::prelude::*;

verus! {

/// One replacement step: every occurrence of `from` becomes `to`.
#[derive(Clone, Debug)]
pub struct RenameRule {
    pub from: String,
    pub to: String,
}

/// A rule: files whose name holds `pattern` are renamed by `renames`, in
/// order, and sent to the directory `destination`.
///
/// `prefix` and `suffix` are accepted in a rule file but reserved: no step of
/// the name transform reads them.
#[derive(Clone, Debug)]
pub struct FileRule {
    pub pattern: String,
    pub renames: Vec<RenameRule>,
    pub prefix: Option<String>,
    pub suffix: Option<String>,
    pub destination: String,
}

/// The rules in priority order: the lowest index that matches wins.
#[derive(Clone, Debug)]
pub struct Config {
    pub rules: Vec<FileRule>,
}

} // verus!
