//! Settings of the rules. A setting that a configuration does not mention
//! has the default given here.

use vstd::prelude::*;

verus! {

/// Settings of the "if this changes, change that too" rule.
#[derive(Clone, Copy, Debug, PartialEq, Eq, Structural)]
pub struct IfChangeConf {
    pub enabled: bool,
}

impl Default for IfChangeConf {
    fn default() -> (r: Self)
        ensures
            r.enabled,
    {
        IfChangeConf { enabled: true }
    }
}

/// Settings of the scan for text that must not land.
#[derive(Clone, Copy, Debug, PartialEq, Eq, Structural)]
pub struct PlsNotLandConf {
    pub enabled: bool,
}

impl Default for PlsNotLandConf {
    fn default() -> (r: Self)
        ensures
            r.enabled,
    {
        PlsNotLandConf { enabled: true }
    }
}

/// Settings of the scan for open tasks.
#[derive(Clone, Copy, Debug, PartialEq, Eq, Structural)]
pub struct TodoConf {
    pub enabled: bool,
}

impl Default for TodoConf {
    fn default() -> (r: Self)
        ensures
            !r.enabled,
    {
        TodoConf { enabled: false }
    }
}

/// Settings of the protected-path rule.
#[derive(Debug)]
pub struct NeverEditConf {
    pub enabled: bool,
    /// Glob patterns of the protected paths
    pub paths: Vec<String>,
}

impl Default for NeverEditConf {
    fn default() -> (r: Self)
        ensures
            !r.enabled,
            r.paths@.len() == 0,
    {
        NeverEditConf { enabled: false, paths: Vec::new() }
    }
}

/// Settings of the scan for curly quotes.
#[derive(Clone, Copy, Debug, PartialEq, Eq, Structural)]
pub struct NoCurlyQuotesConf {
    pub enabled: bool,
}

impl Default for NoCurlyQuotesConf {
    fn default() -> (r: Self)
        ensures
            !r.enabled,
    {
        NoCurlyQuotesConf { enabled: false }
    }
}

/// The settings of all rules.
#[derive(Debug)]
pub struct Conf {
    pub ifchange: IfChangeConf,
    pub donotland: PlsNotLandConf,
    pub todo: TodoConf,
    pub neveredit: NeverEditConf,
    pub nocurlyquotes: NoCurlyQuotesConf,
}

impl Default for Conf {
    fn default() -> (r: Self)
        ensures
            r.ifchange.enabled,
            r.donotland.enabled,
            !r.todo.enabled,
            !r.neveredit.enabled,
            r.neveredit.paths@.len() == 0,
            !r.nocurlyquotes.enabled,
    {
        Conf {
            ifchange: IfChangeConf::default(),
            donotland: PlsNotLandConf::default(),
            todo: TodoConf::default(),
            neveredit: NeverEditConf::default(),
            nocurlyquotes: NoCurlyQuotesConf::default(),
        }
    }
}

} // verus!
