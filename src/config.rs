//! Configuration values the orchestrator derives rather than reads.
use vstd::prelude::*;

verus! {

/// The default of the configuration's yes/no switches.
pub fn yes() -> (r: bool)
    ensures
        r,
{
    true
}

/// The default documentation directory that doc stripping removes.
pub fn default_doc_dir() -> (r: String)
    ensures
        r@ == "/usr/share/doc"@,
{
    String::from_str("/usr/share/doc")
}

/// A compiler set: commands, flags, and extra environment entries.
pub struct CompilerConfig {
    pub cc: String,
    pub cxx: String,
    pub cflags: String,
    pub cxxflags: String,
    pub ldflags: String,
    pub others: Vec<(String, String)>,
}

impl Default for CompilerConfig {
    /// `cc` and `c++`, with no flags.
    fn default() -> (r: CompilerConfig)
        ensures
            r.cc@ == "cc"@,
            r.cxx@ == "c++"@,
            r.cflags@.len() == 0,
            r.cxxflags@.len() == 0,
            r.ldflags@.len() == 0,
            r.others@.len() == 0,
    {
        CompilerConfig {
            cc: String::from_str("cc"),
            cxx: String::from_str("c++"),
            cflags: String::new(),
            cxxflags: String::new(),
            ldflags: String::new(),
            others: Vec::new(),
        }
    }
}

/// The thread count: the configured one, or the detected one where the
/// configuration says 0.
pub fn thread_count(configured: usize, detected: usize) -> (r: usize)
    ensures
        r == if configured == 0 {
            detected
        } else {
            configured
        },
{
    if configured == 0 {
        detected
    } else {
        configured
    }
}

} // verus!
