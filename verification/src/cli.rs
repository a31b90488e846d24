//! The command line as parsed values: the runtime options and the optional
//! service subcommand.

use vstd::prelude::*;

use crate::config::RuntimeOptions;
use crate::text::{owned, spec_strings};

verus! {

/// The parsed command line.
pub struct Cli {
    pub bind: String,
    pub max_connections: usize,
    pub username: Option<String>,
    pub password: Option<String>,
    pub bypass_ips: Vec<String>,
    pub command: Option<Command>,
}

/// A service subcommand.
#[derive(Clone, Copy, Debug, PartialEq, Eq, Structural)]
pub enum Command {
    Install,
    Uninstall,
    Winsvc,
}

/// A copy of an optional string.
fn copy_opt(o: &Option<String>) -> (r: Option<String>)
    ensures
        match (r, *o) {
            (Some(a), Some(b)) => a@ == b@,
            (None, None) => true,
            _ => false,
        },
{
    match o {
        Some(s) => Some(owned(s.as_str())),
        None => None,
    }
}

impl Cli {
    /// Converts parsed CLI arguments into runtime options.
    pub fn runtime_options(&self) -> (r: RuntimeOptions)
        ensures
            r.bind@ == self.bind@,
            r.max_connections == self.max_connections,
            r@.username == crate::config::spec_opt_view(self.username),
            r@.password == crate::config::spec_opt_view(self.password),
            r@.bypass_ips == spec_strings(self.bypass_ips@),
    {
        let mut bypass_ips: Vec<String> = Vec::new();
        let mut i: usize = 0;
        while i < self.bypass_ips.len()
            invariant
                i <= self.bypass_ips@.len(),
                spec_strings(bypass_ips@) == spec_strings(self.bypass_ips@).take(i as int),
            decreases self.bypass_ips@.len() - i,
        {
            let ghost before = bypass_ips@;
            let item = owned(self.bypass_ips[i].as_str());
            bypass_ips.push(item);
            assert(spec_strings(bypass_ips@) =~= spec_strings(before).push(self.bypass_ips@[i as int]@));
            i = i + 1;
            assert(spec_strings(bypass_ips@) =~= spec_strings(self.bypass_ips@).take(i as int));
        }
        assert(spec_strings(self.bypass_ips@).take(i as int) =~= spec_strings(self.bypass_ips@));
        RuntimeOptions {
            bind: owned(self.bind.as_str()),
            max_connections: self.max_connections,
            username: copy_opt(&self.username),
            password: copy_opt(&self.password),
            bypass_ips,
        }
    }
}

} // verus!
