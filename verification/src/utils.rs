//! Small tracing helper.

use vstd::prelude::*;
use vstd::string::StringExecFns;

verus! {

/// Marks a named phase of work; the caller prints its enter and exit
/// messages around the phase at debug level.
pub struct DebugPrinter {
    name: String,
}

impl DebugPrinter {
    /// The phase name.
    pub closed spec fn spec_name(self) -> Seq<char> {
        self.name@
    }

    /// Creates a marker for a named phase.
    pub fn new(name: String) -> (r: DebugPrinter)
        ensures
            r.spec_name() == name@,
    {
        DebugPrinter { name }
    }

    /// The message to print when the phase begins.
    pub fn enter_message(&self) -> (m: String)
        ensures
            m@ == "enter "@ + self.spec_name(),
    {
        let mut m = String::new();
        m.append("enter ");
        m.append(self.name.as_str());
        proof {
            assert(m@ =~= "enter "@ + self.spec_name());
        }
        m
    }

    /// The message to print when the phase ends.
    pub fn exit_message(&self) -> (m: String)
        ensures
            m@ == "exit "@ + self.spec_name(),
    {
        let mut m = String::new();
        m.append("exit ");
        m.append(self.name.as_str());
        proof {
            assert(m@ =~= "exit "@ + self.spec_name());
        }
        m
    }
}

} // verus!
