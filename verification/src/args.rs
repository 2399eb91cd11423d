use vstd::prelude::*;

verus! {

/// Operator-facing configuration: diagnostics flags and the listen address
/// for the transport layer. Parsing of command-line text into this struct is
/// left to the surrounding program; the library only fixes the shape and the
/// documented defaults.
pub struct Args {
    pub debug: bool,
    pub verbose: u8,
    pub host: String,
    pub port: u16,
}

impl Args {
    /// The documented default configuration: listen on every interface,
    /// port 6000, diagnostics off.
    pub fn new_default() -> (a: Args)
        ensures
            a.debug == false,
            a.verbose == 0,
            a.host@ == "0.0.0.0"@,
            a.port == 6000,
    {
        Args { debug: false, verbose: 0, host: "0.0.0.0".to_owned(), port: 6000 }
    }
}

} // verus!
