//! Client connection settings that are decided from the environment: the
//! process reads the variables, this module decides.
use vstd::prelude::*;
use crate::text::same_text;

verus! {

/// Whether an environment value switches a flag on: exactly `1` or `true`.
pub open spec fn flag_value_on(v: Seq<char>) -> bool {
    v == "1"@ || v == "true"@
}

/// Whether the value `v` of a flag variable switches it on.
pub fn flag_enabled(v: &str) -> (r: bool)
    ensures
        r == flag_value_on(v@),
{
    same_text(v, "1") || same_text(v, "true")
}

/// Whether certificate checks are skipped: the insecure-TLS variable or the
/// dev variable is on, or the program was started with `--dev`. Each
/// variable is given as its value, `None` where it is unset.
pub fn insecure_tls_enabled(insecure_var: Option<&str>, dev_var: Option<&str>, dev_arg: bool) -> (r: bool)
    ensures
        r == ((insecure_var matches Some(v) && flag_value_on(v@)) || (dev_var matches Some(v)
            && flag_value_on(v@)) || dev_arg),
{
    let a = match insecure_var {
        Some(v) => flag_enabled(v),
        None => false,
    };
    let b = match dev_var {
        Some(v) => flag_enabled(v),
        None => false,
    };
    a || b || dev_arg
}

} // verus!
