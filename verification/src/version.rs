use vstd::prelude::*;

use crate::text::{decimal, decimal_string};

verus! {

/// Current protocol version; raised on breaking changes.
pub const PROTOCOL_VERSION: u8 = 1;

/// Oldest client protocol version the server accepts.
pub const MIN_CLIENT_VERSION: u8 = 1;

/// Why an envelope of protocol version `v` is refused (`None`: accepted).
pub open spec fn version_rejection(v: u8) -> Option<Seq<char>> {
    if v < MIN_CLIENT_VERSION {
        Some(
            "protocol version "@ + decimal(v as nat) + " too old, minimum is "@ + decimal(
                MIN_CLIENT_VERSION as nat,
            ),
        )
    } else {
        None
    }
}

/// Checks an envelope's protocol version against the server minimum.
pub fn check_version(envelope_version: u8) -> (r: Result<(), String>)
    ensures
        match r {
            Ok(()) => version_rejection(envelope_version).is_none(),
            Err(e) => version_rejection(envelope_version) == Some(e@),
        },
{
    if envelope_version < MIN_CLIENT_VERSION {
        let mut msg = "protocol version ".to_owned();
        let v = decimal_string(envelope_version as u64);
        msg.append(v.as_str());
        msg.append(" too old, minimum is ");
        let m = decimal_string(MIN_CLIENT_VERSION as u64);
        msg.append(m.as_str());
        return Err(msg);
    }
    Ok(())
}

} // verus!
