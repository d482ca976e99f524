//! Who may call what at the token.

use vstd::prelude::*;
use crate::currency_token::CurrencyToken;
use crate::principal::Principal;
use crate::types::Error;

verus! {

/// Lets only a controller of the token through: `AccessDenied` for every
/// other caller.
pub fn controller_guard(token: &CurrencyToken, caller: &Principal) -> (r: Result<(), Error>)
    ensures
        r == if token.controllers_view().contains(*caller) {
            Ok::<(), Error>(())
        } else {
            Err::<(), Error>(Error::AccessDenied)
        },
{
    let controllers = token.controllers();
    let mut i: usize = 0;
    while i < controllers.len()
        invariant
            i <= controllers@.len(),
            controllers@ == token.controllers_view(),
            forall|j: int| 0 <= j < i ==> controllers@[j] != *caller,
        decreases controllers@.len() - i,
    {
        if controllers[i] == *caller {
            return Ok(());
        }
        i += 1;
    }
    Err(Error::AccessDenied)
}

} // verus!
