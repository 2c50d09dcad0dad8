//! Keychain domain selectors.
//!
//! A domain is a closed set of scopes used only to pick which external
//! credential store is queried; it carries no resolution logic of its own.

use vstd::prelude::*;
use vstd::string::StringExecFns;

verus! {

/// A scope narrowing which credential store is queried.
#[derive(Clone, Copy, Debug, PartialEq, Eq, Structural)]
pub enum KeychainDomain {
    User,
    System,
    Common,
    Dynamic,
}

impl KeychainDomain {
    /// Parse a domain from its case-sensitive literal name.
    ///
    /// Exactly `"user"`, `"system"`, `"common"` and `"dynamic"` are accepted;
    /// any other input yields an error message naming the input and listing
    /// the four valid literals.
    pub fn try_from(v: &str) -> (r: Result<KeychainDomain, String>)
        ensures
            v@ == "user"@ ==> r == Ok::<KeychainDomain, String>(KeychainDomain::User),
            v@ == "system"@ ==> r == Ok::<KeychainDomain, String>(KeychainDomain::System),
            v@ == "common"@ ==> r == Ok::<KeychainDomain, String>(KeychainDomain::Common),
            v@ == "dynamic"@ ==> r == Ok::<KeychainDomain, String>(KeychainDomain::Dynamic),
            (v@ != "user"@ && v@ != "system"@ && v@ != "common"@ && v@ != "dynamic"@)
                ==> (r matches Err(m)
                    && m@ == v@ + " is not a valid keychain domain; use user, system, common, or dynamic"@),
    {
        proof {
            reveal_strlit("user");
            reveal_strlit("system");
            reveal_strlit("common");
            reveal_strlit("dynamic");
            assert("user"@.len() == 4);
            assert("system"@.len() == 6);
            assert("common"@.len() == 6);
            assert("dynamic"@.len() == 7);
            assert("system"@[0] == 's' && "common"@[0] == 'c');
        }
        let owned = v.to_owned();
        if owned == "user".to_owned() {
            Ok(KeychainDomain::User)
        } else if owned == "system".to_owned() {
            Ok(KeychainDomain::System)
        } else if owned == "common".to_owned() {
            Ok(KeychainDomain::Common)
        } else if owned == "dynamic".to_owned() {
            Ok(KeychainDomain::Dynamic)
        } else {
            let mut m = v.to_owned();
            m.append(" is not a valid keychain domain; use user, system, common, or dynamic");
            Err(m)
        }
    }
}

} // verus!
