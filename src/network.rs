//! The host names that this machine answers to.

use vstd::prelude::*;

verus! {

/// The names that a self-signed certificate for this machine covers:
/// "localhost", "127.0.0.1", and then the machine's local IP, when known.
pub fn get_all_local_ips(local_ip: Option<String>) -> (r: Vec<String>)
    ensures
        r@.len() == if local_ip is Some { 3int } else { 2int },
        r@[0]@ == "localhost"@,
        r@[1]@ == "127.0.0.1"@,
        local_ip matches Some(ip) ==> r@[2]@ == ip@,
{
    let mut ips: Vec<String> = vec!["localhost".to_owned(), "127.0.0.1".to_owned()];
    if let Some(ip) = local_ip {
        ips.push(ip);
    }
    ips
}

} // verus!
