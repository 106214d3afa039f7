//! The server's configuration and the records of its room API.

use vstd::prelude::*;

verus! {

/// `s` with every occurrence of `from`, read left to right without overlap,
/// replaced by `to`.
pub open spec fn replaced(s: Seq<char>, from: Seq<char>, to: Seq<char>) -> Seq<char>
    decreases s.len(),
{
    if from.len() == 0 || s.len() < from.len() {
        s
    } else if s.subrange(0, from.len() as int) == from {
        to + replaced(s.subrange(from.len() as int, s.len() as int), from, to)
    } else {
        seq![s[0]] + replaced(s.subrange(1, s.len() as int), from, to)
    }
}

/// Relies on std's `str::replace`: every non-overlapping occurrence of a
/// non-empty pattern, from left to right, is replaced.
#[verifier::external_body]
fn replace_all(s: &str, from: &str, to: &str) -> (r: String)
    requires
        from@.len() > 0,
    ensures
        r@ == replaced(s@, from@, to@),
{
    s.replace(from, to)
}

/// A URL with the loopback host names replaced by `host`.
pub open spec fn rehosted(url: Seq<char>, host: Seq<char>) -> Seq<char> {
    replaced(replaced(url, "localhost"@, host), "127.0.0.1"@, host)
}

/// The ICE servers offered to clients.
#[derive(Clone, Debug)]
pub struct IceServerConfig {
    pub urls: Vec<String>,
}

impl IceServerConfig {
    /// This entry with "localhost" and then "127.0.0.1" replaced by `host` in
    /// every URL, so that remote clients reach this machine.
    pub fn with_host(&self, host: &str) -> (r: IceServerConfig)
        ensures
            r.urls@.len() == self.urls@.len(),
            forall|i: int| 0 <= i < r.urls@.len() ==> (#[trigger] r.urls@[i])@ == rehosted(self.urls@[i]@, host@),
    {
        proof {
            reveal_strlit("localhost");
            reveal_strlit("127.0.0.1");
        }
        let mut urls: Vec<String> = Vec::new();
        let mut i: usize = 0;
        while i < self.urls.len()
            invariant
                0 <= i <= self.urls@.len(),
                urls@.len() == i,
                "localhost"@.len() > 0,
                "127.0.0.1"@.len() > 0,
                forall|j: int| 0 <= j < i ==> (#[trigger] urls@[j])@ == rehosted(self.urls@[j]@, host@),
            decreases self.urls@.len() - i,
        {
            let first = replace_all(self.urls[i].as_str(), "localhost", host);
            let second = replace_all(first.as_str(), "127.0.0.1", host);
            urls.push(second);
            i = i + 1;
        }
        IceServerConfig { urls }
    }
}

/// The server's configuration.
#[derive(Clone, Debug)]
pub struct Config {
    pub signaling_addr: String,
    pub stun_addr: String,
    pub turn_addr: String,
    pub ice_servers: Vec<IceServerConfig>,
    pub video_constraints: serde_json::Value,
    pub tls_enabled: bool,
    pub tls_cert_path: String,
    pub tls_key_path: String,
}

impl Config {
    /// This configuration with every ICE server URL rehosted on `host`, as
    /// `IceServerConfig::with_host` does; everything else is kept.
    pub fn with_host(&self, host: &str) -> (r: Config)
        ensures
            r.ice_servers@.len() == self.ice_servers@.len(),
            forall|i: int| 0 <= i < r.ice_servers@.len() ==>
                (#[trigger] r.ice_servers@[i]).urls@.len() == self.ice_servers@[i].urls@.len(),
            forall|i: int, j: int| 0 <= i < r.ice_servers@.len() && 0 <= j < r.ice_servers@[i].urls@.len() ==>
                (#[trigger] r.ice_servers@[i].urls@[j])@ == rehosted(self.ice_servers@[i].urls@[j]@, host@),
            r.signaling_addr@ == self.signaling_addr@,
            r.stun_addr@ == self.stun_addr@,
            r.turn_addr@ == self.turn_addr@,
            r.video_constraints == self.video_constraints,
            r.tls_enabled == self.tls_enabled,
            r.tls_cert_path@ == self.tls_cert_path@,
            r.tls_key_path@ == self.tls_key_path@,
    {
        let mut servers: Vec<IceServerConfig> = Vec::new();
        let mut i: usize = 0;
        while i < self.ice_servers.len()
            invariant
                0 <= i <= self.ice_servers@.len(),
                servers@.len() == i,
                forall|k: int| 0 <= k < i ==>
                    (#[trigger] servers@[k]).urls@.len() == self.ice_servers@[k].urls@.len(),
                forall|k: int, j: int| 0 <= k < i && 0 <= j < servers@[k].urls@.len() ==>
                    (#[trigger] servers@[k].urls@[j])@ == rehosted(self.ice_servers@[k].urls@[j]@, host@),
            decreases self.ice_servers@.len() - i,
        {
            servers.push(self.ice_servers[i].with_host(host));
            i = i + 1;
        }
        Config {
            signaling_addr: self.signaling_addr.clone(),
            stun_addr: self.stun_addr.clone(),
            turn_addr: self.turn_addr.clone(),
            ice_servers: servers,
            video_constraints: self.video_constraints.clone(),
            tls_enabled: self.tls_enabled,
            tls_cert_path: self.tls_cert_path.clone(),
            tls_key_path: self.tls_key_path.clone(),
        }
    }
}

/// A request to create a room; it carries nothing.
#[derive(Clone, Debug)]
pub struct CreateRoomRequest {}

/// The answer to a room creation: the new room's id.
#[derive(Clone, Debug)]
pub struct RoomResponse {
    pub room_id: String,
}

} // verus!
