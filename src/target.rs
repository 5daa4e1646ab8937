//! Where a connection goes: the parts of a peer's address that the process
//! spawner needs.
use vstd::prelude::*;
use crate::wire::{decimal, decimal_bytes};

verus! {

/// The parts of a peer's URL that a connection reads.
pub struct PeerAddress {
    pub scheme: Vec<u8>,
    /// Empty where the URL has none.
    pub username: Vec<u8>,
    pub host: Option<Vec<u8>>,
    pub port: Option<u16>,
    pub path: Vec<u8>,
}

/// What the process spawner is handed.
pub struct SpawnTarget {
    /// `host`, or `user@host` where the address names a user.
    pub userhost: Option<Vec<u8>>,
    /// The port in decimal.
    pub port: Option<Vec<u8>>,
    pub path: Vec<u8>,
    /// The peer is reached over ssh rather than run locally.
    pub is_remote: bool,
}

/// `ssh`
pub open spec fn ssh_scheme() -> Seq<u8> {
    seq![115u8, 115u8, 104u8]
}

pub open spec fn opt_view(o: Option<Vec<u8>>) -> Option<Seq<u8>> {
    match o {
        Some(v) => Some(v@),
        None => None,
    }
}

pub open spec fn userhost_spec(username: Seq<u8>, host: Option<Seq<u8>>) -> Option<Seq<u8>> {
    match host {
        Some(h) => if username.len() == 0 {
            Some(h)
        } else {
            Some(username + seq![64u8] + h)
        },
        None => None,
    }
}

/// The path handed to the spawner: over ssh, one leading `/` is taken off.
pub open spec fn path_spec(remote: bool, path: Seq<u8>) -> Seq<u8> {
    if remote && path.len() > 0 && path[0] == 47u8 {
        path.drop_first()
    } else {
        path
    }
}

impl SpawnTarget {
    pub open spec fn of(addr: PeerAddress, t: SpawnTarget) -> bool {
        &&& t.is_remote == (addr.scheme@ == ssh_scheme())
        &&& opt_view(t.userhost) == userhost_spec(addr.username@, opt_view(addr.host))
        &&& opt_view(t.port) == match addr.port {
            Some(p) => Some(decimal(p as nat)),
            None => None::<Seq<u8>>,
        }
        &&& t.path@ == path_spec(t.is_remote, addr.path@)
    }
}

fn copy_bytes(b: &Vec<u8>) -> (r: Vec<u8>)
    ensures
        r@ == b@,
{
    vstd::slice::slice_to_vec(b.as_slice())
}

fn is_ssh(scheme: &Vec<u8>) -> (r: bool)
    ensures
        r == (scheme@ == ssh_scheme()),
{
    let r = scheme.len() == 3 && scheme[0] == 115 && scheme[1] == 115 && scheme[2] == 104;
    assert(r ==> scheme@ =~= ssh_scheme());
    r
}

/// Works out what to spawn for `addr`.
pub fn spawn_target(addr: &PeerAddress) -> (r: SpawnTarget)
    ensures
        SpawnTarget::of(*addr, r),
{
    let is_remote = is_ssh(&addr.scheme);
    let userhost = match &addr.host {
        Some(h) => if addr.username.len() == 0 {
            Some(copy_bytes(h))
        } else {
            let mut u = copy_bytes(&addr.username);
            u.push(64u8);
            let mut rest = copy_bytes(h);
            u.append(&mut rest);
            assert(u@ =~= addr.username@ + seq![64u8] + h@);
            Some(u)
        },
        None => None,
    };
    let port = match addr.port {
        Some(p) => Some(decimal_bytes(p as u64)),
        None => None,
    };
    let path = if is_remote && addr.path.len() > 0 && addr.path[0] == 47u8 {
        let p = vstd::slice::slice_subrange(addr.path.as_slice(), 1, addr.path.len());
        assert(p@ =~= addr.path@.drop_first());
        vstd::slice::slice_to_vec(p)
    } else {
        copy_bytes(&addr.path)
    };
    SpawnTarget { userhost, port, path, is_remote }
}

} // verus!
