//! Port forwards over an SSH session: the kinds offered, the table of
//! forwards, and what a SOCKS5 client asks of a dynamic forward.
use vstd::prelude::*;

use crate::registry::Registry;
use crate::ssh::{authority, clone_string};
use crate::text::{chars_of, decimal, owned, push_decimal, push_str, str_eq, string_from_chars};

verus! {

/// A forward set up on a session.
pub struct PortForward {
    pub id: String,
    pub session_id: String,
    pub forward_type: String,
    pub local_host: String,
    pub local_port: u16,
    pub remote_host: String,
    pub remote_port: u16,
    pub active: bool,
}

/// What a forward holds, as plain values.
pub open spec fn forward_view(f: PortForward) -> (Seq<char>, Seq<char>, Seq<char>, Seq<char>, u16, Seq<char>, u16, bool) {
    (f.id@, f.session_id@, f.forward_type@, f.local_host@, f.local_port, f.remote_host@, f.remote_port, f.active)
}

/// A copy of a forward.
pub fn copy_forward(f: &PortForward) -> (r: PortForward)
    ensures
        forward_view(r) == forward_view(*f),
{
    PortForward {
        id: clone_string(&f.id),
        session_id: clone_string(&f.session_id),
        forward_type: clone_string(&f.forward_type),
        local_host: clone_string(&f.local_host),
        local_port: f.local_port,
        remote_host: clone_string(&f.remote_host),
        remote_port: f.remote_port,
        active: f.active,
    }
}

/// The forwards that can be set up.
pub enum ForwardKind {
    /// Connections to the local address are carried to the remote address.
    Local,
    /// The local address serves SOCKS5; each client names its own target.
    Dynamic,
}

/// The kind a forward type names: `local` or `dynamic`; `remote` is not
/// offered, and anything else is no forward type.
pub open spec fn forward_kind_of(t: Seq<char>) -> Result<ForwardKind, Seq<char>> {
    if t == "local"@ {
        Ok(ForwardKind::Local)
    } else if t == "remote"@ {
        Err("Remote forwarding not yet supported"@)
    } else if t == "dynamic"@ {
        Ok(ForwardKind::Dynamic)
    } else {
        Err("Invalid forward type"@)
    }
}

pub fn forward_kind(forward_type: &str) -> (r: Result<ForwardKind, String>)
    ensures
        match forward_kind_of(forward_type@) {
            Ok(k) => r == Ok::<ForwardKind, String>(k),
            Err(m) => r is Err && r->Err_0@ == m,
        },
{
    if str_eq(forward_type, "local") {
        Ok(ForwardKind::Local)
    } else if str_eq(forward_type, "remote") {
        Err(owned("Remote forwarding not yet supported"))
    } else if str_eq(forward_type, "dynamic") {
        Ok(ForwardKind::Dynamic)
    } else {
        Err(owned("Invalid forward type"))
    }
}

/// The `host:port` address a listener binds.
pub fn bind_address(host: &str, port: u16) -> (r: String)
    ensures
        r@ == authority(host@, port),
{
    let mut v = chars_of(host);
    push_str(&mut v, ":");
    push_decimal(&mut v, port as u64);
    string_from_chars(v.as_slice())
}

/// `f` is a copy of one of the forwards in `m`.
pub open spec fn is_listed(m: Map<Seq<char>, PortForward>, f: PortForward) -> bool {
    exists|k: Seq<char>| m.contains_key(k) && forward_view(m[k]) == forward_view(f)
}

/// The forwards set up so far, by id.
pub struct PortForwardManager {
    forwards: Registry<PortForward>,
}

impl PortForwardManager {
    /// The forwards by id.
    pub closed spec fn view(&self) -> Map<Seq<char>, PortForward> {
        self.forwards.view()
    }

    pub closed spec fn wf(&self) -> bool {
        self.forwards.wf()
    }

    /// No forwards.
    pub fn new() -> (r: Self)
        ensures
            r.wf(),
            r.view() == Map::<Seq<char>, PortForward>::empty(),
    {
        PortForwardManager { forwards: Registry::new() }
    }

    /// Records `forward` under its id.
    pub fn add(&mut self, forward: PortForward)
        requires
            old(self).wf(),
        ensures
            final(self).wf(),
            final(self).view() == old(self).view().insert(forward.id@, forward),
    {
        let id = clone_string(&forward.id);
        self.forwards.insert(id, forward);
    }

    /// A copy of each forward, each once.
    pub fn list(&self) -> (r: Vec<PortForward>)
        requires
            self.wf(),
        ensures
            r@.len() == self.view().dom().len(),
            forall|i: int| 0 <= i < r@.len() ==> is_listed(self.view(), #[trigger] r@[i]),
            forall|k: Seq<char>|
                #[trigger] self.view().contains_key(k) ==> exists|i: int|
                    0 <= i < r@.len() && forward_view(r@[i]) == forward_view(self.view()[k]),
    {
        let ids = self.forwards.ids();
        let mut r: Vec<PortForward> = Vec::new();
        let mut i: usize = 0;
        while i < ids.len()
            invariant
                i <= ids@.len(),
                r@.len() == i,
                self.wf(),
                forall|j: int| 0 <= j < ids@.len() ==> self.view().contains_key(#[trigger] ids@[j]@),
                forall|j: int|
                    0 <= j < i ==> forward_view(#[trigger] r@[j]) == forward_view(self.view()[ids@[j]@]),
            decreases ids@.len() - i,
        {
            match self.forwards.get(ids[i].as_str()) {
                Some(f) => {
                    r.push(copy_forward(f));
                },
                None => {
                    assert(false);
                },
            }
            i = i + 1;
        }
        proof {
            assert forall|j: int| 0 <= j < r@.len() implies is_listed(self.view(), #[trigger] r@[j]) by {
                let k = ids@[j]@;
                assert(self.view().contains_key(k));
                assert(forward_view(self.view()[k]) == forward_view(r@[j]));
            }
            assert forall|k: Seq<char>| #[trigger] self.view().contains_key(k) implies exists|j: int|
                0 <= j < r@.len() && forward_view(r@[j]) == forward_view(self.view()[k]) by {
                let j = choose|j: int| 0 <= j < ids@.len() && ids@[j]@ == k;
                assert(forward_view(r@[j]) == forward_view(self.view()[k]));
            }
        }
        r
    }

    /// Marks the forward `id` inactive; nothing else changes.
    pub fn close(&mut self, id: &str)
        requires
            old(self).wf(),
        ensures
            final(self).wf(),
            final(self).view() == (if old(self).view().contains_key(id@) {
                old(self).view().insert(id@, PortForward { active: false, ..old(self).view()[id@] })
            } else {
                old(self).view()
            }),
    {
        let ghost before = self.view();
        match self.forwards.remove(id) {
            Some(f) => {
                let mut f = f;
                f.active = false;
                self.forwards.insert(owned(id), f);
                assert(self.view() =~= before.insert(id@, PortForward { active: false, ..before[id@] }));
            },
            None => {},
        }
    }
}

/// A forward just added is listed as it was given; closing marks it inactive
/// and leaves the other forwards as they were.
pub proof fn forward_table_law(m: Map<Seq<char>, PortForward>, f: PortForward, other: Seq<char>)
    requires
        other != f.id@,
    ensures
        m.insert(f.id@, f)[f.id@] == f,
        m.insert(f.id@, f).insert(f.id@, PortForward { active: false, ..m.insert(f.id@, f)[f.id@] })[f.id@].active
            == false,
        m.insert(f.id@, f).insert(f.id@, PortForward { active: false, ..f }).contains_key(other) == m.contains_key(other),
        m.contains_key(other) ==> m.insert(f.id@, f).insert(f.id@, PortForward { active: false, ..f })[other] == m[other],
{
}

// ---------------------------------------------------------------------------
// SOCKS5 on a dynamic forward
// ---------------------------------------------------------------------------

/// The server's answer to a client greeting: version 5, no authentication.
pub fn socks5_method_reply() -> (r: Vec<u8>)
    ensures
        r@ == seq![5u8, 0u8],
{
    let mut v: Vec<u8> = Vec::new();
    v.push(5);
    v.push(0);
    v
}

/// The server's answer to a connect request: success when the session
/// opened a channel to the target, general failure otherwise.
pub fn socks5_connect_reply(connected: bool) -> (r: Vec<u8>)
    ensures
        r@ == seq![5u8, if connected { 0u8 } else { 1u8 }, 0u8, 1u8, 0u8, 0u8, 0u8, 0u8, 0u8, 0u8],
{
    let mut v: Vec<u8> = Vec::new();
    v.push(5);
    v.push(if connected { 0 } else { 1 });
    v.push(0);
    v.push(1);
    let mut i: usize = 0;
    while i < 6
        invariant
            i <= 6,
            v@.len() == 4 + i,
            v@.subrange(0, 4) == seq![5u8, if connected { 0u8 } else { 1u8 }, 0u8, 1u8],
            forall|j: int| 4 <= j < v@.len() ==> v@[j] == 0u8,
        decreases 6 - i,
    {
        v.push(0);
        i = i + 1;
    }
    assert(v@ =~= seq![5u8, if connected { 0u8 } else { 1u8 }, 0u8, 1u8, 0u8, 0u8, 0u8, 0u8, 0u8, 0u8]);
    v
}

/// The text that `String::from_utf8_lossy` makes of `bytes`.
pub uninterp spec fn utf8_lossy_text(bytes: Seq<u8>) -> Seq<char>;

/// `String::from_utf8_lossy`: the named text; for valid UTF-8 it is the
/// decoded text.
#[verifier::external_body]
fn utf8_lossy(bytes: &[u8]) -> (r: String)
    ensures
        r@ == utf8_lossy_text(bytes@),
        vstd::utf8::valid_utf8(bytes@) ==> r@ == vstd::utf8::decode_utf8(bytes@),
{
    String::from_utf8_lossy(bytes).to_string()
}

/// The request buffer holds what the request needs: a domain name ends
/// with its port inside the buffer.
pub open spec fn socks5_request_fits(buf: Seq<u8>) -> bool {
    &&& buf.len() == 256
    &&& (buf[0] == 5 && buf[1] == 1 && buf[3] == 3 ==> buf[4] <= 249)
}

/// Whether the request buffer holds what the request needs.
pub fn socks5_request_in_buffer(buf: &[u8]) -> (r: bool)
    ensures
        r == socks5_request_fits(buf@),
{
    buf.len() == 256 && !(buf[0] == 5 && buf[1] == 1 && buf[3] == 3 && buf[4] > 249)
}

/// A big-endian 16-bit number.
pub open spec fn be_u16(hi: u8, lo: u8) -> u16 {
    (hi as int * 256 + lo as int) as u16
}

/// The dotted text of an IPv4 address.
pub open spec fn dotted_ipv4(a: u8, b: u8, c: u8, d: u8) -> Seq<char> {
    decimal(a as nat) + "."@ + decimal(b as nat) + "."@ + decimal(c as nat) + "."@ + decimal(d as nat)
}

/// The target of a SOCKS5 connect request read into `buf`: none unless it
/// is a version 5 connect naming an IPv4 address or a domain name.
pub open spec fn socks5_target_of(buf: Seq<u8>) -> Option<(Seq<char>, u16)> {
    if buf[0] != 5 || buf[1] != 1 {
        None
    } else if buf[3] == 1 {
        Some((dotted_ipv4(buf[4], buf[5], buf[6], buf[7]), be_u16(buf[8], buf[9])))
    } else if buf[3] == 3 {
        let len = buf[4] as int;
        Some((utf8_lossy_text(buf.subrange(5, 5 + len)), be_u16(buf[5 + len], buf[6 + len])))
    } else {
        None
    }
}

pub fn socks5_target(buf: &[u8]) -> (r: Option<(String, u16)>)
    requires
        socks5_request_fits(buf@),
    ensures
        match socks5_target_of(buf@) {
            Some((h, p)) => r is Some && r->Some_0.0@ == h && r->Some_0.1 == p,
            None => r is None,
        },
{
    if buf[0] != 5 || buf[1] != 1 {
        return None;
    }
    if buf[3] == 1 {
        let mut v: Vec<char> = Vec::new();
        push_decimal(&mut v, buf[4] as u64);
        push_str(&mut v, ".");
        push_decimal(&mut v, buf[5] as u64);
        push_str(&mut v, ".");
        push_decimal(&mut v, buf[6] as u64);
        push_str(&mut v, ".");
        push_decimal(&mut v, buf[7] as u64);
        assert(v@ =~= dotted_ipv4(buf@[4], buf@[5], buf@[6], buf@[7]));
        let port: u16 = (buf[8] as u16) * 256 + buf[9] as u16;
        Some((string_from_chars(v.as_slice()), port))
    } else if buf[3] == 3 {
        let len = buf[4] as usize;
        let host = utf8_lossy(&buf[5..5 + len]);
        let port: u16 = (buf[5 + len] as u16) * 256 + buf[6 + len] as u16;
        Some((host, port))
    } else {
        None
    }
}

} // verus!
