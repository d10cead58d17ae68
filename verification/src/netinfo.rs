//! What a machine says about itself on the network: its name, the IPv4
//! addresses it can be reached at, and the address it binds to.
use crate::sorting::{sort_by_name, sort_strings, string_key};
use crate::text::{
    decimal, decimal_string, join_strings, joined, nonblank, nonblank_string, push_str, str_eq,
    string_of, trim, trimmed, views,
};
use vstd::prelude::*;

verus! {

/// The address that means "every interface".
pub open spec fn any_address() -> Seq<char> {
    "0.0.0.0"@
}

/// The address to bind: the configured one trimmed, or every interface when
/// it is blank.
pub fn normalized_bind_ip(bind_ip: &str) -> (ip: String)
    ensures
        ip@ == (if trimmed(bind_ip@).len() == 0 {
            any_address()
        } else {
            trimmed(bind_ip@)
        }),
{
    let t = trim(bind_ip);
    if t.as_str().is_empty() {
        string_of("0.0.0.0")
    } else {
        t
    }
}

/// The addresses a receiver bound to `bind_ip` announces: that address, or
/// every local address when it binds to every interface.
pub fn advertised_ipv4_addresses_for(bind_ip: &str, local_ips: Vec<String>) -> (addresses: Vec<String>)
    ensures
        bind_ip@ != any_address() ==> addresses@.len() == 1 && addresses@[0]@ == bind_ip@,
        bind_ip@ == any_address() ==> addresses@ == local_ips@,
{
    if !str_eq(bind_ip, "0.0.0.0") {
        let mut addresses: Vec<String> = Vec::new();
        addresses.push(string_of(bind_ip));
        return addresses;
    }
    local_ips
}

/// The local addresses for display, or a note that there are none.
pub fn local_ipv4_summary(local_ips: &Vec<String>) -> (summary: String)
    ensures
        summary@ == (if local_ips@.len() == 0 {
            "Local IP unavailable"@
        } else {
            joined(views(local_ips@), "  |  "@)
        }),
{
    if local_ips.len() == 0 {
        string_of("Local IP unavailable")
    } else {
        join_strings(local_ips, "  |  ")
    }
}

/// The first local address, or `Unavailable`.
pub fn local_primary_ipv4(local_ips: &Vec<String>) -> (ip: String)
    ensures
        ip@ == (if local_ips@.len() == 0 {
            "Unavailable"@
        } else {
            local_ips@[0]@
        }),
{
    if local_ips.len() == 0 {
        string_of("Unavailable")
    } else {
        string_of(local_ips[0].as_str())
    }
}

/// The first of two optional names that is present.
pub open spec fn first_present(a: Option<Seq<char>>, b: Option<Seq<char>>) -> Option<Seq<char>> {
    match a {
        Some(x) => Some(x),
        None => b,
    }
}

/// The name from the environment: `COMPUTERNAME` when it is set (even to a
/// blank value), `HOSTNAME` otherwise; blank names do not count.
pub open spec fn env_name(computername: Option<Seq<char>>, hostname: Option<Seq<char>>) -> Option<Seq<char>> {
    match computername {
        Some(c) => nonblank(c),
        None => match hostname {
            Some(h) => nonblank(h),
            None => None,
        },
    }
}

/// The machine name from what the platform offers: on Windows the
/// `COMPUTERNAME` variable, on Unix the contents of `/etc/hostname`, then the
/// environment; each trimmed, blank ones skipped; `unknown` when none is left.
pub open spec fn machine_name_of(
    windows_name: Option<Seq<char>>,
    etc_hostname: Option<Seq<char>>,
    computername: Option<Seq<char>>,
    hostname: Option<Seq<char>>,
) -> Seq<char> {
    let from_windows = match windows_name {
        Some(w) => nonblank(w),
        None => None,
    };
    let from_file = match etc_hostname {
        Some(f) => nonblank(f),
        None => None,
    };
    match first_present(first_present(from_windows, from_file), env_name(computername, hostname)) {
        Some(name) => name,
        None => "unknown"@,
    }
}

/// The view of an optional string.
pub open spec fn opt_view(s: Option<String>) -> Option<Seq<char>> {
    match s {
        Some(x) => Some(x@),
        None => None,
    }
}

fn nonblank_of(s: &Option<String>) -> (name: Option<String>)
    ensures
        match (name, s) {
            (Some(n), Some(x)) => nonblank(x@) == Some(n@),
            (None, Some(x)) => nonblank(x@) is None,
            (None, None) => true,
            _ => false,
        },
{
    match s {
        Some(x) => nonblank_string(x.as_str()),
        None => None,
    }
}

/// The name this machine goes by.
pub fn local_machine_name(
    windows_name: &Option<String>,
    etc_hostname: &Option<String>,
    computername: &Option<String>,
    hostname: &Option<String>,
) -> (name: String)
    ensures
        name@ == machine_name_of(
            opt_view(*windows_name),
            opt_view(*etc_hostname),
            opt_view(*computername),
            opt_view(*hostname),
        ),
{
    if let Some(n) = nonblank_of(windows_name) {
        return n;
    }
    if let Some(n) = nonblank_of(etc_hostname) {
        return n;
    }
    let from_env = match computername {
        Some(_) => nonblank_of(computername),
        None => nonblank_of(hostname),
    };
    match from_env {
        Some(n) => n,
        None => string_of("unknown"),
    }
}

/// The dotted-decimal text of an IPv4 address.
pub open spec fn dotted(octets: Seq<u8>) -> Seq<char> {
    decimal(octets[0] as nat) + "."@ + decimal(octets[1] as nat) + "."@ + decimal(octets[2] as nat) + "."@
        + decimal(octets[3] as nat)
}

/// An address a peer on the local network can use: private
/// (10/8, 172.16/12, 192.168/16), not loopback (127/8), not link-local
/// (169.254/16).
pub open spec fn reachable_private(octets: Seq<u8>) -> bool {
    let private = octets[0] == 10 || (octets[0] == 172 && 16 <= octets[1] && octets[1] < 32) || (octets[0]
        == 192 && octets[1] == 168);
    let loopback = octets[0] == 127;
    let link_local = octets[0] == 169 && octets[1] == 254;
    private && !loopback && !link_local
}

/// The dotted-decimal text of an IPv4 address.
pub fn ipv4_text(octets: [u8; 4]) -> (text: String)
    ensures
        text@ == dotted(octets@),
{
    let mut text = decimal_string(octets[0] as u64);
    text.push('.');
    let b = decimal_string(octets[1] as u64);
    push_str(&mut text, b.as_str());
    text.push('.');
    let c = decimal_string(octets[2] as u64);
    push_str(&mut text, c.as_str());
    text.push('.');
    let d = decimal_string(octets[3] as u64);
    push_str(&mut text, d.as_str());
    proof {
        reveal_strlit(".");
    }
    assert(text@ =~= dotted(octets@));
    text
}

/// The texts of the usable addresses among `addresses`, each once, in the
/// order first seen.
pub open spec fn usable_texts(addresses: Seq<[u8; 4]>) -> Seq<Seq<char>>
    decreases addresses.len(),
{
    if addresses.len() == 0 {
        Seq::empty()
    } else {
        let earlier = usable_texts(addresses.drop_last());
        let a = addresses.last()@;
        if reachable_private(a) && !earlier.contains(dotted(a)) {
            earlier.push(dotted(a))
        } else {
            earlier
        }
    }
}

/// The local IPv4 addresses worth announcing, sorted: the private ones that
/// are neither loopback nor link-local, each once.
pub fn local_ipv4_addresses(interfaces: &Vec<[u8; 4]>) -> (ips: Vec<String>)
    ensures
        exists|found: Seq<String>|
            views(found) == usable_texts(interfaces@) && ips@ == #[trigger] sort_by_name(found, string_key()),
{
    let mut found: Vec<String> = Vec::new();
    let mut i: usize = 0;
    while i < interfaces.len()
        invariant
            i <= interfaces@.len(),
            views(found@) == usable_texts(interfaces@.take(i as int)),
        decreases interfaces@.len() - i,
    {
        let a = interfaces[i];
        proof {
            assert(interfaces@.take(i + 1).drop_last() =~= interfaces@.take(i as int));
            assert(interfaces@.take(i + 1).last() == a);
        }
        let private = a[0] == 10 || (a[0] == 172 && 16 <= a[1] && a[1] < 32) || (a[0] == 192 && a[1]
            == 168);
        let loopback = a[0] == 127;
        let link_local = a[0] == 169 && a[1] == 254;
        if private && !loopback && !link_local {
            let text = ipv4_text(a);
            let mut seen = false;
            let mut j: usize = 0;
            while j < found.len()
                invariant
                    j <= found@.len(),
                    seen == exists|q: int| 0 <= q < j && (#[trigger] found@[q])@ == text@,
                decreases found@.len() - j,
            {
                if str_eq(found[j].as_str(), text.as_str()) {
                    seen = true;
                }
                j += 1;
            }
            proof {
                let v = views(found@);
                if seen {
                    let q = choose|q: int| 0 <= q < found@.len() && (#[trigger] found@[q])@ == text@;
                    assert(v[q] == text@);
                } else {
                    assert forall|q: int| 0 <= q < v.len() implies v[q] != text@ by {
                        assert(v[q] == found@[q]@);
                    }
                }
            }
            if !seen {
                let ghost before = found@;
                found.push(text);
                assert(views(found@) =~= views(before).push(dotted(a@)));
            }
        }
        i += 1;
    }
    assert(interfaces@.take(interfaces@.len() as int) =~= interfaces@);
    let ghost found_seq = found@;
    let ips = sort_strings(found);
    assert(ips@ == sort_by_name(found_seq, string_key()));
    ips
}

/// Where a receiver says it listens: the port alone when it binds every
/// interface and has no address, else each address with the port.
pub open spec fn listening_text(bind_ip: Seq<char>, port: u16, local_ips: Seq<Seq<char>>) -> Seq<char> {
    let p = decimal(port as nat);
    if bind_ip == any_address() {
        if local_ips.len() == 0 {
            "Receiver listening on port "@ + p + "."@
        } else {
            "Receiver listening on "@ + joined(
                local_ips.map_values(|ip: Seq<char>| ip + ":"@ + p),
                ", "@,
            ) + "."@
        }
    } else {
        "Receiver listening on "@ + bind_ip + ":"@ + p + "."@
    }
}

/// The status line of a receiver that started listening.
pub fn listening_message(bind_ip: &str, control_port: u16, local_ips: &Vec<String>) -> (text: String)
    ensures
        text@ == listening_text(bind_ip@, control_port, views(local_ips@)),
{
    let p = decimal_string(control_port as u64);
    let mut text = string_of("Receiver listening on ");
    if str_eq(bind_ip, "0.0.0.0") {
        if local_ips.len() == 0 {
            text = string_of("Receiver listening on port ");
            push_str(&mut text, p.as_str());
        } else {
            let mut with_ports: Vec<String> = Vec::new();
            let mut i: usize = 0;
            while i < local_ips.len()
                invariant
                    i <= local_ips@.len(),
                    p@ == decimal(control_port as nat),
                    with_ports@.len() == i,
                    views(with_ports@) == views(local_ips@.take(i as int)).map_values(
                        |ip: Seq<char>| ip + ":"@ + p@,
                    ),
                decreases local_ips@.len() - i,
            {
                let mut entry = string_of(local_ips[i].as_str());
                push_str(&mut entry, ":");
                push_str(&mut entry, p.as_str());
                let ghost before = with_ports@;
                let ghost expected = local_ips@[i as int]@ + ":"@ + p@;
                assert(entry@ == expected);
                with_ports.push(entry);
                i += 1;
                proof {
                    let f = |ip: Seq<char>| ip + ":"@ + p@;
                    let lhs = views(with_ports@);
                    let rhs = views(local_ips@.take(i as int)).map_values(f);
                    assert(lhs.len() == rhs.len());
                    assert forall|q: int| 0 <= q < lhs.len() implies lhs[q] == rhs[q] by {
                        if q < i - 1 {
                            assert(lhs[q] == views(before)[q]);
                            assert(views(local_ips@.take(i as int))[q] == views(local_ips@.take(i - 1))[q]);
                        } else {
                            assert(lhs[q] == expected);
                        }
                    }
                    assert(lhs =~= rhs);
                }
            }
            assert(local_ips@.take(local_ips@.len() as int) =~= local_ips@);
            let joined_text = join_strings(&with_ports, ", ");
            push_str(&mut text, joined_text.as_str());
        }
    } else {
        push_str(&mut text, bind_ip);
        push_str(&mut text, ":");
        push_str(&mut text, p.as_str());
    }
    push_str(&mut text, ".");
    text
}

} // verus!
