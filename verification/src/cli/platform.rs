//! The commands that set up the tunnel device and its routes.

use crate::cli::error::{Error, Failure};
use crate::text;
use vstd::prelude::*;

verus! {

/// The operating systems that are told apart.
#[derive(Debug, Clone, Copy, PartialEq, Eq, Structural)]
pub enum Os {
    /// macOS.
    MacOs,
    /// Linux.
    Linux,
    /// Any other.
    Other,
}

/// A command to run, and what to report where it fails.
pub struct CommandLine {
    /// The program.
    pub program: String,
    /// Its arguments.
    pub args: Vec<String>,
    /// What to report where it fails.
    pub on_failure: String,
}

/// The texts of a list of arguments.
pub open spec fn texts(args: Seq<String>) -> Seq<Seq<char>> {
    args.map_values(|s: String| s@)
}

impl CommandLine {
    /// Whether this is the given command.
    pub open spec fn is(
        self,
        program: Seq<char>,
        args: Seq<Seq<char>>,
        on_failure: Seq<char>,
    ) -> bool {
        &&& self.program@ == program
        &&& texts(self.args@) == args
        &&& self.on_failure@ == on_failure
    }
}

fn arguments(a: &str, b: &str, c: &str) -> (r: Vec<String>)
    ensures
        texts(r@) == seq![a@, b@, c@],
{
    let mut r: Vec<String> = Vec::new();
    r.push(a.to_string());
    r.push(b.to_string());
    r.push(c.to_string());
    assert(texts(r@) =~= seq![a@, b@, c@]);
    r
}

fn add_argument(args: &mut Vec<String>, a: &str)
    ensures
        texts(final(args)@) == texts(old(args)@).push(a@),
{
    args.push(a.to_string());
    assert(texts(args@) =~= texts(old(args)@).push(a@));
}

/// How the device is set up on macOS.
pub fn configure_tun_macos(name: &str, local_ip: &str, peer_ip: &str) -> (r: Vec<CommandLine>)
    ensures
        r@.len() == 1,
        r@[0].is(
            "ifconfig"@,
            seq![name@, local_ip@, peer_ip@],
            "ifconfig "@ + name@ + " "@ + local_ip@ + " "@ + peer_ip@ + " failed"@,
        ),
{
    let on_failure = "ifconfig ".to_string().concat(name).concat(" ").concat(local_ip).concat(
        " ",
    ).concat(peer_ip).concat(" failed");
    let mut r: Vec<CommandLine> = Vec::new();
    r.push(
        CommandLine {
            program: "ifconfig".to_string(),
            args: arguments(name, local_ip, peer_ip),
            on_failure,
        },
    );
    r
}

/// How the device is set up on Linux.
pub fn configure_tun_linux(name: &str, local_ip: &str) -> (r: Vec<CommandLine>)
    ensures
        r@.len() == 2,
        r@[0].is(
            "ip"@,
            seq!["addr"@, "add"@, local_ip@ + "/32"@, "dev"@, name@],
            "ip addr add failed for "@ + name@,
        ),
        r@[1].is(
            "ip"@,
            seq!["link"@, "set"@, name@, "up"@],
            "ip link set up failed for "@ + name@,
        ),
{
    let cidr = local_ip.to_string().concat("/32");
    let mut first = arguments("addr", "add", cidr.as_str());
    add_argument(&mut first, "dev");
    add_argument(&mut first, name);
    assert(texts(first@) =~= seq!["addr"@, "add"@, local_ip@ + "/32"@, "dev"@, name@]);
    let mut second = arguments("link", "set", name);
    add_argument(&mut second, "up");
    assert(texts(second@) =~= seq!["link"@, "set"@, name@, "up"@]);
    let mut r: Vec<CommandLine> = Vec::new();
    r.push(
        CommandLine {
            program: "ip".to_string(),
            args: first,
            on_failure: "ip addr add failed for ".to_string().concat(name),
        },
    );
    r.push(
        CommandLine {
            program: "ip".to_string(),
            args: second,
            on_failure: "ip link set up failed for ".to_string().concat(name),
        },
    );
    r
}

/// How the device is set up on an operating system.
pub open spec fn sets_up(
    os: Os,
    name: Seq<char>,
    local_ip: Seq<char>,
    peer_ip: Seq<char>,
    r: Result<Vec<CommandLine>, Error>,
) -> bool {
    match os {
        Os::MacOs => {
            &&& r matches Ok(c) && c@.len() == 1
            &&& r->Ok_0@[0].is(
                "ifconfig"@,
                seq![name, local_ip, peer_ip],
                "ifconfig "@ + name + " "@ + local_ip + " "@ + peer_ip + " failed"@,
            )
        },
        Os::Linux => {
            &&& r matches Ok(c) && c@.len() == 2
            &&& r->Ok_0@[0].is(
                "ip"@,
                seq!["addr"@, "add"@, local_ip + "/32"@, "dev"@, name],
                "ip addr add failed for "@ + name,
            )
            &&& r->Ok_0@[1].is(
                "ip"@,
                seq!["link"@, "set"@, name, "up"@],
                "ip link set up failed for "@ + name,
            )
        },
        Os::Other => r matches Err(e) && e@ == Failure::Server(
            "TUN auto-configuration not implemented for this OS"@,
        ),
    }
}

/// How the device is set up on an operating system.
pub fn configure_tun(os: Os, name: &str, local_ip: &str, peer_ip: &str) -> (r: Result<
    Vec<CommandLine>,
    Error,
>)
    ensures
        sets_up(os, name@, local_ip@, peer_ip@, r),
{
    match os {
        Os::MacOs => Ok(configure_tun_macos(name, local_ip, peer_ip)),
        Os::Linux => Ok(configure_tun_linux(name, local_ip)),
        Os::Other => Err(
            Error::Server("TUN auto-configuration not implemented for this OS".to_string()),
        ),
    }
}

/// How a route into the tunnel is set on macOS.
pub fn add_route_macos(dest: &str, tun_name: &str) -> (r: CommandLine)
    ensures
        r.is(
            "route"@,
            seq!["-n"@, "add"@, "-net"@, dest@, "-interface"@, tun_name@],
            "route add -net "@ + dest@ + " -interface "@ + tun_name@ + " failed"@,
        ),
{
    let mut args = arguments("-n", "add", "-net");
    add_argument(&mut args, dest);
    add_argument(&mut args, "-interface");
    add_argument(&mut args, tun_name);
    assert(texts(args@) =~= seq!["-n"@, "add"@, "-net"@, dest@, "-interface"@, tun_name@]);
    CommandLine {
        program: "route".to_string(),
        args,
        on_failure: "route add -net ".to_string().concat(dest).concat(" -interface ").concat(
            tun_name,
        ).concat(" failed"),
    }
}

/// How a route into the tunnel is set on Linux.
pub fn add_route_linux(dest: &str, tun_name: &str) -> (r: CommandLine)
    ensures
        r.is(
            "ip"@,
            seq!["route"@, "replace"@, dest@, "dev"@, tun_name@],
            "ip route replace "@ + dest@ + " dev "@ + tun_name@ + " failed"@,
        ),
{
    let mut args = arguments("route", "replace", dest);
    add_argument(&mut args, "dev");
    add_argument(&mut args, tun_name);
    assert(texts(args@) =~= seq!["route"@, "replace"@, dest@, "dev"@, tun_name@]);
    CommandLine {
        program: "ip".to_string(),
        args,
        on_failure: "ip route replace ".to_string().concat(dest).concat(" dev ").concat(
            tun_name,
        ).concat(" failed"),
    }
}

/// How a route into the tunnel is set on an operating system.
pub open spec fn leads_into_tunnel(
    os: Os,
    dest: Seq<char>,
    tun_name: Seq<char>,
    r: Result<CommandLine, Error>,
) -> bool {
    match os {
        Os::MacOs => r matches Ok(c) && c.is(
            "route"@,
            seq!["-n"@, "add"@, "-net"@, dest, "-interface"@, tun_name],
            "route add -net "@ + dest + " -interface "@ + tun_name + " failed"@,
        ),
        Os::Linux => r matches Ok(c) && c.is(
            "ip"@,
            seq!["route"@, "replace"@, dest, "dev"@, tun_name],
            "ip route replace "@ + dest + " dev "@ + tun_name + " failed"@,
        ),
        Os::Other => r matches Err(e) && e@ == Failure::Server(
            "route management not implemented for this OS"@,
        ),
    }
}

/// How a route into the tunnel is set on an operating system.
pub fn add_route(os: Os, dest: &str, tun_name: &str) -> (r: Result<CommandLine, Error>)
    ensures
        leads_into_tunnel(os, dest@, tun_name@, r),
{
    match os {
        Os::MacOs => Ok(add_route_macos(dest, tun_name)),
        Os::Linux => Ok(add_route_linux(dest, tun_name)),
        Os::Other => Err(
            Error::Server("route management not implemented for this OS".to_string()),
        ),
    }
}

/// Reads an IPv4 address.
pub fn parse_ipv4(s: &str) -> (r: Result<[u8; 4], Error>)
    ensures
        match r {
            Ok(ip) => s@ == text::dotted(ip@),
            Err(e) => !text::is_dotted(s@) && e@ == Failure::Server("invalid IPv4: "@ + s@),
        },
{
    match text::parse_ipv4(s) {
        Some(ip) => Ok(ip),
        None => Err(Error::Server("invalid IPv4: ".to_string().concat(s))),
    }
}

/// Setting up the device gives it the node's address: together with that of the far end on
/// macOS, and as a host of its own on Linux, where the device is then switched on. On any
/// other system it fails.
pub proof fn law_device_gets_its_address(
    os: Os,
    name: Seq<char>,
    local_ip: Seq<char>,
    peer_ip: Seq<char>,
    r: Result<Vec<CommandLine>, Error>,
)
    requires
        sets_up(os, name, local_ip, peer_ip, r),
    ensures
        r is Err <==> os is Other,
        os is MacOs ==> {
            let c = r->Ok_0@;
            &&& c.len() == 1
            &&& c[0].program@ == "ifconfig"@
            &&& c[0].args@.len() == 3
            &&& c[0].args@[0]@ == name && c[0].args@[1]@ == local_ip && c[0].args@[2]@ == peer_ip
        },
        os is Linux ==> {
            let c = r->Ok_0@;
            &&& c.len() == 2
            &&& c[0].program@ == "ip"@ && c[1].program@ == "ip"@
            &&& c[0].args@.len() == 5
            &&& c[0].args@[0]@ == "addr"@ && c[0].args@[1]@ == "add"@
            &&& c[0].args@[2]@ == local_ip + "/32"@
            &&& c[0].args@[3]@ == "dev"@ && c[0].args@[4]@ == name
            &&& c[1].args@.len() == 4
            &&& c[1].args@[0]@ == "link"@ && c[1].args@[1]@ == "set"@
            &&& c[1].args@[2]@ == name && c[1].args@[3]@ == "up"@
        },
{
    if let Ok(c) = r {
        let first = texts(c@[0].args@);
        assert(first.len() == c@[0].args@.len());
        assert forall|k: int| 0 <= k < first.len() implies #[trigger] first[k]
            == c@[0].args@[k]@ by {}
        if os is Linux {
            let second = texts(c@[1].args@);
            assert(second.len() == c@[1].args@.len());
            assert forall|k: int| 0 <= k < second.len() implies #[trigger] second[k]
                == c@[1].args@[k]@ by {}
            assert(second[0] == "link"@ && second[1] == "set"@ && second[2] == name && second[3]
                == "up"@);
            assert(first[0] == "addr"@ && first[1] == "add"@ && first[2] == local_ip + "/32"@
                && first[3] == "dev"@ && first[4] == name);
        } else {
            assert(first[0] == name && first[1] == local_ip && first[2] == peer_ip);
        }
    }
}

/// A route for a network leads it into the tunnel's device, in place of another on Linux.
/// On any system but macOS and Linux it fails.
pub proof fn law_route_leads_into_tunnel(
    os: Os,
    dest: Seq<char>,
    tun_name: Seq<char>,
    r: Result<CommandLine, Error>,
)
    requires
        leads_into_tunnel(os, dest, tun_name, r),
    ensures
        r is Err <==> os is Other,
        os is MacOs ==> {
            let a = r->Ok_0.args@;
            &&& r->Ok_0.program@ == "route"@
            &&& a.len() == 6
            &&& a[0]@ == "-n"@ && a[1]@ == "add"@ && a[2]@ == "-net"@
            &&& a[3]@ == dest && a[4]@ == "-interface"@ && a[5]@ == tun_name
        },
        os is Linux ==> {
            let a = r->Ok_0.args@;
            &&& r->Ok_0.program@ == "ip"@
            &&& a.len() == 5
            &&& a[0]@ == "route"@ && a[1]@ == "replace"@
            &&& a[2]@ == dest && a[3]@ == "dev"@ && a[4]@ == tun_name
        },
{
    if let Ok(c) = r {
        let all = texts(c.args@);
        assert(all.len() == c.args@.len());
        assert forall|k: int| 0 <= k < all.len() implies #[trigger] all[k] == c.args@[k]@ by {}
        if os is Linux {
            assert(all[0] == "route"@ && all[1] == "replace"@ && all[2] == dest && all[3] == "dev"@
                && all[4] == tun_name);
        } else {
            assert(all[0] == "-n"@ && all[1] == "add"@ && all[2] == "-net"@ && all[3] == dest
                && all[4] == "-interface"@ && all[5] == tun_name);
        }
    }
}

} // verus!
