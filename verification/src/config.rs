use vstd::prelude::*;
use crate::string_map::{
    Pair, StringMap, lemma_map_of, lemma_sorted_distinct, lemma_sorted_listing_of_map, map_of, pairs_of,
    sorted_listing,
};
use crate::text::{join, join_strings, lex_lt, strings_of};

verus! {

/// OS-level configuration for guest instances.
#[derive(Debug, Clone)]
pub struct OsConfig {
    pub hostname: String,
    pub dns_servers: Vec<String>,
    pub ntp_servers: Vec<String>,
    pub sysctl: StringMap,
    pub environment: StringMap,
    pub swap_mb: u64,
    pub console: ConsoleConfig,
}

/// Console devices of a guest.
#[derive(Debug, Clone)]
pub struct ConsoleConfig {
    pub serial: bool,
    pub vga: bool,
    pub framebuffer_width: u32,
    pub framebuffer_height: u32,
}

/// The lines of `/etc/resolv.conf` for the given name servers.
pub open spec fn resolv_lines(servers: Seq<Seq<char>>) -> Seq<Seq<char>> {
    servers.map_values(|s: Seq<char>| "nameserver "@ + s)
}

/// The lines of `sysctl.conf` for the given settings, in order of key.
pub open spec fn sysctl_lines(settings: Map<Seq<char>, Seq<char>>) -> Seq<Seq<char>> {
    sorted_listing(settings).map_values(|p: Pair| p.0 + " = "@ + p.1)
}

/// The kernel boot parameters for the given console devices.
pub open spec fn cmdline_params(console: ConsoleConfig) -> Seq<Seq<char>> {
    (if console.serial { seq!["console=ttyS0,115200"@] } else { Seq::empty() })
        + (if console.vga { seq!["console=tty0"@] } else { Seq::empty() })
        + seq!["panic=10"@, "quiet"@]
}

/// `resolv.conf` has one line per DNS server, in order: line `i` is
/// `nameserver ` followed by server `i`.
pub proof fn lemma_resolv_lines_meaning(servers: Seq<Seq<char>>)
    ensures
        resolv_lines(servers).len() == servers.len(),
        forall|i: int| 0 <= i < servers.len() ==> #[trigger] resolv_lines(servers)[i] == "nameserver "@ + servers[i],
{
}

/// `sysctl.conf` has one line per setting, in strictly increasing order of
/// key: line `i` is `key = value` for the `i`-th key in that order, with the
/// value the settings give it, and every key of the settings has its line.
pub proof fn lemma_sysctl_lines_meaning(settings: Map<Seq<char>, Seq<char>>)
    requires
        settings.dom().finite(),
    ensures
        sysctl_lines(settings).len() == settings.len(),
        forall|i: int|
            0 <= i < sysctl_lines(settings).len() ==> {
                let k = #[trigger] sorted_listing(settings)[i].0;
                &&& settings.contains_key(k)
                &&& sysctl_lines(settings)[i] == k + " = "@ + settings[k]
            },
        forall|i: int, j: int|
            0 <= i < j < sysctl_lines(settings).len() ==> lex_lt(
                #[trigger] sorted_listing(settings)[i].0,
                #[trigger] sorted_listing(settings)[j].0,
            ),
        forall|k: Seq<char>|
            #[trigger] settings.contains_key(k) ==> exists|i: int|
                0 <= i < sysctl_lines(settings).len() && sorted_listing(settings)[i].0 == k,
{
    lemma_sorted_listing_of_map(settings);
    let l = sorted_listing(settings);
    lemma_map_of(l);
    lemma_sorted_distinct(l);
    assert forall|i: int| 0 <= i < sysctl_lines(settings).len() implies {
        let k = #[trigger] sorted_listing(settings)[i].0;
        &&& settings.contains_key(k)
        &&& sysctl_lines(settings)[i] == k + " = "@ + settings[k]
    } by {
        assert(map_of(l)[l[i].0] == l[i].1);
        assert(map_of(l).contains_key(l[i].0));
    }
}

/// The boot parameters: the serial console first where it is on, then the
/// VGA console where it is on, then `panic=10` and `quiet`, last.
pub proof fn lemma_cmdline_params_meaning(console: ConsoleConfig)
    ensures
        cmdline_params(console).len() == 2 + (if console.serial { 1int } else { 0int }) + (if console.vga {
            1int
        } else {
            0int
        }),
        console.serial ==> cmdline_params(console)[0] == "console=ttyS0,115200"@,
        console.vga ==> cmdline_params(console)[if console.serial { 1int } else { 0int }] == "console=tty0"@,
        cmdline_params(console)[cmdline_params(console).len() - 2] == "panic=10"@,
        cmdline_params(console).last() == "quiet"@,
{
}

impl Default for OsConfig {
    fn default() -> (c: Self)
        ensures
            c.hostname@ == "plaza-vm"@,
            strings_of(c.dns_servers@) == seq!["1.1.1.1"@, "8.8.8.8"@],
            strings_of(c.ntp_servers@) == seq!["pool.ntp.org"@],
            c.sysctl@ == map![
                "net.ipv4.ip_forward"@ => "0"@,
                "kernel.panic"@ => "10"@,
                "vm.swappiness"@ => "10"@,
            ],
            c.environment@ == Map::<Seq<char>, Seq<char>>::empty(),
            c.swap_mb == 0,
            c.console.serial,
            !c.console.vga,
            c.console.framebuffer_width == 1024,
            c.console.framebuffer_height == 768,
    {
        let mut dns_servers: Vec<String> = Vec::new();
        dns_servers.push(String::from_str("1.1.1.1"));
        dns_servers.push(String::from_str("8.8.8.8"));
        let mut ntp_servers: Vec<String> = Vec::new();
        ntp_servers.push(String::from_str("pool.ntp.org"));
        let mut sysctl = StringMap::new();
        sysctl.insert(String::from_str("net.ipv4.ip_forward"), String::from_str("0"));
        sysctl.insert(String::from_str("kernel.panic"), String::from_str("10"));
        sysctl.insert(String::from_str("vm.swappiness"), String::from_str("10"));
        let c = OsConfig {
            hostname: String::from_str("plaza-vm"),
            dns_servers,
            ntp_servers,
            sysctl,
            environment: StringMap::new(),
            swap_mb: 0,
            console: ConsoleConfig {
                serial: true,
                vga: false,
                framebuffer_width: 1024,
                framebuffer_height: 768,
            },
        };
        assert(strings_of(c.dns_servers@) =~= seq!["1.1.1.1"@, "8.8.8.8"@]);
        assert(strings_of(c.ntp_servers@) =~= seq!["pool.ntp.org"@]);
        assert(c.sysctl@ =~= map![
            "net.ipv4.ip_forward"@ => "0"@,
            "kernel.panic"@ => "10"@,
            "vm.swappiness"@ => "10"@,
        ]);
        c
    }
}

impl OsConfig {
    /// The content of `/etc/resolv.conf`: one `nameserver` line per DNS
    /// server, in order.
    pub fn resolv_conf(&self) -> (r: String)
        ensures
            r@ == join(resolv_lines(strings_of(self.dns_servers@)), "\n"@),
            r@ == join(
                Seq::new(self.dns_servers@.len(), |i: int| "nameserver "@ + self.dns_servers@[i]@),
                "\n"@,
            ),
    {
        proof {
            lemma_resolv_lines_meaning(strings_of(self.dns_servers@));
            assert(resolv_lines(strings_of(self.dns_servers@)) =~= Seq::new(
                self.dns_servers@.len(),
                |i: int| "nameserver "@ + self.dns_servers@[i]@,
            ));
        }
        let mut lines: Vec<String> = Vec::new();
        let mut i: usize = 0;
        while i < self.dns_servers.len()
            invariant
                i <= self.dns_servers@.len(),
                lines@.len() == i,
                strings_of(lines@) == resolv_lines(strings_of(self.dns_servers@)).take(i as int),
            decreases self.dns_servers@.len() - i,
        {
            let line = String::from_str("nameserver ").concat(self.dns_servers[i].as_str());
            lines.push(line);
            proof {
                let servers = strings_of(self.dns_servers@);
                assert(servers[i as int] == self.dns_servers@[i as int]@);
                assert(resolv_lines(servers)[i as int] == "nameserver "@ + servers[i as int]);
                assert(strings_of(lines@)[i as int] == line@);
                assert(strings_of(lines@) =~= resolv_lines(servers).take(i + 1));
            }
            i = i + 1;
        }
        proof {
            assert(resolv_lines(strings_of(self.dns_servers@)).take(i as int) =~= resolv_lines(
                strings_of(self.dns_servers@),
            ));
        }
        join_strings(&lines, "\n")
    }

    /// The content of `sysctl.conf`: one `key = value` line per setting, in
    /// increasing order of key.
    pub fn sysctl_conf(&self) -> (r: String)
        ensures
            r@ == join(sysctl_lines(self.sysctl@), "\n"@),
    {
        let sorted = self.sysctl.sorted_pairs();
        let ghost listing = pairs_of(sorted@);
        let mut lines: Vec<String> = Vec::new();
        let mut i: usize = 0;
        while i < sorted.len()
            invariant
                listing == pairs_of(sorted@),
                listing == sorted_listing(self.sysctl@),
                i <= sorted@.len(),
                lines@.len() == i,
                strings_of(lines@) == sysctl_lines(self.sysctl@).take(i as int),
            decreases sorted@.len() - i,
        {
            let line = sorted[i].0.clone().concat(" = ").concat(sorted[i].1.as_str());
            lines.push(line);
            proof {
                assert(listing[i as int] == (sorted@[i as int].0@, sorted@[i as int].1@));
                assert(sysctl_lines(self.sysctl@)[i as int] == listing[i as int].0 + " = "@
                    + listing[i as int].1);
                assert(strings_of(lines@)[i as int] == line@);
                assert(strings_of(lines@) =~= sysctl_lines(self.sysctl@).take(i + 1));
            }
            i = i + 1;
        }
        proof {
            assert(sysctl_lines(self.sysctl@).take(i as int) =~= sysctl_lines(self.sysctl@));
        }
        join_strings(&lines, "\n")
    }

    /// The kernel boot parameters: the serial console, then the VGA console,
    /// where enabled, then `panic=10` and `quiet`, separated by spaces.
    pub fn cmdline(&self) -> (r: String)
        ensures
            r@ == join(cmdline_params(self.console), " "@),
            r@ == join(
                (if self.console.serial { seq!["console=ttyS0,115200"@] } else { Seq::empty() }) + (
                if self.console.vga {
                    seq!["console=tty0"@]
                } else {
                    Seq::empty()
                }) + seq!["panic=10"@, "quiet"@],
                " "@,
            ),
    {
        let mut params: Vec<String> = Vec::new();
        if self.console.serial {
            params.push(String::from_str("console=ttyS0,115200"));
        }
        if self.console.vga {
            params.push(String::from_str("console=tty0"));
        }
        params.push(String::from_str("panic=10"));
        params.push(String::from_str("quiet"));
        assert(strings_of(params@) =~= cmdline_params(self.console));
        join_strings(&params, " ")
    }
}

} // verus!
