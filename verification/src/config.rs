//! The resolver-configuration model: nameserver entries, the `resolv.conf`
//! line parser, and the entries each fallback tier yields.

use vstd::prelude::*;

use crate::ip::IpAddress;
use crate::ip::parse_ip_chars;
use crate::ip::spec_parse_ip;
use crate::text::chars_of;
use crate::text::lemma_chars_deep_view;
use crate::text::lines_of;
use crate::text::split_lines;
use crate::text::trim;
use crate::text::trim_chars;

verus! {

/// Transport protocol of one nameserver entry.
#[derive(Clone, Copy, PartialEq, Eq, Structural, Debug)]
pub enum Protocol {
    Udp,
    Tcp,
}

/// One nameserver endpoint: address, port and transport.
#[derive(Clone, Copy, PartialEq, Eq, Structural, Debug)]
pub struct NameServerEntry {
    pub ip: IpAddress,
    pub port: u16,
    pub protocol: Protocol,
}

/// An ordered collection of nameserver entries.
#[derive(Clone, Debug)]
pub struct DnsConfig {
    name_servers: Vec<NameServerEntry>,
}

impl View for DnsConfig {
    type V = Seq<NameServerEntry>;

    closed spec fn view(&self) -> Seq<NameServerEntry> {
        self.name_servers@
    }
}

impl DnsConfig {
    /// An empty configuration.
    pub fn new() -> (c: Self)
        ensures
            c@ == Seq::<NameServerEntry>::empty(),
    {
        let c = DnsConfig { name_servers: Vec::new() };
        proof {
            assert(c@ =~= Seq::<NameServerEntry>::empty());
        }
        c
    }

    /// Append one entry.
    pub fn add_name_server(&mut self, entry: NameServerEntry)
        ensures
            final(self)@ == old(self)@.push(entry),
    {
        self.name_servers.push(entry);
    }

    /// The entries, in insertion order.
    pub fn name_servers(&self) -> (r: &Vec<NameServerEntry>)
        ensures
            r@ == self@,
    {
        &self.name_servers
    }
}

// ---------------------------------------------------------------------------
// The resolv.conf line parser
// ---------------------------------------------------------------------------

/// The literal `nameserver ` directive prefix, trailing space included.
pub open spec fn nameserver_prefix() -> Seq<char> {
    seq!['n', 'a', 'm', 'e', 's', 'e', 'r', 'v', 'e', 'r', ' ']
}

/// The address one line contributes: the trimmed line must start with
/// `nameserver `, and what follows the prefix, trimmed again, must parse as
/// an IP address.  Anything else contributes nothing.
#[verifier::opaque]
pub open spec fn line_ip(line: Seq<char>) -> Option<IpAddress> {
    let t = trim(line);
    if t.len() >= 11 && t.take(11) == nameserver_prefix() {
        spec_parse_ip(trim(t.skip(11)))
    } else {
        None
    }
}

/// The addresses one line contributes, as a sequence of zero or one.
pub open spec fn line_ips(line: Seq<char>) -> Seq<IpAddress> {
    match line_ip(line) {
        Some(ip) => seq![ip],
        None => Seq::<IpAddress>::empty(),
    }
}

/// The addresses a sequence of lines contributes, in order.
pub open spec fn ips_of_lines(lines: Seq<Seq<char>>) -> Seq<IpAddress>
    decreases lines.len(),
{
    if lines.len() == 0 {
        Seq::<IpAddress>::empty()
    } else {
        ips_of_lines(lines.drop_last()).add(line_ips(lines.last()))
    }
}

/// All nameserver addresses of a `resolv.conf` text, in order of appearance.
pub open spec fn nameserver_ips(text: Seq<char>) -> Seq<IpAddress> {
    ips_of_lines(split_lines(text))
}

/// The two entries one address yields: UDP then TCP, both on port 53.
pub open spec fn entries_for_ip(ip: IpAddress) -> Seq<NameServerEntry> {
    seq![
        NameServerEntry { ip, port: 53, protocol: Protocol::Udp },
        NameServerEntry { ip, port: 53, protocol: Protocol::Tcp },
    ]
}

/// The entries a sequence of addresses yields, two per address, in order.
pub open spec fn entries_for_ips(ips: Seq<IpAddress>) -> Seq<NameServerEntry>
    decreases ips.len(),
{
    if ips.len() == 0 {
        Seq::<NameServerEntry>::empty()
    } else {
        entries_for_ips(ips.drop_last()).add(entries_for_ip(ips.last()))
    }
}

/// Two entries come out of every address.
pub proof fn lemma_entries_count(ips: Seq<IpAddress>)
    ensures
        entries_for_ips(ips).len() == 2 * ips.len(),
    decreases ips.len(),
{
    if ips.len() > 0 {
        lemma_entries_count(ips.drop_last());
    }
}

/// Appending addresses appends their entries.
pub proof fn lemma_entries_for_ips_add(a: Seq<IpAddress>, b: Seq<IpAddress>)
    ensures
        entries_for_ips(a.add(b)) == entries_for_ips(a).add(entries_for_ips(b)),
    decreases b.len(),
{
    if b.len() == 0 {
        assert(a.add(b) =~= a);
        assert(entries_for_ips(a).add(entries_for_ips(b)) =~= entries_for_ips(a));
    } else {
        lemma_entries_for_ips_add(a, b.drop_last());
        assert(a.add(b).drop_last() =~= a.add(b.drop_last()));
        assert(a.add(b).last() == b.last());
        assert(entries_for_ips(a).add(entries_for_ips(b.drop_last())).add(
            entries_for_ip(b.last()),
        ) =~= entries_for_ips(a).add(entries_for_ips(b)));
    }
}

/// Whether the trimmed line carries the `nameserver ` prefix.
fn has_nameserver_prefix(t: &Vec<char>) -> (r: bool)
    ensures
        r == (t@.len() >= 11 && t@.take(11) == nameserver_prefix()),
{
    if t.len() < 11 {
        return false;
    }
    let r = t[0] == 'n' && t[1] == 'a' && t[2] == 'm' && t[3] == 'e' && t[4] == 's' && t[5] == 'e'
        && t[6] == 'r' && t[7] == 'v' && t[8] == 'e' && t[9] == 'r' && t[10] == ' ';
    proof {
        if r {
            assert(t@.take(11) =~= nameserver_prefix());
        } else {
            assert(t@.take(11) != nameserver_prefix()) by {
                if t@.take(11) == nameserver_prefix() {
                    assert(t@.take(11)[0] == 'n' && t@.take(11)[1] == 'a' && t@.take(11)[2] == 'm'
                        && t@.take(11)[3] == 'e' && t@.take(11)[4] == 's' && t@.take(11)[5] == 'e'
                        && t@.take(11)[6] == 'r' && t@.take(11)[7] == 'v' && t@.take(11)[8] == 'e'
                        && t@.take(11)[9] == 'r' && t@.take(11)[10] == ' ');
                }
            }
        }
    }
    r
}

/// Copy of the elements of `v` from `a` on.
fn tail_chars(v: &Vec<char>, a: usize) -> (r: Vec<char>)
    requires
        a <= v.len(),
    ensures
        r@ == v@.skip(a as int),
{
    let mut r: Vec<char> = Vec::new();
    let mut i: usize = a;
    while i < v.len()
        invariant
            a <= i <= v.len(),
            r@ == v@.subrange(a as int, i as int),
        decreases v.len() - i,
    {
        r.push(v[i]);
        i = i + 1;
        proof {
            assert(r@ =~= v@.subrange(a as int, i as int));
        }
    }
    proof {
        assert(r@ =~= v@.skip(a as int));
    }
    r
}

/// The address one line of characters contributes, if any.
fn parse_line_ip(line: &Vec<char>) -> (r: Option<IpAddress>)
    ensures
        r == line_ip(line@),
{
    proof {
        reveal(line_ip);
    }
    let t = trim_chars(line);
    if !has_nameserver_prefix(&t) {
        return None;
    }
    let payload = trim_chars(&tail_chars(&t, 11));
    parse_ip_chars(&payload)
}

/// Parse every `nameserver` line of `content` and append its entries, one
/// UDP and one TCP entry per address, in order of appearance.  Lines that
/// carry another directive, comments, blank lines and unparseable addresses
/// are skipped.
#[verifier::rlimit(50)]
pub fn add_nameservers_from_resolv_conf(content: &str, config: &mut DnsConfig)
    ensures
        final(config)@ == old(config)@.add(entries_for_ips(nameserver_ips(content@))),
{
    let chars = chars_of(content);
    let lines = lines_of(&chars);
    let ghost text = content@;
    let ghost all = split_lines(text);
    let n = lines.len();
    let mut i: usize = 0;
    while i < n
        invariant
            i <= n,
            n == lines.len(),
            lines.deep_view() == all,
            all == split_lines(text),
            config@ == old(config)@.add(entries_for_ips(ips_of_lines(all.take(i as int)))),
        decreases n - i,
    {
        proof {
            lemma_chars_deep_view(lines@[i as int]);
            assert(lines@[i as int]@ == all[i as int]);
        }
        let ip = parse_line_ip(&lines[i]);
        let ghost prev = config@;
        match ip {
            Some(ip) => {
                config.add_name_server(NameServerEntry { ip, port: 53, protocol: Protocol::Udp });
                config.add_name_server(NameServerEntry { ip, port: 53, protocol: Protocol::Tcp });
                proof {
                    assert(line_ips(all[i as int]) =~= seq![ip]);
                    assert(seq![ip].drop_last() =~= Seq::<IpAddress>::empty());
                    assert(entries_for_ips(Seq::<IpAddress>::empty())
                        =~= Seq::<NameServerEntry>::empty());
                    assert(entries_for_ips(seq![ip]) =~= entries_for_ip(ip));
                    assert(config@ =~= prev.add(entries_for_ips(line_ips(all[i as int]))));
                }
            },
            None => {
                proof {
                    assert(line_ips(all[i as int]) =~= Seq::<IpAddress>::empty());
                    assert(entries_for_ips(Seq::<IpAddress>::empty())
                        =~= Seq::<NameServerEntry>::empty());
                    assert(config@ =~= prev.add(entries_for_ips(line_ips(all[i as int]))));
                }
            },
        }
        i = i + 1;
        proof {
            assert(all.take(i as int).drop_last() =~= all.take(i as int - 1));
            assert(all.take(i as int).last() == all[i as int - 1]);
            lemma_entries_for_ips_add(
                ips_of_lines(all.take(i as int - 1)),
                line_ips(all[i as int - 1]),
            );
            assert(ips_of_lines(all.take(i as int)) == ips_of_lines(all.take(i as int - 1)).add(
                line_ips(all[i as int - 1]),
            ));
            assert(prev.add(entries_for_ips(line_ips(all[i as int - 1]))) =~= old(config)@.add(
                entries_for_ips(ips_of_lines(all.take(i as int - 1))).add(
                    entries_for_ips(line_ips(all[i as int - 1])),
                ),
            ));
            assert(config@ =~= old(config)@.add(
                entries_for_ips(ips_of_lines(all.take(i as int))),
            ));
        }
    }
    proof {
        assert(all.take(n as int) =~= all);
    }
}

/// Append one address's pair of entries: UDP then TCP, both on port 53.
pub fn add_nameserver_for_ip(config: &mut DnsConfig, ip: IpAddress)
    ensures
        final(config)@ == old(config)@.add(entries_for_ip(ip)),
{
    let ghost prev = config@;
    config.add_name_server(NameServerEntry { ip, port: 53, protocol: Protocol::Udp });
    config.add_name_server(NameServerEntry { ip, port: 53, protocol: Protocol::Tcp });
    proof {
        assert(config@ =~= prev.add(entries_for_ip(ip)));
    }
}

// ---------------------------------------------------------------------------
// Laws of the line parser
// ---------------------------------------------------------------------------

/// Stripping a trailing carriage return does not change what a line
/// contributes: the line is trimmed before it is read.
pub proof fn lemma_line_ip_strip_cr(line: Seq<char>)
    ensures
        line_ip(crate::text::strip_cr(line)) == line_ip(line),
{
    reveal(line_ip);
    crate::text::lemma_trim_strip_cr(line);
}

/// What a first line and the remaining lines contribute, in order.
pub proof fn lemma_ips_of_lines_cons(x: Seq<char>, lines: Seq<Seq<char>>)
    ensures
        ips_of_lines(seq![x].add(lines)) == line_ips(x).add(ips_of_lines(lines)),
    decreases lines.len(),
{
    if lines.len() == 0 {
        assert(seq![x].add(lines) =~~= seq![x]);
        assert(seq![x].drop_last() =~~= Seq::<Seq<char>>::empty());
        assert(ips_of_lines(Seq::<Seq<char>>::empty()) =~= Seq::<IpAddress>::empty());
        assert(seq![x].last() == x);
        assert(ips_of_lines(seq![x]) == ips_of_lines(seq![x].drop_last()).add(line_ips(x)));
        assert(ips_of_lines(seq![x]) =~= line_ips(x));
        assert(line_ips(x).add(ips_of_lines(lines)) =~= line_ips(x));
    } else {
        lemma_ips_of_lines_cons(x, lines.drop_last());
        assert(seq![x].add(lines).drop_last() =~~= seq![x].add(lines.drop_last()));
        assert(seq![x].add(lines).last() == lines.last());
        assert(line_ips(x).add(ips_of_lines(lines.drop_last())).add(line_ips(lines.last())) =~=
            line_ips(x).add(ips_of_lines(lines)));
    }
}

/// One line at a time: a text made of one newline-free line, a newline and a
/// rest contributes what that line contributes — nothing, where its address
/// does not parse — followed by the contribution of the rest.  Parsing always
/// continues past a malformed line.
pub proof fn lemma_parse_line_by_line(line: Seq<char>, rest: Seq<char>)
    requires
        !line.contains('\n'),
    ensures
        nameserver_ips(line.add(seq!['\n']).add(rest)) == line_ips(line).add(nameserver_ips(rest)),
        line_ip(line) is None ==> nameserver_ips(line.add(seq!['\n']).add(rest)) == nameserver_ips(
            rest,
        ),
{
    crate::text::lemma_split_lines_prefix(line, rest);
    lemma_ips_of_lines_cons(crate::text::strip_cr(line), split_lines(rest));
    lemma_line_ip_strip_cr(line);
    if line_ip(line) is None {
        assert(line_ips(line) =~= Seq::<IpAddress>::empty());
        assert(line_ips(line).add(nameserver_ips(rest)) =~= nameserver_ips(rest));
    }
}

/// Lines that contribute nothing yield nothing.
pub proof fn lemma_ips_of_lines_all_none(lines: Seq<Seq<char>>)
    requires
        forall|i: int| 0 <= i < lines.len() ==> line_ip(#[trigger] lines[i]) is None,
    ensures
        ips_of_lines(lines).len() == 0,
    decreases lines.len(),
{
    if lines.len() > 0 {
        assert(forall|i: int|
            0 <= i < lines.drop_last().len() ==> lines.drop_last()[i] == lines[i]);
        lemma_ips_of_lines_all_none(lines.drop_last());
        assert(line_ips(lines.last()) =~= Seq::<IpAddress>::empty());
    }
}

/// A text whose every line, once trimmed, is blank or a `#` comment yields
/// no nameserver entries, and configuration construction then falls through
/// to the hardcoded default tier.
pub proof fn lemma_comment_lines_yield_default(text: Seq<char>)
    requires
        forall|i: int|
            0 <= i < split_lines(text).len() ==> trim(#[trigger] split_lines(text)[i]).len() == 0
                || trim(split_lines(text)[i])[0] == '#',
    ensures
        nameserver_ips(text).len() == 0,
        fallback_entries(Some(text)) == google_entries(),
{
    assert forall|i: int| 0 <= i < split_lines(text).len() implies line_ip(
        #[trigger] split_lines(text)[i],
    ) is None by {
        reveal(line_ip);
        let t = trim(split_lines(text)[i]);
        if t.len() >= 11 && t.take(11) == nameserver_prefix() {
            assert(t[0] == t.take(11)[0]);
            assert(t[0] == 'n');
        }
    }
    lemma_ips_of_lines_all_none(split_lines(text));
}

// ---------------------------------------------------------------------------
// The fallback tiers
// ---------------------------------------------------------------------------

/// The Google Public DNS addresses, as the DNS client library ships them.
pub open spec fn google_ips() -> Seq<IpAddress> {
    seq![
        IpAddress::V4(8, 8, 8, 8),
        IpAddress::V4(8, 8, 4, 4),
        IpAddress::V6(0x2001, 0x4860, 0x4860, 0, 0, 0, 0, 0x8888),
        IpAddress::V6(0x2001, 0x4860, 0x4860, 0, 0, 0, 0, 0x8844),
    ]
}

/// The entries of the hardcoded default tier.
pub open spec fn google_entries() -> Seq<NameServerEntry> {
    entries_for_ips(google_ips())
}

/// The entries the file and default tiers yield: the parsed `nameserver`
/// entries of the fallback file when there are any, the hardcoded public
/// resolver otherwise.
pub open spec fn fallback_entries(text: Option<Seq<char>>) -> Seq<NameServerEntry> {
    let ips = match text {
        Some(t) => nameserver_ips(t),
        None => Seq::<IpAddress>::empty(),
    };
    if ips.len() == 0 {
        google_entries()
    } else {
        entries_for_ips(ips)
    }
}

} // verus!
