//! IP addresses as plain values, and a verified textual parser for the
//! standard IPv4 dotted-decimal and IPv6 group notations.
//!
//! The grammar follows the one Rust's standard library accepts: an IPv4
//! address is four decimal octets without leading zeros; an IPv6 address is
//! up to eight groups of at most four hexadecimal digits, at most one `::`
//! standing for one or more zero groups, and optionally a trailing embedded
//! IPv4 address in place of the last two groups.

use vstd::prelude::*;

verus! {

/// An IP address held as plain values: four octets, or eight 16-bit groups.
#[derive(Clone, Copy, PartialEq, Eq, Structural, Debug)]
pub enum IpAddress {
    V4(u8, u8, u8, u8),
    V6(u16, u16, u16, u16, u16, u16, u16, u16),
}

// ---------------------------------------------------------------------------
// Digits
// ---------------------------------------------------------------------------

/// Decimal digit.
pub open spec fn is_dec_digit(c: char) -> bool {
    0x30 <= c as u32 && c as u32 <= 0x39
}

/// Hexadecimal digit, either case.
pub open spec fn is_hex_digit(c: char) -> bool {
    is_dec_digit(c) || (0x61 <= c as u32 && c as u32 <= 0x66) || (0x41 <= c as u32 && c as u32
        <= 0x46)
}

/// Digit in the radix selected by `hex`.
pub open spec fn digit_ok(c: char, hex: bool) -> bool {
    if hex {
        is_hex_digit(c)
    } else {
        is_dec_digit(c)
    }
}

/// Numeric value of a digit character; zero for anything else.
pub open spec fn digit_val(c: char) -> int {
    if is_dec_digit(c) {
        c as u32 - 0x30
    } else if 0x61 <= c as u32 && c as u32 <= 0x66 {
        c as u32 - 0x61 + 10
    } else if 0x41 <= c as u32 && c as u32 <= 0x46 {
        c as u32 - 0x41 + 10
    } else {
        0
    }
}

/// Number of consecutive digit characters of the chosen radix at `i`.
pub open spec fn digit_run(s: Seq<char>, i: int, hex: bool) -> nat
    decreases s.len() - i,
{
    if i < 0 || i >= s.len() {
        0
    } else if digit_ok(s[i], hex) {
        1 + digit_run(s, i + 1, hex)
    } else {
        0
    }
}

/// A digit run never reaches past the end of the sequence.
pub proof fn lemma_digit_run_le(s: Seq<char>, i: int, hex: bool)
    requires
        0 <= i <= s.len(),
    ensures
        i + digit_run(s, i, hex) <= s.len(),
    decreases s.len() - i,
{
    if i < s.len() && digit_ok(s[i], hex) {
        lemma_digit_run_le(s, i + 1, hex);
    }
}

/// Value of the `n` digits starting at `i`, most significant first.
pub open spec fn run_value(s: Seq<char>, i: int, n: nat, hex: bool) -> int
    decreases n,
{
    if n == 0 {
        0
    } else {
        run_value(s, i, (n - 1) as nat, hex) * (if hex {
            16int
        } else {
            10int
        }) + digit_val(s[i + n - 1])
    }
}

/// Digit-run values are bounded by the radix raised to the digit count.
pub proof fn lemma_run_value_bound(s: Seq<char>, i: int, n: nat, hex: bool)
    ensures
        0 <= run_value(s, i, n, hex),
        n == 0 ==> run_value(s, i, n, hex) == 0,
        n <= 1 ==> run_value(s, i, n, hex) <= 15,
        n <= 2 ==> run_value(s, i, n, hex) <= 255,
        n <= 3 ==> run_value(s, i, n, hex) <= 4095,
        n <= 4 ==> run_value(s, i, n, hex) <= 65535,
    decreases n,
{
    if n > 0 {
        lemma_run_value_bound(s, i, (n - 1) as nat, hex);
    }
}

/// Digit test in the chosen radix.
pub fn digit_in(c: char, hex: bool) -> (r: bool)
    ensures
        r == digit_ok(c, hex),
{
    let u = c as u32;
    let dec = 0x30 <= u && u <= 0x39;
    if hex {
        dec || (0x61 <= u && u <= 0x66) || (0x41 <= u && u <= 0x46)
    } else {
        dec
    }
}

/// Numeric value of a digit character.
pub fn digit_value_of(c: char) -> (d: u32)
    ensures
        d as int == digit_val(c),
{
    let u = c as u32;
    if 0x30 <= u && u <= 0x39 {
        u - 0x30
    } else if 0x61 <= u && u <= 0x66 {
        u - 0x61 + 10
    } else if 0x41 <= u && u <= 0x46 {
        u - 0x41 + 10
    } else {
        0
    }
}

/// Count consecutive digits at `i`, stopping at `cap`.
fn count_digits(v: &Vec<char>, i: usize, cap: usize, hex: bool) -> (n: usize)
    requires
        i <= v.len(),
    ensures
        n <= cap,
        i + n <= v.len(),
        n <= digit_run(v@, i as int, hex),
        n < cap ==> n == digit_run(v@, i as int, hex),
{
    let mut n: usize = 0;
    while n < cap && i + n < v.len() && digit_in(v[i + n], hex)
        invariant
            i + n <= v.len(),
            n <= cap,
            digit_run(v@, i as int, hex) == n + digit_run(v@, i as int + n as int, hex),
        decreases cap - n,
    {
        n = n + 1;
    }
    n
}

/// Value of `n` digits starting at `i`.
fn read_run_value(v: &Vec<char>, i: usize, n: usize, hex: bool) -> (x: u32)
    requires
        i + n <= v.len(),
        n <= 4,
    ensures
        x as int == run_value(v@, i as int, n as nat, hex),
{
    let mut x: u32 = 0;
    let mut k: usize = 0;
    while k < n
        invariant
            k <= n <= 4,
            i + n <= v.len(),
            x as int == run_value(v@, i as int, k as nat, hex),
        decreases n - k,
    {
        proof {
            lemma_run_value_bound(v@, i as int, k as nat, hex);
        }
        x = x * (if hex {
            16
        } else {
            10
        }) + digit_value_of(v[i + k]);
        k = k + 1;
    }
    x
}

// ---------------------------------------------------------------------------
// IPv4
// ---------------------------------------------------------------------------

/// Parse a decimal octet at `i`: one to three digits, no leading zero,
/// value at most 255.  Yields the value and the position after it.
pub open spec fn parse_octet_at(s: Seq<char>, i: int) -> Option<(u8, int)> {
    let n = digit_run(s, i, false);
    if n < 1 || n > 3 {
        None
    } else if n > 1 && s[i] == '0' {
        None
    } else if run_value(s, i, n, false) > 255 {
        None
    } else {
        Some((run_value(s, i, n, false) as u8, i + n))
    }
}

/// Executable octet parser.
pub fn octet_at(v: &Vec<char>, i: usize) -> (r: Option<(u8, usize)>)
    requires
        i <= v.len(),
    ensures
        match r {
            Some((x, j)) => parse_octet_at(v@, i as int) == Some((x, j as int)) && i < j <= v.len(),
            None => parse_octet_at(v@, i as int) is None,
        },
{
    let n = count_digits(v, i, 4, false);
    if n < 1 || n > 3 {
        return None;
    }
    if n > 1 && v[i] == '0' {
        return None;
    }
    let x = read_run_value(v, i, n, false);
    proof {
        lemma_run_value_bound(v@, i as int, n as nat, false);
    }
    if x > 255 {
        return None;
    }
    Some((x as u8, i + n))
}

/// Parse a full dotted-decimal IPv4 address at `i`.
pub open spec fn parse_ipv4_at(s: Seq<char>, i: int) -> Option<((u8, u8, u8, u8), int)> {
    match parse_octet_at(s, i) {
        None => None,
        Some((a, j1)) => if j1 < s.len() && s[j1] == '.' {
            match parse_octet_at(s, j1 + 1) {
                None => None,
                Some((b, j2)) => if j2 < s.len() && s[j2] == '.' {
                    match parse_octet_at(s, j2 + 1) {
                        None => None,
                        Some((c, j3)) => if j3 < s.len() && s[j3] == '.' {
                            match parse_octet_at(s, j3 + 1) {
                                None => None,
                                Some((d, j4)) => Some(((a, b, c, d), j4)),
                            }
                        } else {
                            None
                        },
                    }
                } else {
                    None
                },
            }
        } else {
            None
        },
    }
}

/// Executable IPv4 parser at a position.
pub fn ipv4_at(v: &Vec<char>, i: usize) -> (r: Option<((u8, u8, u8, u8), usize)>)
    requires
        i <= v.len(),
    ensures
        match r {
            Some((q, j)) => parse_ipv4_at(v@, i as int) == Some((q, j as int)) && i < j <= v.len(),
            None => parse_ipv4_at(v@, i as int) is None,
        },
{
    let (a, j1) = match octet_at(v, i) {
        None => {
            return None;
        },
        Some(p) => p,
    };
    if !(j1 < v.len() && v[j1] == '.') {
        return None;
    }
    let (b, j2) = match octet_at(v, j1 + 1) {
        None => {
            return None;
        },
        Some(p) => p,
    };
    if !(j2 < v.len() && v[j2] == '.') {
        return None;
    }
    let (c, j3) = match octet_at(v, j2 + 1) {
        None => {
            return None;
        },
        Some(p) => p,
    };
    if !(j3 < v.len() && v[j3] == '.') {
        return None;
    }
    let (d, j4) = match octet_at(v, j3 + 1) {
        None => {
            return None;
        },
        Some(p) => p,
    };
    Some(((a, b, c, d), j4))
}

/// Full-string IPv4 parse.
pub open spec fn spec_parse_ipv4(s: Seq<char>) -> Option<IpAddress> {
    match parse_ipv4_at(s, 0) {
        Some((q, j)) => if j == s.len() {
            Some(IpAddress::V4(q.0, q.1, q.2, q.3))
        } else {
            None
        },
        None => None,
    }
}

// ---------------------------------------------------------------------------
// IPv6
// ---------------------------------------------------------------------------

/// Parse a group of one to four hexadecimal digits at `i`.
pub open spec fn parse_group_at(s: Seq<char>, i: int) -> Option<(u16, int)> {
    let n = digit_run(s, i, true);
    if n < 1 || n > 4 {
        None
    } else {
        Some((run_value(s, i, n, true) as u16, i + n))
    }
}

/// Executable hexadecimal group parser.
pub fn group_at(v: &Vec<char>, i: usize) -> (r: Option<(u16, usize)>)
    requires
        i <= v.len(),
    ensures
        match r {
            Some((x, j)) => parse_group_at(v@, i as int) == Some((x, j as int)) && i < j <= v.len(),
            None => parse_group_at(v@, i as int) is None,
        },
{
    let n = count_digits(v, i, 5, true);
    if n < 1 || n > 4 {
        return None;
    }
    let x = read_run_value(v, i, n, true);
    proof {
        lemma_run_value_bound(v@, i as int, n as nat, true);
    }
    Some((x as u16, i + n))
}

/// The two groups an embedded IPv4 address stands for.
pub open spec fn v4_groups(q: (u8, u8, u8, u8)) -> (u16, u16) {
    (((q.0 as int) * 256 + (q.1 as int)) as u16, ((q.2 as int) * 256 + (q.3 as int)) as u16)
}

/// Read up to `limit` colon-separated groups at `i`.  The first group is read
/// without a preceding colon when `first` holds.  When at least two group
/// slots remain, an embedded IPv4 address is tried first and, if present,
/// fills two slots and ends the run.  Yields the groups, the position after
/// them (before any unconsumed separator), and whether an embedded IPv4
/// address was read.
pub open spec fn read_groups_at(s: Seq<char>, i: int, limit: nat, first: bool) -> (
    Seq<u16>,
    int,
    bool,
)
    decreases limit,
{
    if limit == 0 {
        (Seq::<u16>::empty(), i, false)
    } else {
        let sep_ok = first || (i < s.len() && s[i] == ':');
        let start = if first {
            i
        } else {
            i + 1
        };
        if !sep_ok {
            (Seq::<u16>::empty(), i, false)
        } else {
            let try_v4 = if limit >= 2 {
                parse_ipv4_at(s, start)
            } else {
                None
            };
            match try_v4 {
                Some((q, j)) => (seq![v4_groups(q).0, v4_groups(q).1], j, true),
                None => match parse_group_at(s, start) {
                    None => (Seq::<u16>::empty(), i, false),
                    Some((g, j)) => {
                        let rest = read_groups_at(s, j, (limit - 1) as nat, false);
                        (seq![g].add(rest.0), rest.1, rest.2)
                    },
                },
            }
        }
    }
}

/// The groups read never outnumber the limit, and the cursor stays in range.
pub proof fn lemma_read_groups_bounds(s: Seq<char>, i: int, limit: nat, first: bool)
    requires
        0 <= i <= s.len(),
    ensures
        read_groups_at(s, i, limit, first).0.len() <= limit,
        i <= read_groups_at(s, i, limit, first).1 <= s.len(),
    decreases limit,
{
    if limit > 0 {
        let sep_ok = first || (i < s.len() && s[i] == ':');
        let start = if first {
            i
        } else {
            i + 1
        };
        if sep_ok {
            let try_v4 = if limit >= 2 {
                parse_ipv4_at(s, start)
            } else {
                None
            };
            match try_v4 {
                Some((q, j)) => {
                    lemma_parse_ipv4_bounds(s, start);
                },
                None => {
                    match parse_group_at(s, start) {
                        None => {},
                        Some((g, j)) => {
                            lemma_digit_run_le(s, start, true);
                            lemma_read_groups_bounds(s, j, (limit - 1) as nat, false);
                        },
                    }
                },
            }
        }
    }
}

/// A successful IPv4 parse moves the cursor forward and stays in range.
pub proof fn lemma_parse_ipv4_bounds(s: Seq<char>, i: int)
    requires
        0 <= i <= s.len(),
        parse_ipv4_at(s, i) is Some,
    ensures
        i < parse_ipv4_at(s, i)->Some_0.1 <= s.len(),
{
    let (a, j1) = parse_octet_at(s, i)->Some_0;
    lemma_digit_run_le(s, i, false);
    let (b, j2) = parse_octet_at(s, j1 + 1)->Some_0;
    lemma_digit_run_le(s, j1 + 1, false);
    let (c, j3) = parse_octet_at(s, j2 + 1)->Some_0;
    lemma_digit_run_le(s, j2 + 1, false);
    lemma_digit_run_le(s, j3 + 1, false);
}

/// Executable group-run parser.
pub fn groups_at(v: &Vec<char>, i: usize, limit: usize, first: bool) -> (r: (Vec<u16>, usize, bool))
    requires
        i <= v.len(),
    ensures
        (r.0@, r.1 as int, r.2) == read_groups_at(v@, i as int, limit as nat, first),
        r.1 <= v.len(),
        r.0.len() <= limit,
    decreases limit,
{
    if limit == 0 {
        return (Vec::new(), i, false);
    }
    let sep_ok = first || (i < v.len() && v[i] == ':');
    if !sep_ok {
        return (Vec::new(), i, false);
    }
    let start = if first {
        i
    } else {
        i + 1
    };
    if limit >= 2 {
        match ipv4_at(v, start) {
            Some((q, j)) => {
                let hi = (q.0 as u16) * 256 + (q.1 as u16);
                let lo = (q.2 as u16) * 256 + (q.3 as u16);
                let mut groups: Vec<u16> = Vec::new();
                groups.push(hi);
                groups.push(lo);
                proof {
                    assert(groups@ =~= seq![v4_groups(q).0, v4_groups(q).1]);
                }
                return (groups, j, true);
            },
            None => {},
        }
    }
    match group_at(v, start) {
        None => (Vec::new(), i, false),
        Some((g, j)) => {
            let rest = groups_at(v, j, limit - 1, false);
            let mut groups: Vec<u16> = Vec::new();
            groups.push(g);
            let mut k: usize = 0;
            let (rest_groups, end, used_v4) = rest;
            while k < rest_groups.len()
                invariant
                    k <= rest_groups.len(),
                    groups@ == seq![g].add(rest_groups@.take(k as int)),
                decreases rest_groups.len() - k,
            {
                groups.push(rest_groups[k]);
                k = k + 1;
                proof {
                    assert(groups@ =~= seq![g].add(rest_groups@.take(k as int)));
                }
            }
            proof {
                assert(rest_groups@.take(rest_groups@.len() as int) =~= rest_groups@);
            }
            (groups, end, used_v4)
        },
    }
}

/// All eight groups of an IPv6 address.
pub open spec fn groups_to_v6(g: Seq<u16>) -> IpAddress {
    IpAddress::V6(g[0], g[1], g[2], g[3], g[4], g[5], g[6], g[7])
}

/// Full-string IPv6 parse: eight groups, or a `::` standing for the missing
/// (all-zero) groups, with an optional trailing embedded IPv4 address.
pub open spec fn spec_parse_ipv6(s: Seq<char>) -> Option<IpAddress> {
    let (head, i, head_v4) = read_groups_at(s, 0, 8, true);
    if head.len() == 8 {
        if i == s.len() {
            Some(groups_to_v6(head))
        } else {
            None
        }
    } else if head_v4 {
        None
    } else if i + 2 <= s.len() && s[i] == ':' && s[i + 1] == ':' {
        let (tail, j, _) = read_groups_at(s, i + 2, (7 - head.len()) as nat, true);
        if j == s.len() {
            let zeros = Seq::<u16>::new((8 - head.len() - tail.len()) as nat, |k: int| 0u16);
            Some(groups_to_v6(head.add(zeros).add(tail)))
        } else {
            None
        }
    } else {
        None
    }
}

/// Executable full-string IPv6 parser.
pub fn parse_ipv6_chars(v: &Vec<char>) -> (r: Option<IpAddress>)
    ensures
        r == spec_parse_ipv6(v@),
{
    let (head, i, head_v4) = groups_at(v, 0, 8, true);
    proof {
        lemma_read_groups_bounds(v@, 0, 8, true);
    }
    if head.len() == 8 {
        if i == v.len() {
            return Some(IpAddress::V6(
                head[0],
                head[1],
                head[2],
                head[3],
                head[4],
                head[5],
                head[6],
                head[7],
            ));
        } else {
            return None;
        }
    }
    if head_v4 {
        return None;
    }
    if !(i < v.len() && v[i] == ':' && i + 1 < v.len() && v[i + 1] == ':') {
        return None;
    }
    let (tail, j, _tail_v4) = groups_at(v, i + 2, 7 - head.len(), true);
    if j != v.len() {
        return None;
    }
    let mut groups: Vec<u16> = Vec::new();
    let mut k: usize = 0;
    while k < head.len()
        invariant
            k <= head.len(),
            groups@ == head@.take(k as int),
        decreases head.len() - k,
    {
        groups.push(head[k]);
        k = k + 1;
        proof {
            assert(groups@ =~= head@.take(k as int));
        }
    }
    let zero_count = 8 - head.len() - tail.len();
    let mut z: usize = 0;
    while z < zero_count
        invariant
            z <= zero_count,
            zero_count == 8 - head@.len() - tail@.len(),
            head@.len() + tail@.len() <= 7,
            groups@ == head@.add(Seq::<u16>::new(z as nat, |k: int| 0u16)),
        decreases zero_count - z,
    {
        groups.push(0);
        z = z + 1;
        proof {
            assert(groups@ =~= head@.add(Seq::<u16>::new(z as nat, |k: int| 0u16)));
        }
    }
    let mut t: usize = 0;
    let ghost zeros = Seq::<u16>::new(zero_count as nat, |k: int| 0u16);
    while t < tail.len()
        invariant
            t <= tail.len(),
            groups@ == head@.add(zeros).add(tail@.take(t as int)),
        decreases tail.len() - t,
    {
        groups.push(tail[t]);
        t = t + 1;
        proof {
            assert(groups@ =~= head@.add(zeros).add(tail@.take(t as int)));
        }
    }
    proof {
        assert(head@.take(head@.len() as int) =~= head@);
        assert(tail@.take(tail@.len() as int) =~= tail@);
        assert(groups@ =~= head@.add(zeros).add(tail@));
    }
    Some(IpAddress::V6(groups[0], groups[1], groups[2], groups[3], groups[4], groups[5], groups[6],
        groups[7]))
}

// ---------------------------------------------------------------------------
// Either family
// ---------------------------------------------------------------------------

/// Full-string IP address parse: IPv4 first, IPv6 otherwise, as the standard
/// library's `IpAddr` parser tries them.
pub open spec fn spec_parse_ip(s: Seq<char>) -> Option<IpAddress> {
    if spec_parse_ipv4(s) is Some {
        spec_parse_ipv4(s)
    } else {
        spec_parse_ipv6(s)
    }
}

/// Executable full-string IP address parser over characters.
pub fn parse_ip_chars(v: &Vec<char>) -> (r: Option<IpAddress>)
    ensures
        r == spec_parse_ip(v@),
{
    match ipv4_at(v, 0) {
        Some((q, j)) => if j == v.len() {
            Some(IpAddress::V4(q.0, q.1, q.2, q.3))
        } else {
            parse_ipv6_chars(v)
        },
        None => parse_ipv6_chars(v),
    }
}

// ---------------------------------------------------------------------------
// Formatting
// ---------------------------------------------------------------------------

/// The character of one digit value, `0` to `f`.
pub open spec fn digit_char(d: int) -> char {
    if d == 0 {
        '0'
    } else if d == 1 {
        '1'
    } else if d == 2 {
        '2'
    } else if d == 3 {
        '3'
    } else if d == 4 {
        '4'
    } else if d == 5 {
        '5'
    } else if d == 6 {
        '6'
    } else if d == 7 {
        '7'
    } else if d == 8 {
        '8'
    } else if d == 9 {
        '9'
    } else if d == 10 {
        'a'
    } else if d == 11 {
        'b'
    } else if d == 12 {
        'c'
    } else if d == 13 {
        'd'
    } else if d == 14 {
        'e'
    } else {
        'f'
    }
}

/// Decimal text of one octet, without leading zeros.
pub open spec fn octet_text(n: int) -> Seq<char> {
    if n < 10 {
        seq![digit_char(n)]
    } else if n < 100 {
        seq![digit_char(n / 10), digit_char(n % 10)]
    } else {
        seq![digit_char(n / 100), digit_char((n / 10) % 10), digit_char(n % 10)]
    }
}

/// Lowercase hexadecimal text of one group, without leading zeros.
pub open spec fn group_text(n: int) -> Seq<char> {
    if n < 16 {
        seq![digit_char(n)]
    } else if n < 256 {
        seq![digit_char(n / 16), digit_char(n % 16)]
    } else if n < 4096 {
        seq![digit_char(n / 256), digit_char((n / 16) % 16), digit_char(n % 16)]
    } else {
        seq![
            digit_char(n / 4096),
            digit_char((n / 256) % 16),
            digit_char((n / 16) % 16),
            digit_char(n % 16),
        ]
    }
}

/// The text of an address: dotted decimal for IPv4; eight lowercase
/// hexadecimal groups, without zero compression, for IPv6.
pub open spec fn ip_text(ip: IpAddress) -> Seq<char> {
    match ip {
        IpAddress::V4(a, b, c, d) => octet_text(a as int).push('.').add(octet_text(b as int)).push(
            '.',
        ).add(octet_text(c as int)).push('.').add(octet_text(d as int)),
        IpAddress::V6(s0, s1, s2, s3, s4, s5, s6, s7) => group_text(s0 as int).push(':').add(
            group_text(s1 as int),
        ).push(':').add(group_text(s2 as int)).push(':').add(group_text(s3 as int)).push(':').add(
            group_text(s4 as int),
        ).push(':').add(group_text(s5 as int)).push(':').add(group_text(s6 as int)).push(':').add(
            group_text(s7 as int),
        ),
    }
}

/// Append one digit character.
fn push_digit(s: &mut String, d: u16)
    requires
        d < 16,
    ensures
        final(s)@ == old(s)@.push(digit_char(d as int)),
{
    proof {
        reveal_strlit("0");
        reveal_strlit("1");
        reveal_strlit("2");
        reveal_strlit("3");
        reveal_strlit("4");
        reveal_strlit("5");
        reveal_strlit("6");
        reveal_strlit("7");
        reveal_strlit("8");
        reveal_strlit("9");
        reveal_strlit("a");
        reveal_strlit("b");
        reveal_strlit("c");
        reveal_strlit("d");
        reveal_strlit("e");
        reveal_strlit("f");
    }
    let ghost before = s@;
    match d {
        0 => s.append("0"),
        1 => s.append("1"),
        2 => s.append("2"),
        3 => s.append("3"),
        4 => s.append("4"),
        5 => s.append("5"),
        6 => s.append("6"),
        7 => s.append("7"),
        8 => s.append("8"),
        9 => s.append("9"),
        10 => s.append("a"),
        11 => s.append("b"),
        12 => s.append("c"),
        13 => s.append("d"),
        14 => s.append("e"),
        _ => s.append("f"),
    }
    proof {
        assert(s@ =~= before.push(digit_char(d as int)));
    }
}

/// Append one octet in decimal.
fn append_octet(s: &mut String, n: u8)
    ensures
        final(s)@ == old(s)@.add(octet_text(n as int)),
{
    let ghost before = s@;
    if n < 10 {
        push_digit(s, n as u16);
    } else if n < 100 {
        push_digit(s, (n / 10) as u16);
        push_digit(s, (n % 10) as u16);
    } else {
        push_digit(s, (n / 100) as u16);
        push_digit(s, ((n / 10) % 10) as u16);
        push_digit(s, (n % 10) as u16);
    }
    proof {
        assert(s@ =~= before.add(octet_text(n as int)));
    }
}

/// Append one group in lowercase hexadecimal.
fn append_group(s: &mut String, n: u16)
    ensures
        final(s)@ == old(s)@.add(group_text(n as int)),
{
    let ghost before = s@;
    if n < 16 {
        push_digit(s, n);
    } else if n < 256 {
        push_digit(s, n / 16);
        push_digit(s, n % 16);
    } else if n < 4096 {
        push_digit(s, n / 256);
        push_digit(s, (n / 16) % 16);
        push_digit(s, n % 16);
    } else {
        push_digit(s, n / 4096);
        push_digit(s, (n / 256) % 16);
        push_digit(s, (n / 16) % 16);
        push_digit(s, n % 16);
    }
    proof {
        assert(s@ =~= before.add(group_text(n as int)));
    }
}

/// Append the separator character `'.'`.
fn append_dot(s: &mut String)
    ensures
        final(s)@ == old(s)@.push('.'),
{
    let ghost before = s@;
    proof {
        reveal_strlit(".");
    }
    s.append(".");
    proof {
        assert(s@ =~= before.push('.'));
    }
}

/// Append the separator character `':'`.
fn append_colon(s: &mut String)
    ensures
        final(s)@ == old(s)@.push(':'),
{
    let ghost before = s@;
    proof {
        reveal_strlit(":");
    }
    s.append(":");
    proof {
        assert(s@ =~= before.push(':'));
    }
}

impl IpAddress {
    /// The address's text: dotted decimal for IPv4, eight lowercase
    /// hexadecimal groups without zero compression for IPv6.
    pub fn to_text(&self) -> (r: String)
        ensures
            r@ == ip_text(*self),
    {
        let mut s = String::new();
        proof {
            assert(s@ =~= Seq::<char>::empty());
        }
        match *self {
            IpAddress::V4(a, b, c, d) => {
                append_octet(&mut s, a);
                append_dot(&mut s);
                append_octet(&mut s, b);
                append_dot(&mut s);
                append_octet(&mut s, c);
                append_dot(&mut s);
                append_octet(&mut s, d);
            },
            IpAddress::V6(s0, s1, s2, s3, s4, s5, s6, s7) => {
                append_group(&mut s, s0);
                append_colon(&mut s);
                append_group(&mut s, s1);
                append_colon(&mut s);
                append_group(&mut s, s2);
                append_colon(&mut s);
                append_group(&mut s, s3);
                append_colon(&mut s);
                append_group(&mut s, s4);
                append_colon(&mut s);
                append_group(&mut s, s5);
                append_colon(&mut s);
                append_group(&mut s, s6);
                append_colon(&mut s);
                append_group(&mut s, s7);
            },
        }
        proof {
            assert(s@ =~= ip_text(*self));
        }
        s
    }
}

/// Executable full-string IP address parser.
pub fn parse_ip(s: &str) -> (r: Option<IpAddress>)
    ensures
        r == spec_parse_ip(s@),
{
    let v = crate::text::chars_of(s);
    parse_ip_chars(&v)
}

} // verus!
