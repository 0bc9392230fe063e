use vstd::prelude::*;

verus! {

/// A parsed IP address: four octets, or eight 16-bit segments.
#[derive(Clone, Copy, Debug)]
pub enum IpAddress {
    V4([u8; 4]),
    V6([u16; 8]),
}

/// The mathematical value of an address.
pub enum IpModel {
    V4(Seq<u8>),
    V6(Seq<u16>),
}

impl IpAddress {
    pub open spec fn view(&self) -> IpModel {
        match self {
            IpAddress::V4(o) => IpModel::V4(o@),
            IpAddress::V6(g) => IpModel::V6(g@),
        }
    }
}

/// Result of classifying a piece of text as an IP address.
#[derive(Clone, Copy, Debug)]
pub enum Classification {
    Invalid,
    Local,
    Global(IpAddress),
}

// ---------------------------------------------------------------------------
// The grammar of IP literals, as positions in a sequence of characters.
// ---------------------------------------------------------------------------

pub open spec fn digit_of(c: char, hex: bool) -> Option<u32> {
    if '0' <= c && c <= '9' {
        Some((c as u32 - '0' as u32) as u32)
    } else if hex && 'a' <= c && c <= 'f' {
        Some((c as u32 - 'a' as u32 + 10) as u32)
    } else if hex && 'A' <= c && c <= 'F' {
        Some((c as u32 - 'A' as u32 + 10) as u32)
    } else {
        None
    }
}

pub open spec fn base_of(hex: bool) -> nat {
    if hex { 16 } else { 10 }
}

/// The first position at or after `p` that does not hold a digit.
pub open spec fn digits_end(cs: Seq<char>, p: int, hex: bool) -> int
    decreases cs.len() - p,
{
    if 0 <= p < cs.len() && digit_of(cs[p], hex) is Some {
        digits_end(cs, p + 1, hex)
    } else {
        p
    }
}

/// The number written by the digits in `[p, e)`.
pub open spec fn digits_value(cs: Seq<char>, p: int, e: int, hex: bool) -> nat
    decreases e - p,
{
    if e <= p {
        0
    } else {
        digits_value(cs, p, e - 1, hex) * base_of(hex) + digit_of(cs[e - 1], hex).unwrap() as nat
    }
}

/// A number at `p`: all the digits there, at least one and at most `max`,
/// no leading zero unless `zero_ok`, and a value of at most `bound`.
pub open spec fn read_number(
    cs: Seq<char>,
    p: int,
    hex: bool,
    max: nat,
    zero_ok: bool,
    bound: nat,
) -> Option<(nat, int)> {
    let e = digits_end(cs, p, hex);
    let n = e - p;
    let v = digits_value(cs, p, e, hex);
    if n == 0 || n > max || (!zero_ok && cs[p] == '0' && n > 1) || v > bound {
        None
    } else {
        Some((v, e))
    }
}

/// Position after the separator that precedes item `i` (none before the first).
pub open spec fn after_sep(cs: Seq<char>, p: int, i: nat, sep: char) -> Option<int> {
    if i == 0 {
        Some(p)
    } else if 0 <= p < cs.len() && cs[p] == sep {
        Some(p + 1)
    } else {
        None
    }
}

/// Octets `i..4` of a dotted-decimal address starting at `p`.
pub open spec fn read_v4_from(cs: Seq<char>, p: int, i: nat) -> Option<(Seq<u8>, int)>
    decreases 4 - i,
{
    if i >= 4 {
        Some((seq![], p))
    } else {
        match after_sep(cs, p, i, '.') {
            None => None,
            Some(q) => match read_number(cs, q, false, 3, false, 255) {
                None => None,
                Some((v, e)) => match read_v4_from(cs, e, i + 1) {
                    None => None,
                    Some((rest, f)) => Some((seq![v as u8] + rest, f)),
                },
            },
        }
    }
}

pub open spec fn read_v4(cs: Seq<char>, p: int) -> Option<(Seq<u8>, int)> {
    read_v4_from(cs, p, 0)
}

pub open spec fn pair_to_u16(a: u8, b: u8) -> u16 {
    (a as int * 256 + b as int) as u16
}

/// Colon-separated groups `i..limit` starting at `p`: the groups read, where
/// reading stopped, and whether it ended on an embedded dotted-decimal part.
pub open spec fn read_groups(cs: Seq<char>, p: int, i: nat, limit: nat) -> (Seq<u16>, int, bool)
    decreases limit - i,
{
    if i >= limit {
        (seq![], p, false)
    } else {
        let q = after_sep(cs, p, i, ':');
        let v4 = if i + 1 < limit && q is Some {
            read_v4(cs, q.unwrap())
        } else {
            None
        };
        match v4 {
            Some((o, e)) => (seq![pair_to_u16(o[0], o[1]), pair_to_u16(o[2], o[3])], e, true),
            None => {
                let g = if q is Some {
                    read_number(cs, q.unwrap(), true, 4, true, 0xffff)
                } else {
                    None
                };
                match g {
                    None => (seq![], p, false),
                    Some((v, e)) => {
                        let rest = read_groups(cs, e, i + 1, limit);
                        (seq![v as u16] + rest.0, rest.1, rest.2)
                    },
                }
            },
        }
    }
}

pub open spec fn zeros(n: int) -> Seq<u16> {
    Seq::new(n as nat, |k: int| 0u16)
}

/// An IPv6 address at the start of `cs`, with `::` standing for one or more
/// zero groups.
pub open spec fn read_v6(cs: Seq<char>) -> Option<(Seq<u16>, int)> {
    let head = read_groups(cs, 0, 0, 8);
    let hp = head.1;
    if head.0.len() == 8 {
        Some((head.0, hp))
    } else if head.2 {
        None
    } else if 0 <= hp && hp + 1 < cs.len() && cs[hp] == ':' && cs[hp + 1] == ':' {
        let limit = 8 - (head.0.len() + 1);
        let tail = read_groups(cs, hp + 2, 0, limit as nat);
        Some((head.0 + zeros(8 - head.0.len() - tail.0.len()) + tail.0, tail.1))
    } else {
        None
    }
}

/// The address that the whole of `cs` spells, if any.
pub open spec fn parse_ip_spec(cs: Seq<char>) -> Option<IpModel> {
    match read_v4(cs, 0) {
        Some((o, e)) => if e == cs.len() {
            Some(IpModel::V4(o))
        } else {
            None
        },
        None => match read_v6(cs) {
            Some((g, e)) => if e == cs.len() {
                Some(IpModel::V6(g))
            } else {
                None
            },
            None => None,
        },
    }
}

// ---------------------------------------------------------------------------
// Global reachability.
// ---------------------------------------------------------------------------

/// Global reachability of an IPv4 address, by the table of std's unstable
/// `Ipv4Addr::is_global`: "this network", private, shared, loopback,
/// link-local, protocol-assignment, documentation, benchmarking, reserved and
/// broadcast ranges are not global. Like std, the table leaves multicast
/// (`224.0.0.0/4`) out.
pub open spec fn is_global_v4(o: Seq<u8>) -> bool {
    !(o[0] == 0
        || o[0] == 10
        || (o[0] == 172 && (o[1] & 0xf0u8) == 16)
        || (o[0] == 192 && o[1] == 168)
        || (o[0] == 100 && (o[1] & 0xc0u8) == 0x40)
        || o[0] == 127
        || (o[0] == 169 && o[1] == 254)
        || (o[0] == 192 && o[1] == 0 && o[2] == 0 && o[3] != 9 && o[3] != 10)
        || (o[0] == 192 && o[1] == 0 && o[2] == 2)
        || (o[0] == 198 && o[1] == 51 && o[2] == 100)
        || (o[0] == 203 && o[1] == 0 && o[2] == 113)
        || (o[0] == 198 && (o[1] & 0xfeu8) == 18)
        || (o[0] & 0xf0u8) == 0xf0)
}

/// Global reachability of an IPv6 address, by the table of std's unstable
/// `Ipv6Addr::is_global`: unspecified, loopback, IPv4-mapped, translation,
/// discard-only, IETF protocol assignments (less the anycast and ORCHID
/// exceptions), 6to4, documentation, segment routing, unique-local and
/// link-local ranges are not global; nor is a multicast address (`ff00::/8`)
/// whose scope is below global (scope nibble other than `e`).
pub open spec fn is_global_v6(g: Seq<u16>) -> bool {
    let unspecified = forall|k: int| 0 <= k < 8 ==> g[k] == 0;
    let low_zero = g[0] == 0 && g[1] == 0 && g[2] == 0 && g[3] == 0 && g[4] == 0 && g[5] == 0;
    let loopback = low_zero && g[6] == 0 && g[7] == 1;
    let mid_zero = g[2] == 0 && g[3] == 0 && g[4] == 0 && g[5] == 0 && g[6] == 0;
    let ietf = g[0] == 0x2001 && g[1] < 0x200 && !(
        (g[1] == 1 && mid_zero && (g[7] == 1 || g[7] == 2))
        || g[1] == 3
        || (g[1] == 4 && g[2] == 0x112)
        || (0x20 <= g[1] && g[1] <= 0x3f)
    );
    !(unspecified
        || loopback
        || (g[0] == 0 && g[1] == 0 && g[2] == 0 && g[3] == 0 && g[4] == 0 && g[5] == 0xffff)
        || (g[0] == 0x64 && g[1] == 0xff9b && g[2] == 1)
        || (g[0] == 0x100 && g[1] == 0 && g[2] == 0 && g[3] == 0)
        || ietf
        || g[0] == 0x2002
        || (g[0] == 0x2001 && g[1] == 0xdb8)
        || (g[0] == 0x3fff && g[1] <= 0x0fff)
        || g[0] == 0x5f00
        || (g[0] & 0xfe00u16) == 0xfc00
        || (g[0] & 0xffc0u16) == 0xfe80
        || ((g[0] & 0xff00u16) == 0xff00 && (g[0] & 0x000fu16) != 0x000e))
}

pub open spec fn is_global_spec(a: IpModel) -> bool {
    match a {
        IpModel::V4(o) => is_global_v4(o),
        IpModel::V6(g) => is_global_v6(g),
    }
}


// ---------------------------------------------------------------------------
// Executable parser.
// ---------------------------------------------------------------------------

proof fn lemma_digits_end_bounds(cs: Seq<char>, p: int, hex: bool)
    requires
        0 <= p <= cs.len(),
    ensures
        p <= digits_end(cs, p, hex) <= cs.len(),
    decreases cs.len() - p,
{
    if p < cs.len() && digit_of(cs[p], hex) is Some {
        lemma_digits_end_bounds(cs, p + 1, hex);
    }
}

fn digit_value(c: char, hex: bool) -> (r: Option<u32>)
    ensures
        r == digit_of(c, hex),
{
    if '0' <= c && c <= '9' {
        Some(c as u32 - '0' as u32)
    } else if hex && 'a' <= c && c <= 'f' {
        Some(c as u32 - 'a' as u32 + 10)
    } else if hex && 'A' <= c && c <= 'F' {
        Some(c as u32 - 'A' as u32 + 10)
    } else {
        None
    }
}

fn read_number_at(
    cs: &Vec<char>,
    p: usize,
    hex: bool,
    max: usize,
    zero_ok: bool,
    bound: u32,
) -> (r: Option<(u32, usize)>)
    requires
        p <= cs.len(),
        1 <= max <= 4,
        bound <= 0xffff,
    ensures
        r is None <==> read_number(cs@, p as int, hex, max as nat, zero_ok, bound as nat) is None,
        r matches Some((v, e)) ==> read_number(cs@, p as int, hex, max as nat, zero_ok, bound as nat)
            == Some((v as nat, e as int)) && e <= cs.len(),
{
    let base: u32 = if hex { 16 } else { 10 };
    let mut i: usize = p;
    let mut v: u32 = 0;
    while i < cs.len() && digit_value(cs[i], hex).is_some()
        invariant
            p <= i <= cs.len(),
            i - p <= max,
            max <= 4,
            v as nat == digits_value(cs@, p as int, i as int, hex),
            digits_end(cs@, p as int, hex) == digits_end(cs@, i as int, hex),
            base as nat == base_of(hex),
            i - p <= 3 ==> v < 0x1000,
            i - p <= 2 ==> v < 0x100,
            i - p <= 1 ==> v < 0x10,
            i == p ==> v == 0,
            v < 0x10000,
        decreases cs.len() - i,
    {
        let d = digit_value(cs[i], hex).unwrap();
        if i - p == max {
            proof {
                lemma_digits_end_bounds(cs@, i + 1, hex);
            }
            return None;
        }
        assert(d < base);
        assert(i - p <= 3);
        assert(v < 0x1000);
        assert(v * base + d < 16 * (v + 1)) by (nonlinear_arith)
            requires
                base <= 16,
                d < base,
        ;
        v = v * base + d;
        i = i + 1;
    }
    proof {
        lemma_digits_end_bounds(cs@, i as int, hex);
    }
    assert(digits_end(cs@, i as int, hex) == i);
    if i == p {
        return None;
    }
    if !zero_ok && cs[p] == '0' && i - p > 1 {
        return None;
    }
    if v > bound {
        return None;
    }
    Some((v, i))
}

fn read_v4_at(cs: &Vec<char>, p: usize, i: usize) -> (r: Option<(Vec<u8>, usize)>)
    requires
        p <= cs.len(),
        i <= 4,
    ensures
        r is None <==> read_v4_from(cs@, p as int, i as nat) is None,
        r matches Some((o, e)) ==> read_v4_from(cs@, p as int, i as nat) == Some((o@, e as int))
            && e <= cs.len() && o.len() == 4 - i,
    decreases 4 - i,
{
    if i >= 4 {
        return Some((Vec::new(), p));
    }
    let q: usize = if i == 0 {
        p
    } else if p < cs.len() && cs[p] == '.' {
        p + 1
    } else {
        return None;
    };
    match read_number_at(cs, q, false, 3, false, 255) {
        None => None,
        Some((v, e)) => match read_v4_at(cs, e, i + 1) {
            None => None,
            Some((rest, f)) => {
                let mut o: Vec<u8> = Vec::new();
                o.push(v as u8);
                let mut rest = rest;
                o.append(&mut rest);
                Some((o, f))
            },
        },
    }
}

fn read_groups_at(cs: &Vec<char>, p: usize, i: usize, limit: usize) -> (r: (Vec<u16>, usize, bool))
    requires
        p <= cs.len(),
        limit <= 8,
        i <= limit,
    ensures
        (r.0@, r.1 as int, r.2) == read_groups(cs@, p as int, i as nat, limit as nat),
        r.1 <= cs.len(),
        r.0.len() <= limit - i,
    decreases limit - i,
{
    if i >= limit {
        return (Vec::new(), p, false);
    }
    let q: Option<usize> = if i == 0 {
        Some(p)
    } else if p < cs.len() && cs[p] == ':' {
        Some(p + 1)
    } else {
        None
    };
    if i + 1 < limit {
        if let Some(q) = q {
            if let Some((o, e)) = read_v4_at(cs, q, 0) {
                let mut g: Vec<u16> = Vec::new();
                g.push(o[0] as u16 * 256 + o[1] as u16);
                g.push(o[2] as u16 * 256 + o[3] as u16);
                assert(g@ =~= seq![pair_to_u16(o@[0], o@[1]), pair_to_u16(o@[2], o@[3])]);
                return (g, e, true);
            }
        }
    }
    let g: Option<(u32, usize)> = match q {
        Some(q) => read_number_at(cs, q, true, 4, true, 0xffff),
        None => None,
    };
    match g {
        None => (Vec::new(), p, false),
        Some((v, e)) => {
            let (rest, f, b) = read_groups_at(cs, e, i + 1, limit);
            let mut out: Vec<u16> = Vec::new();
            out.push(v as u16);
            let mut rest = rest;
            let ghost rest_seq = rest@;
            out.append(&mut rest);
            assert(out@ =~= seq![v as u16] + rest_seq);
            (out, f, b)
        },
    }
}

fn read_v6_at(cs: &Vec<char>) -> (r: Option<(Vec<u16>, usize)>)
    ensures
        r is None <==> read_v6(cs@) is None,
        r matches Some((g, e)) ==> read_v6(cs@) == Some((g@, e as int)) && g.len() == 8,
{
    let (head, hp, h4) = read_groups_at(cs, 0, 0, 8);
    if head.len() == 8 {
        return Some((head, hp));
    }
    if h4 {
        return None;
    }
    if cs.len() > 1 && hp < cs.len() - 1 && cs[hp] == ':' && cs[hp + 1] == ':' {
        let limit: usize = 8 - (head.len() + 1);
        let (tail, tp, _) = read_groups_at(cs, hp + 2, 0, limit);
        let mut out: Vec<u16> = head;
        let fill: usize = 8 - out.len() - tail.len();
        let ghost head_seq = out@;
        let mut k: usize = 0;
        while k < fill
            invariant
                k <= fill,
                out@ =~= head_seq + zeros(k as int),
            decreases fill - k,
        {
            out.push(0);
            k = k + 1;
            assert(out@ =~= head_seq + zeros(k as int));
        }
        let mut tail = tail;
        let ghost tail_seq = tail@;
        out.append(&mut tail);
        assert(out@ =~= head_seq + zeros(fill as int) + tail_seq);
        Some((out, tp))
    } else {
        None
    }
}

/// The characters of `s`, in order.
fn chars_of(s: &str) -> (r: Vec<char>)
    ensures
        r@ == s@,
{
    let n = s.unicode_len();
    let mut out: Vec<char> = Vec::new();
    let mut i: usize = 0;
    while i < n
        invariant
            n == s@.len(),
            i <= n,
            out@ =~= s@.subrange(0, i as int),
        decreases n - i,
    {
        out.push(s.get_char(i));
        i = i + 1;
    }
    assert(out@ =~= s@);
    out
}

/// Parses `s` as an IPv4 or IPv6 literal.
pub fn parse_ip(s: &str) -> (r: Option<IpAddress>)
    ensures
        r is None <==> parse_ip_spec(s@) is None,
        r matches Some(a) ==> parse_ip_spec(s@) == Some(a@),
{
    let cs = chars_of(s);
    match read_v4_at(&cs, 0, 0) {
        Some((o, e)) => {
            if e == cs.len() {
                let a = [o[0], o[1], o[2], o[3]];
                assert(a@ =~= o@);
                Some(IpAddress::V4(a))
            } else {
                None
            }
        },
        None => match read_v6_at(&cs) {
            Some((g, e)) => {
                if e == cs.len() {
                    let a = [g[0], g[1], g[2], g[3], g[4], g[5], g[6], g[7]];
                    assert(a@ =~= g@);
                    Some(IpAddress::V6(a))
                } else {
                    None
                }
            },
            None => None,
        },
    }
}

// ---------------------------------------------------------------------------
// Classification.
// ---------------------------------------------------------------------------

/// Whether `a` is globally reachable.
pub fn is_global(a: &IpAddress) -> (r: bool)
    ensures
        r == is_global_spec(a@),
{
    match a {
        IpAddress::V4(o) => {
            !(o[0] == 0
                || o[0] == 10
                || (o[0] == 172 && (o[1] & 0xf0u8) == 16)
                || (o[0] == 192 && o[1] == 168)
                || (o[0] == 100 && (o[1] & 0xc0u8) == 0x40)
                || o[0] == 127
                || (o[0] == 169 && o[1] == 254)
                || (o[0] == 192 && o[1] == 0 && o[2] == 0 && o[3] != 9 && o[3] != 10)
                || (o[0] == 192 && o[1] == 0 && o[2] == 2)
                || (o[0] == 198 && o[1] == 51 && o[2] == 100)
                || (o[0] == 203 && o[1] == 0 && o[2] == 113)
                || (o[0] == 198 && (o[1] & 0xfeu8) == 18)
                || (o[0] & 0xf0u8) == 0xf0)
        },
        IpAddress::V6(g) => {
            let low_zero = g[0] == 0 && g[1] == 0 && g[2] == 0 && g[3] == 0 && g[4] == 0
                && g[5] == 0;
            let unspecified = low_zero && g[6] == 0 && g[7] == 0;
            let loopback = low_zero && g[6] == 0 && g[7] == 1;
            let mid_zero = g[2] == 0 && g[3] == 0 && g[4] == 0 && g[5] == 0 && g[6] == 0;
            let ietf = g[0] == 0x2001 && g[1] < 0x200 && !((g[1] == 1 && mid_zero && (g[7] == 1
                || g[7] == 2)) || g[1] == 3 || (g[1] == 4 && g[2] == 0x112) || (0x20 <= g[1]
                && g[1] <= 0x3f));
            assert(unspecified <==> forall|k: int| 0 <= k < 8 ==> g@[k] == 0) by {
                if unspecified {
                    assert forall|k: int| 0 <= k < 8 implies g@[k] == 0 by {
                        assert(k == 0 || k == 1 || k == 2 || k == 3 || k == 4 || k == 5 || k == 6
                            || k == 7);
                    }
                }
            }
            !(unspecified || loopback || (g[0] == 0 && g[1] == 0 && g[2] == 0 && g[3] == 0 && g[4]
                == 0 && g[5] == 0xffff) || (g[0] == 0x64 && g[1] == 0xff9b && g[2] == 1) || (g[0]
                == 0x100 && g[1] == 0 && g[2] == 0 && g[3] == 0) || ietf || g[0] == 0x2002 || (g[0]
                == 0x2001 && g[1] == 0xdb8) || (g[0] == 0x3fff && g[1] <= 0x0fff) || g[0] == 0x5f00
                || (g[0] & 0xfe00u16) == 0xfc00 || (g[0] & 0xffc0u16) == 0xfe80
        || ((g[0] & 0xff00u16) == 0xff00 && (g[0] & 0x000fu16) != 0x000e))
        },
    }
}

/// Sorts `s` into invalid text, a non-global address, or a global address.
pub fn classify(s: &str) -> (r: Classification)
    ensures
        parse_ip_spec(s@) is None ==> r is Invalid,
        parse_ip_spec(s@) matches Some(a) ==> if is_global_spec(a) {
            r matches Classification::Global(x) && x@ == a
        } else {
            r is Local
        },
{
    match parse_ip(s) {
        None => Classification::Invalid,
        Some(a) => if is_global(&a) {
            Classification::Global(a)
        } else {
            Classification::Local
        },
    }
}

/// Whether `s` is an IPv4 or IPv6 literal.
pub fn check_if_valid_ip(s: &String) -> (r: bool)
    ensures
        r == parse_ip_spec(s@) is Some,
{
    parse_ip(s.as_str()).is_some()
}

/// Whether the address that `s` spells is globally reachable.
pub fn check_if_global_ip(s: &String) -> (r: bool)
    requires
        parse_ip_spec(s@) is Some,
    ensures
        r == is_global_spec(parse_ip_spec(s@).unwrap()),
{
    let a = parse_ip(s.as_str()).unwrap();
    is_global(&a)
}

/// Loopback, link-local and private-network ranges of both families.
pub open spec fn is_local_range(a: IpModel) -> bool {
    match a {
        IpModel::V4(o) => o[0] == 127 || o[0] == 10 || (o[0] == 172 && 16 <= o[1] && o[1] <= 31)
            || (o[0] == 192 && o[1] == 168) || (o[0] == 169 && o[1] == 254),
        IpModel::V6(g) => (g[0] == 0 && g[1] == 0 && g[2] == 0 && g[3] == 0 && g[4] == 0 && g[5]
            == 0 && g[6] == 0 && g[7] == 1) || (0xfc00 <= g[0] && g[0] <= 0xfdff) || (0xfe80
            <= g[0] && g[0] <= 0xfebf),
    }
}

/// No loopback, link-local or private-network address is globally reachable,
/// so text that spells one classifies as local.
pub proof fn lemma_local_ranges_not_global(a: IpModel)
    requires
        is_local_range(a),
        a matches IpModel::V4(o) ==> o.len() == 4,
        a matches IpModel::V6(g) ==> g.len() == 8,
    ensures
        !is_global_spec(a),
{
    match a {
        IpModel::V4(o) => {
            let b = o[1];
            assert(16 <= b <= 31 ==> (b & 0xf0u8) == 16) by (bit_vector);
        },
        IpModel::V6(g) => {
            let x = g[0];
            assert(0xfc00 <= x <= 0xfdff ==> (x & 0xfe00u16) == 0xfc00) by (bit_vector);
            assert(0xfe80 <= x <= 0xfebf ==> (x & 0xffc0u16) == 0xfe80) by (bit_vector);
        },
    }
}


// ---------------------------------------------------------------------------
// Canonical text.
// ---------------------------------------------------------------------------

pub open spec fn digit_char(d: nat) -> char {
    seq!['0', '1', '2', '3', '4', '5', '6', '7', '8', '9', 'a', 'b', 'c', 'd', 'e', 'f'][d as int]
}

/// Decimal digits of `n`, without leading zeros.
pub open spec fn dec_text(n: nat) -> Seq<char>
    decreases n,
{
    if n < 10 {
        seq![digit_char(n)]
    } else {
        dec_text(n / 10) + seq![digit_char(n % 10)]
    }
}

/// Lower-case hexadecimal digits of `n`, without leading zeros.
pub open spec fn hex_text(n: nat) -> Seq<char>
    decreases n,
{
    if n < 16 {
        seq![digit_char(n)]
    } else {
        hex_text(n / 16) + seq![digit_char(n % 16)]
    }
}

pub open spec fn v4_text(o: Seq<u8>) -> Seq<char> {
    dec_text(o[0] as nat) + seq!['.'] + dec_text(o[1] as nat) + seq!['.'] + dec_text(o[2] as nat)
        + seq!['.'] + dec_text(o[3] as nat)
}

/// Groups in hexadecimal, separated by `:`.
pub open spec fn groups_text(g: Seq<u16>) -> Seq<char>
    decreases g.len(),
{
    if g.len() == 0 {
        seq![]
    } else if g.len() == 1 {
        hex_text(g[0] as nat)
    } else {
        groups_text(g.drop_last()) + seq![':'] + hex_text(g.last() as nat)
    }
}

/// Scans groups `i..` for runs of zero groups: the first longest run, as
/// start and length, given the run in progress and the best one so far.
pub open spec fn zero_run_from(g: Seq<u16>, i: int, cs: int, cl: int, bs: int, bl: int) -> (int, int)
    decreases g.len() - i,
{
    if i >= g.len() {
        (bs, bl)
    } else if g[i] == 0 {
        let ns = if cl == 0 { i } else { cs };
        if cl + 1 > bl {
            zero_run_from(g, i + 1, ns, cl + 1, ns, cl + 1)
        } else {
            zero_run_from(g, i + 1, ns, cl + 1, bs, bl)
        }
    } else {
        zero_run_from(g, i + 1, 0, 0, bs, bl)
    }
}

pub open spec fn zero_run(g: Seq<u16>) -> (int, int) {
    zero_run_from(g, 0, 0, 0, 0, 0)
}

pub open spec fn is_v4_mapped(g: Seq<u16>) -> bool {
    g[0] == 0 && g[1] == 0 && g[2] == 0 && g[3] == 0 && g[4] == 0 && g[5] == 0xffff
}

/// The canonical text of an IPv6 address: an IPv4-mapped address as
/// `::ffff:` and dotted decimal; otherwise the first longest run of two or
/// more zero groups written as `::`.
pub open spec fn v6_text(g: Seq<u16>) -> Seq<char> {
    if is_v4_mapped(g) {
        seq![':', ':', 'f', 'f', 'f', 'f', ':'] + v4_text(
            seq![(g[6] / 256) as u8, (g[6] % 256) as u8, (g[7] / 256) as u8, (g[7] % 256) as u8],
        )
    } else {
        let (s, l) = zero_run(g);
        if l > 1 {
            groups_text(g.subrange(0, s)) + seq![':', ':'] + groups_text(g.subrange(s + l, 8))
        } else {
            groups_text(g)
        }
    }
}

pub open spec fn addr_text(a: IpModel) -> Seq<char> {
    match a {
        IpModel::V4(o) => v4_text(o),
        IpModel::V6(g) => v6_text(g),
    }
}

fn digit_str(d: u32) -> (r: &'static str)
    requires
        d < 16,
    ensures
        r@ == seq![digit_char(d as nat)],
{
    proof {
        reveal_strlit("0");
        reveal_strlit("1");
        reveal_strlit("2");
        reveal_strlit("3");
        reveal_strlit("4");
        reveal_strlit("5");
        reveal_strlit("6");
        reveal_strlit("7");
        reveal_strlit("8");
        reveal_strlit("9");
        reveal_strlit("a");
        reveal_strlit("b");
        reveal_strlit("c");
        reveal_strlit("d");
        reveal_strlit("e");
        reveal_strlit("f");
    }
    match d {
        0 => "0",
        1 => "1",
        2 => "2",
        3 => "3",
        4 => "4",
        5 => "5",
        6 => "6",
        7 => "7",
        8 => "8",
        9 => "9",
        10 => "a",
        11 => "b",
        12 => "c",
        13 => "d",
        14 => "e",
        _ => "f",
    }
}

fn push_num(out: &mut String, n: u32, hex: bool)
    ensures
        final(out)@ == old(out)@ + if hex { hex_text(n as nat) } else { dec_text(n as nat) },
    decreases n,
{
    let base: u32 = if hex { 16 } else { 10 };
    if n >= base {
        push_num(out, n / base, hex);
    }
    out.append(digit_str(n % base));
    assert(final(out)@ =~= old(out)@ + if hex { hex_text(n as nat) } else { dec_text(n as nat) });
}

fn push_v4(out: &mut String, o: [u8; 4])
    ensures
        final(out)@ == old(out)@ + v4_text(o@),
{
    proof {
        reveal_strlit(".");
    }
    let ghost start = out@;
    push_num(out, o[0] as u32, false);
    out.append(".");
    push_num(out, o[1] as u32, false);
    out.append(".");
    push_num(out, o[2] as u32, false);
    out.append(".");
    push_num(out, o[3] as u32, false);
    assert(out@ =~= start + v4_text(o@));
}

/// Appends groups `lo..hi` of `g`, separated by `:`.
fn push_groups(out: &mut String, g: &[u16; 8], lo: usize, hi: usize)
    requires
        lo <= hi <= 8,
    ensures
        final(out)@ == old(out)@ + groups_text(g@.subrange(lo as int, hi as int)),
{
    proof {
        reveal_strlit(":");
    }
    let ghost start = out@;
    let mut i: usize = lo;
    while i < hi
        invariant
            lo <= i <= hi <= 8,
            out@ == start + groups_text(g@.subrange(lo as int, i as int)),
        decreases hi - i,
    {
        let ghost sub = g@.subrange(lo as int, i + 1);
        assert(sub.drop_last() =~= g@.subrange(lo as int, i as int));
        assert(sub.last() == g@[i as int]);
        assert(sub.len() == i + 1 - lo);
        proof {
            reveal_strlit(":");
        }
        assert(":"@ =~= seq![':']);
        if i > lo {
            out.append(":");
        }
        push_num(out, g[i] as u32, true);
        i = i + 1;
        assert(out@ =~= start + groups_text(g@.subrange(lo as int, i as int)));
    }
}

/// The first longest run of zero groups, as start and length.
fn find_zero_run(g: &[u16; 8]) -> (r: (usize, usize))
    ensures
        (r.0 as int, r.1 as int) == zero_run(g@),
        r.0 + r.1 <= 8,
{
    let mut cs: usize = 0;
    let mut cl: usize = 0;
    let mut bs: usize = 0;
    let mut bl: usize = 0;
    let mut i: usize = 0;
    while i < 8
        invariant
            i <= 8,
            cl <= i,
            cl > 0 ==> cs + cl == i,
            bs + bl <= i,
            zero_run(g@) == zero_run_from(g@, i as int, cs as int, cl as int, bs as int, bl as int),
        decreases 8 - i,
    {
        if g[i] == 0 {
            if cl == 0 {
                cs = i;
            }
            cl = cl + 1;
            if cl > bl {
                bs = cs;
                bl = cl;
            }
        } else {
            cs = 0;
            cl = 0;
        }
        i = i + 1;
    }
    (bs, bl)
}

/// The canonical text of an address.
pub fn address_text(a: &IpAddress) -> (r: String)
    ensures
        r@ == addr_text(a@),
{
    let mut out = String::new();
    match a {
        IpAddress::V4(o) => {
            push_v4(&mut out, *o);
            assert(out@ =~= addr_text(a@));
        },
        IpAddress::V6(g) => {
            if g[0] == 0 && g[1] == 0 && g[2] == 0 && g[3] == 0 && g[4] == 0 && g[5] == 0xffff {
                proof {
                    reveal_strlit("::ffff:");
                }
                out.append("::ffff:");
                let o: [u8; 4] = [(g[6] / 256) as u8, (g[6] % 256) as u8, (g[7] / 256) as u8, (
                g[7] % 256) as u8];
                push_v4(&mut out, o);
                assert(o@ =~= seq![(g@[6] / 256) as u8, (g@[6] % 256) as u8, (g@[7] / 256) as u8, (g@[7] % 256) as u8]);
                assert(out@ =~= addr_text(a@));
            } else {
                let (s, l) = find_zero_run(g);
                if l > 1 {
                    proof {
                        reveal_strlit("::");
                    }
                    push_groups(&mut out, g, 0, s);
                    out.append("::");
                    push_groups(&mut out, g, s + l, 8);
                    assert(out@ =~= addr_text(a@));
                } else {
                    push_groups(&mut out, g, 0, 8);
                    assert(g@.subrange(0, 8) =~= g@);
                    assert(out@ =~= addr_text(a@));
                }
            }
        },
    }
    out
}

} // verus!
