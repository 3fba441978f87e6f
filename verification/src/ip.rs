//! Textual IP address parsing with the grammar of the standard library's
//! `IpAddr::from_str`: dotted-quad IPv4 (one to three decimal digits per
//! octet, no leading zero, at most 255) tried first, then IPv6 (one to four
//! hex digits per group, at most one `::`, an embedded IPv4 address only in
//! the last two group positions).
use vstd::prelude::*;

verus! {

/// A parsed address.
#[derive(Debug, Clone, PartialEq, Eq, Structural)]
pub enum IpValue {
    V4(u8, u8, u8, u8),
    V6(u16, u16, u16, u16, u16, u16, u16, u16),
}

/// Decimal digit value.
pub open spec fn dec_digit(c: char) -> Option<nat> {
    if '0' <= c && c <= '9' {
        Some((c as nat - '0' as nat) as nat)
    } else {
        None
    }
}

/// Hexadecimal digit value (either case).
pub open spec fn hex_digit(c: char) -> Option<nat> {
    if '0' <= c && c <= '9' {
        Some((c as nat - '0' as nat) as nat)
    } else if 'a' <= c && c <= 'f' {
        Some((c as nat - 'a' as nat + 10) as nat)
    } else if 'A' <= c && c <= 'F' {
        Some((c as nat - 'A' as nat + 10) as nat)
    } else {
        None
    }
}

/// Digit value in radix 10 or 16.
pub open spec fn digit_in(radix: nat, c: char) -> Option<nat> {
    if radix == 16 {
        hex_digit(c)
    } else {
        dec_digit(c)
    }
}

/// Length of the run of radix digits starting at `pos`.
pub open spec fn digit_run(s: Seq<char>, pos: int, radix: nat) -> nat
    decreases s.len() - pos,
{
    if pos < 0 || pos >= s.len() || digit_in(radix, s[pos]) is None {
        0
    } else {
        1 + digit_run(s, pos + 1, radix)
    }
}

/// Value of the `n` radix digits starting at `pos`.
pub open spec fn digits_value(s: Seq<char>, pos: int, n: nat, radix: nat) -> nat
    decreases n,
{
    if n == 0 {
        0
    } else {
        digits_value(s, pos, (n - 1) as nat, radix) * radix + match digit_in(
            radix,
            s[pos + n - 1],
        ) {
            Some(d) => d,
            None => 0,
        }
    }
}

/// Reads a number at `pos` the way the standard parser does: the whole
/// run of digits, at most `max_digits` of them, no leading zero unless
/// allowed or alone, value at most `max_value`. Yields the value and the
/// position after it.
pub open spec fn read_number(
    s: Seq<char>,
    pos: int,
    radix: nat,
    max_digits: nat,
    allow_zero_prefix: bool,
    max_value: nat,
) -> Option<(nat, int)> {
    let n = digit_run(s, pos, radix);
    let v = digits_value(s, pos, n, radix);
    if n == 0 || n > max_digits {
        None
    } else if !allow_zero_prefix && s[pos] == '0' && n > 1 {
        None
    } else if v > max_value {
        None
    } else {
        Some((v, pos + n))
    }
}

/// Reads one decimal octet.
pub open spec fn read_octet(s: Seq<char>, pos: int) -> Option<(nat, int)> {
    read_number(s, pos, 10, 3, false, 255)
}

/// `c` stands at `pos`.
pub open spec fn char_at(s: Seq<char>, pos: int, c: char) -> bool {
    0 <= pos < s.len() && s[pos] == c
}

/// Reads a dotted-quad IPv4 address starting at `pos`.
pub open spec fn read_ipv4(s: Seq<char>, pos: int) -> Option<(Seq<nat>, int)> {
    match read_octet(s, pos) {
        None => None,
        Some((a, p1)) => if !char_at(s, p1, '.') {
            None
        } else {
            match read_octet(s, p1 + 1) {
                None => None,
                Some((b, p2)) => if !char_at(s, p2, '.') {
                    None
                } else {
                    match read_octet(s, p2 + 1) {
                        None => None,
                        Some((c, p3)) => if !char_at(s, p3, '.') {
                            None
                        } else {
                            match read_octet(s, p3 + 1) {
                                None => None,
                                Some((d, p4)) => Some((seq![a, b, c, d], p4)),
                            }
                        },
                    }
                },
            }
        },
    }
}

/// Reads an item preceded by `:` unless it is the first of its run.
pub open spec fn sep_start(s: Seq<char>, pos: int, index: nat) -> Option<int> {
    if index == 0 {
        Some(pos)
    } else if char_at(s, pos, ':') {
        Some(pos + 1)
    } else {
        None
    }
}

/// Reads colon-separated IPv6 groups from `pos`, item `i` of at most
/// `limit`, with an embedded IPv4 address allowed while two slots remain.
/// Yields the groups read, whether an IPv4 tail was read, and the
/// position after them.
pub open spec fn read_groups(s: Seq<char>, pos: int, i: nat, limit: nat) -> (Seq<nat>, bool, int)
    decreases limit - i,
{
    if i >= limit {
        (Seq::empty(), false, pos)
    } else {
        let v4 = if i + 1 < limit {
            match sep_start(s, pos, i) {
                Some(q) => read_ipv4(s, q),
                None => None,
            }
        } else {
            None
        };
        match v4 {
            Some((oct, q2)) => (
                seq![oct[0] * 256 + oct[1], oct[2] * 256 + oct[3]],
                true,
                q2,
            ),
            None => {
                let g = match sep_start(s, pos, i) {
                    Some(q) => read_number(s, q, 16, 4, true, 65535),
                    None => None,
                };
                match g {
                    Some((v, q2)) => {
                        let rest = read_groups(s, q2, i + 1, limit);
                        (seq![v] + rest.0, rest.1, rest.2)
                    },
                    None => (Seq::empty(), false, pos),
                }
            },
        }
    }
}

/// The eight groups of a full IPv6 text, if it parses.
pub open spec fn parse_ipv6(s: Seq<char>) -> Option<Seq<nat>> {
    let head = read_groups(s, 0, 0, 8);
    let h = head.0.len();
    if h == 8 {
        if head.2 == s.len() {
            Some(head.0)
        } else {
            None
        }
    } else if head.1 {
        None
    } else if !(char_at(s, head.2, ':') && char_at(s, head.2 + 1, ':')) {
        None
    } else {
        let tail = read_groups(s, head.2 + 2, 0, (7 - h) as nat);
        let t = tail.0.len();
        if tail.2 == s.len() {
            Some(head.0 + Seq::new((8 - h - t) as nat, |k: int| 0nat) + tail.0)
        } else {
            None
        }
    }
}

/// The four octets of a full IPv4 text, if it parses.
pub open spec fn parse_ipv4(s: Seq<char>) -> Option<Seq<nat>> {
    match read_ipv4(s, 0) {
        Some((o, p)) => if p == s.len() {
            Some(o)
        } else {
            None
        },
        None => None,
    }
}

/// What `s.parse::<IpAddr>()` yields.
pub open spec fn parse_ip(s: Seq<char>) -> Option<IpValue> {
    match parse_ipv4(s) {
        Some(o) => Some(IpValue::V4(o[0] as u8, o[1] as u8, o[2] as u8, o[3] as u8)),
        None => match parse_ipv6(s) {
            Some(g) => Some(
                IpValue::V6(
                    g[0] as u16,
                    g[1] as u16,
                    g[2] as u16,
                    g[3] as u16,
                    g[4] as u16,
                    g[5] as u16,
                    g[6] as u16,
                    g[7] as u16,
                ),
            ),
            None => None,
        },
    }
}

// ---------------------------------------------------------------------------
// Executable parser
// ---------------------------------------------------------------------------

/// Digit value of `c` in `radix` (10 or 16).
fn digit_value(radix: u32, c: char) -> (r: Option<u32>)
    requires
        radix == 10 || radix == 16,
    ensures
        match digit_in(radix as nat, c) {
            Some(d) => r == Some(d as u32),
            None => r is None,
        },
{
    if '0' <= c && c <= '9' {
        Some((c as u32) - ('0' as u32))
    } else if radix == 16 && 'a' <= c && c <= 'f' {
        Some((c as u32) - ('a' as u32) + 10)
    } else if radix == 16 && 'A' <= c && c <= 'F' {
        Some((c as u32) - ('A' as u32) + 10)
    } else {
        None
    }
}

/// Lemma: extending a digit run by one digit.
proof fn lemma_digit_run_step(s: Seq<char>, pos: int, k: nat, radix: nat)
    requires
        0 <= pos,
        k < digit_run(s, pos, radix),
    ensures
        pos + k < s.len(),
        digit_in(radix, s[pos + k]) is Some,
    decreases k,
{
    if k > 0 {
        lemma_digit_run_step(s, pos + 1, (k - 1) as nat, radix);
    }
}

/// Lemma: a run stops at the first non-digit.
proof fn lemma_digit_run_end(s: Seq<char>, pos: int, k: nat, radix: nat)
    requires
        0 <= pos,
        forall|j: int| 0 <= j < k ==> pos + j < s.len() && #[trigger] digit_in(radix, s[pos + j])
            is Some,
        pos + k >= s.len() || digit_in(radix, s[pos + k]) is None,
    ensures
        digit_run(s, pos, radix) == k,
    decreases k,
{
    if k > 0 {
        assert forall|j: int| 0 <= j < k - 1 implies (pos + 1) + j < s.len() && #[trigger] digit_in(
            radix,
            s[(pos + 1) + j],
        ) is Some by {
            assert(digit_in(radix, s[pos + (j + 1)]) is Some);
        }
        lemma_digit_run_end(s, pos + 1, (k - 1) as nat, radix);
        assert(digit_in(radix, s[pos + 0]) is Some);
    }
}

/// Reads a number at `pos` as the standard parser does.
fn read_number_exec(
    s: &[char],
    pos: usize,
    radix: u32,
    max_digits: usize,
    allow_zero_prefix: bool,
    max_value: u32,
) -> (r: Option<(u32, usize)>)
    requires
        radix == 10 || radix == 16,
        1 <= max_digits <= 4,
        pos <= s.len(),
        max_value <= 65535,
    ensures
        match read_number(
            s@,
            pos as int,
            radix as nat,
            max_digits as nat,
            allow_zero_prefix,
            max_value as nat,
        ) {
            Some((v, p)) => r == Some((v as u32, p as usize)),
            None => r is None,
        },
{
    let mut n: usize = 0;
    let mut v: u32 = 0;
    assert(pow_bound(radix as nat, 0) == 1);
    while pos + n < s.len()
        invariant
            pos <= s.len(),
            pos + n <= s.len(),
            n <= max_digits,
            1 <= max_digits <= 4,
            radix == 10 || radix == 16,
            forall|j: int| 0 <= j < n ==> #[trigger] digit_in(radix as nat, s@[pos + j]) is Some,
            v as nat == digits_value(s@, pos as int, n as nat, radix as nat),
            v < pow_bound(radix as nat, n as nat),
        ensures
            pos + n <= s.len(),
            n <= max_digits,
            forall|j: int| 0 <= j < n ==> #[trigger] digit_in(radix as nat, s@[pos + j]) is Some,
            v as nat == digits_value(s@, pos as int, n as nat, radix as nat),
            pos + n >= s.len() || digit_in(radix as nat, s@[pos + n as int]) is None,
        decreases s.len() - n,
    {
        match digit_value(radix, s[pos + n]) {
            Some(d) => {
                if n == max_digits {
                    proof {
                        assert(digit_in(radix as nat, s@[pos + n as int]) is Some);
                        lemma_digit_run_lower(s@, pos as int, (n + 1) as nat, radix as nat);
                    }
                    return None;
                }
                proof {
                    lemma_pow_bound_step(radix as nat, n as nat, v as nat, d as nat);
                }
                v = v * radix + d;
                n = n + 1;
            },
            None => {
                break;
            },
        }
    }
    proof {
        lemma_digit_run_end(s@, pos as int, n as nat, radix as nat);
    }
    if n == 0 || n > max_digits {
        return None;
    }
    if !allow_zero_prefix && s[pos] == '0' && n > 1 {
        return None;
    }
    if v > max_value {
        return None;
    }
    Some((v, pos + n))
}

/// `radix` to the `n`.
pub open spec fn pow_bound(radix: nat, n: nat) -> nat
    decreases n,
{
    if n == 0 {
        1
    } else {
        radix * pow_bound(radix, (n - 1) as nat)
    }
}

/// Lemma: appending a digit keeps the value under the next power.
proof fn lemma_pow_bound_step(radix: nat, n: nat, v: nat, d: nat)
    requires
        radix == 10 || radix == 16,
        n <= 3,
        v < pow_bound(radix, n),
        d < radix,
    ensures
        v * radix + d < pow_bound(radix, n + 1),
        v * radix + d <= 1048575,
{
    assert(pow_bound(radix, n + 1) == radix * pow_bound(radix, n));
    assert(v * radix + d < pow_bound(radix, n) * radix) by (nonlinear_arith)
        requires
            v < pow_bound(radix, n),
            d < radix,
    ;
    assert(pow_bound(radix, 0) == 1);
    assert(pow_bound(radix, 1) == radix);
    assert(pow_bound(radix, 2) == radix * radix);
    assert(pow_bound(radix, 3) == radix * (radix * radix));
    assert(pow_bound(radix, 4) == radix * (radix * (radix * radix)));
    assert(pow_bound(radix, n + 1) <= 65536);
}

/// Lemma: `k` leading digits mean the run is at least `k` long.
proof fn lemma_digit_run_lower(s: Seq<char>, pos: int, k: nat, radix: nat)
    requires
        0 <= pos,
        forall|j: int| 0 <= j < k ==> pos + j < s.len() && #[trigger] digit_in(radix, s[pos + j])
            is Some,
    ensures
        digit_run(s, pos, radix) >= k,
    decreases k,
{
    if k > 0 {
        assert forall|j: int| 0 <= j < k - 1 implies (pos + 1) + j < s.len() && #[trigger] digit_in(
            radix,
            s[(pos + 1) + j],
        ) is Some by {
            assert(digit_in(radix, s[pos + (j + 1)]) is Some);
        }
        lemma_digit_run_lower(s, pos + 1, (k - 1) as nat, radix);
        assert(digit_in(radix, s[pos + 0]) is Some);
    }
}

/// Whether `c` stands at `pos`.
fn char_at_exec(s: &[char], pos: usize, c: char) -> (r: bool)
    ensures
        r == char_at(s@, pos as int, c),
{
    pos < s.len() && s[pos] == c
}

/// Reads a dotted-quad IPv4 address at `pos`.
fn read_ipv4_exec(s: &[char], pos: usize) -> (r: Option<(u32, u32, u32, u32, usize)>)
    requires
        pos <= s.len(),
    ensures
        match read_ipv4(s@, pos as int) {
            Some((o, p)) => r == Some(
                (o[0] as u32, o[1] as u32, o[2] as u32, o[3] as u32, p as usize),
            ) && o.len() == 4 && o[0] <= 255 && o[1] <= 255 && o[2] <= 255 && o[3] <= 255 && pos
                <= p <= s.len(),
            None => r is None,
        },
{
    proof {
        lemma_read_number_bounds(s@, (pos) as int, 10, 3, false, 255);
    }
    let (a, p1) = match read_number_exec(s, pos, 10, 3, false, 255) {
        Some(x) => x,
        None => return None,
    };
    if !char_at_exec(s, p1, '.') {
        return None;
    }
    proof {
        lemma_read_number_bounds(s@, (p1 + 1) as int, 10, 3, false, 255);
    }
    let (b, p2) = match read_number_exec(s, p1 + 1, 10, 3, false, 255) {
        Some(x) => x,
        None => return None,
    };
    if !char_at_exec(s, p2, '.') {
        return None;
    }
    proof {
        lemma_read_number_bounds(s@, (p2 + 1) as int, 10, 3, false, 255);
    }
    let (c, p3) = match read_number_exec(s, p2 + 1, 10, 3, false, 255) {
        Some(x) => x,
        None => return None,
    };
    if !char_at_exec(s, p3, '.') {
        return None;
    }
    proof {
        lemma_read_number_bounds(s@, (p3 + 1) as int, 10, 3, false, 255);
    }
    let (d, p4) = match read_number_exec(s, p3 + 1, 10, 3, false, 255) {
        Some(x) => x,
        None => return None,
    };
    Some((a, b, c, d, p4))
}

/// Lemma: what `read_number` yields lies past `pos` and within `s`.
proof fn lemma_read_number_bounds(
    s: Seq<char>,
    pos: int,
    radix: nat,
    max_digits: nat,
    allow_zero_prefix: bool,
    max_value: nat,
)
    requires
        0 <= pos,
    ensures
        match read_number(s, pos, radix, max_digits, allow_zero_prefix, max_value) {
            Some((v, p)) => pos < p <= s.len() && v <= max_value,
            None => true,
        },
{
    let n = digit_run(s, pos, radix);
    if n > 0 {
        lemma_digit_run_step(s, pos, (n - 1) as nat, radix);
    }
}

/// Reads colon-separated IPv6 groups as `read_groups` describes.
fn read_groups_exec(s: &[char], pos: usize, i: usize, limit: usize) -> (r: (Vec<u32>, bool, usize))
    requires
        pos <= s.len(),
        limit <= 8,
    ensures
        r.0@.len() == read_groups(s@, pos as int, i as nat, limit as nat).0.len(),
        forall|k: int|
            0 <= k < r.0@.len() ==> #[trigger] r.0@[k] as nat == read_groups(
                s@,
                pos as int,
                i as nat,
                limit as nat,
            ).0[k] && r.0@[k] <= 65535,
        r.1 == read_groups(s@, pos as int, i as nat, limit as nat).1,
        r.2 as int == read_groups(s@, pos as int, i as nat, limit as nat).2,
        pos <= r.2 <= s.len(),
        r.0@.len() <= limit - i || i >= limit,
    decreases limit - i,
{
    if i >= limit {
        return (Vec::new(), false, pos);
    }
    let start: Option<usize> = if i == 0 {
        Some(pos)
    } else if char_at_exec(s, pos, ':') {
        Some(pos + 1)
    } else {
        None
    };
    if i + 1 < limit {
        match start {
            Some(q) => {
                match read_ipv4_exec(s, q) {
                    Some((a, b, c, d, q2)) => {
                        let mut v: Vec<u32> = Vec::new();
                        v.push(a * 256 + b);
                        v.push(c * 256 + d);
                        return (v, true, q2);
                    },
                    None => {},
                }
            },
            None => {},
        }
    }
    let g = match start {
        Some(q) => {
            proof {
                lemma_read_number_bounds(s@, q as int, 16, 4, true, 65535);
            }
            read_number_exec(s, q, 16, 4, true, 65535)
        },
        None => None,
    };
    match g {
        Some((v, q2)) => {
            let (rest, flag, end) = read_groups_exec(s, q2, i + 1, limit);
            let mut out: Vec<u32> = Vec::new();
            out.push(v);
            let mut k: usize = 0;
            while k < rest.len()
                invariant
                    k <= rest@.len(),
                    out@.len() == k + 1,
                    out@[0] == v,
                    forall|j: int| 0 <= j < k ==> #[trigger] out@[j + 1] == rest@[j],
                decreases rest@.len() - k,
            {
                out.push(rest[k]);
                k = k + 1;
            }
            let ghost sg = read_groups(s@, pos as int, i as nat, limit as nat);
            let ghost sr = read_groups(s@, q2 as int, (i + 1) as nat, limit as nat);
            assert(sg.0 =~= seq![v as nat] + sr.0);
            assert forall|j: int| 0 <= j < out@.len() implies #[trigger] out@[j] as nat == sg.0[j]
                && out@[j] <= 65535 by {
                if j > 0 {
                    assert(out@[(j - 1) + 1] == rest@[j - 1]);
                }
            }
            (out, flag, end)
        },
        None => (Vec::new(), false, pos),
    }
}

/// Parses a full IPv6 text into its eight groups.
fn parse_ipv6_exec(s: &[char]) -> (r: Option<Vec<u32>>)
    ensures
        match parse_ipv6(s@) {
            Some(g) => r matches Some(v) && v@.len() == 8 && g.len() == 8 && forall|k: int|
                0 <= k < 8 ==> #[trigger] v@[k] as nat == g[k] && v@[k] <= 65535,
            None => r is None,
        },
{
    let (head, head_v4, p1) = read_groups_exec(s, 0, 0, 8);
    let h = head.len();
    if h == 8 {
        if p1 == s.len() {
            return Some(head);
        }
        return None;
    }
    if head_v4 {
        return None;
    }
    if !(char_at_exec(s, p1, ':') && char_at_exec(s, p1 + 1, ':')) {
        return None;
    }
    let (tail, _tail_v4, p3) = read_groups_exec(s, p1 + 2, 0, 7 - h);
    if p3 != s.len() {
        return None;
    }
    let t = tail.len();
    let ghost hg = read_groups(s@, 0, 0, 8).0;
    let ghost tg = read_groups(s@, p1 + 2, 0, (7 - h) as nat).0;
    let ghost zeros = Seq::new((8 - h - t) as nat, |k: int| 0nat);
    let mut out: Vec<u32> = Vec::new();
    let mut k: usize = 0;
    while k < h
        invariant
            k <= h,
            h == head@.len(),
            out@.len() == k,
            forall|j: int| 0 <= j < k ==> #[trigger] out@[j] == head@[j],
        decreases h - k,
    {
        out.push(head[k]);
        k = k + 1;
    }
    let mut z: usize = 0;
    while z < 8 - h - t
        invariant
            h + t <= 8,
            z <= 8 - h - t,
            out@.len() == h + z,
            forall|j: int| 0 <= j < h ==> #[trigger] out@[j] == head@[j],
            forall|j: int| h <= j < h + z ==> #[trigger] out@[j] == 0,
        decreases 8 - h - t - z,
    {
        out.push(0);
        z = z + 1;
    }
    let mut m: usize = 0;
    while m < t
        invariant
            h + t <= 8,
            t == tail@.len(),
            m <= t,
            out@.len() == 8 - t + m,
            forall|j: int| 0 <= j < h ==> #[trigger] out@[j] == head@[j],
            forall|j: int| h <= j < 8 - t ==> #[trigger] out@[j] == 0,
            forall|j: int| 0 <= j < m ==> #[trigger] out@[8 - t + j] == tail@[j],
        decreases t - m,
    {
        out.push(tail[m]);
        m = m + 1;
    }
    let ghost g = hg + zeros + tg;
    assert forall|j: int| 0 <= j < 8 implies #[trigger] out@[j] as nat == g[j] && out@[j]
        <= 65535 by {
        if j < h {
        } else if j < 8 - t {
        } else {
            assert(out@[8 - t + (j - (8 - t))] == tail@[j - (8 - t)]);
        }
    }
    Some(out)
}

/// Parses `s` as an IP address the way `s.parse::<IpAddr>()` does.
pub fn parse_ip_exec(s: &[char]) -> (r: Option<IpValue>)
    ensures
        r == parse_ip(s@),
{
    match read_ipv4_exec(s, 0) {
        Some((a, b, c, d, p)) => {
            if p == s.len() {
                return Some(IpValue::V4(a as u8, b as u8, c as u8, d as u8));
            }
        },
        None => {},
    }
    match parse_ipv6_exec(s) {
        Some(g) => Some(
            IpValue::V6(
                g[0] as u16,
                g[1] as u16,
                g[2] as u16,
                g[3] as u16,
                g[4] as u16,
                g[5] as u16,
                g[6] as u16,
                g[7] as u16,
            ),
        ),
        None => None,
    }
}

}
