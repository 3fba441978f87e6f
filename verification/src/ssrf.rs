//! SSRF (server-side request forgery) protection: built-in deny rules that
//! keep agents away from internal networks, loopback, link-local and cloud
//! metadata endpoints, internal DNS names and operator-listed hosts.
use vstd::prelude::*;

use crate::ip::{parse_ip, parse_ip_exec, IpValue};
use crate::text::{
    append_chars, append_str, before_first, chars_eq, chars_of, contains_seq, contains_str,
    ends_with, ends_with_str, eq_str, find_char, first_index_of, is_prefix, is_suffix,
    lemma_first_index_of, lowercase, string_views, slice_chars, starts_with_str, string_from_chars,
    take_before, to_lowercase,
};

verus! {

broadcast use vstd::string::group_string_axioms;

/// SSRF protection configuration.
#[derive(Debug, Clone)]
pub struct SsrfProtection {
    /// Block private IP ranges (RFC 1918).
    pub block_private_ips: bool,
    /// Block link-local addresses (169.254.0.0/16).
    pub block_link_local: bool,
    /// Block localhost (127.0.0.0/8, ::1, localhost).
    pub block_localhost: bool,
    /// Block cloud metadata endpoints.
    pub block_cloud_metadata: bool,
    /// Block internal DNS suffixes (.internal, .local, ...).
    pub block_internal_dns: bool,
    /// Additional blocked hostnames (lowercase).
    pub additional_blocked: Vec<String>,
}

// ---------------------------------------------------------------------------
// Host extraction
// ---------------------------------------------------------------------------

/// What follows a recognised scheme (`http://`, `https://`, `ftp://`).
pub open spec fn after_scheme(r: Seq<char>) -> Option<Seq<char>> {
    if is_prefix("http://"@, r) {
        Some(r.subrange(7, r.len() as int))
    } else if is_prefix("https://"@, r) {
        Some(r.subrange(8, r.len() as int))
    } else if is_prefix("ftp://"@, r) {
        Some(r.subrange(6, r.len() as int))
    } else {
        None
    }
}

/// The bracketed IPv6 text of a host part `[...]...`, if it has one.
pub open spec fn bracketed(hp: Seq<char>) -> Option<Seq<char>> {
    if hp.len() > 0 && hp[0] == '[' {
        match first_index_of(hp, ']') {
            Some(e) => Some(hp.subrange(1, e)),
            None => None,
        }
    } else {
        None
    }
}

/// The lowercase host of a resource: bracketed IPv6 text, or what stands
/// before the first `:` of the part before the first `/`; for a resource
/// without a scheme an empty host means none.
pub open spec fn extracted_host(resource: Seq<char>) -> Option<Seq<char>> {
    match after_scheme(resource) {
        Some(rest) => {
            let hp = before_first(rest, '/');
            match bracketed(hp) {
                Some(b) => Some(lowercase(b)),
                None => Some(lowercase(before_first(hp, ':'))),
            }
        },
        None => {
            let hp = before_first(resource, '/');
            match bracketed(hp) {
                Some(b) => Some(lowercase(b)),
                None => {
                    let h = before_first(hp, ':');
                    if h.len() > 0 {
                        Some(lowercase(h))
                    } else {
                        None
                    }
                },
            }
        },
    }
}

// ---------------------------------------------------------------------------
// Decisions
// ---------------------------------------------------------------------------

/// Reason for blocking a cloud metadata endpoint or path, if any.
pub open spec fn cloud_metadata_block(host: Seq<char>, resource: Seq<char>) -> Option<Seq<char>> {
    if host == "169.254.169.254"@ {
        Some("SSRF: cloud metadata endpoint blocked (169.254.169.254)"@)
    } else if host == "instance-data"@ || is_prefix("instance-data."@, host) {
        Some("SSRF: AWS metadata hostname blocked"@)
    } else if host == "metadata.google.internal"@ || host == "metadata"@ {
        Some("SSRF: GCP metadata endpoint blocked"@)
    } else if host == "metadata.azure.com"@ {
        Some("SSRF: Azure metadata endpoint blocked"@)
    } else if host == "kubernetes.default"@ || host == "kubernetes.default.svc"@ || is_prefix(
        "kubernetes.default.svc."@,
        host,
    ) {
        Some("SSRF: Kubernetes service endpoint blocked"@)
    } else if contains_seq(lowercase(resource), "/latest/meta-data"@) || contains_seq(
        lowercase(resource),
        "/metadata/instance"@,
    ) || contains_seq(lowercase(resource), "/computemetadata/v1"@) {
        Some("SSRF: cloud metadata path pattern blocked"@)
    } else {
        None
    }
}

/// Reason for blocking an IPv4 address, if any.
pub open spec fn ipv4_block(p: SsrfProtection, a: u8, b: u8) -> Option<Seq<char>> {
    if p.block_localhost && a == 127 {
        Some("SSRF: localhost IP blocked (127.0.0.0/8)"@)
    } else if p.block_link_local && a == 169 && b == 254 {
        Some("SSRF: link-local IP blocked (169.254.0.0/16)"@)
    } else if p.block_private_ips && a == 10 {
        Some("SSRF: private IP blocked (10.0.0.0/8)"@)
    } else if p.block_private_ips && a == 172 && 16 <= b <= 31 {
        Some("SSRF: private IP blocked (172.16.0.0/12)"@)
    } else if p.block_private_ips && a == 192 && b == 168 {
        Some("SSRF: private IP blocked (192.168.0.0/16)"@)
    } else {
        None
    }
}

/// Reason for blocking an IP address, if any: IPv6 loopback, or the
/// IPv4 rules applied to an IPv4-mapped IPv6 address.
pub open spec fn ip_block(p: SsrfProtection, ip: IpValue) -> Option<Seq<char>> {
    match ip {
        IpValue::V4(a, b, _, _) => ipv4_block(p, a, b),
        IpValue::V6(g0, g1, g2, g3, g4, g5, g6, g7) => {
            if p.block_localhost && g0 == 0 && g1 == 0 && g2 == 0 && g3 == 0 && g4 == 0 && g5 == 0
                && g6 == 0 && g7 == 1 {
                Some("SSRF: localhost IP blocked (::1)"@)
            } else if g0 == 0 && g1 == 0 && g2 == 0 && g3 == 0 && g4 == 0 && g5 == 0xffff {
                ipv4_block(p, (g6 / 256) as u8, (g6 % 256) as u8)
            } else {
                None
            }
        },
    }
}

/// The host ends with one of the internal DNS suffixes.
pub open spec fn internal_suffix(host: Seq<char>) -> bool {
    is_suffix(".internal"@, host) || is_suffix(".local"@, host) || is_suffix(".localhost"@, host)
        || is_suffix(".localdomain"@, host) || is_suffix(".home"@, host) || is_suffix(".lan"@, host)
        || is_suffix(".corp"@, host) || is_suffix(".intranet"@, host)
}

/// The first listed pattern that the host equals or is a subdomain of.
pub open spec fn custom_block(host: Seq<char>, pats: Seq<Seq<char>>) -> Option<Seq<char>>
    decreases pats.len(),
{
    if pats.len() == 0 {
        None
    } else if host == pats[0] || is_suffix(seq!['.'] + pats[0], host) {
        Some("SSRF: blocked by custom rule ("@ + pats[0] + ")"@)
    } else {
        custom_block(host, pats.drop_first())
    }
}

/// Reason for blocking a host name, if any.
pub open spec fn hostname_block(p: SsrfProtection, host: Seq<char>) -> Option<Seq<char>> {
    if p.block_localhost && (host == "localhost"@ || host == "localhost.localdomain"@) {
        Some("SSRF: localhost hostname blocked"@)
    } else if p.block_internal_dns && internal_suffix(host) {
        Some("SSRF: internal DNS suffix blocked ("@ + host + ")"@)
    } else {
        custom_block(host, string_views(p.additional_blocked@))
    }
}

/// Reason for blocking a resource, if any: cloud metadata first, then IP
/// rules when the host is an IP address, else host name rules.
pub open spec fn resource_block(p: SsrfProtection, resource: Seq<char>) -> Option<Seq<char>> {
    match extracted_host(resource) {
        None => None,
        Some(host) => {
            if p.block_cloud_metadata && cloud_metadata_block(host, resource) is Some {
                cloud_metadata_block(host, resource)
            } else {
                match parse_ip(host) {
                    Some(ip) => ip_block(p, ip),
                    None => hostname_block(p, host),
                }
            }
        },
    }
}

/// A fresh `String` with the characters of `lit`.
fn lit(s: &str) -> (r: Option<String>)
    ensures
        r matches Some(x) && x@ == s@,
{
    let v = chars_of(s);
    Some(string_from_chars(v.as_slice()))
}

impl SsrfProtection {
    /// Every rule enabled and no extra hosts.
    pub open spec fn spec_is_default(self) -> bool {
        &&& self.block_private_ips
        &&& self.block_link_local
        &&& self.block_localhost
        &&& self.block_cloud_metadata
        &&& self.block_internal_dns
        &&& self.additional_blocked@.len() == 0
    }

    /// Every rule disabled and no extra hosts.
    pub open spec fn spec_is_disabled(self) -> bool {
        &&& !self.block_private_ips
        &&& !self.block_link_local
        &&& !self.block_localhost
        &&& !self.block_cloud_metadata
        &&& !self.block_internal_dns
        &&& self.additional_blocked@.len() == 0
    }

    /// Protection with every rule enabled and no extra hosts.
    pub fn new() -> (r: Self)
        ensures
            r.spec_is_default(),
    {
        SsrfProtection {
            block_private_ips: true,
            block_link_local: true,
            block_localhost: true,
            block_cloud_metadata: true,
            block_internal_dns: true,
            additional_blocked: Vec::new(),
        }
    }

    /// Protection that allows every resource.
    pub fn disabled() -> (r: Self)
        ensures
            r.spec_is_disabled(),
    {
        SsrfProtection {
            block_private_ips: false,
            block_link_local: false,
            block_localhost: false,
            block_cloud_metadata: false,
            block_internal_dns: false,
            additional_blocked: Vec::new(),
        }
    }

    /// Host of a URL (`scheme://host[:port][/path]`) or of a bare
    /// `host[:port][/path]`, lowercased.
    pub fn extract_host(&self, resource: &str) -> (r: Option<String>)
        ensures
            match extracted_host(resource@) {
                Some(h) => r matches Some(x) && x@ == h,
                None => r is None,
            },
    {
        let res = chars_of(resource);
        proof {
            reveal_strlit("http://");
            reveal_strlit("https://");
            reveal_strlit("ftp://");
        }
        let rest: Option<Vec<char>> = if starts_with_str(res.as_slice(), "http://") {
            Some(slice_chars(res.as_slice(), 7, res.len()))
        } else if starts_with_str(res.as_slice(), "https://") {
            Some(slice_chars(res.as_slice(), 8, res.len()))
        } else if starts_with_str(res.as_slice(), "ftp://") {
            Some(slice_chars(res.as_slice(), 6, res.len()))
        } else {
            None
        };
        let has_scheme = rest.is_some();
        let hp = match rest {
            Some(a) => take_before(a.as_slice(), '/'),
            None => take_before(res.as_slice(), '/'),
        };
        if hp.len() > 0 && hp[0] == '[' {
            match find_char(hp.as_slice(), ']') {
                Some(e) => {
                    proof {
                        lemma_first_index_of(hp@, ']');
                    }
                    let inner = slice_chars(hp.as_slice(), 1, e);
                    let s = string_from_chars(inner.as_slice());
                    return Some(to_lowercase(s.as_str()));
                },
                None => {},
            }
        }
        let before = take_before(hp.as_slice(), ':');
        if !has_scheme && before.len() == 0 {
            return None;
        }
        let s = string_from_chars(before.as_slice());
        Some(to_lowercase(s.as_str()))
    }

    /// Reason for blocking an IPv4 address with first octets `a`, `b`.
    fn check_ipv4(&self, a: u8, b: u8) -> (r: Option<String>)
        ensures
            match ipv4_block(*self, a, b) {
                Some(m) => r matches Some(x) && x@ == m,
                None => r is None,
            },
    {
        if self.block_localhost && a == 127 {
            return lit("SSRF: localhost IP blocked (127.0.0.0/8)");
        }
        if self.block_link_local && a == 169 && b == 254 {
            return lit("SSRF: link-local IP blocked (169.254.0.0/16)");
        }
        if self.block_private_ips {
            if a == 10 {
                return lit("SSRF: private IP blocked (10.0.0.0/8)");
            }
            if a == 172 && (b >= 16 && b <= 31) {
                return lit("SSRF: private IP blocked (172.16.0.0/12)");
            }
            if a == 192 && b == 168 {
                return lit("SSRF: private IP blocked (192.168.0.0/16)");
            }
        }
        None
    }

    /// Reason for blocking an IP address, if any.
    pub fn check_ip_address(&self, ip: &IpValue) -> (r: Option<String>)
        ensures
            match ip_block(*self, *ip) {
                Some(m) => r matches Some(x) && x@ == m,
                None => r is None,
            },
    {
        match ip {
            IpValue::V4(a, b, _, _) => self.check_ipv4(*a, *b),
            IpValue::V6(g0, g1, g2, g3, g4, g5, g6, g7) => {
                if self.block_localhost && *g0 == 0 && *g1 == 0 && *g2 == 0 && *g3 == 0 && *g4 == 0
                    && *g5 == 0 && *g6 == 0 && *g7 == 1 {
                    return lit("SSRF: localhost IP blocked (::1)");
                }
                if *g0 == 0 && *g1 == 0 && *g2 == 0 && *g3 == 0 && *g4 == 0 && *g5 == 0xffff {
                    return self.check_ipv4((*g6 / 256) as u8, (*g6 % 256) as u8);
                }
                None
            },
        }
    }

    /// Reason for blocking a host name, if any.
    pub fn check_hostname(&self, host: &str) -> (r: Option<String>)
        ensures
            match hostname_block(*self, host@) {
                Some(m) => r matches Some(x) && x@ == m,
                None => r is None,
            },
    {
        let h = chars_of(host);
        if self.block_localhost && (eq_str(h.as_slice(), "localhost") || eq_str(
            h.as_slice(),
            "localhost.localdomain",
        )) {
            return lit("SSRF: localhost hostname blocked");
        }
        if self.block_internal_dns {
            if ends_with_str(h.as_slice(), ".internal") || ends_with_str(h.as_slice(), ".local")
                || ends_with_str(h.as_slice(), ".localhost") || ends_with_str(
                h.as_slice(),
                ".localdomain",
            ) || ends_with_str(h.as_slice(), ".home") || ends_with_str(h.as_slice(), ".lan")
                || ends_with_str(h.as_slice(), ".corp") || ends_with_str(
                h.as_slice(),
                ".intranet",
            ) {
                let mut m: Vec<char> = Vec::new();
                append_str(&mut m, "SSRF: internal DNS suffix blocked (");
                append_chars(&mut m, h.as_slice());
                append_str(&mut m, ")");
                return Some(string_from_chars(m.as_slice()));
            }
        }
        let ghost pats = string_views(self.additional_blocked@);
        assert(pats.subrange(0, pats.len() as int) =~= pats);
        assert(hostname_block(*self, host@) == custom_block(host@, pats));
        let mut i: usize = 0;
        while i < self.additional_blocked.len()
            invariant
                i <= self.additional_blocked@.len(),
                hostname_block(*self, host@) == custom_block(host@, pats),
                pats == string_views(self.additional_blocked@),
                h@ == host@,
                custom_block(host@, pats) == custom_block(host@, pats.subrange(i as int, pats.len() as int)),
            decreases self.additional_blocked@.len() - i,
        {
            let pattern = self.additional_blocked[i].as_str();
            let pv = chars_of(pattern);
            let mut dotted: Vec<char> = Vec::new();
            dotted.push('.');
            append_chars(&mut dotted, pv.as_slice());
            let ghost tail = pats.subrange(i as int, pats.len() as int);
            assert(tail[0] == pv@);
            assert(dotted@ =~= seq!['.'] + pv@);
            assert(tail.drop_first() =~= pats.subrange(i + 1, pats.len() as int));
            if chars_eq(h.as_slice(), pv.as_slice()) || ends_with(h.as_slice(), dotted.as_slice()) {
                let mut m: Vec<char> = Vec::new();
                append_str(&mut m, "SSRF: blocked by custom rule (");
                append_chars(&mut m, pv.as_slice());
                append_str(&mut m, ")");
                return Some(string_from_chars(m.as_slice()));
            }
            i = i + 1;
        }
        None
    }

    /// Reason for blocking a cloud metadata endpoint or path, if any.
    pub fn check_cloud_metadata(&self, host: &str, resource: &str) -> (r: Option<String>)
        ensures
            match cloud_metadata_block(host@, resource@) {
                Some(m) => r matches Some(x) && x@ == m,
                None => r is None,
            },
    {
        let h = chars_of(host);
        let hs = h.as_slice();
        if eq_str(hs, "169.254.169.254") {
            return lit("SSRF: cloud metadata endpoint blocked (169.254.169.254)");
        }
        if eq_str(hs, "instance-data") || starts_with_str(hs, "instance-data.") {
            return lit("SSRF: AWS metadata hostname blocked");
        }
        if eq_str(hs, "metadata.google.internal") || eq_str(hs, "metadata") {
            return lit("SSRF: GCP metadata endpoint blocked");
        }
        if eq_str(hs, "169.254.169.254") || eq_str(hs, "metadata.azure.com") {
            return lit("SSRF: Azure metadata endpoint blocked");
        }
        if eq_str(hs, "kubernetes.default") || eq_str(hs, "kubernetes.default.svc")
            || starts_with_str(hs, "kubernetes.default.svc.") {
            return lit("SSRF: Kubernetes service endpoint blocked");
        }
        let lower = to_lowercase(resource);
        let lr = chars_of(lower.as_str());
        if contains_str(lr.as_slice(), "/latest/meta-data") || contains_str(
            lr.as_slice(),
            "/metadata/instance",
        ) || contains_str(lr.as_slice(), "/computemetadata/v1") {
            return lit("SSRF: cloud metadata path pattern blocked");
        }
        None
    }

    /// Whether (and why) a resource is blocked: `Some(reason)` when it is.
    pub fn check_resource(&self, resource: &str) -> (r: Option<String>)
        ensures
            match resource_block(*self, resource@) {
                Some(m) => r matches Some(x) && x@ == m,
                None => r is None,
            },
    {
        let host = match self.extract_host(resource) {
            Some(h) => h,
            None => return None,
        };
        if self.block_cloud_metadata {
            match self.check_cloud_metadata(host.as_str(), resource) {
                Some(reason) => return Some(reason),
                None => {},
            }
        }
        let hv = chars_of(host.as_str());
        match parse_ip_exec(hv.as_slice()) {
            Some(ip) => self.check_ip_address(&ip),
            None => self.check_hostname(host.as_str()),
        }
    }

    /// Adds a host name (lowercased) to the blocked list.
    pub fn add_blocked_hostname(&mut self, hostname: &str)
        ensures
            final(self).additional_blocked@ == old(self).additional_blocked@.push(
                final(self).additional_blocked@.last(),
            ),
            final(self).additional_blocked@.last()@ == lowercase(hostname@),
            final(self).block_private_ips == old(self).block_private_ips,
            final(self).block_link_local == old(self).block_link_local,
            final(self).block_localhost == old(self).block_localhost,
            final(self).block_cloud_metadata == old(self).block_cloud_metadata,
            final(self).block_internal_dns == old(self).block_internal_dns,
    {
        let lower = to_lowercase(hostname);
        self.additional_blocked.push(lower);
    }
}

/// Lemma: a host equal to, or a subdomain of, some listed pattern is
/// blocked by the custom rules.
pub proof fn lemma_custom_block_finds(host: Seq<char>, pats: Seq<Seq<char>>, k: int)
    requires
        0 <= k < pats.len(),
        host == pats[k] || is_suffix(seq!['.'] + pats[k], host),
    ensures
        custom_block(host, pats) is Some,
    decreases k,
{
    if k > 0 && !(host == pats[0] || is_suffix(seq!['.'] + pats[0], host)) {
        assert(pats.drop_first()[k - 1] == pats[k]);
        lemma_custom_block_finds(host, pats.drop_first(), k - 1);
    }
}

/// Disabled protection blocks nothing.
pub proof fn law_disabled_blocks_nothing(p: SsrfProtection, resource: Seq<char>)
    requires
        p.spec_is_disabled(),
    ensures
        resource_block(p, resource) is None,
{
    assert(string_views(p.additional_blocked@).len() == 0);
}

/// Default protection blocks every loopback (127/8), link-local
/// (169.254/16) and private (10/8, 172.16/12, 192.168/16) IPv4 host.
pub proof fn law_default_blocks_internal_ipv4(
    p: SsrfProtection,
    resource: Seq<char>,
    host: Seq<char>,
    a: u8,
    b: u8,
    c: u8,
    d: u8,
)
    requires
        p.spec_is_default(),
        extracted_host(resource) == Some(host),
        parse_ip(host) == Some(IpValue::V4(a, b, c, d)),
        a == 127 || a == 10 || (a == 172 && 16 <= b <= 31) || (a == 192 && b == 168) || (a == 169
            && b == 254),
    ensures
        resource_block(p, resource) is Some,
{
}

/// A host that equals, or is a subdomain of, a listed blocked host is
/// blocked unless it is an IP address literal (those follow the IP rules).
pub proof fn law_listed_hostname_is_blocked(p: SsrfProtection, resource: Seq<char>, host: Seq<char>, k: int)
    requires
        extracted_host(resource) == Some(host),
        parse_ip(host) is None,
        0 <= k < p.additional_blocked@.len(),
        host == p.additional_blocked@[k]@ || is_suffix(seq!['.'] + p.additional_blocked@[k]@, host),
    ensures
        resource_block(p, resource) is Some,
{
    let pats = string_views(p.additional_blocked@);
    assert(pats[k] == p.additional_blocked@[k]@);
    lemma_custom_block_finds(host, pats, k);
}

impl Default for SsrfProtection {
    /// Protection with every rule enabled and no extra hosts.
    fn default() -> (r: Self)
        ensures
            r.spec_is_default(),
    {
        Self::new()
    }
}


/// Lemma: the first `c` of `a + b`, where `a` holds none, is the first
/// `c` of `b`, shifted by `a`'s length.
proof fn lemma_first_index_concat(a: Seq<char>, b: Seq<char>, c: char)
    requires
        !a.contains(c),
    ensures
        first_index_of(a + b, c) == (match first_index_of(b, c) {
            Some(i) => Some(i + a.len()),
            None => None,
        }),
    decreases a.len(),
{
    if a.len() > 0 {
        assert(a[0] != c);
        assert(!a.drop_first().contains(c)) by {
            if a.drop_first().contains(c) {
                let j = choose|j: int| 0 <= j < a.drop_first().len() && a.drop_first()[j] == c;
                assert(a[j + 1] == c);
            }
        }
        lemma_first_index_concat(a.drop_first(), b, c);
        assert((a + b).drop_first() =~= a.drop_first() + b);
        assert((a + b)[0] == a[0]);
    } else {
        assert(a + b =~= b);
    }
}

/// Lemma: what stands before the first `c` of `a + b`, where `a` holds
/// none and `b` is empty or starts with `c`, is `a`.
proof fn lemma_before_first_stop(a: Seq<char>, b: Seq<char>, c: char)
    requires
        !a.contains(c),
        b.len() == 0 || b[0] == c,
    ensures
        before_first(a + b, c) == a,
{
    lemma_first_index_concat(a, b, c);
    if b.len() == 0 {
        assert(first_index_of(b, c) is None);
        assert(a + b =~= a);
    } else {
        assert(first_index_of(b, c) == Some(0int));
        assert((a + b).subrange(0, a.len() as int) =~= a);
    }
}

/// A resource with no scheme that is a bare host `h`, then nothing, a
/// `:port` or a `/path`, is checked as the host `h` (lowercased): so a
/// loopback, private or listed host given as `host:port` is still caught.
pub proof fn law_bare_host_is_extracted(h: Seq<char>, t: Seq<char>)
    requires
        h.len() > 0,
        h[0] != '[',
        !h.contains('/'),
        !h.contains(':'),
        t.len() == 0 || t[0] == ':' || t[0] == '/',
        after_scheme(h + t) is None,
    ensures
        extracted_host(h + t) == Some(lowercase(h)),
{
    let r = h + t;
    if t.len() > 0 && t[0] == ':' {
        let tp = before_first(t, '/');
        lemma_first_index_concat(h, t, '/');
        lemma_first_index_of(t, '/');
        match first_index_of(t, '/') {
            Some(i) => {
                assert(r.subrange(0, i + h.len()) =~= h + t.subrange(0, i));
                assert(tp == t.subrange(0, i));
            },
            None => {
                assert(tp == t);
            },
        }
        assert(before_first(r, '/') == h + tp);
        assert(tp.len() == 0 || tp[0] == ':') by {
            if tp.len() > 0 {
                match first_index_of(t, '/') {
                    Some(i) => {
                        lemma_first_index_of(t, '/');
                        assert(i > 0);
                    },
                    None => {},
                }
            }
        }
        lemma_before_first_stop(h, tp, ':');
        assert((h + tp)[0] == h[0]);
    } else {
        lemma_before_first_stop(h, t, '/');
        assert(before_first(r, '/') == h);
        lemma_before_first_stop(h, Seq::<char>::empty(), ':');
        assert(h + Seq::<char>::empty() =~= h);
    }
}

}
