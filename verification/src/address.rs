//! Relay addresses: a bech32-encoded public key, optionally followed by
//! `@domain[:port]`, optionally preceded by the `grinrelay://` scheme.

use vstd::prelude::*;
use crate::bech32::{bech32_decode_of, is_canonical, spec_bech32_str, valid_hrp};
use crate::crypto::{chars_of_bytes, pk_norm_of, pk_valid, AddrBech32, PublicKey};
use crate::error::ErrorKind;
use crate::utils::{all_dec_digits, dec_str_of, dec_string, dec_val, parse_u16};

verus! {

/// Which chain the relay serves; selects the address prefix.
#[derive(Clone, Copy, Debug, PartialEq, Eq, Structural)]
pub enum ChainTypes {
    /// Protocol testing network
    Floonet,
    /// Main production network
    Mainnet,
}

/// The human-readable part for a chain: "gn" on mainnet, "tn" otherwise.
pub open spec fn spec_hrp_bytes(mode: ChainTypes) -> Seq<u8> {
    if mode is Mainnet {
        seq![103u8, 110u8]
    } else {
        seq![116u8, 110u8]
    }
}

/// Whether the mode is the main production network.
pub fn is_mainnet(mode: &ChainTypes) -> (r: bool)
    ensures
        r == (*mode is Mainnet),
{
    *mode == ChainTypes::Mainnet
}

/// Overwrite the running mode with a new one.
pub fn set_running_mode(current: &mut ChainTypes, mode: ChainTypes)
    ensures
        *final(current) == mode,
{
    *current = mode;
}

/// The address human-readable part for the running mode.
pub fn hrp_bytes(mode: &ChainTypes) -> (r: Vec<u8>)
    ensures
        r@ == spec_hrp_bytes(*mode),
{
    let mut v: Vec<u8> = Vec::new();
    if is_mainnet(mode) {
        v.push(103);
        v.push(110);
    } else {
        v.push(116);
        v.push(110);
    }
    proof {
        assert(v@ =~= spec_hrp_bytes(*mode));
    }
    v
}

/// The address scheme prefix.
pub open spec fn spec_prefix() -> Seq<char> {
    "grinrelay://"@
}

/// The default relay domain.
pub open spec fn spec_default_domain() -> Seq<char> {
    "relay.grin.icu"@
}

pub const DEFAULT_GRINRELAY_PORT: u16 = 3418;

/// A character the key part of an address may hold.
pub open spec fn is_key_char(c: char) -> bool {
    48 <= (c as u32) <= 57 || 97 <= (c as u32) <= 122 || c == '-'
}

/// A character the domain part of an address may hold.
pub open spec fn is_domain_char(c: char) -> bool {
    48 <= (c as u32) <= 57 || 97 <= (c as u32) <= 122 || 65 <= (c as u32) <= 90 || c == '.'
}

pub open spec fn valid_key_part(k: Seq<char>) -> bool {
    62 <= k.len() <= 67 && forall|i: int| 0 <= i < k.len() ==> is_key_char(#[trigger] k[i])
}

pub open spec fn valid_domain_part(d: Seq<char>) -> bool {
    1 <= d.len() && forall|i: int| 0 <= i < d.len() ==> is_domain_char(#[trigger] d[i])
}

/// The input with the scheme prefix removed, when it carries one.
pub open spec fn strip_prefix(s: Seq<char>) -> Seq<char> {
    if s.len() >= 12 && s.take(12) == spec_prefix() {
        s.skip(12)
    } else {
        s
    }
}

/// The position of the first occurrence of `c` in `s`; -1 when absent.
pub open spec fn first_idx(s: Seq<char>, c: char) -> int
    decreases s.len(),
{
    if s.len() == 0 {
        -1
    } else if s[0] == c {
        0
    } else {
        let r = first_idx(s.skip(1), c);
        if r == -1 {
            -1
        } else {
            r + 1
        }
    }
}

/// The three raw pieces of an address string: key part, optional domain
/// part, optional port digits.
pub struct AddrParts {
    pub key: Seq<char>,
    pub domain: Option<Seq<char>>,
    pub port: Option<Seq<char>>,
}

/// Split an address string (after prefix stripping) into its pieces; `None`
/// when it does not fit the grammar.
pub open spec fn split_addr(s: Seq<char>) -> Option<AddrParts> {
    let t = strip_prefix(s);
    let ka = first_idx(t, '@');
    if ka == -1 {
        if valid_key_part(t) {
            Some(AddrParts { key: t, domain: None, port: None })
        } else {
            None
        }
    } else {
        let key = t.take(ka);
        let rest = t.skip(ka + 1);
        if !valid_key_part(key) {
            None
        } else {
            let kc = first_idx(rest, ':');
            if kc == -1 {
                if valid_domain_part(rest) {
                    Some(AddrParts { key, domain: Some(rest), port: None })
                } else {
                    None
                }
            } else {
                let dom = rest.take(kc);
                let po = rest.skip(kc + 1);
                if valid_domain_part(dom) && all_dec_digits(po) {
                    Some(AddrParts { key, domain: Some(dom), port: Some(po) })
                } else {
                    None
                }
            }
        }
    }
}

/// The string splits and, when a port is given, the port digits denote a
/// 16-bit number.
pub open spec fn parse_shape_ok(s: Seq<char>) -> bool {
    match split_addr(s) {
        Some(p) => match p.port {
            Some(po) => po.len() > 0 && dec_val(po) <= 65535,
            None => true,
        },
        None => false,
    }
}

/// A relay address. `public_key` holds the bech32 string; `hrp_bytes` is
/// set only by the raw constructors that keep a caller-supplied
/// human-readable part.
#[derive(Clone, Debug, PartialEq)]
pub struct GrinboxAddress {
    pub public_key: String,
    pub domain: String,
    pub port: u16,
    pub hrp_bytes: Option<Vec<u8>>,
}

// ------------------------------------------------------------------
// exec helpers
// ------------------------------------------------------------------

fn is_key_char_exec(c: char) -> (r: bool)
    ensures
        r == is_key_char(c),
{
    let u = c as u32;
    (48 <= u && u <= 57) || (97 <= u && u <= 122) || c == '-'
}

fn is_domain_char_exec(c: char) -> (r: bool)
    ensures
        r == is_domain_char(c),
{
    let u = c as u32;
    (48 <= u && u <= 57) || (97 <= u && u <= 122) || (65 <= u && u <= 90) || c == '.'
}

proof fn lemma_first_idx_found(s: Seq<char>, c: char, i: int)
    requires
        0 <= i < s.len(),
        s[i] == c,
        forall|j: int| 0 <= j < i ==> #[trigger] s[j] != c,
    ensures
        first_idx(s, c) == i,
    decreases s.len(),
{
    if i > 0 {
        assert forall|j: int| 0 <= j < i - 1 implies #[trigger] s.skip(1)[j] != c by {
            assert(s.skip(1)[j] == s[j + 1]);
        }
        assert(s.skip(1)[i - 1] == s[i]);
        lemma_first_idx_found(s.skip(1), c, i - 1);
    }
}

proof fn lemma_first_idx_absent(s: Seq<char>, c: char)
    requires
        forall|j: int| 0 <= j < s.len() ==> #[trigger] s[j] != c,
    ensures
        first_idx(s, c) == -1,
    decreases s.len(),
{
    if s.len() > 0 {
        assert forall|j: int| 0 <= j < s.len() - 1 implies #[trigger] s.skip(1)[j] != c by {
            assert(s.skip(1)[j] == s[j + 1]);
        }
        lemma_first_idx_absent(s.skip(1), c);
    }
}

/// The position of the first occurrence of `c` in `s`.
fn find_first(s: &str, c: char) -> (r: Option<usize>)
    ensures
        match r {
            Some(i) => first_idx(s@, c) == i as int && i < s@.len(),
            None => first_idx(s@, c) == -1,
        },
{
    let n = s.unicode_len();
    let mut i: usize = 0;
    while i < n
        invariant
            i <= n == s@.len(),
            forall|j: int| 0 <= j < i ==> #[trigger] s@[j] != c,
        decreases n - i,
    {
        if s.get_char(i) == c {
            proof {
                lemma_first_idx_found(s@, c, i as int);
            }
            return Some(i);
        }
        i += 1;
    }
    proof {
        lemma_first_idx_absent(s@, c);
    }
    None
}

/// Whether every character of `s` is a key character, and the length fits.
fn check_key_part(s: &str) -> (r: bool)
    ensures
        r == valid_key_part(s@),
{
    let n = s.unicode_len();
    if n < 62 || n > 67 {
        return false;
    }
    let mut i: usize = 0;
    while i < n
        invariant
            i <= n == s@.len(),
            forall|j: int| 0 <= j < i ==> is_key_char(#[trigger] s@[j]),
        decreases n - i,
    {
        if !is_key_char_exec(s.get_char(i)) {
            return false;
        }
        i += 1;
    }
    true
}

/// Whether `s` is a usable domain part.
fn check_domain_part(s: &str) -> (r: bool)
    ensures
        r == valid_domain_part(s@),
{
    let n = s.unicode_len();
    if n == 0 {
        return false;
    }
    let mut i: usize = 0;
    while i < n
        invariant
            i <= n == s@.len(),
            n >= 1,
            forall|j: int| 0 <= j < i ==> is_domain_char(#[trigger] s@[j]),
        decreases n - i,
    {
        if !is_domain_char_exec(s.get_char(i)) {
            return false;
        }
        i += 1;
    }
    true
}

/// The character of the scheme prefix at a position.
fn prefix_char(i: usize) -> (c: char)
    requires
        i < 12,
    ensures
        c == spec_prefix()[i as int],
{
    proof {
        reveal_strlit("grinrelay://");
    }
    match i {
        0 => 'g',
        1 => 'r',
        2 => 'i',
        3 => 'n',
        4 => 'r',
        5 => 'e',
        6 => 'l',
        7 => 'a',
        8 => 'y',
        9 => ':',
        10 => '/',
        _ => '/',
    }
}

/// Strip the scheme prefix when present.
fn strip_prefix_exec(s: &str) -> (r: &str)
    ensures
        r@ == strip_prefix(s@),
{
    proof {
        reveal_strlit("grinrelay://");
    }
    let n = s.unicode_len();
    if n < 12 {
        return s;
    }
    let mut i: usize = 0;
    while i < 12
        invariant
            i <= 12 <= n == s@.len(),
            forall|j: int| 0 <= j < i ==> #[trigger] s@[j] == spec_prefix()[j],
        decreases 12 - i,
    {
        if s.get_char(i) != prefix_char(i) {
            proof {
                assert(s@.take(12)[i as int] != spec_prefix()[i as int]);
            }
            return s;
        }
        i += 1;
    }
    proof {
        assert(s@.take(12) =~= spec_prefix());
    }
    s.substring_char(12, n)
}

impl GrinboxAddress {
    /// How `new` renders its result: the canonical bech32 string of the key
    /// under the given human-readable part, the given or default domain and
    /// port, and no stored human-readable part.
    pub open spec fn built_from(
        self,
        key_bytes: Seq<u8>,
        hrp: Seq<u8>,
        domain: Option<Seq<char>>,
        port: Option<u16>,
    ) -> bool {
        &&& self.public_key@ == spec_bech32_str(chars_of_bytes(hrp), key_bytes)
        &&& self.domain@ == match domain {
            Some(d) => d,
            None => spec_default_domain(),
        }
        &&& self.port == match port {
            Some(p) => p,
            None => DEFAULT_GRINRELAY_PORT,
        }
    }

    /// Build an address from a public key for the running mode's
    /// human-readable part.
    pub fn new(public_key: PublicKey, domain: Option<String>, port: Option<u16>, mode: &ChainTypes)
        -> (r: GrinboxAddress)
        requires
            public_key.wf(),
        ensures
            r.built_from(
                public_key.bytes@,
                spec_hrp_bytes(*mode),
                match domain {
                    Some(d) => Some(d@),
                    None => None,
                },
                port,
            ),
            r.hrp_bytes is None,
    {
        let hrp = hrp_bytes(mode);
        proof {
            lemma_hrp_bytes_valid(*mode);
        }
        let key = public_key.to_bech32(hrp);
        GrinboxAddress {
            public_key: key,
            domain: match domain {
                Some(d) => d,
                None => default_domain_string(),
            },
            port: match port {
                Some(p) => p,
                None => DEFAULT_GRINRELAY_PORT,
            },
            hrp_bytes: None,
        }
    }

    /// Build an address from a public key under a caller-supplied
    /// human-readable part, keeping that part.
    pub fn new_raw(
        public_key: PublicKey,
        domain: Option<String>,
        port: Option<u16>,
        hrp_bytes: Vec<u8>,
    ) -> (r: GrinboxAddress)
        requires
            public_key.wf(),
            crate::crypto::valid_hrp_bytes(hrp_bytes@),
        ensures
            r.built_from(
                public_key.bytes@,
                hrp_bytes@,
                match domain {
                    Some(d) => Some(d@),
                    None => None,
                },
                port,
            ),
            r.hrp_bytes matches Some(h) && h@ == hrp_bytes@,
    {
        let stored = crate::utils::copy_bytes(&hrp_bytes);
        let key = public_key.to_bech32(hrp_bytes);
        GrinboxAddress {
            public_key: key,
            domain: match domain {
                Some(d) => d,
                None => default_domain_string(),
            },
            port: match port {
                Some(p) => p,
                None => DEFAULT_GRINRELAY_PORT,
            },
            hrp_bytes: Some(stored),
        }
    }
}

/// The human-readable parts of both chains are usable and made of key
/// characters.
pub proof fn lemma_hrp_bytes_valid(mode: ChainTypes)
    ensures
        crate::crypto::valid_hrp_bytes(spec_hrp_bytes(mode)),
        forall|i: int|
            0 <= i < 2 ==> is_key_char(#[trigger] chars_of_bytes(spec_hrp_bytes(mode))[i]),
{
    let h = chars_of_bytes(spec_hrp_bytes(mode));
    assert(h.len() == 2);
    assert((103u8 as char) as u32 == 103);
    assert((110u8 as char) as u32 == 110);
    assert((116u8 as char) as u32 == 116);
}

/// The default domain as a string.
fn default_domain_string() -> (r: String)
    ensures
        r@ == spec_default_domain(),
{
    "relay.grin.icu".to_owned()
}

/// Alphabet characters of the bech32 data part are key characters and
/// neither separator nor delimiters.
proof fn lemma_bech32_char_is_key(v: u8)
    requires
        v < 32,
    ensures
        is_key_char(crate::bech32::bech32_char(v)),
        crate::bech32::bech32_char(v) != '@',
        crate::bech32::bech32_char(v) != ':',
{
}

/// On which inputs `from_str` succeeds.
pub open spec fn from_str_ok(s: Seq<char>, hrp: Seq<u8>) -> bool {
    parse_shape_ok(s) && match split_addr(s) {
        Some(p) => is_canonical(p.key) && bech32_decode_of(p.key).0 == chars_of_bytes(hrp)
            && pk_valid(bech32_decode_of(p.key).1),
        None => false,
    }
}

/// What a successful `from_str` returns; the key bytes are a canonical,
/// valid compressed public key.
pub open spec fn parsed_addr_ok(a: GrinboxAddress, s: Seq<char>, hrp: Seq<u8>) -> bool {
    match split_addr(s) {
        Some(p) => {
            let kb = pk_norm_of(bech32_decode_of(p.key).1);
            &&& a.built_from(
                kb,
                hrp,
                p.domain,
                match p.port {
                    Some(po) => Some(dec_val(po) as u16),
                    None => None,
                },
            )
            &&& a.hrp_bytes is None
            &&& pk_valid(kb)
            &&& kb.len() == 33
            &&& pk_norm_of(kb) == kb
        },
        None => false,
    }
}

/// Which error a failing `from_str` reports.
pub open spec fn from_str_err_ok(e: ErrorKind, s: Seq<char>, hrp: Seq<u8>) -> bool {
    if !parse_shape_ok(s) {
        e matches ErrorKind::GrinboxAddressParsingError(m) && m@ == s
    } else {
        match split_addr(s) {
            Some(p) => {
                if !is_canonical(p.key) {
                    e matches ErrorKind::Bech32Error(_)
                } else if bech32_decode_of(p.key).0 != chars_of_bytes(hrp) {
                    e == ErrorKind::InvalidChainType
                } else {
                    e == ErrorKind::InvalidBech32Key && !pk_valid(bech32_decode_of(p.key).1)
                }
            },
            None => false,
        }
    }
}

/// On which inputs `from_str_raw` succeeds: any human-readable part is
/// accepted.
pub open spec fn from_str_raw_ok(s: Seq<char>) -> bool {
    parse_shape_ok(s) && match split_addr(s) {
        Some(p) => is_canonical(p.key) && pk_valid(bech32_decode_of(p.key).1),
        None => false,
    }
}

/// What a successful `from_str_raw` returns.
pub open spec fn parsed_addr_raw_ok(a: GrinboxAddress, s: Seq<char>) -> bool {
    match split_addr(s) {
        Some(p) => a.built_from(
            pk_norm_of(bech32_decode_of(p.key).1),
            crate::crypto::bytes_of_chars(bech32_decode_of(p.key).0),
            p.domain,
            match p.port {
                Some(po) => Some(dec_val(po) as u16),
                None => None,
            },
        ) && (a.hrp_bytes matches Some(h) && h@ == crate::crypto::bytes_of_chars(
            bech32_decode_of(p.key).0,
        )),
        None => false,
    }
}

/// Which error a failing `from_str_raw` reports.
pub open spec fn from_str_raw_err_ok(e: ErrorKind, s: Seq<char>) -> bool {
    if !parse_shape_ok(s) {
        e matches ErrorKind::GrinboxAddressParsingError(m) && m@ == s
    } else {
        match split_addr(s) {
            Some(p) => {
                if !is_canonical(p.key) {
                    e matches ErrorKind::Bech32Error(_)
                } else {
                    e == ErrorKind::InvalidBech32Key && !pk_valid(bech32_decode_of(p.key).1)
                }
            },
            None => false,
        }
    }
}

impl GrinboxAddress {
    /// Parse an address for the running mode's human-readable part. The
    /// stored key is re-rendered canonically. A port that is given but
    /// empty or too large is a parse error.
    pub fn from_str(s: &str, mode: &ChainTypes) -> (r: Result<GrinboxAddress, ErrorKind>)
        ensures
            from_str_ok(s@, spec_hrp_bytes(*mode)) ==> (r matches Ok(a) && parsed_addr_ok(
                a,
                s@,
                spec_hrp_bytes(*mode),
            )),
            !from_str_ok(s@, spec_hrp_bytes(*mode)) ==> (r matches Err(e) && from_str_err_ok(
                e,
                s@,
                spec_hrp_bytes(*mode),
            )),
    {
        let (key_str, domain_opt, port_opt) = match split_address_string(s) {
            Ok(t) => t,
            Err(e) => {
                return Err(e);
            },
        };
        let pk = match PublicKey::from_bech32_check(key_str, hrp_bytes(mode)) {
            Ok(pk) => pk,
            Err(e) => {
                return Err(e);
            },
        };
        Ok(GrinboxAddress::new(pk, domain_opt, port_opt, mode))
    }

    /// Parse an address accepting any human-readable part, which the result
    /// keeps.
    pub fn from_str_raw(s: &str) -> (r: Result<GrinboxAddress, ErrorKind>)
        ensures
            from_str_raw_ok(s@) ==> (r matches Ok(a) && parsed_addr_raw_ok(a, s@)),
            !from_str_raw_ok(s@) ==> (r matches Err(e) && from_str_raw_err_ok(e, s@)),
    {
        let (key_str, domain_opt, port_opt) = match split_address_string(s) {
            Ok(t) => t,
            Err(e) => {
                return Err(e);
            },
        };
        let (pk, hrp) = match PublicKey::from_bech32_check_raw(key_str) {
            Ok(p) => p,
            Err(e) => {
                return Err(e);
            },
        };
        proof {
            let h = bech32_decode_of(key_str@).0;
            let d = bech32_decode_of(key_str@).1;
            assert(valid_hrp(h) && key_str@ == spec_bech32_str(h, d));
            crate::crypto::lemma_chars_bytes_round(h);
            crate::crypto::lemma_bytes_chars_round(hrp@);
        }
        Ok(GrinboxAddress::new_raw(pk, domain_opt, port_opt, hrp))
    }

    /// The public key the stored bech32 string denotes, for the running
    /// mode's human-readable part.
    pub fn public_key(&self, mode: &ChainTypes) -> (r: Result<PublicKey, ErrorKind>)
        ensures
            <PublicKey as AddrBech32<PublicKey>>::from_bech32_check_ok(
                self.public_key@,
                spec_hrp_bytes(*mode),
            ) ==> (r matches Ok(pk) && <PublicKey as AddrBech32<PublicKey>>::parsed_from_bech32(
                pk,
                self.public_key@,
                spec_hrp_bytes(*mode),
            )),
            !<PublicKey as AddrBech32<PublicKey>>::from_bech32_check_ok(
                self.public_key@,
                spec_hrp_bytes(*mode),
            ) ==> (r matches Err(e)
                && <PublicKey as AddrBech32<PublicKey>>::from_bech32_check_err_ok(
                e,
                self.public_key@,
                spec_hrp_bytes(*mode),
            )),
    {
        PublicKey::from_bech32_check(self.public_key.as_str(), hrp_bytes(mode))
    }

    /// The rendering of the address without the scheme prefix: the bech32
    /// string, then `@domain` when domain or port differ from the defaults,
    /// then `:port` when the port differs. The domain is omitted only when
    /// it is exactly the default, so that parsing the rendering recovers
    /// every field.
    pub open spec fn spec_stripped(self) -> Seq<char> {
        if self.domain@ == spec_default_domain() && self.port == DEFAULT_GRINRELAY_PORT {
            self.public_key@
        } else {
            let wd = self.public_key@ + seq!['@'] + self.domain@;
            if self.port != DEFAULT_GRINRELAY_PORT {
                wd + seq![':'] + dec_str_of(self.port as int)
            } else {
                wd
            }
        }
    }

    /// The full rendering of the address, scheme prefix included.
    pub open spec fn spec_display(self) -> Seq<char> {
        spec_prefix() + self.spec_stripped()
    }

    /// Render the address without the scheme prefix.
    pub fn stripped(&self) -> (r: String)
        ensures
            r@ == self.spec_stripped(),
    {
        let mut out = String::new();
        out.append(self.public_key.as_str());
        let bare = crate::utils::str_eq(self.domain.as_str(), "relay.grin.icu") && self.port
            == DEFAULT_GRINRELAY_PORT;
        if !bare {
            crate::utils::push_char(&mut out, '@');
            out.append(self.domain.as_str());
            if self.port != DEFAULT_GRINRELAY_PORT {
                crate::utils::push_char(&mut out, ':');
                let p = dec_string(self.port as u64);
                out.append(p.as_str());
            }
        }
        proof {
            if bare {
                assert(out@ =~= self.spec_stripped());
            } else if self.port != DEFAULT_GRINRELAY_PORT {
                assert(out@ =~= self.public_key@ + seq!['@'] + self.domain@ + seq![':']
                    + dec_str_of(self.port as int));
            } else {
                assert(out@ =~= self.public_key@ + seq!['@'] + self.domain@);
            }
        }
        out
    }

    /// Render the address with the scheme prefix.
    pub fn display_string(&self) -> (r: String)
        ensures
            r@ == self.spec_display(),
    {
        proof {
            reveal_strlit("grinrelay://");
        }
        let mut out = "grinrelay://".to_owned();
        let tail = self.stripped();
        out.append(tail.as_str());
        out
    }
}

/// Split an address string into key part, domain and port; the
/// `GrinboxAddressParsingError` side of `from_str`.
fn split_address_string(s: &str) -> (r: Result<(&str, Option<String>, Option<u16>), ErrorKind>)
    ensures
        match r {
            Ok(t) => parse_shape_ok(s@) && (split_addr(s@) matches Some(p) && {
                &&& t.0@ == p.key
                &&& match (t.1, p.domain) {
                    (Some(d), Some(pd)) => d@ == pd,
                    (None, None) => true,
                    _ => false,
                }
                &&& match (t.2, p.port) {
                    (Some(v), Some(po)) => v as int == dec_val(po),
                    (None, None) => true,
                    _ => false,
                }
            }),
            Err(e) => !parse_shape_ok(s@) && (e matches ErrorKind::GrinboxAddressParsingError(m)
                && m@ == s@),
        },
{
    let t = strip_prefix_exec(s);
    let n = t.unicode_len();
    match find_first(t, '@') {
        None => {
            if !check_key_part(t) {
                return Err(ErrorKind::GrinboxAddressParsingError(t_owned(s)));
            }
            Ok((t, None, None))
        },
        Some(ka) => {
            let key_str = t.substring_char(0, ka);
            if !check_key_part(key_str) {
                return Err(ErrorKind::GrinboxAddressParsingError(t_owned(s)));
            }
            let rest = t.substring_char(ka + 1, n);
            proof {
                assert(rest@ == t@.skip(ka + 1));
            }
            match find_first(rest, ':') {
                None => {
                    if !check_domain_part(rest) {
                        return Err(ErrorKind::GrinboxAddressParsingError(t_owned(s)));
                    }
                    Ok((key_str, Some(rest.to_owned()), None))
                },
                Some(kc) => {
                    let rn = rest.unicode_len();
                    let dom = rest.substring_char(0, kc);
                    let po = rest.substring_char(kc + 1, rn);
                    if !check_domain_part(dom) {
                        return Err(ErrorKind::GrinboxAddressParsingError(t_owned(s)));
                    }
                    match parse_u16(po) {
                        Some(v) => Ok((key_str, Some(dom.to_owned()), Some(v))),
                        None => {
                            if !check_all_digits(po) {
                                return Err(ErrorKind::GrinboxAddressParsingError(t_owned(s)));
                            }
                            Err(ErrorKind::GrinboxAddressParsingError(t_owned(s)))
                        },
                    }
                },
            }
        },
    }
}

/// Whether every character is a decimal digit.
fn check_all_digits(s: &str) -> (r: bool)
    ensures
        r == all_dec_digits(s@),
{
    let n = s.unicode_len();
    let mut i: usize = 0;
    while i < n
        invariant
            i <= n == s@.len(),
            forall|j: int| 0 <= j < i ==> crate::utils::is_dec_digit(#[trigger] s@[j]),
        decreases n - i,
    {
        let c = s.get_char(i);
        let ok = match crate::utils::hex_val_exec(c) {
            Some(v) => v < 10,
            None => false,
        };
        if !ok {
            proof {
                assert(!crate::utils::is_dec_digit(s@[i as int]));
            }
            return false;
        }
        i += 1;
    }
    true
}

/// The input as an owned string.
fn t_owned(s: &str) -> (r: String)
    ensures
        r@ == s@,
{
    s.to_owned()
}

/// An address on which rendering and parsing are mutually inverse: its key
/// is a canonical bech32 encoding of a valid public key under a 2- to
/// 7-character human-readable part of key characters, its domain is usable,
/// and it carries no stored human-readable part.
pub open spec fn round_trippable(a: GrinboxAddress, hrp: Seq<u8>) -> bool {
    &&& is_canonical(a.public_key@)
    &&& bech32_decode_of(a.public_key@).0 == chars_of_bytes(hrp)
    &&& bech32_decode_of(a.public_key@).1.len() == 33
    &&& pk_valid(bech32_decode_of(a.public_key@).1)
    &&& pk_norm_of(bech32_decode_of(a.public_key@).1) == bech32_decode_of(a.public_key@).1
    &&& 2 <= hrp.len() <= 7
    &&& forall|i: int|
        0 <= i < hrp.len() ==> is_key_char(#[trigger] chars_of_bytes(hrp)[i])
    &&& valid_domain_part(a.domain@)
    &&& a.hrp_bytes is None
}

/// Rendering a round-trippable address and parsing the rendering gives the
/// address back: parsing succeeds, and anything it may return carries
/// exactly the fields of the address that was rendered.
pub proof fn lemma_address_round_trip(a: GrinboxAddress, hrp: Seq<u8>)
    requires
        round_trippable(a, hrp),
    ensures
        from_str_ok(a.spec_display(), hrp),
        forall|b: GrinboxAddress|
            #[trigger] parsed_addr_ok(b, a.spec_display(), hrp) ==> b.public_key@ == a.public_key@
                && b.domain@ == a.domain@ && b.port == a.port && b.hrp_bytes is None,
{
    reveal_strlit("grinrelay://");
    reveal_strlit("relay.grin.icu");
    let s = a.spec_display();
    let t = a.spec_stripped();
    let key = a.public_key@;
    let h = bech32_decode_of(key).0;
    let d = bech32_decode_of(key).1;
    assert(valid_hrp(h) && d.len() <= 4096 && key == spec_bech32_str(h, d));
    crate::bech32::lemma_canonical_shape(h, d);
    // the key part: right length, key characters only, no separator clash
    assert(crate::bech32::fives_of_bytes(d).len() == 53);
    assert(key.len() == h.len() + 60);
    assert(62 <= key.len() <= 67);
    assert forall|i: int| 0 <= i < key.len() implies is_key_char(#[trigger] key[i]) && key[i]
        != '@' && key[i] != ':' by {
        if i < h.len() {
            assert(key[i] == h[i]);
            assert(is_key_char(chars_of_bytes(hrp)[i]));
            assert(('@' as u32) == 64 && (':' as u32) == 58);
        } else if i == h.len() {
            assert(key[i] == '1');
        } else {
            let k = i - h.len() - 1;
            assert(key[h.len() + 1 + k] == crate::bech32::bech32_char(
                (crate::bech32::fives_of_bytes(d) + crate::bech32::checksum_of(
                    h,
                    crate::bech32::fives_of_bytes(d),
                ))[k],
            ));
            lemma_bech32_char_is_key(
                (crate::bech32::fives_of_bytes(d) + crate::bech32::checksum_of(
                    h,
                    crate::bech32::fives_of_bytes(d),
                ))[k],
            );
        }
    }
    assert(valid_key_part(key));
    // the display string strips back to the stripped form
    assert(s.len() >= 12);
    assert(s.take(12) =~= spec_prefix());
    assert(s.skip(12) =~= t);
    assert(strip_prefix(s) == t);
    let bare = a.domain@ == spec_default_domain() && a.port == DEFAULT_GRINRELAY_PORT;
    if bare {
        assert(t == key);
        lemma_first_idx_absent(t, '@');
        assert(split_addr(s) matches Some(p) && p.key == key && p.domain is None && p.port
            is None);
    } else {
        let dom = a.domain@;
        assert forall|i: int| 0 <= i < dom.len() implies #[trigger] dom[i] != '@' && dom[i]
            != ':' by {
            assert(is_domain_char(dom[i]));
            assert(('@' as u32) == 64 && (':' as u32) == 58);
        }
        if a.port != DEFAULT_GRINRELAY_PORT {
            let po = dec_str_of(a.port as int);
            crate::utils::lemma_dec_round_trip(a.port as int);
            assert(t =~= key + seq!['@'] + dom + seq![':'] + po);
            assert forall|j: int| 0 <= j < key.len() implies #[trigger] t[j] != '@' by {
                assert(t[j] == key[j]);
            }
            assert(t[key.len() as int] == '@');
            lemma_first_idx_found(t, '@', key.len() as int);
            let rest = t.skip(key.len() as int + 1);
            assert(rest =~= dom + seq![':'] + po);
            assert forall|j: int| 0 <= j < dom.len() implies #[trigger] rest[j] != ':' by {
                assert(rest[j] == dom[j]);
            }
            assert(rest[dom.len() as int] == ':');
            lemma_first_idx_found(rest, ':', dom.len() as int);
            assert(t.take(key.len() as int) =~= key);
            assert(rest.take(dom.len() as int) =~= dom);
            assert(rest.skip(dom.len() as int + 1) =~= po);
            assert forall|j: int| 0 <= j < po.len() implies crate::utils::is_dec_digit(
                #[trigger] po[j],
            ) by {}
            assert(split_addr(s) matches Some(p) && p.key == key && p.domain == Some(dom)
                && p.port == Some(po));
            assert(po.len() > 0 && dec_val(po) == a.port as int <= 65535);
        } else {
            assert(t =~= key + seq!['@'] + dom);
            assert forall|j: int| 0 <= j < key.len() implies #[trigger] t[j] != '@' by {
                assert(t[j] == key[j]);
            }
            assert(t[key.len() as int] == '@');
            lemma_first_idx_found(t, '@', key.len() as int);
            let rest = t.skip(key.len() as int + 1);
            assert(rest =~= dom);
            lemma_first_idx_absent(rest, ':');
            assert(t.take(key.len() as int) =~= key);
            assert(split_addr(s) matches Some(p) && p.key == key && p.domain == Some(dom)
                && p.port is None);
        }
    }
    assert(parse_shape_ok(s));
    assert(from_str_ok(s, hrp));
    assert forall|b: GrinboxAddress| #[trigger] parsed_addr_ok(b, s, hrp) implies b.public_key@
        == a.public_key@ && b.domain@ == a.domain@ && b.port == a.port && b.hrp_bytes
        is None by {
        assert(b.public_key@ == spec_bech32_str(chars_of_bytes(hrp), pk_norm_of(d)));
        assert(pk_norm_of(d) == d);
    }
}

/// Two addresses carry the same key string, domain, port and stored
/// human-readable part.
pub open spec fn addr_view_eq(a: GrinboxAddress, b: GrinboxAddress) -> bool {
    &&& a.public_key@ == b.public_key@
    &&& a.domain@ == b.domain@
    &&& a.port == b.port
    &&& match (a.hrp_bytes, b.hrp_bytes) {
        (Some(x), Some(y)) => x@ == y@,
        (None, None) => true,
        _ => false,
    }
}

/// Whether two addresses are field-wise equal.
pub fn same_address(a: &GrinboxAddress, b: &GrinboxAddress) -> (r: bool)
    ensures
        r == addr_view_eq(*a, *b),
{
    if !crate::utils::str_eq(a.public_key.as_str(), b.public_key.as_str()) {
        return false;
    }
    if !crate::utils::str_eq(a.domain.as_str(), b.domain.as_str()) {
        return false;
    }
    if a.port != b.port {
        return false;
    }
    match (&a.hrp_bytes, &b.hrp_bytes) {
        (Some(x), Some(y)) => crate::utils::bytes_eq(x, y),
        (None, None) => true,
        _ => false,
    }
}

} // verus!
