//! Immutable service configuration, built once at startup from plain values
//! and handed by reference into every component.

use vstd::prelude::*;
use crate::text::{chars_of, string_of_chars};

verus! {

/// ASCII lowercasing of one character; anything else stands as itself.
pub open spec fn lower_char(c: char) -> char {
    if 65 <= (c as u32) && (c as u32) <= 90 {
        (((c as u32) + 32) as u8) as char
    } else {
        c
    }
}

pub open spec fn lower_seq(s: Seq<char>) -> Seq<char> {
    s.map(|i: int, c: char| lower_char(c))
}

/// Lowercases the ASCII letters of `s`.
pub fn ascii_lowercase(s: &str) -> (r: String)
    ensures
        r@ == lower_seq(s@),
{
    let v = chars_of(s);
    let mut out: Vec<char> = Vec::new();
    let mut i: usize = 0;
    while i < v.len()
        invariant
            i <= v@.len(),
            v@ == s@,
            out@ == lower_seq(s@).take(i as int),
        decreases v@.len() - i,
    {
        let c = v[i];
        let u = c as u32;
        if 65 <= u && u <= 90 {
            out.push(((u + 32) as u8) as char);
        } else {
            out.push(c);
        }
        proof {
            assert(out@ =~= lower_seq(s@).take(i + 1 as int));
        }
        i = i + 1;
    }
    proof {
        assert(out@ =~= lower_seq(s@));
    }
    string_of_chars(&out)
}

pub open spec fn is_space(c: char) -> bool {
    c == ' ' || c == '\t' || c == '\n' || c == '\r'
}

/// `s` without its leading whitespace.
pub open spec fn trim_front(s: Seq<char>) -> Seq<char>
    decreases s.len(),
{
    if s.len() > 0 && is_space(s[0]) {
        trim_front(s.skip(1))
    } else {
        s
    }
}

/// `s` without its trailing whitespace.
pub open spec fn trim_back(s: Seq<char>) -> Seq<char>
    decreases s.len(),
{
    if s.len() > 0 && is_space(s.last()) {
        trim_back(s.drop_last())
    } else {
        s
    }
}

/// `s` without leading or trailing whitespace.
pub open spec fn trim_of(s: Seq<char>) -> Seq<char> {
    trim_back(trim_front(s))
}

proof fn lemma_trim_front_skip(s: Seq<char>, i: int)
    requires
        0 <= i <= s.len(),
        forall|x: int| 0 <= x < i ==> is_space(s[x]),
        i == s.len() || !is_space(s[i]),
    ensures
        trim_front(s) == s.skip(i),
    decreases i,
{
    if i == 0 {
        assert(s.skip(0) =~= s);
    } else {
        assert(is_space(s[0]));
        let rest = s.skip(1);
        assert(forall|x: int| 0 <= x < i - 1 ==> rest[x] == s[x + 1]);
        lemma_trim_front_skip(rest, i - 1);
        assert(rest.skip(i - 1) =~= s.skip(i));
    }
}

proof fn lemma_trim_back_take(s: Seq<char>, j: int)
    requires
        0 <= j <= s.len(),
        forall|x: int| j <= x < s.len() ==> is_space(s[x]),
        j == 0 || !is_space(s[j - 1]),
    ensures
        trim_back(s) == s.take(j),
    decreases s.len() - j,
{
    if j == s.len() {
        assert(s.take(j) =~= s);
    } else {
        assert(is_space(s.last()));
        let pre = s.drop_last();
        assert(forall|x: int| 0 <= x < pre.len() ==> pre[x] == s[x]);
        lemma_trim_back_take(pre, j);
        assert(pre.take(j) =~= s.take(j));
    }
}

/// Trims ASCII whitespace and lowercases one configured format entry;
/// reports an entry that trims to nothing as `None`.
pub fn normalize_format(s: &str) -> (r: Option<String>)
    ensures
        match r {
            Some(x) => trim_of(s@).len() > 0 && x@ == lower_seq(trim_of(s@)),
            None => trim_of(s@).len() == 0,
        },
{
    let v = chars_of(s);
    let n = v.len();
    let mut a: usize = 0;
    while a < n && is_space_exec(v[a])
        invariant
            a <= n,
            n == v@.len(),
            v@ == s@,
            forall|x: int| 0 <= x < a ==> is_space(s@[x]),
        decreases n - a,
    {
        a = a + 1;
    }
    proof {
        lemma_trim_front_skip(s@, a as int);
    }
    if a == n {
        proof {
            assert(trim_front(s@).len() == 0);
            assert(trim_of(s@).len() == 0);
        }
        return None;
    }
    let mut b: usize = n;
    while b > a && is_space_exec(v[b - 1])
        invariant
            a <= b <= n,
            n == v@.len(),
            v@ == s@,
            !is_space(s@[a as int]),
            forall|x: int| b <= x < n ==> is_space(s@[x]),
        decreases b,
    {
        b = b - 1;
    }
    proof {
        let tf = trim_front(s@);
        assert(tf == s@.skip(a as int));
        assert(forall|x: int| 0 <= x < tf.len() ==> tf[x] == s@[a + x]);
        assert(b > a);
        lemma_trim_back_take(tf, b - a);
        assert(trim_of(s@) =~= s@.subrange(a as int, b as int)) by {
            assert(forall|x: int| 0 <= x < b - a ==> #[trigger] tf.take(b - a)[x] == s@[a + x]);
            assert(forall|x: int| 0 <= x < b - a ==> #[trigger] s@.subrange(a as int, b as int)[x]
                == s@[a + x]);
        }
    }
    let mut out: Vec<char> = Vec::new();
    let mut i: usize = a;
    while i < b
        invariant
            a <= i <= b <= n,
            n == v@.len(),
            v@ == s@,
            out@ == lower_seq(s@.subrange(a as int, b as int)).take(i - a),
        decreases b - i,
    {
        let c = v[i];
        let u = c as u32;
        proof {
            assert(s@.subrange(a as int, b as int)[i - a] == s@[i as int]);
        }
        if 65 <= u && u <= 90 {
            out.push(((u + 32) as u8) as char);
        } else {
            out.push(c);
        }
        proof {
            assert(out@ =~= lower_seq(s@.subrange(a as int, b as int)).take(i + 1 - a));
        }
        i = i + 1;
    }
    proof {
        assert(out@ =~= lower_seq(s@.subrange(a as int, b as int)));
        assert(trim_of(s@).len() > 0);
    }
    Some(string_of_chars(&out))
}

fn is_space_exec(c: char) -> (b: bool)
    ensures
        b == is_space(c),
{
    c == ' ' || c == '\t' || c == '\n' || c == '\r'
}

/// The immutable configuration: storage endpoint and bucket, public domain,
/// store and cache addresses, listen port, the size ceiling in megabytes and
/// bytes, the fixed 32-byte payload key, and the content-type allow-list.
pub struct Config {
    pub r2_endpoint: String,
    pub r2_bucket: String,
    pub r2_access_key: String,
    pub r2_secret_key: String,
    pub r2_public_domain: String,
    pub mongo_uri: String,
    pub redis_url: String,
    pub port: u16,
    pub max_size: u64,
    pub max_size_mb: u64,
    pub encryption_key: Vec<u8>,
    pub allowed_formats: Vec<String>,
}

impl Config {
    /// Well-formedness: the byte ceiling is the megabyte ceiling scaled, and
    /// the key is exactly 32 bytes.
    pub open spec fn wf(&self) -> bool {
        &&& self.max_size == self.max_size_mb * 1048576
        &&& self.encryption_key@.len() == 32
    }

    /// Builds a configuration from plain values; the megabyte ceiling is
    /// scaled to bytes here, once.
    pub fn new(
        r2_endpoint: String,
        r2_bucket: String,
        r2_access_key: String,
        r2_secret_key: String,
        r2_public_domain: String,
        mongo_uri: String,
        redis_url: String,
        port: u16,
        max_size_mb: u64,
        encryption_key: Vec<u8>,
        allowed_formats: Vec<String>,
    ) -> (r: Config)
        requires
            max_size_mb <= u64::MAX / 1048576,
            encryption_key@.len() == 32,
        ensures
            r.wf(),
            r.r2_endpoint == r2_endpoint,
            r.r2_bucket == r2_bucket,
            r.r2_access_key == r2_access_key,
            r.r2_secret_key == r2_secret_key,
            r.r2_public_domain == r2_public_domain,
            r.mongo_uri == mongo_uri,
            r.redis_url == redis_url,
            r.port == port,
            r.max_size_mb == max_size_mb,
            r.max_size == max_size_mb * 1048576,
            r.encryption_key == encryption_key,
            r.allowed_formats == allowed_formats,
    {
        proof {
            assert(max_size_mb * 1048576 <= u64::MAX) by (nonlinear_arith)
                requires
                    max_size_mb <= u64::MAX / 1048576,
            ;
        }
        Config {
            r2_endpoint,
            r2_bucket,
            r2_access_key,
            r2_secret_key,
            r2_public_domain,
            mongo_uri,
            redis_url,
            port,
            max_size: max_size_mb * 1048576,
            max_size_mb,
            encryption_key,
            allowed_formats,
        }
    }

    /// Parses the hex-encoded 256-bit payload key: `Some` exactly when the
    /// text is 64 hex digits, and then the 32 bytes they denote.
    pub fn parse_key(hex_key: &str) -> (r: Option<Vec<u8>>)
        ensures
            match r {
                Some(k) => k@.len() == 32 && k@ == crate::hexstr::hex_bytes(hex_key@)
                    && hex_key@.len() == 64 && (forall|i: int|
                    0 <= i < 64 ==> crate::hexstr::is_hex_digit(hex_key@[i])),
                None => !(hex_key@.len() == 64 && forall|i: int|
                    0 <= i < 64 ==> crate::hexstr::is_hex_digit(hex_key@[i])),
            },
    {
        if hex_key.unicode_len() != 64 {
            None
        } else {
            match crate::hexstr::hex_decode(hex_key) {
                None => None,
                Some(k) => {
                    proof {
                        lemma_hex_bytes_len(hex_key@);
                    }
                    Some(k)
                },
            }
        }
    }
}

/// A valid hex string of length `2n` decodes to `n` bytes.
proof fn lemma_hex_bytes_len(s: Seq<char>)
    ensures
        crate::hexstr::hex_bytes(s).len() == s.len() / 2,
    decreases s.len(),
{
    if s.len() >= 2 {
        lemma_hex_bytes_len(s.skip(2));
    }
}

/// True iff some entry of the allow-list equals `target`.
pub open spec fn contains_str(list: Seq<String>, target: Seq<char>) -> bool {
    exists|i: int| 0 <= i < list.len() && list[i]@ == target
}

/// Membership test against the allow-list.
pub fn list_contains(list: &Vec<String>, target: &String) -> (b: bool)
    ensures
        b == contains_str(list@, target@),
{
    let mut i: usize = 0;
    while i < list.len()
        invariant
            i <= list@.len(),
            forall|x: int| 0 <= x < i ==> list@[x]@ != target@,
        decreases list@.len() - i,
    {
        if list[i].eq(target) {
            return true;
        }
        i = i + 1;
    }
    false
}

} // verus!
