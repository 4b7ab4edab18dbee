//! Small verified string helpers: decimal rendering, the `ip:port` key that
//! instance ids are derived from, and blank-content detection.

use vstd::prelude::*;
use vstd::string::StringExecFns;
use vstd::string::StringSliceAdditionalSpecFns;

verus! {

/// The character for one decimal digit.
pub open spec fn spec_digit_char(d: int) -> char {
    if d == 0 {
        '0'
    } else if d == 1 {
        '1'
    } else if d == 2 {
        '2'
    } else if d == 3 {
        '3'
    } else if d == 4 {
        '4'
    } else if d == 5 {
        '5'
    } else if d == 6 {
        '6'
    } else if d == 7 {
        '7'
    } else if d == 8 {
        '8'
    } else {
        '9'
    }
}

/// The usual decimal rendering of a nonnegative integer, no leading zeros.
pub open spec fn spec_dec(n: int) -> Seq<char>
    decreases n,
{
    if n < 10 {
        seq![spec_digit_char(n)]
    } else {
        spec_dec(n / 10) + seq![spec_digit_char(n % 10)]
    }
}

fn digit_str(d: u64) -> (r: &'static str)
    requires
        d < 10,
    ensures
        r@ == seq![spec_digit_char(d as int)],
{
    let s: &'static str = if d == 0 {
        "0"
    } else if d == 1 {
        "1"
    } else if d == 2 {
        "2"
    } else if d == 3 {
        "3"
    } else if d == 4 {
        "4"
    } else if d == 5 {
        "5"
    } else if d == 6 {
        "6"
    } else if d == 7 {
        "7"
    } else if d == 8 {
        "8"
    } else {
        "9"
    };
    proof {
        reveal_strlit("0");
        reveal_strlit("1");
        reveal_strlit("2");
        reveal_strlit("3");
        reveal_strlit("4");
        reveal_strlit("5");
        reveal_strlit("6");
        reveal_strlit("7");
        reveal_strlit("8");
        reveal_strlit("9");
        assert(s@ =~= seq![spec_digit_char(d as int)]);
    }
    s
}

/// Renders a number in decimal.
pub fn u64_to_string(n: u64) -> (r: String)
    ensures
        r@ == spec_dec(n as int),
    decreases n,
{
    if n < 10 {
        digit_str(n).to_owned()
    } else {
        let prefix = u64_to_string(n / 10);
        let r = prefix.concat(digit_str(n % 10));
        r
    }
}

/// The `ip:port` string that a service instance is identified by.
pub open spec fn spec_endpoint_key(ip: Seq<char>, port: int) -> Seq<char> {
    ip + seq![':'] + spec_dec(port)
}

/// Builds the `ip:port` string.
pub fn endpoint_key(ip: &str, port: u16) -> (r: String)
    ensures
        r@ == spec_endpoint_key(ip@, port as int),
{
    let mut s = ip.to_owned();
    s.append(":");
    let p = u64_to_string(port as u64);
    s.append(p.as_str());
    proof {
        reveal_strlit(":");
        assert(s@ =~= spec_endpoint_key(ip@, port as int));
    }
    s
}

/// Whether a byte is ASCII whitespace.
pub open spec fn spec_is_space(b: u8) -> bool {
    b == 32 || b == 9 || b == 10 || b == 13
}

/// Whether a string consists of whitespace alone.
pub open spec fn spec_is_blank(bytes: Seq<u8>) -> bool {
    forall|i: int| 0 <= i < bytes.len() ==> spec_is_space(bytes[i])
}

/// True exactly when every byte of the string is ASCII whitespace.
pub fn is_blank(s: &str) -> (r: bool)
    ensures
        r == spec_is_blank(s.spec_bytes()),
{
    let bytes = s.as_bytes();
    let mut i: usize = 0;
    while i < bytes.len()
        invariant
            i <= bytes.len(),
            bytes@ == s.spec_bytes(),
            forall|j: int| 0 <= j < i ==> spec_is_space(bytes@[j]),
        decreases bytes.len() - i,
    {
        let b = bytes[i];
        if !(b == 32 || b == 9 || b == 10 || b == 13) {
            return false;
        }
        i += 1;
    }
    true
}


/// String equality by contents.
pub fn str_eq(a: &str, b: &str) -> (r: bool)
    ensures
        r == (a@ == b@),
{
    let x = a.to_owned();
    let y = b.to_owned();
    x == y
}


/// Whether `needle` occurs as a contiguous run of bytes in `haystack`.
pub open spec fn spec_contains_bytes(h: Seq<u8>, n: Seq<u8>) -> bool {
    exists|i: int| 0 <= i <= h.len() - n.len() && #[trigger] h.subrange(i, i + n.len()) == n
}

/// Substring search on raw bytes, as the listing filter uses it.
pub fn bytes_contains(h: &[u8], n: &[u8]) -> (r: bool)
    ensures
        r == spec_contains_bytes(h@, n@),
{
    if n.len() > h.len() {
        proof {
            assert(!spec_contains_bytes(h@, n@));
        }
        return false;
    }
    let mut i: usize = 0;
    while i <= h.len() - n.len()
        invariant
            n.len() <= h.len(),
            i <= h.len() - n.len() + 1,
            forall|ii: int| 0 <= ii < i ==> #[trigger] h@.subrange(ii, ii + n@.len()) != n@,
        decreases h.len() - n.len() + 1 - i,
    {
        let mut j: usize = 0;
        let mut matched = true;
        while j < n.len()
            invariant
                n.len() <= h.len(),
                i <= h.len() - n.len(),
                j <= n.len(),
                matched ==> forall|jj: int| 0 <= jj < j ==> h@[i + jj] == n@[jj],
                !matched ==> h@.subrange(i as int, i + n@.len()) != n@ && n@.len() > 0,
            decreases n.len() - j,
        {
            if h[i + j] != n[j] {
                proof {
                    assert(h@.subrange(i as int, i + n@.len())[j as int] != n@[j as int]);
                }
                matched = false;
                j = n.len();
            } else {
                j += 1;
            }
        }
        if matched {
            proof {
                assert(h@.subrange(i as int, i + n@.len()) =~= n@);
            }
            return true;
        }
        i += 1;
    }
    false
}


/// Relies on String::from_utf8: accepts exactly valid UTF-8 and preserves
/// the bytes, so it fails only on bytes that are no encoding of any text.
#[verifier::external_body]
pub fn string_from_bytes(v: Vec<u8>) -> (r: Option<String>)
    ensures
        match r {
            Some(s) => vstd::utf8::encode_utf8(s@) == v@,
            None => forall|s: Seq<char>| vstd::utf8::encode_utf8(s) != v@,
        },
{
    String::from_utf8(v).ok()
}

/// The position of the first occurrence of a byte.
pub open spec fn spec_find_byte(bs: Seq<u8>, b: u8) -> Option<int>
    decreases bs.len(),
{
    if bs.len() == 0 {
        None
    } else if bs[0] == b {
        Some(0)
    } else {
        match spec_find_byte(bs.drop_first(), b) {
            Some(k) => Some(k + 1),
            None => None,
        }
    }
}

/// A scan that stopped at the byte, with none before it, found the first
/// occurrence.
pub proof fn lemma_find_byte_at(bs: Seq<u8>, b: u8, k: int)
    requires
        0 <= k < bs.len(),
        bs[k] == b,
        forall|j: int| 0 <= j < k ==> bs[j] != b,
    ensures
        spec_find_byte(bs, b) == Some(k),
    decreases k,
{
    if k > 0 {
        assert forall|j: int| 0 <= j < k - 1 implies bs.drop_first()[j] != b by {
            assert(bs.drop_first()[j] == bs[j + 1]);
        }
        assert(bs.drop_first()[k - 1] == bs[k]);
        lemma_find_byte_at(bs.drop_first(), b, k - 1);
    }
}

/// A scan that ran out without meeting the byte found no occurrence.
pub proof fn lemma_find_byte_none(bs: Seq<u8>, b: u8)
    requires
        forall|j: int| 0 <= j < bs.len() ==> bs[j] != b,
    ensures
        spec_find_byte(bs, b) is None,
    decreases bs.len(),
{
    if bs.len() > 0 {
        assert forall|j: int| 0 <= j < bs.drop_first().len() implies bs.drop_first()[j] != b by {
            assert(bs.drop_first()[j] == bs[j + 1]);
        }
        lemma_find_byte_none(bs.drop_first(), b);
    }
}

/// How many copies of a byte the sequence starts with.
pub open spec fn spec_leading_byte(bs: Seq<u8>, b: u8) -> int
    decreases bs.len(),
{
    if bs.len() == 0 || bs[0] != b {
        0
    } else {
        1 + spec_leading_byte(bs.drop_first(), b)
    }
}

/// A scan that saw the byte up to a stop, and a different byte or the end at
/// the stop, counted the leading run.
pub proof fn lemma_leading_byte_at(bs: Seq<u8>, b: u8, k: int)
    requires
        0 <= k <= bs.len(),
        forall|j: int| 0 <= j < k ==> bs[j] == b,
        k < bs.len() ==> bs[k] != b,
    ensures
        spec_leading_byte(bs, b) == k,
    decreases k,
{
    if k == 0 {
    } else {
        assert forall|j: int| 0 <= j < k - 1 implies bs.drop_first()[j] == b by {
            assert(bs.drop_first()[j] == bs[j + 1]);
        }
        if k - 1 < bs.drop_first().len() {
            assert(bs.drop_first()[k - 1] == bs[k]);
        }
        lemma_leading_byte_at(bs.drop_first(), b, k - 1);
    }
}

} // verus!
