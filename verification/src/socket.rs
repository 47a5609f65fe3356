//! Where the daemon of a knowledge base listens.

use crate::paths::{abs_arg, joined_path};
use crate::text::{hex_digit, hex_of, hex_text, joined};
use vstd::prelude::*;

verus! {

/// The start of the FNV-1a digest of 64 bits.
pub const FNV_OFFSET: u64 = 0xcbf29ce484222325;

/// The factor of the FNV-1a digest of 64 bits.
pub const FNV_PRIME: u64 = 0x100000001b3;

/// The FNV-1a digest of the first `n` bytes: each byte is mixed in by exclusive or,
/// then the digest is multiplied by the prime, modulo two to the 64.
pub open spec fn fnv1a(bytes: Seq<u8>, n: int) -> u64
    decreases n,
{
    if n <= 0 {
        FNV_OFFSET
    } else {
        (((fnv1a(bytes, n - 1) ^ (bytes[n - 1] as u64)) * FNV_PRIME) % 0x1_0000_0000_0000_0000) as u64
    }
}

/// The FNV-1a digest of some bytes.
pub fn content_hash(bytes: &[u8]) -> (r: u64)
    ensures
        r == fnv1a(bytes@, bytes@.len() as int),
{
    let mut h: u64 = FNV_OFFSET;
    let mut i: usize = 0;
    while i < bytes.len()
        invariant
            i <= bytes@.len(),
            h == fnv1a(bytes@, i as int),
        decreases bytes@.len() - i,
    {
        let mixed: u64 = h ^ (bytes[i] as u64);
        let wide: u128 = (mixed as u128) * (FNV_PRIME as u128);
        h = (wide % 0x1_0000_0000_0000_0000) as u64;
        i += 1;
    }
    h
}

/// The name of the socket of an entry: the digest of the path's bytes in sixteen
/// hexadecimal digits.
pub open spec fn socket_name(entry: Seq<char>) -> Seq<char> {
    let bytes = vstd::utf8::encode_utf8(entry);
    hex_of(fnv1a(bytes, bytes.len() as int) as nat, 16) + ".sock"@
}

/// The name of the socket of an entry. It depends on the bytes of the path alone,
/// so that the daemon and a client arrive at the same one.
pub fn socket_file_name(entry: &str) -> (r: String)
    ensures
        r@ == socket_name(entry@),
{
    let digits = hex_text(content_hash(entry.as_bytes()), 16);
    joined(digits.as_str(), ".sock")
}

/// The directory of the sockets: below the home directory as it is given, or below
/// the directory for temporary files where there is none.
pub open spec fn sockets_dir_of(home: Option<Seq<char>>, temp: Seq<char>) -> Seq<char> {
    let base = match home {
        Some(h) => h,
        None => temp,
    };
    joined_path(joined_path(joined_path(base, ".arsumbris"@), "au-engine"@), "run"@)
}

pub fn sockets_dir(home: &Option<String>, temp: &str) -> (r: String)
    ensures
        r@ == sockets_dir_of(crate::text::opt_view(*home), temp@),
{
    let base = match home {
        Some(h) => abs_arg(h.as_str(), ".arsumbris"),
        None => abs_arg(temp, ".arsumbris"),
    };
    let engine = abs_arg(base.as_str(), "au-engine");
    abs_arg(engine.as_str(), "run")
}

/// The socket of an entry.
pub fn socket_path(home: &Option<String>, temp: &str, entry: &str) -> (r: String)
    ensures
        r@ == joined_path(
            sockets_dir_of(crate::text::opt_view(*home), temp@),
            socket_name(entry@),
        ),
{
    let dir = sockets_dir(home, temp);
    let name = socket_file_name(entry);
    abs_arg(dir.as_str(), name.as_str())
}

/// The directory of a repo in which a running mutation leaves its marker.
pub fn saga_marker_dir(root: &str) -> (r: String)
    ensures
        r@ == joined_path(joined_path(joined_path(root@, ".arsumbris"@), "au-engine"@), "run"@),
{
    let base = abs_arg(root, ".arsumbris");
    let engine = abs_arg(base.as_str(), "au-engine");
    abs_arg(engine.as_str(), "run")
}

proof fn lemma_hex_width(n: nat, width: nat)
    ensures
        hex_of(n, width).len() == width,
    decreases width,
{
    if width > 0 {
        lemma_hex_width(n / 16, (width - 1) as nat);
    }
}

/// The name of a socket has the same length for every entry, however deep the entry
/// lies, so that it cannot overrun what a socket's path may have.
pub proof fn socket_names_are_of_one_width(entry: Seq<char>)
    ensures
        socket_name(entry).len() == 21,
        socket_name(entry).skip(16) == ".sock"@,
{
    let bytes = vstd::utf8::encode_utf8(entry);
    lemma_hex_width(fnv1a(bytes, bytes.len() as int) as nat, 16);
    reveal_strlit(".sock");
    assert(socket_name(entry).skip(16) =~= ".sock"@);
}

/// Sixteen to the power of `width`.
spec fn hex_bound(width: nat) -> nat
    decreases width,
{
    if width == 0 {
        1
    } else {
        16 * hex_bound((width - 1) as nat)
    }
}

proof fn lemma_hex_tells_apart(a: nat, b: nat, width: nat)
    requires
        a < hex_bound(width),
        b < hex_bound(width),
        hex_of(a, width) == hex_of(b, width),
    ensures
        a == b,
    decreases width,
{
    if width > 0 {
        let w = (width - 1) as nat;
        let (x, y) = (hex_of(a / 16, w), hex_of(b / 16, w));
        lemma_hex_width(a / 16, w);
        lemma_hex_width(b / 16, w);
        assert(hex_of(a, width).drop_last() =~= x);
        assert(hex_of(b, width).drop_last() =~= y);
        assert(hex_of(a, width).last() == hex_digit(a % 16));
        assert(hex_of(b, width).last() == hex_digit(b % 16));
        lemma_hex_tells_apart(a / 16, b / 16, w);
    }
}

/// Two entries share a socket exactly when the digests of their paths are the same.
pub proof fn sockets_differ_with_the_digests(a: Seq<char>, b: Seq<char>)
    ensures
        ({
            let x = vstd::utf8::encode_utf8(a);
            let y = vstd::utf8::encode_utf8(b);
            (socket_name(a) == socket_name(b)) == (fnv1a(x, x.len() as int) == fnv1a(
                y,
                y.len() as int,
            ))
        }),
{
    let x = vstd::utf8::encode_utf8(a);
    let y = vstd::utf8::encode_utf8(b);
    let m = fnv1a(x, x.len() as int);
    let n = fnv1a(y, y.len() as int);
    if socket_name(a) == socket_name(b) {
        lemma_hex_width(m as nat, 16);
        lemma_hex_width(n as nat, 16);
        assert(socket_name(a).take(16) =~= hex_of(m as nat, 16));
        assert(socket_name(b).take(16) =~= hex_of(n as nat, 16));
        assert(hex_bound(16) == 0x1_0000_0000_0000_0000) by {
            reveal_with_fuel(hex_bound, 17);
        }
        lemma_hex_tells_apart(m as nat, n as nat, 16);
    }
}

} // verus!
