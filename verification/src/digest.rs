//! The hash by which the archive recognises a file that has not changed.

use vstd::prelude::*;

verus! {

/// A message for SHA-256 is shorter than this many bytes: its length in bits
/// is kept in 64 bits.
pub const MESSAGE_LIMIT: u64 = 0x2000_0000_0000_0000;

/// The SHA-256 digest of a message.
pub uninterp spec fn sha256(data: Seq<u8>) -> Seq<u8>;

/// Calls `Digest::digest` of `sha2::Sha256`. Trusted: the digest depends on the
/// message alone, and it is 32 bytes long. What the bytes are is not stated.
/// A message of `MESSAGE_LIMIT` bytes or more is left out, since its length in
/// bits would overflow the counter.
#[verifier::external_body]
fn sha256_digest(data: &[u8]) -> (digest: Vec<u8>)
    requires
        data@.len() < MESSAGE_LIMIT,
    ensures
        digest@ == sha256(data@),
        digest@.len() == 32,
{
    <sha2::Sha256 as sha2::Digest>::digest(data).to_vec()
}

/// The lower case hexadecimal digit for `n`.
pub open spec fn hex_char(n: int) -> char {
    if n < 10 {
        (48 + n) as char
    } else {
        (87 + n) as char
    }
}

/// Two hexadecimal digits for each byte, the high one first.
pub open spec fn hex(data: Seq<u8>) -> Seq<char> {
    Seq::new(
        2 * data.len(),
        |i: int|
            hex_char(
                if i % 2 == 0 {
                    data[i / 2] as int / 16
                } else {
                    data[i / 2] as int % 16
                },
            ),
    )
}

fn hex_str(n: u8) -> (text: &'static str)
    requires
        n < 16,
    ensures
        text@ == seq![hex_char(n as int)],
{
    proof {
        reveal_strlit("0");
        reveal_strlit("1");
        reveal_strlit("2");
        reveal_strlit("3");
        reveal_strlit("4");
        reveal_strlit("5");
        reveal_strlit("6");
        reveal_strlit("7");
        reveal_strlit("8");
        reveal_strlit("9");
        reveal_strlit("a");
        reveal_strlit("b");
        reveal_strlit("c");
        reveal_strlit("d");
        reveal_strlit("e");
        reveal_strlit("f");
    }
    match n {
        0 => "0",
        1 => "1",
        2 => "2",
        3 => "3",
        4 => "4",
        5 => "5",
        6 => "6",
        7 => "7",
        8 => "8",
        9 => "9",
        10 => "a",
        11 => "b",
        12 => "c",
        13 => "d",
        14 => "e",
        _ => "f",
    }
}

/// `data` in lower case hexadecimal.
pub fn hex_string(data: &[u8]) -> (text: String)
    ensures
        text@ == hex(data@),
{
    let mut text = String::new();
    let mut i: usize = 0;
    while i < data.len()
        invariant
            i <= data.len(),
            text@ == hex(data@.take(i as int)),
        decreases data.len() - i,
    {
        let byte: u8 = data[i];
        text.append(hex_str(byte / 16));
        text.append(hex_str(byte % 16));
        i += 1;
        assert(text@ =~= hex(data@.take(i as int)));
    }
    assert(data@.take(i as int) == data@);
    text
}

/// The hash of a file with the content `data`: its SHA-256 digest in
/// hexadecimal. The content is taken as a whole.
pub fn compute_file_hash(data: &[u8]) -> (hash: String)
    requires
        data@.len() < MESSAGE_LIMIT,
    ensures
        hash@ == hex(sha256(data@)),
        hash@.len() == 64,
        sha256(data@).len() == 32,
{
    let digest = sha256_digest(data);
    hex_string(digest.as_slice())
}

proof fn lemma_hex_char(m: int, n: int)
    requires
        0 <= m < 16,
        0 <= n < 16,
        hex_char(m) == hex_char(n),
    ensures
        m == n,
{
    assert(hex_char(m) as int == if m < 10 { 48 + m } else { 87 + m });
    assert(hex_char(n) as int == if n < 10 { 48 + n } else { 87 + n });
}

/// Two byte strings with the same hexadecimal form are the same.
pub proof fn law_hex_is_injective(a: Seq<u8>, b: Seq<u8>)
    requires
        hex(a) == hex(b),
    ensures
        a == b,
{
    assert(hex(a).len() == 2 * a.len());
    assert(hex(b).len() == 2 * b.len());
    assert forall|k: int| 0 <= k < a.len() implies a[k] == b[k] by {
        assert(hex(a)[2 * k] == hex(b)[2 * k]);
        assert(hex(a)[2 * k + 1] == hex(b)[2 * k + 1]);
        assert((2 * k) / 2 == k && (2 * k + 1) / 2 == k);
        assert(hex(a)[2 * k] == hex_char(a[k] as int / 16));
        assert(hex(b)[2 * k] == hex_char(b[k] as int / 16));
        assert(hex(a)[2 * k + 1] == hex_char(a[k] as int % 16));
        assert(hex(b)[2 * k + 1] == hex_char(b[k] as int % 16));
        lemma_hex_char(a[k] as int / 16, b[k] as int / 16);
        lemma_hex_char(a[k] as int % 16, b[k] as int % 16);
    }
    assert(a =~= b);
}

/// Two characters stand for each byte, the first for its sixteens and the second
/// for its ones: the digits up to nine, and from ten on the letters from `a`.
pub proof fn law_hex_reads_back(data: Seq<u8>, k: int)
    requires
        0 <= k < data.len(),
    ensures
        hex(data).len() == 2 * data.len(),
        ({
            let high = hex(data)[2 * k] as int;
            let low = hex(data)[2 * k + 1] as int;
            &&& 48 <= high <= 57 || 97 <= high <= 102
            &&& 48 <= low <= 57 || 97 <= low <= 102
            &&& data[k] as int == 16 * (if high <= 57 {
                high - 48
            } else {
                high - 87
            }) + (if low <= 57 {
                low - 48
            } else {
                low - 87
            })
        }),
{
    assert((2 * k) / 2 == k && (2 * k + 1) / 2 == k);
    assert(hex(data)[2 * k] == hex_char(data[k] as int / 16));
    assert(hex(data)[2 * k + 1] == hex_char(data[k] as int % 16));
}

} // verus!
