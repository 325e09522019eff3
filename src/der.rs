//! The few DER rules needed to read an X.509 BasicConstraints extension.
use vstd::prelude::*;

use crate::error::SteError;

verus! {

/// Big-endian value of a byte string.
pub open spec fn be_value(b: Seq<u8>) -> nat
    decreases b.len(),
{
    if b.len() == 0 {
        0
    } else {
        (be_value(b.drop_last()) * 256 + b.last()) as nat
    }
}

/// The DER length that starts `b`, with the number of bytes it takes: a
/// short form below `0x80`, or `0x80 | k` followed by `k` big-endian bytes
/// for `1 <= k <= 4`. `None` when `b` does not start with one.
pub open spec fn der_length(b: Seq<u8>) -> Option<(nat, nat)> {
    if b.len() == 0 {
        None
    } else if b[0] < 0x80 {
        Some((b[0] as nat, 1))
    } else {
        let k = (b[0] - 0x80) as nat;
        if k == 0 || k > 4 || b.len() < 1 + k {
            None
        } else {
            Some((be_value(b.subrange(1, 1 + k as int)), 1 + k))
        }
    }
}

/// Whether `needle` occurs in `haystack` at `i`.
pub open spec fn occurs_at(haystack: Seq<u8>, needle: Seq<u8>, i: int) -> bool {
    0 <= i && i + needle.len() <= haystack.len() && haystack.subrange(i, i + needle.len()) == needle
}

/// Reads the DER length at the start of `bytes`: the length and the number
/// of bytes it takes. `TlsError` when there is none.
pub fn read_der_length(bytes: &[u8]) -> (r: Result<(usize, usize), SteError>)
    ensures
        r is Ok <==> der_length(bytes@) is Some,
        r matches Ok((len, used)) ==> der_length(bytes@) == Some((len as nat, used as nat)),
        r matches Err(e) ==> e is TlsError,
{
    let r = read_der_length_in(bytes, 0, bytes.len());
    assert(bytes@.subrange(0, bytes@.len() as int) =~= bytes@);
    r
}

/// Reads the DER length at `pos` among the bytes of `b` before `end`.
pub fn read_der_length_in(b: &[u8], pos: usize, end: usize) -> (r: Result<(usize, usize), SteError>)
    requires
        pos <= end <= b@.len(),
    ensures
        r is Ok <==> der_length(b@.subrange(pos as int, end as int)) is Some,
        r matches Ok((len, used)) ==> der_length(b@.subrange(pos as int, end as int)) == Some(
            (len as nat, used as nat),
        ),
        r matches Err(e) ==> e is TlsError,
{
    let ghost bytes = b@.subrange(pos as int, end as int);
    if end - pos == 0 {
        return Err(SteError::TlsError("Unexpected end of DER data".to_string()));
    }
    let first = b[pos];
    assert(first == bytes[0]);
    if first < 0x80 {
        return Ok((first as usize, 1));
    }
    let num_bytes = (first - 0x80) as usize;
    if num_bytes == 0 || num_bytes > 4 || end - pos < 1 + num_bytes {
        return Err(SteError::TlsError("Invalid DER length".to_string()));
    }
    proof {
        reveal_with_fuel(pow256, 5);
        assert(pow256(4) == 0x1_0000_0000);
    }
    let mut len: u64 = 0;
    let mut i: usize = 1;
    while i <= num_bytes
        invariant
            1 <= i <= num_bytes + 1,
            num_bytes <= 4,
            pos <= end <= b@.len(),
            bytes == b@.subrange(pos as int, end as int),
            1 + num_bytes <= bytes.len(),
            len as nat == be_value(bytes.subrange(1, i as int)),
            len < pow256((i - 1) as nat),
            pow256(4) == 0x1_0000_0000,
        decreases num_bytes + 1 - i,
    {
        let x = b[pos + i];
        proof {
            assert(x == bytes[i as int]);
            let s = bytes.subrange(1, i + 1);
            assert(s.drop_last() =~= bytes.subrange(1, i as int));
            assert(pow256(i as nat) == pow256((i - 1) as nat) * 256);
            assert(len * 256 + x < pow256(i as nat)) by (nonlinear_arith)
                requires
                    len < pow256((i - 1) as nat),
                    x < 256,
                    pow256(i as nat) == pow256((i - 1) as nat) * 256,
            ;
            lemma_pow256_mono(i as nat, 4);
        }
        len = len * 256 + x as u64;
        i = i + 1;
    }
    assert(len < 0x1_0000_0000) by {
        lemma_pow256_mono(num_bytes as nat, 4);
    }
    Ok((len as usize, 1 + num_bytes))
}

/// `256^k`.
pub open spec fn pow256(k: nat) -> nat
    decreases k,
{
    if k == 0 {
        1
    } else {
        pow256((k - 1) as nat) * 256
    }
}

/// `256^a <= 256^b` for `a <= b`.
pub proof fn lemma_pow256_mono(a: nat, b: nat)
    requires
        a <= b,
    ensures
        pow256(a) <= pow256(b),
    decreases b,
{
    if a < b {
        lemma_pow256_mono(a, (b - 1) as nat);
    }
}

/// The first position where `needle` occurs in `haystack`.
pub fn find_subsequence(haystack: &[u8], needle: &[u8]) -> (r: Option<usize>)
    requires
        needle@.len() > 0,
    ensures
        r matches Some(i) ==> occurs_at(haystack@, needle@, i as int) && forall|j: int|
            0 <= j < i ==> !occurs_at(haystack@, needle@, j),
        r is None ==> forall|j: int| 0 <= j ==> !occurs_at(haystack@, needle@, j),
{
    find_from(haystack, needle, 0)
}

/// The first position from `start` where `needle` occurs in `haystack`.
pub fn find_from(haystack: &[u8], needle: &[u8], start: usize) -> (r: Option<usize>)
    requires
        needle@.len() > 0,
    ensures
        r matches Some(i) ==> start <= i && occurs_at(haystack@, needle@, i as int) && forall|j: int|
            start <= j < i ==> !occurs_at(haystack@, needle@, j),
        r is None ==> forall|j: int| start <= j ==> !occurs_at(haystack@, needle@, j),
{
    if needle.len() > haystack.len() {
        return None;
    }
    let hl = haystack.len();
    let last = hl - needle.len();
    let mut i: usize = start;
    while i <= last
        invariant
            hl == haystack@.len(),
            needle@.len() > 0,
            last + needle@.len() == haystack@.len(),
            start <= i,
            i <= last + 1 || i == start,
            forall|j: int| start <= j < i ==> !occurs_at(haystack@, needle@, j),
        decreases last + 1 - i,
    {
        let mut k: usize = 0;
        let mut same = true;
        while k < needle.len()
            invariant
                i <= last,
                hl == haystack@.len(),
                last + needle@.len() == haystack@.len(),
                k <= needle@.len(),
                same == (forall|m: int| 0 <= m < k ==> haystack@[i + m] == needle@[m]),
            decreases needle@.len() - k,
        {
            if haystack[i + k] != needle[k] {
                same = false;
            }
            k = k + 1;
        }
        if same {
            assert(haystack@.subrange(i as int, i + needle@.len()) =~= needle@);
            return Some(i);
        }
        proof {
            if occurs_at(haystack@, needle@, i as int) {
                let m = choose|m: int| 0 <= m < needle@.len() && haystack@[i + m] != needle@[m];
                assert(haystack@.subrange(i as int, i + needle@.len())[m] == haystack@[i + m]);
            }
        }
        i = i + 1;
    }
    None
}

/// The object identifier of the BasicConstraints extension, with its tag and
/// length.
pub open spec fn basic_constraints_oid() -> Seq<u8> {
    seq![0x06u8, 0x03u8, 0x55u8, 0x1du8, 0x13u8]
}

/// Whether an X.509 certificate in DER says `cA: TRUE` in its BasicConstraints
/// extension: the extension's object identifier, an optional critical flag,
/// then an OCTET STRING holding a SEQUENCE whose first element, if a BOOLEAN,
/// gives the answer (absent, it is FALSE). Occurrences of the identifier not
/// followed by an OCTET STRING are skipped. `TlsError` for a malformed
/// extension.
pub fn basic_constraints_ca_true(der: &[u8]) -> (r: Result<bool, SteError>)
    ensures
        (forall|j: int| 0 <= j ==> !occurs_at(der@, basic_constraints_oid(), j)) ==> r matches Ok(
            false,
        ),
        r matches Ok(true) ==> exists|j: int| 0 <= j && occurs_at(der@, basic_constraints_oid(), j),
        r matches Err(e) ==> e is TlsError,
{
    let oid: [u8; 5] = [0x06, 0x03, 0x55, 0x1d, 0x13];
    assert(oid@ =~= basic_constraints_oid());
    let n = der.len();
    let mut idx: usize = 0;
    while idx <= n
        invariant
            n == der@.len(),
            oid@ == basic_constraints_oid(),
        decreases n + 1 - idx,
    {
        let pos = match find_from(der, &oid, idx) {
            None => {
                return Ok(false);
            },
            Some(p) => p,
        };
        let mut cursor = pos + 5;
        if cursor < n && der[cursor] == 0x01 {
            cursor = cursor + 1;
            let (len, consumed) = match read_der_length_in(der, cursor, n) {
                Ok(v) => v,
                Err(e) => {
                    return Err(e);
                },
            };
            proof {
                assert(consumed <= n - cursor);
            }
            if len > n - cursor - consumed {
                cursor = n;
            } else {
                cursor = cursor + consumed + len;
            }
        }
        if cursor >= n || der[cursor] != 0x04 {
            idx = pos + 1;
            continue;
        }
        cursor = cursor + 1;
        let (octet_len, consumed) = match read_der_length_in(der, cursor, n) {
            Ok(v) => v,
            Err(e) => {
                return Err(e);
            },
        };
        proof {
            assert(consumed <= n - cursor);
        }
        cursor = cursor + consumed;
        if octet_len > n - cursor {
            return Err(SteError::TlsError("Malformed BasicConstraints extension".to_string()));
        }
        let end = cursor + octet_len;
        if octet_len == 0 || der[cursor] != 0x30 {
            return Err(SteError::TlsError("Malformed BasicConstraints value".to_string()));
        }
        let mut inner = cursor + 1;
        let (seq_len, seq_consumed) = match read_der_length_in(der, inner, end) {
            Ok(v) => v,
            Err(e) => {
                return Err(e);
            },
        };
        proof {
            assert(seq_consumed <= end - inner);
        }
        inner = inner + seq_consumed;
        if seq_len == 0 || inner >= end {
            return Ok(false);
        }
        if der[inner] != 0x01 {
            return Ok(false);
        }
        inner = inner + 1;
        let (bool_len, bool_consumed) = match read_der_length_in(der, inner, end) {
            Ok(v) => v,
            Err(e) => {
                return Err(e);
            },
        };
        proof {
            assert(bool_consumed <= end - inner);
        }
        inner = inner + bool_consumed;
        if bool_len == 0 || bool_len > end - inner {
            return Err(SteError::TlsError("Malformed BasicConstraints boolean".to_string()));
        }
        return Ok(der[inner] != 0x00);
    }
    Ok(false)
}

} // verus!
