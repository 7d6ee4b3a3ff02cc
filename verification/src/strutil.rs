//! Byte-level string utilities: UTF-8 byte views of strings, the
//! byte-wise lexicographic order labels are sorted by, and the split of a
//! filename into stem and extension at its last dot.

use vstd::prelude::*;
use vstd::slice::slice_subrange;
use vstd::slice::slice_to_vec;
use vstd::string::StrSliceExecFns;
use vstd::string::StringSliceAdditionalSpecFns;
use vstd::utf8::encode_utf8;
use vstd::utf8::encode_utf8_decode_utf8;

verus! {

/// The UTF-8 bytes of a character sequence.
pub open spec fn utf8_bytes(s: Seq<char>) -> Seq<u8> {
    encode_utf8(s)
}

/// Two character sequences are equal exactly when their UTF-8 encodings
/// are: encoding is injective.
pub proof fn lemma_utf8_bytes_eq(a: Seq<char>, b: Seq<char>)
    ensures
        (utf8_bytes(a) == utf8_bytes(b)) <==> (a == b),
{
    if utf8_bytes(a) == utf8_bytes(b) {
        encode_utf8_decode_utf8(a);
        encode_utf8_decode_utf8(b);
    }
}

/// Strict byte-wise lexicographic order.
pub open spec fn bytes_lt(a: Seq<u8>, b: Seq<u8>) -> bool
    decreases a.len(),
{
    if b.len() == 0 {
        false
    } else if a.len() == 0 {
        true
    } else if a[0] < b[0] {
        true
    } else if a[0] > b[0] {
        false
    } else {
        bytes_lt(a.skip(1), b.skip(1))
    }
}

/// Exactly one of `a < b`, `a == b`, `b < a` holds under the byte-wise
/// order.
pub proof fn lemma_bytes_lt_trichotomy(a: Seq<u8>, b: Seq<u8>)
    ensures
        bytes_lt(a, b) || a == b || bytes_lt(b, a),
        bytes_lt(a, b) ==> a != b && !bytes_lt(b, a),
        a == b ==> !bytes_lt(a, b) && !bytes_lt(b, a),
    decreases a.len() + b.len(),
{
    if a.len() == 0 && b.len() == 0 {
        assert(a =~= b);
    } else if a.len() > 0 && b.len() > 0 && a[0] == b[0] {
        lemma_bytes_lt_trichotomy(a.skip(1), b.skip(1));
        if a.skip(1) == b.skip(1) {
            assert(a =~= b) by {
                assert forall|i: int| 0 <= i < a.len() implies a[i] == b[i] by {
                    if i > 0 {
                        assert(a[i] == a.skip(1)[i - 1]);
                        assert(b[i] == b.skip(1)[i - 1]);
                    }
                }
            }
        }
        if a == b {
            assert(a.skip(1) =~= b.skip(1));
        }
    } else {
        if a == b {
            assert(a.len() == b.len());
            if a.len() > 0 {
                assert(a[0] == b[0]);
            }
        }
    }
}

/// The byte-wise order is transitive.
pub proof fn lemma_bytes_lt_trans(a: Seq<u8>, b: Seq<u8>, c: Seq<u8>)
    requires
        bytes_lt(a, b),
        bytes_lt(b, c),
    ensures
        bytes_lt(a, c),
    decreases a.len() + b.len() + c.len(),
{
    if c.len() == 0 {
    } else if a.len() == 0 {
    } else if b.len() == 0 {
    } else {
        if a[0] == b[0] && b[0] == c[0] {
            lemma_bytes_lt_trans(a.skip(1), b.skip(1), c.skip(1));
        }
    }
}

/// Appends all of `s` to `out`.
pub fn push_bytes(out: &mut Vec<u8>, s: &[u8])
    ensures
        final(out)@ == old(out)@ + s@,
{
    let mut i: usize = 0;
    while i < s.len()
        invariant
            i <= s@.len(),
            out@ == old(out)@ + s@.take(i as int),
        decreases s@.len() - i,
    {
        out.push(s[i]);
        proof {
            assert(old(out)@ + s@.take(i + 1) =~= (old(out)@ + s@.take(i as int)).push(
                s@[i as int],
            ));
        }
        i = i + 1;
    }
    proof {
        assert(s@.take(i as int) =~= s@);
    }
}

/// The UTF-8 bytes of a string, as an owned vector.
pub fn str_bytes(s: &str) -> (r: Vec<u8>)
    ensures
        r@ == utf8_bytes(s@),
{
    s.as_bytes_vec()
}

/// Whether two strings hold the same characters.
pub fn string_eq(a: &String, b: &String) -> (r: bool)
    ensures
        r == (a@ == b@),
{
    a.eq(b)
}

/// Byte-wise comparison of two byte slices under `bytes_lt`.
pub fn bytes_lt_exec(a: &[u8], b: &[u8]) -> (r: bool)
    ensures
        r == bytes_lt(a@, b@),
{
    let mut i: usize = 0;
    proof {
        assert(a@.skip(0) =~= a@);
        assert(b@.skip(0) =~= b@);
    }
    loop
        invariant
            i <= a@.len(),
            i <= b@.len(),
            bytes_lt(a@, b@) == bytes_lt(a@.skip(i as int), b@.skip(i as int)),
        decreases a@.len() - i,
    {
        if i == b.len() {
            assert(b@.skip(i as int).len() == 0);
            return false;
        }
        if i == a.len() {
            assert(a@.skip(i as int).len() == 0);
            return true;
        }
        let x = a[i];
        let y = b[i];
        assert(x == a@.skip(i as int)[0] && y == b@.skip(i as int)[0]);
        if x < y {
            return true;
        }
        if x > y {
            return false;
        }
        assert(a@.skip(i as int).skip(1) =~= a@.skip(i + 1));
        assert(b@.skip(i as int).skip(1) =~= b@.skip(i + 1));
        i = i + 1;
    }
}

/// The index of the last `'.'` byte of `f`, or `-1` when it has none.
pub open spec fn rfind_dot(f: Seq<u8>) -> int
    decreases f.len(),
{
    if f.len() == 0 {
        -1
    } else if f[f.len() - 1] == 46 {
        f.len() - 1
    } else {
        rfind_dot(f.drop_last())
    }
}

/// The filename stem: everything before the last dot, or the whole name
/// when there is none.
pub open spec fn stem_of(f: Seq<u8>) -> Seq<u8> {
    if rfind_dot(f) < 0 {
        f
    } else {
        f.subrange(0, rfind_dot(f))
    }
}

/// The filename extension: everything after the last dot, empty when there
/// is none (or when the name ends with its dot).
pub open spec fn ext_of(f: Seq<u8>) -> Seq<u8> {
    if rfind_dot(f) < 0 {
        Seq::empty()
    } else {
        f.subrange(rfind_dot(f) + 1, f.len() as int)
    }
}

proof fn lemma_rfind_dot_no_dot_suffix(f: Seq<u8>, i: int)
    requires
        0 <= i <= f.len(),
        forall|j: int| i <= j < f.len() ==> f[j] != 46,
    ensures
        rfind_dot(f) == rfind_dot(f.subrange(0, i)),
    decreases f.len() - i,
{
    if i == f.len() {
        assert(f.subrange(0, i) =~= f);
    } else {
        lemma_rfind_dot_no_dot_suffix(f, i + 1);
        let g = f.subrange(0, i + 1);
        assert(g[g.len() - 1] != 46);
        assert(g.drop_last() =~= f.subrange(0, i));
    }
}

proof fn lemma_rfind_dot_hit(f: Seq<u8>, k: int)
    requires
        0 <= k < f.len(),
        f[k] == 46,
        forall|j: int| k < j < f.len() ==> f[j] != 46,
    ensures
        rfind_dot(f) == k,
    decreases f.len(),
{
    if k == f.len() - 1 {
    } else {
        assert(f[f.len() - 1] != 46);
        lemma_rfind_dot_hit(f.drop_last(), k);
    }
}

/// Finds the last `'.'` of `f`, the split point `rsplit_once('.')` uses.
pub fn rfind_dot_exec(f: &[u8]) -> (r: Option<usize>)
    ensures
        match r {
            Some(k) => rfind_dot(f@) == k && k < f@.len(),
            None => rfind_dot(f@) == -1,
        },
{
    let mut i: usize = f.len();
    loop
        invariant
            i <= f@.len(),
            forall|j: int| i <= j < f@.len() ==> f@[j] != 46,
        decreases i,
    {
        if i == 0 {
            proof {
                lemma_rfind_dot_no_dot_suffix(f@, 0);
                assert(f@.subrange(0, 0).len() == 0);
            }
            return None;
        }
        i = i - 1;
        if f[i] == 46 {
            proof {
                lemma_rfind_dot_hit(f@, i as int);
            }
            return Some(i);
        }
    }
}

/// Splits a filename into its stem and extension at the last dot, the way
/// `rsplit_once('.')` does; the extension is `None` when the name has no
/// dot.
pub fn split_filename(f: &[u8]) -> (r: (Vec<u8>, Option<Vec<u8>>))
    ensures
        r.0@ == stem_of(f@),
        match r.1 {
            Some(e) => rfind_dot(f@) >= 0 && e@ == ext_of(f@),
            None => rfind_dot(f@) < 0 && ext_of(f@).len() == 0,
        },
{
    match rfind_dot_exec(f) {
        Some(k) => {
            let n = f.len();
            assert(k < n);
            let stem = slice_to_vec(slice_subrange(f, 0, k));
            let ext = slice_to_vec(slice_subrange(f, k + 1, n));
            (stem, Some(ext))
        },
        None => (slice_to_vec(f), None),
    }
}

} // verus!
