use vstd::prelude::*;
use vstd::string::StringSliceAdditionalSpecFns;

verus! {

/// Name of the default column family.
pub const CF_DEFAULT: &'static str = "default";
/// Name of the write column family.
pub const CF_WRITE: &'static str = "write";
/// Name of the lock column family.
pub const CF_LOCK: &'static str = "lock";

/// `a` sorts strictly before `b` in the lexicographic order of byte strings
/// (a proper prefix sorts first).
pub open spec fn lex_lt(a: Seq<u8>, b: Seq<u8>) -> bool
    decreases a.len(),
{
    if b.len() == 0 {
        false
    } else if a.len() == 0 {
        true
    } else if a[0] != b[0] {
        a[0] < b[0]
    } else {
        lex_lt(a.drop_first(), b.drop_first())
    }
}

/// No byte string sorts before itself, and two never sort before each other.
pub proof fn lemma_lex_lt_asymmetric(a: Seq<u8>, b: Seq<u8>)
    ensures
        !(lex_lt(a, b) && lex_lt(b, a)),
        !lex_lt(a, a),
    decreases a.len(),
{
    if a.len() > 0 {
        lemma_lex_lt_asymmetric(a.drop_first(), a.drop_first());
        if b.len() > 0 && a[0] == b[0] {
            lemma_lex_lt_asymmetric(a.drop_first(), b.drop_first());
        }
    }
}

/// The lexicographic order is transitive.
pub proof fn lemma_lex_lt_transitive(a: Seq<u8>, b: Seq<u8>, c: Seq<u8>)
    requires
        lex_lt(a, b),
        lex_lt(b, c),
    ensures
        lex_lt(a, c),
    decreases a.len(),
{
    if a.len() > 0 && a[0] == b[0] && b[0] == c[0] {
        lemma_lex_lt_transitive(a.drop_first(), b.drop_first(), c.drop_first());
    }
}

/// Any two byte strings are equal or one sorts before the other.
pub proof fn lemma_lex_lt_total(a: Seq<u8>, b: Seq<u8>)
    ensures
        a == b || lex_lt(a, b) || lex_lt(b, a),
    decreases a.len(),
{
    if a.len() == 0 {
        if b.len() == 0 {
            assert(a =~= b);
        }
    } else if b.len() > 0 && a[0] == b[0] {
        lemma_lex_lt_total(a.drop_first(), b.drop_first());
        if a.drop_first() == b.drop_first() {
            assert(a.len() == a.drop_first().len() + 1);
            assert(b.len() == b.drop_first().len() + 1);
            assert forall|i: int| 0 <= i < a.len() implies a[i] == b[i] by {
                if i > 0 {
                    assert(a[i] == a.drop_first()[i - 1]);
                    assert(b[i] == b.drop_first()[i - 1]);
                }
            }
            assert(a =~= b);
        }
    }
}

/// Whether `a` sorts strictly before `b` (the order of `<` on byte slices).
pub fn bytes_less(a: &[u8], b: &[u8]) -> (r: bool)
    ensures
        r == lex_lt(a@, b@),
{
    let mut i: usize = 0;
    proof {
        assert(a@.skip(0) =~= a@);
        assert(b@.skip(0) =~= b@);
    }
    while i < a.len() && i < b.len()
        invariant
            0 <= i <= a@.len(),
            i <= b@.len(),
            lex_lt(a@, b@) == lex_lt(a@.skip(i as int), b@.skip(i as int)),
        decreases a@.len() - i,
    {
        if a[i] != b[i] {
            return a[i] < b[i];
        }
        proof {
            assert(a@.skip(i as int).drop_first() =~= a@.skip(i + 1));
            assert(b@.skip(i as int).drop_first() =~= b@.skip(i + 1));
        }
        i += 1;
    }
    i < b.len()
}

/// A copy of `s`.
pub(crate) fn bytes_to_vec(s: &[u8]) -> (r: Vec<u8>)
    ensures
        r@ == s@,
{
    let mut r: Vec<u8> = Vec::new();
    let mut i: usize = 0;
    while i < s.len()
        invariant
            0 <= i <= s@.len(),
            r@ =~= s@.take(i as int),
        decreases s@.len() - i,
    {
        r.push(s[i]);
        i += 1;
    }
    proof {
        assert(s@.take(s@.len() as int) =~= s@);
    }
    r
}

/// The key under which `key` of column family `cf` is stored: `cf`, then
/// `_`, then `key`.
pub fn key_with_cf(cf: &str, key: &[u8]) -> (r: Vec<u8>)
    ensures
        r@ == cf.spec_bytes() + seq![95u8] + key@,
{
    let mut encoded: Vec<u8> = Vec::new();
    let cf_bytes = cf.as_bytes();
    let mut i: usize = 0;
    while i < cf_bytes.len()
        invariant
            0 <= i <= cf_bytes@.len(),
            encoded@ =~= cf_bytes@.take(i as int),
        decreases cf_bytes@.len() - i,
    {
        encoded.push(cf_bytes[i]);
        i += 1;
    }
    encoded.push(95u8);
    let mut j: usize = 0;
    while j < key.len()
        invariant
            0 <= j <= key@.len(),
            encoded@ =~= cf_bytes@ + seq![95u8] + key@.take(j as int),
        decreases key@.len() - j,
    {
        encoded.push(key[j]);
        j += 1;
    }
    encoded
}

/// Whether `current` lies at or beyond `end_key`; an empty end key means
/// "no end".
pub fn exceed_end_key(current: &[u8], end_key: &[u8]) -> (r: bool)
    ensures
        r == (end_key@.len() > 0 && !lex_lt(current@, end_key@)),
{
    if end_key.len() == 0 {
        return false;
    }
    !bytes_less(current, end_key)
}

} // verus!
