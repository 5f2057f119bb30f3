//! Comparing and joining strings, with contracts over their characters.
use vstd::prelude::*;
use vstd::utf8::{
    char_u32_cast, encode_scalar, encode_utf8, encode_utf8_decode_utf8, encode_utf8_first_scalar,
};

verus! {

/// Whether two strings are equal, compared by their bytes.
pub fn str_eq(a: &str, b: &str) -> (r: bool)
    ensures
        r == (a@ == b@),
{
    let x = a.as_bytes();
    let y = b.as_bytes();
    proof {
        encode_utf8_decode_utf8(a@);
        encode_utf8_decode_utf8(b@);
    }
    if x.len() != y.len() {
        return false;
    }
    let mut i: usize = 0;
    while i < x.len()
        invariant
            x@ == encode_utf8(a@),
            y@ == encode_utf8(b@),
            x@.len() == y@.len(),
            i <= x@.len(),
            forall|j: int| 0 <= j < i ==> x@[j] == y@[j],
        decreases x@.len() - i,
    {
        if x[i] != y[i] {
            return false;
        }
        i = i + 1;
    }
    assert(x@ =~= y@);
    true
}

/// The UTF-8 bytes of two strings one after the other are those of the joined string.
pub proof fn lemma_utf8_concat(a: Seq<char>, b: Seq<char>)
    ensures
        encode_utf8(a + b) == encode_utf8(a) + encode_utf8(b),
    decreases a.len(),
{
    if a.len() == 0 {
        assert(a + b =~= b);
    } else {
        assert((a + b).drop_first() =~= a.drop_first() + b);
        lemma_utf8_concat(a.drop_first(), b);
        assert(encode_utf8(a + b) =~= encode_utf8(a) + encode_utf8(b));
    }
}

/// One string's UTF-8 bytes begin another's exactly when its characters begin the other's.
pub proof fn lemma_utf8_prefix(p: Seq<char>, k: Seq<char>)
    ensures
        encode_utf8(p).is_prefix_of(encode_utf8(k)) <==> p.is_prefix_of(k),
    decreases p.len(),
{
    if p.is_prefix_of(k) {
        let rest = k.subrange(p.len() as int, k.len() as int);
        assert(k =~= p + rest);
        lemma_utf8_concat(p, rest);
    }
    if encode_utf8(p).is_prefix_of(encode_utf8(k)) && p.len() > 0 {
        let bp = encode_utf8(p);
        let bk = encode_utf8(k);
        encode_utf8_first_scalar(p);
        let ep = encode_scalar(p[0] as u32);
        assert(bp == ep + encode_utf8(p.drop_first()));
        assert(ep.len() > 0);
        if k.len() == 0 {
            assert(bk.len() == 0);
        }
        assert(k.len() > 0);
        encode_utf8_first_scalar(k);
        let ek = encode_scalar(k[0] as u32);
        assert(bk == ek + encode_utf8(k.drop_first()));
        assert(bp[0] == bk[0]);
        assert(ep.len() == ek.len());
        assert forall|i: int| 0 <= i < ep.len() implies bp[i] == bk[i] by {
            assert(bp[i] == bk.subrange(0, bp.len() as int)[i]);
        }
        assert(p[0] as u32 == k[0] as u32);
        char_u32_cast(p[0], p[0] as u32);
        char_u32_cast(k[0], k[0] as u32);
        assert(ep =~= ek);
        assert(encode_utf8(p.drop_first()) =~= bp.subrange(ep.len() as int, bp.len() as int));
        assert(encode_utf8(k.drop_first()) =~= bk.subrange(ek.len() as int, bk.len() as int));
        assert(encode_utf8(p.drop_first()).is_prefix_of(encode_utf8(k.drop_first())));
        lemma_utf8_prefix(p.drop_first(), k.drop_first());
        assert(p =~= seq![p[0]] + p.drop_first());
        assert(k.subrange(0, p.len() as int) =~= seq![k[0]] + k.drop_first().subrange(
            0,
            p.len() - 1,
        ));
    }
}

/// Whether the characters of `prefix` begin those of `s`.
pub fn str_starts_with(s: &str, prefix: &str) -> (r: bool)
    ensures
        r == prefix@.is_prefix_of(s@),
{
    let x = s.as_bytes();
    let y = prefix.as_bytes();
    proof {
        lemma_utf8_prefix(prefix@, s@);
    }
    if y.len() > x.len() {
        return false;
    }
    let mut i: usize = 0;
    while i < y.len()
        invariant
            x@ == encode_utf8(s@),
            y@ == encode_utf8(prefix@),
            y@.len() <= x@.len(),
            y@.is_prefix_of(x@) <==> prefix@.is_prefix_of(s@),
            i <= y@.len(),
            forall|j: int| 0 <= j < i ==> y@[j] == x@[j],
        decreases y@.len() - i,
    {
        if x[i] != y[i] {
            assert(x@.subrange(0, y@.len() as int)[i as int] == x@[i as int]);
            return false;
        }
        i = i + 1;
    }
    assert(y@ =~= x@.subrange(0, y@.len() as int));
    true
}

/// The characters of `a` followed by those of `b`.
pub fn join(a: &str, b: &str) -> (r: String)
    ensures
        r@ == a@ + b@,
{
    let mut r = a.to_owned();
    r.append(b);
    r
}

} // verus!
