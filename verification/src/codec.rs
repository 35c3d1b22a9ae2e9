//! The key codec: encodes field values, arranged in one ordering, into a
//! delimited byte key, and partial bindings into scan prefixes. The reserved
//! separator byte follows every field, so a scan prefix that ends with an
//! extra separator matches whole field values only, never proper prefixes of
//! them.

use vstd::prelude::*;
use vstd::string::StringSliceAdditionalSpecFns;
use vstd::utf8::{
    encode_utf8, valid_utf8, pop_first_scalar, length_of_first_scalar, is_continuation_byte,
    encode_utf8_valid_utf8, encode_utf8_decode_utf8,
};
use crate::triple::ReorderedTriple;

verus! {

/// The reserved separator byte. No byte of UTF-8 encoded text equals it, so
/// it can delimit fields inside a key without ambiguity.
pub const SEP: u8 = 0xFF;

/// True when no byte of `b` is the separator.
pub open spec fn sep_free(b: Seq<u8>) -> bool {
    forall|i: int| 0 <= i < b.len() ==> b[i] != SEP
}

/// The bytes that stand for one field value in a key.
pub open spec fn field_bytes(s: Seq<char>) -> Seq<u8> {
    encode_utf8(s)
}

/// Field tokens concatenated, each immediately followed by one separator.
pub open spec fn joined(fields: Seq<Seq<u8>>) -> Seq<u8>
    decreases fields.len(),
{
    if fields.len() == 0 {
        Seq::empty()
    } else {
        fields[0] + seq![SEP] + joined(fields.drop_first())
    }
}

/// The three field tokens of a key, in the positions of one ordering.
pub open spec fn key_tokens(a: Seq<char>, b: Seq<char>, c: Seq<char>) -> Seq<Seq<u8>> {
    seq![field_bytes(a), field_bytes(b), field_bytes(c)]
}

/// The composite key of three field values arranged in some ordering.
pub open spec fn key_of(a: Seq<char>, b: Seq<char>, c: Seq<char>) -> Seq<u8> {
    joined(key_tokens(a, b, c))
}

/// Strict lexicographic order on byte strings: the order in which the
/// storage substrate keeps and scans its keys.
pub open spec fn lex_lt(a: Seq<u8>, b: Seq<u8>) -> bool
    decreases a.len(),
{
    b.len() > 0 && (a.len() == 0 || a[0] < b[0] || (a[0] == b[0] && lex_lt(
        a.drop_first(),
        b.drop_first(),
    )))
}

pub open spec fn lex_le(a: Seq<u8>, b: Seq<u8>) -> bool {
    !lex_lt(b, a)
}

/// Membership in the half-open scan range [lo, hi) in lexicographic order.
pub open spec fn in_range(k: Seq<u8>, lo: Seq<u8>, hi: Seq<u8>) -> bool {
    lex_le(lo, k) && lex_lt(k, hi)
}

proof fn lemma_valid_utf8_sep_free(bytes: Seq<u8>)
    requires
        valid_utf8(bytes),
    ensures
        sep_free(bytes),
    decreases bytes.len(),
{
    if bytes.len() != 0 {
        let w = length_of_first_scalar(bytes);
        let rest = pop_first_scalar(bytes);
        lemma_valid_utf8_sep_free(rest);
        assert forall|i: int| 0 <= i < bytes.len() implies bytes[i] != SEP by {
            if i < w {
                assert(bytes[0] != SEP);
                if i >= 1 {
                    assert(is_continuation_byte(bytes[i]));
                }
            } else {
                assert(bytes[i] == rest[i - w]);
            }
        }
    }
}

/// The encoded bytes of a field never hold the separator.
pub proof fn lemma_field_bytes_sep_free(s: Seq<char>)
    ensures
        sep_free(field_bytes(s)),
{
    encode_utf8_valid_utf8(s);
    lemma_valid_utf8_sep_free(encode_utf8(s));
}

/// Field encoding is injective: distinct values have distinct bytes.
pub proof fn lemma_field_bytes_injective(a: Seq<char>, b: Seq<char>)
    requires
        field_bytes(a) == field_bytes(b),
    ensures
        a == b,
{
    encode_utf8_decode_utf8(a);
    encode_utf8_decode_utf8(b);
}

/// Joining distributes over concatenation of token sequences.
pub proof fn lemma_joined_concat(a: Seq<Seq<u8>>, b: Seq<Seq<u8>>)
    ensures
        joined(a + b) == joined(a) + joined(b),
    decreases a.len(),
{
    if a.len() == 0 {
        assert(a + b =~= b);
        assert(joined(a) + joined(b) =~= joined(b));
    } else {
        assert((a + b).drop_first() =~= a.drop_first() + b);
        lemma_joined_concat(a.drop_first(), b);
        assert(joined(a + b) =~= joined(a) + joined(b));
    }
}

/// A joined token sequence is as long as all its tokens and separators.
pub proof fn lemma_joined_len(fields: Seq<Seq<u8>>)
    ensures
        fields.len() == 0 ==> joined(fields).len() == 0,
        fields.len() > 0 ==> joined(fields).len() > fields[0].len(),
        fields.len() > 0 ==> joined(fields)[fields[0].len() as int] == SEP,
        fields.len() > 0 ==> (joined(fields)[0] == if fields[0].len() > 0 {
            fields[0][0]
        } else {
            SEP
        }),
    decreases fields.len(),
{
}

/// The unrolled form of a joined single token.
pub proof fn lemma_joined1(x: Seq<u8>)
    ensures
        joined(seq![x]) == x + seq![SEP],
{
    assert(seq![x].drop_first() =~= Seq::<Seq<u8>>::empty());
    assert(joined(Seq::<Seq<u8>>::empty()) =~= Seq::<u8>::empty());
    assert(joined(seq![x]) =~= x + seq![SEP]);
}

/// The unrolled form of a three-token key.
pub proof fn lemma_joined3(x: Seq<u8>, y: Seq<u8>, z: Seq<u8>)
    ensures
        joined(seq![x, y, z]) == x + seq![SEP] + y + seq![SEP] + z + seq![SEP],
{
    let fs = seq![x, y, z];
    assert(fs.drop_first() =~= seq![y, z]);
    assert(seq![y, z].drop_first() =~= seq![z]);
    assert(seq![z].drop_first() =~= Seq::<Seq<u8>>::empty());
    assert(joined(Seq::<Seq<u8>>::empty()) =~= Seq::<u8>::empty());
    assert(joined(seq![z]) =~= z + seq![SEP]);
    assert(joined(seq![y, z]) =~= y + seq![SEP] + (z + seq![SEP]));
    assert(joined(fs) =~= x + seq![SEP] + y + seq![SEP] + z + seq![SEP]);
}

/// A key lies in the half-open range [q, q + [SEP]) exactly when q is a
/// byte prefix of it and the byte after the prefix, if there is one, is not
/// the separator. This is why a scan bounded by the prefix with one extra
/// separator matches whole field values only.
pub proof fn lemma_range_iff_prefix(q: Seq<u8>, k: Seq<u8>)
    ensures
        in_range(k, q, q + seq![SEP]) <==> (q.is_prefix_of(k) && (k.len() == q.len() || k[
            q.len() as int
        ] != SEP)),
    decreases q.len(),
{
    let h = q + seq![SEP];
    if q.len() == 0 {
        assert(h =~= seq![SEP]);
        assert(!lex_lt(k, q));
        if k.len() == 0 {
            assert(lex_lt(k, h));
            assert(q =~= k.subrange(0, 0));
        } else {
            assert(q =~= k.subrange(0, 0));
            assert(h.drop_first() =~= Seq::<u8>::empty());
            assert(!lex_lt(k.drop_first(), Seq::<u8>::empty()));
            assert(lex_lt(k, h) <==> k[0] != SEP);
        }
    } else {
        if k.len() == 0 {
            assert(lex_lt(k, q));
            assert(!q.is_prefix_of(k));
        } else {
            let qs = q.drop_first();
            let ks = k.drop_first();
            assert(h[0] == q[0]);
            assert(h.drop_first() =~= qs + seq![SEP]);
            lemma_range_iff_prefix(qs, ks);
            if k[0] == q[0] {
                assert(lex_lt(k, q) <==> lex_lt(ks, qs));
                assert(lex_lt(k, h) <==> lex_lt(ks, qs + seq![SEP]));
                assert(q.is_prefix_of(k) <==> qs.is_prefix_of(ks)) by {
                    if qs.is_prefix_of(ks) && q.len() <= k.len() {
                        assert(q =~= k.subrange(0, q.len() as int)) by {
                            assert forall|i: int| 0 <= i < q.len() implies q[i] == k[i] by {
                                if i > 0 {
                                    assert(qs[i - 1] == ks.subrange(0, qs.len() as int)[i - 1]);
                                }
                            }
                        }
                    }
                    if q.is_prefix_of(k) {
                        assert(qs =~= ks.subrange(0, qs.len() as int)) by {
                            assert forall|i: int| 0 <= i < qs.len() implies qs[i] == ks[i] by {
                                assert(q[i + 1] == k.subrange(0, q.len() as int)[i + 1]);
                            }
                        }
                    }
                }
                if k.len() > q.len() {
                    assert(k[q.len() as int] == ks[qs.len() as int]);
                }
            } else {
                if k[0] < q[0] {
                    assert(lex_lt(k, q));
                } else {
                    assert(!lex_lt(k, h));
                }
                assert(!q.is_prefix_of(k)) by {
                    if q.is_prefix_of(k) {
                        assert(q[0] == k.subrange(0, q.len() as int)[0]);
                    }
                }
            }
        }
    }
}

/// True when no token holds the separator byte.
pub open spec fn tokens_sep_free(fs: Seq<Seq<u8>>) -> bool {
    forall|i: int| 0 <= i < fs.len() ==> sep_free(#[trigger] fs[i])
}

/// With separator-free tokens, one joined token sequence is a byte prefix
/// of another exactly when its tokens are a leading slice of the other's:
/// the separators rule out every accidental mid-field match.
pub proof fn lemma_joined_prefix(xs: Seq<Seq<u8>>, fs: Seq<Seq<u8>>)
    requires
        tokens_sep_free(xs),
        tokens_sep_free(fs),
        xs.len() <= fs.len(),
    ensures
        joined(xs).is_prefix_of(joined(fs)) <==> xs == fs.subrange(0, xs.len() as int),
    decreases xs.len(),
{
    let jx = joined(xs);
    let jf = joined(fs);
    if xs.len() == 0 {
        assert(jx =~= jf.subrange(0, 0));
        assert(jx.is_prefix_of(jf));
        assert(xs =~= fs.subrange(0, 0));
    } else {
        let x0 = xs[0];
        let f0 = fs[0];
        let xr = xs.drop_first();
        let fr = fs.drop_first();
        let a = joined(xr);
        let b = joined(fr);
        assert(jx =~= x0 + seq![SEP] + a);
        assert(jf =~= f0 + seq![SEP] + b);
        assert(sep_free(x0) && sep_free(f0));
        assert(tokens_sep_free(xr)) by {
            assert forall|i: int| 0 <= i < xr.len() implies sep_free(#[trigger] xr[i]) by {
                assert(xr[i] == xs[i + 1]);
            }
        }
        assert(tokens_sep_free(fr)) by {
            assert forall|i: int| 0 <= i < fr.len() implies sep_free(#[trigger] fr[i]) by {
                assert(fr[i] == fs[i + 1]);
            }
        }
        lemma_joined_prefix(xr, fr);
        if jx.is_prefix_of(jf) {
            assert forall|i: int| 0 <= i < jx.len() implies jx[i] == jf[i] by {
                assert(jx[i] == jf.subrange(0, jx.len() as int)[i]);
            }
            assert(x0.len() == f0.len()) by {
                if x0.len() < f0.len() {
                    assert(jx[x0.len() as int] == SEP);
                    assert(jf[x0.len() as int] == f0[x0.len() as int]);
                } else if x0.len() > f0.len() {
                    assert(jx[f0.len() as int] == x0[f0.len() as int]);
                    assert(jf[f0.len() as int] == SEP);
                }
            }
            assert(x0 =~= f0) by {
                assert forall|i: int| 0 <= i < x0.len() implies x0[i] == f0[i] by {
                    assert(jx[i] == x0[i] && jf[i] == f0[i]);
                }
            }
            assert(a.is_prefix_of(b)) by {
                assert(a =~= b.subrange(0, a.len() as int)) by {
                    assert forall|i: int| 0 <= i < a.len() implies a[i] == b[i] by {
                        assert(jx[x0.len() + 1 + i] == a[i]);
                        assert(jf[f0.len() + 1 + i] == b[i]);
                    }
                }
            }
            assert(xr == fr.subrange(0, xr.len() as int));
            assert(xs =~= fs.subrange(0, xs.len() as int)) by {
                assert forall|i: int| 0 <= i < xs.len() implies xs[i] == fs.subrange(
                    0,
                    xs.len() as int,
                )[i] by {
                    if i > 0 {
                        assert(xr[i - 1] == fr.subrange(0, xr.len() as int)[i - 1]);
                    }
                }
            }
        }
        if xs == fs.subrange(0, xs.len() as int) {
            assert(x0 == fs.subrange(0, xs.len() as int)[0]);
            assert(xr =~= fr.subrange(0, xr.len() as int)) by {
                assert forall|i: int| 0 <= i < xr.len() implies xr[i] == fr[i] by {
                    assert(xs[i + 1] == fs.subrange(0, xs.len() as int)[i + 1]);
                }
            }
            assert(a.is_prefix_of(b));
            assert(jx.is_prefix_of(jf)) by {
                assert(jx =~= jf.subrange(0, jx.len() as int)) by {
                    assert forall|i: int| 0 <= i < jx.len() implies jx[i] == jf[i] by {
                        if i > x0.len() {
                            assert(a[i - (x0.len() + 1)] == b.subrange(0, a.len() as int)[i - (
                            x0.len() + 1)]);
                        }
                    }
                }
            }
        }
    }
}

/// Appends one field's bytes and one separator to a key buffer.
pub(crate) fn append_field(buf: &mut Vec<u8>, field: &str)
    ensures
        final(buf)@ == old(buf)@ + field_bytes(field@) + seq![SEP],
{
    let bytes = field.as_bytes();
    let n = bytes.len();
    let mut i: usize = 0;
    assert(buf@ =~= old(buf)@ + bytes@.take(0));
    while i < n
        invariant
            i <= n,
            n == bytes@.len(),
            bytes@ == field_bytes(field@),
            buf@ == old(buf)@ + bytes@.take(i as int),
        decreases n - i,
    {
        buf.push(bytes[i]);
        assert(bytes@.take(i + 1) =~= bytes@.take(i as int).push(bytes@[i as int]));
        i = i + 1;
    }
    assert(bytes@.take(n as int) =~= bytes@);
    buf.push(SEP);
    assert(buf@ =~= old(buf)@ + field_bytes(field@) + seq![SEP]);
}

impl ReorderedTriple {
    /// The composite key under the ordering that produced this arrangement:
    /// each field's bytes immediately followed by one separator.
    pub fn to_key(&self) -> (r: Vec<u8>)
        ensures
            r@ == key_of(self.0@, self.1@, self.2@),
    {
        let mut buf: Vec<u8> = Vec::new();
        append_field(&mut buf, self.0.as_str());
        append_field(&mut buf, self.1.as_str());
        append_field(&mut buf, self.2.as_str());
        proof {
            lemma_joined3(field_bytes(self.0@), field_bytes(self.1@), field_bytes(self.2@));
            assert(buf@ =~= key_of(self.0@, self.1@, self.2@));
        }
        buf
    }
}

} // verus!
