//! Strings as the library sees them: borrowed `str` slices, compared and cut
//! by their UTF-8 bytes, and spoken of in contracts by their characters.
use vstd::prelude::*;
use vstd::string::*;
use vstd::utf8::*;

verus! {

/// The characters spelled by the bytes `s[from..to]`.
pub open spec fn text_of(s: Seq<u8>, from: int, to: int) -> Seq<char> {
    decode_utf8(s.subrange(from, to))
}

/// `t` is a suffix of `s`.
pub open spec fn has_suffix<T>(s: Seq<T>, t: Seq<T>) -> bool {
    t.len() <= s.len() && s.subrange(s.len() - t.len(), s.len() as int) == t
}

/// Two strings hold the same characters exactly when their UTF-8 bytes agree.
pub proof fn lemma_same_bytes_same_chars(a: Seq<char>, b: Seq<char>)
    ensures
        (encode_utf8(a) == encode_utf8(b)) <==> a == b,
{
    encode_utf8_decode_utf8(a);
    encode_utf8_decode_utf8(b);
}

/// In well-formed UTF-8 a position is a character boundary exactly when it is
/// the end of the text or holds no continuation byte.
pub proof fn lemma_boundary_by_byte(s: Seq<u8>, i: int)
    requires
        valid_utf8(s),
        0 <= i <= s.len(),
    ensures
        is_char_boundary(s, i) <==> (i == s.len() || !is_continuation_byte(s[i])),
{
    if i == s.len() {
        is_char_boundary_start_end_of_seq(s);
    } else {
        is_char_boundary_iff_not_is_continuation_byte(s, i);
    }
}

/// The position after an ASCII byte that starts a character is a character
/// boundary again.
pub proof fn lemma_boundary_after_ascii(s: Seq<u8>, i: int)
    requires
        valid_utf8(s),
        0 <= i < s.len(),
        s[i] < 0x80,
    ensures
        is_char_boundary(s, i),
        is_char_boundary(s, i + 1),
{
    lemma_boundary_by_byte(s, i);
    valid_utf8_split(s, i);
    let t = s.subrange(i, s.len() as int);
    assert(t[0] == s[i]);
    assert(length_of_first_scalar(t) == 1);
    let rest = pop_first_scalar(t);
    assert(valid_utf8(rest));
    lemma_boundary_by_byte(s, i + 1);
    if i + 1 < s.len() {
        assert(rest[0] == s[i + 1]);
        assert(valid_first_scalar(rest));
    }
}

/// Encoding distributes over concatenation.
pub proof fn lemma_encode_concat(a: Seq<char>, b: Seq<char>)
    ensures
        encode_utf8(a + b) == encode_utf8(a) + encode_utf8(b),
{
    let x = encode_utf8(a);
    let y = encode_utf8(b);
    encode_utf8_valid_utf8(a);
    encode_utf8_valid_utf8(b);
    valid_utf8_concat(x, y);
    let z = x + y;
    lemma_boundary_by_byte(z, x.len() as int);
    if y.len() > 0 {
        assert(z[x.len() as int] == y[0]);
        assert(valid_first_scalar(y));
    }
    decode_utf8_split(z, x.len() as int);
    assert(z.subrange(0, x.len() as int) =~= x);
    assert(z.subrange(x.len() as int, z.len() as int) =~= y);
    encode_utf8_decode_utf8(a);
    encode_utf8_decode_utf8(b);
    assert(decode_utf8(z) == a + b);
    decode_utf8_encode_utf8(z);
}

/// A string ends with the characters of `t` exactly when its bytes end with
/// the bytes of `t`.
pub proof fn lemma_suffix_by_bytes(s: Seq<char>, t: Seq<char>)
    ensures
        has_suffix(encode_utf8(s), encode_utf8(t)) <==> has_suffix(s, t),
{
    let x = encode_utf8(s);
    let y = encode_utf8(t);
    encode_utf8_valid_utf8(s);
    encode_utf8_valid_utf8(t);
    encode_utf8_decode_utf8(s);
    encode_utf8_decode_utf8(t);
    if has_suffix(s, t) {
        let pre = s.subrange(0, s.len() - t.len());
        assert(s =~= pre + t);
        lemma_encode_concat(pre, t);
        let p = encode_utf8(pre);
        assert(x.subrange(x.len() - y.len(), x.len() as int) =~= y);
    }
    if has_suffix(x, y) {
        let k = x.len() - y.len();
        lemma_boundary_by_byte(x, k);
        if y.len() > 0 {
            assert(x[k] == x.subrange(k, x.len() as int)[0]);
            assert(valid_first_scalar(y));
        }
        decode_utf8_split(x, k);
        let pre = decode_utf8(x.subrange(0, k));
        assert(s == pre + t);
        assert(s.subrange(s.len() - t.len(), s.len() as int) =~= t);
    }
}

/// Whether two strings hold the same characters.
#[verifier::loop_isolation(false)]
pub fn str_eq(a: &str, b: &str) -> (r: bool)
    ensures
        r == (a@ == b@),
{
    let x = a.as_bytes();
    let y = b.as_bytes();
    proof {
        lemma_same_bytes_same_chars(a@, b@);
    }
    if x.len() != y.len() {
        return false;
    }
    let mut i: usize = 0;
    while i < x.len()
        invariant
            x.len() == y.len(),
            i <= x.len(),
            forall|j: int| 0 <= j < i ==> x@[j] == y@[j],
        decreases x.len() - i,
    {
        if x[i] != y[i] {
            assert(x@ != y@);
            return false;
        }
        i += 1;
    }
    assert(x@ =~= y@);
    true
}

/// Whether `s` ends with the characters of `t`.
#[verifier::loop_isolation(false)]
pub fn str_ends_with(s: &str, t: &str) -> (r: bool)
    ensures
        r == has_suffix(s@, t@),
{
    let x = s.as_bytes();
    let y = t.as_bytes();
    proof {
        lemma_suffix_by_bytes(s@, t@);
    }
    if y.len() > x.len() {
        return false;
    }
    let k: usize = x.len() - y.len();
    let mut i: usize = 0;
    while i < y.len()
        invariant
            k + y.len() == x.len(),
            i <= y.len(),
            forall|j: int| 0 <= j < i ==> x@[k + j] == y@[j],
        decreases y.len() - i,
    {
        if x[k + i] != y[i] {
            assert(x@.subrange(k as int, x@.len() as int)[i as int] != y@[i as int]);
            return false;
        }
        i += 1;
    }
    assert(x@.subrange(k as int, x@.len() as int) =~= y@);
    true
}

/// The part of `s` between two byte offsets that are character boundaries.
pub fn substring<'a>(s: &'a str, from: usize, to: usize) -> (r: &'a str)
    requires
        from <= to <= s.spec_bytes().len(),
        is_char_boundary(s.spec_bytes(), from as int),
        is_char_boundary(s.spec_bytes(), to as int),
    ensures
        r.spec_bytes() == s.spec_bytes().subrange(from as int, to as int),
        r@ == text_of(s.spec_bytes(), from as int, to as int),
{
    let (head, _) = s.split_at(to);
    proof {
        encode_utf8_valid_utf8(s@);
        encode_utf8_valid_utf8(head@);
        lemma_boundary_by_byte(s.spec_bytes(), from as int);
        lemma_boundary_by_byte(head.spec_bytes(), from as int);
    }
    let (_, mid) = head.split_at(from);
    proof {
        assert(mid.spec_bytes() =~= s.spec_bytes().subrange(from as int, to as int));
        encode_utf8_decode_utf8(mid@);
    }
    mid
}

} // verus!
