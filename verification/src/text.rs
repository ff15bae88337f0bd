//! Byte and character helpers shared by the tag writers and the tokenizer.

use vstd::prelude::*;
use vstd::utf8::encode_utf8;
use vstd::utf8::encode_utf8_decode_utf8;

verus! {

/// UTF-8 encoding is a homomorphism from `+` on characters to `+` on bytes.
pub proof fn lemma_encode_utf8_concat(a: Seq<char>, b: Seq<char>)
    ensures
        encode_utf8(a + b) == encode_utf8(a) + encode_utf8(b),
    decreases a.len(),
{
    if a.len() == 0 {
        assert(a + b =~= b);
    } else {
        assert((a + b).drop_first() =~= a.drop_first() + b);
        lemma_encode_utf8_concat(a.drop_first(), b);
        assert(encode_utf8(a + b) =~= encode_utf8(a) + encode_utf8(b));
    }
}

/// Two character sequences with the same UTF-8 encoding are equal.
pub proof fn lemma_encode_utf8_injective(a: Seq<char>, b: Seq<char>)
    requires
        encode_utf8(a) == encode_utf8(b),
    ensures
        a == b,
{
    encode_utf8_decode_utf8(a);
    encode_utf8_decode_utf8(b);
}

/// Appends every byte of `bytes` to `out`.
pub fn push_bytes(out: &mut Vec<u8>, bytes: &[u8])
    ensures
        final(out)@ == old(out)@ + bytes@,
{
    let n = bytes.len();
    let mut i: usize = 0;
    while i < n
        invariant
            n == bytes@.len(),
            i <= n,
            out@ == old(out)@ + bytes@.subrange(0, i as int),
        decreases n - i,
    {
        out.push(bytes[i]);
        i = i + 1;
        assert(out@ =~= old(out)@ + bytes@.subrange(0, i as int));
    }
    assert(bytes@.subrange(0, n as int) =~= bytes@);
}

/// Appends the UTF-8 bytes of `s` to `out`.
pub fn push_str_bytes(out: &mut Vec<u8>, s: &str)
    ensures
        final(out)@ == old(out)@ + encode_utf8(s@),
{
    let b = s.as_bytes();
    push_bytes(out, b);
}

/// Byte-wise equality of two slices.
pub fn bytes_eq(a: &[u8], b: &[u8]) -> (r: bool)
    ensures
        r == (a@ == b@),
{
    if a.len() != b.len() {
        return false;
    }
    let n = a.len();
    let mut i: usize = 0;
    while i < n
        invariant
            n == a@.len(),
            n == b@.len(),
            i <= n,
            a@.subrange(0, i as int) == b@.subrange(0, i as int),
        decreases n - i,
    {
        if a[i] != b[i] {
            return false;
        }
        assert(a@.subrange(0, i + 1) =~= a@.subrange(0, i as int).push(a@[i as int]));
        assert(b@.subrange(0, i + 1) =~= b@.subrange(0, i as int).push(b@[i as int]));
        i = i + 1;
    }
    assert(a@.subrange(0, n as int) =~= a@);
    assert(b@.subrange(0, n as int) =~= b@);
    true
}

/// Equality of two string slices, decided on their UTF-8 bytes.
pub fn str_eq(a: &str, b: &str) -> (r: bool)
    ensures
        r == (a@ == b@),
{
    let r = bytes_eq(a.as_bytes(), b.as_bytes());
    proof {
        if r {
            lemma_encode_utf8_injective(a@, b@);
        }
    }
    r
}

/// `char::to_string`: the one-character string holding `c`.
#[verifier::external_body]
pub fn char_to_string(c: char) -> (s: String)
    ensures
        s@ == seq![c],
{
    c.to_string()
}

/// `String::push`: appends one character.
#[verifier::external_body]
pub fn string_push(s: &mut String, c: char)
    ensures
        final(s)@ == old(s)@.push(c),
{
    s.push(c)
}

/// The string `a` followed by the string `b`.
pub fn concat_str(a: &str, b: &str) -> (r: String)
    ensures
        r@ == a@ + b@,
{
    let mut r = a.to_owned();
    let cs = str_chars(b);
    let mut i: usize = 0;
    while i < cs.len()
        invariant
            cs@ == b@,
            i <= cs@.len(),
            r@ == a@ + b@.subrange(0, i as int),
        decreases cs@.len() - i,
    {
        string_push(&mut r, cs[i]);
        i = i + 1;
        assert(r@ =~= a@ + b@.subrange(0, i as int));
    }
    assert(b@.subrange(0, b@.len() as int) =~= b@);
    r
}


/// Whether `c` has the Unicode `White_Space` property (what `char::is_whitespace` tests).
pub open spec fn is_white_space(c: char) -> bool {
    let u = c as u32;
    (0x9 <= u <= 0xd) || u == 0x20 || u == 0x85 || u == 0xa0 || u == 0x1680 || (0x2000 <= u
        <= 0x200a) || u == 0x2028 || u == 0x2029 || u == 0x202f || u == 0x205f || u == 0x3000
}

/// `cs` without its leading white space.
pub open spec fn trim_start(cs: Seq<char>) -> Seq<char>
    decreases cs.len(),
{
    if cs.len() > 0 && is_white_space(cs[0]) {
        trim_start(cs.drop_first())
    } else {
        cs
    }
}

/// `cs` without its trailing white space.
pub open spec fn trim_end(cs: Seq<char>) -> Seq<char>
    decreases cs.len(),
{
    if cs.len() > 0 && is_white_space(cs.last()) {
        trim_end(cs.drop_last())
    } else {
        cs
    }
}

/// `cs` without leading and trailing white space (what `str::trim` gives).
pub open spec fn trimmed(cs: Seq<char>) -> Seq<char> {
    trim_end(trim_start(cs))
}

/// Whether `p` occurs in `s` as a run of adjacent characters.
pub open spec fn has_infix(s: Seq<char>, p: Seq<char>) -> bool {
    exists|i: int| 0 <= i && i + p.len() <= s.len() && #[trigger] s.subrange(i, i + p.len()) == p
}

/// Whether `c` is white space.
pub fn is_white_space_char(c: char) -> (r: bool)
    ensures
        r == is_white_space(c),
{
    let u = c as u32;
    (0x9 <= u && u <= 0xd) || u == 0x20 || u == 0x85 || u == 0xa0 || u == 0x1680 || (0x2000 <= u
        && u <= 0x200a) || u == 0x2028 || u == 0x2029 || u == 0x202f || u == 0x205f || u == 0x3000
}

/// The characters of `s` without leading and trailing white space.
pub fn trim_chars(s: &str) -> (r: Vec<char>)
    ensures
        r@ == trimmed(s@),
{
    let cs = str_chars(s);
    let n = cs.len();
    let mut lo: usize = 0;
    assert(cs@.subrange(0, n as int) =~= cs@);
    while lo < n && is_white_space_char(cs[lo])
        invariant
            n == cs@.len(),
            lo <= n,
            trim_start(cs@) == trim_start(cs@.subrange(lo as int, n as int)),
        decreases n - lo,
    {
        assert(cs@.subrange(lo as int, n as int).drop_first() =~= cs@.subrange(lo + 1, n as int));
        lo = lo + 1;
    }
    assert(cs@.subrange(0, n as int) =~= cs@);
    assert(trim_start(cs@) == cs@.subrange(lo as int, n as int));
    let mut hi: usize = n;
    while hi > lo && is_white_space_char(cs[hi - 1])
        invariant
            n == cs@.len(),
            lo <= hi <= n,
            trim_end(cs@.subrange(lo as int, n as int)) == trim_end(cs@.subrange(lo as int, hi as int)),
        decreases hi,
    {
        assert(cs@.subrange(lo as int, hi as int).drop_last() =~= cs@.subrange(lo as int, hi - 1));
        hi = hi - 1;
    }
    let mut r: Vec<char> = Vec::new();
    let mut k: usize = lo;
    while k < hi
        invariant
            lo <= k <= hi,
            hi <= n,
            n == cs@.len(),
            r@ == cs@.subrange(lo as int, k as int),
        decreases hi - k,
    {
        r.push(cs[k]);
        k = k + 1;
        assert(r@ =~= cs@.subrange(lo as int, k as int));
    }
    r
}

/// Whether `p` occurs in `s`.
pub fn chars_contain(s: &Vec<char>, p: &str) -> (r: bool)
    ensures
        r == has_infix(s@, p@),
{
    let pc = str_chars(p);
    let m = pc.len();
    if m > s.len() {
        return false;
    }
    let mut i: usize = 0;
    while i <= s.len() - m
        invariant
            pc@ == p@,
            m == pc@.len(),
            m <= s@.len(),
            i <= s@.len() - m + 1,
            forall|j: int| 0 <= j < i ==> #[trigger] s@.subrange(j, j + m) != p@,
        decreases s@.len() - i,
    {
        let mut k: usize = 0;
        let mut same = true;
        assert(s@.subrange(i as int, i as int) =~= pc@.subrange(0, 0));
        while k < m && same
            invariant
                k <= m,
                i + m <= s.len(),
                m == pc@.len(),
                same == (s@.subrange(i as int, i + k) == pc@.subrange(0, k as int)),
            decreases m - k,
        {
            if s[i + k] != pc[k] {
                same = false;
                assert(s@.subrange(i as int, i + k + 1)[k as int] != pc@.subrange(0, k + 1)[k as int]);
            } else {
                assert(s@.subrange(i as int, i + k + 1) =~= s@.subrange(i as int, i + k).push(s@[i + k]));
                assert(pc@.subrange(0, k + 1) =~= pc@.subrange(0, k as int).push(pc@[k as int]));
            }
            k = k + 1;
        }
        if same {
            assert(pc@.subrange(0, m as int) =~= pc@);
            assert(s@.subrange(i as int, i + m) == p@);
            return true;
        } else {
            assert(s@.subrange(i as int, i + m) != p@) by {
                if s@.subrange(i as int, i + m) == p@ {
                    assert(s@.subrange(i as int, i + k) =~= s@.subrange(i as int, i + m).subrange(0, k as int));
                }
            }
        }
        i = i + 1;
    }
    false
}

/// Inserting into a sequence inserts into its set of elements.
pub proof fn lemma_to_set_insert_at<A>(s: Seq<A>, i: int, x: A)
    requires
        0 <= i <= s.len(),
    ensures
        s.insert(i, x).to_set() == s.to_set().insert(x),
{
    let t = s.insert(i, x);
    assert forall|a: A| t.to_set().contains(a) <==> s.to_set().insert(x).contains(a) by {
        if t.to_set().contains(a) {
            let k = choose|k: int| 0 <= k < t.len() && t[k] == a;
            if k < i {
                assert(s[k] == a);
            } else if k > i {
                assert(s[k - 1] == a);
            }
        }
        if s.to_set().insert(x).contains(a) {
            if a == x {
                assert(t[i] == x);
            } else {
                let k = choose|k: int| 0 <= k < s.len() && s[k] == a;
                if k < i {
                    assert(t[k] == a);
                } else {
                    assert(t[k + 1] == a);
                }
            }
        }
    }
    assert(t.to_set() =~= s.to_set().insert(x));
}

/// Appending to a sequence inserts into its set of elements.
pub proof fn lemma_to_set_push<A>(s: Seq<A>, x: A)
    ensures
        s.push(x).to_set() == s.to_set().insert(x),
{
    s.lemma_push_to_set_commute(x);
}

/// Distinct characters have distinct code points.
pub proof fn lemma_char_u32_injective(a: char, b: char)
    requires
        (a as u32) == (b as u32),
    ensures
        a == b,
{
    vstd::utf8::char_u32_cast(a, a as u32);
    vstd::utf8::char_u32_cast(b, b as u32);
}

/// The characters of a string slice, in order.
pub fn str_chars(s: &str) -> (v: Vec<char>)
    ensures
        v@ == s@,
{
    broadcast use vstd::string::group_string_axioms;
    let mut v: Vec<char> = Vec::new();
    for c in it: s.chars()
        invariant
            v@ == it.seq().subrange(0, it.index() as int),
            it.seq() == s@,
    {
        v.push(c);
    }
    v
}

} // verus!
