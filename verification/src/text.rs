//! String utilities shared across the core: equality and lexicographic
//! comparison of strings, ASCII case mapping, and decimal rendering of
//! integers, each with an exact character-level specification.

use vstd::prelude::*;

verus! {

use vstd::utf8::decode_utf8;
use vstd::utf8::encode_utf8;
use vstd::utf8::encode_utf8_decode_utf8;
use vstd::utf8::valid_utf8;
use vstd::string::StrSliceExecFns;
use vstd::string::StringExecFns;

/// Relies on `String::push`: appends exactly one character.
#[verifier::external_body]
pub fn string_push(s: &mut String, c: char)
    ensures
        final(s)@ == old(s)@.push(c),
{
    s.push(c)
}

/// Relies on `String::from_utf8`: succeeds exactly on valid UTF-8 input and
/// returns the string whose characters decode those bytes.
#[verifier::external_body]
pub fn vec_to_string(v: Vec<u8>) -> (r: Option<String>)
    ensures
        r matches Some(s) ==> valid_utf8(v@) && s@ == decode_utf8(v@),
        valid_utf8(v@) ==> r is Some,
{
    match String::from_utf8(v) {
        Ok(s) => Some(s),
        Err(_) => None,
    }
}

/// Whether two strings hold the same characters.
pub fn str_eq(a: &str, b: &str) -> (r: bool)
    ensures
        r == (a@ == b@),
{
    let ab: &[u8] = a.as_bytes();
    let bb: &[u8] = b.as_bytes();
    proof {
        encode_utf8_decode_utf8(a@);
        encode_utf8_decode_utf8(b@);
    }
    if ab.len() != bb.len() {
        return false;
    }
    let n: usize = ab.len();
    let mut i: usize = 0;
    while i < n
        invariant
            n == ab@.len() == bb@.len(),
            ab@ == encode_utf8(a@),
            bb@ == encode_utf8(b@),
            0 <= i <= n,
            forall|j: int| 0 <= j < i ==> ab@[j] == bb@[j],
            decode_utf8(encode_utf8(a@)) == a@,
            decode_utf8(encode_utf8(b@)) == b@,
        decreases n - i,
    {
        if ab[i] != bb[i] {
            return false;
        }
        i = i + 1;
    }
    proof {
        assert(ab@ =~= bb@);
    }
    true
}

/// Strict lexicographic order on character sequences, by code point.
pub open spec fn spec_str_lt(a: Seq<char>, b: Seq<char>) -> bool
    decreases a.len(),
{
    if b.len() == 0 {
        false
    } else if a.len() == 0 {
        true
    } else if a[0] != b[0] {
        (a[0] as u32) < (b[0] as u32)
    } else {
        spec_str_lt(a.drop_first(), b.drop_first())
    }
}

/// Non-strict lexicographic order on character sequences.
pub open spec fn spec_str_le(a: Seq<char>, b: Seq<char>) -> bool {
    a == b || spec_str_lt(a, b)
}

/// The lexicographic order never holds both ways at once.
pub proof fn lemma_str_lt_asymmetric(a: Seq<char>, b: Seq<char>)
    ensures
        !(spec_str_lt(a, b) && spec_str_lt(b, a)),
    decreases a.len(),
{
    if spec_str_lt(a, b) && spec_str_lt(b, a) {
        assert(a.len() > 0 && b.len() > 0);
        if a[0] == b[0] {
            lemma_str_lt_asymmetric(a.drop_first(), b.drop_first());
        }
    }
}

/// The lexicographic order is transitive.
pub proof fn lemma_str_lt_transitive(a: Seq<char>, b: Seq<char>, c: Seq<char>)
    requires
        spec_str_lt(a, b),
        spec_str_lt(b, c),
    ensures
        spec_str_lt(a, c),
    decreases a.len(),
{
    assert(b.len() > 0 && c.len() > 0);
    if a.len() > 0 {
        if a[0] == b[0] && b[0] == c[0] {
            lemma_str_lt_transitive(a.drop_first(), b.drop_first(), c.drop_first());
        }
    }
}

/// Two sequences that agree on a prefix compare however their tails compare.
proof fn lemma_str_lt_skip(a: Seq<char>, b: Seq<char>, i: int)
    requires
        0 <= i <= a.len(),
        i <= b.len(),
        forall|j: int| 0 <= j < i ==> a[j] == b[j],
    ensures
        spec_str_lt(a, b) == spec_str_lt(a.skip(i), b.skip(i)),
    decreases i,
{
    if i > 0 {
        assert(a.len() > 0 && b.len() > 0);
        assert(a[0] == b[0]);
        lemma_str_lt_skip(a.drop_first(), b.drop_first(), i - 1);
        assert(a.drop_first().skip(i - 1) =~= a.skip(i));
        assert(b.drop_first().skip(i - 1) =~= b.skip(i));
    } else {
        assert(a.skip(0) =~= a);
        assert(b.skip(0) =~= b);
    }
}

/// Whether `a` comes strictly before `b` in code-point order.
pub fn str_lt(a: &str, b: &str) -> (r: bool)
    ensures
        r == spec_str_lt(a@, b@),
{
    let alen: usize = a.unicode_len();
    let blen: usize = b.unicode_len();
    let mut i: usize = 0;
    while i < alen && i < blen
        invariant
            alen == a@.len(),
            blen == b@.len(),
            0 <= i <= alen,
            i <= blen,
            forall|j: int| 0 <= j < i ==> a@[j] == b@[j],
        decreases alen - i,
    {
        let ca: char = a.get_char(i);
        let cb: char = b.get_char(i);
        if (ca as u32) < (cb as u32) {
            proof {
                lemma_str_lt_skip(a@, b@, i as int);
            }
            return true;
        }
        if (cb as u32) < (ca as u32) {
            proof {
                lemma_str_lt_skip(a@, b@, i as int);
            }
            return false;
        }
        proof {
            vstd::utf8::char_u32_cast(ca, cb as u32);
        }
        i = i + 1;
    }
    proof {
        lemma_str_lt_skip(a@, b@, i as int);
        if a@.len() <= b@.len() {
            assert(a@.skip(i as int).len() == alen - i);
        }
    }
    alen < blen
}

/// Two distinct sequences compare one way or the other: the order is total.
pub proof fn lemma_str_lt_connected(a: Seq<char>, b: Seq<char>)
    requires
        a != b,
    ensures
        spec_str_lt(a, b) || spec_str_lt(b, a),
    decreases a.len(),
{
    if a.len() > 0 && b.len() > 0 {
        if a[0] == b[0] {
            assert(a.drop_first() != b.drop_first()) by {
                if a.drop_first() == b.drop_first() {
                    assert(a.drop_first().len() == b.drop_first().len());
                    assert(a.len() == b.len());
                    assert forall|i: int| 0 <= i < a.len() implies a[i] == b[i] by {
                        if i > 0 {
                            assert(a[i] == a.drop_first()[i - 1]);
                            assert(b[i] == b.drop_first()[i - 1]);
                        }
                    }
                    assert(a =~= b);
                }
            }
            lemma_str_lt_connected(a.drop_first(), b.drop_first());
        } else {
            assert((a[0] as u32) != (b[0] as u32)) by {
                if (a[0] as u32) == (b[0] as u32) {
                    vstd::utf8::char_u32_cast(a[0], a[0] as u32);
                    vstd::utf8::char_u32_cast(b[0], b[0] as u32);
                }
            }
        }
    } else {
        if a.len() == 0 && b.len() == 0 {
            assert(a =~= b);
        }
    }
}

/// The character sequences a list of strings holds, in order.
pub open spec fn spec_views(v: Seq<String>) -> Seq<Seq<char>> {
    v.map_values(|s: String| s@)
}

/// Whether a list of strings is sorted in code-point order.
pub open spec fn spec_sorted_strings(v: Seq<String>) -> bool {
    forall|i: int, j: int| 0 <= i < j < v.len() ==> spec_str_le(#[trigger] v[i]@, #[trigger] v[j]@)
}

/// Insert a string into a sorted list, keeping it sorted: the new view
/// list is the old one with the string's characters put in at one position.
#[verifier::rlimit(60)]
pub fn insert_string_sorted(v: &mut Vec<String>, s: &String)
    requires
        spec_sorted_strings(old(v)@),
    ensures
        spec_sorted_strings(final(v)@),
        exists|q: int|
            0 <= q <= old(v)@.len() && spec_views(final(v)@) == #[trigger] spec_views(
                old(v)@,
            ).insert(q, s@),
{
    let n: usize = v.len();
    let mut p: usize = 0;
    while p < n && !str_lt(s.as_str(), v[p].as_str())
        invariant
            n == v@.len(),
            0 <= p <= n,
            forall|i: int| 0 <= i < p ==> !spec_str_lt(s@, #[trigger] v@[i]@),
        decreases n - p,
    {
        p = p + 1;
    }
    proof {
        assert forall|i: int| 0 <= i < p implies spec_str_le(#[trigger] v@[i]@, s@) by {
            if v@[i]@ != s@ {
                lemma_str_lt_connected(v@[i]@, s@);
            }
        }
        assert forall|j: int| p <= j < n implies spec_str_le(s@, #[trigger] v@[j]@) by {
            if p < n {
                assert(spec_str_lt(s@, v@[p as int]@));
                if j > p {
                    assert(spec_str_le(v@[p as int]@, v@[j]@));
                    if v@[p as int]@ == v@[j]@ {
                    } else {
                        lemma_str_lt_transitive(s@, v@[p as int]@, v@[j]@);
                    }
                }
            }
        }
    }
    let ghost oldv = v@;
    let item: String = s.clone();
    v.insert(p, item);
    proof {
        assert(v@ == oldv.insert(p as int, item));
        oldv.insert_ensures(p as int, item);
        assert(spec_views(v@) =~= spec_views(oldv).insert(p as int, s@)) by {
            spec_views(oldv).insert_ensures(p as int, s@);
            assert forall|x: int| 0 <= x < v@.len() implies spec_views(v@)[x] == spec_views(
                oldv,
            ).insert(p as int, s@)[x] by {
                if x < p {
                    assert(v@[x] == oldv[x]);
                } else if x > p {
                    assert(v@[x] == oldv[x - 1]);
                }
            }
        }
        assert forall|i: int, j: int| 0 <= i < j < v@.len() implies spec_str_le(
            #[trigger] v@[i]@,
            #[trigger] v@[j]@,
        ) by {
            if i == p {
            } else if j == p {
            } else {
                let i0: int = if i < p { i } else { i - 1 };
                let j0: int = if j < p { j } else { j - 1 };
                assert(v@[i] == oldv[i0]);
                assert(v@[j] == oldv[j0]);
            }
        }
    }
}

/// Sort a list of strings into code-point order.  The result holds exactly
/// the same character sequences as the input, as a multiset.
pub fn sort_strings(input: &Vec<String>) -> (r: Vec<String>)
    ensures
        spec_sorted_strings(r@),
        spec_views(r@).to_multiset() == spec_views(input@).to_multiset(),
{
    broadcast use vstd::seq_lib::group_to_multiset_ensures;

    let n: usize = input.len();
    let mut out: Vec<String> = Vec::new();
    let mut i: usize = 0;
    proof {
        assert(spec_views(input@.take(0)) =~= Seq::<Seq<char>>::empty());
        assert(spec_views(out@) =~= Seq::<Seq<char>>::empty());
    }
    while i < n
        invariant
            n == input@.len(),
            0 <= i <= n,
            spec_sorted_strings(out@),
            spec_views(out@).to_multiset() == spec_views(input@.take(i as int)).to_multiset(),
        decreases n - i,
    {
        broadcast use vstd::seq_lib::group_to_multiset_ensures;

        let ghost oldout = out@;
        insert_string_sorted(&mut out, &input[i]);
        proof {
            let q: int = choose|q: int|
                0 <= q <= oldout.len() && spec_views(out@) == #[trigger] spec_views(oldout).insert(
                    q,
                    input@[i as int]@,
                );
            vstd::seq_lib::to_multiset_insert(spec_views(oldout), q, input@[i as int]@);
            assert(spec_views(input@.take(i + 1)) =~= spec_views(input@.take(i as int)).push(
                input@[i as int]@,
            ));
            vstd::seq_lib::to_multiset_build(
                spec_views(input@.take(i as int)),
                input@[i as int]@,
            );
        }
        i = i + 1;
    }
    proof {
        assert(input@.take(n as int) =~= input@);
    }
    out
}

/// Two string lists with the same multiset of views hold the same views:
/// every view in one appears somewhere in the other.
pub proof fn lemma_same_views(a: Seq<String>, b: Seq<String>)
    requires
        spec_views(a).to_multiset() == spec_views(b).to_multiset(),
    ensures
        forall|x: int| 0 <= x < a.len() ==> spec_views(b).contains(#[trigger] a[x]@),
        forall|y: int| 0 <= y < b.len() ==> spec_views(a).contains(#[trigger] b[y]@),
{
    broadcast use vstd::seq_lib::group_to_multiset_ensures;

    assert forall|x: int| 0 <= x < a.len() implies spec_views(b).contains(#[trigger] a[x]@) by {
        assert(spec_views(a)[x] == a[x]@);
        assert(spec_views(a).contains(a[x]@));
        assert(spec_views(a).to_multiset().contains(a[x]@));
        assert(spec_views(b).to_multiset().contains(a[x]@));
    }
    assert forall|y: int| 0 <= y < b.len() implies spec_views(a).contains(#[trigger] b[y]@) by {
        assert(spec_views(b)[y] == b[y]@);
        assert(spec_views(b).contains(b[y]@));
        assert(spec_views(b).to_multiset().contains(b[y]@));
        assert(spec_views(a).to_multiset().contains(b[y]@));
    }
}

/// Two string lists with the same multiset of views: when one side holds
/// no view twice, neither does the other.
pub proof fn lemma_distinct_views(a: Seq<String>, b: Seq<String>)
    requires
        spec_views(a).to_multiset() == spec_views(b).to_multiset(),
        forall|x: int, y: int| 0 <= x < y < b.len() ==> (#[trigger] b[x]@) != (#[trigger] b[y]@),
    ensures
        forall|x: int, y: int| 0 <= x < y < a.len() ==> (#[trigger] a[x]@) != (#[trigger] a[y]@),
{
    broadcast use vstd::seq_lib::group_to_multiset_ensures;

    assert forall|x: int, y: int| 0 <= x < y < a.len() implies (#[trigger] a[x]@) != (
    #[trigger] a[y]@) by {
        if a[x]@ == a[y]@ {
            let v = a[x]@;
            let va = spec_views(a);
            assert(va[x] == v && va[y] == v);
            vstd::seq_lib::to_multiset_remove(va, x);
            assert(va.remove(x)[y - 1] == v);
            assert(va.remove(x).contains(v));
            assert(va.remove(x).to_multiset().count(v) > 0);
            assert(va.to_multiset().count(v) >= 2);
            let vb = spec_views(b);
            assert(vb.to_multiset().count(v) >= 2);
            assert(vb.contains(v));
            let i1: int = choose|i1: int| 0 <= i1 < vb.len() && vb[i1] == v;
            vstd::seq_lib::to_multiset_remove(vb, i1);
            assert(vb.remove(i1).to_multiset().count(v) > 0);
            assert(vb.remove(i1).contains(v));
            let i2: int = choose|i2: int| 0 <= i2 < vb.remove(i1).len() && vb.remove(i1)[i2] == v;
            let j2: int = if i2 < i1 {
                i2
            } else {
                i2 + 1
            };
            assert(vb[j2] == v);
            assert(b[i1]@ == v && b[j2]@ == v && i1 != j2);
        }
    }
}

/// The same characters with ASCII capital letters mapped to lower case.
pub open spec fn spec_lower_char(c: char) -> char {
    if 'A' <= c && c <= 'Z' {
        (((c as u32) + 32) as u8) as char
    } else {
        c
    }
}

/// ASCII lower-casing of a character sequence, other characters unchanged.
pub open spec fn spec_ascii_lower(s: Seq<char>) -> Seq<char> {
    s.map_values(|c: char| spec_lower_char(c))
}

/// Lower-case the ASCII letters of a string, leaving the rest unchanged.
pub fn ascii_lower(s: &str) -> (r: String)
    ensures
        r@ == spec_ascii_lower(s@),
{
    let n: usize = s.unicode_len();
    let mut out: String = String::new();
    let mut i: usize = 0;
    while i < n
        invariant
            n == s@.len(),
            0 <= i <= n,
            out@ =~= spec_ascii_lower(s@).take(i as int),
        decreases n - i,
    {
        let c: char = s.get_char(i);
        let lowered: char = if (c as u32) >= 65 && (c as u32) <= 90 {
            (((c as u32) as u8) + 32) as char
        } else {
            c
        };
        proof {
            assert(lowered == spec_lower_char(c));
            assert(spec_ascii_lower(s@).take(i + 1) =~= spec_ascii_lower(s@).take(i as int).push(
                spec_lower_char(c),
            ));
        }
        string_push(&mut out, lowered);
        i = i + 1;
    }
    proof {
        assert(spec_ascii_lower(s@).take(n as int) =~= spec_ascii_lower(s@));
    }
    out
}

/// The same characters with ASCII small letters mapped to upper case.
pub open spec fn spec_upper_char(c: char) -> char {
    if 'a' <= c && c <= 'z' {
        (((c as u32) - 32) as u8) as char
    } else {
        c
    }
}

/// ASCII upper-casing of a character sequence, other characters unchanged.
pub open spec fn spec_ascii_upper(s: Seq<char>) -> Seq<char> {
    s.map_values(|c: char| spec_upper_char(c))
}

/// Upper-case the ASCII letters of a string, leaving the rest unchanged.
pub fn ascii_upper(s: &str) -> (r: String)
    ensures
        r@ == spec_ascii_upper(s@),
{
    let n: usize = s.unicode_len();
    let mut out: String = String::new();
    let mut i: usize = 0;
    while i < n
        invariant
            n == s@.len(),
            0 <= i <= n,
            out@ =~= spec_ascii_upper(s@).take(i as int),
        decreases n - i,
    {
        let c: char = s.get_char(i);
        let raised: char = if (c as u32) >= 97 && (c as u32) <= 122 {
            (((c as u32) as u8) - 32) as char
        } else {
            c
        };
        proof {
            assert(raised == spec_upper_char(c));
            assert(spec_ascii_upper(s@).take(i + 1) =~= spec_ascii_upper(s@).take(i as int).push(
                spec_upper_char(c),
            ));
        }
        string_push(&mut out, raised);
        i = i + 1;
    }
    proof {
        assert(spec_ascii_upper(s@).take(n as int) =~= spec_ascii_upper(s@));
    }
    out
}

/// The ASCII digit character for one decimal digit.
pub open spec fn spec_digit_char(d: int) -> char {
    ((48 + d) as u8) as char
}

/// The decimal digits of a natural number, most significant first, with no
/// leading zeros (a single `'0'` for zero itself).
pub open spec fn spec_dec_digits(n: nat) -> Seq<char>
    decreases n,
{
    if n < 10 {
        seq![spec_digit_char(n as int)]
    } else {
        spec_dec_digits(n / 10).push(spec_digit_char((n % 10) as int))
    }
}

/// Render a number in decimal.
pub fn u64_to_string(n: u64) -> (r: String)
    ensures
        r@ == spec_dec_digits(n as nat),
{
    let mut rev: Vec<char> = Vec::new();
    let mut m: u64 = n;
    proof {
        assert(spec_dec_digits(n as nat) =~= spec_dec_digits(n as nat) + rev@.reverse());
    }
    while m >= 10
        invariant
            spec_dec_digits(n as nat) =~= spec_dec_digits(m as nat) + rev@.reverse(),
        decreases m,
    {
        let d: u64 = m % 10;
        proof {
            assert(rev@.push(spec_digit_char(d as int)).reverse() =~= seq![
                spec_digit_char(d as int),
            ] + rev@.reverse());
            assert(spec_dec_digits(m as nat) =~= spec_dec_digits((m as nat) / 10) + seq![
                spec_digit_char(d as int),
            ]);
            assert(spec_dec_digits((m as nat) / 10) + (seq![spec_digit_char(d as int)]
                + rev@.reverse()) =~= spec_dec_digits(m as nat) + rev@.reverse());
        }
        rev.push((48 + d as u8) as char);
        m = m / 10;
    }
    proof {
        assert(rev@.push(spec_digit_char(m as int)).reverse() =~= seq![spec_digit_char(m as int)]
            + rev@.reverse());
        assert(spec_dec_digits(m as nat) =~= seq![spec_digit_char(m as int)]);
    }
    rev.push((48 + m as u8) as char);
    let mut out: String = String::new();
    let k: usize = rev.len();
    let mut i: usize = 0;
    while i < k
        invariant
            k == rev@.len(),
            0 <= i <= k,
            out@ =~= rev@.reverse().take(i as int),
        decreases k - i,
    {
        let c: char = rev[k - 1 - i];
        proof {
            assert(rev@.reverse()[i as int] == rev@[k - 1 - i as int]);
            assert(rev@.reverse().take(i + 1) =~= rev@.reverse().take(i as int).push(
                rev@.reverse()[i as int],
            ));
        }
        string_push(&mut out, c);
        i = i + 1;
    }
    proof {
        assert(rev@.reverse().take(k as int) =~= rev@.reverse());
        assert(out@ =~= spec_dec_digits(n as nat));
    }
    out
}

/// The decimal digits of `n`, left-padded with zeros to at least `width`
/// characters.
pub open spec fn spec_dec_padded(n: nat, width: int) -> Seq<char> {
    let digits = spec_dec_digits(n);
    if digits.len() >= width {
        digits
    } else {
        Seq::new((width - digits.len()) as nat, |j: int| '0') + digits
    }
}

/// Render a number in decimal, left-padded with zeros to `width` characters.
pub fn u64_to_padded_string(n: u64, width: usize) -> (r: String)
    requires
        width <= 8,
    ensures
        r@ == spec_dec_padded(n as nat, width as int),
{
    let digits: String = u64_to_string(n);
    let dlen: usize = digits.as_str().unicode_len();
    let mut out: String = String::new();
    if dlen < width {
        let pad: usize = width - dlen;
        let mut i: usize = 0;
        while i < pad
            invariant
                0 <= i <= pad,
                out@ =~= Seq::new(i as nat, |j: int| '0'),
            decreases pad - i,
        {
            proof {
                assert(Seq::new((i + 1) as nat, |j: int| '0') =~= Seq::new(i as nat, |j: int| '0').push('0'));
            }
            string_push(&mut out, '0');
            i = i + 1;
        }
    }
    out.append(digits.as_str());
    proof {
        if dlen >= width {
            assert(out@ =~= digits@);
        }
    }
    out
}


/// The characters of a string, as a vector.
pub fn str_to_chars(s: &str) -> (r: Vec<char>)
    ensures
        r@ == s@,
{
    let n: usize = s.unicode_len();
    let mut out: Vec<char> = Vec::new();
    let mut i: usize = 0;
    while i < n
        invariant
            n == s@.len(),
            0 <= i <= n,
            out@ =~= s@.take(i as int),
        decreases n - i,
    {
        let c: char = s.get_char(i);
        proof {
            assert(s@.take(i + 1) =~= s@.take(i as int).push(s@[i as int]));
        }
        out.push(c);
        i = i + 1;
    }
    proof {
        assert(s@.take(n as int) =~= s@);
    }
    out
}

/// A string holding exactly the given characters.
pub fn chars_to_string(v: &Vec<char>) -> (r: String)
    ensures
        r@ == v@,
{
    let n: usize = v.len();
    let mut out: String = String::new();
    let mut i: usize = 0;
    while i < n
        invariant
            n == v@.len(),
            0 <= i <= n,
            out@ =~= v@.take(i as int),
        decreases n - i,
    {
        proof {
            assert(v@.take(i + 1) =~= v@.take(i as int).push(v@[i as int]));
        }
        string_push(&mut out, v[i]);
        i = i + 1;
    }
    proof {
        assert(v@.take(n as int) =~= v@);
    }
    out
}

/// Every occurrence of a pattern replaced by a value, scanning left to
/// right without overlap, as `str::replace` does.
pub open spec fn spec_replace_all(t: Seq<char>, pat: Seq<char>, val: Seq<char>) -> Seq<char>
    decreases t.len(),
{
    if pat.len() == 0 || t.len() < pat.len() {
        t
    } else if t.take(pat.len() as int) == pat {
        val + spec_replace_all(t.skip(pat.len() as int), pat, val)
    } else {
        seq![t[0]] + spec_replace_all(t.drop_first(), pat, val)
    }
}

/// Replace every occurrence of a pattern in a character list.
#[verifier::rlimit(60)]
pub fn replace_chars(t: &Vec<char>, pat: &Vec<char>, val: &Vec<char>) -> (r: Vec<char>)
    requires
        pat@.len() > 0,
    ensures
        r@ == spec_replace_all(t@, pat@, val@),
{
    let n: usize = t.len();
    let plen: usize = pat.len();
    let mut out: Vec<char> = Vec::new();
    let mut i: usize = 0;
    proof {
        assert(t@.skip(0) =~= t@);
    }
    while i < n
        invariant
            n == t@.len(),
            plen == pat@.len(),
            plen > 0,
            0 <= i <= n,
            spec_replace_all(t@, pat@, val@) =~= out@ + spec_replace_all(
                t@.skip(i as int),
                pat@,
                val@,
            ),
        decreases n - i,
    {
        let mut matches_here: bool = plen <= n && i <= n - plen;
        if matches_here {
            let mut k: usize = 0;
            while k < plen && matches_here
                invariant
                    n == t@.len(),
                    plen == pat@.len(),
                    0 <= k <= plen,
                    i + plen <= n,
                    matches_here ==> forall|q: int| 0 <= q < k ==> t@[i + q] == pat@[q],
                    !matches_here ==> exists|q: int| 0 <= q < plen && t@[i + q] != pat@[q],
                decreases plen - k,
            {
                if t[i + k] != pat[k] {
                    proof {
                        assert(t@[i + k] != pat@[k as int]);
                    }
                    matches_here = false;
                    k = plen;
                } else {
                    k = k + 1;
                }
            }
            proof {
                if matches_here {
                    assert(t@.skip(i as int).take(plen as int) =~= pat@);
                }
            }
        }
        if matches_here {
            let mut k: usize = 0;
            let ghost outpre = out@;
            while k < val.len()
                invariant
                    0 <= k <= val@.len(),
                    out@ =~= outpre + val@.take(k as int),
                decreases val@.len() - k,
            {
                proof {
                    assert(val@.take(k + 1) =~= val@.take(k as int).push(val@[k as int]));
                }
                out.push(val[k]);
                k = k + 1;
            }
            proof {
                assert(val@.take(val@.len() as int) =~= val@);
                assert(t@.skip(i as int).skip(plen as int) =~= t@.skip(i + plen));
                assert(spec_replace_all(t@.skip(i as int), pat@, val@) == val@
                    + spec_replace_all(t@.skip(i + plen), pat@, val@));
                assert(out@ =~= outpre + val@);
            }
            i = i + plen;
        } else {
            proof {
                let rest = t@.skip(i as int);
                if rest.len() >= plen {
                    assert(rest.take(plen as int) != pat@) by {
                        if rest.take(plen as int) == pat@ {
                            let k0: int = choose|k0: int|
                                0 <= k0 < plen && t@[i + k0] != pat@[k0];
                            assert(rest.take(plen as int)[k0] == t@[i + k0]);
                        }
                    }
                }
                assert(rest.drop_first() =~= t@.skip(i + 1));
                assert(spec_replace_all(rest, pat@, val@) == seq![rest[0]] + spec_replace_all(
                    t@.skip(i + 1),
                    pat@,
                    val@,
                ));
                assert(out@.push(t@[i as int]) =~= out@ + seq![rest[0]]);
            }
            out.push(t[i]);
            i = i + 1;
        }
    }
    proof {
        assert(t@.skip(n as int) =~= Seq::<char>::empty());
        assert(spec_replace_all(Seq::<char>::empty(), pat@, val@) == Seq::<char>::empty());
        assert(out@ + Seq::<char>::empty() =~= out@);
    }
    out
}

} // verus!
