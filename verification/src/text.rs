//! Verified text utilities: building strings character by character,
//! lexicographic comparison, line-protocol escaping, classifier segments,
//! and decimal rendering.

use vstd::prelude::*;
use vstd::string::StrSliceExecFns;
use vstd::string::StringExecFns;

verus! {

/// Relies on String::push: appends exactly the given character.
#[verifier::external_body]
pub fn push_char(s: &mut String, c: char)
    ensures
        final(s)@ == old(s)@.push(c),
{
    s.push(c);
}

/// Builds a string holding exactly the given characters.
pub fn string_from_chars(v: &Vec<char>) -> (r: String)
    ensures
        r@ == v@,
{
    let mut r = String::new();
    let mut i: usize = 0;
    while i < v.len()
        invariant
            i <= v.len(),
            r@ == v@.take(i as int),
        decreases v.len() - i,
    {
        push_char(&mut r, v[i]);
        proof {
            assert(r@ =~= v@.take(i + 1));
        }
        i = i + 1;
    }
    proof {
        assert(v@.take(v@.len() as int) =~= v@);
    }
    r
}

/// Strict lexicographic order on character sequences, by scalar value.
pub open spec fn spec_str_lt(a: Seq<char>, b: Seq<char>) -> bool
    decreases a.len(),
{
    if b.len() == 0 {
        false
    } else if a.len() == 0 {
        true
    } else if a[0] != b[0] {
        (a[0] as u32) < (b[0] as u32)
    } else {
        spec_str_lt(a.drop_first(), b.drop_first())
    }
}

/// Lexicographic order is transitive.
pub proof fn lemma_str_lt_trans(a: Seq<char>, b: Seq<char>, c: Seq<char>)
    requires
        spec_str_lt(a, b),
        spec_str_lt(b, c),
    ensures
        spec_str_lt(a, c),
    decreases a.len(),
{
    if c.len() > 0 && a.len() > 0 && b.len() > 0 && a[0] == b[0] && b[0] == c[0] {
        lemma_str_lt_trans(a.drop_first(), b.drop_first(), c.drop_first());
    }
}

/// Lexicographic order is total: two sequences that neither precede each
/// other are equal.
pub proof fn lemma_str_lt_connected(a: Seq<char>, b: Seq<char>)
    requires
        !spec_str_lt(a, b),
        !spec_str_lt(b, a),
    ensures
        a == b,
    decreases a.len(),
{
    if a.len() > 0 && b.len() > 0 {
        if a[0] == b[0] {
            lemma_str_lt_connected(a.drop_first(), b.drop_first());
            assert(a =~= seq![a[0]] + a.drop_first());
            assert(b =~= seq![b[0]] + b.drop_first());
        } else {
            vstd::utf8::char_u32_cast(a[0], a[0] as u32);
            vstd::utf8::char_u32_cast(b[0], b[0] as u32);
        }
    } else {
        assert(a =~= b);
    }
}

/// Executable lexicographic comparison of two string slices.
pub fn str_lt(a: &str, b: &str) -> (r: bool)
    ensures
        r == spec_str_lt(a@, b@),
{
    let alen = a.unicode_len();
    let blen = b.unicode_len();
    let mut i: usize = 0;
    proof {
        assert(a@.skip(0) =~= a@);
        assert(b@.skip(0) =~= b@);
    }
    loop
        invariant
            i <= alen,
            i <= blen,
            alen == a@.len(),
            blen == b@.len(),
            spec_str_lt(a@, b@) == spec_str_lt(a@.skip(i as int), b@.skip(i as int)),
        ensures
            spec_str_lt(a@, b@) == spec_str_lt(a@.skip(i as int), b@.skip(i as int)),
            i <= alen,
            i <= blen,
            i == blen || (i < alen && i < blen && a@[i as int] != b@[i as int]) || i == alen,
        decreases alen - i,
    {
        if i >= blen {
            break;
        }
        if i >= alen {
            break;
        }
        let ca = a.get_char(i);
        let cb = b.get_char(i);
        if ca != cb {
            break;
        }
        proof {
            assert(a@.skip(i as int).drop_first() =~= a@.skip(i + 1));
            assert(b@.skip(i as int).drop_first() =~= b@.skip(i + 1));
        }
        i = i + 1;
    }
    if i >= blen {
        proof {
            assert(b@.skip(i as int).len() == 0);
        }
        false
    } else if i >= alen {
        proof {
            assert(a@.skip(i as int).len() == 0);
            assert(b@.skip(i as int).len() > 0);
        }
        true
    } else {
        let ca = a.get_char(i);
        let cb = b.get_char(i);
        proof {
            assert(a@.skip(i as int)[0] == a@[i as int]);
            assert(b@.skip(i as int)[0] == b@[i as int]);
        }
        (ca as u32) < (cb as u32)
    }
}

/// Executable equality of two string slices.
pub fn str_eq(a: &str, b: &str) -> (r: bool)
    ensures
        r == (a@ == b@),
{
    let alen = a.unicode_len();
    let blen = b.unicode_len();
    if alen != blen {
        return false;
    }
    let mut i: usize = 0;
    while i < alen
        invariant
            i <= alen,
            alen == a@.len(),
            alen == b@.len(),
            forall|k: int| 0 <= k < i ==> a@[k] == b@[k],
        decreases alen - i,
    {
        if a.get_char(i) != b.get_char(i) {
            return false;
        }
        i = i + 1;
    }
    proof {
        assert(a@ =~= b@);
    }
    true
}

/// The escaped form of one character: a space or a comma gets a leading
/// backslash.
pub open spec fn spec_escape_char(c: char) -> Seq<char> {
    if c == ' ' || c == ',' {
        seq!['\\', c]
    } else {
        seq![c]
    }
}

/// The escaped form of a character sequence.
pub open spec fn spec_escape(s: Seq<char>) -> Seq<char>
    decreases s.len(),
{
    if s.len() == 0 {
        Seq::empty()
    } else {
        spec_escape(s.drop_last()) + spec_escape_char(s.last())
    }
}

/// Escapes literal space and comma characters with a leading backslash.
pub fn escape(tag: &str) -> (r: String)
    ensures
        r@ == spec_escape(tag@),
{
    let len = tag.unicode_len();
    let mut out: Vec<char> = Vec::new();
    let mut i: usize = 0;
    while i < len
        invariant
            i <= len,
            len == tag@.len(),
            out@ == spec_escape(tag@.take(i as int)),
        decreases len - i,
    {
        let c = tag.get_char(i);
        if c == ' ' || c == ',' {
            out.push('\\');
        }
        out.push(c);
        proof {
            assert(tag@.take(i + 1).drop_last() =~= tag@.take(i as int));
            assert(tag@.take(i + 1).last() == tag@[i as int]);
            assert(out@ =~= spec_escape(tag@.take(i as int)) + spec_escape_char(tag@[i as int]));
        }
        i = i + 1;
    }
    proof {
        assert(tag@.take(len as int) =~= tag@);
    }
    string_from_chars(&out)
}

/// The characters after the last dot, or the whole sequence where no dot
/// occurs.
pub open spec fn spec_last_dot_segment(s: Seq<char>) -> Seq<char>
    decreases s.len(),
{
    if s.len() == 0 {
        Seq::empty()
    } else if s.last() == '.' {
        Seq::empty()
    } else {
        spec_last_dot_segment(s.drop_last()) + seq![s.last()]
    }
}

/// The characters before the first dot, or the whole sequence where no dot
/// occurs.
pub open spec fn spec_first_dot_segment(s: Seq<char>) -> Seq<char>
    decreases s.len(),
{
    if s.len() == 0 {
        Seq::empty()
    } else if s[0] == '.' {
        Seq::empty()
    } else {
        seq![s[0]] + spec_first_dot_segment(s.drop_first())
    }
}

/// Returns the characters after the last dot.
pub fn last_dot_segment(s: &str) -> (r: String)
    ensures
        r@ == spec_last_dot_segment(s@),
{
    let len = s.unicode_len();
    let mut out: Vec<char> = Vec::new();
    let mut i: usize = 0;
    while i < len
        invariant
            i <= len,
            len == s@.len(),
            out@ == spec_last_dot_segment(s@.take(i as int)),
        decreases len - i,
    {
        let c = s.get_char(i);
        if c == '.' {
            out = Vec::new();
        } else {
            out.push(c);
        }
        proof {
            assert(s@.take(i + 1).drop_last() =~= s@.take(i as int));
            assert(s@.take(i + 1).last() == s@[i as int]);
            if s@[i as int] != '.' {
                assert(out@ =~= spec_last_dot_segment(s@.take(i as int)) + seq![s@[i as int]]);
            }
        }
        i = i + 1;
    }
    proof {
        assert(s@.take(len as int) =~= s@);
    }
    string_from_chars(&out)
}

/// Returns the characters before the first dot.
pub fn first_dot_segment(s: &str) -> (r: String)
    ensures
        r@ == spec_first_dot_segment(s@),
{
    let len = s.unicode_len();
    let mut i: usize = 0;
    loop
        invariant
            i <= len,
            len == s@.len(),
            forall|k: int| 0 <= k < i ==> s@[k] != '.',
        ensures
            i <= len,
            len == s@.len(),
            forall|k: int| 0 <= k < i ==> s@[k] != '.',
            i < len ==> s@[i as int] == '.',
        decreases len - i,
    {
        if i >= len {
            break;
        }
        if s.get_char(i) == '.' {
            break;
        }
        i = i + 1;
    }
    let mut out: Vec<char> = Vec::new();
    let mut k: usize = 0;
    while k < i
        invariant
            k <= i <= len,
            len == s@.len(),
            out@ == s@.take(k as int),
        decreases i - k,
    {
        out.push(s.get_char(k));
        proof {
            assert(out@ =~= s@.take(k + 1));
        }
        k = k + 1;
    }
    proof {
        lemma_first_dot_prefix(s@, i as int);
    }
    string_from_chars(&out)
}

/// Where a prefix holds no dot and either ends the sequence or stops at a
/// dot, it is the first dot segment.
proof fn lemma_first_dot_prefix(s: Seq<char>, n: int)
    requires
        0 <= n <= s.len(),
        forall|k: int| 0 <= k < n ==> s[k] != '.',
        n < s.len() ==> s[n] == '.',
    ensures
        spec_first_dot_segment(s) == s.take(n),
    decreases s.len(),
{
    if s.len() == 0 {
        assert(s.take(n) =~= Seq::<char>::empty());
    } else if s[0] == '.' {
        assert(s.take(n) =~= Seq::<char>::empty());
    } else {
        lemma_first_dot_prefix(s.drop_first(), n - 1);
        assert(seq![s[0]] + s.drop_first().take(n - 1) =~= s.take(n));
    }
}

/// One decimal digit as a character.
pub open spec fn spec_digit_char(d: int) -> char {
    if d == 0 {
        '0'
    } else if d == 1 {
        '1'
    } else if d == 2 {
        '2'
    } else if d == 3 {
        '3'
    } else if d == 4 {
        '4'
    } else if d == 5 {
        '5'
    } else if d == 6 {
        '6'
    } else if d == 7 {
        '7'
    } else if d == 8 {
        '8'
    } else {
        '9'
    }
}

/// The decimal digits of a non-negative integer, most significant first.
pub open spec fn spec_digits(n: nat) -> Seq<char>
    decreases n,
{
    if n < 10 {
        seq![spec_digit_char(n as int)]
    } else {
        spec_digits(n / 10) + seq![spec_digit_char((n % 10) as int)]
    }
}

/// The decimal text of an integer: a leading minus sign where negative.
pub open spec fn spec_int_text(i: int) -> Seq<char> {
    if i < 0 {
        seq!['-'] + spec_digits((-i) as nat)
    } else {
        spec_digits(i as nat)
    }
}

fn digit_char(d: u8) -> (c: char)
    requires
        d < 10,
    ensures
        c == spec_digit_char(d as int),
{
    if d == 0 {
        '0'
    } else if d == 1 {
        '1'
    } else if d == 2 {
        '2'
    } else if d == 3 {
        '3'
    } else if d == 4 {
        '4'
    } else if d == 5 {
        '5'
    } else if d == 6 {
        '6'
    } else if d == 7 {
        '7'
    } else if d == 8 {
        '8'
    } else {
        '9'
    }
}

/// The decimal digits of a number, most significant first.
pub fn digits_u128(n: u128) -> (v: Vec<char>)
    ensures
        v@ == spec_digits(n as nat),
    decreases n,
{
    if n < 10 {
        let mut v: Vec<char> = Vec::new();
        v.push(digit_char(n as u8));
        proof {
            assert(v@ =~= spec_digits(n as nat));
        }
        v
    } else {
        let mut v = digits_u128(n / 10);
        v.push(digit_char((n % 10) as u8));
        proof {
            assert(v@ =~= spec_digits(n as nat));
        }
        v
    }
}

/// The decimal digits of a number left-padded with zeroes to a minimum
/// width.
pub open spec fn spec_padded_digits(n: nat, width: nat) -> Seq<char> {
    let ds = spec_digits(n);
    if ds.len() >= width {
        ds
    } else {
        Seq::new((width - ds.len()) as nat, |i: int| '0') + ds
    }
}

/// Renders a number in decimal, left-padded with zeroes to a minimum width.
pub fn padded_digits_u32(n: u32, width: usize) -> (v: Vec<char>)
    requires
        width <= 16,
    ensures
        v@ == spec_padded_digits(n as nat, width as nat),
{
    let ds = digits_u128(n as u128);
    let mut v: Vec<char> = Vec::new();
    let mut pad: usize = 0;
    let need: usize = if ds.len() >= width {
        0
    } else {
        width - ds.len()
    };
    while pad < need
        invariant
            pad <= need,
            v@ =~= Seq::new(pad as nat, |i: int| '0'),
        decreases need - pad,
    {
        v.push('0');
        proof {
            assert(v@ =~= Seq::new((pad + 1) as nat, |i: int| '0'));
        }
        pad = pad + 1;
    }
    let mut i: usize = 0;
    while i < ds.len()
        invariant
            i <= ds@.len(),
            v@ =~= Seq::new(need as nat, |k: int| '0') + ds@.take(i as int),
        decreases ds@.len() - i,
    {
        v.push(ds[i]);
        proof {
            assert(v@ =~= Seq::new(need as nat, |k: int| '0') + ds@.take(i + 1));
        }
        i = i + 1;
    }
    proof {
        assert(ds@.take(ds@.len() as int) =~= ds@);
    }
    v
}

/// Splits a `key=value` tag argument at its first equals sign; an argument
/// without one is reported back as unparsable.
pub fn parse_tag(val: &str) -> (r: Result<(String, String), String>)
    ensures
        match r {
            Ok(kv) => {
                &&& exists|p: int| 0 <= p < val@.len() && val@[p] == '='
                &&& {
                    let p = choose|p: int|
                        0 <= p < val@.len() && val@[p] == '=' && forall|k: int|
                            0 <= k < p ==> val@[k] != '=';
                    kv.0@ == val@.take(p) && kv.1@ == val@.skip(p + 1)
                }
            },
            Err(_) => forall|p: int| 0 <= p < val@.len() ==> val@[p] != '=',
        },
{
    let len = val.unicode_len();
    let mut i: usize = 0;
    while i < len
        invariant
            i <= len,
            len == val@.len(),
            forall|k: int| 0 <= k < i ==> val@[k] != '=',
        decreases len - i,
    {
        if val.get_char(i) == '=' {
            let mut key: Vec<char> = Vec::new();
            let mut k: usize = 0;
            while k < i
                invariant
                    k <= i,
                    i < len,
                    len == val@.len(),
                    key@ =~= val@.take(k as int),
                decreases i - k,
            {
                key.push(val.get_char(k));
                proof {
                    assert(key@ =~= val@.take(k + 1));
                }
                k = k + 1;
            }
            let mut value: Vec<char> = Vec::new();
            let mut k: usize = i + 1;
            while k < len
                invariant
                    i + 1 <= k <= len,
                    len == val@.len(),
                    value@ =~= val@.skip(i + 1).take(k - i - 1),
                decreases len - k,
            {
                value.push(val.get_char(k));
                proof {
                    assert(value@ =~= val@.skip(i + 1).take(k + 1 - i - 1));
                }
                k = k + 1;
            }
            proof {
                assert(value@ =~= val@.skip(i + 1));
                let p = choose|p: int|
                    0 <= p < val@.len() && val@[p] == '=' && forall|k: int|
                        0 <= k < p ==> val@[k] != '=';
                assert(0 <= i < val@.len() && val@[i as int] == '=' && forall|k: int|
                    0 <= k < i ==> val@[k] != '=');
                assert(p == i);
            }
            return Ok((string_from_chars(&key), string_from_chars(&value)));
        }
        i = i + 1;
    }
    let mut msg = String::new();
    msg.append("Unable to parse tag '");
    msg.append(val);
    msg.append("', no equals sign present.");
    Err(msg)
}

} // verus!
