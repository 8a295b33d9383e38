//! Character classes, decimal rendering of numbers, and lexicographic
//! comparison: the string-level vocabulary the rest of the library is
//! specified with.

use vstd::prelude::*;
use vstd::string::StrSliceExecFns;

verus! {

/// Whitespace as the marker grammar understands it: the ASCII whitespace
/// characters (space, tab, line feed, vertical tab, form feed, carriage
/// return). Unicode-only whitespace is not part of the grammar.
pub open spec fn is_ws(c: char) -> bool {
    c == ' ' || c == '\t' || c == '\n' || c == '\u{b}' || c == '\u{c}' || c == '\r'
}

pub fn ws_char(c: char) -> (r: bool)
    ensures
        r == is_ws(c),
{
    c == ' ' || c == '\t' || c == '\n' || c == '\u{b}' || c == '\u{c}' || c == '\r'
}

/// Characters allowed in a target id: ASCII letters, digits, `_` and `-`.
pub open spec fn is_target_char(c: char) -> bool {
    ('a' as u32 <= c as u32 && c as u32 <= 'z' as u32) || ('A' as u32 <= c as u32 && c as u32
        <= 'Z' as u32) || ('0' as u32 <= c as u32 && c as u32 <= '9' as u32) || c == '_' || c == '-'
}

pub fn target_char(c: char) -> (r: bool)
    ensures
        r == is_target_char(c),
{
    let u = c as u32;
    ('a' as u32 <= u && u <= 'z' as u32) || ('A' as u32 <= u && u <= 'Z' as u32) || ('0' as u32 <= u
        && u <= '9' as u32) || c == '_' || c == '-'
}

/// The character for one decimal digit.
pub open spec fn digit_char(d: nat) -> char {
    if d == 0 {
        '0'
    } else if d == 1 {
        '1'
    } else if d == 2 {
        '2'
    } else if d == 3 {
        '3'
    } else if d == 4 {
        '4'
    } else if d == 5 {
        '5'
    } else if d == 6 {
        '6'
    } else if d == 7 {
        '7'
    } else if d == 8 {
        '8'
    } else {
        '9'
    }
}

fn digit_char_exec(d: u32) -> (c: char)
    requires
        d < 10,
    ensures
        c == digit_char(d as nat),
{
    if d == 0 {
        '0'
    } else if d == 1 {
        '1'
    } else if d == 2 {
        '2'
    } else if d == 3 {
        '3'
    } else if d == 4 {
        '4'
    } else if d == 5 {
        '5'
    } else if d == 6 {
        '6'
    } else if d == 7 {
        '7'
    } else if d == 8 {
        '8'
    } else {
        '9'
    }
}

/// The decimal rendering of a number, most significant digit first.
pub open spec fn dec_seq(n: nat) -> Seq<char>
    decreases n,
{
    if n < 10 {
        seq![digit_char(n)]
    } else {
        dec_seq(n / 10).push(digit_char(n % 10))
    }
}

pub fn push_dec(out: &mut Vec<char>, n: u32)
    ensures
        final(out)@ == old(out)@ + dec_seq(n as nat),
    decreases n,
{
    if n < 10 {
        out.push(digit_char_exec(n));
        assert(final(out)@ =~= old(out)@ + dec_seq(n as nat));
    } else {
        push_dec(out, n / 10);
        out.push(digit_char_exec(n % 10));
        assert(final(out)@ =~= old(out)@ + dec_seq(n as nat));
    }
}

/// The numbers of `nums` from position `i` on, each rendered in decimal,
/// joined by `sep`.
pub open spec fn join_dec_from(nums: Seq<u32>, i: int, sep: char) -> Seq<char>
    decreases nums.len() - i,
{
    if i < 0 || i >= nums.len() {
        Seq::empty()
    } else if i == nums.len() - 1 {
        dec_seq(nums[i] as nat)
    } else {
        dec_seq(nums[i] as nat).push(sep) + join_dec_from(nums, i + 1, sep)
    }
}

/// All of `nums` rendered in decimal and joined by `sep`.
pub open spec fn join_dec(nums: Seq<u32>, sep: char) -> Seq<char> {
    join_dec_from(nums, 0, sep)
}

fn push_join_from(out: &mut Vec<char>, nums: &Vec<u32>, i: usize, sep: char)
    requires
        i <= nums.len(),
    ensures
        final(out)@ == old(out)@ + join_dec_from(nums@, i as int, sep),
    decreases nums.len() - i,
{
    if i < nums.len() {
        push_dec(out, nums[i]);
        if i + 1 < nums.len() {
            out.push(sep);
        }
        push_join_from(out, nums, i + 1, sep);
        assert(final(out)@ =~= old(out)@ + join_dec_from(nums@, i as int, sep));
    }
}

pub fn push_join(out: &mut Vec<char>, nums: &Vec<u32>, sep: char)
    ensures
        final(out)@ == old(out)@ + join_dec(nums@, sep),
{
    push_join_from(out, nums, 0, sep);
}

/// Appends every character of `s` to `out`.
pub fn push_str_chars(out: &mut Vec<char>, s: &str)
    ensures
        final(out)@ == old(out)@ + s@,
{
    let n = s.unicode_len();
    let mut i: usize = 0;
    while i < n
        invariant
            n == s@.len(),
            i <= n,
            out@ == old(out)@ + s@.subrange(0, i as int),
        decreases n - i,
    {
        out.push(s.get_char(i));
        i += 1;
        assert(out@ =~= old(out)@ + s@.subrange(0, i as int));
    }
    assert(s@.subrange(0, n as int) =~= s@);
}

/// The characters of `s`, one vector element per character.
pub fn chars_of(s: &str) -> (v: Vec<char>)
    ensures
        v@ == s@,
{
    let mut v: Vec<char> = Vec::new();
    push_str_chars(&mut v, s);
    v
}

/// Relies on `String`'s `FromIterator<char>`: collecting characters yields a
/// string of exactly those characters in order.
#[verifier::external_body]
pub fn string_from_chars(v: &Vec<char>) -> (s: String)
    ensures
        s@ == v@,
{
    v.iter().collect()
}

/// Lexicographic order on character sequences, by code point; a prefix sorts
/// before its extensions.
pub open spec fn lex_le(a: Seq<char>, b: Seq<char>) -> bool
    decreases a.len(),
{
    if a.len() == 0 {
        true
    } else if b.len() == 0 {
        false
    } else if a[0] as u32 != b[0] as u32 {
        (a[0] as u32) < (b[0] as u32)
    } else {
        lex_le(a.drop_first(), b.drop_first())
    }
}

/// Any two character sequences are ordered one way or the other.
pub proof fn lemma_lex_total(a: Seq<char>, b: Seq<char>)
    ensures
        lex_le(a, b) || lex_le(b, a),
    decreases a.len(),
{
    if a.len() != 0 && b.len() != 0 && a[0] as u32 == b[0] as u32 {
        lemma_lex_total(a.drop_first(), b.drop_first());
    }
}

pub fn lex_le_str(a: &str, b: &str) -> (r: bool)
    ensures
        r == lex_le(a@, b@),
{
    let alen = a.unicode_len();
    let blen = b.unicode_len();
    let mut i: usize = 0;
    proof {
        assert(a@.subrange(0, alen as int) =~= a@);
        assert(b@.subrange(0, blen as int) =~= b@);
    }
    loop
        invariant
            alen == a@.len(),
            blen == b@.len(),
            i <= alen,
            i <= blen,
            lex_le(a@, b@) == lex_le(
                a@.subrange(i as int, alen as int),
                b@.subrange(i as int, blen as int),
            ),
        decreases alen - i,
    {
        if i >= alen {
            return true;
        }
        if i >= blen {
            return false;
        }
        let ca = a.get_char(i);
        let cb = b.get_char(i);
        if ca as u32 != cb as u32 {
            return (ca as u32) < (cb as u32);
        }
        proof {
            assert(a@.subrange(i as int, alen as int).drop_first() =~= a@.subrange(
                i as int + 1,
                alen as int,
            ));
            assert(b@.subrange(i as int, blen as int).drop_first() =~= b@.subrange(
                i as int + 1,
                blen as int,
            ));
        }
        i += 1;
    }
}

pub fn str_eq(a: &str, b: &str) -> (r: bool)
    ensures
        r == (a@ == b@),
{
    let alen = a.unicode_len();
    let blen = b.unicode_len();
    if alen != blen {
        return false;
    }
    let mut i: usize = 0;
    while i < alen
        invariant
            alen == a@.len(),
            blen == b@.len(),
            alen == blen,
            i <= alen,
            forall|j: int| 0 <= j < i ==> a@[j] == b@[j],
        decreases alen - i,
    {
        if a.get_char(i) != b.get_char(i) {
            return false;
        }
        i += 1;
    }
    proof {
        assert(a@ =~= b@);
    }
    true
}

pub fn vec_str_eq(v: &Vec<char>, s: &str) -> (r: bool)
    ensures
        r == (v@ == s@),
{
    let slen = s.unicode_len();
    if v.len() != slen {
        return false;
    }
    let mut i: usize = 0;
    while i < slen
        invariant
            slen == s@.len(),
            v@.len() == slen,
            i <= slen,
            forall|j: int| 0 <= j < i ==> v@[j] == s@[j],
        decreases slen - i,
    {
        if v[i] != s.get_char(i) {
            return false;
        }
        i += 1;
    }
    proof {
        assert(v@ =~= s@);
    }
    true
}

/// Whether `s` holds `p` starting at position `i`.
pub open spec fn has_at(s: Seq<char>, i: int, p: Seq<char>) -> bool {
    0 <= i && i + p.len() <= s.len() && s.subrange(i, i + p.len()) == p
}

/// Compares `s` around position `i` against the literal `p`.
pub fn has_at_str(s: &Vec<char>, i: usize, p: &str) -> (r: bool)
    requires
        i <= s@.len(),
    ensures
        r == has_at(s@, i as int, p@),
{
    let plen = p.unicode_len();
    let slen = s.len();
    if plen > slen - i {
        assert(!has_at(s@, i as int, p@));
        return false;
    }
    let mut j: usize = 0;
    while j < plen
        invariant
            plen == p@.len(),
            slen == s@.len(),
            i + plen <= slen,
            j <= plen,
            s@.subrange(i as int, i as int + j as int) =~= p@.subrange(0, j as int),
        decreases plen - j,
    {
        assert(i + j < s@.len());
        if s[i + j] != p.get_char(j) {
            proof {
                assert(s@.subrange(i as int, i + p@.len())[j as int] == s@[i + j]);
                assert(s@.subrange(i as int, i + p@.len()) != p@);
            }
            return false;
        }
        j += 1;
        assert(s@.subrange(i as int, i as int + j as int) =~= p@.subrange(0, j as int));
    }
    proof {
        assert(s@.subrange(i as int, i + p@.len()) =~= p@.subrange(0, plen as int));
        assert(p@.subrange(0, plen as int) =~= p@);
    }
    true
}

} // verus!
