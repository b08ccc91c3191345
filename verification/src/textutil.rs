//! Character-level text helpers shared by the parser and the renderer.
use vstd::prelude::*;
use vstd::std_specs::iter::IteratorSpec;

verus! {

broadcast use vstd::string::group_string_axioms, vstd::utf8::char_u32_cast;

/// The character with the given code.
pub open spec fn char_of(n: u32) -> char {
    n as char
}

pub assume_specification[ char::from_u32 ](n: u32) -> (r: Option<char>)
    ensures
        r matches Some(c) ==> c as u32 == n,
        r is Some <==> (n < 0xD800 || (0xE000 <= n && n <= 0x10FFFF)),
;

/// The characters of a text, in order.
pub fn to_chars(s: &str) -> (r: Vec<char>)
    ensures
        r@ == s@,
{
    let mut it = s.chars();
    let mut out: Vec<char> = Vec::new();
    loop
        invariant_except_break
            s@ == out@ + it.remaining(),
        invariant
            it.decrease() is Some,
        ensures
            s@ == out@,
        decreases it.decrease()->0,
    {
        match it.next() {
            Some(c) => {
                out.push(c);
                proof {
                    assert(out@ + it.remaining() =~= s@);
                }
            },
            None => break ,
        }
    }
    out
}

/// Relies on `String::push` of std: it appends the one character.
#[verifier::external_body]
pub fn push_char(s: &mut String, c: char)
    ensures
        final(s)@ == old(s)@.push(c),
{
    s.push(c);
}

/// A `String` holding exactly the given characters.
pub fn chars_to_string(v: &Vec<char>) -> (r: String)
    ensures
        r@ == v@,
{
    let mut s = String::new();
    let mut i: usize = 0;
    while i < v.len()
        invariant
            i <= v.len(),
            s@ == v@.take(i as int),
        decreases v.len() - i,
    {
        push_char(&mut s, v[i]);
        proof {
            assert(v@.take(i as int).push(v@[i as int]) =~= v@.take(i + 1));
        }
        i += 1;
    }
    proof {
        assert(v@.take(v@.len() as int) =~= v@);
    }
    s
}

/// ASCII lower-casing of one character.
pub open spec fn lower_char(c: char) -> char {
    if 'A' <= c && c <= 'Z' {
        char_of(((c as u32) + 32) as u32)
    } else {
        c
    }
}

/// ASCII upper-casing of one character.
pub open spec fn upper_char(c: char) -> char {
    if 'a' <= c && c <= 'z' {
        char_of(((c as u32) - 32) as u32)
    } else {
        c
    }
}

/// ASCII lower-casing of a text.
pub open spec fn lower_seq(s: Seq<char>) -> Seq<char> {
    Seq::new(s.len(), |i: int| lower_char(s[i]))
}

/// ASCII upper-casing of a text.
pub open spec fn upper_seq(s: Seq<char>) -> Seq<char> {
    Seq::new(s.len(), |i: int| upper_char(s[i]))
}

fn case_char(c: char, to_lower: bool) -> (r: char)
    ensures
        to_lower ==> r == lower_char(c),
        !to_lower ==> r == upper_char(c),
{
    let u = c as u32;
    if to_lower {
        if 65 <= u && u <= 90 {
            proof {
                assert('A' <= c && c <= 'Z');
            }
            match char::from_u32(u + 32) {
                Some(l) => {
                    proof {
                        vstd::utf8::char_u32_cast(l, (u + 32) as u32);
                    }
                    l
                },
                None => c,
            }
        } else {
            proof {
                assert(!('A' <= c && c <= 'Z'));
            }
            c
        }
    } else {
        if 97 <= u && u <= 122 {
            proof {
                assert('a' <= c && c <= 'z');
            }
            match char::from_u32(u - 32) {
                Some(l) => {
                    proof {
                        vstd::utf8::char_u32_cast(l, (u - 32) as u32);
                    }
                    l
                },
                None => c,
            }
        } else {
            proof {
                assert(!('a' <= c && c <= 'z'));
            }
            c
        }
    }
}

/// ASCII lower-casing, character by character.
pub fn lower_chars(s: &Vec<char>) -> (r: Vec<char>)
    ensures
        r@ == lower_seq(s@),
{
    let mut out: Vec<char> = Vec::new();
    let mut i: usize = 0;
    while i < s.len()
        invariant
            i <= s.len(),
            out@ == lower_seq(s@).take(i as int),
        decreases s.len() - i,
    {
        out.push(case_char(s[i], true));
        proof {
            assert(out@ =~= lower_seq(s@).take(i + 1));
        }
        i += 1;
    }
    proof {
        assert(lower_seq(s@).take(s@.len() as int) =~= lower_seq(s@));
    }
    out
}

/// ASCII upper-casing, character by character.
pub fn upper_chars(s: &Vec<char>) -> (r: Vec<char>)
    ensures
        r@ == upper_seq(s@),
{
    let mut out: Vec<char> = Vec::new();
    let mut i: usize = 0;
    while i < s.len()
        invariant
            i <= s.len(),
            out@ == upper_seq(s@).take(i as int),
        decreases s.len() - i,
    {
        out.push(case_char(s[i], false));
        proof {
            assert(out@ =~= upper_seq(s@).take(i + 1));
        }
        i += 1;
    }
    proof {
        assert(upper_seq(s@).take(s@.len() as int) =~= upper_seq(s@));
    }
    out
}

/// Whether `sub` occurs contiguously inside `s`.
pub open spec fn contains_sub(s: Seq<char>, sub: Seq<char>) -> bool {
    exists|k: int| 0 <= k && k + sub.len() <= s.len() && #[trigger] s.subrange(k, k + sub.len() as int) == sub
}

fn matches_at(s: &Vec<char>, sub: &Vec<char>, k: usize) -> (r: bool)
    requires
        k + sub@.len() <= s@.len(),
    ensures
        r == (s@.subrange(k as int, k + sub@.len() as int) == sub@),
{
    let mut j: usize = 0;
    while j < sub.len()
        invariant
            j <= sub.len(),
            k + sub@.len() <= s@.len(),
            forall|t: int| 0 <= t < j ==> s@[k + t] == sub@[t],
        decreases sub.len() - j,
    {
        proof {
            assert(s.len() == s@.len());
            assert(k + j < s@.len());
        }
        if s[k + j] != sub[j] {
            proof {
                assert(s@.subrange(k as int, k + sub@.len() as int)[j as int] == s@[k + j]);
            }
            return false;
        }
        j += 1;
    }
    proof {
        assert(s@.subrange(k as int, k + sub@.len() as int) =~= sub@);
    }
    true
}

/// Substring search, character by character.
pub fn contains_chars(s: &Vec<char>, sub: &Vec<char>) -> (r: bool)
    ensures
        r == contains_sub(s@, sub@),
{
    if sub.len() > s.len() {
        proof {
            assert(!contains_sub(s@, sub@));
        }
        return false;
    }
    if sub.len() == 0 {
        proof {
            assert(s@.subrange(0, 0 + sub@.len() as int) =~= sub@);
            assert(contains_sub(s@, sub@));
        }
        return true;
    }
    let mut k: usize = 0;
    while k <= s.len() - sub.len()
        invariant
            1 <= sub@.len() <= s@.len(),
            k <= s@.len(),
            forall|t: int|
                0 <= t < k ==> #[trigger] s@.subrange(t, t + sub@.len() as int) != sub@,
        decreases s.len() - k,
    {
        if matches_at(s, sub, k) {
            return true;
        }
        k += 1;
    }
    proof {
        assert(!contains_sub(s@, sub@));
    }
    false
}

} // verus!
