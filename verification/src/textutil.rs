//! Small verified utilities over strings, shared by the configuration layer,
//! the encoding classifier and the schema synthesizer.

use vstd::prelude::*;

verus! {

/// Index of the first occurrence of `c` in `s`, or `None` when `c` does not occur.
pub open spec fn spec_find_char(s: Seq<char>, c: char) -> Option<int>
    decreases s.len(),
{
    if s.len() == 0 {
        None
    } else if s[0] == c {
        Some(0)
    } else {
        match spec_find_char(s.drop_first(), c) {
            None => None,
            Some(i) => Some(i + 1),
        }
    }
}

pub proof fn lemma_find_char_props(s: Seq<char>, c: char)
    ensures
        match spec_find_char(s, c) {
            Some(i) => 0 <= i < s.len() && s[i] == c && (forall|j: int| 0 <= j < i ==> s[j] != c),
            None => forall|j: int| 0 <= j < s.len() ==> s[j] != c,
        },
    decreases s.len(),
{
    if s.len() != 0 && s[0] != c {
        lemma_find_char_props(s.drop_first(), c);
        assert forall|j: int| 1 <= j < s.len() implies s.drop_first()[j - 1] == s[j] by {}
    }
}

/// The recursive definition above agrees with the "first index scanned" view:
/// if everything before `i` differs from `c`, the search is decided at `i`.
proof fn lemma_find_char_at(s: Seq<char>, c: char, i: int)
    requires
        0 <= i <= s.len(),
        forall|j: int| 0 <= j < i ==> s[j] != c,
    ensures
        i < s.len() && s[i] == c ==> spec_find_char(s, c) == Some(i),
        i == s.len() ==> spec_find_char(s, c) is None,
    decreases i,
{
    if i == 0 {
        if s.len() > 0 && s[0] == c {
        } else if s.len() == 0 {
        }
    } else {
        assert(s[0] != c);
        let t = s.drop_first();
        assert(forall|j: int| 0 <= j < i - 1 ==> t[j] == s[j + 1]);
        lemma_find_char_at(t, c, i - 1);
    }
}

/// First index of `c` in `s`, scanning left to right.
pub fn find_char(s: &str, c: char) -> (r: Option<usize>)
    ensures
        r matches Some(i) ==> spec_find_char(s@, c) == Some(i as int),
        r is None ==> spec_find_char(s@, c) is None,
{
    let n: usize = s.unicode_len();
    let mut i: usize = 0;
    while i < n
        invariant
            0 <= i <= n,
            n == s@.len(),
            forall|j: int| 0 <= j < i ==> s@[j] != c,
        decreases n - i,
    {
        if s.get_char(i) == c {
            proof {
                lemma_find_char_at(s@, c, i as int);
            }
            return Some(i);
        }
        i = i + 1;
    }
    proof {
        lemma_find_char_at(s@, c, n as int);
    }
    None
}

/// Character-wise string equality, decided without assuming anything about
/// the derived comparison of `str`.
pub fn str_eq(a: &str, b: &str) -> (r: bool)
    ensures
        r == (a@ == b@),
{
    let na: usize = a.unicode_len();
    let nb: usize = b.unicode_len();
    if na != nb {
        return false;
    }
    let mut i: usize = 0;
    while i < na
        invariant
            0 <= i <= na,
            na == a@.len(),
            na == b@.len(),
            forall|j: int| 0 <= j < i ==> a@[j] == b@[j],
        decreases na - i,
    {
        if a.get_char(i) != b.get_char(i) {
            return false;
        }
        i = i + 1;
    }
    proof {
        assert(a@ =~= b@);
    }
    true
}

/// Relies on `String::push`: appends exactly one character to the string.
#[verifier::external_body]
pub fn push_char(s: &mut String, c: char)
    ensures
        final(s)@ == old(s)@.push(c),
{
    s.push(c);
}

/// `s` with every occurrence of `from` replaced by `to`.
pub open spec fn spec_replace_char(s: Seq<char>, from: char, to: char) -> Seq<char> {
    Seq::new(s.len(), |i: int| if s[i] == from { to } else { s[i] })
}

/// Replaces every occurrence of one character, used to canonicalize a
/// hierarchical topic name into a flat schema name.
pub fn replace_char(s: &str, from: char, to: char) -> (r: String)
    ensures
        r@ == spec_replace_char(s@, from, to),
{
    let n: usize = s.unicode_len();
    let mut out: String = String::new();
    let mut i: usize = 0;
    while i < n
        invariant
            0 <= i <= n,
            n == s@.len(),
            out@ == spec_replace_char(s@, from, to).take(i as int),
        decreases n - i,
    {
        let c = s.get_char(i);
        if c == from {
            push_char(&mut out, to);
        } else {
            push_char(&mut out, c);
        }
        proof {
            assert(out@ =~= spec_replace_char(s@, from, to).take(i + 1));
        }
        i = i + 1;
    }
    proof {
        assert(spec_replace_char(s@, from, to).take(n as int) =~= spec_replace_char(s@, from, to));
    }
    out
}

/// The characters of `s` from `from` (inclusive) to `to` (exclusive), as an
/// owned string.
pub fn substring(s: &str, from: usize, to: usize) -> (r: String)
    requires
        from <= to <= s@.len(),
    ensures
        r@ == s@.subrange(from as int, to as int),
{
    let sub = s.substring_char(from, to);
    sub.to_owned()
}

/// Lexicographic order on character sequences, by Unicode scalar value.
pub open spec fn spec_chars_le(a: Seq<char>, b: Seq<char>) -> bool
    decreases a.len(),
{
    if a.len() == 0 {
        true
    } else if b.len() == 0 {
        false
    } else if (a[0] as u32) < (b[0] as u32) {
        true
    } else if (a[0] as u32) > (b[0] as u32) {
        false
    } else {
        spec_chars_le(a.drop_first(), b.drop_first())
    }
}

pub proof fn lemma_chars_le_refl(a: Seq<char>)
    ensures
        spec_chars_le(a, a),
    decreases a.len(),
{
    if a.len() > 0 {
        lemma_chars_le_refl(a.drop_first());
    }
}

/// A common prefix does not disturb the order.
pub proof fn lemma_chars_le_prefix(p: Seq<char>, u: Seq<char>, v: Seq<char>)
    requires
        spec_chars_le(u, v),
    ensures
        spec_chars_le(p + u, p + v),
    decreases p.len(),
{
    if p.len() == 0 {
        assert(p + u =~= u);
        assert(p + v =~= v);
    } else {
        lemma_chars_le_prefix(p.drop_first(), u, v);
        assert((p + u)[0] == p[0]);
        assert((p + v)[0] == p[0]);
        assert((p + u).drop_first() =~= p.drop_first() + u);
        assert((p + v).drop_first() =~= p.drop_first() + v);
    }
}

/// Appending to equal-length ordered parts keeps the order.
pub proof fn lemma_chars_le_append(u: Seq<char>, v: Seq<char>, s: Seq<char>, t: Seq<char>)
    requires
        u.len() == v.len(),
        spec_chars_le(u, v),
        spec_chars_le(s, t),
    ensures
        spec_chars_le(u + s, v + t),
    decreases u.len(),
{
    if u.len() == 0 {
        assert(u + s =~= s);
        assert(v + t =~= t);
    } else {
        assert((u + s)[0] == u[0]);
        assert((v + t)[0] == v[0]);
        if (u[0] as u32) == (v[0] as u32) {
            assert((u + s).drop_first() =~= u.drop_first() + s);
            assert((v + t).drop_first() =~= v.drop_first() + t);
            lemma_chars_le_append(u.drop_first(), v.drop_first(), s, t);
        }
    }
}

} // verus!
