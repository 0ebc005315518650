//! Verified text helpers: trimming, character scanning, lexicographic
//! ordering of character sequences, and decimal rendering — together with a
//! trusted wrapper for Unicode case folding.

use vstd::prelude::*;

verus! {

/// ASCII whitespace, the kind stripped from user-supplied list segments.
pub open spec fn is_space(c: char) -> bool {
    c == ' ' || c == '\t' || c == '\n' || c == '\r'
}

pub open spec fn spec_trim_front(s: Seq<char>) -> Seq<char>
    decreases s.len(),
{
    if s.len() > 0 && is_space(s[0]) {
        spec_trim_front(s.drop_first())
    } else {
        s
    }
}

pub open spec fn spec_trim_back(s: Seq<char>) -> Seq<char>
    decreases s.len(),
{
    if s.len() > 0 && is_space(s.last()) {
        spec_trim_back(s.drop_last())
    } else {
        s
    }
}

/// The sequence with leading and trailing ASCII whitespace removed.
pub open spec fn spec_trim(s: Seq<char>) -> Seq<char> {
    spec_trim_back(spec_trim_front(s))
}

/// Index of the first occurrence of `c` in `s`, or -1.
pub open spec fn find_char(s: Seq<char>, c: char) -> int
    decreases s.len(),
{
    if s.len() == 0 {
        -1
    } else if s[0] == c {
        0
    } else {
        let r = find_char(s.drop_first(), c);
        if r < 0 {
            -1
        } else {
            r + 1
        }
    }
}

pub proof fn lemma_find_char(s: Seq<char>, c: char)
    ensures
        find_char(s, c) >= 0 ==> find_char(s, c) < s.len() && s[find_char(s, c)] == c && (
        forall|j: int| 0 <= j < find_char(s, c) ==> s[j] != c),
        find_char(s, c) < 0 ==> forall|j: int| 0 <= j < s.len() ==> s[j] != c,
    decreases s.len(),
{
    if s.len() > 0 && s[0] != c {
        lemma_find_char(s.drop_first(), c);
        let t = s.drop_first();
        assert(forall|j: int| 0 <= j < t.len() ==> t[j] == s[j + 1]);
        if find_char(t, c) >= 0 {
            assert(forall|j: int| 1 <= j < find_char(s, c) ==> s[j] == t[j - 1]);
        } else {
            assert(forall|j: int| 1 <= j < s.len() ==> s[j] == t[j - 1]);
        }
    }
}

/// A position holding `c` with none before it is exactly what `find_char`
/// finds.
pub proof fn lemma_find_char_at(s: Seq<char>, c: char, p: int)
    requires
        0 <= p < s.len(),
        s[p] == c,
        forall|j: int| 0 <= j < p ==> s[j] != c,
    ensures
        find_char(s, c) == p,
{
    lemma_find_char(s, c);
    let f = find_char(s, c);
    if f < 0 {
        assert(s[p] != c);
    } else if f < p {
        assert(s[f] != c);
    } else if f > p {
        assert(s[p] != c);
    }
}

/// Finding a character distributes over concatenation when the front part
/// does not hold it.
pub proof fn lemma_find_char_concat(a: Seq<char>, b: Seq<char>, c: char)
    requires
        find_char(a, c) < 0,
    ensures
        find_char(a + b, c) == if find_char(b, c) < 0 {
            -1int
        } else {
            a.len() + find_char(b, c)
        },
{
    lemma_find_char(a, c);
    lemma_find_char(b, c);
    let s = a + b;
    let fb = find_char(b, c);
    if fb < 0 {
        lemma_find_char(s, c);
        let f = find_char(s, c);
        if f >= 0 {
            if f < a.len() {
                assert(s[f] == a[f]);
            } else {
                assert(s[f] == b[f - a.len()]);
            }
            assert(false);
        }
    } else {
        assert(s[a.len() + fb] == b[fb]);
        assert forall|j: int| 0 <= j < a.len() + fb implies s[j] != c by {
            if j < a.len() {
                assert(s[j] == a[j]);
            } else {
                assert(s[j] == b[j - a.len()]);
            }
        }
        lemma_find_char_at(s, c, a.len() + fb);
    }
}

/// Trims ASCII whitespace from both ends.
pub fn trim_str<'a>(s: &'a str) -> (r: &'a str)
    ensures
        r@ == spec_trim(s@),
    decreases s@.len(),
{
    let n = s.unicode_len();
    if n > 0 {
        let c0 = s.get_char(0);
        if c0 == ' ' || c0 == '\t' || c0 == '\n' || c0 == '\r' {
            let rest = s.substring_char(1, n);
            assert(rest@ =~= s@.drop_first());
            return trim_str(rest);
        }
        let cl = s.get_char(n - 1);
        if cl == ' ' || cl == '\t' || cl == '\n' || cl == '\r' {
            let rest = s.substring_char(0, n - 1);
            assert(rest@ =~= s@.drop_last());
            assert(spec_trim_front(s@) == s@);
            proof {
                lemma_trim_front_of_unspaced(s@);
            }
            return trim_str(rest);
        }
        assert(spec_trim_front(s@) == s@);
        assert(spec_trim_back(s@) == s@);
        s
    } else {
        assert(s@ =~= spec_trim(s@));
        s
    }
}

/// When the head is not whitespace, front trimming is the identity, so
/// trimming commutes with dropping the last character.
proof fn lemma_trim_front_of_unspaced(s: Seq<char>)
    requires
        s.len() > 0,
        !is_space(s[0]),
        is_space(s.last()),
    ensures
        spec_trim(s) == spec_trim(s.drop_last()),
{
    assert(spec_trim_front(s) == s);
    if s.len() == 1 {
    } else {
        assert(s.drop_last()[0] == s[0]);
        assert(spec_trim_front(s.drop_last()) == s.drop_last());
    }
}

/// Finds the first `c` in `s`, mirroring `find_char`.
pub fn find_char_str(s: &str, c: char) -> (r: Option<usize>)
    ensures
        match r {
            Some(i) => i < s@.len() && find_char(s@, c) == i as int,
            None => find_char(s@, c) < 0,
        },
{
    let n = s.unicode_len();
    let mut i: usize = 0;
    proof {
        lemma_find_char(s@, c);
    }
    while i < n
        invariant
            0 <= i <= n,
            n == s@.len(),
            forall|j: int| 0 <= j < i as int ==> s@[j] != c,
            find_char(s@, c) >= 0 ==> find_char(s@, c) < s@.len() && s@[find_char(s@, c)] == c
                && (forall|j: int| 0 <= j < find_char(s@, c) ==> s@[j] != c),
            find_char(s@, c) < 0 ==> forall|j: int| 0 <= j < s@.len() ==> s@[j] != c,
        decreases n - i,
    {
        if s.get_char(i) == c {
            return Some(i);
        }
        i = i + 1;
    }
    None
}

/// Three-way lexicographic comparison of character sequences by code point:
/// -1, 0 or 1.
pub open spec fn seq_cmp(a: Seq<char>, b: Seq<char>) -> int
    decreases a.len(),
{
    if a.len() == 0 && b.len() == 0 {
        0
    } else if a.len() == 0 {
        -1
    } else if b.len() == 0 {
        1
    } else if (a[0] as u32) < (b[0] as u32) {
        -1
    } else if (b[0] as u32) < (a[0] as u32) {
        1
    } else {
        seq_cmp(a.drop_first(), b.drop_first())
    }
}

/// Lexicographic "less than or equal" on character sequences.
pub open spec fn seq_le(a: Seq<char>, b: Seq<char>) -> bool {
    seq_cmp(a, b) <= 0
}

/// Swapping the arguments flips the comparison, so the order is total.
pub proof fn lemma_seq_cmp_flip(a: Seq<char>, b: Seq<char>)
    ensures
        seq_cmp(a, b) == -seq_cmp(b, a),
    decreases a.len(),
{
    if a.len() > 0 && b.len() > 0 && !((a[0] as u32) < (b[0] as u32)) && !((b[0] as u32) < (
    a[0] as u32)) {
        lemma_seq_cmp_flip(a.drop_first(), b.drop_first());
    }
}

/// The lexicographic order is transitive.
pub proof fn lemma_seq_le_trans(a: Seq<char>, b: Seq<char>, c: Seq<char>)
    requires
        seq_le(a, b),
        seq_le(b, c),
    ensures
        seq_le(a, c),
    decreases a.len(),
{
    if a.len() > 0 && b.len() > 0 && c.len() > 0 && a[0] as u32 == b[0] as u32 && b[0] as u32
        == c[0] as u32 {
        lemma_seq_le_trans(a.drop_first(), b.drop_first(), c.drop_first());
    }
}

/// Decides `seq_cmp` on two strings.
pub fn str_cmp(a: &str, b: &str) -> (r: i32)
    ensures
        r == seq_cmp(a@, b@),
    decreases a@.len(),
{
    let an = a.unicode_len();
    let bn = b.unicode_len();
    if an == 0 && bn == 0 {
        0
    } else if an == 0 {
        -1
    } else if bn == 0 {
        1
    } else {
        let ca = a.get_char(0) as u32;
        let cb = b.get_char(0) as u32;
        if ca < cb {
            -1
        } else if cb < ca {
            1
        } else {
            let at = a.substring_char(1, an);
            let bt = b.substring_char(1, bn);
            assert(at@ =~= a@.drop_first());
            assert(bt@ =~= b@.drop_first());
            str_cmp(at, bt)
        }
    }
}

/// Decides view equality of two strings.
pub fn str_eq(a: &str, b: &str) -> (r: bool)
    ensures
        r == (a@ == b@),
{
    let an = a.unicode_len();
    let bn = b.unicode_len();
    if an != bn {
        return false;
    }
    let mut i: usize = 0;
    while i < an
        invariant
            0 <= i <= an,
            an == a@.len(),
            an == b@.len(),
            forall|j: int| 0 <= j < i as int ==> a@[j] == b@[j],
        decreases an - i,
    {
        if a.get_char(i) != b.get_char(i) {
            return false;
        }
        i = i + 1;
    }
    proof {
        assert(a@ =~= b@);
    }
    true
}

/// A character after the normalisation applied to user-typed release kinds:
/// ASCII upper case folded to lower case and `-` mapped to `_`, given by its
/// code point.
pub open spec fn norm_val(c: char) -> u32 {
    if 65 <= c as u32 <= 90 {
        (c as u32 + 32) as u32
    } else if c as u32 == 45 {
        95
    } else {
        c as u32
    }
}

/// Whether `seg`, normalised character by character, spells `name`.
pub open spec fn matches_norm(seg: Seq<char>, name: Seq<char>) -> bool {
    seg.len() == name.len() && forall|i: int|
        0 <= i < seg.len() ==> norm_val(seg[i]) == #[trigger] name[i] as u32
}

/// Decides `matches_norm` of a segment against a name.
pub fn matches_name(seg: &str, name: &str) -> (r: bool)
    ensures
        r == matches_norm(seg@, name@),
{
    let sn = seg.unicode_len();
    let nn = name.unicode_len();
    if sn != nn {
        return false;
    }
    let mut i: usize = 0;
    while i < sn
        invariant
            0 <= i <= sn,
            sn == seg@.len(),
            sn == name@.len(),
            forall|j: int| 0 <= j < i as int ==> norm_val(seg@[j]) == #[trigger] name@[j] as u32,
        decreases sn - i,
    {
        let c = seg.get_char(i) as u32;
        let n = name.get_char(i) as u32;
        let v = if 65 <= c && c <= 90 {
            c + 32
        } else if c == 45 {
            95
        } else {
            c
        };
        if v != n {
            return false;
        }
        i = i + 1;
    }
    true
}

/// Whether `needle` occurs contiguously inside `hay`.
pub open spec fn is_substring_of(needle: Seq<char>, hay: Seq<char>) -> bool {
    exists|i: int|
        0 <= i <= hay.len() - needle.len() && #[trigger] hay.subrange(i, i + needle.len())
            == needle
}

/// Decides `is_substring_of` on two strings.
pub fn str_contains(hay: &str, needle: &str) -> (r: bool)
    ensures
        r == is_substring_of(needle@, hay@),
{
    let hn = hay.unicode_len();
    let nn = needle.unicode_len();
    if nn == 0 {
        proof {
            assert(hay@.subrange(0, 0 + needle@.len() as int) =~= needle@);
        }
        return true;
    }
    if nn > hn {
        proof {
            if is_substring_of(needle@, hay@) {
                let i = choose|i: int|
                    0 <= i <= hay@.len() - needle@.len() && #[trigger] hay@.subrange(
                        i,
                        i + needle@.len(),
                    ) == needle@;
                assert(false);
            }
        }
        return false;
    }
    let mut i: usize = 0;
    while i <= hn - nn
        invariant
            0 <= i <= hn - nn + 1,
            1 <= nn <= hn,
            hn == hay@.len(),
            nn == needle@.len(),
            forall|p: int|
                0 <= p < i as int ==> #[trigger] hay@.subrange(p, p + needle@.len()) != needle@,
        decreases hn - nn - i + 1,
    {
        let mut j: usize = 0;
        let mut matched = true;
        while j < nn
            invariant_except_break
                0 <= j <= nn,
                matched,
                i + nn <= hn,
                hn == hay@.len(),
                nn == needle@.len(),
                forall|t: int| 0 <= t < j as int ==> hay@[i as int + t] == needle@[t],
            ensures
                matched ==> forall|t: int|
                    0 <= t < nn as int ==> hay@[i as int + t] == needle@[t],
                !matched ==> hay@.subrange(i as int, i as int + needle@.len()) != needle@,
            decreases nn - j,
        {
            if hay.get_char(i + j) != needle.get_char(j) {
                proof {
                    assert(hay@.subrange(i as int, i as int + needle@.len())[j as int] == hay@[
                        i as int + j as int
                    ]);
                }
                matched = false;
                break ;
            }
            j = j + 1;
        }
        if matched {
            proof {
                assert(hay@.subrange(i as int, i as int + needle@.len()) =~= needle@);
            }
            return true;
        }
        i = i + 1;
    }
    proof {
        if is_substring_of(needle@, hay@) {
            let p = choose|p: int|
                0 <= p <= hay@.len() - needle@.len() && #[trigger] hay@.subrange(
                    p,
                    p + needle@.len(),
                ) == needle@;
            assert(hay@.subrange(p, p + needle@.len()) != needle@);
        }
    }
    false
}

/// The Unicode lower-case image of a character sequence; the result depends
/// on the characters alone.
pub uninterp spec fn lower_of(s: Seq<char>) -> Seq<char>;

/// Relies on str::to_lowercase: full Unicode lower-casing of the string, a
/// pure function of its characters.
#[verifier::external_body]
pub(crate) fn lowercase(s: &str) -> (r: String)
    ensures
        r@ == lower_of(s@),
{
    s.to_lowercase()
}

} // verus!
