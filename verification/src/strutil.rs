//! Verified helpers for working with strings as sequences of characters.

use vstd::prelude::*;

verus! {

/// True when `c` is an ASCII lowercase letter.
pub open spec fn is_lower_char(c: char) -> bool {
    'a' <= c && c <= 'z'
}

/// True when `c` is an ASCII uppercase letter.
pub open spec fn is_upper_char(c: char) -> bool {
    'A' <= c && c <= 'Z'
}

/// The ASCII uppercase form of `c`: lowercase letters are shifted into the
/// uppercase range, every other character is unchanged.
pub open spec fn upper_char(c: char) -> char {
    if is_lower_char(c) {
        ((c as u32) - 32) as char
    } else {
        c
    }
}

/// What `char::to_uppercase` yields for one character: one or more
/// characters, a function of the character alone (Unicode data, not the
/// locale or the machine).
pub uninterp spec fn upper_of(c: char) -> Seq<char>;

/// Relies on `char::to_uppercase`: the Unicode uppercase mapping of the
/// character, which depends on the character alone; an ASCII lowercase
/// letter maps to its single uppercase letter.
#[verifier::external_body]
pub fn uppercase_char(c: char) -> (r: String)
    ensures
        r@ == upper_of(c),
        is_lower_char(c) ==> r@ == seq![upper_char(c)],
{
    c.to_uppercase().collect()
}

/// Index of the last occurrence of `c` in `s`, or -1 when `c` does not occur.
pub open spec fn last_ix(s: Seq<char>, c: char) -> int
    decreases s.len(),
{
    if s.len() == 0 {
        -1
    } else if s.last() == c {
        s.len() - 1
    } else {
        last_ix(s.drop_last(), c)
    }
}

/// Index of the first occurrence of `c` in `s`, or `s.len()` when `c` does
/// not occur.
pub open spec fn first_ix(s: Seq<char>, c: char) -> int
    decreases s.len(),
{
    if s.len() == 0 {
        0
    } else if s[0] == c {
        0
    } else {
        1 + first_ix(s.skip(1), c)
    }
}

/// `first_ix` stays within bounds and, when it is a proper index, points
/// at an occurrence of `c`.
pub proof fn lemma_first_ix(s: Seq<char>, c: char)
    ensures
        0 <= first_ix(s, c) <= s.len(),
        first_ix(s, c) < s.len() ==> s[first_ix(s, c)] == c,
    decreases s.len(),
{
    if s.len() == 0 {
    } else if s[0] == c {
    } else {
        lemma_first_ix(s.skip(1), c);
        if first_ix(s.skip(1), c) < s.skip(1).len() {
            assert(s[1 + first_ix(s.skip(1), c)] == s.skip(1)[first_ix(s.skip(1), c)]);
        }
    }
}

/// `s` with every occurrence of `c` removed.
pub open spec fn without_char(s: Seq<char>, c: char) -> Seq<char>
    decreases s.len(),
{
    if s.len() == 0 {
        Seq::empty()
    } else if s.last() == c {
        without_char(s.drop_last(), c)
    } else {
        without_char(s.drop_last(), c).push(s.last())
    }
}

/// Compares two string slices character by character.
pub fn str_eq(a: &str, b: &str) -> (r: bool)
    ensures
        r == (a@ == b@),
{
    let alen = a.unicode_len();
    let blen = b.unicode_len();
    if alen != blen {
        return false;
    }
    let mut i: usize = 0;
    while i < alen
        invariant
            i <= alen,
            alen == a@.len(),
            alen == b@.len(),
            forall|j: int| 0 <= j < i ==> a@[j] == b@[j],
        decreases alen - i,
    {
        if a.get_char(i) != b.get_char(i) {
            return false;
        }
        i = i + 1;
    }
    proof {
        assert(a@ =~= b@);
    }
    true
}

/// True when the first character of `s` is an ASCII lowercase letter.
pub fn first_char_is_lower(s: &str) -> (r: bool)
    requires
        s@.len() > 0,
    ensures
        r == is_lower_char(s@[0]),
{
    let c = s.get_char(0);
    c >= 'a' && c <= 'z'
}

/// True when `p` is a prefix of `s`.
pub fn starts_with_str(s: &str, p: &str) -> (r: bool)
    ensures
        r == p@.is_prefix_of(s@),
{
    let slen = s.unicode_len();
    let plen = p.unicode_len();
    if plen > slen {
        return false;
    }
    let mut i: usize = 0;
    while i < plen
        invariant
            i <= plen,
            plen <= slen,
            slen == s@.len(),
            plen == p@.len(),
            forall|j: int| 0 <= j < i ==> s@[j] == p@[j],
        decreases plen - i,
    {
        if s.get_char(i) != p.get_char(i) {
            return false;
        }
        i = i + 1;
    }
    proof {
        assert(s@.subrange(0, p@.len() as int) =~= p@);
    }
    true
}

/// True when `p` is a suffix of `s`.
pub fn ends_with_str(s: &str, p: &str) -> (r: bool)
    ensures
        r == p@.is_suffix_of(s@),
{
    let slen = s.unicode_len();
    let plen = p.unicode_len();
    if plen > slen {
        return false;
    }
    let off = slen - plen;
    let mut i: usize = 0;
    while i < plen
        invariant
            i <= plen,
            plen <= slen,
            off == slen - plen,
            slen == s@.len(),
            plen == p@.len(),
            forall|j: int| 0 <= j < i ==> s@[off + j] == p@[j],
        decreases plen - i,
    {
        if s.get_char(off + i) != p.get_char(i) {
            return false;
        }
        i = i + 1;
    }
    proof {
        assert(s@.subrange(s@.len() - p@.len(), s@.len() as int) =~= p@);
    }
    true
}

/// Finds the last occurrence of `c` in `s`.
pub fn last_index_of(s: &str, c: char) -> (r: Option<usize>)
    ensures
        match r {
            Some(i) => i < s@.len() && last_ix(s@, c) == i,
            None => last_ix(s@, c) == -1,
        },
{
    let len = s.unicode_len();
    proof {
        assert(s@.take(len as int) =~= s@);
    }
    let mut i: usize = len;
    while i > 0
        invariant
            i <= len,
            len == s@.len(),
            last_ix(s@, c) == last_ix(s@.take(i as int), c),
        decreases i,
    {
        let j = i - 1;
        let ch = s.get_char(j);
        proof {
            assert(s@.take(i as int).last() == s@[j as int]);
            assert(s@.take(i as int).drop_last() =~= s@.take(j as int));
        }
        if ch == c {
            return Some(j);
        }
        i = j;
    }
    proof {
        assert(s@.take(0) =~= Seq::<char>::empty());
    }
    None
}

/// Finds the first occurrence of `c` in `s` at or after position `from`;
/// returns the length of `s` when there is none.
pub fn first_index_from(s: &str, from: usize, c: char) -> (r: usize)
    requires
        from <= s@.len(),
    ensures
        from <= r <= s@.len(),
        r - from == first_ix(s@.skip(from as int), c),
{
    let len = s.unicode_len();
    let mut i: usize = from;
    while i < len
        invariant
            from <= i <= len,
            len == s@.len(),
            first_ix(s@.skip(from as int), c) == (i - from) + first_ix(s@.skip(i as int), c),
            forall|j: int| from <= j < i ==> s@[j] != c,
        decreases len - i,
    {
        let ch = s.get_char(i);
        if ch == c {
            proof {
                assert(s@.skip(i as int)[0] == s@[i as int]);
            }
            return i;
        }
        proof {
            assert(s@.skip(i as int)[0] == s@[i as int]);
            assert(s@.skip(i as int).skip(1) =~= s@.skip(i as int + 1));
        }
        i = i + 1;
    }
    proof {
        assert(s@.skip(len as int) =~= Seq::<char>::empty());
    }
    i
}

/// Copies `s` with every occurrence of `c` left out.
pub fn remove_char(s: &str, c: char) -> (r: String)
    ensures
        r@ == without_char(s@, c),
{
    let len = s.unicode_len();
    let mut out = String::new();
    let mut i: usize = 0;
    while i < len
        invariant
            i <= len,
            len == s@.len(),
            out@ == without_char(s@.take(i as int), c),
        decreases len - i,
    {
        let ch = s.get_char(i);
        proof {
            assert(s@.take(i as int + 1).last() == s@[i as int]);
            assert(s@.take(i as int + 1).drop_last() =~= s@.take(i as int));
        }
        if ch != c {
            let piece = s.substring_char(i, i + 1);
            proof {
                assert(piece@ =~= seq![s@[i as int]]);
                assert(out@ + piece@ =~= without_char(s@.take(i as int), c).push(s@[i as int]));
            }
            out.append(piece);
        }
        i = i + 1;
    }
    proof {
        assert(s@.take(len as int) =~= s@);
    }
    out
}

/// The ASCII uppercase form of a lowercase letter, as a string slice;
/// `None` for any other character.
pub fn upper_str_of(c: char) -> (r: Option<&'static str>)
    ensures
        match r {
            Some(t) => is_lower_char(c) && t@ =~= seq![upper_char(c)],
            None => !is_lower_char(c),
        },
{
    match c {
        'a' => { proof { reveal_strlit("A"); } Some("A") },
        'b' => { proof { reveal_strlit("B"); } Some("B") },
        'c' => { proof { reveal_strlit("C"); } Some("C") },
        'd' => { proof { reveal_strlit("D"); } Some("D") },
        'e' => { proof { reveal_strlit("E"); } Some("E") },
        'f' => { proof { reveal_strlit("F"); } Some("F") },
        'g' => { proof { reveal_strlit("G"); } Some("G") },
        'h' => { proof { reveal_strlit("H"); } Some("H") },
        'i' => { proof { reveal_strlit("I"); } Some("I") },
        'j' => { proof { reveal_strlit("J"); } Some("J") },
        'k' => { proof { reveal_strlit("K"); } Some("K") },
        'l' => { proof { reveal_strlit("L"); } Some("L") },
        'm' => { proof { reveal_strlit("M"); } Some("M") },
        'n' => { proof { reveal_strlit("N"); } Some("N") },
        'o' => { proof { reveal_strlit("O"); } Some("O") },
        'p' => { proof { reveal_strlit("P"); } Some("P") },
        'q' => { proof { reveal_strlit("Q"); } Some("Q") },
        'r' => { proof { reveal_strlit("R"); } Some("R") },
        's' => { proof { reveal_strlit("S"); } Some("S") },
        't' => { proof { reveal_strlit("T"); } Some("T") },
        'u' => { proof { reveal_strlit("U"); } Some("U") },
        'v' => { proof { reveal_strlit("V"); } Some("V") },
        'w' => { proof { reveal_strlit("W"); } Some("W") },
        'x' => { proof { reveal_strlit("X"); } Some("X") },
        'y' => { proof { reveal_strlit("Y"); } Some("Y") },
        'z' => { proof { reveal_strlit("Z"); } Some("Z") },
        _ => None,
    }
}

} // verus!
