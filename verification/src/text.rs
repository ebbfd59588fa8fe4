//! Verified text utilities: substring search, whitespace trimming, and
//! splitting a line on single spaces. These are the primitives the event
//! classifier is built on.

use vstd::prelude::*;

verus! {

/// The pattern `p` occurs in `s` starting at position `i`.
pub open spec fn match_at(s: Seq<char>, p: Seq<char>, i: int) -> bool {
    0 <= i && i + p.len() <= s.len() && s.subrange(i, i + p.len() as int) == p
}

/// The pattern `p` occurs somewhere in `s`.
pub open spec fn contains_seq(s: Seq<char>, p: Seq<char>) -> bool {
    exists|i: int| match_at(s, p, i)
}

/// Substring search: does `p` occur anywhere in `s`?
pub fn contains_str(s: &str, p: &str) -> (r: bool)
    ensures
        r == contains_seq(s@, p@),
{
    let s_len = s.unicode_len();
    let p_len = p.unicode_len();
    if p_len > s_len {
        assert(forall|i: int| !match_at(s@, p@, i));
        return false;
    }
    let mut i: usize = 0;
    loop
        invariant
            s_len == s@.len(),
            p_len == p@.len(),
            p_len <= s_len,
            i <= s_len - p_len + 1,
            forall|k: int| 0 <= k < i ==> !match_at(s@, p@, k),
        decreases s_len - p_len - i + 1,
    {
        if i > s_len - p_len {
            assert(forall|k: int| !match_at(s@, p@, k));
            return false;
        }
        let mut j: usize = 0;
        let mut hit = true;
        while hit && j < p_len
            invariant
                s_len == s@.len(),
                p_len == p@.len(),
                i + p_len <= s_len,
                j <= p_len,
                forall|m: int| 0 <= m < j ==> s@[i + m] == p@[m],
                !hit ==> j < p_len && s@[i + j] != p@[j as int],
            decreases p_len - j + (if hit { 1int } else { 0int }),
        {
            if s.get_char(i + j) == p.get_char(j) {
                j = j + 1;
            } else {
                hit = false;
            }
        }
        if hit {
            assert(s@.subrange(i as int, i + p@.len()) =~= p@);
            assert(match_at(s@, p@, i as int));
            return true;
        }
        assert(!match_at(s@, p@, i as int)) by {
            if match_at(s@, p@, i as int) {
                assert(s@.subrange(i as int, i + p@.len())[j as int] == p@[j as int]);
            }
        }
        i = i + 1;
    }
}

/// The characters treated as blank when a line is trimmed.
pub open spec fn is_space_char(c: char) -> bool {
    c == ' ' || c == '\t' || c == '\r' || c == '\n'
}

/// `s` with its leading blanks removed.
pub open spec fn trim_start_rec(s: Seq<char>) -> Seq<char>
    decreases s.len(),
{
    if s.len() > 0 && is_space_char(s[0]) {
        trim_start_rec(s.drop_first())
    } else {
        s
    }
}

/// `s` with its trailing blanks removed.
pub open spec fn trim_end_rec(s: Seq<char>) -> Seq<char>
    decreases s.len(),
{
    if s.len() > 0 && is_space_char(s.last()) {
        trim_end_rec(s.drop_last())
    } else {
        s
    }
}

/// `s` with leading and trailing blanks removed.
pub open spec fn trimmed(s: Seq<char>) -> Seq<char> {
    trim_end_rec(trim_start_rec(s))
}

proof fn lemma_trim_start_skip(s: Seq<char>, a: int)
    requires
        0 <= a <= s.len(),
        forall|j: int| 0 <= j < a ==> is_space_char(s[j]),
        a < s.len() ==> !is_space_char(s[a]),
    ensures
        trim_start_rec(s) == s.skip(a),
    decreases a,
{
    if a == 0 {
        assert(s.skip(0) =~= s);
    } else {
        lemma_trim_start_skip(s.drop_first(), a - 1);
        assert(s.drop_first().skip(a - 1) =~= s.skip(a));
    }
}

proof fn lemma_trim_end_take(s: Seq<char>, b: int)
    requires
        0 <= b <= s.len(),
        forall|j: int| b <= j < s.len() ==> is_space_char(s[j]),
        b > 0 ==> !is_space_char(s[b - 1]),
    ensures
        trim_end_rec(s) == s.take(b),
    decreases s.len(),
{
    if b == s.len() {
        assert(s.take(b) =~= s);
    } else {
        assert(is_space_char(s.last()));
        lemma_trim_end_take(s.drop_last(), b);
        assert(s.drop_last().take(b) =~= s.take(b));
    }
}

/// Remove leading and trailing blanks from a line.
pub fn trim_line<'a>(s: &'a str) -> (r: &'a str)
    ensures
        r@ == trimmed(s@),
{
    let len = s.unicode_len();
    let mut a: usize = 0;
    let mut more = true;
    while more
        invariant
            len == s@.len(),
            a <= len,
            forall|j: int| 0 <= j < a ==> is_space_char(s@[j]),
            !more ==> (a == len || !is_space_char(s@[a as int])),
        decreases len - a + (if more { 1int } else { 0int }),
    {
        if a < len {
            let c = s.get_char(a);
            if c == ' ' || c == '\t' || c == '\r' || c == '\n' {
                a = a + 1;
            } else {
                more = false;
            }
        } else {
            more = false;
        }
    }
    let mut b: usize = len;
    more = true;
    while more
        invariant
            len == s@.len(),
            a <= b <= len,
            a == len || !is_space_char(s@[a as int]),
            forall|j: int| b <= j < len ==> is_space_char(s@[j]),
            !more ==> (b == a || !is_space_char(s@[b - 1])),
        decreases b + (if more { 1int } else { 0int }),
    {
        if b > a {
            let c = s.get_char(b - 1);
            if c == ' ' || c == '\t' || c == '\r' || c == '\n' {
                b = b - 1;
            } else {
                more = false;
            }
        } else {
            more = false;
        }
    }
    proof {
        lemma_trim_start_skip(s@, a as int);
        lemma_trim_end_take(s@.skip(a as int), b - a as int);
        assert(s@.skip(a as int).take(b - a as int) =~= s@.subrange(a as int, b as int));
    }
    s.substring_char(a, b)
}

/// Index of the first space in `s`, or `s.len()` if there is none.
pub open spec fn first_space(s: Seq<char>) -> int
    decreases s.len(),
{
    if s.len() == 0 {
        0
    } else if s[0] == ' ' {
        0
    } else {
        1 + first_space(s.drop_first())
    }
}

/// `s` split on every single space character, as `str::split(" ")` does it:
/// consecutive spaces produce empty fields, and the result is never empty.
pub open spec fn split_spaces(s: Seq<char>) -> Seq<Seq<char>>
    decreases s.len(),
{
    let i = first_space(s);
    if 0 <= i < s.len() {
        seq![s.take(i)] + split_spaces(s.skip(i + 1))
    } else {
        seq![s]
    }
}

proof fn lemma_first_space_at(s: Seq<char>, k: int)
    requires
        0 <= k <= s.len(),
        forall|j: int| 0 <= j < k ==> s[j] != ' ',
        k < s.len() ==> s[k] == ' ',
    ensures
        first_space(s) == k,
    decreases k,
{
    if k > 0 {
        lemma_first_space_at(s.drop_first(), k - 1);
    }
}

/// Split `s` on single spaces; mirrors the spec function `split_spaces`.
pub fn split_spaces_str<'a>(s: &'a str) -> (r: Vec<&'a str>)
    ensures
        r.deep_view() == split_spaces(s@),
{
    let len = s.unicode_len();
    let mut r: Vec<&str> = Vec::new();
    let mut start: usize = 0;
    let mut i: usize = 0;
    proof {
        assert(r.deep_view() =~= Seq::<Seq<char>>::empty());
        assert(s@.skip(0) =~= s@);
        assert(r.deep_view() + split_spaces(s@.skip(0)) =~= split_spaces(s@));
    }
    while i < len
        invariant
            len == s@.len(),
            start <= i <= len,
            forall|j: int| start <= j < i ==> s@[j] != ' ',
            split_spaces(s@) == r.deep_view() + split_spaces(s@.skip(start as int)),
        decreases len - i,
    {
        if s.get_char(i) == ' ' {
            let tok = s.substring_char(start, i);
            proof {
                let rest = s@.skip(start as int);
                lemma_first_space_at(rest, i - start);
                assert(rest.take(i - start) =~= s@.subrange(start as int, i as int));
                assert(rest.skip(i - start + 1) =~= s@.skip(i + 1));
                assert(split_spaces(rest) == seq![tok@] + split_spaces(s@.skip(i + 1)));
            }
            let ghost old_r = r.deep_view();
            r.push(tok);
            proof {
                assert(r.deep_view() =~= old_r.push(tok@));
                assert(r.deep_view() + split_spaces(s@.skip(i + 1)) =~= split_spaces(s@));
            }
            start = i + 1;
        }
        i = i + 1;
    }
    let tok = s.substring_char(start, len);
    proof {
        let rest = s@.skip(start as int);
        lemma_first_space_at(rest, len - start);
        assert(rest =~= s@.subrange(start as int, len as int));
        assert(split_spaces(rest) == seq![tok@]);
    }
    let ghost old_r = r.deep_view();
    r.push(tok);
    proof {
        assert(r.deep_view() =~= old_r.push(tok@));
        assert(r.deep_view() =~= split_spaces(s@));
    }
    r
}

/// Join a directory and a file name with a single separator; an absolute
/// name (leading separator) stands on its own, as a path join does it.
pub open spec fn spec_join_path(dir: Seq<char>, name: Seq<char>) -> Seq<char> {
    if name.len() > 0 && name[0] == '/' {
        name
    } else {
        dir + seq!['/'] + name
    }
}

/// Resolve `name` against the directory `dir`.
pub fn join_path(dir: &str, name: &str) -> (r: String)
    ensures
        r@ == spec_join_path(dir@, name@),
{
    let name_len = name.unicode_len();
    if name_len > 0 {
        if name.get_char(0) == '/' {
            return String::from_str(name);
        }
    }
    let mut r = String::from_str(dir);
    r.append("/");
    r.append(name);
    proof {
        reveal_strlit("/");
        assert(("/")@ =~= seq!['/']);
        assert(r@ =~= spec_join_path(dir@, name@));
    }
    r
}

} // verus!
