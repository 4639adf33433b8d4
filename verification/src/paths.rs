//! Path-shaped string helpers.
//!
//! Module identity and resource-pot naming work over forward-slash separated
//! relative paths, so the library needs a handful of verified operations on
//! such strings: locating separators, taking the file name of a path, taking
//! the stem (file name without its extension), and the parent path.

use vstd::prelude::*;

verus! {

/// Index of the last occurrence of `c` in `s`, or -1 when `c` is absent.
pub open spec fn last_index_of(s: Seq<char>, c: char) -> int
    decreases s.len(),
{
    if s.len() == 0 {
        -1
    } else if s[s.len() - 1] == c {
        s.len() - 1
    } else {
        last_index_of(s.drop_last(), c)
    }
}

pub proof fn lemma_last_index_of(s: Seq<char>, c: char)
    ensures
        -1 <= last_index_of(s, c) < s.len(),
        last_index_of(s, c) >= 0 ==> s[last_index_of(s, c)] == c,
        last_index_of(s, c) == -1 ==> forall|i: int| 0 <= i < s.len() ==> s[i] != c,
        forall|i: int| last_index_of(s, c) < i < s.len() ==> s[i] != c,
    decreases s.len(),
{
    if s.len() > 0 && s[s.len() - 1] != c {
        lemma_last_index_of(s.drop_last(), c);
        let t = s.drop_last();
        assert forall|i: int| last_index_of(s, c) < i < s.len() implies s[i] != c by {
            if i < s.len() - 1 {
                assert(t[i] == s[i]);
                assert(t[i] != c);
            }
        }
    }
}

/// `last_index_of` looks only at the elements, so it agrees on a prefix
/// extended by one more character.
pub proof fn lemma_last_index_of_push(s: Seq<char>, i: int, c: char)
    requires
        0 <= i < s.len(),
    ensures
        last_index_of(s.take(i + 1), c) == if s[i] == c {
            i
        } else {
            last_index_of(s.take(i), c)
        },
{
    let t = s.take(i + 1);
    assert(t[t.len() - 1] == s[i]);
    if s[i] != c {
        assert(t.drop_last() =~= s.take(i));
    }
}

/// Position just after the last `/` of `s`; 0 when `s` has no separator.
pub open spec fn file_name_start(s: Seq<char>) -> int {
    last_index_of(s, '/') + 1
}

/// The file-name component of a path: everything after the last `/`.
pub open spec fn file_name_view(s: Seq<char>) -> Seq<char> {
    s.subrange(file_name_start(s), s.len() as int)
}

/// The stem of a path: its file name up to (not including) the last `.`;
/// the whole file name when it has no `.`.
pub open spec fn stem_view(s: Seq<char>) -> Seq<char> {
    let f = file_name_view(s);
    if last_index_of(f, '.') >= 0 {
        f.subrange(0, last_index_of(f, '.'))
    } else {
        f
    }
}

/// The view of `s` with every backslash replaced by a forward slash.
pub open spec fn normalized_view(s: Seq<char>) -> Seq<char> {
    s.map_values(|c: char| if c == '\\' { '/' } else { c })
}

/// `p` made relative to `root`: when `p` lies strictly below `root`, the
/// part after `root/`; otherwise `p` unchanged.
pub open spec fn relative_view(p: Seq<char>, root: Seq<char>) -> Seq<char> {
    if root.len() > 0 && p.len() > root.len() && p.subrange(0, root.len() as int) == root && p[root.len() as int] == '/' {
        p.subrange(root.len() as int + 1, p.len() as int)
    } else {
        p
    }
}

/// Replaces platform backslash separators with forward slashes.
pub fn normalize_slashes(s: &str) -> (r: String)
    ensures
        r@ == normalized_view(s@),
{
    let n: usize = s.unicode_len();
    let mut out = String::new();
    let mut i: usize = 0;
    while i < n
        invariant
            i <= n,
            n == s@.len(),
            out@ == normalized_view(s@).take(i as int),
        decreases n - i,
    {
        let c = s.get_char(i);
        if c == '\\' {
            out.append("/");
            proof {
                reveal_strlit("/");
            }
        } else {
            let piece = s.substring_char(i, i + 1);
            out.append(piece);
        }
        proof {
            assert(normalized_view(s@).take(i + 1) =~= normalized_view(s@).take(i as int).push(
                if s@[i as int] == '\\' {
                    '/'
                } else {
                    s@[i as int]
                },
            ));
        }
        i = i + 1;
    }
    proof {
        assert(normalized_view(s@).take(n as int) =~= normalized_view(s@));
    }
    out
}

/// Compares two string slices character for character.
pub fn str_eq(a: &str, b: &str) -> (r: bool)
    ensures
        r == (a@ == b@),
{
    let n: usize = a.unicode_len();
    let m: usize = b.unicode_len();
    if n != m {
        return false;
    }
    let mut i: usize = 0;
    while i < n
        invariant
            i <= n,
            n == a@.len(),
            n == b@.len(),
            forall|j: int| 0 <= j < i ==> a@[j] == b@[j],
        decreases n - i,
    {
        if a.get_char(i) != b.get_char(i) {
            return false;
        }
        i = i + 1;
    }
    proof {
        assert(a@ =~= b@);
    }
    true
}

/// Lexicographic order on character sequences, by code point, with a
/// proper prefix ordered first.
pub open spec fn str_lt_view(a: Seq<char>, b: Seq<char>) -> bool
    decreases a.len(),
{
    if b.len() == 0 {
        false
    } else if a.len() == 0 {
        true
    } else if (a[0] as u32) < (b[0] as u32) {
        true
    } else if (a[0] as u32) > (b[0] as u32) {
        false
    } else {
        str_lt_view(a.skip(1), b.skip(1))
    }
}

/// Nothing precedes itself in the lexicographic order.
pub proof fn lemma_str_lt_irrefl(a: Seq<char>)
    ensures
        !str_lt_view(a, a),
    decreases a.len(),
{
    if a.len() > 0 {
        lemma_str_lt_irrefl(a.skip(1));
    }
}

/// The lexicographic order is transitive.
pub proof fn lemma_str_lt_trans(a: Seq<char>, b: Seq<char>, c: Seq<char>)
    requires
        str_lt_view(a, b),
        str_lt_view(b, c),
    ensures
        str_lt_view(a, c),
    decreases a.len(),
{
    if a.len() == 0 {
    } else {
        if (a[0] as u32) < (b[0] as u32) {
        } else {
            if (b[0] as u32) < (c[0] as u32) {
            } else {
                lemma_str_lt_trans(a.skip(1), b.skip(1), c.skip(1));
            }
        }
    }
}

/// Compares two strings lexicographically by code point.
pub fn str_lt(a: &str, b: &str) -> (r: bool)
    ensures
        r == str_lt_view(a@, b@),
{
    let n: usize = a.unicode_len();
    let m: usize = b.unicode_len();
    let mut i: usize = 0;
    proof {
        assert(a@.skip(0) =~= a@);
        assert(b@.skip(0) =~= b@);
    }
    while i < n && i < m
        invariant
            i <= n,
            i <= m,
            n == a@.len(),
            m == b@.len(),
            str_lt_view(a@, b@) == str_lt_view(a@.skip(i as int), b@.skip(i as int)),
        decreases n - i,
    {
        let ca = a.get_char(i) as u32;
        let cb = b.get_char(i) as u32;
        if ca < cb {
            return true;
        }
        if ca > cb {
            return false;
        }
        proof {
            assert(a@.skip(i as int).skip(1) =~= a@.skip(i + 1));
            assert(b@.skip(i as int).skip(1) =~= b@.skip(i + 1));
        }
        i = i + 1;
    }
    i < m
}

/// Whether `s` holds a string whose characters are `x`.
pub open spec fn holds_string(s: Seq<String>, x: Seq<char>) -> bool {
    exists|i: int| 0 <= i < s.len() && s[i]@ == x
}

/// Sorts strings lexicographically by code point: the result is sorted,
/// has the same length, and holds exactly the character sequences of the
/// input.
pub fn sort_strings(v: Vec<String>) -> (r: Vec<String>)
    ensures
        r@.len() == v@.len(),
        forall|i: int, j: int| 0 <= i < j < r@.len() ==> !str_lt_view(r@[j]@, r@[i]@),
        forall|x: Seq<char>|
            #![trigger holds_string(r@, x)]
            #![trigger holds_string(v@, x)]
            holds_string(r@, x) <==> holds_string(v@, x),
{
    let ghost input0 = v@;
    let mut remaining = v;
    let mut out: Vec<String> = Vec::new();
    while remaining.len() > 0
        invariant
            out@.len() + remaining@.len() == input0.len(),
            // the placed prefix is sorted
            forall|i: int, j: int| 0 <= i < j < out@.len() ==> !str_lt_view(out@[j]@, out@[i]@),
            // nothing still pending precedes anything placed
            forall|i: int, t: int|
                0 <= i < out@.len() && 0 <= t < remaining@.len() ==> !str_lt_view(
                    remaining@[t]@,
                    out@[i]@,
                ),
            // the input's strings are exactly the placed and pending ones
            forall|x: Seq<char>|
                #![trigger holds_string(input0, x)]
                holds_string(input0, x) <==> (holds_string(out@, x) || holds_string(remaining@, x)),
        decreases remaining@.len(),
    {
        let mut best: usize = 0;
        proof {
            lemma_str_lt_irrefl(remaining@[0]@);
        }
        let mut k: usize = 1;
        while k < remaining.len()
            invariant
                k <= remaining@.len(),
                best < remaining@.len(),
                remaining@.len() > 0,
                forall|t: int| 0 <= t < k ==> !str_lt_view(remaining@[t]@, remaining@[best as int]@),
            decreases remaining@.len() - k,
        {
            if str_lt(remaining[k].as_str(), remaining[best].as_str()) {
                let ghost old_best = best as int;
                best = k;
                proof {
                    assert forall|t: int| 0 <= t < k + 1 implies !str_lt_view(
                        remaining@[t]@,
                        remaining@[best as int]@,
                    ) by {
                        if t < k && str_lt_view(remaining@[t]@, remaining@[best as int]@) {
                            lemma_str_lt_trans(
                                remaining@[t]@,
                                remaining@[best as int]@,
                                remaining@[old_best]@,
                            );
                        }
                        if t == k {
                            lemma_str_lt_irrefl(remaining@[t]@);
                        }
                    }
                }
            }
            k = k + 1;
        }
        let ghost rem0 = remaining@;
        let ghost out0 = out@;
        let chosen = remaining.remove(best);
        out.push(chosen);
        proof {
            assert(out@.last()@ == rem0[best as int]@);
            assert forall|i: int, t: int|
                0 <= i < out@.len() && 0 <= t < remaining@.len() implies !str_lt_view(
                remaining@[t]@,
                out@[i]@,
            ) by {
                let t0: int = if t < best {
                    t
                } else {
                    t + 1
                };
                assert(remaining@[t] == rem0[t0]);
                if i < out@.len() - 1 {
                    assert(out@[i] == out0[i]);
                }
            }
            assert forall|i: int, j: int| 0 <= i < j < out@.len() implies !str_lt_view(
                out@[j]@,
                out@[i]@,
            ) by {
                if j < out@.len() - 1 {
                    assert(out@[i] == out0[i] && out@[j] == out0[j]);
                } else if i < out@.len() - 1 {
                    assert(out@[i] == out0[i]);
                }
            }
            assert forall|x: Seq<char>|
                #![trigger holds_string(input0, x)]
                holds_string(input0, x) <==> (holds_string(out@, x) || holds_string(
                remaining@,
                x,
            )) by {
                if holds_string(input0, x) {
                    if holds_string(rem0, x) {
                        let t = choose|t: int| 0 <= t < rem0.len() && rem0[t]@ == x;
                        if t == best {
                            assert(out@.last()@ == x);
                        } else if t < best {
                            assert(remaining@[t]@ == x);
                        } else {
                            assert(remaining@[t - 1]@ == x);
                        }
                    } else {
                        let i = choose|i: int| 0 <= i < out0.len() && out0[i]@ == x;
                        assert(out@[i]@ == x);
                    }
                }
                if holds_string(out@, x) {
                    let i = choose|i: int| 0 <= i < out@.len() && out@[i]@ == x;
                    if i < out@.len() - 1 {
                        assert(out0[i]@ == x);
                    } else {
                        assert(rem0[best as int]@ == x);
                    }
                }
                if holds_string(remaining@, x) {
                    let t = choose|t: int| 0 <= t < remaining@.len() && remaining@[t]@ == x;
                    if t < best {
                        assert(rem0[t]@ == x);
                    } else {
                        assert(rem0[t + 1]@ == x);
                    }
                }
            }
        }
    }
    out
}

/// Whether `s` starts with the prefix `p`, character for character.
pub fn starts_with_str(s: &str, p: &str) -> (r: bool)
    ensures
        r == (s@.len() >= p@.len() && s@.subrange(0, p@.len() as int) =~= p@),
{
    let n: usize = s.unicode_len();
    let m: usize = p.unicode_len();
    if m > n {
        return false;
    }
    let mut i: usize = 0;
    while i < m
        invariant
            i <= m <= n,
            n == s@.len(),
            m == p@.len(),
            forall|j: int| 0 <= j < i ==> s@[j] == p@[j],
        decreases m - i,
    {
        if s.get_char(i) != p.get_char(i) {
            return false;
        }
        i = i + 1;
    }
    proof {
        assert(s@.subrange(0, m as int) =~= p@);
    }
    true
}

/// Finds the index of the last occurrence of `c` in `s`.
pub fn rfind_char(s: &str, c: char) -> (r: Option<usize>)
    ensures
        match r {
            Some(i) => i == last_index_of(s@, c) && i < s@.len(),
            None => last_index_of(s@, c) == -1,
        },
{
    let n: usize = s.unicode_len();
    let mut i: usize = 0;
    let mut best: Option<usize> = None;
    while i < n
        invariant
            i <= n,
            n == s@.len(),
            match best {
                Some(b) => b == last_index_of(s@.take(i as int), c) && b < i,
                None => last_index_of(s@.take(i as int), c) == -1,
            },
        decreases n - i,
    {
        let ch = s.get_char(i);
        proof {
            lemma_last_index_of_push(s@, i as int, c);
        }
        if ch == c {
            best = Some(i);
        }
        i = i + 1;
    }
    proof {
        assert(s@.take(n as int) =~= s@);
    }
    best
}

/// Copies the character range `[from, to)` of `s` into an owned string.
pub fn substring_owned(s: &str, from: usize, to: usize) -> (r: String)
    requires
        from <= to <= s@.len(),
    ensures
        r@ == s@.subrange(from as int, to as int),
{
    let sub = s.substring_char(from, to);
    sub.to_owned()
}

/// The file-name component of `path`: everything after the last `/`.
pub fn file_name_of(path: &str) -> (r: String)
    ensures
        r@ == file_name_view(path@),
{
    let n: usize = path.unicode_len();
    match rfind_char(path, '/') {
        Some(i) => substring_owned(path, i + 1, n),
        None => substring_owned(path, 0, n),
    }
}

/// The stem of `path`: its file name without the trailing extension.
pub fn stem_of(path: &str) -> (r: String)
    ensures
        r@ == stem_view(path@),
{
    let name = file_name_of(path);
    let len: usize = name.as_str().unicode_len();
    match rfind_char(name.as_str(), '.') {
        Some(i) => substring_owned(name.as_str(), 0, i),
        None => {
            proof {
                assert(name@.subrange(0, len as int) =~= name@);
            }
            substring_owned(name.as_str(), 0, len)
        },
    }
}

} // verus!
