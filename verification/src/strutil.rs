//! Verified character-level string utilities shared by the manifest, lock
//! file, toolchain and dependency components.

use vstd::prelude::*;

verus! {

/// Character-for-character equality of two string slices.
pub fn str_eq(a: &str, b: &str) -> (r: bool)
    ensures
        r == (a@ == b@),
{
    let alen = a.unicode_len();
    let blen = b.unicode_len();
    if alen != blen {
        return false;
    }
    let mut i: usize = 0;
    while i < alen
        invariant
            alen == a@.len(),
            blen == b@.len(),
            alen == blen,
            i <= alen,
            forall|j: int| 0 <= j < i ==> a@[j] == b@[j],
        decreases alen - i,
    {
        if a.get_char(i) != b.get_char(i) {
            return false;
        }
        i += 1;
    }
    proof {
        assert(a@ =~= b@);
    }
    true
}

/// `pre` is a prefix of `s`.
pub open spec fn starts_with_spec(s: Seq<char>, pre: Seq<char>) -> bool {
    pre.len() <= s.len() && s.take(pre.len() as int) == pre
}

pub fn str_starts_with(s: &str, pre: &str) -> (r: bool)
    ensures
        r == starts_with_spec(s@, pre@),
{
    let slen = s.unicode_len();
    let plen = pre.unicode_len();
    if plen > slen {
        return false;
    }
    let mut i: usize = 0;
    while i < plen
        invariant
            slen == s@.len(),
            plen == pre@.len(),
            plen <= slen,
            i <= plen,
            forall|j: int| 0 <= j < i ==> s@[j] == pre@[j],
        decreases plen - i,
    {
        if s.get_char(i) != pre.get_char(i) {
            assert(s@.take(plen as int)[i as int] != pre@[i as int]);
            return false;
        }
        i += 1;
    }
    proof {
        assert(s@.take(plen as int) =~= pre@);
    }
    true
}

/// `suf` is a suffix of `s`.
pub open spec fn ends_with_spec(s: Seq<char>, suf: Seq<char>) -> bool {
    suf.len() <= s.len() && s.skip(s.len() - suf.len()) == suf
}

pub fn str_ends_with(s: &str, suf: &str) -> (r: bool)
    ensures
        r == ends_with_spec(s@, suf@),
{
    let slen = s.unicode_len();
    let flen = suf.unicode_len();
    if flen > slen {
        return false;
    }
    let off: usize = slen - flen;
    let mut i: usize = 0;
    while i < flen
        invariant
            slen == s@.len(),
            flen == suf@.len(),
            flen <= slen,
            off == slen - flen,
            i <= flen,
            forall|j: int| 0 <= j < i ==> s@[off + j] == suf@[j],
        decreases flen - i,
    {
        if s.get_char(off + i) != suf.get_char(i) {
            assert(s@.skip(off as int)[i as int] != suf@[i as int]);
            return false;
        }
        i += 1;
    }
    proof {
        assert(s@.skip(off as int) =~= suf@);
    }
    true
}

/// First position at or after `from` holding character `c`, if any.
pub fn find_char_from(s: &str, from: usize, c: char) -> (r: Option<usize>)
    requires
        from <= s@.len(),
    ensures
        match r {
            Some(i) => from <= i < s@.len() && s@[i as int] == c && (forall|j: int|
                from <= j < i ==> s@[j] != c),
            None => forall|j: int| from <= j < s@.len() ==> s@[j] != c,
        },
{
    let slen = s.unicode_len();
    let mut i: usize = from;
    while i < slen
        invariant
            slen == s@.len(),
            from <= i <= slen,
            forall|j: int| from <= j < i ==> s@[j] != c,
        decreases slen - i,
    {
        if s.get_char(i) == c {
            return Some(i);
        }
        i += 1;
    }
    None
}

/// Last position holding character `c`, if any.
pub fn rfind_char(s: &str, c: char) -> (r: Option<usize>)
    ensures
        match r {
            Some(i) => i < s@.len() && s@[i as int] == c && (forall|j: int|
                i < j < s@.len() ==> s@[j] != c),
            None => forall|j: int| 0 <= j < s@.len() ==> s@[j] != c,
        },
{
    let slen = s.unicode_len();
    let mut i: usize = slen;
    while i > 0
        invariant
            slen == s@.len(),
            i <= slen,
            forall|j: int| i <= j < slen ==> s@[j] != c,
        decreases i,
    {
        i -= 1;
        if s.get_char(i) == c {
            return Some(i);
        }
    }
    None
}

/// The lower-case code of an ASCII letter; any other character code unchanged.
pub open spec fn lower_code(c: char) -> int {
    let u = (c as u32) as int;
    if 65 <= u <= 90 {
        u + 32
    } else {
        u
    }
}

/// Equality of two character sequences up to ASCII case.
pub open spec fn eq_ignore_ascii_case_spec(a: Seq<char>, b: Seq<char>) -> bool {
    a.len() == b.len() && (forall|i: int| 0 <= i < a.len() ==> lower_code(a[i]) == lower_code(b[i]))
}

pub fn str_eq_ignore_ascii_case(a: &str, b: &str) -> (r: bool)
    ensures
        r == eq_ignore_ascii_case_spec(a@, b@),
{
    let alen = a.unicode_len();
    let blen = b.unicode_len();
    if alen != blen {
        return false;
    }
    let mut i: usize = 0;
    while i < alen
        invariant
            alen == a@.len(),
            blen == b@.len(),
            alen == blen,
            i <= alen,
            forall|j: int| 0 <= j < i ==> lower_code(a@[j]) == lower_code(b@[j]),
        decreases alen - i,
    {
        let ca = a.get_char(i) as u32;
        let cb = b.get_char(i) as u32;
        let la = if 65 <= ca && ca <= 90 {
            ca + 32
        } else {
            ca
        };
        let lb = if 65 <= cb && cb <= 90 {
            cb + 32
        } else {
            cb
        };
        if la != lb {
            return false;
        }
        i += 1;
    }
    true
}

/// `pat` occurs in `s` starting at position `i`.
pub open spec fn contains_at(s: Seq<char>, pat: Seq<char>, i: int) -> bool {
    0 <= i && i + pat.len() <= s.len() && s.subrange(i, i + pat.len()) == pat
}

/// `pat` occurs somewhere in `s`.
pub open spec fn contains_spec(s: Seq<char>, pat: Seq<char>) -> bool {
    exists|i: int| contains_at(s, pat, i)
}

/// Whether `pat` occurs in `s` at position `at`.
fn match_at(s: &str, pat: &str, at: usize) -> (r: bool)
    requires
        at + pat@.len() <= s@.len(),
    ensures
        r == contains_at(s@, pat@, at as int),
{
    let slen = s.unicode_len();
    let plen = pat.unicode_len();
    let mut i: usize = 0;
    while i < plen
        invariant
            slen == s@.len(),
            plen == pat@.len(),
            at + plen <= s@.len(),
            i <= plen,
            forall|j: int| 0 <= j < i ==> s@[at + j] == pat@[j],
        decreases plen - i,
    {
        if s.get_char(at + i) != pat.get_char(i) {
            assert(s@.subrange(at as int, at + plen)[i as int] != pat@[i as int]);
            return false;
        }
        i += 1;
    }
    proof {
        assert(s@.subrange(at as int, at + plen) =~= pat@);
    }
    true
}

/// Whether `pat` occurs anywhere in `s`.
pub fn str_contains(s: &str, pat: &str) -> (r: bool)
    ensures
        r == contains_spec(s@, pat@),
{
    match find_substr_from(s, 0, pat) {
        Some(i) => {
            assert(contains_at(s@, pat@, i as int));
            true
        },
        None => {
            assert(forall|i: int| contains_at(s@, pat@, i) ==> 0 <= i <= s@.len() - pat@.len());
            false
        },
    }
}

/// First position at or after `from` where `pat` occurs in `s`, if any.
pub fn find_substr_from(s: &str, from: usize, pat: &str) -> (r: Option<usize>)
    requires
        from <= s@.len(),
    ensures
        match r {
            Some(i) => from <= i && contains_at(s@, pat@, i as int) && (forall|j: int|
                from <= j < i ==> !contains_at(s@, pat@, j)),
            None => forall|j: int| j >= from ==> !contains_at(s@, pat@, j),
        },
{
    let slen = s.unicode_len();
    let plen = pat.unicode_len();
    if plen == 0 {
        assert(s@.subrange(from as int, from as int) =~= pat@);
        return Some(from);
    }
    if plen > slen || from > slen - plen {
        assert(forall|j: int| j >= from ==> !contains_at(s@, pat@, j));
        return None;
    }
    let last: usize = slen - plen;
    let mut i: usize = from;
    while i <= last
        invariant
            slen == s@.len(),
            plen == pat@.len(),
            0 < plen <= slen,
            last == slen - plen,
            from <= i <= last + 1,
            forall|j: int| from <= j < i ==> !contains_at(s@, pat@, j),
        decreases last + 1 - i,
    {
        if match_at(s, pat, i) {
            return Some(i);
        }
        i += 1;
    }
    assert(forall|j: int| j >= from ==> !contains_at(s@, pat@, j));
    None
}

/// Index of the last occurrence of `c`, if any.
pub open spec fn spec_rfind_char(s: Seq<char>, c: char) -> Option<int>
    decreases s.len(),
{
    if s.len() == 0 {
        None
    } else if s.last() == c {
        Some(s.len() - 1)
    } else {
        spec_rfind_char(s.drop_last(), c)
    }
}

pub proof fn lemma_rfind_char_spec(s: Seq<char>, c: char)
    ensures
        match spec_rfind_char(s, c) {
            Some(i) => 0 <= i < s.len() && s[i] == c && (forall|j: int|
                i < j < s.len() ==> s[j] != c),
            None => forall|j: int| 0 <= j < s.len() ==> s[j] != c,
        },
    decreases s.len(),
{
    if s.len() == 0 {
    } else if s.last() == c {
    } else {
        let d = s.drop_last();
        lemma_rfind_char_spec(d, c);
        assert(forall|j: int| 0 <= j < d.len() ==> #[trigger] d[j] == s[j]);
        match spec_rfind_char(d, c) {
            Some(i) => {
                assert(s[i] == d[i]);
                assert forall|j: int| i < j < s.len() implies s[j] != c by {
                    if j < s.len() - 1 {
                        assert(d[j] != c);
                    } else {
                        assert(s[j] == s.last());
                    }
                }
            },
            None => {
                assert forall|j: int| 0 <= j < s.len() implies s[j] != c by {
                    if j < s.len() - 1 {
                        assert(d[j] != c);
                    } else {
                        assert(s[j] == s.last());
                    }
                }
            },
        }
    }
}

pub proof fn lemma_rfind_char_exact(s: Seq<char>, c: char, i: int)
    requires
        0 <= i < s.len(),
        s[i] == c,
        forall|j: int| i < j < s.len() ==> s[j] != c,
    ensures
        spec_rfind_char(s, c) == Some(i),
{
    lemma_rfind_char_spec(s, c);
    match spec_rfind_char(s, c) {
        None => {
            assert(s[i] != c);
        },
        Some(k) => {
            if k < i {
                assert(s[i] != c);
            } else if k > i {
                assert(s[k] != c);
            }
        },
    }
}

pub proof fn lemma_rfind_char_none(s: Seq<char>, c: char)
    requires
        forall|j: int| 0 <= j < s.len() ==> s[j] != c,
    ensures
        spec_rfind_char(s, c) is None,
{
    lemma_rfind_char_spec(s, c);
    match spec_rfind_char(s, c) {
        None => {},
        Some(k) => {
            assert(s[k] != c);
        },
    }
}

/// The part of `s` after its last `/`, or all of `s` when it has none.
pub open spec fn spec_last_segment(s: Seq<char>) -> Seq<char> {
    match spec_rfind_char(s, '/') {
        Some(i) => s.skip(i + 1),
        None => s,
    }
}

/// The part of `s` after its last `/`, or all of `s`.
pub fn last_segment(s: &str) -> (r: String)
    ensures
        r@ == spec_last_segment(s@),
{
    let slen = s.unicode_len();
    match rfind_char(s, '/') {
        Some(i) => {
            proof {
                lemma_rfind_char_exact(s@, '/', i as int);
            }
            String::from_str(s.substring_char(i + 1, slen))
        },
        None => {
            proof {
                lemma_rfind_char_none(s@, '/');
            }
            String::from_str(s)
        },
    }
}

/// How many times `c` occurs in `s`.
pub open spec fn spec_count_char(s: Seq<char>, c: char) -> int
    decreases s.len(),
{
    if s.len() == 0 {
        0
    } else {
        spec_count_char(s.drop_last(), c) + if s.last() == c {
            1int
        } else {
            0int
        }
    }
}

pub fn count_char(s: &str, c: char) -> (r: usize)
    ensures
        r == spec_count_char(s@, c),
{
    let n = s.unicode_len();
    let mut cnt: usize = 0;
    proof {
        assert(s@.take(0) =~= Seq::<char>::empty());
    }
    let mut i: usize = 0;
    while i < n
        invariant
            n == s@.len(),
            i <= n,
            cnt <= i,
            cnt == spec_count_char(s@.take(i as int), c),
        decreases n - i,
    {
        proof {
            assert(s@.take(i as int + 1).drop_last() =~= s@.take(i as int));
            assert(s@.take(i as int + 1).last() == s@[i as int]);
        }
        if s.get_char(i) == c {
            cnt += 1;
        }
        i += 1;
    }
    proof {
        assert(s@.take(n as int) =~= s@);
    }
    cnt
}

/// Index of the first occurrence of `pat`, if any.
pub open spec fn spec_find_sub(s: Seq<char>, pat: Seq<char>) -> Option<int>
    decreases s.len(),
{
    if pat.len() == 0 {
        Some(0)
    } else if s.len() < pat.len() {
        None
    } else if s.take(pat.len() as int) == pat {
        Some(0)
    } else {
        match spec_find_sub(s.drop_first(), pat) {
            Some(i) => Some(i + 1),
            None => None,
        }
    }
}

proof fn lemma_contains_at_shift(s: Seq<char>, pat: Seq<char>, pos: int, k: int)
    requires
        0 <= pos <= s.len(),
        0 <= k,
    ensures
        contains_at(s.skip(pos), pat, k) == contains_at(s, pat, pos + k),
{
    if k + pat.len() <= s.len() - pos {
        assert(s.skip(pos).subrange(k, k + pat.len()) =~= s.subrange(pos + k, pos + k + pat.len()));
    }
}

pub proof fn lemma_find_sub_spec(s: Seq<char>, pat: Seq<char>)
    requires
        pat.len() > 0,
    ensures
        match spec_find_sub(s, pat) {
            Some(i) => contains_at(s, pat, i) && (forall|j: int| 0 <= j < i ==> !contains_at(s, pat, j)),
            None => forall|j: int| !contains_at(s, pat, j),
        },
    decreases s.len(),
{
    if s.len() < pat.len() {
        assert(forall|j: int| contains_at(s, pat, j) ==> j + pat.len() <= s.len());
    } else if s.take(pat.len() as int) == pat {
        assert(s.subrange(0, pat.len() as int) =~= s.take(pat.len() as int));
        assert(contains_at(s, pat, 0));
    } else {
        lemma_find_sub_spec(s.drop_first(), pat);
        assert(s.drop_first() =~= s.skip(1));
        assert forall|j: int| 0 <= j implies contains_at(s.skip(1), pat, j) == contains_at(
            s,
            pat,
            j + 1,
        ) by {
            lemma_contains_at_shift(s, pat, 1, j);
        }
        assert(!contains_at(s, pat, 0)) by {
            if contains_at(s, pat, 0) {
                assert(s.subrange(0, pat.len() as int) =~= s.take(pat.len() as int));
            }
        }
        match spec_find_sub(s.drop_first(), pat) {
            Some(i) => {
                assert(contains_at(s, pat, i + 1));
                assert forall|j: int| 0 <= j < i + 1 implies !contains_at(s, pat, j) by {
                    if j > 0 {
                        assert(!contains_at(s.skip(1), pat, j - 1));
                    }
                }
            },
            None => {
                assert forall|j: int| 0 <= j implies !contains_at(s, pat, j) by {
                    if j > 0 {
                        assert(!contains_at(s.skip(1), pat, j - 1));
                    }
                }
                assert(forall|j: int| j < 0 ==> !contains_at(s, pat, j));
            },
        }
    }
}

pub proof fn lemma_find_sub_exact(s: Seq<char>, pat: Seq<char>, i: int)
    requires
        pat.len() > 0,
        contains_at(s, pat, i),
        forall|j: int| 0 <= j < i ==> !contains_at(s, pat, j),
    ensures
        spec_find_sub(s, pat) == Some(i),
{
    lemma_find_sub_spec(s, pat);
    match spec_find_sub(s, pat) {
        None => {
            assert(!contains_at(s, pat, i));
        },
        Some(k) => {
            if k < i {
                assert(!contains_at(s, pat, k));
            } else if k > i {
                assert(!contains_at(s, pat, i));
            }
        },
    }
}

pub proof fn lemma_find_sub_none(s: Seq<char>, pat: Seq<char>)
    requires
        pat.len() > 0,
        forall|j: int| !contains_at(s, pat, j),
    ensures
        spec_find_sub(s, pat) is None,
{
    lemma_find_sub_spec(s, pat);
    match spec_find_sub(s, pat) {
        None => {},
        Some(k) => {
            assert(!contains_at(s, pat, k));
        },
    }
}

/// `s` with every occurrence of `pat` removed, scanning left to right.
pub open spec fn spec_remove_all(s: Seq<char>, pat: Seq<char>) -> Seq<char>
    decreases s.len(),
{
    if pat.len() == 0 {
        s
    } else {
        match spec_find_sub(s, pat) {
            None => s,
            Some(i) => if 0 <= i && i + pat.len() <= s.len() {
                s.take(i) + spec_remove_all(s.skip(i + pat.len()), pat)
            } else {
                s
            },
        }
    }
}

/// `s` with every occurrence of `pat` removed.
pub fn remove_all(s: &str, pat: &str) -> (r: String)
    requires
        pat@.len() > 0,
    ensures
        r@ == spec_remove_all(s@, pat@),
{
    let slen = s.unicode_len();
    let plen = pat.unicode_len();
    let mut out = String::new();
    let mut pos: usize = 0;
    proof {
        assert(s@.skip(0) =~= s@);
    }
    while pos < slen
        invariant
            slen == s@.len(),
            plen == pat@.len(),
            plen > 0,
            pos <= slen,
            out@ + spec_remove_all(s@.skip(pos as int), pat@) == spec_remove_all(s@, pat@),
        decreases slen - pos,
    {
        let ghost tail = s@.skip(pos as int);
        match find_substr_from(s, pos, pat) {
            Some(i) => {
                proof {
                    lemma_contains_at_shift(s@, pat@, pos as int, i - pos);
                    assert forall|j: int| 0 <= j < i - pos implies !contains_at(
                        tail,
                        pat@,
                        j,
                    ) by {
                        lemma_contains_at_shift(s@, pat@, pos as int, j);
                    }
                    lemma_find_sub_exact(tail, pat@, i - pos);
                    assert(tail.take(i - pos) =~= s@.subrange(pos as int, i as int));
                    assert(tail.skip(i - pos + plen) =~= s@.skip(i as int + plen));
                }
                let chunk = s.substring_char(pos, i);
                out.append(chunk);
                pos = i + plen;
            },
            None => {
                proof {
                    assert forall|j: int| !contains_at(tail, pat@, j) by {
                        if 0 <= j {
                            lemma_contains_at_shift(s@, pat@, pos as int, j);
                        } else {
                            assert(!contains_at(tail, pat@, j));
                        }
                    }
                    lemma_find_sub_none(tail, pat@);
                    assert(tail =~= s@.subrange(pos as int, slen as int));
                }
                let chunk = s.substring_char(pos, slen);
                out.append(chunk);
                return out;
            },
        }
    }
    proof {
        assert(s@.skip(slen as int) =~= Seq::<char>::empty());
        assert(spec_remove_all(Seq::<char>::empty(), pat@) == Seq::<char>::empty());
        assert(out@ + Seq::<char>::empty() =~= out@);
    }
    out
}

/// Three-way lexicographic comparison by character code: negative, zero or
/// positive as `a` sorts before, equal to, or after `b`.
pub open spec fn lex_cmp(a: Seq<char>, b: Seq<char>) -> int
    decreases a.len(),
{
    if a.len() == 0 && b.len() == 0 {
        0
    } else if a.len() == 0 {
        -1
    } else if b.len() == 0 {
        1
    } else if (a[0] as u32) < (b[0] as u32) {
        -1
    } else if (a[0] as u32) > (b[0] as u32) {
        1
    } else {
        lex_cmp(a.drop_first(), b.drop_first())
    }
}

proof fn lemma_char_code_injective(c1: char, c2: char)
    requires
        (c1 as u32) == (c2 as u32),
    ensures
        c1 == c2,
{
    assert(((c1 as u32) as char) == c1);
    assert(((c2 as u32) as char) == c2);
}

proof fn lemma_lex_cmp_refl(a: Seq<char>)
    ensures
        lex_cmp(a, a) == 0,
    decreases a.len(),
{
    if a.len() > 0 {
        lemma_lex_cmp_refl(a.drop_first());
    }
}

proof fn lemma_lex_cmp_zero(a: Seq<char>, b: Seq<char>)
    requires
        lex_cmp(a, b) == 0,
    ensures
        a == b,
    decreases a.len(),
{
    if a.len() == 0 && b.len() == 0 {
        assert(a =~= b);
    } else {
        assert(a.len() > 0 && b.len() > 0);
        assert((a[0] as u32) == (b[0] as u32));
        lemma_char_code_injective(a[0], b[0]);
        lemma_lex_cmp_zero(a.drop_first(), b.drop_first());
        assert(a =~= seq![a[0]] + a.drop_first());
        assert(b =~= seq![b[0]] + b.drop_first());
    }
}

/// The comparison is zero exactly on equal sequences.
pub proof fn lemma_lex_cmp_eq(a: Seq<char>, b: Seq<char>)
    ensures
        (lex_cmp(a, b) == 0) == (a == b),
{
    if lex_cmp(a, b) == 0 {
        lemma_lex_cmp_zero(a, b);
    }
    if a == b {
        lemma_lex_cmp_refl(a);
    }
}

/// Swapping the arguments negates the comparison.
pub proof fn lemma_lex_cmp_antisym(a: Seq<char>, b: Seq<char>)
    ensures
        lex_cmp(a, b) == -lex_cmp(b, a),
    decreases a.len(),
{
    if a.len() > 0 && b.len() > 0 && (a[0] as u32) == (b[0] as u32) {
        lemma_lex_cmp_antisym(a.drop_first(), b.drop_first());
    }
}

/// The strict order is transitive.
pub proof fn lemma_lex_cmp_trans(a: Seq<char>, b: Seq<char>, c: Seq<char>)
    requires
        lex_cmp(a, b) < 0,
        lex_cmp(b, c) < 0,
    ensures
        lex_cmp(a, c) < 0,
    decreases a.len(),
{
    if a.len() == 0 {
        if c.len() == 0 {
            assert(b.len() > 0);
        }
    } else {
        assert(b.len() > 0);
        assert(c.len() > 0);
        if (a[0] as u32) == (b[0] as u32) && (b[0] as u32) == (c[0] as u32) {
            lemma_lex_cmp_trans(a.drop_first(), b.drop_first(), c.drop_first());
        }
    }
}

/// Equal prefixes do not decide the comparison.
proof fn lemma_lex_cmp_skip(a: Seq<char>, b: Seq<char>, i: int)
    requires
        0 <= i <= a.len(),
        i <= b.len(),
        forall|j: int| 0 <= j < i ==> a[j] == b[j],
    ensures
        lex_cmp(a, b) == lex_cmp(a.skip(i), b.skip(i)),
    decreases i,
{
    if i > 0 {
        assert(a.len() > 0 && b.len() > 0);
        assert(a[0] == b[0]);
        assert(a.drop_first() =~= a.skip(1));
        assert(b.drop_first() =~= b.skip(1));
        assert(forall|j: int| 0 <= j < i - 1 ==> #[trigger] a.skip(1)[j] == b.skip(1)[j]);
        lemma_lex_cmp_skip(a.skip(1), b.skip(1), i - 1);
        assert(a.skip(1).skip(i - 1) =~= a.skip(i));
        assert(b.skip(1).skip(i - 1) =~= b.skip(i));
    } else {
        assert(a.skip(0) =~= a);
        assert(b.skip(0) =~= b);
    }
}

/// Three-way lexicographic comparison of two string slices.
pub fn str_cmp(a: &str, b: &str) -> (r: i32)
    ensures
        r as int == lex_cmp(a@, b@),
{
    let alen = a.unicode_len();
    let blen = b.unicode_len();
    let shorter: usize = if alen < blen {
        alen
    } else {
        blen
    };
    let mut i: usize = 0;
    while i < shorter
        invariant
            alen == a@.len(),
            blen == b@.len(),
            shorter == if alen < blen {
                alen
            } else {
                blen
            },
            i <= shorter,
            forall|j: int| 0 <= j < i ==> a@[j] == b@[j],
        decreases shorter - i,
    {
        let ca = a.get_char(i) as u32;
        let cb = b.get_char(i) as u32;
        if ca < cb {
            proof {
                lemma_lex_cmp_skip(a@, b@, i as int);
            }
            return -1;
        }
        if ca > cb {
            proof {
                lemma_lex_cmp_skip(a@, b@, i as int);
            }
            return 1;
        }
        proof {
            assert(a@[i as int] == b@[i as int]);
        }
        i += 1;
    }
    proof {
        lemma_lex_cmp_skip(a@, b@, shorter as int);
        assert(a@.skip(shorter as int).len() == alen - shorter);
        assert(b@.skip(shorter as int).len() == blen - shorter);
    }
    if alen < blen {
        -1
    } else if alen > blen {
        1
    } else {
        0
    }
}

} // verus!
