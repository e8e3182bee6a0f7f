//! String utilities shared by the repository scanner and the archive
//! inspector: code-point lexicographic order (the order of UTF-8 byte
//! comparison), splitting on `/`, ASCII case-insensitive matching, and
//! forward-slash path joining.

use vstd::prelude::*;
use vstd::string::StrSliceExecFns;
use vstd::string::StringExecFns;

verus! {

/// Strict lexicographic order on character sequences by code point.  For
/// valid UTF-8 this coincides with byte-wise comparison of the encoded
/// strings.
pub open spec fn str_lt(a: Seq<char>, b: Seq<char>) -> bool
    decreases a.len(),
{
    if b.len() == 0 {
        false
    } else if a.len() == 0 {
        true
    } else if a[0] == b[0] {
        str_lt(a.skip(1), b.skip(1))
    } else {
        (a[0] as u32) < (b[0] as u32)
    }
}

/// Reflexive closure of `str_lt`.
pub open spec fn str_le(a: Seq<char>, b: Seq<char>) -> bool {
    a == b || str_lt(a, b)
}

/// Distinct characters have distinct code points.
proof fn lemma_char_cast_injective(c: char, d: char)
    requires
        c != d,
    ensures
        c as u32 != d as u32,
{
}

/// Two sequences are always ordered one way or the other.
pub proof fn lemma_str_lt_connex(a: Seq<char>, b: Seq<char>)
    ensures
        str_lt(a, b) || str_lt(b, a) || a == b,
    decreases a.len(),
{
    if a.len() == 0 && b.len() == 0 {
        assert(a =~= b);
    } else if a.len() == 0 {
        assert(str_lt(a, b));
    } else if b.len() == 0 {
        assert(str_lt(b, a));
    } else if a[0] != b[0] {
        let c: char = a[0];
        let d: char = b[0];
        lemma_char_cast_injective(c, d);
        if (c as u32) < (d as u32) {
            assert(str_lt(a, b));
        } else {
            assert(str_lt(b, a));
        }
    } else {
        lemma_str_lt_connex(a.skip(1), b.skip(1));
        if a.skip(1) == b.skip(1) {
            assert(a.skip(1).len() == a.len() - 1);
            assert(b.skip(1).len() == b.len() - 1);
            assert forall|i: int| 0 <= i < a.len() implies a[i] == b[i] by {
                if i >= 1 {
                    assert(a.skip(1)[i - 1] == b.skip(1)[i - 1]);
                }
            }
            assert(a =~= b);
        }
    }
}

/// `str_lt` is transitive.
pub proof fn lemma_str_lt_transitive(a: Seq<char>, b: Seq<char>, c: Seq<char>)
    requires
        str_lt(a, b),
        str_lt(b, c),
    ensures
        str_lt(a, c),
    decreases a.len() + b.len() + c.len(),
{
    if a.len() > 0 && b.len() > 0 && c.len() > 0 {
        if a[0] == b[0] && b[0] == c[0] {
            lemma_str_lt_transitive(a.skip(1), b.skip(1), c.skip(1));
        }
    }
}

/// `str_le` is transitive.
pub proof fn lemma_str_le_transitive(a: Seq<char>, b: Seq<char>, c: Seq<char>)
    requires
        str_le(a, b),
        str_le(b, c),
    ensures
        str_le(a, c),
{
    if a != b && b != c {
        lemma_str_lt_transitive(a, b, c);
    }
}

/// Equal prefixes do not affect the comparison of what follows them.
pub proof fn lemma_str_lt_skip_prefix(a: Seq<char>, b: Seq<char>, i: int)
    requires
        0 <= i <= a.len(),
        i <= b.len(),
        forall|j: int| 0 <= j < i ==> a[j] == b[j],
    ensures
        str_lt(a, b) == str_lt(a.skip(i), b.skip(i)),
    decreases i,
{
    if i == 0 {
        assert(a.skip(0) =~= a);
        assert(b.skip(0) =~= b);
    } else {
        assert(str_lt(a, b) == str_lt(a.skip(1), b.skip(1)));
        assert(forall|j: int| 0 <= j < i - 1 ==> a.skip(1)[j] == b.skip(1)[j]);
        lemma_str_lt_skip_prefix(a.skip(1), b.skip(1), i - 1);
        assert(a.skip(1).skip(i - 1) =~= a.skip(i));
        assert(b.skip(1).skip(i - 1) =~= b.skip(i));
    }
}

/// Decides `str_lt` on two string slices.
pub fn str_lt_exec(a: &str, b: &str) -> (r: bool)
    ensures
        r == str_lt(a@, b@),
{
    let alen = a.unicode_len();
    let blen = b.unicode_len();
    let mut i: usize = 0;
    loop
        invariant
            i <= alen,
            i <= blen,
            alen == a@.len(),
            blen == b@.len(),
            forall|j: int| 0 <= j < i ==> a@[j] == b@[j],
        decreases alen - i,
    {
        proof {
            lemma_str_lt_skip_prefix(a@, b@, i as int);
        }
        if i == blen {
            return false;
        }
        if i == alen {
            return true;
        }
        let ca = a.get_char(i);
        let cb = b.get_char(i);
        if ca != cb {
            assert(a@.skip(i as int)[0] == ca && b@.skip(i as int)[0] == cb);
            return (ca as u32) < (cb as u32);
        }
        i = i + 1;
    }
}

/// Index of the last occurrence of `c` in `s`, or `-1` if `c` does not occur.
pub open spec fn last_index_of(s: Seq<char>, c: char) -> int
    decreases s.len(),
{
    if s.len() == 0 {
        -1
    } else if s.last() == c {
        s.len() - 1
    } else {
        last_index_of(s.drop_last(), c)
    }
}

/// `last_index_of` returns the greatest position holding `c`, or `-1` when
/// there is none.
pub proof fn lemma_last_index_of(s: Seq<char>, c: char)
    ensures
        last_index_of(s, c) >= 0 ==> {
            &&& last_index_of(s, c) < s.len()
            &&& s[last_index_of(s, c)] == c
            &&& forall|j: int| last_index_of(s, c) < j < s.len() ==> s[j] != c
        },
        last_index_of(s, c) == -1 ==> forall|j: int| 0 <= j < s.len() ==> s[j] != c,
        -1 <= last_index_of(s, c) < s.len(),
    decreases s.len(),
{
    if s.len() > 0 && s.last() != c {
        lemma_last_index_of(s.drop_last(), c);
        assert(forall|j: int| 0 <= j < s.len() - 1 ==> s.drop_last()[j] == s[j]);
    }
}

/// Decides `last_index_of`, reported as `None` when `c` does not occur.
pub fn last_index_of_exec(s: &str, c: char) -> (r: Option<usize>)
    ensures
        match r {
            Some(k) => last_index_of(s@, c) == k as int,
            None => last_index_of(s@, c) == -1,
        },
{
    let n = s.unicode_len();
    let mut i: usize = n;
    proof {
        assert(s@.take(n as int) =~= s@);
    }
    loop
        invariant
            0 <= i <= n,
            n == s@.len(),
            last_index_of(s@, c) == last_index_of(s@.take(i as int), c),
        decreases i,
    {
        if i == 0 {
            proof {
                assert(s@.take(0).len() == 0);
            }
            return None;
        }
        let ch = s.get_char(i - 1);
        proof {
            assert(s@.take(i as int).last() == s@[i - 1]);
        }
        if ch == c {
            return Some(i - 1);
        }
        proof {
            assert(s@.take(i as int).drop_last() =~= s@.take(i - 1));
        }
        i = i - 1;
    }
}

/// The segments of `s` delimited by `/`.  A leading, trailing or doubled
/// delimiter contributes an empty segment; the split of the empty sequence is
/// one empty segment.
pub open spec fn split_slash(s: Seq<char>) -> Seq<Seq<char>>
    decreases s.len(),
{
    if s.len() == 0 {
        seq![Seq::<char>::empty()]
    } else if s[0] == '/' {
        seq![Seq::<char>::empty()] + split_slash(s.skip(1))
    } else {
        let rest = split_slash(s.skip(1));
        seq![seq![s[0]] + rest[0]] + rest.skip(1)
    }
}

/// A split always has at least one segment.
pub proof fn lemma_split_slash_len(s: Seq<char>)
    ensures
        split_slash(s).len() >= 1,
    decreases s.len(),
{
    if s.len() > 0 {
        lemma_split_slash_len(s.skip(1));
    }
}

/// Unfolds a split at the first delimiter: if the first `k` characters are
/// not delimiters, the first segment is exactly those characters.
pub proof fn lemma_split_slash_at(s: Seq<char>, k: int)
    requires
        0 <= k <= s.len(),
        forall|j: int| 0 <= j < k ==> s[j] != '/',
        k < s.len() ==> s[k] == '/',
    ensures
        k == s.len() ==> split_slash(s) == seq![s],
        k < s.len() ==> split_slash(s) == seq![s.take(k)] + split_slash(s.skip(k + 1)),
    decreases k,
{
    lemma_split_slash_len(s.skip(1));
    if k == 0 {
        if s.len() == 0 {
            assert(s =~= Seq::<char>::empty());
        } else {
            assert(s.take(0) =~= Seq::<char>::empty());
            assert(seq![Seq::<char>::empty()] + split_slash(s.skip(1)) =~= seq![s.take(0)]
                + split_slash(s.skip(1)));
        }
    } else {
        let rest = split_slash(s.skip(1));
        assert(forall|j: int| 0 <= j < k - 1 ==> s.skip(1)[j] != '/');
        lemma_split_slash_at(s.skip(1), k - 1);
        if k == s.len() {
            assert(rest == seq![s.skip(1)]);
            assert(seq![s[0]] + s.skip(1) =~= s);
            assert(rest.skip(1) =~= Seq::<Seq<char>>::empty());
            assert(seq![seq![s[0]] + rest[0]] + rest.skip(1) =~= seq![s]);
        } else {
            assert(rest == seq![s.skip(1).take(k - 1)] + split_slash(s.skip(1).skip(k)));
            assert(rest[0] == s.skip(1).take(k - 1));
            assert(seq![s[0]] + s.skip(1).take(k - 1) =~= s.take(k));
            assert(s.skip(1).skip(k) =~= s.skip(k + 1));
            assert(rest.skip(1) =~= split_slash(s.skip(k + 1)));
            assert(seq![seq![s[0]] + rest[0]] + rest.skip(1) =~= seq![s.take(k)] + split_slash(
                s.skip(k + 1),
            ));
        }
    }
}

/// Splits `s` into its `/`-separated segments.
pub fn split_path(s: &str) -> (r: Vec<String>)
    ensures
        r.deep_view() == split_slash(s@),
{
    let n = s.unicode_len();
    let mut parts: Vec<String> = Vec::new();
    let mut start: usize = 0;
    let mut i: usize = 0;
    proof {
        assert(s@.skip(0) =~= s@);
        assert(parts.deep_view() =~= Seq::<Seq<char>>::empty());
    }
    loop
        invariant
            0 <= start <= i <= n,
            n == s@.len(),
            forall|j: int| start <= j < i ==> s@[j] != '/',
            split_slash(s@) == parts.deep_view() + split_slash(s@.skip(start as int)),
        decreases n - i,
    {
        if i == n {
            let seg = s.substring_char(start, n).to_owned();
            let ghost old_parts = parts.deep_view();
            parts.push(seg);
            proof {
                assert(forall|j: int|
                    0 <= j < s@.skip(start as int).len() ==> s@.skip(start as int)[j] == s@[start
                    + j]);
                lemma_split_slash_at(s@.skip(start as int), n - start);
                assert(s@.skip(start as int).take(n - start) =~= s@.skip(start as int));
                assert(seg@ =~= s@.skip(start as int));
                assert(parts.deep_view() =~= old_parts + seq![s@.skip(start as int)]);
                assert(parts.deep_view() + Seq::<Seq<char>>::empty() =~= parts.deep_view());
                assert(split_slash(s@) == parts.deep_view());
            }
            return parts;
        }
        let ch = s.get_char(i);
        if ch == '/' {
            let seg = s.substring_char(start, i).to_owned();
            let ghost old_parts = parts.deep_view();
            parts.push(seg);
            proof {
                assert(forall|j: int|
                    0 <= j < s@.skip(start as int).len() ==> s@.skip(start as int)[j] == s@[start
                    + j]);
                lemma_split_slash_at(s@.skip(start as int), i - start);
                assert(s@.skip(start as int).take(i - start) =~= s@.subrange(
                    start as int,
                    i as int,
                ));
                assert(seg@ == s@.subrange(start as int, i as int));
                assert(s@.skip(start as int).skip(i - start + 1) =~= s@.skip(i + 1));
                assert(parts.deep_view() =~= old_parts + seq![s@.subrange(start as int, i as int)]);
                assert(split_slash(s@) == parts.deep_view() + split_slash(s@.skip(i + 1)));
            }
            start = i + 1;
        }
        i = i + 1;
    }
}

/// Character `c` matches pattern character `p`, where `p` is taken literally
/// and an ASCII capital in `c` also matches its lowercase form.
pub open spec fn ci_char(c: char, p: char) -> bool {
    c == p || (65 <= c as u32 && c as u32 <= 90 && c as u32 + 32 == p as u32)
}

/// ASCII case-insensitive match of `s` against the lowercase pattern `p`.
pub open spec fn ci_eq(s: Seq<char>, p: Seq<char>) -> bool {
    s.len() == p.len() && forall|i: int| 0 <= i < s.len() ==> ci_char(s[i], p[i])
}

fn ci_char_exec(c: char, p: char) -> (r: bool)
    ensures
        r == ci_char(c, p),
{
    let cu = c as u32;
    let pu = p as u32;
    c == p || (65 <= cu && cu <= 90 && cu + 32 == pu)
}

/// Decides `ci_eq` on string slices.
pub fn ci_eq_exec(s: &str, p: &str) -> (r: bool)
    ensures
        r == ci_eq(s@, p@),
{
    let n = s.unicode_len();
    if n != p.unicode_len() {
        return false;
    }
    for i in 0..n
        invariant
            n == s@.len(),
            n == p@.len(),
            forall|j: int| 0 <= j < i ==> ci_char(s@[j], p@[j]),
    {
        if !ci_char_exec(s.get_char(i), p.get_char(i)) {
            return false;
        }
    }
    true
}

/// The name has the compressed-package extension: a final `.`-separated part
/// ASCII case-insensitively equal to `zip`, with a nonempty stem.
pub open spec fn zip_ext(name: Seq<char>) -> bool {
    let k = last_index_of(name, '.');
    k > 0 && ci_eq(name.skip(k + 1), "zip"@)
}

/// Decides `zip_ext`.
pub fn has_zip_extension(name: &str) -> (r: bool)
    ensures
        r == zip_ext(name@),
{
    proof {
        lemma_last_index_of(name@, '.');
    }
    let n = name.unicode_len();
    match last_index_of_exec(name, '.') {
        None => false,
        Some(k) => {
            if k == 0 {
                false
            } else {
                let ext = name.substring_char(k + 1, n);
                proof {
                    assert(ext@ =~= name@.skip(k + 1));
                }
                ci_eq_exec(ext, "zip")
            }
        },
    }
}

/// The characters after the last `/`, or all of `path` if it has none.
pub open spec fn last_segment(path: Seq<char>) -> Seq<char> {
    path.skip(last_index_of(path, '/') + 1)
}

/// Extracts `last_segment` as an owned string.
pub fn last_segment_exec(path: &str) -> (r: String)
    ensures
        r@ == last_segment(path@),
{
    proof {
        lemma_last_index_of(path@, '/');
    }
    let n = path.unicode_len();
    match last_index_of_exec(path, '/') {
        None => {
            let r = path.to_owned();
            proof {
                assert(path@.skip(0) =~= path@);
            }
            r
        },
        Some(k) => {
            let r = path.substring_char(k + 1, n).to_owned();
            proof {
                assert(r@ =~= path@.skip(k + 1));
            }
            r
        },
    }
}

/// Strictly ascending lexicographic order: sorted and free of duplicates.
pub open spec fn strictly_sorted(s: Seq<Seq<char>>) -> bool {
    forall|i: int, j: int| 0 <= i < j < s.len() ==> str_lt(s[i], s[j])
}

/// Inserts `name` into a strictly sorted vector, keeping it strictly sorted;
/// a duplicate leaves the vector unchanged.
pub fn insert_sorted(names: &mut Vec<String>, name: String)
    requires
        strictly_sorted(old(names).deep_view()),
    ensures
        strictly_sorted(final(names).deep_view()),
        forall|n: Seq<char>|
            #[trigger] final(names).deep_view().contains(n) <==> (old(
                names,
            ).deep_view().contains(n) || n == name@),
{
    let ghost old_dv = old(names).deep_view();
    proof {
        assert(old_dv.len() == old(names)@.len());
    }
    let n = names.len();
    let mut k: usize = 0;
    loop
        invariant
            k <= n,
            n == names.len(),
            old_dv == old(names).deep_view(),
            old_dv.len() == n,
            *names == *old(names),
            forall|j: int| 0 <= j < k ==> str_lt(old_dv[j], name@),
        ensures
            k <= n,
            forall|j: int| 0 <= j < k ==> str_lt(old_dv[j], name@),
            k < n ==> !str_lt(old_dv[k as int], name@),
        decreases n - k,
    {
        if k == n {
            break ;
        }
        let lt = str_lt_exec(names[k].as_str(), name.as_str());
        proof {
            assert(names.deep_view()[k as int] == names@[k as int]@);
            assert(old_dv[k as int] == names@[k as int]@);
        }
        if !lt {
            break ;
        }
        k = k + 1;
    }
    if k < n && names[k] == name {
        proof {
            assert(names.deep_view()[k as int] == names@[k as int]@);
            assert(names.deep_view()[k as int] == name@);
            assert(names.deep_view().contains(name@));
        }
        return ;
    }
    proof {
        if k < n {
            assert(old_dv[k as int] == names@[k as int]@);
            assert(old_dv[k as int] != name@);
            lemma_str_lt_connex(old_dv[k as int], name@);
            assert(str_lt(name@, old_dv[k as int]));
        }
    }
    names.insert(k, name);
    proof {
        let dv = names.deep_view();
        assert forall|i: int| 0 <= i < dv.len() implies dv[i] == (if i < k {
            old_dv[i]
        } else if i == k {
            name@
        } else {
            old_dv[i - 1]
        }) by {
            assert(dv[i] == names@[i]@);
            assert(names@ == old(names)@.insert(k as int, name));
        }
        assert forall|i: int, j: int| 0 <= i < j < dv.len() implies str_lt(dv[i], dv[j]) by {
            if i < k && j == k {
                assert(str_lt(old_dv[i], name@));
            } else if i == k && j > k {
                if k < n {
                    if i + 1 < j {
                        assert(str_lt(old_dv[k as int], old_dv[j - 1]));
                        lemma_str_lt_transitive(name@, old_dv[k as int], old_dv[j - 1]);
                    }
                }
            } else if i < k && j > k {
                if j - 1 == i {
                    assert(false);
                } else {
                    assert(str_lt(old_dv[i], old_dv[j - 1]));
                }
            } else if i > k && j > k {
                assert(str_lt(old_dv[i - 1], old_dv[j - 1]));
            } else {
                assert(str_lt(old_dv[i], old_dv[j]));
            }
        }
        assert forall|nm: Seq<char>| #[trigger] dv.contains(nm) implies (old_dv.contains(nm) || nm
            == name@) by {
            let i = choose|i: int| 0 <= i < dv.len() && dv[i] == nm;
            if i < k {
                assert(old_dv[i] == nm);
            } else if i > k {
                assert(old_dv[i - 1] == nm);
            }
        }
        assert forall|nm: Seq<char>| old_dv.contains(nm) || nm == name@ implies #[trigger] dv.contains(
            nm,
        ) by {
            if nm == name@ {
                assert(dv[k as int] == nm);
            } else {
                let i = choose|i: int| 0 <= i < old_dv.len() && old_dv[i] == nm;
                if i < k {
                    assert(dv[i] == nm);
                } else {
                    assert(dv[i + 1] == nm);
                }
            }
        }
    }
}

/// `a` and `b` joined by a single `/` separator.
pub open spec fn joined(a: Seq<char>, b: Seq<char>) -> Seq<char> {
    a + seq!['/'] + b
}

/// Joins two path fragments with `/`.
pub fn join_path(a: &str, b: &str) -> (r: String)
    ensures
        r@ == joined(a@, b@),
{
    let mut s = a.to_owned();
    s.append("/");
    s.append(b);
    proof {
        reveal_strlit("/");
        assert("/"@ =~= seq!['/']);
        assert(s@ =~= joined(a@, b@));
    }
    s
}

} // verus!
