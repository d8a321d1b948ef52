//! Character-level text operations: searching, splitting, trimming and ASCII
//! lower-casing, each as a spec function over `Seq<char>` together with a
//! verified executable counterpart on `&str`.

use vstd::prelude::*;

verus! {

/// Characters trimmed from the ends of a raw parameter declaration.
pub open spec fn is_blank(c: char) -> bool {
    c == ' ' || c == '\t'
}

/// ASCII lower-casing of one character: 'A'..'Z' map to 'a'..'z', all
/// other characters stay as they are.
pub open spec fn lower_char(c: char) -> char {
    if 65 <= c as int && c as int <= 90 {
        (c as int + 32) as char
    } else {
        c
    }
}

/// Index of the first occurrence of `c` in `s`, if any.
pub open spec fn find_char(s: Seq<char>, c: char) -> Option<int>
    decreases s.len(),
{
    if s.len() == 0 {
        None
    } else if s[0] == c {
        Some(0)
    } else {
        match find_char(s.skip(1), c) {
            Some(i) => Some(i + 1),
            None => None,
        }
    }
}

/// Index of the last occurrence of `c` in `s`, if any.
pub open spec fn rfind_char(s: Seq<char>, c: char) -> Option<int>
    decreases s.len(),
{
    if s.len() == 0 {
        None
    } else if s[s.len() - 1] == c {
        Some(s.len() - 1)
    } else {
        rfind_char(s.take(s.len() - 1), c)
    }
}

/// Whether `c` occurs anywhere in `s`.
pub open spec fn has_char(s: Seq<char>, c: char) -> bool {
    exists|i: int| 0 <= i < s.len() && s[i] == c
}

/// Index of the first occurrence of the two-character pattern `c0 c1` in `s`.
pub open spec fn find_pair(s: Seq<char>, c0: char, c1: char) -> Option<int>
    decreases s.len(),
{
    if s.len() < 2 {
        None
    } else if s[0] == c0 && s[1] == c1 {
        Some(0)
    } else {
        match find_pair(s.skip(1), c0, c1) {
            Some(i) => Some(i + 1),
            None => None,
        }
    }
}

/// Split `s` on every occurrence of `sep`; the result always holds at least
/// one piece, and the pieces joined by `sep` give back `s`.
pub open spec fn split_char(s: Seq<char>, sep: char) -> Seq<Seq<char>>
    decreases s.len(),
{
    if s.len() == 0 {
        seq![Seq::<char>::empty()]
    } else if s[0] == sep {
        seq![Seq::<char>::empty()] + split_char(s.skip(1), sep)
    } else {
        let rest = split_char(s.skip(1), sep);
        seq![seq![s[0]] + rest[0]] + rest.skip(1)
    }
}

/// `s` without leading blanks.
pub open spec fn trim_start(s: Seq<char>) -> Seq<char>
    decreases s.len(),
{
    if s.len() > 0 && is_blank(s[0]) {
        trim_start(s.skip(1))
    } else {
        s
    }
}

/// `s` without trailing blanks.
pub open spec fn trim_end(s: Seq<char>) -> Seq<char>
    decreases s.len(),
{
    if s.len() > 0 && is_blank(s[s.len() - 1]) {
        trim_end(s.take(s.len() - 1))
    } else {
        s
    }
}

/// `s` without leading and trailing blanks.
pub open spec fn trim_blanks(s: Seq<char>) -> Seq<char> {
    trim_end(trim_start(s))
}

/// The value of an `Option<usize>` as an `Option<int>`, for stating exec
/// results against spec-level indices.
pub open spec fn opt_index(o: Option<usize>) -> Option<int> {
    match o {
        Some(i) => Some(i as int),
        None => None,
    }
}

/// `find_char` returns the first occurrence: the hit is in range and nothing
/// before it matches; `None` means nothing matches at all.
pub proof fn lemma_find_char(s: Seq<char>, c: char)
    ensures
        match find_char(s, c) {
            Some(i) => 0 <= i < s.len() && s[i] == c && (forall|j: int|
                0 <= j < i ==> s[j] != c),
            None => forall|j: int| 0 <= j < s.len() ==> s[j] != c,
        },
    decreases s.len(),
{
    if s.len() == 0 {
    } else if s[0] == c {
    } else {
        lemma_find_char(s.skip(1), c);
        match find_char(s.skip(1), c) {
            Some(i) => {
                assert(s[i + 1] == s.skip(1)[i]);
                assert forall|j: int| 0 <= j < i + 1 implies s[j] != c by {
                    if j > 0 {
                        assert(s.skip(1)[j - 1] != c);
                        assert(s[j] == s.skip(1)[j - 1]);
                    }
                }
            },
            None => {
                assert forall|j: int| 0 <= j < s.len() implies s[j] != c by {
                    if j > 0 {
                        assert(s.skip(1)[j - 1] != c);
                        assert(s[j] == s.skip(1)[j - 1]);
                    }
                }
            },
        }
    }
}

/// `rfind_char` returns the last occurrence: the hit is in range and nothing
/// after it matches; `None` means nothing matches at all.
pub proof fn lemma_rfind_char(s: Seq<char>, c: char)
    ensures
        match rfind_char(s, c) {
            Some(i) => 0 <= i < s.len() && s[i] == c && (forall|j: int|
                i < j < s.len() ==> s[j] != c),
            None => forall|j: int| 0 <= j < s.len() ==> s[j] != c,
        },
    decreases s.len(),
{
    if s.len() == 0 {
    } else if s[s.len() - 1] == c {
    } else {
        lemma_rfind_char(s.take(s.len() - 1), c);
        assert forall|j: int| 0 <= j < s.take(s.len() - 1).len() implies s.take(s.len() - 1)[j]
            == s[j] by {}
    }
}

/// `find_pair` returns the first occurrence of the two-character pattern.
pub proof fn lemma_find_pair(s: Seq<char>, c0: char, c1: char)
    ensures
        match find_pair(s, c0, c1) {
            Some(i) => 0 <= i && i + 1 < s.len() && s[i] == c0 && s[i + 1] == c1 && (forall|j: int|
                0 <= j < i ==> !(#[trigger] s[j] == c0 && s[j + 1] == c1)),
            None => forall|j: int|
                0 <= j && j + 1 < s.len() ==> !(#[trigger] s[j] == c0 && s[j + 1] == c1),
        },
    decreases s.len(),
{
    if s.len() < 2 {
    } else if s[0] == c0 && s[1] == c1 {
    } else {
        lemma_find_pair(s.skip(1), c0, c1);
        match find_pair(s.skip(1), c0, c1) {
            Some(i) => {
                assert(s[i + 1] == s.skip(1)[i]);
                assert(s[i + 2] == s.skip(1)[i + 1]);
                assert forall|j: int| 0 <= j < i + 1 implies !(#[trigger] s[j] == c0 && s[j + 1]
                    == c1) by {
                    if j > 0 {
                        assert(!(s.skip(1)[j - 1] == c0 && s.skip(1)[j] == c1));
                        assert(s[j] == s.skip(1)[j - 1]);
                        assert(s[j + 1] == s.skip(1)[j]);
                    }
                }
            },
            None => {
                assert forall|j: int| 0 <= j && j + 1 < s.len() implies !(#[trigger] s[j] == c0
                    && s[j + 1] == c1) by {
                    if j > 0 {
                        assert(!(s.skip(1)[j - 1] == c0 && s.skip(1)[j] == c1));
                        assert(s[j] == s.skip(1)[j - 1]);
                        assert(s[j + 1] == s.skip(1)[j]);
                    }
                }
            },
        }
    }
}

/// Splitting a sequence whose first separator stands at `k` yields the prefix
/// before `k` and then the split of what follows `k`.
pub proof fn lemma_split_at_first(s: Seq<char>, sep: char, k: int)
    requires
        0 <= k < s.len(),
        s[k] == sep,
        forall|j: int| 0 <= j < k ==> s[j] != sep,
    ensures
        split_char(s, sep) == seq![s.take(k)] + split_char(s.skip(k + 1), sep),
    decreases k,
{
    if k == 0 {
        assert(s.take(0) =~= Seq::<char>::empty());
        assert(split_char(s, sep) =~~= seq![s.take(0)] + split_char(s.skip(1), sep));
    } else {
        let t = s.skip(1);
        assert forall|j: int| 0 <= j < t.len() implies t[j] == s[j + 1] by {}
        lemma_split_at_first(t, sep, k - 1);
        let rest = split_char(t, sep);
        assert(rest == seq![t.take(k - 1)] + split_char(t.skip(k), sep));
        assert(seq![s[0]] + rest[0] =~= s.take(k));
        assert(t.skip(k) =~= s.skip(k + 1));
        assert(rest.skip(1) =~~= split_char(s.skip(k + 1), sep));
        assert(split_char(s, sep) =~~= seq![s.take(k)] + split_char(s.skip(k + 1), sep));
    }
}

/// Splitting a sequence free of the separator yields that sequence alone.
pub proof fn lemma_split_no_sep(s: Seq<char>, sep: char)
    requires
        forall|j: int| 0 <= j < s.len() ==> s[j] != sep,
    ensures
        split_char(s, sep) == seq![s],
    decreases s.len(),
{
    if s.len() == 0 {
        assert(split_char(s, sep) =~~= seq![s]);
    } else {
        let t = s.skip(1);
        assert forall|j: int| 0 <= j < t.len() implies t[j] == s[j + 1] by {}
        lemma_split_no_sep(t, sep);
        assert(seq![s[0]] + t =~= s);
        assert(split_char(s, sep) =~~= seq![s]);
    }
}

/// Dropping a fully blank prefix of length `a` is exactly what `trim_start`
/// does.
pub proof fn lemma_trim_start_skip(s: Seq<char>, a: int)
    requires
        0 <= a <= s.len(),
        forall|j: int| 0 <= j < a ==> is_blank(s[j]),
        a == s.len() || !is_blank(s[a]),
    ensures
        trim_start(s) == s.skip(a),
    decreases a,
{
    if a == 0 {
        assert(s.skip(0) =~= s);
    } else {
        let t = s.skip(1);
        assert forall|j: int| 0 <= j < t.len() implies t[j] == s[j + 1] by {}
        lemma_trim_start_skip(t, a - 1);
        assert(t.skip(a - 1) =~= s.skip(a));
    }
}

/// Dropping a fully blank suffix that starts at `b` is exactly what
/// `trim_end` does.
pub proof fn lemma_trim_end_take(s: Seq<char>, b: int)
    requires
        0 <= b <= s.len(),
        forall|j: int| b <= j < s.len() ==> is_blank(s[j]),
        b == 0 || !is_blank(s[b - 1]),
    ensures
        trim_end(s) == s.take(b),
    decreases s.len(),
{
    if b == s.len() {
        assert(s.take(b) =~= s);
    } else {
        let t = s.take(s.len() - 1);
        assert forall|j: int| 0 <= j < t.len() implies t[j] == s[j] by {}
        lemma_trim_end_take(t, b);
        assert(t.take(b) =~= s.take(b));
    }
}

/// True when the two string slices hold the same characters.
pub fn str_eq(a: &str, b: &str) -> (r: bool)
    ensures
        r == (a@ == b@),
{
    let alen = a.unicode_len();
    let blen = b.unicode_len();
    if alen != blen {
        return false;
    }
    let mut i: usize = 0;
    while i < alen
        invariant
            alen == a@.len(),
            alen == b@.len(),
            0 <= i <= alen,
            forall|j: int| 0 <= j < i ==> a@[j] == b@[j],
        decreases alen - i,
    {
        if a.get_char(i) != b.get_char(i) {
            return false;
        }
        i = i + 1;
    }
    proof {
        assert(a@ =~= b@);
    }
    true
}

/// First index holding `c` in `s`, as `find_char` gives it.
pub fn find_char_str(s: &str, c: char) -> (r: Option<usize>)
    ensures
        opt_index(r) == find_char(s@, c),
{
    let n = s.unicode_len();
    let mut i: usize = 0;
    while i < n
        invariant
            n == s@.len(),
            0 <= i <= n,
            forall|j: int| 0 <= j < i ==> s@[j] != c,
        decreases n - i,
    {
        if s.get_char(i) == c {
            proof {
                lemma_find_char(s@, c);
            }
            return Some(i);
        }
        i = i + 1;
    }
    proof {
        lemma_find_char(s@, c);
    }
    None
}

/// Last index holding `c` in `s`, as `rfind_char` gives it.
pub fn rfind_char_str(s: &str, c: char) -> (r: Option<usize>)
    ensures
        opt_index(r) == rfind_char(s@, c),
{
    let n = s.unicode_len();
    let mut i: usize = n;
    while i > 0
        invariant
            n == s@.len(),
            0 <= i <= n,
            forall|j: int| i <= j < n ==> s@[j] != c,
        decreases i,
    {
        i = i - 1;
        if s.get_char(i) == c {
            proof {
                lemma_rfind_char(s@, c);
            }
            return Some(i);
        }
    }
    proof {
        lemma_rfind_char(s@, c);
    }
    None
}

/// Whether `c` occurs anywhere in `s`.
pub fn has_char_str(s: &str, c: char) -> (r: bool)
    ensures
        r == has_char(s@, c),
{
    let r = find_char_str(s, c);
    proof {
        lemma_find_char(s@, c);
    }
    r.is_some()
}

/// First index where the two-character pattern `c0 c1` starts in `s`, as
/// `find_pair` gives it.
pub fn find_pair_str(s: &str, c0: char, c1: char) -> (r: Option<usize>)
    ensures
        opt_index(r) == find_pair(s@, c0, c1),
{
    let n = s.unicode_len();
    if n < 2 {
        return None;
    }
    let mut i: usize = 0;
    while i < n - 1
        invariant
            n == s@.len(),
            2 <= n,
            0 <= i <= n,
            forall|j: int| 0 <= j < i ==> !(#[trigger] s@[j] == c0 && s@[j + 1] == c1),
        decreases n - i,
    {
        if s.get_char(i) == c0 && s.get_char(i + 1) == c1 {
            proof {
                lemma_find_pair(s@, c0, c1);
            }
            return Some(i);
        }
        i = i + 1;
    }
    proof {
        lemma_find_pair(s@, c0, c1);
    }
    None
}

/// The pieces of `s` between occurrences of `sep`, as `split_char` gives
/// them.
pub fn split_str(s: &str, sep: char) -> (r: Vec<String>)
    ensures
        r.deep_view() == split_char(s@, sep),
{
    let n = s.unicode_len();
    let mut pieces: Vec<String> = Vec::new();
    let mut start: usize = 0;
    let mut i: usize = 0;
    proof {
        assert(s@.skip(0) =~= s@);
        assert(pieces.deep_view() =~~= Seq::<Seq<char>>::empty());
        assert(pieces.deep_view() + split_char(s@, sep) =~~= split_char(s@, sep));
    }
    while i < n
        invariant
            n == s@.len(),
            0 <= start <= i <= n,
            forall|j: int| start <= j < i ==> s@[j] != sep,
            split_char(s@, sep) == pieces.deep_view() + split_char(s@.skip(start as int), sep),
        decreases n - i,
    {
        if s.get_char(i) == sep {
            let piece = s.substring_char(start, i).to_owned();
            proof {
                let t = s@.skip(start as int);
                assert forall|j: int| 0 <= j < t.len() implies t[j] == s@[j + start] by {}
                lemma_split_at_first(t, sep, i - start);
                assert(t.take(i - start) =~= s@.subrange(start as int, i as int));
                assert(t.skip(i - start + 1) =~= s@.skip(i as int + 1));
            }
            let ghost old_pieces = pieces.deep_view();
            pieces.push(piece);
            proof {
                assert(pieces.deep_view() =~~= old_pieces + seq![piece@]);
                assert(old_pieces + (seq![piece@] + split_char(s@.skip(i as int + 1), sep)) =~~= (
                old_pieces + seq![piece@]) + split_char(s@.skip(i as int + 1), sep));
            }
            start = i + 1;
        }
        i = i + 1;
    }
    let last = s.substring_char(start, n).to_owned();
    proof {
        let t = s@.skip(start as int);
        assert forall|j: int| 0 <= j < t.len() implies t[j] == s@[j + start] by {}
        lemma_split_no_sep(t, sep);
        assert(t =~= s@.subrange(start as int, n as int));
    }
    let ghost old_pieces = pieces.deep_view();
    pieces.push(last);
    proof {
        assert(pieces.deep_view() =~~= old_pieces + seq![last@]);
        assert(split_char(s@, sep) =~~= pieces.deep_view());
    }
    pieces
}

/// Whether `c` is trimmed by `trim_str`.
pub fn is_blank_char(c: char) -> (r: bool)
    ensures
        r == is_blank(c),
{
    c == ' ' || c == '\t'
}

/// `s` without leading and trailing blanks, as `trim_blanks` gives it.
pub fn trim_str(s: &str) -> (r: String)
    ensures
        r@ == trim_blanks(s@),
{
    let n = s.unicode_len();
    let mut a: usize = 0;
    while a < n && is_blank_char(s.get_char(a))
        invariant
            n == s@.len(),
            0 <= a <= n,
            forall|j: int| 0 <= j < a ==> is_blank(s@[j]),
        decreases n - a,
    {
        a = a + 1;
    }
    proof {
        lemma_trim_start_skip(s@, a as int);
    }
    let mut b: usize = n;
    while b > a && is_blank_char(s.get_char(b - 1))
        invariant
            n == s@.len(),
            a <= b <= n,
            forall|j: int| b <= j < n ==> is_blank(s@[j]),
        decreases b,
    {
        b = b - 1;
    }
    proof {
        let t = s@.skip(a as int);
        assert forall|j: int| 0 <= j < t.len() implies t[j] == s@[j + a] by {}
        lemma_trim_end_take(t, b - a);
        assert(t.take(b - a) =~= s@.subrange(a as int, b as int));
    }
    s.substring_char(a, b).to_owned()
}

/// Lower-cases the first character of `s` and keeps the rest verbatim.
pub fn lower_first(s: &str) -> (r: String)
    requires
        s@.len() >= 1,
    ensures
        r@ == seq![lower_char(s@[0])] + s@.skip(1),
{
    let n = s.unicode_len();
    let c = s.get_char(0);
    let u = c as u32;
    if 65 <= u && u <= 90 {
        let k = (u - 65) as usize;
        let alpha = "abcdefghijklmnopqrstuvwxyz";
        proof {
            reveal_strlit("abcdefghijklmnopqrstuvwxyz");
        }
        let mut r = alpha.substring_char(k, k + 1).to_owned();
        proof {
            assert(alpha@.subrange(k as int, k as int + 1) =~= seq![alpha@[k as int]]);
            assert(alpha@[k as int] == lower_char(c));
        }
        r.append(s.substring_char(1, n));
        proof {
            assert(r@ =~= seq![lower_char(s@[0])] + s@.skip(1));
        }
        r
    } else {
        proof {
            assert(lower_char(c) == c);
            assert(seq![lower_char(s@[0])] + s@.skip(1) =~= s@);
        }
        s.to_owned()
    }
}

} // verus!
