//! Character-sequence primitives: substring search, splitting on a separator,
//! whitespace trimming and alternation joining, with their mathematical models.
use vstd::prelude::*;

verus! {

/// A Unicode white-space code point, as `str::trim` understands it.
pub open spec fn is_space(c: char) -> bool {
    let n = c as u32;
    ||| n == 0x20
    ||| (0x9 <= n && n <= 0xD)
    ||| n == 0x85
    ||| n == 0xA0
    ||| n == 0x1680
    ||| (0x2000 <= n && n <= 0x200A)
    ||| n == 0x2028
    ||| n == 0x2029
    ||| n == 0x202F
    ||| n == 0x205F
    ||| n == 0x3000
}

/// Decides `is_space` on a concrete character.
pub fn char_is_space(c: char) -> (r: bool)
    ensures
        r == is_space(c),
{
    let n = c as u32;
    n == 0x20 || (0x9 <= n && n <= 0xD) || n == 0x85 || n == 0xA0 || n == 0x1680 || (0x2000 <= n
        && n <= 0x200A) || n == 0x2028 || n == 0x2029 || n == 0x202F || n == 0x205F || n == 0x3000
}

/// True when `needle` occurs contiguously inside `hay`.
pub open spec fn is_substring(needle: Seq<char>, hay: Seq<char>) -> bool {
    exists|i: int|
        0 <= i && i + needle.len() <= hay.len() && #[trigger] hay.subrange(
            i,
            i + needle.len(),
        ) =~= needle
}

/// The views of a sequence of strings.
pub open spec fn views_of(v: Seq<String>) -> Seq<Seq<char>> {
    v.map_values(|s: String| s@)
}

/// Character-wise string equality.
pub fn str_eq(a: &str, b: &str) -> (r: bool)
    ensures
        r == (a@ == b@),
{
    let la = a.unicode_len();
    let lb = b.unicode_len();
    if la != lb {
        return false;
    }
    let mut i: usize = 0;
    while i < la
        invariant
            i <= la,
            la == a@.len(),
            la == b@.len(),
            forall|j: int| 0 <= j < i ==> a@[j] == b@[j],
        decreases la - i,
    {
        if a.get_char(i) != b.get_char(i) {
            return false;
        }
        i += 1;
    }
    proof {
        assert(a@ =~= b@);
    }
    true
}

/// Whether character `c` occurs in `s`.
pub fn char_in(s: &str, c: char) -> (r: bool)
    ensures
        r == s@.contains(c),
{
    let n = s.unicode_len();
    let mut i: usize = 0;
    while i < n
        invariant
            i <= n,
            n == s@.len(),
            forall|j: int| 0 <= j < i ==> s@[j] != c,
        decreases n - i,
    {
        if s.get_char(i) == c {
            return true;
        }
        i += 1;
    }
    false
}

/// Decides whether `needle` is a contiguous substring of `line`,
/// the way a plain-text query is tested against a line.
pub fn contains_str(line: &str, needle: &str) -> (r: bool)
    ensures
        r == is_substring(needle@, line@),
{
    let n = line.unicode_len();
    let m = needle.unicode_len();
    if m > n {
        return false;
    }
    let mut i: usize = 0;
    while i <= n - m
        invariant
            m <= n,
            n == line@.len(),
            m == needle@.len(),
            forall|k: int| 0 <= k < i ==> #[trigger] line@.subrange(k, k + m) != needle@,
        decreases n - m - i + 1,
    {
        let mut j: usize = 0;
        let mut mismatch = false;
        while j < m
            invariant
                j <= m,
                i + m <= n,
                n == line@.len(),
                m == needle@.len(),
                !mismatch ==> forall|t: int| 0 <= t < j ==> line@[i + t] == needle@[t],
                mismatch ==> exists|t: int| 0 <= t < m && line@[i + t] != needle@[t],
            decreases m - j,
    {
            if line.get_char(i + j) != needle.get_char(j) {
                mismatch = true;
                j = m;
            } else {
                j += 1;
            }
        }
        if !mismatch {
            proof {
                assert(line@.subrange(i as int, i + m) =~= needle@);
            }
            return true;
        }
        proof {
            let t = choose|t: int| 0 <= t < m && line@[i + t] != needle@[t];
            assert(line@.subrange(i as int, i + m)[t] != needle@[t]);
        }
        i += 1;
    }
    proof {
        assert forall|k: int| 0 <= k && k + needle@.len() <= line@.len() implies #[trigger] line@
            .subrange(k, k + needle@.len()) != needle@ by {
            assert(k < i);
        }
    }
    false
}

/// `String::push` appends one character; vstd does not specify it.
pub assume_specification[ String::push ](s: &mut String, c: char)
    ensures
        final(s)@ == old(s)@.push(c),
;

/// The pieces of `s` between occurrences of `sep`: splitting on `n`
/// separators yields `n + 1` pieces, so the result is never empty.
pub open spec fn split_char(s: Seq<char>, sep: char) -> Seq<Seq<char>>
    decreases s.len(),
{
    if s.len() == 0 {
        seq![Seq::<char>::empty()]
    } else if s[0] == sep {
        seq![Seq::<char>::empty()] + split_char(s.drop_first(), sep)
    } else {
        let rest = split_char(s.drop_first(), sep);
        seq![seq![s[0]] + rest[0]] + rest.drop_first()
    }
}

pub proof fn lemma_split_char_len(s: Seq<char>, sep: char)
    ensures
        split_char(s, sep).len() >= 1,
    decreases s.len(),
{
    if s.len() > 0 {
        lemma_split_char_len(s.drop_first(), sep);
    }
}

/// Appending one character to the text extends the split: a separator opens a
/// fresh empty piece, any other character extends the last piece.
pub proof fn lemma_split_char_push(s: Seq<char>, sep: char, c: char)
    ensures
        c == sep ==> split_char(s.push(c), sep) == split_char(s, sep).push(Seq::<char>::empty()),
        c != sep ==> split_char(s.push(c), sep) == split_char(s, sep).update(
            split_char(s, sep).len() - 1,
            split_char(s, sep).last().push(c),
        ),
    decreases s.len(),
{
    lemma_split_char_len(s, sep);
    if s.len() == 0 {
        assert(s =~= Seq::<char>::empty());
        assert(split_char(s, sep) == seq![Seq::<char>::empty()]);
        assert(s.push(c).drop_first() =~= s);
        assert(s.push(c)[0] == c);
        if c == sep {
            assert(split_char(s.push(c), sep) == seq![Seq::<char>::empty()] + split_char(s, sep));
            assert(split_char(s.push(c), sep) =~~= split_char(s, sep).push(Seq::<char>::empty()));
        } else {
            assert(split_char(s.push(c), sep) == seq![seq![c] + split_char(s, sep)[0]]
                + split_char(s, sep).drop_first());
            assert(split_char(s.push(c), sep) =~~= split_char(s, sep).update(
                0,
                split_char(s, sep).last().push(c),
            ));
        }
    } else {
        let t = s.push(c);
        assert(t[0] == s[0]);
        assert(t.drop_first() =~= s.drop_first().push(c));
        lemma_split_char_push(s.drop_first(), sep, c);
        lemma_split_char_len(s.drop_first(), sep);
        if c == sep {
            if s[0] == sep {
                assert(split_char(t, sep) =~~= split_char(s, sep).push(Seq::<char>::empty()));
            } else {
                assert(split_char(t, sep) =~~= split_char(s, sep).push(Seq::<char>::empty()));
            }
        } else {
            let rest = split_char(s.drop_first(), sep);
            if s[0] == sep {
                assert(split_char(t, sep) =~~= split_char(s, sep).update(
                    split_char(s, sep).len() - 1,
                    split_char(s, sep).last().push(c),
                ));
            } else {
                if rest.len() == 1 {
                    assert(split_char(t, sep) =~~= split_char(s, sep).update(
                        split_char(s, sep).len() - 1,
                        split_char(s, sep).last().push(c),
                    ));
                } else {
                    assert(split_char(t, sep) =~~= split_char(s, sep).update(
                        split_char(s, sep).len() - 1,
                        split_char(s, sep).last().push(c),
                    ));
                }
            }
        }
    }
}

/// Splits `s` at every occurrence of `sep`, the way a text blob is cut
/// into lines or an exclude list into tokens.
pub fn split_at_char(s: &str, sep: char) -> (r: Vec<String>)
    ensures
        views_of(r@) == split_char(s@, sep),
        r@.len() >= 1,
{
    let n = s.unicode_len();
    let mut r: Vec<String> = Vec::new();
    let mut cur: String = String::new();
    let mut i: usize = 0;
    while i < n
        invariant
            i <= n,
            n == s@.len(),
            views_of(r@).push(cur@) == split_char(s@.subrange(0, i as int), sep),
        decreases n - i,
    {
        let c = s.get_char(i);
        proof {
            lemma_split_char_push(s@.subrange(0, i as int), sep, c);
            lemma_split_char_len(s@.subrange(0, i as int), sep);
            assert(s@.subrange(0, i as int).push(c) =~= s@.subrange(0, i + 1));
        }
        if c == sep {
            let ghost old_r = r@;
            let ghost old_cur = cur@;
            r.push(cur);
            cur = String::new();
            proof {
                assert(views_of(r@) =~= views_of(old_r).push(old_cur));
                assert(views_of(r@).push(cur@) =~= split_char(s@.subrange(0, i + 1), sep));
            }
        } else {
            let ghost old_cur = cur@;
            cur.push(c);
            proof {
                let prev = split_char(s@.subrange(0, i as int), sep);
                assert(views_of(r@).push(cur@) =~= prev.update(
                    prev.len() - 1,
                    prev.last().push(c),
                ));
            }
        }
        i += 1;
    }
    proof {
        assert(s@.subrange(0, n as int) =~= s@);
    }
    let ghost old_r = r@;
    let ghost old_cur = cur@;
    r.push(cur);
    proof {
        assert(views_of(r@) =~= views_of(old_r).push(old_cur));
    }
    r
}

/// `s` without its leading white space.
pub open spec fn trim_start(s: Seq<char>) -> Seq<char>
    decreases s.len(),
{
    if s.len() > 0 && is_space(s[0]) {
        trim_start(s.drop_first())
    } else {
        s
    }
}

/// `s` without its trailing white space.
pub open spec fn trim_end(s: Seq<char>) -> Seq<char>
    decreases s.len(),
{
    if s.len() > 0 && is_space(s.last()) {
        trim_end(s.drop_last())
    } else {
        s
    }
}

/// `s` without leading and trailing white space, as `str::trim` returns it.
pub open spec fn trimmed(s: Seq<char>) -> Seq<char> {
    trim_end(trim_start(s))
}

proof fn lemma_trim_start_index(s: Seq<char>, a: int)
    requires
        0 <= a <= s.len(),
        forall|j: int| 0 <= j < a ==> is_space(s[j]),
        a == s.len() || !is_space(s[a]),
    ensures
        trim_start(s) == s.subrange(a, s.len() as int),
    decreases a,
{
    if a == 0 {
        assert(s.subrange(0, s.len() as int) =~= s);
    } else {
        assert(is_space(s[0]));
        lemma_trim_start_index(s.drop_first(), a - 1);
        assert(s.drop_first().subrange(a - 1, s.drop_first().len() as int) =~= s.subrange(
            a,
            s.len() as int,
        ));
    }
}

proof fn lemma_trim_end_index(s: Seq<char>, b: int)
    requires
        0 <= b <= s.len(),
        forall|j: int| b <= j < s.len() ==> is_space(s[j]),
        b == 0 || !is_space(s[b - 1]),
    ensures
        trim_end(s) == s.subrange(0, b),
    decreases s.len() - b,
{
    if b == s.len() {
        assert(s.subrange(0, b) =~= s);
        if s.len() > 0 {
            assert(!is_space(s.last()));
        }
    } else {
        assert(is_space(s.last()));
        lemma_trim_end_index(s.drop_last(), b);
        assert(s.drop_last().subrange(0, b) =~= s.subrange(0, b));
    }
}

/// When every character before `a` and from `b` on is white space and the
/// characters at the edges of `[a, b)` are not, trimming yields `s[a..b]`.
pub proof fn lemma_trim_index(s: Seq<char>, a: int, b: int)
    requires
        0 <= a <= b <= s.len(),
        forall|j: int| 0 <= j < a ==> is_space(s[j]),
        forall|j: int| b <= j < s.len() ==> is_space(s[j]),
        a == b || (!is_space(s[a]) && !is_space(s[b - 1])),
    ensures
        trimmed(s) == s.subrange(a, b),
{
    if a == b {
        assert forall|j: int| 0 <= j < s.len() implies is_space(s[j]) by {}
        lemma_trim_start_index(s, s.len() as int);
        let u = s.subrange(s.len() as int, s.len() as int);
        assert(u =~= Seq::<char>::empty());
        lemma_trim_end_index(u, 0);
        assert(u.subrange(0, 0) =~= s.subrange(a, b));
    } else {
        lemma_trim_start_index(s, a);
        let u = s.subrange(a, s.len() as int);
        assert forall|j: int| b - a <= j < u.len() implies is_space(u[j]) by {
            assert(u[j] == s[j + a]);
        }
        lemma_trim_end_index(u, b - a);
        assert(u.subrange(0, b - a) =~= s.subrange(a, b));
    }
}

/// Trims white space from both ends of `s`.
pub fn trim_str(s: &str) -> (r: String)
    ensures
        r@ == trimmed(s@),
{
    let n = s.unicode_len();
    let mut a: usize = 0;
    let mut scanning = true;
    while scanning && a < n
        invariant
            a <= n,
            n == s@.len(),
            forall|j: int| 0 <= j < a ==> is_space(s@[j]),
            !scanning ==> (a < n && !is_space(s@[a as int])),
        decreases n - a + (if scanning { 1int } else { 0int }),
    {
        if char_is_space(s.get_char(a)) {
            a += 1;
        } else {
            scanning = false;
        }
    }
    let mut b: usize = n;
    let mut scanning_back = true;
    while scanning_back && b > a
        invariant
            a <= b <= n,
            n == s@.len(),
            forall|j: int| b <= j < n ==> is_space(s@[j]),
            !scanning_back ==> (b > a && !is_space(s@[b - 1])),
        decreases b + (if scanning_back { 1int } else { 0int }),
    {
        if char_is_space(s.get_char(b - 1)) {
            b -= 1;
        } else {
            scanning_back = false;
        }
    }
    proof {
        if a == b {
        } else {
            assert(!is_space(s@[a as int]));
            assert(!is_space(s@[b - 1]));
        }
        lemma_trim_index(s@, a as int, b as int);
    }
    let piece = s.substring_char(a, b);
    piece.to_owned()
}

/// The pieces of `parts` joined with a single `sep` between neighbours.
pub open spec fn joined(parts: Seq<Seq<char>>, sep: char) -> Seq<char>
    decreases parts.len(),
{
    if parts.len() == 0 {
        Seq::<char>::empty()
    } else if parts.len() == 1 {
        parts[0]
    } else {
        parts[0] + seq![sep] + joined(parts.drop_first(), sep)
    }
}

/// Joining one more piece appends a separator and the piece, unless the
/// join was empty so far.
pub proof fn lemma_joined_push(parts: Seq<Seq<char>>, sep: char, p: Seq<char>)
    ensures
        parts.len() == 0 ==> joined(parts.push(p), sep) == p,
        parts.len() > 0 ==> joined(parts.push(p), sep) == joined(parts, sep) + seq![sep] + p,
    decreases parts.len(),
{
    if parts.len() == 0 {
        assert(parts.push(p).len() == 1);
        assert(parts.push(p)[0] == p);
    } else if parts.len() == 1 {
        assert(parts.push(p)[0] == parts[0]);
        assert(parts.push(p).drop_first() =~= seq![p]);
        assert(joined(seq![p], sep) == p);
        assert(joined(parts.push(p), sep) =~= joined(parts, sep) + seq![sep] + p);
    } else {
        assert(parts.push(p).drop_first() =~= parts.drop_first().push(p));
        lemma_joined_push(parts.drop_first(), sep, p);
        assert(joined(parts.push(p), sep) =~= joined(parts, sep) + seq![sep] + p);
    }
}

} // verus!
