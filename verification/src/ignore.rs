//! Loading `.gitignore`-style exclusion rules: each usable line of an ignore
//! file is stripped of pattern metacharacters and the survivors are OR-joined
//! into one combined matcher.
use crate::pattern::{pattern_valid, Pattern};
use crate::text::{joined, split_at_char, split_char, str_eq, trimmed, views_of};
use crate::SearchError;
use vstd::prelude::*;

verus! {

/// How one ignore-file character reaches the combined pattern: `|`, `.`, `^`,
/// `(` and `)` are escaped, `*` and `/` are dropped, the rest stand as they are.
pub open spec fn sanitize_char(c: char) -> Seq<char> {
    if c == '|' {
        seq!['\\', '|']
    } else if c == '*' {
        Seq::<char>::empty()
    } else if c == '.' {
        seq!['\\', '.']
    } else if c == '^' {
        seq!['\\', '^']
    } else if c == '(' {
        seq!['\\', '(']
    } else if c == ')' {
        seq!['\\', ')']
    } else if c == '/' {
        Seq::<char>::empty()
    } else {
        seq![c]
    }
}

/// Character-wise sanitization of one ignore line.
pub open spec fn sanitize_text(s: Seq<char>) -> Seq<char>
    decreases s.len(),
{
    if s.len() == 0 {
        Seq::<char>::empty()
    } else {
        sanitize_char(s[0]) + sanitize_text(s.drop_first())
    }
}

pub proof fn lemma_sanitize_push(s: Seq<char>, c: char)
    ensures
        sanitize_text(s.push(c)) == sanitize_text(s) + sanitize_char(c),
    decreases s.len(),
{
    if s.len() == 0 {
        assert(s.push(c)[0] == c);
        assert(s.push(c).drop_first() =~= s);
        assert(sanitize_text(s.push(c)) =~= sanitize_text(s) + sanitize_char(c));
    } else {
        assert(s.push(c)[0] == s[0]);
        assert(s.push(c).drop_first() =~= s.drop_first().push(c));
        lemma_sanitize_push(s.drop_first(), c);
        assert(sanitize_text(s.push(c)) =~= sanitize_text(s) + sanitize_char(c));
    }
}

/// What one raw ignore line contributes: its sanitized, trimmed form.
pub open spec fn cleaned_line(l: Seq<char>) -> Seq<char> {
    trimmed(sanitize_text(l))
}

/// A line survives when, after sanitizing and trimming, it is neither empty
/// nor a comment.
pub open spec fn usable_line(l: Seq<char>) -> bool {
    cleaned_line(l).len() > 0 && cleaned_line(l)[0] != '#'
}

/// The cleaned forms of the usable lines, in order.
pub open spec fn usable_parts(lines: Seq<Seq<char>>) -> Seq<Seq<char>>
    decreases lines.len(),
{
    if lines.len() == 0 {
        Seq::<Seq<char>>::empty()
    } else if usable_line(lines[0]) {
        seq![cleaned_line(lines[0])] + usable_parts(lines.drop_first())
    } else {
        usable_parts(lines.drop_first())
    }
}

pub proof fn lemma_usable_parts_push(lines: Seq<Seq<char>>, l: Seq<char>)
    ensures
        usable_line(l) ==> usable_parts(lines.push(l)) == usable_parts(lines).push(
            cleaned_line(l),
        ),
        !usable_line(l) ==> usable_parts(lines.push(l)) == usable_parts(lines),
    decreases lines.len(),
{
    if lines.len() == 0 {
        assert(lines.push(l)[0] == l);
        assert(lines.push(l).drop_first() =~= lines);
        assert(usable_parts(lines) == Seq::<Seq<char>>::empty());
        if usable_line(l) {
            assert(usable_parts(lines.push(l)) == seq![cleaned_line(l)] + usable_parts(lines));
            assert(usable_parts(lines.push(l)) =~= usable_parts(lines).push(cleaned_line(l)));
        } else {
            assert(usable_parts(lines.push(l)) == usable_parts(lines));
        }
    } else {
        assert(lines.push(l)[0] == lines[0]);
        assert(lines.push(l).drop_first() =~= lines.drop_first().push(l));
        lemma_usable_parts_push(lines.drop_first(), l);
        if usable_line(l) {
            assert(usable_parts(lines.push(l)) =~= usable_parts(lines).push(cleaned_line(l)));
        }
    }
}

/// The text of the combined exclusion pattern an ignore file compiles to:
/// the usable lines OR-joined inside one group.
pub open spec fn ignore_source(content: Seq<char>) -> Seq<char> {
    seq!['('] + joined(usable_parts(split_char(content, '\n')), '|') + seq![')']
}

/// Sanitizes and trims one raw ignore line.
fn clean_line(line: &str) -> (r: String)
    ensures
        r@ == cleaned_line(line@),
{
    let n = line.unicode_len();
    let mut out = String::new();
    let mut i: usize = 0;
    while i < n
        invariant
            i <= n,
            n == line@.len(),
            out@ == sanitize_text(line@.subrange(0, i as int)),
        decreases n - i,
    {
        let c = line.get_char(i);
        proof {
            lemma_sanitize_push(line@.subrange(0, i as int), c);
            assert(line@.subrange(0, i as int).push(c) =~= line@.subrange(0, i + 1));
        }
        if c == '|' {
            out.push('\\');
            out.push('|');
        } else if c == '*' {
        } else if c == '.' {
            out.push('\\');
            out.push('.');
        } else if c == '^' {
            out.push('\\');
            out.push('^');
        } else if c == '(' {
            out.push('\\');
            out.push('(');
        } else if c == ')' {
            out.push('\\');
            out.push(')');
        } else if c == '/' {
        } else {
            out.push(c);
        }
        proof {
            assert(out@ =~= sanitize_text(line@.subrange(0, i + 1)));
        }
        i += 1;
    }
    proof {
        assert(line@.subrange(0, n as int) =~= line@);
    }
    crate::text::trim_str(out.as_str())
}

/// Joins the parts with `|` inside one group: `(a|b|c)`.
pub(crate) fn join_alternation(parts: &Vec<String>) -> (r: String)
    ensures
        r@ == seq!['('] + joined(views_of(parts@), '|') + seq![')'],
{
    let mut out = String::new();
    out.push('(');
    let mut k: usize = 0;
    while k < parts.len()
        invariant
            k <= parts@.len(),
            out@ == seq!['('] + joined(views_of(parts@).take(k as int), '|'),
        decreases parts@.len() - k,
    {
        proof {
            lemma_joined_push_take(parts@, k as int);
        }
        if k > 0 {
            out.push('|');
        }
        let ghost mid = out@;
        out.append(parts[k].as_str());
        proof {
            if k == 0 {
                assert(out@ =~= seq!['('] + joined(views_of(parts@).take(k + 1), '|'));
            } else {
                assert(out@ =~= seq!['('] + joined(views_of(parts@).take(k + 1), '|'));
            }
        }
        k += 1;
    }
    proof {
        assert(views_of(parts@).take(parts@.len() as int) =~= views_of(parts@));
    }
    out.push(')');
    out
}

proof fn lemma_joined_push_take(parts: Seq<String>, k: int)
    requires
        0 <= k < parts.len(),
    ensures
        k == 0 ==> joined(views_of(parts).take(1), '|') == parts[0]@,
        k > 0 ==> joined(views_of(parts).take(k + 1), '|') == joined(
            views_of(parts).take(k),
            '|',
        ) + seq!['|'] + parts[k]@,
{
    assert(views_of(parts).take(k + 1) =~= views_of(parts).take(k).push(parts[k]@));
    crate::text::lemma_joined_push(views_of(parts).take(k), '|', parts[k]@);
}

/// Whether `name` is the recognized ignore-definition file name.
pub fn is_ignore_file_name(name: &str) -> (r: bool)
    ensures
        r == (name@ == ".gitignore"@),
{
    str_eq(name, ".gitignore")
}

/// Compiles the content of an ignore file into one combined exclusion
/// matcher. A file with no usable line yields no rule at all — it must not
/// exclude everything.
pub fn load_ignore(content: &str) -> (r: Result<Option<Pattern>, SearchError>)
    ensures
        usable_parts(split_char(content@, '\n')).len() == 0 <==> r == Ok::<
            Option<Pattern>,
            SearchError,
        >(None),
        usable_parts(split_char(content@, '\n')).len() > 0 && pattern_valid(
            ignore_source(content@),
            false,
            false,
        ) ==> (r matches Ok(Some(p)) && p.src() == ignore_source(content@) && !p.ci() && !p.ml()),
        usable_parts(split_char(content@, '\n')).len() > 0 && !pattern_valid(
            ignore_source(content@),
            false,
            false,
        ) ==> r == Err::<Option<Pattern>, SearchError>(SearchError::InvalidIgnore),
{
    let lines = split_at_char(content, '\n');
    let mut parts: Vec<String> = Vec::new();
    let mut i: usize = 0;
    while i < lines.len()
        invariant
            i <= lines@.len(),
            views_of(parts@) == usable_parts(views_of(lines@).take(i as int)),
        decreases lines@.len() - i,
    {
        proof {
            lemma_usable_parts_push(views_of(lines@).take(i as int), lines@[i as int]@);
            assert(views_of(lines@).take(i as int).push(lines@[i as int]@) =~= views_of(
                lines@,
            ).take(i + 1));
        }
        let t = clean_line(lines[i].as_str());
        let keep = if t.as_str().unicode_len() == 0 {
            false
        } else {
            t.as_str().get_char(0) != '#'
        };
        if keep {
            let ghost old_parts = parts@;
            parts.push(t);
            proof {
                assert(views_of(parts@) =~= views_of(old_parts).push(cleaned_line(
                    lines@[i as int]@,
                )));
            }
        }
        i += 1;
    }
    proof {
        assert(views_of(lines@).take(lines@.len() as int) =~= views_of(lines@));
    }
    if parts.len() == 0 {
        Ok(None)
    } else {
        let src = join_alternation(&parts);
        assert(src@ == ignore_source(content@));
        match Pattern::compile(src.as_str(), false, false) {
            Some(p) => Ok(Some(p)),
            None => Err(SearchError::InvalidIgnore),
        }
    }
}

} // verus!
