//! From raw command-line words to a search plan: key/value flag mapping,
//! query selection, pattern options, search root and the global exclude
//! matcher.
use crate::ignore::join_alternation;
use crate::pattern::{pattern_valid, Pattern, Query};
use crate::text::{char_in, joined, split_at_char, split_char, str_eq, trim_str, trimmed, views_of};
use crate::SearchError;
use vstd::prelude::*;

verus! {

/// The raw values collected from the command line, one per recognized flag;
/// `Some("")` records a flag that was given without a value.
pub struct CliOptions {
    /// `-t`: the literal text query.
    pub literal: Option<String>,
    /// `-re`: the pattern-language query.
    pub pattern: Option<String>,
    /// `-f`: the pattern option characters.
    pub flags: Option<String>,
    /// `-p`: the search root.
    pub path_short: Option<String>,
    /// `-path`: the search root, long form.
    pub path_long: Option<String>,
    /// `-e`: the space-separated exclude tokens.
    pub exclude: Option<String>,
}

/// The view of an optional string.
pub open spec fn opt_view(o: Option<String>) -> Option<Seq<char>> {
    match o {
        Option::None => Option::<Seq<char>>::None,
        Option::Some(s) => Option::Some(s@),
    }
}

/// An argument word that names a flag: it starts with `-`.
pub open spec fn is_flag(a: Seq<char>) -> bool {
    a.len() >= 1 && a[0] == '-'
}

/// Scans the argument words from the front, starting from `cur`: each flag
/// takes the following word as its value unless that word is itself a flag or
/// missing, in which case its value is empty; a later occurrence of `key`
/// overrides an earlier one.
pub open spec fn sel_from(
    cur: Option<Seq<char>>,
    args: Seq<Seq<char>>,
    key: Seq<char>,
) -> Option<Seq<char>>
    decreases args.len(),
{
    if args.len() == 0 {
        cur
    } else if is_flag(args[0]) {
        if args.len() >= 2 && !is_flag(args[1]) {
            sel_from(
                if args[0].drop_first() == key {
                    Option::Some(args[1])
                } else {
                    cur
                },
                args.subrange(2, args.len() as int),
                key,
            )
        } else {
            sel_from(
                if args[0].drop_first() == key {
                    Option::Some(Seq::<char>::empty())
                } else {
                    cur
                },
                args.subrange(1, args.len() as int),
                key,
            )
        }
    } else {
        sel_from(cur, args.subrange(1, args.len() as int), key)
    }
}

/// The value that the argument list assigns to `key`, if any.
pub open spec fn selected(args: Seq<Seq<char>>, key: Seq<char>) -> Option<Seq<char>> {
    sel_from(Option::None, args, key)
}

/// The six selections that `parse_args` must deliver.
pub open spec fn options_selected(o: CliOptions, args: Seq<Seq<char>>) -> bool {
    &&& opt_view(o.literal) == selected(args, "t"@)
    &&& opt_view(o.pattern) == selected(args, "re"@)
    &&& opt_view(o.flags) == selected(args, "f"@)
    &&& opt_view(o.path_short) == selected(args, "p"@)
    &&& opt_view(o.path_long) == selected(args, "path"@)
    &&& opt_view(o.exclude) == selected(args, "e"@)
}

spec fn partial_selected(o: CliOptions, args: Seq<Seq<char>>, rest: Seq<Seq<char>>) -> bool {
    &&& sel_from(opt_view(o.literal), rest, "t"@) == selected(args, "t"@)
    &&& sel_from(opt_view(o.pattern), rest, "re"@) == selected(args, "re"@)
    &&& sel_from(opt_view(o.flags), rest, "f"@) == selected(args, "f"@)
    &&& sel_from(opt_view(o.path_short), rest, "p"@) == selected(args, "p"@)
    &&& sel_from(opt_view(o.path_long), rest, "path"@) == selected(args, "path"@)
    &&& sel_from(opt_view(o.exclude), rest, "e"@) == selected(args, "e"@)
}

/// Sets the field selected by `key` — or none, for an unrecognized key.
fn assign(o: &mut CliOptions, key: &str, value: String)
    ensures
        opt_view(final(o).literal) == (if key@ == "t"@ {
            Option::Some(value@)
        } else {
            opt_view(old(o).literal)
        }),
        opt_view(final(o).pattern) == (if key@ == "re"@ {
            Option::Some(value@)
        } else {
            opt_view(old(o).pattern)
        }),
        opt_view(final(o).flags) == (if key@ == "f"@ {
            Option::Some(value@)
        } else {
            opt_view(old(o).flags)
        }),
        opt_view(final(o).path_short) == (if key@ == "p"@ {
            Option::Some(value@)
        } else {
            opt_view(old(o).path_short)
        }),
        opt_view(final(o).path_long) == (if key@ == "path"@ {
            Option::Some(value@)
        } else {
            opt_view(old(o).path_long)
        }),
        opt_view(final(o).exclude) == (if key@ == "e"@ {
            Option::Some(value@)
        } else {
            opt_view(old(o).exclude)
        }),
{
    proof {
        reveal_strlit("t");
        reveal_strlit("re");
        reveal_strlit("f");
        reveal_strlit("p");
        reveal_strlit("path");
        reveal_strlit("e");
        assert("t"@.len() == 1 && "re"@.len() == 2 && "f"@.len() == 1 && "p"@.len() == 1 && "path"@.len() == 4 && "e"@.len() == 1);
        assert("t"@[0] == 't' && "f"@[0] == 'f' && "p"@[0] == 'p' && "e"@[0] == 'e');
    }
    if str_eq(key, "t") {
        o.literal = Some(value);
    } else if str_eq(key, "re") {
        o.pattern = Some(value);
    } else if str_eq(key, "f") {
        o.flags = Some(value);
    } else if str_eq(key, "p") {
        o.path_short = Some(value);
    } else if str_eq(key, "path") {
        o.path_long = Some(value);
    } else if str_eq(key, "e") {
        o.exclude = Some(value);
    }
}

/// Maps the raw argument words to option values. A word starting with `-`
/// names a flag; its value is the following word, unless that word is itself
/// a flag or the list ends, in which case the value is empty. A later
/// occurrence of a flag overrides an earlier one; unrecognized flags and
/// stray words are ignored.
pub fn parse_args(args: &Vec<String>) -> (r: CliOptions)
    ensures
        options_selected(r, views_of(args@)),
{
    let mut o = CliOptions {
        literal: None,
        pattern: None,
        flags: None,
        path_short: None,
        path_long: None,
        exclude: None,
    };
    let ghost all = views_of(args@);
    proof {
        assert(all.subrange(0, all.len() as int) =~= all);
    }
    let mut i: usize = 0;
    while i < args.len()
        invariant
            i <= args@.len(),
            all == views_of(args@),
            partial_selected(o, all, all.subrange(i as int, all.len() as int)),
        decreases args@.len() - i,
    {
        let ghost rest = all.subrange(i as int, all.len() as int);
        let a: &String = &args[i];
        let la = a.as_str().unicode_len();
        let arg_is_flag = la >= 1 && a.as_str().get_char(0) == '-';
        proof {
            assert(rest[0] == a@);
            assert(arg_is_flag == is_flag(rest[0]));
        }
        if arg_is_flag {
            let key = a.as_str().substring_char(1, la);
            proof {
                assert(key@ =~= rest[0].drop_first());
            }
            let next_is_value = if i + 1 < args.len() {
                let b: &String = &args[i + 1];
                let lb = b.as_str().unicode_len();
                proof {
                    assert(rest[1] == b@);
                }
                !(lb >= 1 && b.as_str().get_char(0) == '-')
            } else {
                false
            };
            if next_is_value {
                let value = args[i + 1].clone();
                proof {
                    assert(value@ == rest[1]);
                    assert(rest.subrange(2, rest.len() as int) =~= all.subrange(
                        i + 2,
                        all.len() as int,
                    ));
                }
                assign(&mut o, key, value);
                i += 2;
            } else {
                proof {
                    assert(rest.len() < 2 || is_flag(rest[1]));
                    assert(rest.subrange(1, rest.len() as int) =~= all.subrange(
                        i + 1,
                        all.len() as int,
                    ));
                }
                assign(&mut o, key, String::new());
                i += 1;
            }
        } else {
            proof {
                assert(rest.subrange(1, rest.len() as int) =~= all.subrange(
                    i + 1,
                    all.len() as int,
                ));
            }
            i += 1;
        }
    }
    proof {
        assert(all.subrange(all.len() as int, all.len() as int) =~= Seq::<Seq<char>>::empty());
    }
    o
}

/// Whether the `i` (case-insensitive) option character was given.
pub open spec fn ci_of(o: CliOptions) -> bool {
    match o.flags {
        Option::Some(f) => f@.contains('i'),
        Option::None => false,
    }
}

/// Whether the `m` (multi-line) option character was given.
pub open spec fn ml_of(o: CliOptions) -> bool {
    match o.flags {
        Option::Some(f) => f@.contains('m'),
        Option::None => false,
    }
}

/// The search root: `-p`, else `-path`, else the current directory.
pub open spec fn plan_root(o: CliOptions) -> Seq<char> {
    match o.path_short {
        Option::Some(p) => p@,
        Option::None => match o.path_long {
            Option::Some(p) => p@,
            Option::None => "."@,
        },
    }
}

/// One exclude token as it enters the combined pattern: wrapped in slashes.
pub open spec fn wrapped_token(t: Seq<char>) -> Seq<char> {
    seq!['/'] + t + seq!['/']
}

/// The text of the global exclude pattern built from the `-e` value: the
/// trimmed value is split on single spaces, each token is wrapped `/token/`,
/// and the pieces are OR-joined inside one group.
/// Every token wrapped in slashes, in order.
pub open spec fn wrapped_all(ts: Seq<Seq<char>>) -> Seq<Seq<char>> {
    ts.map_values(|t: Seq<char>| wrapped_token(t))
}

pub open spec fn exclude_source(e: Seq<char>) -> Seq<char> {
    seq!['('] + joined(wrapped_all(split_char(trimmed(e), ' ')), '|') + seq![')']
}

/// Some query, literal or pattern, was supplied.
pub open spec fn query_requested(o: CliOptions) -> bool {
    o.literal is Some || o.pattern is Some
}

/// A query was supplied and, if it is a pattern, that pattern compiles.
pub open spec fn query_ok(o: CliOptions) -> bool {
    query_requested(o) && match o.pattern {
        Option::Some(ps) => pattern_valid(ps@, ci_of(o), ml_of(o)),
        Option::None => true,
    }
}

/// The exclude pattern, when requested, compiles.
pub open spec fn exclude_ok(o: CliOptions) -> bool {
    match o.exclude {
        Option::Some(e) => pattern_valid(exclude_source(e@), false, false),
        Option::None => true,
    }
}

/// Everything the traversal engine needs: the root, the query, and the
/// optional global exclude matcher.
pub struct SearchPlan {
    pub root: String,
    pub query: Query,
    pub exclude: Option<Pattern>,
}

/// The plan that the options call for: the pattern query wins over the
/// literal one, the exclude matcher is built exactly from the `-e` tokens.
pub open spec fn plan_matches(o: CliOptions, plan: SearchPlan) -> bool {
    &&& plan.root@ == plan_root(o)
    &&& match o.pattern {
        Option::Some(ps) => plan.query matches Query::Pattern(p) && p.src() == ps@ && p.ci()
            == ci_of(o) && p.ml() == ml_of(o),
        Option::None => plan.query matches Query::Literal(t) && opt_view(o.literal)
            == Option::Some(t@),
    }
    &&& match o.exclude {
        Option::Some(e) => plan.exclude matches Option::Some(p) && p.src() == exclude_source(e@)
            && !p.ci() && !p.ml(),
        Option::None => plan.exclude is None,
    }
}

/// Turns the collected options into a search plan, or says which fatal error
/// stops the search: no query at all, a query pattern that does not compile,
/// or an exclude pattern that does not compile — in that order.
pub fn build_plan(o: &CliOptions) -> (r: Result<SearchPlan, SearchError>)
    ensures
        !query_requested(*o) <==> r == Err::<SearchPlan, SearchError>(SearchError::MissingQuery),
        (query_requested(*o) && !query_ok(*o)) <==> r == Err::<SearchPlan, SearchError>(
            SearchError::InvalidPattern,
        ),
        (query_ok(*o) && !exclude_ok(*o)) <==> r == Err::<SearchPlan, SearchError>(
            SearchError::InvalidExclude,
        ),
        (query_ok(*o) && exclude_ok(*o)) ==> (r matches Ok(plan) && plan_matches(*o, plan)),
{
    let ci = match &o.flags {
        Some(f) => char_in(f.as_str(), 'i'),
        None => false,
    };
    let ml = match &o.flags {
        Some(f) => char_in(f.as_str(), 'm'),
        None => false,
    };
    let query: Query = match &o.pattern {
        Some(ps) => match Pattern::compile(ps.as_str(), ci, ml) {
            Some(p) => Query::Pattern(p),
            None => {
                return Err(SearchError::InvalidPattern);
            },
        },
        None => match &o.literal {
            Some(t) => Query::Literal(t.clone()),
            None => {
                return Err(SearchError::MissingQuery);
            },
        },
    };
    let root: String = match &o.path_short {
        Some(p) => p.clone(),
        None => match &o.path_long {
            Some(p) => p.clone(),
            None => ".".to_owned(),
        },
    };
    let exclude: Option<Pattern> = match &o.exclude {
        Some(e) => {
            let trimmed_list = trim_str(e.as_str());
            let tokens = split_at_char(trimmed_list.as_str(), ' ');
            let mut parts: Vec<String> = Vec::new();
            let mut k: usize = 0;
            while k < tokens.len()
                invariant
                    k <= tokens@.len(),
                    views_of(parts@) == wrapped_all(views_of(tokens@).take(k as int)),
                decreases tokens@.len() - k,
            {
                let mut w = String::new();
                w.push('/');
                w.append(tokens[k].as_str());
                w.push('/');
                proof {
                    assert(w@ =~= wrapped_token(views_of(tokens@)[k as int]));
                }
                parts.push(w);
                proof {
                    let tv = views_of(tokens@);
                    assert(tv.take(k + 1) =~= tv.take(k as int).push(tv[k as int]));
                    assert(wrapped_all(tv.take(k as int).push(tv[k as int])) =~= wrapped_all(
                        tv.take(k as int),
                    ).push(wrapped_token(tv[k as int])));
                    assert(views_of(parts@) =~= wrapped_all(tv.take(k + 1)));
                }
                k += 1;
            }
            proof {
                assert(views_of(tokens@).take(tokens@.len() as int) =~= views_of(tokens@));
            }
            let src = join_alternation(&parts);
            proof {
                assert(src@ == exclude_source(e@));
            }
            match Pattern::compile(src.as_str(), false, false) {
                Some(p) => Some(p),
                None => {
                    return Err(SearchError::InvalidExclude);
                },
            }
        },
        None => None,
    };
    Ok(SearchPlan { root, query, exclude })
}

} // verus!
