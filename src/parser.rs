use vstd::prelude::*;
use vstd::string::*;

use crate::error::{Error, ErrorView};
use crate::path::{
    Arg, ArgView, PathView, SecretBackend, SecretPath, args_view, build, split_anchor, check_backend, find_char,
    index_of, lemma_index_of, lemma_literal_len, literal_len, literal_length, spec_backend,
    spec_build,
};

verus! {

/// A literal: the longest non-empty prefix free of ':', ',' and '='.
/// Gives what is left, then the literal.
pub open spec fn spec_literal(s: Seq<char>) -> Option<(Seq<char>, Seq<char>)> {
    let k = literal_len(s);
    if k <= 0 {
        None
    } else {
        Some((s.subrange(k, s.len() as int), s.subrange(0, k)))
    }
}

/// A keyword argument: a literal, '=', a literal.
pub open spec fn spec_kwarg(s: Seq<char>) -> Option<(Seq<char>, ArgView)> {
    match spec_literal(s) {
        Some((r, k)) => if r.len() > 0 && r[0] == '=' {
            match spec_literal(r.drop_first()) {
                Some((r2, v)) => Some((r2, ArgView::KwArg(k, v))),
                None => None,
            }
        } else {
            None
        },
        None => None,
    }
}

/// A positional argument: a literal.
pub open spec fn spec_arg(s: Seq<char>) -> Option<(Seq<char>, ArgView)> {
    match spec_literal(s) {
        Some((r, a)) => Some((r, ArgView::Arg(a))),
        None => None,
    }
}

/// A keyword argument if one starts `s`, else a positional one.
pub open spec fn spec_elem(s: Seq<char>) -> Option<(Seq<char>, ArgView)> {
    if spec_kwarg(s) is Some {
        spec_kwarg(s)
    } else {
        spec_arg(s)
    }
}

/// One or more arguments separated by ','; the list ends before a ',' that
/// no argument follows.
pub open spec fn spec_arg_list(s: Seq<char>) -> Option<(Seq<char>, Seq<ArgView>)>
    decreases s.len(),
    via arg_list_decreases
{
    match spec_elem(s) {
        None => None,
        Some((r, a)) => if r.len() > 0 && r[0] == ',' {
            match spec_arg_list(r.drop_first()) {
                Some((r2, l)) => Some((r2, seq![a] + l)),
                None => Some((r, seq![a])),
            }
        } else {
            Some((r, seq![a]))
        },
    }
}

/// What an argument leaves behind is shorter than its input.
pub proof fn lemma_elem_shorter(s: Seq<char>)
    ensures
        spec_elem(s) matches Some((r, _)) ==> r.len() < s.len(),
{
    lemma_literal_len(s);
    let k = literal_len(s);
    if k > 0 {
        let r = s.subrange(k, s.len() as int);
        if r.len() > 0 {
            lemma_literal_len(r.drop_first());
        }
    }
}

#[via_fn]
pub proof fn arg_list_decreases(s: Seq<char>) {
    lemma_elem_shorter(s);
}

/// What the grammar makes of `s`: `backend ':' args ':' path_anchor`.
pub open spec fn spec_grammar_parse<T: SecretBackend>(s: Seq<char>) -> Result<PathView<T>, ErrorView> {
    let b = index_of(s, ':');
    let r = s.subrange(b, s.len() as int);
    if s.len() == 0 {
        Err(ErrorView::NoBackend)
    } else if r.len() == 0 {
        Err(ErrorView::NoArgs(s))
    } else {
        match spec_backend::<T>(s.subrange(0, b)) {
            Err(e) => Err(e),
            Ok(backend) => match spec_arg_list(r.drop_first()) {
                None => Err(ErrorView::NoPath(r.drop_first())),
                Some((r2, l)) => if r2.len() == 0 || r2[0] != ':' {
                    Err(ErrorView::NoPath(r2))
                } else if r2.len() == 1 {
                    Err(ErrorView::NoPath(r2.drop_first()))
                } else {
                    Ok(spec_build(backend, l, r2.drop_first()))
                },
            },
        }
    }
}

/// The argument list that the grammar reads from `s`, in the order written:
/// the list after the first ':', if there is one and a list follows it.
pub open spec fn grammar_arg_list(s: Seq<char>) -> Option<Seq<ArgView>> {
    let r = s.subrange(index_of(s, ':'), s.len() as int);
    if r.len() == 0 {
        None
    } else {
        match spec_arg_list(r.drop_first()) {
            Some((_, l)) => Some(l),
            None => None,
        }
    }
}

/// Parse a literal.
pub fn literal<'a>(input: &'a str) -> (r: Option<(&'a str, &'a str)>)
    ensures
        match r {
            Some((rest, lit)) => spec_literal(input@) == Some((rest@, lit@)),
            None => spec_literal(input@) is None,
        },
{
    let n = input.unicode_len();
    let k = literal_length(input);
    proof {
        lemma_literal_len(input@);
    }
    if k == 0 {
        None
    } else {
        Some((input.substring_char(k, n), input.substring_char(0, k)))
    }
}

/// Parse a path with its anchor: everything that is left, if anything is.
pub fn path<'a>(input: &'a str) -> (r: Option<(&'a str, &'a str)>)
    ensures
        match r {
            Some((rest, p)) => input@.len() > 0 && rest@.len() == 0 && p@ == input@,
            None => input@.len() == 0,
        },
{
    if input.is_empty() {
        None
    } else {
        let n = input.unicode_len();
        proof {
            reveal_strlit("");
        }
        Some((input.substring_char(n, n), input))
    }
}

/// Parse the backend: the text up to the first ':', which `T` must know.
pub fn backend<'a, T: SecretBackend>(input: &'a str) -> (r: Result<(&'a str, T), Error>)
    ensures
        ({
            let b = index_of(input@, ':');
            match r {
                Ok((rest, t)) => spec_backend::<T>(input@.subrange(0, b)) == Ok::<T, ErrorView>(t)
                    && rest@ == input@.subrange(b, input@.len() as int),
                Err(e) => spec_backend::<T>(input@.subrange(0, b)) == Err::<T, ErrorView>(e@),
            }
        }),
{
    let n = input.unicode_len();
    let b = find_char(input, ':');
    proof {
        lemma_index_of(input@, ':');
    }
    let t: T = check_backend(input.substring_char(0, b))?;
    Ok((input.substring_char(b, n), t))
}

/// Parse a keyword argument.
pub fn kwarg<'a>(input: &'a str) -> (r: Option<(&'a str, Arg<'a>)>)
    ensures
        match r {
            Some((rest, a)) => spec_kwarg(input@) == Some((rest@, a.view())),
            None => spec_kwarg(input@) is None,
        },
{
    match literal(input) {
        None => None,
        Some((rest, k)) => {
            let n = rest.unicode_len();
            if n > 0 && rest.get_char(0) == '=' {
                let after = rest.substring_char(1, n);
                assert(after@ =~= rest@.drop_first());
                match literal(after) {
                    Some((r2, v)) => Some((r2, Arg::KwArg((k, v)))),
                    None => None,
                }
            } else {
                None
            }
        },
    }
}

/// Parse a positional argument.
pub fn arg<'a>(input: &'a str) -> (r: Option<(&'a str, Arg<'a>)>)
    ensures
        match r {
            Some((rest, a)) => spec_arg(input@) == Some((rest@, a.view())),
            None => spec_arg(input@) is None,
        },
{
    match literal(input) {
        None => None,
        Some((rest, a)) => Some((rest, Arg::Arg(a))),
    }
}

/// Parse one or more arguments separated by ','.
pub fn arg1<'a>(input: &'a str) -> (r: Option<(&'a str, Vec<Arg<'a>>)>)
    ensures
        match r {
            Some((rest, l)) => spec_arg_list(input@) == Some((rest@, args_view(l@))),
            None => spec_arg_list(input@) is None,
        },
    decreases input@.len(),
{
    let (rest, a) = match kwarg(input) {
        Some(x) => x,
        None => match arg(input) {
            Some(x) => x,
            None => return None,
        },
    };
    proof {
        lemma_elem_shorter(input@);
    }
    let n = rest.unicode_len();
    if n > 0 && rest.get_char(0) == ',' {
        let after = rest.substring_char(1, n);
        assert(after@ =~= rest@.drop_first());
        match arg1(after) {
            Some((r2, l)) => {
                let ghost lv = args_view(l@);
                let mut v = l;
                v.insert(0, a);
                assert(args_view(v@) =~= seq![a.view()] + lv);
                Some((r2, v))
            },
            None => {
                let v = vec![a];
                assert(args_view(v@) =~= seq![a.view()]);
                Some((rest, v))
            },
        }
    } else {
        let v = vec![a];
        assert(args_view(v@) =~= seq![a.view()]);
        Some((rest, v))
    }
}

/// Parse a secret path `backend:arg1,arg2,k1=v1:path`: what is left, then the
/// backend, the arguments and the path with its anchor.
fn secret_path_anchor<'a, T: SecretBackend>(input: &'a str) -> (r: Result<
    (&'a str, (T, Vec<Arg<'a>>, &'a str)),
    Error,
>)
    ensures
        match r {
            Ok((rest, (b, l, pa))) => rest@.len() == 0 && grammar_arg_list(input@) == Some(
                args_view(l@),
            ) && spec_grammar_parse::<T>(input@) == Ok::<
                PathView<T>,
                ErrorView,
            >(spec_build(b, args_view(l@), pa@)),
            Err(e) => spec_grammar_parse::<T>(input@) == Err::<PathView<T>, ErrorView>(e@),
        },
{
    let n0 = input.unicode_len();
    proof {
        lemma_index_of(input@, ':');
    }
    if n0 == 0 {
        return Err(Error::NoBackend);
    }
    if find_char(input, ':') >= n0 {
        return Err(Error::NoArgs(input.to_owned()));
    }
    let (rest, b) = backend::<T>(input)?;
    let n = rest.unicode_len();
    let after = rest.substring_char(1, n);
    assert(after@ =~= rest@.drop_first());
    let (rest2, l) = match arg1(after) {
        Some(x) => x,
        None => return Err(Error::NoPath(after.to_owned())),
    };
    let n2 = rest2.unicode_len();
    if n2 == 0 || rest2.get_char(0) != ':' {
        return Err(Error::NoPath(rest2.to_owned()));
    }
    let after2 = rest2.substring_char(1, n2);
    assert(after2@ =~= rest2@.drop_first());
    match path(after2) {
        Some((rest3, pa)) => Ok((rest3, (b, l, pa))),
        None => Err(Error::NoPath(after2.to_owned())),
    }
}

/// Parse a secret path `backend:arg1,arg2,k1=v1:path#anchor`: what is left,
/// then the backend, the arguments, the path and the anchor.
pub fn secret_path<'a, T: SecretBackend>(input: &'a str) -> (r: Result<
    (&'a str, (T, Vec<Arg<'a>>, &'a str, Option<&'a str>)),
    Error,
>)
    ensures
        match r {
            Ok((rest, (b, l, p, a))) => rest@.len() == 0 && grammar_arg_list(input@) == Some(
                args_view(l@),
            ) && (spec_grammar_parse::<T>(input@) matches Ok(
                v,
            ) && v == spec_build(b, args_view(l@), v.path_anchor) && p@ == v.path && match a {
                Some(x) => v.anchor == Some(x@),
                None => v.anchor is None,
            }),
            Err(e) => spec_grammar_parse::<T>(input@) == Err::<PathView<T>, ErrorView>(e@),
        },
{
    let (rest, (b, l, pa)) = secret_path_anchor::<T>(input)?;
    let (p, a) = split_anchor(pa);
    Ok((rest, (b, l, p, a)))
}

/// Parse a secret path with the grammar's rules. The path with its anchor
/// takes all that follows the second ':', so nothing is ever left over and
/// this parser never reports `ExtraData`.
pub fn parse<'a, T: SecretBackend>(input: &'a str) -> (r: Result<SecretPath<'a, T>, Error>)
    ensures
        match r {
            Ok(p) => spec_grammar_parse::<T>(input@) == Ok::<PathView<T>, ErrorView>(p.view()),
            Err(e) => spec_grammar_parse::<T>(input@) == Err::<PathView<T>, ErrorView>(e@),
        },
        !(r matches Err(Error::ExtraData(_))),
{
    let (_rest, (b, l, pa)) = secret_path_anchor::<T>(input)?;
    Ok(build(b, l, pa))
}

} // verus!
