use vstd::prelude::*;
use vstd::string::*;

use crate::error::{Error, ErrorView};
use crate::path::{
    Arg, ArgView, PathView, SecretBackend, SecretPath, args_view, build, check_backend, find_char,
    index_of, lemma_index_of, spec_backend, spec_build,
};

verus! {

/// States of the scanner: which part of `backend:args:path` comes next.
#[derive(Debug, Clone, Copy, PartialEq, Eq, Structural)]
pub enum Pos {
    Backend,
    Args,
    Path,
}

/// Yields the three successive slices of `backend:args:path`, separated by
/// colons. Backend and args cannot hold a ':'; there is no escaping.
pub struct SecretPathIterator<'a> {
    pub remainder: &'a str,
    pub pos: Pos,
}

impl<'a> SecretPathIterator<'a> {
    pub fn new(s: &'a str) -> (r: Self)
        ensures
            r.remainder@ == s@,
            r.pos == Pos::Backend,
    {
        SecretPathIterator { remainder: s, pos: Pos::Backend }
    }

    /// Hands out the whole remainder, if it is not empty.
    pub fn yield_remainder(&mut self) -> (r: Option<&'a str>)
        ensures
            final(self).pos == old(self).pos,
            old(self).remainder@.len() == 0 ==> (r is None && final(self).remainder@
                == old(self).remainder@),
            old(self).remainder@.len() > 0 ==> (r matches Some(s) && s@ == old(self).remainder@
                && final(self).remainder@.len() == 0),
    {
        let remainder = self.remainder;
        if remainder.is_empty() {
            None
        } else {
            self.remainder = "";
            proof {
                reveal_strlit("");
            }
            Some(remainder)
        }
    }

    /// Hands out the slice up to the first ':' and moves past that ':'.
    pub fn yield_colon(&mut self) -> (r: Option<&'a str>)
        ensures
            final(self).pos == old(self).pos,
            ({
                let s = old(self).remainder@;
                let k = index_of(s, ':');
                if k < s.len() {
                    r matches Some(t) && t@ == s.subrange(0, k) && final(self).remainder@
                        == s.subrange(k + 1, s.len() as int)
                } else {
                    r is None && final(self).remainder@ == s
                }
            }),
    {
        let s = self.remainder;
        let n = s.unicode_len();
        let k = find_char(s, ':');
        proof {
            lemma_index_of(s@, ':');
        }
        if k < n {
            let res = s.substring_char(0, k);
            self.remainder = s.substring_char(k + 1, n);
            Some(res)
        } else {
            None
        }
    }

    /// The next part: the backend, then the arguments, then the path.
    pub fn next(&mut self) -> (r: Option<&'a str>)
        ensures
            ({
                let s = old(self).remainder@;
                let k = index_of(s, ':');
                if s.len() == 0 {
                    r is None && *final(self) == *old(self)
                } else if old(self).pos == Pos::Path {
                    r matches Some(t) && t@ == s && final(self).remainder@.len() == 0
                        && final(self).pos == Pos::Path
                } else {
                    &&& final(self).pos == (if old(self).pos == Pos::Backend {
                        Pos::Args
                    } else {
                        Pos::Path
                    })
                    &&& if k < s.len() {
                        r matches Some(t) && t@ == s.subrange(0, k) && final(self).remainder@
                            == s.subrange(k + 1, s.len() as int)
                    } else {
                        r is None && final(self).remainder@ == s
                    }
                }
            }),
    {
        if self.remainder.is_empty() {
            None
        } else {
            match self.pos {
                Pos::Backend => {
                    self.pos = Pos::Args;
                    self.yield_colon()
                },
                Pos::Args => {
                    self.pos = Pos::Path;
                    self.yield_colon()
                },
                Pos::Path => self.yield_remainder(),
            }
        }
    }
}

/// The argument that one comma-free piece of the argument text stands for:
/// `value`, or `key=value` with a non-empty key and a non-empty value free of '='.
pub open spec fn spec_piece(p: Seq<char>) -> Option<ArgView> {
    let q = index_of(p, '=');
    if p.len() == 0 {
        None
    } else if q >= p.len() {
        Some(ArgView::Arg(p))
    } else {
        let v = p.subrange(q + 1, p.len() as int);
        if q == 0 || v.len() == 0 || index_of(v, '=') < v.len() {
            None
        } else {
            Some(ArgView::KwArg(p.subrange(0, q), v))
        }
    }
}

/// The argument list that the argument text `t` stands for, split at each ','.
pub open spec fn spec_split_args(t: Seq<char>) -> Option<Seq<ArgView>>
    decreases t.len(),
    via split_args_decreases
{
    let k = index_of(t, ',');
    match spec_piece(t.subrange(0, k)) {
        None => None,
        Some(a) => if k >= t.len() {
            Some(seq![a])
        } else {
            match spec_split_args(t.subrange(k + 1, t.len() as int)) {
                None => None,
                Some(l) => Some(seq![a] + l),
            }
        },
    }
}

#[via_fn]
pub proof fn split_args_decreases(t: Seq<char>) {
    lemma_index_of(t, ',');
}

/// What the scanner makes of `s`: it splits `s` at its first and second ':'.
pub open spec fn spec_scan_parse<T: SecretBackend>(s: Seq<char>) -> Result<PathView<T>, ErrorView> {
    let b = index_of(s, ':');
    if s.len() == 0 {
        Err(ErrorView::NoBackend)
    } else if b >= s.len() {
        Err(ErrorView::NoArgs(s))
    } else {
        match spec_backend::<T>(s.subrange(0, b)) {
            Err(e) => Err(e),
            Ok(backend) => {
                let r = s.subrange(b + 1, s.len() as int);
                let c = index_of(r, ':');
                if c >= r.len() {
                    Err(ErrorView::NoPath(r))
                } else {
                    let t = r.subrange(0, c);
                    let pa = r.subrange(c + 1, r.len() as int);
                    match spec_split_args(t) {
                        None => Err(ErrorView::NoPath(t)),
                        Some(l) => if pa.len() == 0 {
                            Err(ErrorView::NoPath(pa))
                        } else {
                            Ok(spec_build(backend, l, pa))
                        },
                    }
                }
            },
        }
    }
}

/// The argument that the piece `p` stands for.
pub fn piece_arg<'a>(p: &'a str) -> (r: Option<Arg<'a>>)
    ensures
        match r {
            Some(a) => spec_piece(p@) == Some(a.view()),
            None => spec_piece(p@) is None,
        },
{
    let n = p.unicode_len();
    if n == 0 {
        return None;
    }
    let q = find_char(p, '=');
    proof {
        lemma_index_of(p@, '=');
    }
    if q >= n {
        return Some(Arg::Arg(p));
    }
    let v = p.substring_char(q + 1, n);
    let vn = v.unicode_len();
    if q == 0 || vn == 0 || find_char(v, '=') < vn {
        None
    } else {
        Some(Arg::KwArg((p.substring_char(0, q), v)))
    }
}

/// The argument list that the argument text `t` stands for.
pub fn split_args<'a>(t: &'a str) -> (r: Option<Vec<Arg<'a>>>)
    ensures
        match r {
            Some(v) => spec_split_args(t@) == Some(args_view(v@)),
            None => spec_split_args(t@) is None,
        },
    decreases t@.len(),
{
    let n = t.unicode_len();
    let k = find_char(t, ',');
    proof {
        lemma_index_of(t@, ',');
    }
    let a = match piece_arg(t.substring_char(0, k)) {
        Some(a) => a,
        None => return None,
    };
    if k >= n {
        let v = vec![a];
        assert(args_view(v@) =~= seq![a.view()]);
        return Some(v);
    }
    match split_args(t.substring_char(k + 1, n)) {
        None => None,
        Some(rest) => {
            let ghost rv = args_view(rest@);
            let mut v = rest;
            v.insert(0, a);
            assert(args_view(v@) =~= seq![a.view()] + rv);
            Some(v)
        },
    }
}

/// Parse a secret path by splitting it at its first and second ':'.
pub fn parse<'a, T: SecretBackend>(path: &'a str) -> (r: Result<SecretPath<'a, T>, Error>)
    ensures
        match r {
            Ok(p) => spec_scan_parse::<T>(path@) == Ok::<PathView<T>, ErrorView>(p.view()),
            Err(e) => spec_scan_parse::<T>(path@) == Err::<PathView<T>, ErrorView>(e@),
        },
{
    let ghost s = path@;
    proof {
        lemma_index_of(s, ':');
    }
    let mut it = SecretPathIterator::new(path);
    let backend_str = match it.next() {
        Some(b) => b,
        None => {
            if path.is_empty() {
                return Err(Error::NoBackend);
            }
            return Err(Error::NoArgs(path.to_owned()));
        },
    };
    let backend: T = check_backend(backend_str)?;
    let ghost r = s.subrange(index_of(s, ':') + 1, s.len() as int);
    proof {
        lemma_index_of(r, ':');
    }
    let args_str = match it.next() {
        Some(a) => a,
        None => {
            return Err(Error::NoPath(it.remainder.to_owned()));
        },
    };
    let args = match split_args(args_str) {
        Some(v) => v,
        None => {
            return Err(Error::NoPath(args_str.to_owned()));
        },
    };
    let ghost c = index_of(r, ':');
    assert(it.pos == Pos::Path);
    assert(it.remainder@ == r.subrange(c + 1, r.len() as int));
    let path_anchor = match it.next() {
        Some(p) => p,
        None => {
            assert(r.subrange(c + 1, r.len() as int) =~= Seq::<char>::empty());
            return Err(Error::NoPath(String::new()));
        },
    };
    Ok(build(backend, args, path_anchor))
}

impl<'a, T: SecretBackend> SecretPath<'a, T> {
    /// Build a SecretPath from the text that it borrows from.
    pub fn try_from(path: &'a str) -> (r: Result<Self, Error>)
        ensures
            match r {
                Ok(p) => spec_scan_parse::<T>(path@) == Ok::<PathView<T>, ErrorView>(p.view()),
                Err(e) => spec_scan_parse::<T>(path@) == Err::<PathView<T>, ErrorView>(e@),
            },
    {
        parse(path)
    }
}

} // verus!
