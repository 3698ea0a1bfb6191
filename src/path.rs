use vstd::prelude::*;
use vstd::string::*;

use crate::error::{Error, ErrorView};

verus! {

/// A backend type that secret paths name: built from its name, and able to
/// give that name back.
pub trait SecretBackend: Sized {
    /// The backend that `name` stands for, if any.
    spec fn spec_from_name(name: Seq<char>) -> Option<Self>;

    /// The name of this backend.
    spec fn spec_name(&self) -> Seq<char>;

    /// A backend built from a name gives that name back.
    proof fn lemma_name_of_parsed(name: Seq<char>)
        requires
            Self::spec_from_name(name) is Some,
        ensures
            Self::spec_from_name(name)->0.spec_name() == name,
    ;

    fn from_name(name: &str) -> (r: Option<Self>)
        ensures
            r == Self::spec_from_name(name@),
    ;

    fn name(&self) -> (r: String)
        ensures
            r@ == self.spec_name(),
    ;
}

/// The two backends that this library serves.
#[derive(Debug, Clone, Copy, PartialEq, Eq, Structural)]
pub enum Backend {
    Vault,
    Const,
}

impl SecretBackend for Backend {
    open spec fn spec_from_name(name: Seq<char>) -> Option<Backend> {
        if name == seq!['v', 'a', 'u', 'l', 't'] {
            Some(Backend::Vault)
        } else if name == seq!['c', 'o', 'n', 's', 't'] {
            Some(Backend::Const)
        } else {
            None
        }
    }

    open spec fn spec_name(&self) -> Seq<char> {
        match self {
            Backend::Vault => seq!['v', 'a', 'u', 'l', 't'],
            Backend::Const => seq!['c', 'o', 'n', 's', 't'],
        }
    }

    proof fn lemma_name_of_parsed(name: Seq<char>) {
    }

    fn from_name(name: &str) -> (r: Option<Backend>) {
        let n = name.unicode_len();
        if n != 5 {
            return None;
        }
        let c0 = name.get_char(0);
        let c1 = name.get_char(1);
        let c2 = name.get_char(2);
        let c3 = name.get_char(3);
        let c4 = name.get_char(4);
        if c0 == 'v' && c1 == 'a' && c2 == 'u' && c3 == 'l' && c4 == 't' {
            assert(name@ =~= seq!['v', 'a', 'u', 'l', 't']);
            Some(Backend::Vault)
        } else if c0 == 'c' && c1 == 'o' && c2 == 'n' && c3 == 's' && c4 == 't' {
            assert(name@ =~= seq!['c', 'o', 'n', 's', 't']);
            Some(Backend::Const)
        } else {
            None
        }
    }

    fn name(&self) -> (r: String) {
        match self {
            Backend::Vault => {
                proof {
                    reveal_strlit("vault");
                }
                "vault".to_owned()
            },
            Backend::Const => {
                proof {
                    reveal_strlit("const");
                }
                "const".to_owned()
            },
        }
    }
}

/// An argument of a secret path: positional, or a keyword and its value.
#[derive(Debug, PartialEq, Eq)]
pub enum Arg<'a> {
    Arg(&'a str),
    KwArg((&'a str, &'a str)),
}

/// What an [`Arg`] holds, as character sequences.
pub enum ArgView {
    Arg(Seq<char>),
    KwArg(Seq<char>, Seq<char>),
}

impl<'a> Arg<'a> {
    pub open spec fn view(&self) -> ArgView {
        match self {
            Arg::Arg(s) => ArgView::Arg(s@),
            Arg::KwArg((k, v)) => ArgView::KwArg(k@, v@),
        }
    }

    /// The argument as it is written: `value` or `key=value`.
    pub fn to_string(&self) -> (r: String)
        ensures
            r@ == render_arg(self.view()),
    {
        match self {
            Arg::Arg(s) => (*s).to_owned(),
            Arg::KwArg((k, v)) => {
                let mut r = (*k).to_owned();
                proof {
                    reveal_strlit("=");
                }
                r.append("=");
                r.append(*v);
                r
            },
        }
    }
}

/// An argument as it is written: `value` or `key=value`.
pub open spec fn render_arg(a: ArgView) -> Seq<char> {
    match a {
        ArgView::Arg(x) => x,
        ArgView::KwArg(k, v) => k + seq!['='] + v,
    }
}

/// Arguments as they are written, separated by commas.
pub open spec fn join_args(l: Seq<ArgView>) -> Seq<char>
    decreases l.len(),
{
    if l.len() == 0 {
        seq![]
    } else if l.len() == 1 {
        render_arg(l[0])
    } else {
        join_args(l.drop_last()) + seq![','] + render_arg(l.last())
    }
}

pub open spec fn args_view<'a>(v: Seq<Arg<'a>>) -> Seq<ArgView> {
    v.map_values(|a: Arg<'a>| a.view())
}

/// What a parsed secret path holds, as character sequences.
pub struct PathView<T> {
    pub backend: T,
    pub args: Seq<Seq<char>>,
    pub kwargs: Option<Seq<(Seq<char>, Seq<char>)>>,
    pub path_anchor: Seq<char>,
    pub path: Seq<char>,
    pub anchor: Option<Seq<char>>,
}

/// A parsed secret path `backend:arg1,arg2,k=v:path#anchor`. Its texts are
/// slices of the parsed input.
#[derive(Debug, PartialEq)]
pub struct SecretPath<'a, T> {
    pub backend: T,
    pub args: Vec<&'a str>,
    pub kwargs: Option<Vec<(&'a str, &'a str)>>,
    /// the path with its anchor, as written
    pub path_anchor: &'a str,
    pub path: &'a str,
    pub anchor: Option<&'a str>,
}

pub open spec fn strs_view<'a>(v: Seq<&'a str>) -> Seq<Seq<char>> {
    v.map_values(|s: &'a str| s@)
}

pub open spec fn pairs_view<'a>(v: Seq<(&'a str, &'a str)>) -> Seq<(Seq<char>, Seq<char>)> {
    v.map_values(|p: (&'a str, &'a str)| (p.0@, p.1@))
}

/// The argument list that a secret path is written with: its positional
/// arguments, then its keyword arguments.
pub open spec fn display_args<T>(p: PathView<T>) -> Seq<ArgView> {
    as_positional(p.args) + match p.kwargs {
        Some(k) => as_keywords(k),
        None => Seq::<ArgView>::empty(),
    }
}

pub open spec fn as_positional(a: Seq<Seq<char>>) -> Seq<ArgView> {
    a.map_values(|x: Seq<char>| ArgView::Arg(x))
}

pub open spec fn as_keywords(k: Seq<(Seq<char>, Seq<char>)>) -> Seq<ArgView> {
    k.map_values(|kv: (Seq<char>, Seq<char>)| ArgView::KwArg(kv.0, kv.1))
}

/// The text of a secret path: `backend:args:path_anchor`.
pub open spec fn spec_display<T: SecretBackend>(p: PathView<T>) -> Seq<char> {
    p.backend.spec_name() + seq![':'] + join_args(display_args(p)) + seq![':'] + p.path_anchor
}

/// The arguments of `v` as they are written, separated by commas.
pub fn join_arg_list<'a>(v: &Vec<Arg<'a>>) -> (r: String)
    ensures
        r@ == join_args(args_view(v@)),
{
    let mut r = String::new();
    let mut i: usize = 0;
    while i < v.len()
        invariant
            0 <= i <= v@.len(),
            r@ == join_args(args_view(v@).subrange(0, i as int)),
        decreases v@.len() - i,
    {
        let ghost l = args_view(v@);
        let ghost before = r@;
        if i > 0 {
            proof {
                reveal_strlit(",");
            }
            r.append(",");
        }
        let a = v[i].to_string();
        r.append(a.as_str());
        proof {
            let next = l.subrange(0, i + 1);
            assert(next.drop_last() =~= l.subrange(0, i as int));
            assert(next.last() == v@[i as int].view());
            if i == 0 {
                assert(r@ =~= render_arg(next[0]));
            } else {
                assert(r@ =~= before + seq![','] + render_arg(next.last()));
            }
        }
        i += 1;
    }
    proof {
        assert(args_view(v@).subrange(0, i as int) =~= args_view(v@));
    }
    r
}

impl<'a, T: SecretBackend> SecretPath<'a, T> {
    /// The secret path written back as text.
    pub fn to_string(&self) -> (r: String)
        ensures
            r@ == spec_display(self.view()),
    {
        let mut all: Vec<Arg<'a>> = Vec::new();
        let mut i: usize = 0;
        while i < self.args.len()
            invariant
                0 <= i <= self.args@.len(),
                args_view(all@) == as_positional(strs_view(self.args@).subrange(0, i as int)),
            decreases self.args@.len() - i,
        {
            let ghost before = all@;
            all.push(Arg::Arg(self.args[i]));
            assert(all@ == before.push(Arg::Arg(self.args@[i as int])));
            let ghost sv = strs_view(self.args@);
            assert(args_view(all@) =~= args_view(before).push(ArgView::Arg(self.args@[i as int]@)));
            assert(sv.subrange(0, i + 1) =~= sv.subrange(0, i as int).push(self.args@[i as int]@));
            assert(as_positional(sv.subrange(0, i + 1)) =~= as_positional(sv.subrange(0, i as int)).push(
                ArgView::Arg(self.args@[i as int]@),
            ));
            assert(args_view(all@) =~= as_positional(strs_view(self.args@).subrange(0, i + 1)));
            i += 1;
        }
        let ghost pos = args_view(all@);
        assert(strs_view(self.args@).subrange(0, i as int) =~= strs_view(self.args@));
        match &self.kwargs {
            Some(k) => {
                let mut j: usize = 0;
                while j < k.len()
                    invariant
                        0 <= j <= k@.len(),
                        args_view(all@) == pos + as_keywords(pairs_view(k@).subrange(0, j as int)),
                    decreases k@.len() - j,
                {
                    let (kk, vv) = k[j];
                    let ghost before = all@;
                    all.push(Arg::KwArg((kk, vv)));
                    assert(all@ == before.push(Arg::KwArg((kk, vv))));
                    let ghost kv = pairs_view(k@);
                    assert(args_view(all@) =~= args_view(before).push(ArgView::KwArg(kk@, vv@)));
                    assert(kv.subrange(0, j + 1) =~= kv.subrange(0, j as int).push((kk@, vv@)));
                    assert(as_keywords(kv.subrange(0, j + 1)) =~= as_keywords(kv.subrange(0, j as int)).push(
                        ArgView::KwArg(kk@, vv@),
                    ));
                    assert(args_view(all@) =~= pos + as_keywords(pairs_view(k@).subrange(0, j + 1)));
                    j += 1;
                }
                assert(pairs_view(k@).subrange(0, j as int) =~= pairs_view(k@));
            },
            None => {
                assert(args_view(all@) =~= pos + Seq::<ArgView>::empty());
            },
        }
        assert(args_view(all@) =~= display_args(self.view()));
        let mut r = self.backend.name();
        proof {
            reveal_strlit(":");
        }
        r.append(":");
        let joined = join_arg_list(&all);
        r.append(joined.as_str());
        r.append(":");
        r.append(self.path_anchor);
        r
    }
}

impl<'a, T> SecretPath<'a, T> {
    pub open spec fn view(&self) -> PathView<T> {
        PathView {
            backend: self.backend,
            args: strs_view(self.args@),
            kwargs: match self.kwargs {
                Some(v) => Some(pairs_view(v@)),
                None => None,
            },
            path_anchor: self.path_anchor@,
            path: self.path@,
            anchor: match self.anchor {
                Some(a) => Some(a@),
                None => None,
            },
        }
    }
}

pub open spec fn is_alpha(c: char) -> bool {
    ('a' <= c && c <= 'z') || ('A' <= c && c <= 'Z')
}

/// The characters that end a literal.
pub open spec fn is_delim(c: char) -> bool {
    c == ':' || c == ',' || c == '='
}

/// Index of the first `c` in `s`, or the length of `s` if there is none.
pub open spec fn index_of(s: Seq<char>, c: char) -> int
    decreases s.len(),
{
    if s.len() == 0 || s[0] == c {
        0
    } else {
        1 + index_of(s.drop_first(), c)
    }
}

/// Index of the last `c` in `s`, or -1 if there is none.
pub open spec fn last_index_of(s: Seq<char>, c: char) -> int
    decreases s.len(),
{
    if s.len() == 0 {
        -1
    } else if s.last() == c {
        s.len() - 1
    } else {
        last_index_of(s.drop_last(), c)
    }
}

/// Length of the literal that starts `s`: its longest prefix free of ':', ',' and '='.
pub open spec fn literal_len(s: Seq<char>) -> int
    decreases s.len(),
{
    if s.len() == 0 || is_delim(s[0]) {
        0
    } else {
        1 + literal_len(s.drop_first())
    }
}

pub proof fn lemma_index_of(s: Seq<char>, c: char)
    ensures
        0 <= index_of(s, c) <= s.len(),
        forall|j: int| 0 <= j < index_of(s, c) ==> s[j] != c,
        index_of(s, c) < s.len() ==> s[index_of(s, c)] == c,
    decreases s.len(),
{
    if s.len() > 0 && s[0] != c {
        lemma_index_of(s.drop_first(), c);
        assert forall|j: int| 0 <= j < index_of(s, c) implies s[j] != c by {
            if j > 0 {
                assert(s[j] == s.drop_first()[j - 1]);
            }
        }
    }
}

pub proof fn lemma_index_of_unique(s: Seq<char>, c: char, k: int)
    requires
        0 <= k <= s.len(),
        forall|j: int| 0 <= j < k ==> s[j] != c,
        k < s.len() ==> s[k] == c,
    ensures
        index_of(s, c) == k,
{
    lemma_index_of(s, c);
}

pub proof fn lemma_last_index_of(s: Seq<char>, c: char)
    ensures
        -1 <= last_index_of(s, c) < s.len(),
        forall|j: int| last_index_of(s, c) < j < s.len() ==> s[j] != c,
        last_index_of(s, c) >= 0 ==> s[last_index_of(s, c)] == c,
    decreases s.len(),
{
    if s.len() > 0 && s.last() != c {
        lemma_last_index_of(s.drop_last(), c);
        assert forall|j: int| last_index_of(s, c) < j < s.len() implies s[j] != c by {
            if j < s.len() - 1 {
                assert(s[j] == s.drop_last()[j]);
            }
        }
    }
}

pub proof fn lemma_last_index_of_unique(s: Seq<char>, c: char, k: int)
    requires
        -1 <= k < s.len(),
        forall|j: int| k < j < s.len() ==> s[j] != c,
        k >= 0 ==> s[k] == c,
    ensures
        last_index_of(s, c) == k,
{
    lemma_last_index_of(s, c);
}

pub proof fn lemma_literal_len(s: Seq<char>)
    ensures
        0 <= literal_len(s) <= s.len(),
        forall|j: int| 0 <= j < literal_len(s) ==> !is_delim(s[j]),
        literal_len(s) < s.len() ==> is_delim(s[literal_len(s)]),
    decreases s.len(),
{
    if s.len() > 0 && !is_delim(s[0]) {
        lemma_literal_len(s.drop_first());
        assert forall|j: int| 0 <= j < literal_len(s) implies !is_delim(s[j]) by {
            if j > 0 {
                assert(s[j] == s.drop_first()[j - 1]);
            }
        }
    }
}

pub proof fn lemma_literal_len_unique(s: Seq<char>, k: int)
    requires
        0 <= k <= s.len(),
        forall|j: int| 0 <= j < k ==> !is_delim(s[j]),
        k < s.len() ==> is_delim(s[k]),
    ensures
        literal_len(s) == k,
{
    lemma_literal_len(s);
}

/// The positional arguments of `l`, in order.
pub open spec fn positional(l: Seq<ArgView>) -> Seq<Seq<char>>
    decreases l.len(),
{
    if l.len() == 0 {
        seq![]
    } else {
        let p = positional(l.drop_last());
        match l.last() {
            ArgView::Arg(a) => p.push(a),
            ArgView::KwArg(..) => p,
        }
    }
}

/// The keyword arguments of `l`, in order.
pub open spec fn keywords(l: Seq<ArgView>) -> Seq<(Seq<char>, Seq<char>)>
    decreases l.len(),
{
    if l.len() == 0 {
        seq![]
    } else {
        let p = keywords(l.drop_last());
        match l.last() {
            ArgView::Arg(_) => p,
            ArgView::KwArg(k, v) => p.push((k, v)),
        }
    }
}

/// The keyword arguments of `l`, or none if it has none.
pub open spec fn keywords_opt(l: Seq<ArgView>) -> Option<Seq<(Seq<char>, Seq<char>)>> {
    if keywords(l).len() == 0 {
        None
    } else {
        Some(keywords(l))
    }
}

/// The path part of a path with its anchor: all before the last '#'.
pub open spec fn path_of(pa: Seq<char>) -> Seq<char> {
    let h = last_index_of(pa, '#');
    if h >= 0 {
        pa.subrange(0, h)
    } else {
        pa
    }
}

/// The anchor of a path with its anchor: all after the last '#', if there is one.
pub open spec fn anchor_of(pa: Seq<char>) -> Option<Seq<char>> {
    let h = last_index_of(pa, '#');
    if h >= 0 {
        Some(pa.subrange(h + 1, pa.len() as int))
    } else {
        None
    }
}

/// The secret path made of a backend, an argument list and a path with its anchor.
pub open spec fn spec_build<T>(backend: T, l: Seq<ArgView>, pa: Seq<char>) -> PathView<T> {
    PathView {
        backend,
        args: positional(l),
        kwargs: keywords_opt(l),
        path_anchor: pa,
        path: path_of(pa),
        anchor: anchor_of(pa),
    }
}

/// The backend named by `tok`: a non-empty run of letters that `T` knows.
pub open spec fn spec_backend<T: SecretBackend>(tok: Seq<char>) -> Result<T, ErrorView> {
    if tok.len() == 0 {
        Err(ErrorView::NoBackend)
    } else if !(forall|i: int| 0 <= i < tok.len() ==> is_alpha(#[trigger] tok[i])) {
        Err(ErrorView::UnknowBackend(tok))
    } else {
        match T::spec_from_name(tok) {
            Some(b) => Ok(b),
            None => Err(ErrorView::UnknowBackend(tok)),
        }
    }
}

/// Index of the first `c` in `s`, or its length if there is none.
pub fn find_char(s: &str, c: char) -> (r: usize)
    ensures
        r as int == index_of(s@, c),
{
    let n = s.unicode_len();
    let mut i: usize = 0;
    while i < n
        invariant
            n == s@.len(),
            0 <= i <= n,
            forall|j: int| 0 <= j < i ==> s@[j] != c,
        decreases n - i,
    {
        if s.get_char(i) == c {
            proof {
                lemma_index_of_unique(s@, c, i as int);
            }
            return i;
        }
        i += 1;
    }
    proof {
        lemma_index_of_unique(s@, c, i as int);
    }
    i
}

/// Index of the last `c` in `s`, if there is one.
pub fn rfind_char(s: &str, c: char) -> (r: Option<usize>)
    ensures
        match r {
            Some(i) => i as int == last_index_of(s@, c),
            None => last_index_of(s@, c) == -1,
        },
{
    let n = s.unicode_len();
    let mut i: usize = n;
    while i > 0
        invariant
            n == s@.len(),
            0 <= i <= n,
            forall|j: int| i <= j < n ==> s@[j] != c,
        decreases i,
    {
        if s.get_char(i - 1) == c {
            proof {
                lemma_last_index_of_unique(s@, c, i - 1);
            }
            return Some(i - 1);
        }
        i -= 1;
    }
    proof {
        lemma_last_index_of_unique(s@, c, -1);
    }
    None
}

/// Length of the literal that starts `s`.
pub fn literal_length(s: &str) -> (r: usize)
    ensures
        r as int == literal_len(s@),
{
    let n = s.unicode_len();
    let mut i: usize = 0;
    while i < n
        invariant
            n == s@.len(),
            0 <= i <= n,
            forall|j: int| 0 <= j < i ==> !is_delim(s@[j]),
        decreases n - i,
    {
        let ch = s.get_char(i);
        if ch == ':' || ch == ',' || ch == '=' {
            proof {
                lemma_literal_len_unique(s@, i as int);
            }
            return i;
        }
        i += 1;
    }
    proof {
        lemma_literal_len_unique(s@, i as int);
    }
    i
}

/// The backend named by `tok`.
pub fn check_backend<T: SecretBackend>(tok: &str) -> (r: Result<T, Error>)
    ensures
        match r {
            Ok(b) => spec_backend::<T>(tok@) == Ok::<T, ErrorView>(b),
            Err(e) => spec_backend::<T>(tok@) == Err::<T, ErrorView>(e@),
        },
{
    let n = tok.unicode_len();
    if n == 0 {
        return Err(Error::NoBackend);
    }
    let mut i: usize = 0;
    while i < n
        invariant
            n == tok@.len(),
            0 <= i <= n,
            forall|j: int| 0 <= j < i ==> is_alpha(#[trigger] tok@[j]),
        decreases n - i,
    {
        let ch = tok.get_char(i);
        if !(('a' <= ch && ch <= 'z') || ('A' <= ch && ch <= 'Z')) {
            return Err(Error::UnknowBackend(tok.to_owned()));
        }
        i += 1;
    }
    match T::from_name(tok) {
        Some(b) => Ok(b),
        None => Err(Error::UnknowBackend(tok.to_owned())),
    }
}

/// Separate arguments into positional and keyword arguments, each in the
/// order of `args`; no keyword list when there is no keyword argument.
pub fn splitargs<'a>(args: Vec<Arg<'a>>) -> (r: (Vec<&'a str>, Option<Vec<(&'a str, &'a str)>>))
    ensures
        strs_view(r.0@) == positional(args_view(args@)),
        match r.1 {
            Some(k) => keywords_opt(args_view(args@)) == Some(pairs_view(k@)),
            None => keywords_opt(args_view(args@)) is None,
        },
{
    let mut pos: Vec<&'a str> = Vec::new();
    let mut kws: Vec<(&'a str, &'a str)> = Vec::new();
    let mut i: usize = 0;
    while i < args.len()
        invariant
            0 <= i <= args@.len(),
            strs_view(pos@) == positional(args_view(args@).subrange(0, i as int)),
            pairs_view(kws@) == keywords(args_view(args@).subrange(0, i as int)),
        decreases args@.len() - i,
    {
        let ghost l = args_view(args@);
        proof {
            assert(l.subrange(0, i + 1).drop_last() =~= l.subrange(0, i as int));
            assert(l.subrange(0, i + 1).last() == args@[i as int].view());
        }
        match &args[i] {
            Arg::Arg(s) => {
                pos.push(*s);
                assert(strs_view(pos@) =~= positional(l.subrange(0, i as int)).push(s@));
            },
            Arg::KwArg((k, v)) => {
                kws.push((*k, *v));
                assert(pairs_view(kws@) =~= keywords(l.subrange(0, i as int)).push((k@, v@)));
            },
        }
        i += 1;
    }
    proof {
        assert(args_view(args@).subrange(0, i as int) =~= args_view(args@));
    }
    if kws.len() == 0 {
        (pos, None)
    } else {
        (pos, Some(kws))
    }
}

/// Split a path with its anchor at its last '#'.
pub fn split_anchor<'a>(pa: &'a str) -> (r: (&'a str, Option<&'a str>))
    ensures
        r.0@ == path_of(pa@),
        match r.1 {
            Some(a) => anchor_of(pa@) == Some(a@),
            None => anchor_of(pa@) is None,
        },
{
    let n = pa.unicode_len();
    match rfind_char(pa, '#') {
        Some(h) => {
            proof {
                lemma_last_index_of(pa@, '#');
            }
            (pa.substring_char(0, h), Some(pa.substring_char(h + 1, n)))
        },
        None => (pa, None),
    }
}

/// The secret path made of a backend, its arguments and `pa`, the path with its anchor.
pub fn build<'a, T>(backend: T, args: Vec<Arg<'a>>, pa: &'a str) -> (r: SecretPath<'a, T>)
    ensures
        r.view() == spec_build(backend, args_view(args@), pa@),
{
    let (pos, kws) = splitargs(args);
    let (path, anchor) = split_anchor(pa);
    SecretPath { backend, args: pos, kwargs: kws, path_anchor: pa, path, anchor }
}

} // verus!
