use vstd::prelude::*;

use crate::error::{ErrorView, same_kind};
use crate::parser::{spec_arg_list, spec_elem, spec_grammar_parse};
use crate::parser_simple::{spec_piece, spec_scan_parse, spec_split_args};
use crate::path::{
    ArgView, PathView, SecretBackend, as_keywords, as_positional, display_args, index_of, join_args,
    keywords, keywords_opt, lemma_index_of, lemma_index_of_unique, lemma_literal_len,
    lemma_literal_len_unique, literal_len, positional, render_arg, spec_backend, spec_build,
    spec_display,
};

verus! {

/// What an argument leaves behind is a suffix of its input.
proof fn lemma_elem_suffix(s: Seq<char>)
    ensures
        spec_elem(s) matches Some((r, _)) ==> r.len() <= s.len() && r =~= s.subrange(
            s.len() - r.len(),
            s.len() as int,
        ),
{
    lemma_literal_len(s);
    let k = literal_len(s);
    if k > 0 {
        let r = s.subrange(k, s.len() as int);
        if r.len() > 0 {
            lemma_literal_len(r.drop_first());
        }
    }
}

/// What an argument list leaves behind is a suffix of its input.
proof fn lemma_arg_list_suffix(s: Seq<char>)
    ensures
        spec_arg_list(s) matches Some((r, _)) ==> r.len() <= s.len() && r =~= s.subrange(
            s.len() - r.len(),
            s.len() as int,
        ),
    decreases s.len(),
{
    lemma_elem_suffix(s);
    if let Some((r, a)) = spec_elem(s) {
        if r.len() > 0 && r[0] == ',' {
            lemma_arg_list_suffix(r.drop_first());
        }
    }
}

/// Where the text before the first ':' of `r` begins with a piece (the text up
/// to its first ','), the grammar reads the same argument from `r` as the
/// scanner reads from that piece; where the piece is no argument, the grammar
/// reads none, or stops before a '='.
proof fn lemma_elem_of_piece(r: Seq<char>)
    requires
        index_of(r, ':') < r.len(),
    ensures
        ({
            let c = index_of(r, ':');
            let t = r.subrange(0, c);
            let m = index_of(t, ',');
            let p = t.subrange(0, m);
            match spec_piece(p) {
                Some(a) => spec_elem(r) == Some((r.subrange(m, r.len() as int), a)),
                None => spec_elem(r) matches Some((r2, _)) ==> (r2.len() > 0 && r2[0] == '='),
            }
        }),
{
    let c = index_of(r, ':');
    let t = r.subrange(0, c);
    let m = index_of(t, ',');
    let p = t.subrange(0, m);
    lemma_index_of(r, ':');
    lemma_index_of(t, ',');
    let q = index_of(p, '=');
    lemma_index_of(p, '=');
    assert(r[m] == ',' || r[m] == ':') by {
        if m < c {
            assert(t[m] == r[m]);
        }
    }
    assert forall|j: int| 0 <= j < m implies r[j] != ':' && r[j] != ',' by {
        assert(t[j] == r[j]);
    }
    if p.len() == 0 {
        lemma_literal_len_unique(r, 0);
    } else if q >= p.len() {
        assert forall|j: int| 0 <= j < m implies !crate::path::is_delim(r[j]) by {
            assert(p[j] == r[j]);
        }
        lemma_literal_len_unique(r, m);
        assert(r.subrange(0, m) =~= p);
    } else if q == 0 {
        assert(p[0] == r[0]);
        lemma_literal_len_unique(r, 0);
    } else {
        assert forall|j: int| 0 <= j < q implies !crate::path::is_delim(r[j]) by {
            assert(p[j] == r[j]);
        }
        assert(p[q] == r[q]);
        lemma_literal_len_unique(r, q);
        let rq = r.subrange(q, r.len() as int);
        let r1 = rq.drop_first();
        let v = p.subrange(q + 1, p.len() as int);
        let w = index_of(v, '=');
        lemma_index_of(v, '=');
        assert forall|j: int| 0 <= j < v.len() implies r1[j] == v[j] && r1[j] != ':' && r1[j]
            != ',' by {
            assert(v[j] == p[q + 1 + j]);
            assert(p[q + 1 + j] == r[q + 1 + j]);
        }
        assert(r1[v.len() as int] == r[m]);
        if v.len() == 0 {
            lemma_literal_len_unique(r1, 0);
        } else if w < v.len() {
            lemma_literal_len_unique(r1, w);
            lemma_literal_len(r1);
            if w > 0 {
                assert(r1.subrange(w, r1.len() as int)[0] == '=');
            }
        } else {
            lemma_literal_len_unique(r1, v.len() as int);
            assert(r1.subrange(0, v.len() as int) =~= v);
            assert(r1.subrange(v.len() as int, r1.len() as int) =~= r.subrange(m, r.len() as int));
            assert(r.subrange(0, q) =~= p.subrange(0, q));
        }
    }
}

/// Up to the first ':' of `r`, the grammar's argument list and the scanner's
/// split at ',' read the same arguments; the grammar stops at that ':' exactly
/// when the scanner accepts the text before it.
proof fn lemma_arg_lists_agree(r: Seq<char>)
    requires
        index_of(r, ':') < r.len(),
    ensures
        ({
            let c = index_of(r, ':');
            let t = r.subrange(0, c);
            &&& spec_split_args(t) matches Some(l) ==> spec_arg_list(r) == Some(
                (r.subrange(c, r.len() as int), l),
            )
            &&& spec_arg_list(r) matches Some((r2, l)) ==> (r2.len() > 0 && r2[0] == ':'
                ==> spec_split_args(t) == Some(l))
        }),
    decreases r.len(),
{
    let c = index_of(r, ':');
    let t = r.subrange(0, c);
    let m = index_of(t, ',');
    let p = t.subrange(0, m);
    lemma_index_of(r, ':');
    lemma_index_of(t, ',');
    lemma_elem_of_piece(r);
    match spec_piece(p) {
        None => {},
        Some(a) => {
            let rest = r.subrange(m, r.len() as int);
            if m >= t.len() {
                assert(rest[0] == ':');
                assert(rest =~= r.subrange(c, r.len() as int));
            } else {
                assert(t[m] == ',');
                assert(rest[0] == ',');
                let r3 = rest.drop_first();
                let c3 = c - m - 1;
                assert forall|j: int| 0 <= j < c3 implies r3[j] != ':' by {
                    assert(r3[j] == r[m + 1 + j]);
                }
                assert(r3[c3] == r[c]);
                lemma_index_of_unique(r3, ':', c3);
                assert(r3.subrange(0, c3) =~= t.subrange(m + 1, t.len() as int));
                assert(r3.subrange(c3, r3.len() as int) =~= r.subrange(c, r.len() as int));
                lemma_arg_lists_agree(r3);
            }
        },
    }
}

/// The two parsing strategies agree: on every input both accept with the same
/// secret path, or both refuse with an error of the same kind.
pub proof fn lemma_strategies_agree<T: SecretBackend>(s: Seq<char>)
    ensures
        match (spec_grammar_parse::<T>(s), spec_scan_parse::<T>(s)) {
            (Ok(a), Ok(b)) => a == b,
            (Err(e1), Err(e2)) => same_kind(e1, e2),
            _ => false,
        },
{
    let b = index_of(s, ':');
    lemma_index_of(s, ':');
    if b < s.len() {
        let rg = s.subrange(b, s.len() as int);
        let r = s.subrange(b + 1, s.len() as int);
        assert(rg.drop_first() =~= r);
        let c = index_of(r, ':');
        lemma_index_of(r, ':');
        lemma_arg_list_suffix(r);
        if c < r.len() {
            lemma_arg_lists_agree(r);
            let rc = r.subrange(c, r.len() as int);
            assert(rc.drop_first() =~= r.subrange(c + 1, r.len() as int));
        } else {
            if let Some((r2, l)) = spec_arg_list(r) {
                if r2.len() > 0 {
                    assert(r2[0] == r[r.len() - r2.len()]);
                }
            }
        }
    } else {
        assert(s.subrange(b, s.len() as int).len() == 0);
    }
}

/// Arguments in the order in which a secret path is written back: no
/// positional argument after a keyword argument.
pub open spec fn keywords_last(l: Seq<ArgView>) -> bool {
    forall|i: int, j: int| 0 <= i < j < l.len() && l[i] is KwArg ==> l[j] is KwArg
}

/// The argument text of `s`: what stands between its first and its second ':'.
pub open spec fn args_text(s: Seq<char>) -> Seq<char> {
    let r = s.subrange(index_of(s, ':') + 1, s.len() as int);
    r.subrange(0, index_of(r, ':'))
}

proof fn lemma_render_piece(p: Seq<char>)
    requires
        spec_piece(p) is Some,
    ensures
        render_arg(spec_piece(p)->0) == p,
{
    let q = index_of(p, '=');
    lemma_index_of(p, '=');
    if q < p.len() {
        assert(p.subrange(0, q) + seq!['='] + p.subrange(q + 1, p.len() as int) =~= p);
    }
}

proof fn lemma_join_cons(a: ArgView, l: Seq<ArgView>)
    requires
        l.len() > 0,
    ensures
        join_args(seq![a] + l) == render_arg(a) + seq![','] + join_args(l),
    decreases l.len(),
{
    let al = seq![a] + l;
    assert(al.last() == l.last());
    if l.len() == 1 {
        assert(al.drop_last() =~= seq![a]);
        assert(l.last() == l[0]);
        assert(seq![a][0] == a);
        assert(join_args(seq![a]) == render_arg(a));
        assert(join_args(l) == render_arg(l[0]));
        assert(join_args(al) == join_args(al.drop_last()) + seq![','] + render_arg(al.last()));
    } else {
        assert(al.drop_last() =~= seq![a] + l.drop_last());
        lemma_join_cons(a, l.drop_last());
        assert(join_args(al) == join_args(al.drop_last()) + seq![','] + render_arg(al.last()));
        assert(join_args(l) == join_args(l.drop_last()) + seq![','] + render_arg(l.last()));
        assert(join_args(al) =~= render_arg(a) + seq![','] + join_args(l.drop_last()) + seq![',']
            + render_arg(l.last()));
    }
}

proof fn lemma_join_split(t: Seq<char>)
    requires
        spec_split_args(t) is Some,
    ensures
        join_args(spec_split_args(t)->0) == t,
    decreases t.len(),
{
    let k = index_of(t, ',');
    lemma_index_of(t, ',');
    let p = t.subrange(0, k);
    lemma_render_piece(p);
    let a = spec_piece(p)->0;
    if k >= t.len() {
        assert(p =~= t);
    } else {
        let t2 = t.subrange(k + 1, t.len() as int);
        lemma_join_split(t2);
        let l2 = spec_split_args(t2)->0;
        lemma_join_cons(a, l2);
        assert(p + seq![','] + t2 =~= t);
    }
}

proof fn lemma_all_positional(l: Seq<ArgView>)
    requires
        forall|i: int| 0 <= i < l.len() ==> l[i] is Arg,
    ensures
        keywords(l).len() == 0,
        as_positional(positional(l)) == l,
    decreases l.len(),
{
    if l.len() > 0 {
        let l1 = l.drop_last();
        lemma_all_positional(l1);
        assert(l.last() is Arg);
        let x = l.last()->Arg_0;
        assert(positional(l) == positional(l1).push(x));
        assert(as_positional(positional(l1).push(x)) =~= as_positional(positional(l1)).push(
            ArgView::Arg(x),
        ));
        assert(l1.push(l.last()) =~= l);
    } else {
        assert(as_positional(positional(l)) =~= l);
    }
}

proof fn lemma_display_args(l: Seq<ArgView>)
    requires
        keywords_last(l),
    ensures
        as_positional(positional(l)) + as_keywords(keywords(l)) == l,
    decreases l.len(),
{
    if l.len() == 0 {
        assert(as_positional(positional(l)) + as_keywords(keywords(l)) =~= l);
    } else {
        let l1 = l.drop_last();
        assert(keywords_last(l1));
        match l.last() {
            ArgView::KwArg(k, v) => {
                lemma_display_args(l1);
                assert(keywords(l) == keywords(l1).push((k, v)));
                assert(positional(l) == positional(l1));
                assert(as_keywords(keywords(l1).push((k, v))) =~= as_keywords(keywords(l1)).push(
                    ArgView::KwArg(k, v),
                ));
                assert(l1.push(l.last()) =~= l);
                assert(as_positional(positional(l)) + as_keywords(keywords(l)) =~= l);
            },
            ArgView::Arg(x) => {
                assert forall|i: int| 0 <= i < l.len() implies l[i] is Arg by {
                    if !(l[i] is Arg) {
                        assert(l[i] is KwArg && l[l.len() - 1] is Arg);
                    }
                }
                lemma_all_positional(l);
                assert(as_keywords(keywords(l)) =~= Seq::<ArgView>::empty());
                assert(as_positional(positional(l)) + as_keywords(keywords(l)) =~= l);
            },
        }
    }
}

/// A secret path that was parsed and is written back gives the parsed text,
/// where its positional arguments come before its keyword arguments. Both
/// strategies parse it alike.
pub proof fn lemma_round_trip<T: SecretBackend>(s: Seq<char>)
    requires
        spec_scan_parse::<T>(s) is Ok,
        spec_split_args(args_text(s)) matches Some(l) && keywords_last(l),
    ensures
        spec_scan_parse::<T>(s) matches Ok(p) && spec_display(p) == s,
        spec_grammar_parse::<T>(s) == spec_scan_parse::<T>(s),
{
    lemma_strategies_agree::<T>(s);
    let b = index_of(s, ':');
    lemma_index_of(s, ':');
    let tok = s.subrange(0, b);
    T::lemma_name_of_parsed(tok);
    let r = s.subrange(b + 1, s.len() as int);
    let c = index_of(r, ':');
    lemma_index_of(r, ':');
    let t = r.subrange(0, c);
    let pa = r.subrange(c + 1, r.len() as int);
    let l = spec_split_args(t)->0;
    lemma_join_split(t);
    lemma_display_args(l);
    let p = spec_build(spec_backend::<T>(tok)->Ok_0, l, pa);
    assert(display_args(p) == l) by {
        if keywords(l).len() == 0 {
            assert(as_keywords(keywords(l)) =~= Seq::<ArgView>::empty());
            assert(as_positional(positional(l)) + Seq::<ArgView>::empty() =~= as_positional(positional(l)));
        }
    }
    assert(tok + seq![':'] + t + seq![':'] + pa =~= s);
}

/// Both strategies refuse an empty input for its missing backend, and any
/// other input without a ':' for its missing arguments.
pub proof fn lemma_missing_parts<T: SecretBackend>(s: Seq<char>)
    ensures
        s.len() == 0 ==> spec_grammar_parse::<T>(s) == Err::<PathView<T>, ErrorView>(
            ErrorView::NoBackend,
        ) && spec_scan_parse::<T>(s) == Err::<PathView<T>, ErrorView>(ErrorView::NoBackend),
        s.len() > 0 && index_of(s, ':') == s.len() ==> spec_grammar_parse::<T>(s) == Err::<
            PathView<T>,
            ErrorView,
        >(ErrorView::NoArgs(s)) && spec_scan_parse::<T>(s) == Err::<PathView<T>, ErrorView>(
            ErrorView::NoArgs(s),
        ),
{
    lemma_index_of(s, ':');
    assert(s.subrange(s.len() as int, s.len() as int) =~= Seq::<char>::empty());
}

} // verus!
