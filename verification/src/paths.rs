//! Paths as sequences of components, following the rules of
//! `std::path::Path::components` for `/`-separated paths.
//!
//! A component is written as a string: the root as `"/"`, the current
//! directory as `"."`, the parent directory as `".."`, and a name as itself.
use vstd::prelude::*;

use crate::text::{push_char, sub_chars};

verus! {

/// The pieces of `s` between `'/'` separators (`"a//b"` gives `a`, ``, `b`).
pub open spec fn split_slash(s: Seq<char>) -> Seq<Seq<char>>
    decreases s.len(),
{
    if s.len() == 0 {
        seq![Seq::empty()]
    } else {
        let p = split_slash(s.drop_last());
        if s.last() == '/' {
            p.push(Seq::empty())
        } else {
            p.update(p.len() - 1, p.last().push(s.last()))
        }
    }
}

proof fn lemma_split_slash_nonempty(s: Seq<char>)
    ensures
        split_slash(s).len() >= 1,
        split_slash(s).len() == 1 ==> split_slash(s)[0] == s,
    decreases s.len(),
{
    if s.len() > 0 {
        lemma_split_slash_nonempty(s.drop_last());
        if split_slash(s.drop_last()).len() == 1 && s.last() != '/' {
            assert(s.drop_last().push(s.last()) =~= s);
        }
    }
}

/// Keeps the pieces that name something: not empty and not `"."`.
pub open spec fn named_pieces(p: Seq<Seq<char>>) -> Seq<Seq<char>>
    decreases p.len(),
{
    if p.len() == 0 {
        Seq::empty()
    } else if p.last().len() > 0 && p.last() != seq!['.'] {
        named_pieces(p.drop_last()).push(p.last())
    } else {
        named_pieces(p.drop_last())
    }
}

/// The components of path `s`: a root when `s` starts with `/`, a leading
/// `"."` when `s` starts with one, then every other piece except empty and
/// `"."` ones.
pub open spec fn path_components(s: Seq<char>) -> Seq<Seq<char>> {
    let p = split_slash(s);
    let lead: Seq<Seq<char>> = if p[0].len() == 0 {
        if p.len() > 1 {
            seq![seq!['/']]
        } else {
            Seq::empty()
        }
    } else {
        seq![p[0]]
    };
    lead + named_pieces(p.drop_first())
}

/// `parts` joined with `/` between them.
pub open spec fn join_slash(parts: Seq<Seq<char>>) -> Seq<char>
    decreases parts.len(),
{
    if parts.len() == 0 {
        Seq::empty()
    } else if parts.len() == 1 {
        parts[0]
    } else {
        join_slash(parts.drop_last()) + seq!['/'] + parts.last()
    }
}

/// The character sequences held by a vector of character vectors.
pub open spec fn char_rows(v: Seq<Vec<char>>) -> Seq<Seq<char>> {
    Seq::new(v.len(), |i: int| v[i]@)
}

/// The pieces of `s` between `'/'` separators.
pub fn split_on_slash(s: &Vec<char>) -> (r: Vec<Vec<char>>)
    ensures
        char_rows(r@) == split_slash(s@),
{
    let mut pieces: Vec<Vec<char>> = Vec::new();
    let mut cur: Vec<char> = Vec::new();
    let mut i: usize = 0;
    assert(s@.take(0) =~= Seq::<char>::empty());
    while i < s.len()
        invariant
            i <= s@.len(),
            char_rows(pieces@).push(cur@) == split_slash(s@.take(i as int)),
        decreases s@.len() - i,
    {
        let c = s[i];
        let ghost prev = char_rows(pieces@).push(cur@);
        assert(s@.take(i + 1).drop_last() =~= s@.take(i as int));
        if c == '/' {
            pieces.push(cur);
            cur = Vec::new();
            assert(char_rows(pieces@).push(cur@) =~= prev.push(Seq::empty()));
        } else {
            cur.push(c);
            assert(char_rows(pieces@).push(cur@) =~= prev.update(prev.len() - 1, prev.last().push(c)));
        }
        i += 1;
    }
    assert(s@.take(s@.len() as int) =~= s@);
    pieces.push(cur);
    pieces
}

/// The components of path `s` (see [`path_components`]).
pub fn components_of(s: &Vec<char>) -> (r: Vec<Vec<char>>)
    ensures
        char_rows(r@) == path_components(s@),
{
    let pieces = split_on_slash(s);
    proof {
        lemma_split_slash_nonempty(s@);
    }
    let ghost p = split_slash(s@);
    let mut out: Vec<Vec<char>> = Vec::new();
    if pieces[0].len() == 0 {
        if pieces.len() > 1 {
            let mut root: Vec<char> = Vec::new();
            root.push('/');
            out.push(root);
        }
    } else {
        out.push(sub_chars(&pieces[0], 0, pieces[0].len()));
        assert(pieces[0]@.subrange(0, pieces[0]@.len() as int) =~= pieces[0]@);
    }
    let ghost lead = char_rows(out@);
    assert(lead == (if p[0].len() == 0 {
        if p.len() > 1 {
            seq![seq!['/']]
        } else {
            Seq::<Seq<char>>::empty()
        }
    } else {
        seq![p[0]]
    }));
    let mut i: usize = 1;
    assert(p.drop_first().take(0) =~= Seq::<Seq<char>>::empty());
    while i < pieces.len()
        invariant
            1 <= i <= pieces@.len(),
            char_rows(pieces@) == p,
            p.len() >= 1,
            char_rows(out@) == lead + named_pieces(p.drop_first().take(i - 1)),
        decreases pieces@.len() - i,
    {
        let piece = &pieces[i];
        let keep = piece.len() > 0 && !(piece.len() == 1 && piece[0] == '.');
        let ghost before = p.drop_first().take(i - 1);
        assert(p.drop_first().take(i as int).drop_last() =~= before);
        assert(p.drop_first().take(i as int).last() == p[i as int]);
        assert(piece@ == p[i as int]);
        if keep {
            assert(piece@ != seq!['.']) by {
                if piece@.len() == 1 {
                    assert(piece@[0] != '.');
                }
            }
            let ghost prev_rows = char_rows(out@);
            out.push(sub_chars(piece, 0, piece.len()));
            assert(piece@.subrange(0, piece@.len() as int) =~= piece@);
            assert(char_rows(out@) =~= prev_rows.push(p[i as int]));
            assert(named_pieces(p.drop_first().take(i as int)) =~= named_pieces(before).push(
                p[i as int],
            ));
            assert(char_rows(out@) =~= lead + named_pieces(p.drop_first().take(i as int)));
        } else {
            assert(piece@.len() == 0 || piece@ =~= seq!['.']);
            assert(named_pieces(p.drop_first().take(i as int)) =~= named_pieces(before));
        }
        i += 1;
    }
    assert(p.drop_first().take(i - 1) =~= p.drop_first());
    out
}

/// `parts` joined with `/` between them.
pub fn join_with_slash(parts: &Vec<String>) -> (r: String)
    ensures
        r@ == join_slash(parts.deep_view()),
{
    let mut out = String::new();
    let mut i: usize = 0;
    assert(parts.deep_view().take(0) =~= Seq::<Seq<char>>::empty());
    while i < parts.len()
        invariant
            i <= parts@.len(),
            out@ == join_slash(parts.deep_view().take(i as int)),
        decreases parts@.len() - i,
    {
        let ghost pv = parts.deep_view();
        assert(pv.take(i + 1).drop_last() =~= pv.take(i as int));
        assert(pv.take(i + 1).last() == parts[i as int]@);
        if i > 0 {
            push_char(&mut out, '/');
        } else {
            assert(pv.take(1) =~= seq![parts[0]@]);
        }
        out.append(parts[i].as_str());
        i += 1;
    }
    assert(parts.deep_view().take(parts@.len() as int) =~= parts.deep_view());
    out
}

/// A path component that names a file or directory plainly: not empty, not
/// `"."`, and free of `/` and `\\`.
pub open spec fn plain_name(c: Seq<char>) -> bool {
    &&& c.len() > 0
    &&& c != seq!['.']
    &&& !c.contains('/')
    &&& !c.contains('\\')
}

proof fn lemma_split_slash_append_free(s: Seq<char>, t: Seq<char>)
    requires
        !t.contains('/'),
    ensures
        split_slash(s + t) == split_slash(s).update(
            split_slash(s).len() - 1,
            split_slash(s).last() + t,
        ),
    decreases t.len(),
{
    lemma_split_slash_nonempty(s);
    if t.len() == 0 {
        assert(s + t =~= s);
        assert(split_slash(s).last() + t =~= split_slash(s).last());
        assert(split_slash(s).update(split_slash(s).len() - 1, split_slash(s).last())
            =~= split_slash(s));
    } else {
        let t0 = t.drop_last();
        assert(!t0.contains('/')) by {
            if t0.contains('/') {
                let i = choose|i: int| 0 <= i < t0.len() && t0[i] == '/';
                assert(t[i] == '/');
            }
        }
        lemma_split_slash_append_free(s, t0);
        assert((s + t).drop_last() =~= s + t0);
        assert((s + t).last() == t.last());
        assert(t.last() != '/') by {
            if t.last() == '/' {
                assert(t[t.len() - 1] == '/');
            }
        }
        let p = split_slash(s);
        let q = split_slash(s + t0);
        assert(q.len() == p.len());
        assert(q.last() == p.last() + t0);
        assert((p.last() + t0).push(t.last()) =~= p.last() + t);
        assert(q.update(q.len() - 1, q.last().push(t.last())) =~= p.update(p.len() - 1, p.last() + t));
    }
}

proof fn lemma_split_slash_of_joined(cs: Seq<Seq<char>>)
    requires
        cs.len() >= 1,
        forall|i: int| 0 <= i < cs.len() ==> !(#[trigger] cs[i]).contains('/'),
    ensures
        split_slash(join_slash(cs)) == cs,
    decreases cs.len(),
{
    if cs.len() == 1 {
        lemma_split_slash_append_free(Seq::empty(), cs[0]);
        assert(Seq::<char>::empty() + cs[0] =~= cs[0]);
        assert(split_slash(Seq::<char>::empty()) =~= seq![Seq::<char>::empty()]);
        assert(Seq::<char>::empty() + cs[0] =~= cs[0]);
        assert(seq![Seq::<char>::empty()].update(0, Seq::<char>::empty() + cs[0]) =~= cs);
    } else {
        let d = cs.drop_last();
        assert forall|i: int| 0 <= i < d.len() implies !(#[trigger] d[i]).contains('/') by {
            assert(d[i] == cs[i]);
        }
        lemma_split_slash_of_joined(d);
        let j = join_slash(d);
        assert(join_slash(cs) == j + seq!['/'] + cs.last());
        assert(!cs.last().contains('/')) by {
            assert(cs.last() == cs[cs.len() - 1]);
        }
        lemma_split_slash_append_free(j.push('/'), cs.last());
        assert(j + seq!['/'] =~= j.push('/'));
        assert(j.push('/').drop_last() =~= j);
        let pd = split_slash(j.push('/'));
        assert(pd == d.push(Seq::<char>::empty()));
        assert(Seq::<char>::empty() + cs.last() =~= cs.last());
        assert(pd.update(pd.len() - 1, pd.last() + cs.last()) =~= cs);
    }
}

proof fn lemma_named_pieces_of_names(p: Seq<Seq<char>>)
    requires
        forall|i: int| 0 <= i < p.len() ==> plain_name(#[trigger] p[i]),
    ensures
        named_pieces(p) == p,
    decreases p.len(),
{
    if p.len() > 0 {
        let d = p.drop_last();
        assert forall|i: int| 0 <= i < d.len() implies plain_name(#[trigger] d[i]) by {
            assert(d[i] == p[i]);
        }
        lemma_named_pieces_of_names(d);
        assert(plain_name(p[p.len() - 1]));
        assert(d.push(p.last()) =~= p);
    }
}

/// Plain names joined with `/` read back as those names: the components of
/// the joined path are the names themselves.
pub proof fn joined_names_read_back(cs: Seq<Seq<char>>)
    requires
        cs.len() >= 1,
        forall|i: int| 0 <= i < cs.len() ==> plain_name(#[trigger] cs[i]),
    ensures
        path_components(join_slash(cs)) == cs,
{
    assert forall|i: int| 0 <= i < cs.len() implies !(#[trigger] cs[i]).contains('/') by {
        assert(plain_name(cs[i]));
    }
    lemma_split_slash_of_joined(cs);
    let d = cs.drop_first();
    assert forall|i: int| 0 <= i < d.len() implies plain_name(#[trigger] d[i]) by {
        assert(d[i] == cs[i + 1]);
    }
    lemma_named_pieces_of_names(d);
    assert(plain_name(cs[0]));
    assert(seq![cs[0]] + d =~= cs);
}

/// Joining names that hold no `\\` gives a text without `\\`.
pub proof fn lemma_join_slash_no_backslash(cs: Seq<Seq<char>>)
    requires
        forall|i: int| 0 <= i < cs.len() ==> !(#[trigger] cs[i]).contains('\\'),
    ensures
        !join_slash(cs).contains('\\'),
    decreases cs.len(),
{
    if cs.len() == 1 {
        assert(!cs[0].contains('\\'));
    } else if cs.len() > 1 {
        let d = cs.drop_last();
        assert forall|i: int| 0 <= i < d.len() implies !(#[trigger] d[i]).contains('\\') by {
            assert(d[i] == cs[i]);
        }
        lemma_join_slash_no_backslash(d);
        let j = join_slash(d);
        let l = cs.last();
        assert(!l.contains('\\')) by {
            assert(l == cs[cs.len() - 1]);
        }
        let r = j + seq!['/'] + l;
        assert(join_slash(cs) == r);
        if r.contains('\\') {
            let k = choose|k: int| 0 <= k < r.len() && r[k] == '\\';
            if k < j.len() {
                assert(r[k] == j[k]);
            } else if k > j.len() {
                assert(r[k] == l[k - j.len() - 1]);
            }
        }
    }
}

} // verus!
