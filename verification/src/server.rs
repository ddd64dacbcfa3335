//! What the language server computes for a completion request.
use vstd::prelude::*;

use crate::completion::{
    completion_item_for_score, extract_mention_token, is_candidate_for, mention_at,
    CompletionCandidate, Position, Range,
};
use crate::config::Config;
use crate::index::scoring::{entry_values, scored_views, search, search_result};
use crate::index::FileEntry;
use crate::order::{lemma_seq_lt_asymmetric, lemma_seq_lt_irreflexive, lemma_seq_lt_total, lemma_seq_lt_transitive, seq_lt};
use crate::text::chars_of;

verus! {

/// The completion items for a request at `position` of the open document
/// `text` (`None` when the document is unknown): none unless the cursor is
/// in a mention; otherwise one item per search result for the mention's
/// query, in rank order. `entries` is the current index and `current_file`
/// the components of the document's path, when it has one.
pub fn completion_candidates(
    text: Option<&str>,
    position: Position,
    config: &Config,
    entries: &Vec<FileEntry>,
    current_file: Option<&Vec<String>>,
) -> (r: Vec<CompletionCandidate>)
    ensures
        match text {
            None => r@.len() == 0,
            Some(t) => match mention_at(
                t@,
                position.line as nat,
                position.character as nat,
                config.completion.trigger@,
                config.completion.min_query_len as nat,
            ) {
                None => r@.len() == 0,
                Some((query, start)) => {
                    let results = search_result(
                        entry_values(entries@),
                        query,
                        match current_file {
                            Some(c) => Some(c.deep_view()),
                            None => None,
                        },
                        config.index.max_results as nat,
                    );
                    let range = Range {
                        start: Position { line: position.line, character: start as u32 },
                        end: position,
                    };
                    &&& r@.len() == results.len()
                    &&& forall|i: int|
                        0 <= i < r@.len() ==> is_candidate_for(
                            #[trigger] r@[i],
                            results[i],
                            range,
                            i as nat,
                            *config,
                        )
                }
            },
        },
{
    let text = match text {
        None => return Vec::new(),
        Some(t) => t,
    };
    let token = match extract_mention_token(text, position, config) {
        None => return Vec::new(),
        Some(token) => token,
    };
    let scored = search(entries, token.query.as_str(), current_file, &config.index);
    let ghost results = scored_views(scored@);
    let mut items: Vec<CompletionCandidate> = Vec::new();
    let mut i: usize = 0;
    while i < scored.len()
        invariant
            i <= scored@.len(),
            results == scored_views(scored@),
            items@.len() == i,
            forall|k: int|
                0 <= k < i ==> is_candidate_for(#[trigger] items@[k], results[k], token.range, k as nat, *config),
        decreases scored@.len() - i,
    {
        let item = completion_item_for_score(scored[i].clone(), &token, i, config);
        items.push(item);
        i += 1;
    }
    items
}

// ---------------------------------------------------------------------------
// Workspace roots
// ---------------------------------------------------------------------------

/// Where a component sorts among kinds: the root, `.`, `..`, then names.
pub open spec fn component_rank(c: Seq<char>) -> int {
    if c == seq!['/'] {
        1
    } else if c == seq!['.'] {
        2
    } else if c == seq!['.', '.'] {
        3
    } else {
        4
    }
}

/// Component order of `std::path::Component`: by kind, names by their text.
pub open spec fn component_lt(a: Seq<char>, b: Seq<char>) -> bool {
    component_rank(a) < component_rank(b) || (component_rank(a) == 4 && component_rank(b) == 4
        && seq_lt(a, b))
}

/// Path order of `std::path::Path`: component by component.
pub open spec fn path_lt(p: Seq<Seq<char>>, q: Seq<Seq<char>>) -> bool
    decreases p.len(),
{
    if p.len() == 0 {
        q.len() > 0
    } else if q.len() == 0 {
        false
    } else if p[0] != q[0] {
        component_lt(p[0], q[0])
    } else {
        path_lt(p.drop_first(), q.drop_first())
    }
}

proof fn lemma_component_lt_order(a: Seq<char>, b: Seq<char>, c: Seq<char>)
    ensures
        !component_lt(a, a),
        component_lt(a, b) && component_lt(b, c) ==> component_lt(a, c),
        a == b || component_lt(a, b) || component_lt(b, a),
{
    lemma_seq_lt_irreflexive(a);
    if component_lt(a, b) && component_lt(b, c) && component_rank(a) == 4 && component_rank(c) == 4 {
        lemma_seq_lt_transitive(a, b, c);
    }
    lemma_seq_lt_total(a, b);
}

proof fn lemma_path_lt_irreflexive(p: Seq<Seq<char>>)
    ensures
        !path_lt(p, p),
    decreases p.len(),
{
    if p.len() > 0 {
        lemma_path_lt_irreflexive(p.drop_first());
    }
}

proof fn lemma_path_lt_transitive(p: Seq<Seq<char>>, q: Seq<Seq<char>>, r: Seq<Seq<char>>)
    requires
        path_lt(p, q),
        path_lt(q, r),
    ensures
        path_lt(p, r),
    decreases p.len(),
{
    if p.len() > 0 && q.len() > 0 && r.len() > 0 {
        lemma_component_lt_order(p[0], q[0], r[0]);
        lemma_component_lt_order(q[0], r[0], p[0]);
        lemma_component_lt_order(p[0], r[0], q[0]);
        if p[0] == q[0] && q[0] == r[0] {
            lemma_path_lt_transitive(p.drop_first(), q.drop_first(), r.drop_first());
        } else if p[0] == r[0] {
            lemma_component_lt_order(p[0], q[0], p[0]);
        }
    }
}

proof fn lemma_path_lt_total(p: Seq<Seq<char>>, q: Seq<Seq<char>>)
    ensures
        p == q || path_lt(p, q) || path_lt(q, p),
    decreases p.len(),
{
    if p.len() > 0 && q.len() > 0 {
        lemma_component_lt_order(p[0], q[0], p[0]);
        if p[0] == q[0] {
            lemma_path_lt_total(p.drop_first(), q.drop_first());
            if p.drop_first() == q.drop_first() {
                assert(p =~= seq![p[0]] + p.drop_first());
                assert(q =~= seq![q[0]] + q.drop_first());
            }
        }
    } else if p.len() == 0 && q.len() == 0 {
        assert(p =~= q);
    }
}

/// `s` is strictly increasing in path order.
pub open spec fn paths_strictly_sorted(s: Seq<Seq<Seq<char>>>) -> bool {
    forall|i: int, j: int| 0 <= i < j < s.len() ==> path_lt(#[trigger] s[i], #[trigger] s[j])
}

/// The component paths of a vector of component vectors.
pub open spec fn path_views(v: Seq<Vec<String>>) -> Seq<Seq<Seq<char>>> {
    Seq::new(v.len(), |i: int| v[i].deep_view())
}

fn component_lt_exec(a: &String, b: &String) -> (r: bool)
    ensures
        r == component_lt(a@, b@),
{
    let ra = component_rank_exec(a);
    let rb = component_rank_exec(b);
    if ra != rb {
        return ra < rb;
    }
    if ra != 4 {
        return false;
    }
    crate::order::chars_less(&chars_of(a.as_str()), &chars_of(b.as_str()))
}

fn component_rank_exec(c: &String) -> (r: u8)
    ensures
        r == component_rank(c@),
{
    let cs = chars_of(c.as_str());
    if cs.len() == 1 && cs[0] == '/' {
        assert(cs@ =~= seq!['/']);
        return 1;
    }
    if cs.len() == 1 && cs[0] == '.' {
        assert(cs@ =~= seq!['.']);
        return 2;
    }
    if cs.len() == 2 && cs[0] == '.' && cs[1] == '.' {
        assert(cs@ =~= seq!['.', '.']);
        return 3;
    }
    assert(cs@ != seq!['/'] && cs@ != seq!['.'] && cs@ != seq!['.', '.']) by {
        if cs@.len() == 1 {
            assert(cs@[0] != seq!['/'][0] && cs@[0] != seq!['.'][0]);
        }
        if cs@.len() == 2 {
            assert(cs@[0] != '.' || cs@[1] != '.');
        }
    }
    4
}

fn path_lt_exec(p: &Vec<String>, q: &Vec<String>) -> (r: bool)
    ensures
        r == path_lt(p.deep_view(), q.deep_view()),
{
    let ghost pv = p.deep_view();
    let ghost qv = q.deep_view();
    let mut i: usize = 0;
    assert(pv.skip(0) =~= pv);
    assert(qv.skip(0) =~= qv);
    while i < p.len() && i < q.len() && p[i] == q[i]
        invariant
            i <= p@.len(),
            i <= q@.len(),
            pv == p.deep_view(),
            qv == q.deep_view(),
            path_lt(pv, qv) == path_lt(pv.skip(i as int), qv.skip(i as int)),
        decreases p@.len() - i,
    {
        assert(pv.skip(i as int)[0] == qv.skip(i as int)[0]);
        assert(pv.skip(i as int).drop_first() =~= pv.skip(i + 1));
        assert(qv.skip(i as int).drop_first() =~= qv.skip(i + 1));
        i += 1;
    }
    if i == p.len() {
        i < q.len()
    } else if i == q.len() {
        false
    } else {
        assert(pv.skip(i as int)[0] == p@[i as int]@);
        assert(qv.skip(i as int)[0] == q@[i as int]@);
        component_lt_exec(&p[i], &q[i])
    }
}

fn paths_equal(p: &Vec<String>, q: &Vec<String>) -> (r: bool)
    ensures
        r == (p.deep_view() == q.deep_view()),
{
    if p.len() != q.len() {
        assert(p.deep_view().len() != q.deep_view().len());
        return false;
    }
    let mut i: usize = 0;
    while i < p.len()
        invariant
            p@.len() == q@.len(),
            i <= p@.len(),
            forall|k: int| 0 <= k < i ==> p.deep_view()[k] == q.deep_view()[k],
        decreases p@.len() - i,
    {
        if p[i] != q[i] {
            assert(p.deep_view()[i as int] != q.deep_view()[i as int]);
            return false;
        }
        i += 1;
    }
    assert(p.deep_view() =~= q.deep_view());
    true
}

/// Adds path `x` to the strictly increasing `v`, where it belongs, unless present.
fn insert_path(v: &mut Vec<Vec<String>>, x: Vec<String>)
    requires
        paths_strictly_sorted(path_views(old(v)@)),
    ensures
        paths_strictly_sorted(path_views(final(v)@)),
        forall|q: Seq<Seq<char>>| path_views(final(v)@).contains(q) <==> (path_views(old(v)@).contains(q) || q == x.deep_view()),
{
    let ghost s = path_views(v@);
    let ghost xv = x.deep_view();
    let mut k: usize = 0;
    while k < v.len() && path_lt_exec(&v[k], &x)
        invariant
            k <= v@.len(),
            s == path_views(v@),
            xv == x.deep_view(),
            forall|j: int| 0 <= j < k ==> path_lt(#[trigger] s[j], xv),
        decreases v@.len() - k,
    {
        k += 1;
    }
    if k < v.len() {
        assert(s[k as int] == v@[k as int].deep_view());
        if paths_equal(&v[k], &x) {
            assert(s.contains(xv));
            return;
        }
        proof {
            lemma_path_lt_total(s[k as int], xv);
        }
    }
    v.insert(k, x);
    assert(path_views(v@) =~= s.insert(k as int, xv));
    proof {
        let t = path_views(v@);
        assert forall|i: int, j: int| 0 <= i < j < t.len() implies path_lt(#[trigger] t[i], #[trigger] t[j]) by {
            if j < k {
            } else if j == k {
                assert(t[i] == s[i]);
            } else if i == k {
                assert(t[j] == s[j - 1]);
                if j - 1 > k {
                    lemma_path_lt_transitive(xv, s[k as int], s[j - 1]);
                }
            } else if i < k {
                assert(t[i] == s[i] && t[j] == s[j - 1]);
            } else {
                assert(t[i] == s[i - 1] && t[j] == s[j - 1]);
            }
        }
        assert forall|q: Seq<Seq<char>>| t.contains(q) <==> (s.contains(q) || q == xv) by {
            if t.contains(q) {
                let i = choose|i: int| 0 <= i < t.len() && t[i] == q;
                if i < k {
                    assert(s[i] == q);
                } else if i > k {
                    assert(s[i - 1] == q);
                }
            }
            if s.contains(q) {
                let i = choose|i: int| 0 <= i < s.len() && s[i] == q;
                if i < k {
                    assert(t[i] == q);
                } else {
                    assert(t[i + 1] == q);
                }
            }
            if q == xv {
                assert(t[k as int] == q);
            }
        }
    }
}

/// The component path held by an optional path, if any.
pub open spec fn optional_path_view(o: Option<Vec<String>>) -> Option<Seq<Seq<char>>> {
    match o {
        Some(d) => Some(d.deep_view()),
        None => None,
    }
}

/// The workspace roots to index: the directories of the workspace folders,
/// or, when there are none, the directory of the root URI; sorted in path
/// order, each once. The caller resolves URIs to existing directories.
pub fn workspace_roots(folder_dirs: Vec<Vec<String>>, root_dir: Option<Vec<String>>) -> (r: Vec<Vec<String>>)
    ensures
        paths_strictly_sorted(path_views(r@)),
        forall|q: Seq<Seq<char>>|
            path_views(r@).contains(q) <==> if folder_dirs@.len() > 0 {
                path_views(folder_dirs@).contains(q)
            } else {
                match root_dir {
                    Some(d) => q == d.deep_view(),
                    None => false,
                }
            },
{
    let ghost fv = path_views(folder_dirs@);
    let ghost rd = optional_path_view(root_dir);
    let candidates: Vec<Vec<String>> = if folder_dirs.len() > 0 {
        folder_dirs
    } else {
        match root_dir {
            Some(d) => {
                let mut v: Vec<Vec<String>> = Vec::new();
                v.push(d);
                v
            },
            None => Vec::new(),
        }
    };
    let ghost cv = path_views(candidates@);
    let mut out: Vec<Vec<String>> = Vec::new();
    let n = candidates.len();
    let mut rest = candidates;
    // Take the candidates from the back; membership does not depend on order.
    while rest.len() > 0
        invariant
            n == cv.len(),
            rest@.len() <= n,
            forall|j: int| 0 <= j < rest@.len() ==> #[trigger] path_views(rest@)[j] == cv[j],
            paths_strictly_sorted(path_views(out@)),
            forall|q: Seq<Seq<char>>| path_views(out@).contains(q) <==> exists|j: int| rest@.len() <= j < n && cv[j] == q,
        decreases rest@.len(),
    {
        let ghost m = rest@.len();
        let ghost old_rest = rest@;
        let x = rest.pop().unwrap();
        assert(rest@ == old_rest.drop_last() && x == old_rest.last());
        assert(x.deep_view() == cv[m - 1]) by {
            assert(path_views(old_rest)[m - 1] == cv[m - 1]);
        }
        assert forall|j: int| 0 <= j < rest@.len() implies #[trigger] path_views(rest@)[j] == cv[j] by {
            assert(path_views(old_rest)[j] == cv[j]);
        }
        let ghost before = path_views(out@);
        insert_path(&mut out, x);
        assert forall|q: Seq<Seq<char>>| path_views(out@).contains(q) <==> exists|j: int| m - 1 <= j < n && cv[j] == q by {
            if q == cv[m - 1] {
                assert(exists|j: int| m - 1 <= j < n && cv[j] == q);
            }
            if exists|j: int| m - 1 <= j < n && cv[j] == q {
                let j = choose|j: int| m - 1 <= j < n && cv[j] == q;
                if j > m - 1 {
                    assert(before.contains(q));
                }
            }
        }
    }
    assert forall|q: Seq<Seq<char>>| path_views(out@).contains(q) <==> cv.contains(q) by {
        if cv.contains(q) {
            let j = choose|j: int| 0 <= j < cv.len() && cv[j] == q;
            assert(exists|j: int| 0 <= j < n && cv[j] == q);
        }
    }
    proof {
        if fv.len() > 0 {
            assert(cv == fv);
        } else {
            match rd {
                Some(d) => {
                    assert(cv.len() == 1 && cv[0] == d);
                    assert forall|q: Seq<Seq<char>>| cv.contains(q) <==> q == d by {
                        if q == d {
                            assert(cv[0] == q);
                        }
                    }
                },
                None => {
                    assert(cv.len() == 0);
                },
            }
        }
    }
    out
}

} // verus!
