//! Paths compared as `Path` compares them on Unix: by their components, so
//! that `/a//b/` and `/a/./b` are the same path as `/a/b`.
use vstd::prelude::*;
use crate::text::{char_rows, chars_equal, to_chars};

verus! {

/// The pieces of `s` between slashes, as `split('/')` gives them.
pub open spec fn slash_pieces(s: Seq<char>) -> Seq<Seq<char>>
    decreases s.len(),
{
    if s.len() == 0 {
        seq![Seq::empty()]
    } else {
        let p = slash_pieces(s.drop_last());
        if s.last() == '/' {
            p.push(Seq::empty())
        } else {
            p.update(p.len() - 1, p.last().push(s.last()))
        }
    }
}

pub proof fn lemma_slash_pieces_len(s: Seq<char>)
    ensures
        slash_pieces(s).len() >= 1,
    decreases s.len(),
{
    if s.len() > 0 {
        lemma_slash_pieces_len(s.drop_last());
    }
}

/// The pieces that name something: neither empty nor `.`.
pub open spec fn named_pieces(ps: Seq<Seq<char>>) -> Seq<Seq<char>>
    decreases ps.len(),
{
    if ps.len() == 0 {
        Seq::empty()
    } else {
        let acc = named_pieces(ps.drop_last());
        let x = ps.last();
        if x.len() == 0 || x == seq!['.'] {
            acc
        } else {
            acc.push(x)
        }
    }
}

/// `Path::components` on Unix, each component as its text: the root `/`
/// when the path starts with a slash, else `.` when its first piece is `.`;
/// then every piece that is neither empty nor `.`.
pub open spec fn path_components(s: Seq<char>) -> Seq<Seq<char>> {
    let lead = if s.len() > 0 && s[0] == '/' {
        seq![seq!['/']]
    } else if slash_pieces(s)[0] == seq!['.'] {
        seq![seq!['.']]
    } else {
        Seq::empty()
    };
    lead + named_pieces(slash_pieces(s))
}

/// `a` and `b` are the same path: they have the same components.
pub open spec fn same_path(a: Seq<char>, b: Seq<char>) -> bool {
    path_components(a) == path_components(b)
}

/// `v` holds a path that is the same path as `x`.
pub open spec fn has_path(v: Seq<Seq<char>>, x: Seq<char>) -> bool {
    exists|k: int| #![trigger v[k]] 0 <= k < v.len() && same_path(v[k], x)
}

/// A trailing slash does not change the path named.
pub proof fn lemma_trailing_slash(s: Seq<char>)
    requires
        s.len() > 0,
    ensures
        same_path(s.push('/'), s),
{
    lemma_slash_pieces_len(s);
    let t = s.push('/');
    assert(t.drop_last() =~= s);
    assert(slash_pieces(t) == slash_pieces(s).push(Seq::empty()));
    assert(slash_pieces(s).push(Seq::<char>::empty()).drop_last() =~= slash_pieces(s));
    assert(t[0] == s[0]);
    assert(slash_pieces(t)[0] == slash_pieces(s)[0]);
}

/// Being the same path is an equivalence.
pub proof fn lemma_same_path_equivalence(a: Seq<char>, b: Seq<char>, c: Seq<char>)
    ensures
        same_path(a, a),
        same_path(a, b) ==> same_path(b, a),
        same_path(a, b) && same_path(b, c) ==> same_path(a, c),
{
}

/// The pieces of `s` between slashes.
fn split_slashes(s: &Vec<char>) -> (r: Vec<Vec<char>>)
    ensures
        char_rows(r@) == slash_pieces(s@),
{
    let mut done: Vec<Vec<char>> = Vec::new();
    let mut cur: Vec<char> = Vec::new();
    let mut i: usize = 0;
    assert(s@.take(0) =~= Seq::<char>::empty());
    assert(char_rows(done@).push(cur@) =~= slash_pieces(s@.take(0)));
    while i < s.len()
        invariant
            i <= s.len(),
            char_rows(done@).push(cur@) == slash_pieces(s@.take(i as int)),
        decreases s.len() - i,
    {
        let ghost before = char_rows(done@).push(cur@);
        assert(s@.take(i + 1).drop_last() =~= s@.take(i as int));
        assert(s@.take(i + 1).last() == s@[i as int]);
        if s[i] == '/' {
            let piece = cur;
            done.push(piece);
            cur = Vec::new();
            assert(char_rows(done@).push(cur@) =~= before.push(Seq::empty()));
        } else {
            cur.push(s[i]);
            assert(char_rows(done@).push(cur@) =~= before.update(
                before.len() - 1,
                before.last().push(s@[i as int]),
            ));
        }
        i = i + 1;
    }
    assert(s@.take(s.len() as int) =~= s@);
    let ghost rows = char_rows(done@).push(cur@);
    done.push(cur);
    assert(char_rows(done@) =~= rows);
    done
}

/// The components of the path `s`, each as its text.
pub fn path_components_of(s: &str) -> (r: Vec<Vec<char>>)
    ensures
        char_rows(r@) == path_components(s@),
{
    let chars = to_chars(s);
    let pieces = split_slashes(&chars);
    proof {
        lemma_slash_pieces_len(s@);
    }
    let ghost ps = char_rows(pieces@);
    let mut r: Vec<Vec<char>> = Vec::new();
    if chars.len() > 0 && chars[0] == '/' {
        r.push(vec!['/']);
        assert(r@[0]@ =~= seq!['/']);
        assert(char_rows(r@) =~= seq![seq!['/']]);
    } else if pieces[0].len() == 1 && pieces[0][0] == '.' {
        assert(ps[0] =~= seq!['.']);
        r.push(vec!['.']);
        assert(r@[0]@ =~= seq!['.']);
        assert(char_rows(r@) =~= seq![seq!['.']]);
    } else {
        assert(ps[0] != seq!['.']) by {
            if ps[0] == seq!['.'] {
                assert(ps[0][0] == '.');
            }
        }
    }
    assert(char_rows(r@) == (if s@.len() > 0 && s@[0] == '/' {
        seq![seq!['/']]
    } else if slash_pieces(s@)[0] == seq!['.'] {
        seq![seq!['.']]
    } else {
        Seq::<Seq<char>>::empty()
    }));
    let ghost lead = char_rows(r@);
    assert(lead + named_pieces(ps.take(0)) =~= lead);
    let mut k: usize = 0;
    while k < pieces.len()
        invariant
            k <= pieces.len(),
            ps == char_rows(pieces@),
            ps == slash_pieces(s@),
            char_rows(r@) == lead + named_pieces(ps.take(k as int)),
        decreases pieces.len() - k,
    {
        assert(ps.take(k + 1).drop_last() =~= ps.take(k as int));
        assert(ps.take(k + 1).last() == pieces@[k as int]@);
        let p = &pieces[k];
        let is_dot = p.len() == 1 && p[0] == '.';
        assert(is_dot == (p@ == seq!['.'])) by {
            if p@ == seq!['.'] {
                assert(p@[0] == '.');
            }
            if is_dot {
                assert(p@ =~= seq!['.']);
            }
        }
        if p.len() > 0 && !is_dot {
            let ghost before = char_rows(r@);
            r.push(p.clone());
            assert(char_rows(r@) =~= before.push(p@));
        }
        k = k + 1;
    }
    assert(ps.take(pieces.len() as int) =~= ps);
    r
}

/// Whether two lists of texts are equal.
fn rows_equal(a: &Vec<Vec<char>>, b: &Vec<Vec<char>>) -> (r: bool)
    ensures
        r == (char_rows(a@) == char_rows(b@)),
{
    if a.len() != b.len() {
        assert(char_rows(a@).len() != char_rows(b@).len());
        return false;
    }
    let mut k: usize = 0;
    while k < a.len()
        invariant
            k <= a.len(),
            a.len() == b.len(),
            forall|j: int| 0 <= j < k ==> a@[j]@ == b@[j]@,
        decreases a.len() - k,
    {
        if !chars_equal(&a[k], &b[k]) {
            assert(char_rows(a@)[k as int] != char_rows(b@)[k as int]);
            return false;
        }
        k = k + 1;
    }
    assert(char_rows(a@) =~= char_rows(b@));
    true
}

/// Whether `a` and `b` are the same path.
pub fn paths_equal(a: &String, b: &String) -> (r: bool)
    ensures
        r == same_path(a@, b@),
{
    let ca = path_components_of(a.as_str());
    let cb = path_components_of(b.as_str());
    rows_equal(&ca, &cb)
}

/// Whether `v` holds the same path as `s`.
pub fn contains_path(v: &Vec<String>, s: &String) -> (r: bool)
    ensures
        r == has_path(v.deep_view(), s@),
{
    let mut i: usize = 0;
    while i < v.len()
        invariant
            i <= v.len(),
            forall|k: int| 0 <= k < i ==> !same_path(v.deep_view()[k], s@),
        decreases v.len() - i,
    {
        if paths_equal(&v[i], s) {
            assert(v.deep_view()[i as int] == v@[i as int]@);
            return true;
        }
        assert(v.deep_view()[i as int] == v@[i as int]@);
        i = i + 1;
    }
    false
}

} // verus!
