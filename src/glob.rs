//! Case-insensitive name matching with `*` wildcards, as used by `find`.
use vstd::prelude::*;
use vstd::utf8::{decode_utf8, encode_utf8};

verus! {

/// What `str::to_lowercase` makes of a string.
pub uninterp spec fn lower_of(s: Seq<char>) -> Seq<char>;

/// Relies on `str::to_lowercase`, whose result depends on the characters
/// alone; the characters of the result are collected in order.
#[verifier::external_body]
fn lowercase_chars(s: &str) -> (r: Vec<char>)
    ensures
        r@ == lower_of(s@),
{
    s.to_lowercase().chars().collect()
}

/// `p` split at every `*`: one more piece than there are stars.
pub open spec fn split_star(p: Seq<char>) -> Seq<Seq<char>>
    decreases p.len(),
{
    if p.len() == 0 {
        seq![Seq::empty()]
    } else if p.last() == '*' {
        split_star(p.drop_last()).push(Seq::empty())
    } else {
        let pieces = split_star(p.drop_last());
        pieces.update(pieces.len() - 1, pieces.last().push(p.last()))
    }
}

/// The contents of each vector, in order.
pub open spec fn views(v: Seq<Vec<char>>) -> Seq<Seq<char>> {
    Seq::new(v.len(), |i: int| v[i]@)
}

pub open spec fn occurs_at(t: Seq<char>, part: Seq<char>, k: int) -> bool {
    0 <= k && k + part.len() <= t.len() && t.subrange(k, k + part.len()) == part
}

/// The first position at or after `from` where `part` occurs in `t`.
pub open spec fn find_from(t: Seq<char>, part: Seq<char>, from: int) -> Option<int>
    decreases t.len() + 1 - from,
{
    if from < 0 || from + part.len() > t.len() {
        None
    } else if occurs_at(t, part, from) {
        Some(from)
    } else {
        find_from(t, part, from + 1)
    }
}

pub open spec fn ends_with(t: Seq<char>, s: Seq<char>) -> bool {
    s.len() <= t.len() && t.subrange(t.len() - s.len(), t.len() as int) == s
}

/// Places the pieces from `i` on, left to right, each at its first
/// occurrence at or after `pos`; the first piece must start the text.
/// Gives the position after the last piece placed, or `None`.
pub open spec fn scan(t: Seq<char>, pieces: Seq<Seq<char>>, i: int, pos: int) -> Option<int>
    decreases pieces.len() - i,
{
    if i < 0 || i >= pieces.len() {
        Some(pos)
    } else if pieces[i].len() == 0 {
        scan(t, pieces, i + 1, pos)
    } else if i == 0 {
        if occurs_at(t, pieces[0], 0) {
            scan(t, pieces, 1, pieces[0].len() as int)
        } else {
            None
        }
    } else {
        match find_from(t, pieces[i], pos) {
            Some(k) => scan(t, pieces, i + 1, k + pieces[i].len()),
            None => None,
        }
    }
}

/// Whether the lower-cased pattern `p` matches the lower-cased name `t`.
/// Without a `*`, `p` need only occur somewhere in `t`. With one, the pieces
/// between stars are placed from the left as `scan` does; unless `p` ends
/// with `*`, the match must also reach the end of `t`, or `t` must end with
/// the last piece.
pub open spec fn folded_match(p: Seq<char>, t: Seq<char>) -> bool {
    if !p.contains('*') {
        find_from(t, p, 0) is Some
    } else {
        let pieces = split_star(p);
        match scan(t, pieces, 0, 0) {
            None => false,
            Some(pos) => p.last() == '*' || pos == t.len() || ends_with(t, pieces.last()),
        }
    }
}

proof fn lemma_split_star_nonempty(p: Seq<char>)
    ensures
        split_star(p).len() >= 1,
    decreases p.len(),
{
    if p.len() > 0 {
        lemma_split_star_nonempty(p.drop_last());
    }
}

proof fn lemma_find_from_bounds(t: Seq<char>, part: Seq<char>, from: int)
    ensures
        find_from(t, part, from) matches Some(k) ==> from <= k && occurs_at(t, part, k),
    decreases t.len() + 1 - from,
{
    if !(from < 0 || from + part.len() > t.len()) && !occurs_at(t, part, from) {
        lemma_find_from_bounds(t, part, from + 1);
    }
}

fn occurs_at_exec(t: &Vec<char>, part: &Vec<char>, k: usize) -> (r: bool)
    requires
        k + part@.len() <= t@.len(),
    ensures
        r == occurs_at(t@, part@, k as int),
{
    let n = t.len();
    let mut j: usize = 0;
    while j < part.len()
        invariant
            j <= part@.len(),
            n == t@.len(),
            k + part@.len() <= t@.len(),
            forall|m: int| 0 <= m < j ==> t@[k + m] == part@[m],
        decreases part@.len() - j,
    {
        assert(k + j < t@.len());
        if t[k + j] != part[j] {
            assert(t@.subrange(k as int, k + part@.len())[j as int] != part@[j as int]);
            return false;
        }
        j += 1;
    }
    assert(t@.subrange(k as int, k + part@.len()) =~= part@);
    true
}

fn find_from_exec(t: &Vec<char>, part: &Vec<char>, from: usize) -> (r: Option<usize>)
    ensures
        match r {
            Some(k) => find_from(t@, part@, from as int) == Some(k as int),
            None => find_from(t@, part@, from as int) is None,
        },
{
    if part.len() == 0 {
        if from <= t.len() {
            assert(t@.subrange(from as int, from as int) =~= part@);
            return Some(from);
        }
        return None;
    }
    let mut k = from;
    while k <= t.len() && part.len() <= t.len() - k
        invariant
            from <= k,
            part@.len() >= 1,
            find_from(t@, part@, from as int) == find_from(t@, part@, k as int),
        decreases t@.len() + 1 - k,
    {
        if occurs_at_exec(t, part, k) {
            return Some(k);
        }
        assert(k < t@.len());
        k += 1;
    }
    None
}

fn split_star_exec(p: &Vec<char>) -> (r: Vec<Vec<char>>)
    ensures
        views(r@) == split_star(p@),
{
    let mut pieces: Vec<Vec<char>> = Vec::new();
    pieces.push(Vec::new());
    let mut i: usize = 0;
    assert(p@.subrange(0, 0) =~= Seq::<char>::empty());
    assert(views(pieces@) =~= split_star(p@.subrange(0, 0)));
    while i < p.len()
        invariant
            i <= p@.len(),
            pieces@.len() >= 1,
            views(pieces@) == split_star(p@.subrange(0, i as int)),
        decreases p@.len() - i,
    {
        let ghost pre = p@.subrange(0, i + 1);
        assert(pre.drop_last() =~= p@.subrange(0, i as int));
        assert(pre.last() == p@[i as int]);
        let ghost before = views(pieces@);
        if p[i] == '*' {
            pieces.push(Vec::new());
            assert(views(pieces@) =~= before.push(Seq::empty()));
        } else {
            let last = pieces.len() - 1;
            let mut piece = pieces.remove(last);
            piece.push(p[i]);
            pieces.push(piece);
            assert(views(pieces@) =~= before.update(
                before.len() - 1,
                before.last().push(p@[i as int]),
            ));
        }
        i += 1;
    }
    assert(p@.subrange(0, p@.len() as int) =~= p@);
    pieces
}

fn contains_star(p: &Vec<char>) -> (r: bool)
    ensures
        r == p@.contains('*'),
{
    let mut i: usize = 0;
    while i < p.len()
        invariant
            i <= p@.len(),
            forall|m: int| 0 <= m < i ==> p@[m] != '*',
        decreases p@.len() - i,
    {
        if p[i] == '*' {
            return true;
        }
        i += 1;
    }
    false
}

fn ends_with_exec(t: &Vec<char>, s: &Vec<char>) -> (r: bool)
    ensures
        r == ends_with(t@, s@),
{
    if s.len() > t.len() {
        return false;
    }
    occurs_at_exec(t, s, t.len() - s.len())
}

/// Matches a lower-cased pattern against a lower-cased name.
pub fn matches_folded(p: &Vec<char>, t: &Vec<char>) -> (r: bool)
    ensures
        r == folded_match(p@, t@),
{
    if !contains_star(p) {
        return find_from_exec(t, p, 0).is_some();
    }
    let pieces = split_star_exec(p);
    let ghost ps = views(pieces@);
    proof {
        lemma_split_star_nonempty(p@);
    }
    let n = t.len();
    let mut pos: usize = 0;
    let mut i: usize = 0;
    while i < pieces.len()
        invariant
            n == t@.len(),
            p@.contains('*'),
            ps == split_star(p@),
            ps.len() >= 1,
            ps == views(pieces@),
            pos <= t@.len(),
            scan(t@, ps, 0, 0) == scan(t@, ps, i as int, pos as int),
        decreases pieces@.len() - i,
    {
        assert(pieces[i as int]@ == ps[i as int]);
        let part = &pieces[i];
        assert(i < ps.len());
        assert(part@ == ps[i as int]);
        if part.len() == 0 {
        } else if i == 0 {
            if part.len() > t.len() || !occurs_at_exec(t, part, 0) {
                assert(scan(t@, ps, 0, pos as int) is None);
                return false;
            }
            pos = part.len();
        } else {
            match find_from_exec(t, part, pos) {
                Some(k) => {
                    proof {
                        lemma_find_from_bounds(t@, part@, pos as int);
                    }
                    pos = k + part.len();
                },
                None => {
                    assert(scan(t@, ps, i as int, pos as int) is None);
                    return false;
                },
            }
        }
        i += 1;
    }
    let last = pieces.len() - 1;
    assert(pieces[last as int]@ == ps.last());
    p[p.len() - 1] == '*' || pos == t.len() || ends_with_exec(t, &pieces[last])
}

/// Whether a file name matches a pattern: `*` matches every name; any
/// other pattern is matched, ignoring case, as `folded_match` describes.
pub fn glob_match(pattern: &str, text: &str) -> (r: bool)
    ensures
        r == (pattern@ == "*"@ || folded_match(lower_of(pattern@), lower_of(text@))),
{
    proof {
        broadcast use vstd::utf8::encode_utf8_decode_utf8;
    }
    if crate::bytes::equals_text(pattern.as_bytes(), "*") {
        assert(decode_utf8(encode_utf8(pattern@)) == pattern@);
        assert(decode_utf8(encode_utf8("*"@)) == "*"@);
        assert(pattern@ == "*"@);
        return true;
    }
    let p = lowercase_chars(pattern);
    let t = lowercase_chars(text);
    matches_folded(&p, &t)
}

} // verus!
