//! The HTML index served for a directory.
use vstd::prelude::*;
use vstd::multiset::Multiset;
use crate::bytes::{push_slice, push_str, text};

verus! {

/// One entry of a directory.
pub struct Child {
    /// The entry's name, as bytes.
    pub name: Vec<u8>,
    pub is_dir: bool,
}

/// `a` comes no later than `b` in byte-wise lexicographic order: a prefix
/// comes first, otherwise the first differing byte decides.
pub open spec fn lex_le(a: Seq<u8>, b: Seq<u8>) -> bool
    decreases a.len(),
{
    if a.len() == 0 {
        true
    } else if b.len() == 0 {
        false
    } else if a[0] != b[0] {
        a[0] < b[0]
    } else {
        lex_le(a.drop_first(), b.drop_first())
    }
}

/// The entries' names ascend.
pub open spec fn names_ascending(cs: Seq<Child>) -> bool {
    forall|i: int, j: int| 0 <= i < j < cs.len() ==> lex_le(cs[i].name@, cs[j].name@)
}

/// The path with all of its trailing `/` removed.
pub open spec fn trim_trailing_slashes(p: Seq<u8>) -> Seq<u8>
    decreases p.len(),
{
    if p.len() > 0 && p.last() == 0x2F {
        trim_trailing_slashes(p.drop_last())
    } else {
        p
    }
}

/// The link target of an entry: the request path as the client sent it,
/// without trailing slashes, then `/` and the entry's name.
pub open spec fn href(raw_path: Seq<u8>, name: Seq<u8>) -> Seq<u8> {
    trim_trailing_slashes(raw_path) + seq![0x2Fu8] + name
}

pub open spec fn icon(is_dir: bool) -> Seq<u8> {
    if is_dir {
        text("📁")
    } else {
        text("📄")
    }
}

/// The list item of one entry. Names are written as they are, unescaped.
pub open spec fn list_item(raw_path: Seq<u8>, c: Child) -> Seq<u8> {
    text("<li>") + icon(c.is_dir) + text(" <a href='") + href(raw_path, c.name@) + text("'>")
        + c.name@ + text("</a></li>")
}

/// The list items of the entries, in the order given.
pub open spec fn list_items(raw_path: Seq<u8>, cs: Seq<Child>) -> Seq<u8>
    decreases cs.len(),
{
    if cs.len() == 0 {
        Seq::empty()
    } else {
        list_items(raw_path, cs.drop_last()) + list_item(raw_path, cs.last())
    }
}

/// The page for a directory at `dir_path` requested as `raw_path`.
pub open spec fn listing_page(dir_path: Seq<u8>, raw_path: Seq<u8>, cs: Seq<Child>) -> Seq<u8> {
    text("<html><head><meta charset='utf-8'></head><body><h2>📁 ") + dir_path + text("</h2><ul>")
        + list_items(raw_path, cs) + text("</ul></body></html>")
}

/// Of two byte strings, one comes no later than the other.
pub proof fn lemma_lex_total(a: Seq<u8>, b: Seq<u8>)
    ensures
        lex_le(a, b) || lex_le(b, a),
    decreases a.len(),
{
    if a.len() > 0 && b.len() > 0 && a[0] == b[0] {
        lemma_lex_total(a.drop_first(), b.drop_first());
    }
}

/// Lexicographic order is transitive.
pub proof fn lemma_lex_transitive(a: Seq<u8>, b: Seq<u8>, c: Seq<u8>)
    requires
        lex_le(a, b),
        lex_le(b, c),
    ensures
        lex_le(a, c),
    decreases a.len(),
{
    if a.len() > 0 && b.len() > 0 && c.len() > 0 && a[0] == b[0] && b[0] == c[0] {
        lemma_lex_transitive(a.drop_first(), b.drop_first(), c.drop_first());
    }
}

proof fn lemma_lex_reflexive(a: Seq<u8>)
    ensures
        lex_le(a, a),
    decreases a.len(),
{
    if a.len() > 0 {
        lemma_lex_reflexive(a.drop_first());
    }
}

proof fn lemma_lex_antisymmetric(a: Seq<u8>, b: Seq<u8>)
    requires
        lex_le(a, b),
        lex_le(b, a),
    ensures
        a == b,
    decreases a.len(),
{
    if a.len() > 0 {
        lemma_lex_antisymmetric(a.drop_first(), b.drop_first());
        assert(a =~= seq![a[0]] + a.drop_first());
        assert(b =~= seq![b[0]] + b.drop_first());
    } else {
        assert(b.len() == 0);
        assert(a =~= b);
    }
}

/// No two entries share a name, as in a directory.
pub open spec fn names_distinct(cs: Seq<Child>) -> bool {
    forall|i: int, j: int|
        0 <= i < cs.len() && 0 <= j < cs.len() && i != j ==> cs[i].name@ != cs[j].name@
}

/// Entries with the same name are the same entry.
pub open spec fn names_identify(cs: Seq<Child>) -> bool {
    forall|i: int, j: int|
        0 <= i < cs.len() && 0 <= j < cs.len() && cs[i].name@ == cs[j].name@ ==> cs[i] == cs[j]
}

/// `names_identify` depends on the entries alone, not on their order.
proof fn lemma_names_identify_permutation(cs: Seq<Child>, ds: Seq<Child>)
    requires
        names_identify(cs),
        ds.to_multiset() == cs.to_multiset(),
    ensures
        names_identify(ds),
{
    broadcast use vstd::seq_lib::group_to_multiset_ensures;

    assert forall|i: int, j: int|
        0 <= i < ds.len() && 0 <= j < ds.len() && ds[i].name@ == ds[j].name@ implies ds[i]
        == ds[j] by {
        ds.to_multiset_ensures();
        cs.to_multiset_ensures();
        assert(ds.contains(ds[i]));
        assert(ds.contains(ds[j]));
        assert(ds.to_multiset().count(ds[i]) > 0);
        assert(ds.to_multiset().count(ds[j]) > 0);
        assert(cs.contains(ds[i]));
        assert(cs.contains(ds[j]));
        let a = choose|a: int| 0 <= a < cs.len() && cs[a] == ds[i];
        let b = choose|b: int| 0 <= b < cs.len() && cs[b] == ds[j];
        assert(cs[a].name@ == cs[b].name@);
    }
}

/// Two orderings of the same entries that both ascend by name are the same,
/// when entries with equal names are equal.
proof fn lemma_sorted_unique(s1: Seq<Child>, s2: Seq<Child>)
    requires
        s1.to_multiset() == s2.to_multiset(),
        names_ascending(s1),
        names_ascending(s2),
        names_identify(s1),
    ensures
        s1 == s2,
    decreases s1.len(),
{
    broadcast use vstd::seq_lib::group_to_multiset_ensures;

    s1.to_multiset_ensures();
    s2.to_multiset_ensures();
    assert(s1.len() == s1.to_multiset().len());
    assert(s2.len() == s2.to_multiset().len());
    if s1.len() > 0 {
        assert(s1.contains(s1[0]));
        assert(s1.to_multiset().count(s1[0]) > 0);
        assert(s2.contains(s1[0]));
        assert(s2.contains(s2[0]));
        assert(s2.to_multiset().count(s2[0]) > 0);
        assert(s1.contains(s2[0]));
        let m = choose|m: int| 0 <= m < s2.len() && s2[m] == s1[0];
        let k = choose|k: int| 0 <= k < s1.len() && s1[k] == s2[0];
        lemma_lex_reflexive(s1[0].name@);
        lemma_lex_reflexive(s2[0].name@);
        assert(lex_le(s1[0].name@, s1[k].name@));
        assert(lex_le(s2[0].name@, s2[m].name@));
        lemma_lex_antisymmetric(s1[0].name@, s2[0].name@);
        assert(s1[0] == s1[k]);
        assert(s1[0] == s2[0]);
        assert(s1.remove(0) =~= s1.drop_first());
        assert(s2.remove(0) =~= s2.drop_first());
        assert(names_identify(s1.drop_first()));
        assert(names_ascending(s1.drop_first()));
        assert(names_ascending(s2.drop_first()));
        lemma_sorted_unique(s1.drop_first(), s2.drop_first());
        assert(s1 =~= seq![s1[0]] + s1.drop_first());
        assert(s2 =~= seq![s2[0]] + s2.drop_first());
    } else {
        assert(s1 =~= s2);
    }
}

/// Entries with distinct names have only one ordering by ascending name.
pub proof fn lemma_sorted_order_unique(cs: Seq<Child>, s1: Seq<Child>, s2: Seq<Child>)
    requires
        names_distinct(cs),
        s1.to_multiset() == cs.to_multiset(),
        s2.to_multiset() == cs.to_multiset(),
        names_ascending(s1),
        names_ascending(s2),
    ensures
        s1 == s2,
{
    assert(names_identify(cs));
    lemma_names_identify_permutation(cs, s1);
    lemma_sorted_unique(s1, s2);
}

fn name_le(a: &Vec<u8>, b: &Vec<u8>) -> (r: bool)
    ensures
        r == lex_le(a@, b@),
{
    let mut i: usize = 0;
    assert(a@.subrange(0, a@.len() as int) =~= a@);
    assert(b@.subrange(0, b@.len() as int) =~= b@);
    while i < a.len() && i < b.len() && a[i] == b[i]
        invariant
            i <= a@.len(),
            i <= b@.len(),
            lex_le(a@, b@) == lex_le(
                a@.subrange(i as int, a@.len() as int),
                b@.subrange(i as int, b@.len() as int),
            ),
        decreases a@.len() - i,
    {
        let ghost sa = a@.subrange(i as int, a@.len() as int);
        let ghost sb = b@.subrange(i as int, b@.len() as int);
        assert(sa.drop_first() =~= a@.subrange(i + 1, a@.len() as int));
        assert(sb.drop_first() =~= b@.subrange(i + 1, b@.len() as int));
        i += 1;
    }
    if i == a.len() {
        true
    } else if i == b.len() {
        false
    } else {
        a[i] < b[i]
    }
}

/// The first position in `out` whose name comes strictly after `name`.
fn insertion_point(out: &Vec<Child>, name: &Vec<u8>) -> (r: usize)
    ensures
        r <= out@.len(),
        forall|m: int| 0 <= m < r ==> lex_le(#[trigger] out@[m].name@, name@),
        r < out@.len() ==> !lex_le(out@[r as int].name@, name@),
{
    let mut k: usize = 0;
    while k < out.len() && name_le(&out[k].name, name)
        invariant
            k <= out@.len(),
            forall|m: int| 0 <= m < k ==> lex_le(#[trigger] out@[m].name@, name@),
        decreases out@.len() - k,
    {
        k += 1;
    }
    k
}

/// Sorts directory entries by name, ascending.
pub fn sort_children(v: &mut Vec<Child>)
    ensures
        final(v)@.to_multiset() == old(v)@.to_multiset(),
        names_ascending(final(v)@),
{
    broadcast use vstd::multiset::group_multiset_axioms, vstd::seq_lib::group_to_multiset_ensures;

    let ghost all = v@.to_multiset();
    let mut out: Vec<Child> = Vec::new();
    assert(out@.to_multiset() =~= Multiset::<Child>::empty());
    while v.len() > 0
        invariant
            out@.to_multiset().add(v@.to_multiset()) == all,
            names_ascending(out@),
        decreases v@.len(),
    {
        let ghost before = v@;
        let c = match v.pop() {
            Some(c) => c,
            None => {
                return;
            },
        };
        proof {
            assert(before =~= v@.push(c));
            vstd::seq_lib::to_multiset_build(v@, c);
        }
        let pos = insertion_point(&out, &c.name);
        let ghost sorted = out@;
        proof {
            if pos < sorted.len() {
                lemma_lex_total(sorted[pos as int].name@, c.name@);
                assert forall|k: int| pos <= k < sorted.len() implies lex_le(
                    c.name@,
                    #[trigger] sorted[k].name@,
                ) by {
                    if k > pos {
                        lemma_lex_transitive(c.name@, sorted[pos as int].name@, sorted[k].name@);
                    }
                }
            }
        }
        out.insert(pos, c);
        proof {
            vstd::seq_lib::to_multiset_insert(sorted, pos as int, c);
            assert(out@ == sorted.insert(pos as int, c));
            assert forall|i: int, j: int| 0 <= i < j < out@.len() implies lex_le(
                out@[i].name@,
                out@[j].name@,
            ) by {
                if j < pos {
                } else if j == pos {
                    assert(out@[i] == sorted[i]);
                } else if i < pos {
                    assert(out@[i] == sorted[i]);
                    assert(out@[j] == sorted[j - 1]);
                    lemma_lex_transitive(sorted[i].name@, c.name@, sorted[j - 1].name@);
                } else if i == pos {
                    assert(out@[j] == sorted[j - 1]);
                } else {
                    assert(out@[i] == sorted[i - 1]);
                    assert(out@[j] == sorted[j - 1]);
                }
            }
        }
    }
    assert(v@ =~= Seq::<Child>::empty());
    assert(v@.to_multiset() =~= Multiset::<Child>::empty());
    *v = out;
}

fn trimmed_len(p: &[u8]) -> (r: usize)
    ensures
        r <= p@.len(),
        trim_trailing_slashes(p@) == p@.subrange(0, r as int),
{
    let mut n = p.len();
    assert(p@.subrange(0, n as int) =~= p@);
    while n > 0 && p[n - 1] == 0x2F
        invariant
            n <= p@.len(),
            trim_trailing_slashes(p@) == trim_trailing_slashes(p@.subrange(0, n as int)),
        decreases n,
    {
        assert(p@.subrange(0, n as int).drop_last() =~= p@.subrange(0, n - 1));
        n -= 1;
    }
    n
}

fn push_prefix(out: &mut Vec<u8>, s: &[u8], n: usize)
    requires
        n <= s@.len(),
    ensures
        final(out)@ == old(out)@ + s@.subrange(0, n as int),
{
    let ghost start = out@;
    let mut k: usize = 0;
    while k < n
        invariant
            k <= n <= s@.len(),
            out@ == start + s@.subrange(0, k as int),
        decreases n - k,
    {
        out.push(s[k]);
        k += 1;
        assert(out@ =~= start + s@.subrange(0, k as int));
    }
}

fn push_item(out: &mut Vec<u8>, raw_path: &[u8], base: usize, c: &Child)
    requires
        base <= raw_path@.len(),
        trim_trailing_slashes(raw_path@) == raw_path@.subrange(0, base as int),
    ensures
        final(out)@ == old(out)@ + list_item(raw_path@, *c),
{
    let ghost start = out@;
    push_str(out, "<li>");
    if c.is_dir {
        push_str(out, "📁");
    } else {
        push_str(out, "📄");
    }
    push_str(out, " <a href='");
    push_prefix(out, raw_path, base);
    out.push(0x2F);
    push_slice(out, c.name.as_slice());
    push_str(out, "'>");
    push_slice(out, c.name.as_slice());
    push_str(out, "</a></li>");
    assert(out@ =~= start + list_item(raw_path@, *c));
}

/// Renders the index page of a directory, listing the entries in the order
/// given.
pub fn render_listing(dir_path: &[u8], raw_path: &[u8], children: &Vec<Child>) -> (r: Vec<u8>)
    ensures
        r@ == listing_page(dir_path@, raw_path@, children@),
{
    let base = trimmed_len(raw_path);
    let mut out: Vec<u8> = Vec::new();
    push_str(&mut out, "<html><head><meta charset='utf-8'></head><body><h2>📁 ");
    push_slice(&mut out, dir_path);
    push_str(&mut out, "</h2><ul>");
    let ghost head = out@;
    let mut i: usize = 0;
    assert(children@.subrange(0, 0) =~= Seq::<Child>::empty());
    assert(out@ =~= head + list_items(raw_path@, children@.subrange(0, 0)));
    while i < children.len()
        invariant
            i <= children@.len(),
            base <= raw_path@.len(),
            trim_trailing_slashes(raw_path@) == raw_path@.subrange(0, base as int),
            out@ == head + list_items(raw_path@, children@.subrange(0, i as int)),
        decreases children@.len() - i,
    {
        let ghost before = out@;
        push_item(&mut out, raw_path, base, &children[i]);
        let ghost done = children@.subrange(0, i + 1);
        assert(done.drop_last() =~= children@.subrange(0, i as int));
        assert(done.last() == children@[i as int]);
        i += 1;
        assert(out@ =~= head + list_items(raw_path@, children@.subrange(0, i as int)));
    }
    assert(children@.subrange(0, children@.len() as int) =~= children@);
    push_str(&mut out, "</ul></body></html>");
    assert(out@ =~= listing_page(dir_path@, raw_path@, children@));
    out
}

} // verus!
