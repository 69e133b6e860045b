use vstd::prelude::*;

use crate::order::{
    lemma_parts_lt_irreflexive, lemma_parts_lt_total, lemma_prefix_first, lemma_parts_lt_transitive, parts_less,
    parts_lt,
};
use crate::paths::{
    chars_equal, is_under, parse_path, parts_prefix, path_is_absolute, path_parts,
    relative_parts, views,
};
use crate::text::push_char;

verus! {

/// One entry that a walk of the file system yielded.
pub struct WalkEntry {
    /// The entry's path, with `/` separators.
    pub path: String,
    /// Whether the entry is a directory.
    pub is_dir: bool,
}

impl View for WalkEntry {
    type V = (Seq<char>, bool);

    open spec fn view(&self) -> (Seq<char>, bool) {
        (self.path@, self.is_dir)
    }
}

pub open spec fn entry_views(v: Seq<WalkEntry>) -> Seq<(Seq<char>, bool)> {
    v.map_values(|e: WalkEntry| e@)
}

/// The name of the version-control metadata directory.
pub open spec fn git_dir() -> Seq<char> {
    seq!['.', 'g', 'i', 't']
}

/// The name of the version-control ignore file.
pub open spec fn git_ignore() -> Seq<char> {
    seq!['.', 'g', 'i', 't', 'i', 'g', 'n', 'o', 'r', 'e']
}

/// An entry that the tree shows: it lies strictly below `root`, is not inside
/// (nor is) the metadata directory, and is not the ignore file.
pub open spec fn is_shown(root: Seq<char>, path: Seq<char>) -> bool {
    &&& is_under(root, path)
    &&& relative_parts(root, path).len() > 0
    &&& !path_parts(path).contains(git_dir())
    &&& path_parts(path).last() != git_ignore()
}

/// `p` is a non-empty prefix of `q`.
pub open spec fn is_prefix(p: Seq<Seq<char>>, q: Seq<Seq<char>>) -> bool {
    1 <= p.len() <= q.len() && q.take(p.len() as int) == p
}

/// `m` with the prefixes of `rel` of length at most `k` added where absent:
/// `rel` itself as given by `is_dir`, its ancestors as directories.
pub open spec fn with_prefixes_upto(
    m: Map<Seq<Seq<char>>, bool>,
    rel: Seq<Seq<char>>,
    is_dir: bool,
    k: int,
) -> Map<Seq<Seq<char>>, bool> {
    Map::new(
        |p: Seq<Seq<char>>| m.contains_key(p) || (is_prefix(p, rel) && p.len() <= k),
        |p: Seq<Seq<char>>|
            if m.contains_key(p) {
                m[p]
            } else if p.len() == rel.len() {
                is_dir
            } else {
                true
            },
    )
}

/// The tree of the shown entries, from the path of each (relative to `root`)
/// to whether it is shown as a directory. Every ancestor of an entry is in the
/// tree; the first entry to reach a path decides it.
pub open spec fn tree_of(root: Seq<char>, entries: Seq<(Seq<char>, bool)>) -> Map<
    Seq<Seq<char>>,
    bool,
>
    decreases entries.len(),
{
    if entries.len() == 0 {
        Map::empty()
    } else {
        let m = tree_of(root, entries.drop_last());
        let e = entries.last();
        if is_shown(root, e.0) {
            let rel = relative_parts(root, e.0);
            with_prefixes_upto(m, rel, e.1, rel.len() as int)
        } else {
            m
        }
    }
}

/// `l` lists the paths of `m` in strictly increasing order, each with its
/// flag.
pub open spec fn listing_of(l: Seq<(Seq<Seq<char>>, bool)>, m: Map<Seq<Seq<char>>, bool>) -> bool {
    &&& forall|i: int, j: int| 0 <= i < j < l.len() ==> parts_lt(#[trigger] l[i].0, #[trigger] l[j].0)
    &&& forall|i: int| 0 <= i < l.len() ==> m.contains_key(#[trigger] l[i].0) && m[l[i].0] == l[i].1
    &&& forall|p: Seq<Seq<char>>| #[trigger]
        m.contains_key(p) ==> exists|i: int| 0 <= i < l.len() && #[trigger] l[i].0 == p
}

/// Two spaces for each level.
pub open spec fn indent(n: nat) -> Seq<char>
    decreases n,
{
    if n == 0 {
        Seq::empty()
    } else {
        indent((n - 1) as nat) + seq![' ', ' ']
    }
}

/// The glyph that opens each line of the tree.
pub open spec fn branch() -> Seq<char> {
    seq!['\u{2514}', '\u{2500}', '\u{2500}', ' ']
}

/// The line of one path: indented by its depth below the first level, the
/// glyph, its last component, a `/` for a directory, a newline.
pub open spec fn tree_line(p: Seq<Seq<char>>, is_dir: bool) -> Seq<char> {
    indent((p.len() - 1) as nat) + branch() + p.last() + (if is_dir {
        seq!['/']
    } else {
        Seq::empty()
    }) + seq!['\n']
}

/// The lines of the listing, in order.
pub open spec fn render(l: Seq<(Seq<Seq<char>>, bool)>) -> Seq<char>
    decreases l.len(),
{
    if l.len() == 0 {
        Seq::empty()
    } else {
        render(l.drop_last()) + tree_line(l.last().0, l.last().1)
    }
}

/// One line of the tree being built.
struct TreeLine {
    parts: Vec<Vec<char>>,
    is_dir: bool,
}

spec fn line_views(v: Seq<TreeLine>) -> Seq<(Seq<Seq<char>>, bool)> {
    v.map_values(|t: TreeLine| (views(t.parts@), t.is_dir))
}

/// Adds `p` to the listing of `m`, unless it is there already.
fn insert_line(
    list: &mut Vec<TreeLine>,
    p: Vec<Vec<char>>,
    is_dir: bool,
    Ghost(m): Ghost<Map<Seq<Seq<char>>, bool>>,
)
    requires
        listing_of(line_views(old(list)@), m),
    ensures
        listing_of(
            line_views(final(list)@),
            if m.contains_key(views(p@)) {
                m
            } else {
                m.insert(views(p@), is_dir)
            },
        ),
{
    let ghost l0 = line_views(list@);
    let ghost pv = views(p@);
    let mut i: usize = 0;
    while i < list.len() && parts_less(&list[i].parts, &p)
        invariant
            i <= list.len(),
            list@ == old(list)@,
            l0 == line_views(list@),
            pv == views(p@),
            forall|k: int| 0 <= k < i ==> parts_lt(#[trigger] l0[k].0, pv),
        decreases list.len() - i,
    {
        i = i + 1;
    }
    if i < list.len() && parts_prefix(&list[i].parts, &p) && list[i].parts.len() == p.len() {
        assert(views(p@).take(p.len() as int) == views(p@));
        assert(l0[i as int].0 == pv);
        return;
    }
    proof {
        if i < l0.len() {
            assert(l0[i as int].0 != pv) by {
                if l0[i as int].0 == pv {
                    assert(views(p@).take(p.len() as int) == views(p@));
                }
            }
            lemma_parts_lt_total(l0[i as int].0, pv);
        }
        assert(!m.contains_key(pv)) by {
            if m.contains_key(pv) {
                let j = choose|j: int| 0 <= j < l0.len() && #[trigger] l0[j].0 == pv;
                if j < i {
                    lemma_parts_lt_irreflexive(pv);
                } else if j > i {
                    assert(parts_lt(l0[i as int].0, l0[j].0));
                    lemma_parts_lt_transitive(pv, l0[i as int].0, pv);
                    lemma_parts_lt_irreflexive(pv);
                }
            }
        }
    }
    list.insert(i, TreeLine { parts: p, is_dir });
    proof {
        let l1 = line_views(list@);
        let m1 = m.insert(pv, is_dir);
        assert(l1 =~= l0.insert(i as int, (pv, is_dir)));
        assert forall|a: int, b: int| 0 <= a < b < l1.len() implies parts_lt(
            #[trigger] l1[a].0,
            #[trigger] l1[b].0,
        ) by {
            if b < i {
            } else if a < i && b == i {
            } else if a < i {
                assert(l1[b] == l0[b - 1]);
                if b - 1 > i {
                    assert(parts_lt(l0[i as int].0, l0[b - 1].0));
                    lemma_parts_lt_transitive(pv, l0[i as int].0, l0[b - 1].0);
                }
                lemma_parts_lt_transitive(l0[a].0, pv, l0[b - 1].0);
            } else if a == i {
                assert(l1[b] == l0[b - 1]);
                if b - 1 > i {
                    assert(parts_lt(l0[i as int].0, l0[b - 1].0));
                    lemma_parts_lt_transitive(pv, l0[i as int].0, l0[b - 1].0);
                }
            } else {
                assert(l1[a] == l0[a - 1] && l1[b] == l0[b - 1]);
            }
        }
        assert forall|a: int| 0 <= a < l1.len() implies m1.contains_key(#[trigger] l1[a].0)
            && m1[l1[a].0] == l1[a].1 by {
            if a < i {
                assert(l1[a] == l0[a]);
                lemma_parts_lt_irreflexive(pv);
            } else if a > i {
                assert(l1[a] == l0[a - 1]);
                assert(l0[a - 1].0 != pv);
            }
        }
        assert forall|q: Seq<Seq<char>>| #[trigger] m1.contains_key(q) implies exists|a: int|
            0 <= a < l1.len() && #[trigger] l1[a].0 == q by {
            if q == pv {
                assert(l1[i as int].0 == q);
            } else {
                let j = choose|j: int| 0 <= j < l0.len() && #[trigger] l0[j].0 == q;
                if j < i {
                    assert(l1[j].0 == q);
                } else {
                    assert(l1[j + 1].0 == q);
                }
            }
        }
    }
}

/// The components of `ps` from `start` up to `end`.
fn parts_range(ps: &Vec<Vec<char>>, start: usize, end: usize) -> (r: Vec<Vec<char>>)
    requires
        start <= end <= ps.len(),
    ensures
        views(r@) == views(ps@).subrange(start as int, end as int),
{
    let mut r: Vec<Vec<char>> = Vec::new();
    let mut j: usize = start;
    while j < end
        invariant
            start <= j <= end <= ps.len(),
            views(r@) == views(ps@).subrange(start as int, j as int),
        decreases end - j,
    {
        let ghost before = views(r@);
        r.push(ps[j].clone());
        assert(views(r@) =~= before.push(ps@[j as int]@));
        assert(views(ps@).subrange(start as int, j + 1) =~= views(ps@).subrange(
            start as int,
            j as int,
        ).push(ps@[j as int]@));
        j = j + 1;
    }
    r
}

/// Whether `pp` (the components of `path`) is shown below the root with
/// components `rp`.
fn shown(root: &str, rp: &Vec<Vec<char>>, path: &str, pp: &Vec<Vec<char>>) -> (r: bool)
    requires
        views(rp@) == path_parts(root@),
        views(pp@) == path_parts(path@),
    ensures
        r == is_shown(root@, path@),
{
    if path_is_absolute(root) != path_is_absolute(path) || !parts_prefix(rp, pp) || pp.len()
        <= rp.len() {
        return false;
    }
    let git = vec!['.', 'g', 'i', 't'];
    let ignore_file = vec!['.', 'g', 'i', 't', 'i', 'g', 'n', 'o', 'r', 'e'];
    assert(git@ == git_dir());
    assert(ignore_file@ == git_ignore());
    let mut i: usize = 0;
    while i < pp.len()
        invariant
            i <= pp.len(),
            git@ == git_dir(),
            views(pp@) == path_parts(path@),
            forall|k: int| 0 <= k < i ==> #[trigger] views(pp@)[k] != git_dir(),
        decreases pp.len() - i,
    {
        if chars_equal(&pp[i], &git) {
            assert(views(pp@)[i as int] == git_dir());
            assert(path_parts(path@).contains(git_dir()));
            return false;
        }
        i = i + 1;
    }
    assert(relative_parts(root@, path@).len() == pp.len() - rp.len());
    !chars_equal(&pp[pp.len() - 1], &ignore_file)
}

/// Appends the characters of `cs` to `s`.
fn push_chars(s: &mut String, cs: &Vec<char>)
    ensures
        final(s)@ == old(s)@ + cs@,
{
    let mut i: usize = 0;
    while i < cs.len()
        invariant
            i <= cs.len(),
            s@ == old(s)@ + cs@.take(i as int),
        decreases cs.len() - i,
    {
        push_char(s, cs[i]);
        assert(cs@.take(i + 1) == cs@.take(i as int).push(cs@[i as int]));
        i = i + 1;
    }
    assert(cs@.take(cs@.len() as int) == cs@);
}

/// Renders the lines, in order.
fn render_lines(list: &Vec<TreeLine>) -> (r: String)
    requires
        forall|i: int| 0 <= i < list@.len() ==> (#[trigger] list@[i]).parts@.len() >= 1,
    ensures
        r@ == render(line_views(list@)),
{
    let mut out = String::new();
    let mut i: usize = 0;
    while i < list.len()
        invariant
            i <= list.len(),
            forall|i: int| 0 <= i < list@.len() ==> (#[trigger] list@[i]).parts@.len() >= 1,
            out@ == render(line_views(list@).take(i as int)),
        decreases list.len() - i,
    {
        let line = &list[i];
        let ghost start = out@;
        let depth = line.parts.len();
        let mut d: usize = 1;
        while d < depth
            invariant
                1 <= d <= depth,
                out@ == start + indent((d - 1) as nat),
            decreases depth - d,
        {
            push_char(&mut out, ' ');
            push_char(&mut out, ' ');
            d = d + 1;
        }
        push_char(&mut out, '\u{2514}');
        push_char(&mut out, '\u{2500}');
        push_char(&mut out, '\u{2500}');
        push_char(&mut out, ' ');
        push_chars(&mut out, &line.parts[depth - 1]);
        if line.is_dir {
            push_char(&mut out, '/');
        }
        push_char(&mut out, '\n');
        proof {
            let lv = line_views(list@);
            assert(lv.take(i + 1).drop_last() == lv.take(i as int));
            assert(lv[i as int].0.last() == line.parts@[depth - 1]@);
            assert(out@ =~= start + tree_line(lv[i as int].0, lv[i as int].1));
        }
        i = i + 1;
    }
    assert(line_views(list@).take(list@.len() as int) == line_views(list@));
    out
}

/// The directory tree below `root` of the entries that a walk yielded, one
/// line per path in increasing order (see `tree_of`, `listing_of` and
/// `render`).
pub fn directory_tree(root: &str, entries: &Vec<WalkEntry>) -> (r: String)
    ensures
        exists|l: Seq<(Seq<Seq<char>>, bool)>|
            listing_of(l, tree_of(root@, entry_views(entries@))) && r@ == render(l),
{
    let rp = parse_path(root);
    let mut list: Vec<TreeLine> = Vec::new();
    let ghost ev = entry_views(entries@);
    let mut e: usize = 0;
    while e < entries.len()
        invariant
            e <= entries.len(),
            ev == entry_views(entries@),
            views(rp@) == path_parts(root@),
            listing_of(line_views(list@), tree_of(root@, ev.take(e as int))),
            forall|p: Seq<Seq<char>>| #[trigger]
                tree_of(root@, ev.take(e as int)).contains_key(p) ==> p.len() >= 1,
        decreases entries.len() - e,
    {
        let ghost m0 = tree_of(root@, ev.take(e as int));
        assert(ev.take(e + 1).drop_last() == ev.take(e as int));
        let entry = &entries[e];
        let pp = parse_path(entry.path.as_str());
        if shown(root, &rp, entry.path.as_str(), &pp) {
            let rel = parts_range(&pp, rp.len(), pp.len());
            let ghost relv = views(rel@);
            assert(relv =~= relative_parts(root@, entry.path@));
            let mut k: usize = 0;
            while k < rel.len()
                invariant
                    0 <= k <= rel.len(),
                    relv == views(rel@),
                    listing_of(
                        line_views(list@),
                        with_prefixes_upto(m0, relv, entry.is_dir, k as int),
                    ),
                    forall|p: Seq<Seq<char>>| #[trigger] m0.contains_key(p) ==> p.len() >= 1,
                decreases rel.len() - k,
            {
                let prefix = parts_range(&rel, 0, k + 1);
                let flag = if k + 1 == rel.len() {
                    entry.is_dir
                } else {
                    true
                };
                let ghost before = with_prefixes_upto(m0, relv, entry.is_dir, k as int);
                let ghost after = with_prefixes_upto(m0, relv, entry.is_dir, k + 1);
                let ghost q = views(prefix@);
                insert_line(&mut list, prefix, flag, Ghost(before));
                proof {
                    assert(q =~= relv.take(k + 1));
                    if before.contains_key(q) {
                        assert(after =~= before) by {
                            assert forall|p: Seq<Seq<char>>| after.contains_key(p) implies before.contains_key(p) by {
                                if !m0.contains_key(p) && p.len() == k + 1 {
                                    assert(p =~= q);
                                }
                            }
                        }
                    } else {
                        assert(after =~= before.insert(q, flag)) by {
                            assert forall|p: Seq<Seq<char>>| after.contains_key(p) implies before.insert(q, flag).contains_key(p) by {
                                if !m0.contains_key(p) && p.len() == k + 1 {
                                    assert(p =~= q);
                                }
                            }
                        }
                    }
                }
                k = k + 1;
            }
            proof {
                let m1 = tree_of(root@, ev.take(e + 1));
                assert(ev.take(e + 1).last() == entry@);
                assert(m1 == with_prefixes_upto(m0, relv, entry.is_dir, relv.len() as int));
            }
        } else {
            assert(ev.take(e + 1).last() == entry@);
        }
        e = e + 1;
    }
    assert(ev.take(ev.len() as int) == ev);
    proof {
        let m = tree_of(root@, ev);
        assert forall|i: int| 0 <= i < list@.len() implies (#[trigger] list@[i]).parts@.len() >= 1 by {
            assert(line_views(list@)[i].0 == views(list@[i].parts@));
            assert(m.contains_key(line_views(list@)[i].0));
        }
    }
    render_lines(&list)
}

proof fn lemma_tree_keys(root: Seq<char>, entries: Seq<(Seq<char>, bool)>, p: Seq<Seq<char>>)
    requires
        tree_of(root, entries).contains_key(p),
    ensures
        p.len() >= 1,
        !p.contains(git_dir()),
        p.last() == git_ignore() ==> exists|q: Seq<Seq<char>>|
            #[trigger] tree_of(root, entries).contains_key(q) && p.len() < q.len() && q.take(
                p.len() as int,
            ) == p,
    decreases entries.len(),
{
    let m = tree_of(root, entries.drop_last());
    let e = entries.last();
    if m.contains_key(p) {
        lemma_tree_keys(root, entries.drop_last(), p);
        if p.last() == git_ignore() {
            let q = choose|q: Seq<Seq<char>>|
                #[trigger] m.contains_key(q) && p.len() < q.len() && q.take(p.len() as int) == p;
            assert(tree_of(root, entries).contains_key(q));
        }
    } else {
        let rel = relative_parts(root, e.0);
        let pp = path_parts(e.0);
        let n = path_parts(root).len();
        assert(is_shown(root, e.0));
        assert(is_prefix(p, rel));
        if p.contains(git_dir()) {
            let k = choose|k: int| 0 <= k < p.len() && p[k] == git_dir();
            assert(p[k] == rel[k]);
            assert(pp[n + k] == git_dir());
            assert(pp.contains(git_dir()));
        }
        if p.len() == rel.len() {
            assert(p =~= rel);
            assert(rel.last() == pp.last());
        } else {
            assert(rel.take(rel.len() as int) =~= rel);
            assert(tree_of(root, entries).contains_key(rel));
        }
    }
}

/// The tree never lists the metadata directory or anything inside it, lists
/// a path named like the ignore file only as an ancestor of another listed
/// path, and lists every path before the paths below it.
pub proof fn lemma_tree_hides_git_and_orders(
    root: Seq<char>,
    entries: Seq<(Seq<char>, bool)>,
    l: Seq<(Seq<Seq<char>>, bool)>,
)
    requires
        listing_of(l, tree_of(root, entries)),
    ensures
        forall|i: int| 0 <= i < l.len() ==> !(#[trigger] l[i].0).contains(git_dir()),
        forall|i: int|
            0 <= i < l.len() && (#[trigger] l[i].0).last() == git_ignore() ==> exists|j: int|
                0 <= j < l.len() && l[i].0.len() < l[j].0.len() && #[trigger] l[j].0.take(
                    l[i].0.len() as int,
                ) == l[i].0,
        forall|i: int, j: int|
            0 <= i < l.len() && 0 <= j < l.len() && (#[trigger] l[i].0).len() < (
            #[trigger] l[j].0).len() && l[j].0.take(l[i].0.len() as int) == l[i].0 ==> i < j,
{
    let m = tree_of(root, entries);
    assert forall|i: int| 0 <= i < l.len() implies !(#[trigger] l[i].0).contains(git_dir()) by {
        lemma_tree_keys(root, entries, l[i].0);
    }
    assert forall|i: int| 0 <= i < l.len() && (#[trigger] l[i].0).last() == git_ignore() implies exists|j: int|
        0 <= j < l.len() && l[i].0.len() < l[j].0.len() && #[trigger] l[j].0.take(
            l[i].0.len() as int,
        ) == l[i].0 by {
        lemma_tree_keys(root, entries, l[i].0);
        let q = choose|q: Seq<Seq<char>>|
            #[trigger] m.contains_key(q) && l[i].0.len() < q.len() && q.take(l[i].0.len() as int)
                == l[i].0;
        let j = choose|j: int| 0 <= j < l.len() && #[trigger] l[j].0 == q;
        assert(l[j].0.take(l[i].0.len() as int) == l[i].0);
    }
    assert forall|i: int, j: int|
        0 <= i < l.len() && 0 <= j < l.len() && (#[trigger] l[i].0).len() < (
        #[trigger] l[j].0).len() && l[j].0.take(l[i].0.len() as int) == l[i].0 implies i < j by {
        lemma_prefix_first(l[i].0, l[j].0);
        if j < i {
            lemma_parts_lt_transitive(l[i].0, l[j].0, l[i].0);
            lemma_parts_lt_irreflexive(l[i].0);
        }
    }
}

/// A map has one listing: two listings of the same map are equal, so the
/// rendered tree is determined by the entries.
pub proof fn lemma_listing_unique(
    l1: Seq<(Seq<Seq<char>>, bool)>,
    l2: Seq<(Seq<Seq<char>>, bool)>,
    m: Map<Seq<Seq<char>>, bool>,
)
    requires
        listing_of(l1, m),
        listing_of(l2, m),
    ensures
        l1 == l2,
{
    assert forall|k: int| 0 <= k < l1.len() && k < l2.len() implies #[trigger] l1[k].0 == l2[k].0 by {
        lemma_listing_agree_upto(l1, l2, m, k);
    }
    if l1.len() != l2.len() {
        let (a, b) = if l1.len() > l2.len() {
            (l1, l2)
        } else {
            (l2, l1)
        };
        let n = b.len() as int;
        assert(m.contains_key(a[n].0));
        let j = choose|j: int| 0 <= j < b.len() && #[trigger] b[j].0 == a[n].0;
        assert(a[j].0 == b[j].0);
        assert(parts_lt(a[j].0, a[n].0));
        lemma_parts_lt_irreflexive(a[n].0);
    }
    assert(l1 =~= l2) by {
        assert forall|k: int| 0 <= k < l1.len() implies l1[k] == l2[k] by {
            assert(l1[k].0 == l2[k].0);
        }
    }
}

proof fn lemma_listing_agree_upto(
    l1: Seq<(Seq<Seq<char>>, bool)>,
    l2: Seq<(Seq<Seq<char>>, bool)>,
    m: Map<Seq<Seq<char>>, bool>,
    k: int,
)
    requires
        listing_of(l1, m),
        listing_of(l2, m),
        0 <= k < l1.len(),
        k < l2.len(),
    ensures
        l1[k].0 == l2[k].0,
    decreases k,
{
    assert forall|i: int| 0 <= i < k implies l1[i].0 == l2[i].0 by {
        lemma_listing_agree_upto(l1, l2, m, i);
    }
    if l1[k].0 != l2[k].0 {
        lemma_listing_first_missing(l1, l2, m, k);
        lemma_listing_first_missing(l2, l1, m, k);
        lemma_parts_lt_total(l1[k].0, l2[k].0);
    }
}

/// Where two listings agree before `k` and differ at `k`, the path of the
/// first at `k` does not come before the path of the second.
proof fn lemma_listing_first_missing(
    l1: Seq<(Seq<Seq<char>>, bool)>,
    l2: Seq<(Seq<Seq<char>>, bool)>,
    m: Map<Seq<Seq<char>>, bool>,
    k: int,
)
    requires
        listing_of(l1, m),
        listing_of(l2, m),
        0 <= k < l1.len(),
        k < l2.len(),
        forall|i: int| 0 <= i < k ==> l1[i].0 == l2[i].0,
        l1[k].0 != l2[k].0,
    ensures
        !parts_lt(l1[k].0, l2[k].0),
{
    if parts_lt(l1[k].0, l2[k].0) {
        let p = l1[k].0;
        assert(m.contains_key(p));
        let j = choose|j: int| 0 <= j < l2.len() && #[trigger] l2[j].0 == p;
        if j < k {
            assert(l1[j].0 == p);
            assert(parts_lt(l1[j].0, l1[k].0));
            lemma_parts_lt_irreflexive(p);
        } else if j > k {
            assert(parts_lt(l2[k].0, l2[j].0));
            lemma_parts_lt_transitive(p, l2[k].0, p);
            lemma_parts_lt_irreflexive(p);
        }
    }
}

} // verus!
