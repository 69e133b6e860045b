use vstd::prelude::*;

use crate::text::chars_of;

verus! {

/// The contents of each vector, in order.
pub open spec fn views(v: Seq<Vec<char>>) -> Seq<Seq<char>> {
    v.map_values(|x: Vec<char>| x@)
}

/// The pieces of `s` between occurrences of `sep`, in order; there is always
/// at least one piece, and the empty text gives one empty piece.
pub open spec fn pieces(s: Seq<char>, sep: char) -> Seq<Seq<char>>
    decreases s.len(),
{
    if s.len() == 0 {
        seq![Seq::empty()]
    } else {
        let p = pieces(s.drop_last(), sep);
        if s.last() == sep {
            p.push(Seq::empty())
        } else {
            p.update(p.len() - 1, p.last().push(s.last()))
        }
    }
}

pub proof fn lemma_pieces_nonempty(s: Seq<char>, sep: char)
    ensures
        pieces(s, sep).len() >= 1,
    decreases s.len(),
{
    if s.len() > 0 {
        lemma_pieces_nonempty(s.drop_last(), sep);
    }
}

/// Splits `s` at every `sep`.
pub fn split_at_char(s: &str, sep: char) -> (r: Vec<Vec<char>>)
    ensures
        views(r@) == pieces(s@, sep),
{
    let cs = chars_of(s);
    let mut out: Vec<Vec<char>> = Vec::new();
    let mut cur: Vec<char> = Vec::new();
    let mut i: usize = 0;
    while i < cs.len()
        invariant
            i <= cs.len(),
            cs@ == s@,
            views(out@).push(cur@) == pieces(cs@.take(i as int), sep),
        decreases cs.len() - i,
    {
        let ghost before = cs@.take(i as int);
        proof {
            assert(cs@.take(i + 1).drop_last() == before);
            lemma_pieces_nonempty(before, sep);
        }
        let ghost old_out = views(out@);
        let ghost old_cur = cur@;
        let c = cs[i];
        if c == sep {
            let done = cur;
            out.push(done);
            cur = Vec::new();
            assert(views(out@) =~= old_out.push(old_cur));
        } else {
            cur.push(c);
            assert(views(out@).push(cur@) =~= old_out.push(old_cur).update(
                old_out.len() as int,
                old_cur.push(c),
            ));
        }
        i = i + 1;
    }
    assert(cs@.take(cs@.len() as int) == cs@);
    let ghost old_out = views(out@);
    let ghost old_cur = cur@;
    out.push(cur);
    assert(views(out@) =~= old_out.push(old_cur));
    out
}

/// A piece of a path that names something: neither empty nor `.`.
pub open spec fn is_normal_part(p: Seq<char>) -> bool {
    p.len() > 0 && p != seq!['.']
}

/// The pieces of `ps` that name something, in order.
pub open spec fn normal_parts(ps: Seq<Seq<char>>) -> Seq<Seq<char>>
    decreases ps.len(),
{
    if ps.len() == 0 {
        Seq::empty()
    } else {
        let r = normal_parts(ps.drop_last());
        if is_normal_part(ps.last()) {
            r.push(ps.last())
        } else {
            r
        }
    }
}

/// The components of a path written with `/` separators: repeated
/// separators and `.` components are dropped.
pub open spec fn path_parts(s: Seq<char>) -> Seq<Seq<char>> {
    normal_parts(pieces(s, '/'))
}

pub open spec fn is_absolute(s: Seq<char>) -> bool {
    s.len() > 0 && s[0] == '/'
}

/// `path` lies at or below `root`, component by component.
pub open spec fn is_under(root: Seq<char>, path: Seq<char>) -> bool {
    let r = path_parts(root);
    let p = path_parts(path);
    is_absolute(root) == is_absolute(path) && r.len() <= p.len() && p.take(r.len() as int) == r
}

/// The components of `path` below `root`.
pub open spec fn relative_parts(root: Seq<char>, path: Seq<char>) -> Seq<Seq<char>> {
    path_parts(path).skip(path_parts(root).len() as int)
}

/// The components joined by single `/` separators.
pub open spec fn join_parts(ps: Seq<Seq<char>>) -> Seq<char>
    decreases ps.len(),
{
    if ps.len() == 0 {
        Seq::empty()
    } else if ps.len() == 1 {
        ps[0]
    } else {
        join_parts(ps.drop_last()) + seq!['/'] + ps.last()
    }
}

/// How a path is shown: relative to `root` where it lies below it, else as
/// it was given.
pub open spec fn display_path(root: Seq<char>, path: Seq<char>) -> Seq<char> {
    if is_under(root, path) {
        join_parts(relative_parts(root, path))
    } else {
        path
    }
}

/// The last component of a path, or the empty text where it has none.
pub open spec fn file_name(path: Seq<char>) -> Seq<char> {
    let p = path_parts(path);
    if p.len() == 0 {
        Seq::empty()
    } else {
        p.last()
    }
}

/// Whether two character vectors hold the same characters.
pub fn chars_equal(a: &Vec<char>, b: &Vec<char>) -> (r: bool)
    ensures
        r == (a@ == b@),
{
    if a.len() != b.len() {
        return false;
    }
    let mut i: usize = 0;
    while i < a.len()
        invariant
            i <= a.len(),
            a.len() == b.len(),
            a@.take(i as int) == b@.take(i as int),
        decreases a.len() - i,
    {
        if a[i] != b[i] {
            return false;
        }
        assert(a@.take(i + 1) == a@.take(i as int).push(a@[i as int]));
        assert(b@.take(i + 1) == b@.take(i as int).push(b@[i as int]));
        i = i + 1;
    }
    assert(a@.take(a@.len() as int) == a@);
    assert(b@.take(b@.len() as int) == b@);
    true
}

/// Whether path components `a` are a prefix of `b`.
pub fn parts_prefix(a: &Vec<Vec<char>>, b: &Vec<Vec<char>>) -> (r: bool)
    ensures
        r == (a.len() <= b.len() && views(b@).take(a.len() as int) == views(a@)),
{
    if a.len() > b.len() {
        return false;
    }
    let mut i: usize = 0;
    while i < a.len()
        invariant
            i <= a.len() <= b.len(),
            views(b@).take(i as int) == views(a@).take(i as int),
        decreases a.len() - i,
    {
        if !chars_equal(&a[i], &b[i]) {
            assert(views(b@).take(a.len() as int)[i as int] == b@[i as int]@);
            return false;
        }
        assert(views(b@).take(i + 1) =~= views(b@).take(i as int).push(b@[i as int]@));
        assert(views(a@).take(i + 1) =~= views(a@).take(i as int).push(a@[i as int]@));
        i = i + 1;
    }
    assert(views(a@).take(a.len() as int) == views(a@));
    true
}

/// Whether two strings hold the same characters.
pub fn str_equal(a: &str, b: &str) -> (r: bool)
    ensures
        r == (a@ == b@),
{
    chars_equal(&chars_of(a), &chars_of(b))
}

/// Whether `path` starts with `/`.
pub fn path_is_absolute(path: &str) -> (r: bool)
    ensures
        r == is_absolute(path@),
{
    let cs = chars_of(path);
    cs.len() > 0 && cs[0] == '/'
}

/// The components of `path`.
pub fn parse_path(path: &str) -> (r: Vec<Vec<char>>)
    ensures
        views(r@) == path_parts(path@),
{
    let ps = split_at_char(path, '/');
    let mut out: Vec<Vec<char>> = Vec::new();
    let mut i: usize = 0;
    while i < ps.len()
        invariant
            i <= ps.len(),
            views(ps@) == pieces(path@, '/'),
            views(out@) == normal_parts(views(ps@).take(i as int)),
        decreases ps.len() - i,
    {
        let ghost old_out = views(out@);
        assert(views(ps@).take(i + 1).drop_last() == views(ps@).take(i as int));
        let keep = ps[i].len() > 0 && !(ps[i].len() == 1 && ps[i][0] == '.');
        proof {
            if ps@[i as int]@ == seq!['.'] {
                assert(ps@[i as int]@[0] == '.');
            }
            if ps@[i as int]@.len() == 1 && ps@[i as int]@[0] == '.' {
                assert(ps@[i as int]@ =~= seq!['.']);
            }
        }
        if keep {
            out.push(ps[i].clone());
            assert(views(out@) =~= old_out.push(ps@[i as int]@));
        }
        i = i + 1;
    }
    assert(views(ps@).take(ps@.len() as int) == views(ps@));
    out
}

/// The components from index `start` on, joined by `/`.
pub fn join_from(ps: &Vec<Vec<char>>, start: usize) -> (r: Vec<char>)
    requires
        start <= ps.len(),
    ensures
        r@ == join_parts(views(ps@).skip(start as int)),
{
    let mut acc: Vec<char> = Vec::new();
    let mut i: usize = start;
    while i < ps.len()
        invariant
            start <= i <= ps.len(),
            acc@ == join_parts(views(ps@).subrange(start as int, i as int)),
        decreases ps.len() - i,
    {
        let ghost sub = views(ps@).subrange(start as int, i as int);
        assert(views(ps@).subrange(start as int, i + 1).drop_last() == sub);
        if i > start {
            acc.push('/');
        }
        let mut j: usize = 0;
        let ghost base = acc@;
        while j < ps[i].len()
            invariant
                i < ps.len(),
                j <= ps[i as int].len(),
                acc@ == base + ps[i as int]@.take(j as int),
            decreases ps[i as int].len() - j,
        {
            assert(ps[i as int]@.take(j + 1) == ps[i as int]@.take(j as int).push(ps[i as int]@[j as int]));
            acc.push(ps[i][j]);
            j = j + 1;
        }
        assert(ps[i as int]@.take(ps[i as int]@.len() as int) == ps[i as int]@);
        proof {
            if i == start {
                assert(base == Seq::<char>::empty());
                assert(acc@ =~= ps[i as int]@);
            } else {
                assert(acc@ =~= join_parts(sub) + seq!['/'] + ps[i as int]@);
            }
        }
        i = i + 1;
    }
    assert(views(ps@).subrange(start as int, ps@.len() as int) == views(ps@).skip(start as int));
    acc
}

/// `path` as shown relative to `root` (see `display_path`).
pub fn relative_display(root: &str, path: &str) -> (r: String)
    ensures
        r@ == display_path(root@, path@),
{
    let rp = parse_path(root);
    let pp = parse_path(path);
    if path_is_absolute(root) != path_is_absolute(path) || !parts_prefix(&rp, &pp) {
        return path.to_string();
    }
    let joined = join_from(&pp, rp.len());
    crate::text::string_of(&joined)
}

} // verus!
