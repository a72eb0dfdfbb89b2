//! Paths as text, by the rules of Unix.
//!
//! A path is a root, if it starts with a separator, and a series of components.
//! Empty components, and `.` anywhere but at the start of a relative path, do not
//! count.

use crate::text;
use vstd::prelude::*;

verus! {

/// Where the components of a path start: behind the root, or behind a `.` that
/// starts a relative path.
pub open spec fn body_start(p: Seq<char>) -> int {
    if p.len() > 0 && p[0] == '/' {
        1
    } else if p.len() > 0 && p[0] == '.' && (p.len() == 1 || p[1] == '/') {
        1
    } else {
        0
    }
}

/// Where the last component of `p[start..end]` starts.
pub open spec fn component_start(p: Seq<char>, start: int, end: int) -> int
    decreases end - start,
{
    if end <= start || p[end - 1] == '/' {
        end
    } else {
        component_start(p, start, end - 1)
    }
}

/// Whether the component `p[from..end]` does not count.
pub open spec fn skipped(p: Seq<char>, from: int, end: int) -> bool {
    end == from || (end == from + 1 && p[from] == '.')
}

/// Where a path ends once the components that do not count are taken off its end.
pub open spec fn kept_end(p: Seq<char>, start: int, end: int) -> int
    decreases end - start,
{
    let from = component_start(p, start, end);
    if end <= start {
        start
    } else if start <= from <= end && skipped(p, from, end) {
        if from > start {
            kept_end(p, start, from - 1)
        } else {
            start
        }
    } else {
        end
    }
}

/// A path without the components that do not count at its end, and without the
/// separators there.
pub open spec fn plain(p: Seq<char>) -> Seq<char> {
    p.subrange(0, kept_end(p, body_start(p), p.len() as int))
}

/// The last component of a path, if it names something: neither a root nor `.`
/// nor `..` does.
pub open spec fn file_name(p: Seq<char>) -> Option<Seq<char>> {
    let start = body_start(p);
    let end = kept_end(p, start, p.len() as int);
    if end <= start {
        None
    } else {
        let name = p.subrange(component_start(p, start, end), end);
        if name == seq!['.', '.'] {
            None
        } else {
            Some(name)
        }
    }
}

/// The path without its last component. A root, and a path with no component, has
/// no parent.
pub open spec fn parent(p: Seq<char>) -> Option<Seq<char>> {
    let start = body_start(p);
    let end = kept_end(p, start, p.len() as int);
    if end <= start {
        if p.len() > 0 && p[0] == '.' {
            Some(Seq::empty())
        } else {
            None
        }
    } else {
        let from = component_start(p, start, end);
        if from > start {
            Some(p.subrange(0, kept_end(p, start, from - 1)))
        } else {
            Some(p.subrange(0, start))
        }
    }
}

proof fn lemma_component_start(p: Seq<char>, start: int, end: int)
    requires
        0 <= start <= end <= p.len(),
    ensures
        start <= component_start(p, start, end) <= end,
    decreases end - start,
{
    if end > start && p[end - 1] != '/' {
        lemma_component_start(p, start, end - 1);
    }
}

proof fn lemma_kept_end(p: Seq<char>, start: int, end: int)
    requires
        0 <= start <= end <= p.len(),
    ensures
        start <= kept_end(p, start, end) <= end,
    decreases end - start,
{
    lemma_component_start(p, start, end);
    let from = component_start(p, start, end);
    if end > start && skipped(p, from, end) && from > start {
        lemma_kept_end(p, start, from - 1);
    }
}

fn find_body(p: &Vec<char>) -> (r: usize)
    ensures
        r == body_start(p@),
        r <= p@.len(),
{
    if p.len() > 0 && p[0] == '/' {
        1
    } else if p.len() > 0 && p[0] == '.' && (p.len() == 1 || p[1] == '/') {
        1
    } else {
        0
    }
}

fn find_component(p: &Vec<char>, start: usize, end: usize) -> (r: usize)
    requires
        start <= end <= p@.len(),
    ensures
        r == component_start(p@, start as int, end as int),
        start <= r <= end,
{
    let mut at: usize = end;
    while at > start && p[at - 1] != '/'
        invariant
            start <= at <= end <= p@.len(),
            component_start(p@, start as int, end as int) == component_start(
                p@,
                start as int,
                at as int,
            ),
        decreases at,
    {
        at = at - 1;
    }
    at
}

fn find_kept_end(p: &Vec<char>, start: usize, end: usize) -> (r: usize)
    requires
        start <= end <= p@.len(),
    ensures
        r == kept_end(p@, start as int, end as int),
        start <= r <= end,
    decreases end - start,
{
    if end <= start {
        return start;
    }
    let from: usize = find_component(p, start, end);
    if end == from || (end - from == 1 && p[from] == '.') {
        if from > start {
            find_kept_end(p, start, from - 1)
        } else {
            start
        }
    } else {
        end
    }
}

/// The parent and the file name of a path.
pub fn split(path: &str) -> (r: (Option<String>, Option<String>))
    ensures
        match r.0 {
            Some(d) => parent(path@) == Some(d@),
            None => parent(path@) is None,
        },
        match r.1 {
            Some(n) => file_name(path@) == Some(n@),
            None => file_name(path@) is None,
        },
{
    let p = text::chars_of(path);
    let start: usize = find_body(&p);
    let end: usize = find_kept_end(&p, start, p.len());
    if end <= start {
        if p.len() > 0 && p[0] == '.' {
            let d = String::new();
            assert(d@ =~= Seq::<char>::empty());
            return (Some(d), None);
        }
        return (None, None);
    }
    let from: usize = find_component(&p, start, end);
    let cut: usize = if from > start {
        find_kept_end(&p, start, from - 1)
    } else {
        start
    };
    let dir = text::string_of(&p, 0, cut);
    let ghost name = p@.subrange(from as int, end as int);
    if end - from == 2 && p[from] == '.' && p[from + 1] == '.' {
        assert(name =~= seq!['.', '.']);
        (Some(dir), None)
    } else {
        assert(name != seq!['.', '.']) by {
            if name == seq!['.', '.'] {
                assert(name.len() == 2 && name[0] == '.' && name[1] == '.');
            }
        }
        (Some(dir), Some(text::string_of(&p, from, end)))
    }
}

/// A relative path inside a directory.
pub open spec fn joined(dir: Seq<char>, rel: Seq<char>) -> Seq<char> {
    if dir.len() == 0 || dir.last() == '/' {
        dir + rel
    } else {
        dir.push('/') + rel
    }
}

/// A relative path inside a directory.
pub fn join(dir: &str, rel: &str) -> (r: String)
    ensures
        r@ == joined(dir@, rel@),
{
    let d = text::chars_of(dir);
    let mut r = text::string_of(&d, 0, d.len());
    assert(r@ =~= dir@);
    if d.len() > 0 && d[d.len() - 1] != '/' {
        r.push('/');
    }
    text::append(&mut r, rel);
    r
}

/// A path inside a directory; an absolute one stays as it is.
pub open spec fn placed(dir: Seq<char>, path: Seq<char>) -> Seq<char> {
    if path.len() > 0 && path[0] == '/' {
        path
    } else {
        joined(dir, path)
    }
}

/// A path inside a directory; an absolute one stays as it is.
pub fn place(dir: &str, path: &str) -> (r: String)
    ensures
        r@ == placed(dir@, path@),
{
    let chars = text::chars_of(path);
    if chars.len() > 0 && chars[0] == '/' {
        path.to_owned()
    } else {
        join(dir, path)
    }
}

/// A name in a directory leads to a child of that directory, whatever the
/// directory's path looks like: the child has that name, and that directory as its
/// parent.
pub proof fn law_join_then_split(dir: Seq<char>, name: Seq<char>)
    requires
        name.len() > 0,
        forall|i: int| 0 <= i < name.len() ==> name[i] != '/',
        name != seq!['.'],
        name != seq!['.', '.'],
    ensures
        file_name(joined(dir, name)) == Some(name),
        parent(joined(dir, name)) == Some(plain(dir)),
{
    lemma_joined(dir, name);
}

#[verifier::spinoff_prover]
proof fn lemma_joined(dir: Seq<char>, name: Seq<char>)
    requires
        name.len() > 0,
        forall|i: int| 0 <= i < name.len() ==> name[i] != '/',
        name != seq!['.'],
    ensures
        file_name(joined(dir, name)) == (if name == seq!['.', '.'] {
            None
        } else {
            Some(name)
        }),
        parent(joined(dir, name)) == Some(plain(dir)),
{
    let p = joined(dir, name);
    let n = p.len() as int;
    let from = n - name.len();
    let start = body_start(dir);
    assert(p.subrange(from, n) =~= name);
    assert forall|i: int| from <= i < n implies p[i] != '/' by {
        assert(p[i] == name[i - from]);
    }
    if name.len() == 1 {
        assert(name =~= seq![name[0]]);
    }
    assert(p[from] == name[0]);
    if dir.len() == 0 && name.len() > 1 {
        assert(p[1] == name[1]);
    }
    assert(body_start(p) == start);
    lemma_name_is_last(p, start, from, n);
    assert(!skipped(p, from, n));
    let len = dir.len() as int;
    lemma_kept_end(dir, start, len);
    if len == start {
        assert(kept_end(dir, start, len) == start);
        if from > start {
            assert(kept_end(p, start, from - 1) == start);
        }
    } else if dir.last() == '/' {
        assert(component_start(dir, start, len) == len);
        lemma_same_prefix(p, dir, start, len - 1);
    } else {
        lemma_same_prefix(p, dir, start, len);
    }
    assert(parent(p)->0 =~= plain(dir));
}

proof fn lemma_name_is_last(p: Seq<char>, start: int, from: int, end: int)
    requires
        0 <= start <= from <= end <= p.len(),
        from == start || p[from - 1] == '/',
        forall|i: int| from <= i < end ==> p[i] != '/',
    ensures
        component_start(p, start, end) == from,
    decreases end - from,
{
    if end > from {
        lemma_name_is_last(p, start, from, end - 1);
    }
}

proof fn lemma_same_component(p: Seq<char>, d: Seq<char>, start: int, end: int)
    requires
        0 <= start <= end <= d.len() <= p.len(),
        forall|i: int| 0 <= i < d.len() ==> p[i] == d[i],
    ensures
        component_start(p, start, end) == component_start(d, start, end),
    decreases end - start,
{
    if end > start && p[end - 1] != '/' {
        lemma_same_component(p, d, start, end - 1);
    }
}

proof fn lemma_same_prefix(p: Seq<char>, d: Seq<char>, start: int, end: int)
    requires
        0 <= start <= end <= d.len() <= p.len(),
        forall|i: int| 0 <= i < d.len() ==> p[i] == d[i],
    ensures
        kept_end(p, start, end) == kept_end(d, start, end),
    decreases end - start,
{
    lemma_same_component(p, d, start, end);
    lemma_component_start(p, start, end);
    let from = component_start(p, start, end);
    if end > start && skipped(p, from, end) && from > start {
        lemma_same_prefix(p, d, start, from - 1);
    }
}

/// What stands behind a path and names nothing does not change it: neither a
/// separator nor a `.` behind one.
pub proof fn law_what_names_nothing_is_left_out(p: Seq<char>)
    requires
        p.len() > 0,
    ensures
        file_name(p.push('/')) == file_name(p),
        parent(p.push('/')) == parent(p),
        plain(p.push('/')) == plain(p),
        file_name(p.push('/').push('.')) == file_name(p),
        parent(p.push('/').push('.')) == parent(p),
        plain(p.push('/').push('.')) == plain(p),
{
    let n = p.len() as int;
    let start = body_start(p);
    let a = p.push('/');
    let b = p.push('/').push('.');
    assert(body_start(a) == start && body_start(b) == start);
    assert(component_start(a, start, n + 1) == n + 1);
    lemma_same_prefix(a, p, start, n);
    assert(kept_end(a, start, n + 1) == kept_end(p, start, n));
    reveal_with_fuel(component_start, 2);
    assert(component_start(b, start, n + 2) == n + 1);
    lemma_same_prefix(b, p, start, n);
    assert(kept_end(b, start, n + 2) == kept_end(p, start, n));
    assert(a.subrange(0, n) =~= p);
    assert(b.subrange(0, n) =~= p);
    lemma_same_pieces(a, p);
    lemma_same_pieces(b, p);
}

proof fn lemma_same_pieces(q: Seq<char>, p: Seq<char>)
    requires
        0 < p.len() <= q.len(),
        q.subrange(0, p.len() as int) == p,
        body_start(q) == body_start(p),
        kept_end(q, body_start(p), q.len() as int) == kept_end(p, body_start(p), p.len() as int),
    ensures
        file_name(q) == file_name(p),
        parent(q) == parent(p),
        plain(q) == plain(p),
{
    let n = p.len() as int;
    let start = body_start(p);
    let end = kept_end(p, start, n);
    assert forall|i: int| 0 <= i < n implies q[i] == p[i] by {
        assert(q.subrange(0, n)[i] == p[i]);
    }
    lemma_kept_end(p, start, n);
    assert(plain(q) =~= plain(p));
    if end > start {
        lemma_same_component(q, p, start, end);
        lemma_component_start(p, start, end);
        let from = component_start(p, start, end);
        assert(q.subrange(from, end) =~= p.subrange(from, end));
        if from > start {
            lemma_same_prefix(q, p, start, from - 1);
            lemma_kept_end(p, start, from - 1);
            let k = kept_end(p, start, from - 1);
            assert(q.subrange(0, k) =~= p.subrange(0, k));
        } else {
            assert(q.subrange(0, start) =~= p.subrange(0, start));
        }
    }
}

/// A path that ends in a name is as plain as it gets. A name without a directory is
/// in the one that the empty path stands for, and nothing is taken off a directory
/// that ends in a name itself.
pub proof fn law_names_end_plain_paths(dir: Seq<char>, name: Seq<char>)
    requires
        name.len() > 0,
        forall|i: int| 0 <= i < name.len() ==> name[i] != '/',
        name != seq!['.'],
    ensures
        plain(joined(dir, name)) == joined(dir, name),
        plain(Seq::empty()) == Seq::<char>::empty(),
        plain(seq!['/']) == seq!['/'],
{
    let p = joined(dir, name);
    let n = p.len() as int;
    let from = n - name.len();
    let start = body_start(p);
    assert(p.subrange(from, n) =~= name);
    assert forall|i: int| from <= i < n implies p[i] != '/' by {
        assert(p[i] == name[i - from]);
    }
    if name.len() == 1 {
        assert(name =~= seq![name[0]]);
    }
    assert(p[from] == name[0]);
    if dir.len() == 0 && name.len() > 1 {
        assert(p[1] == name[1]);
    }
    assert(start <= from);
    lemma_name_is_last(p, start, from, n);
    assert(!skipped(p, from, n));
    assert(plain(p) =~= p);
    assert(plain(Seq::empty()) =~= Seq::<char>::empty());
    assert(plain(seq!['/']) =~= seq!['/']);
}

/// `..` names nothing, whatever it stands behind.
pub proof fn law_going_up_names_nothing(dir: Seq<char>)
    ensures
        file_name(joined(dir, seq!['.', '.'])) is None,
        parent(joined(dir, seq!['.', '.'])) == Some(plain(dir)),
{
    let name = seq!['.', '.'];
    assert(name.len() == 2 && name[0] == '.' && name[1] == '.');
    assert(seq!['.'].len() == 1);
    lemma_joined(dir, name);
}

/// The root is named by nothing and is in nothing, however often its separator is
/// written; nor is the empty path.
pub proof fn law_the_root_is_in_nothing(p: Seq<char>)
    requires
        forall|i: int| 0 <= i < p.len() ==> p[i] == '/',
    ensures
        file_name(p) is None,
        parent(p) is None,
{
    if p.len() > 0 {
        lemma_separators_are_left_out(p, 1, p.len() as int);
    }
}

proof fn lemma_separators_are_left_out(p: Seq<char>, start: int, end: int)
    requires
        0 <= start <= end <= p.len(),
        forall|i: int| 0 <= i < p.len() ==> p[i] == '/',
    ensures
        kept_end(p, start, end) == start,
    decreases end,
{
    if end > start {
        assert(component_start(p, start, end) == end);
        lemma_separators_are_left_out(p, start, end - 1);
    }
}

/// A path is put behind a directory with one separator between them, none if the
/// directory ends in one or is empty. An absolute path is not put anywhere.
pub proof fn law_how_paths_are_put_together(dir: Seq<char>, rel: Seq<char>)
    ensures
        dir.len() > 0 && dir[dir.len() - 1] != '/' ==> joined(dir, rel) == dir + seq!['/'] + rel,
        joined(dir.push('/'), rel) == dir + seq!['/'] + rel,
        joined(Seq::empty(), rel) == rel,
        placed(dir, seq!['/'] + rel) == seq!['/'] + rel,
        rel.len() > 0 && rel[0] != '/' ==> placed(dir, rel) == joined(dir, rel),
        placed(dir, Seq::empty()) == joined(dir, Seq::empty()),
{
    assert(dir.push('/') + rel =~= dir + seq!['/'] + rel);
    assert(joined(Seq::empty(), rel) =~= rel);
}

} // verus!
