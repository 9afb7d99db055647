//! Unix paths as sequences of components, the guard that keeps tool access
//! inside an episode's workspace, and the listing of workspace files
//! relative to the workspace root.
//!
//! A path's components are what `std::path::Path::components` yields on
//! Unix: a leading `/` becomes the root component, a leading `.` the
//! current-directory component, and every other piece between separators
//! is kept unless it is empty or `.`. Here the root component is written
//! `"/"` and the current-directory component `"."`; no other component can
//! be either.
use vstd::prelude::*;
use crate::errors::{ToolError, ToolErrorView};
use crate::text::{
    chars_eq, chars_of, extend_chars, join_chars, join_with, lemma_split_nonempty, split, split_chars, string_of,
    string_views, views,
};

verus! {

broadcast use vstd::seq_lib::group_seq_properties;

/// The root component.
pub open spec fn root_component() -> Seq<char> {
    seq!['/']
}

/// The current-directory component.
pub open spec fn cur_component() -> Seq<char> {
    seq!['.']
}

/// The parent-directory component.
pub open spec fn parent_component() -> Seq<char> {
    seq!['.', '.']
}

/// A piece between separators that is not a component of its own.
pub open spec fn is_skipped(seg: Seq<char>) -> bool {
    seg.len() == 0 || seg == cur_component()
}

/// The pieces of `segs` that are components, in order.
pub open spec fn kept_segments(segs: Seq<Seq<char>>) -> Seq<Seq<char>>
    decreases segs.len(),
{
    if segs.len() == 0 {
        Seq::empty()
    } else {
        let r = kept_segments(segs.drop_last());
        if is_skipped(segs.last()) {
            r
        } else {
            r.push(segs.last())
        }
    }
}

/// The components of the path `p`.
pub open spec fn components(p: Seq<char>) -> Seq<Seq<char>> {
    let segs = split(p, '/');
    if p.len() > 0 && p[0] == '/' {
        seq![root_component()] + kept_segments(segs)
    } else if segs[0] == cur_component() {
        seq![cur_component()] + kept_segments(segs.drop_first())
    } else {
        kept_segments(segs)
    }
}

/// `base` is a prefix of `cs`, component by component (`Path::starts_with`).
pub open spec fn starts_with_components(cs: Seq<Seq<char>>, base: Seq<Seq<char>>) -> bool {
    base.len() <= cs.len() && cs.take(base.len() as int) == base
}

fn root_chars() -> (r: Vec<char>)
    ensures
        r@ == root_component(),
{
    let mut r = Vec::new();
    r.push('/');
    assert(r@ =~= root_component());
    r
}

fn cur_chars() -> (r: Vec<char>)
    ensures
        r@ == cur_component(),
{
    let mut r = Vec::new();
    r.push('.');
    assert(r@ =~= cur_component());
    r
}

fn parent_chars() -> (r: Vec<char>)
    ensures
        r@ == parent_component(),
{
    let mut r = Vec::new();
    r.push('.');
    r.push('.');
    assert(r@ =~= parent_component());
    r
}

/// The components of `segs[from..]` that are kept, appended to `out`.
fn keep_segments(out: &mut Vec<Vec<char>>, segs: Vec<Vec<char>>, from: usize)
    requires
        from <= segs.len(),
    ensures
        views(final(out)@) == views(old(out)@) + kept_segments(views(segs@).skip(from as int)),
{
    let ghost out0 = views(out@);
    let ghost ss = views(segs@).skip(from as int);
    let n = segs.len();
    let mut i = from;
    let mut segs = segs;
    assert(ss.take(0) =~= Seq::<Seq<char>>::empty());
    assert(views(out@) =~= out0 + kept_segments(ss.take(0)));
    while i < n
        invariant
            from <= i <= n == segs.len(),
            ss == views(segs@).skip(from as int),
            views(out@) =~= out0 + kept_segments(ss.take(i - from)),
        decreases n - i,
    {
        let ghost k = i - from;
        assert(ss.take(k + 1).drop_last() =~= ss.take(k));
        assert(ss.take(k + 1).last() == segs@[i as int]@);
        let seg = segs[i].clone();
        let skip = seg.len() == 0 || (seg.len() == 1 && seg[0] == '.');
        assert(skip == is_skipped(seg@)) by {
            if seg@.len() == 1 && seg@[0] == '.' {
                assert(seg@ =~= cur_component());
            }
        }
        if !skip {
            let ghost before = views(out@);
            out.push(seg);
            assert(views(out@) =~= before.push(seg@));
        }
        i += 1;
    }
    assert(ss.take(n - from) =~= ss);
}

/// The components of the path `p`.
pub fn components_of(p: &Vec<char>) -> (r: Vec<Vec<char>>)
    ensures
        views(r@) == components(p@),
{
    let segs = split_chars(p, '/');
    proof {
        lemma_split_nonempty(p@, '/');
    }
    assert(views(segs@) == split(p@, '/'));
    let mut out: Vec<Vec<char>> = Vec::new();
    if p.len() > 0 && p[0] == '/' {
        out.push(root_chars());
        assert(views(out@) =~= seq![root_component()]);
        keep_segments(&mut out, segs, 0);
        assert(views(segs@).skip(0) =~= views(segs@));
    } else if chars_eq(&segs[0], &cur_chars()) {
        out.push(cur_chars());
        assert(views(out@) =~= seq![cur_component()]);
        keep_segments(&mut out, segs, 1);
        assert(views(segs@).skip(1) =~= views(segs@).drop_first());
    } else {
        keep_segments(&mut out, segs, 0);
        assert(views(segs@).skip(0) =~= views(segs@));
        assert(views(out@) =~= kept_segments(views(segs@)));
    }
    out
}

/// Whether `base` is a prefix of `cs`, component by component.
pub fn starts_with_exec(cs: &Vec<Vec<char>>, base: &Vec<Vec<char>>) -> (r: bool)
    ensures
        r == starts_with_components(views(cs@), views(base@)),
{
    if base.len() > cs.len() {
        return false;
    }
    for i in 0..base.len()
        invariant
            base.len() <= cs.len(),
            forall|j: int| 0 <= j < i ==> cs@[j]@ == base@[j]@,
    {
        if !chars_eq(&cs[i], &base[i]) {
            assert(views(cs@).take(base@.len() as int)[i as int] != views(base@)[i as int]);
            return false;
        }
    }
    assert(views(cs@).take(base@.len() as int) =~= views(base@));
    true
}

/// What the file system says about a target path: how far along it the
/// places exist, and where the last of them really is.
#[derive(Debug)]
pub struct TargetProbe {
    /// How many leading components of the target name a place that exists:
    /// all of them when the target exists, else those of its deepest
    /// existing ancestor.
    pub existing: usize,
    /// That place resolved to a canonical path (links followed), or the
    /// reason it could not be.
    pub canonical: Result<String, String>,
}

/// The components `cur` after one more component `c` is walked lexically:
/// `..` goes up (but not above the root), `.` stays, any other goes down.
pub open spec fn walk_step(cur: Seq<Seq<char>>, c: Seq<char>) -> Seq<Seq<char>> {
    if c == parent_component() {
        if cur.len() > 0 && cur.last() != root_component() {
            cur.drop_last()
        } else {
            cur
        }
    } else if c == cur_component() {
        cur
    } else {
        cur.push(c)
    }
}

/// The components reached from `base` by walking `rest` lexically.
pub open spec fn walk(base: Seq<Seq<char>>, rest: Seq<Seq<char>>) -> Seq<Seq<char>>
    decreases rest.len(),
{
    if rest.len() == 0 {
        base
    } else {
        walk_step(walk(base, rest.drop_last()), rest.last())
    }
}

/// The components of the place a target denotes, or why it could not be
/// resolved: the canonical path of its longest existing leading part, then
/// the components after that part walked lexically. A probe that reports
/// no existing part (or more parts than the target has) resolves nothing.
pub open spec fn resolved_target(target: Seq<char>, probe: TargetProbe) -> Result<
    Seq<Seq<char>>,
    ToolErrorView,
> {
    let tc = components(target);
    let k = probe.existing as int;
    if k == 0 || k > tc.len() {
        Err(ToolErrorView::NoParent)
    } else {
        match probe.canonical {
            Ok(c) => Ok(walk(components(c@), tc.skip(k))),
            Err(e) => if k == tc.len() {
                Err(ToolErrorView::TargetUnresolved(e@))
            } else {
                Err(ToolErrorView::Io(e@))
            },
        }
    }
}

/// The verdict of the path guard on `target`, given the canonical workspace
/// (or why it could not be resolved) and what the file system says about
/// the target.
pub open spec fn guard_outcome(
    workspace: Result<String, String>,
    target: Seq<char>,
    probe: TargetProbe,
) -> Result<(), ToolErrorView> {
    match workspace {
        Err(e) => Err(ToolErrorView::WorkspaceUnresolved(e@)),
        Ok(ws) => match resolved_target(target, probe) {
            Err(e) => Err(e),
            Ok(rc) => if starts_with_components(rc, components(ws@)) {
                Ok(())
            } else {
                Err(ToolErrorView::PathEscape(target))
            },
        },
    }
}

/// `base` walked lexically through `rest[from..]`.
fn walk_exec(base: Vec<Vec<char>>, rest: &Vec<Vec<char>>, from: usize) -> (r: Vec<Vec<char>>)
    requires
        from <= rest.len(),
    ensures
        views(r@) == walk(views(base@), views(rest@).skip(from as int)),
{
    let ghost b = views(base@);
    let ghost rs = views(rest@);
    let mut cur = base;
    let n = rest.len();
    let mut i = from;
    assert(rs.subrange(from as int, from as int) =~= Seq::<Seq<char>>::empty());
    while i < n
        invariant
            from <= i <= n == rest.len(),
            rs == views(rest@),
            views(cur@) == walk(b, rs.subrange(from as int, i as int)),
        decreases n - i,
    {
        assert(rs.subrange(from as int, i + 1).drop_last() =~= rs.subrange(from as int, i as int));
        assert(rs.subrange(from as int, i + 1).last() == rest@[i as int]@);
        let ghost before = views(cur@);
        let c = &rest[i];
        if chars_eq(c, &parent_chars()) {
            let m = cur.len();
            if m > 0 && !chars_eq(&cur[m - 1], &root_chars()) {
                cur.pop();
                assert(views(cur@) =~= before.drop_last());
            }
        } else if chars_eq(c, &cur_chars()) {
        } else {
            cur.push(c.clone());
            assert(views(cur@) =~= before.push(c@));
        }
        i += 1;
    }
    assert(rs.subrange(from as int, n as int) =~= rs.skip(from as int));
    cur
}

/// The path guard: `Ok` exactly when the place `target` denotes lies
/// inside the canonical workspace; otherwise the first failure met in
/// resolving it, or a path-escape error naming `target`.
pub fn guard_path(workspace: &Result<String, String>, target: &str, probe: &TargetProbe) -> (r:
    Result<(), ToolError>)
    ensures
        match r {
            Ok(()) => guard_outcome(*workspace, target@, *probe) is Ok,
            Err(e) => guard_outcome(*workspace, target@, *probe) == Err::<(), ToolErrorView>(e@),
        },
{
    let ws = match workspace {
        Err(e) => {
            return Err(ToolError::WorkspaceUnresolved(e.clone()));
        },
        Ok(ws) => ws,
    };
    let tc = components_of(&chars_of(target));
    let k = probe.existing;
    if k == 0 || k > tc.len() {
        return Err(ToolError::NoParent);
    }
    let base = match &probe.canonical {
        Err(e) => {
            if k == tc.len() {
                return Err(ToolError::TargetUnresolved(e.clone()));
            } else {
                return Err(ToolError::Io(e.clone()));
            }
        },
        Ok(c) => components_of(&chars_of(c.as_str())),
    };
    let resolved = walk_exec(base, &tc, k);
    let ws_components = components_of(&chars_of(ws.as_str()));
    if starts_with_exec(&resolved, &ws_components) {
        Ok(())
    } else {
        Err(ToolError::PathEscape(target.to_string()))
    }
}

/// The first component of `p` is written in its first piece: the root of
/// an absolute path, or the `.` that begins a relative one.
pub open spec fn has_lead(p: Seq<char>) -> bool {
    (p.len() > 0 && p[0] == '/') || split(p, '/')[0] == cur_component()
}

/// The index of the piece that follows the `t`-th kept piece met in
/// `segs` from index `i` on (the end, if there are fewer).
pub open spec fn after_kept(segs: Seq<Seq<char>>, i: int, t: nat) -> int
    decreases segs.len() - i,
{
    if t == 0 || i >= segs.len() {
        i
    } else if is_skipped(segs[i]) {
        after_kept(segs, i + 1, t)
    } else {
        after_kept(segs, i + 1, (t - 1) as nat)
    }
}

/// The index of the piece of `p` that follows its first `k` components.
pub open spec fn after_components(p: Seq<char>, k: nat) -> int {
    let segs = split(p, '/');
    if has_lead(p) {
        if k == 0 {
            0
        } else {
            after_kept(segs, 1, (k - 1) as nat)
        }
    } else {
        after_kept(segs, 0, k)
    }
}

/// The first index at or after `i` whose piece is kept (the end, if none).
pub open spec fn first_kept(segs: Seq<Seq<char>>, i: int) -> int
    decreases segs.len() - i,
{
    if i >= segs.len() {
        segs.len() as int
    } else if !is_skipped(segs[i]) {
        i
    } else {
        first_kept(segs, i + 1)
    }
}

/// The end of `segs[lo..e]` once the trailing pieces that are not kept
/// are dropped.
pub open spec fn kept_end(segs: Seq<Seq<char>>, lo: int, e: int) -> int
    decreases e - lo,
{
    if e <= lo {
        lo
    } else if !is_skipped(segs[e - 1]) {
        e
    } else {
        kept_end(segs, lo, e - 1)
    }
}

/// The pieces `segs[lo..hi]` joined by `/`.
pub open spec fn joined_pieces(segs: Seq<Seq<char>>, lo: int, hi: int) -> Seq<char> {
    join_with(segs.subrange(lo, hi), seq!['/'])
}

/// The text of `p` that remains once its first `k` components are
/// consumed (`Components::as_path`): the pieces that follow them, less the
/// leading and trailing pieces that are not components. With none
/// consumed, only trailing such pieces go, and a leading `/` or `.` stays.
pub open spec fn rest_text(p: Seq<char>, k: nat) -> Seq<char> {
    let segs = split(p, '/');
    let n = segs.len() as int;
    if k > 0 {
        let a = first_kept(segs, after_components(p, k));
        joined_pieces(segs, a, kept_end(segs, a, n))
    } else if p.len() > 0 && p[0] == '/' {
        seq!['/'] + joined_pieces(segs, 1, kept_end(segs, 1, n))
    } else if segs[0] == cur_component() {
        let b = kept_end(segs, 1, n);
        if b == 1 {
            cur_component()
        } else {
            cur_component() + seq!['/'] + joined_pieces(segs, 1, b)
        }
    } else {
        joined_pieces(segs, 0, kept_end(segs, 0, n))
    }
}

/// `path` relative to `root` (`Path::strip_prefix`): when the components
/// of `root` begin those of `path`, the text of `path` after them.
pub open spec fn strip_prefix(path: Seq<char>, root: Seq<char>) -> Option<Seq<char>> {
    let rc = components(root);
    if starts_with_components(components(path), rc) {
        Some(rest_text(path, rc.len()))
    } else {
        None
    }
}

/// The paths among `paths` that lie under `root`, relative to it, in order.
pub open spec fn relative_paths(root: Seq<char>, paths: Seq<Seq<char>>) -> Seq<Seq<char>>
    decreases paths.len(),
{
    if paths.len() == 0 {
        Seq::empty()
    } else {
        let r = relative_paths(root, paths.drop_last());
        match strip_prefix(paths.last(), root) {
            Some(t) => r.push(t),
            None => r,
        }
    }
}

/// Whether `seg` is a piece that is not a component.
fn skipped(seg: &Vec<char>) -> (r: bool)
    ensures
        r == is_skipped(seg@),
{
    let r = seg.len() == 0 || (seg.len() == 1 && seg[0] == '.');
    assert(r == is_skipped(seg@)) by {
        if seg@.len() == 1 && seg@[0] == '.' {
            assert(seg@ =~= cur_component());
        }
    }
    r
}

fn after_kept_exec(segs: &Vec<Vec<char>>, i: usize, t: usize) -> (r: usize)
    requires
        i <= segs.len(),
    ensures
        r == after_kept(views(segs@), i as int, t as nat),
        i <= r <= segs.len(),
{
    let ghost goal = after_kept(views(segs@), i as int, t as nat);
    let mut j = i;
    let mut u = t;
    while u > 0 && j < segs.len()
        invariant
            i <= j <= segs.len(),
            after_kept(views(segs@), j as int, u as nat) == goal,
        decreases segs.len() - j,
    {
        if !skipped(&segs[j]) {
            u -= 1;
        }
        j += 1;
    }
    j
}

fn first_kept_exec(segs: &Vec<Vec<char>>, i: usize) -> (r: usize)
    requires
        i <= segs.len(),
    ensures
        r == first_kept(views(segs@), i as int),
        i <= r <= segs.len(),
{
    let mut j = i;
    while j < segs.len() && skipped(&segs[j])
        invariant
            i <= j <= segs.len(),
            first_kept(views(segs@), j as int) == first_kept(views(segs@), i as int),
        decreases segs.len() - j,
    {
        j += 1;
    }
    j
}

fn kept_end_exec(segs: &Vec<Vec<char>>, lo: usize) -> (r: usize)
    requires
        lo <= segs.len(),
    ensures
        r == kept_end(views(segs@), lo as int, segs.len() as int),
        lo <= r <= segs.len(),
{
    let mut e = segs.len();
    while e > lo && skipped(&segs[e - 1])
        invariant
            lo <= e <= segs.len(),
            kept_end(views(segs@), lo as int, e as int) == kept_end(
                views(segs@),
                lo as int,
                segs.len() as int,
            ),
        decreases e - lo,
    {
        e -= 1;
    }
    e
}

fn joined_pieces_exec(segs: &Vec<Vec<char>>, lo: usize, hi: usize) -> (r: Vec<char>)
    requires
        lo <= hi <= segs.len(),
    ensures
        r@ == joined_pieces(views(segs@), lo as int, hi as int),
{
    let mut part: Vec<Vec<char>> = Vec::new();
    for x in lo..hi
        invariant
            lo <= hi <= segs.len(),
            views(part@) =~= views(segs@).subrange(lo as int, x as int),
    {
        let ghost before = views(part@);
        part.push(segs[x].clone());
        assert(views(part@) =~= before.push(segs@[x as int]@));
    }
    let mut slash: Vec<char> = Vec::new();
    slash.push('/');
    assert(slash@ =~= seq!['/']);
    let r = join_chars(&part, 0, &slash);
    assert(views(part@).skip(0) =~= views(part@));
    r
}

/// The text of `p` that remains once its first `k` components are consumed.
fn rest_text_exec(p: &Vec<char>, k: usize) -> (r: Vec<char>)
    ensures
        r@ == rest_text(p@, k as nat),
{
    let segs = split_chars(p, '/');
    proof {
        lemma_split_nonempty(p@, '/');
    }
    assert(views(segs@) == split(p@, '/'));
    let n = segs.len();
    let rooted = p.len() > 0 && p[0] == '/';
    let dotted = chars_eq(&segs[0], &cur_chars());
    if k > 0 {
        let start = if rooted || dotted {
            after_kept_exec(&segs, 1, k - 1)
        } else {
            after_kept_exec(&segs, 0, k)
        };
        let a = first_kept_exec(&segs, start);
        let b = kept_end_exec(&segs, a);
        joined_pieces_exec(&segs, a, b)
    } else if rooted {
        let mut r: Vec<char> = Vec::new();
        r.push('/');
        let rest = joined_pieces_exec(&segs, 1, kept_end_exec(&segs, 1));
        extend_chars(&mut r, &rest);
        assert(r@ =~= seq!['/'] + rest@);
        r
    } else if dotted {
        let b = kept_end_exec(&segs, 1);
        let mut r = cur_chars();
        if b > 1 {
            r.push('/');
            let rest = joined_pieces_exec(&segs, 1, b);
            let ghost r0 = r@;
            extend_chars(&mut r, &rest);
            assert(r@ =~= cur_component() + seq!['/'] + rest@);
        }
        r
    } else {
        joined_pieces_exec(&segs, 0, kept_end_exec(&segs, 0))
    }
}

/// The files under `root`, as paths relative to it and in the order given
/// (`Path::strip_prefix` on each): each of `files` whose components begin
/// with those of `root` contributes the rest of its text; the others are
/// left out.
pub fn list_workspace_files(root: &str, files: &Vec<String>) -> (r: Vec<String>)
    ensures
        string_views(r@) == relative_paths(root@, string_views(files@)),
{
    let root_components = components_of(&chars_of(root));
    let ghost fs = string_views(files@);
    let mut r: Vec<String> = Vec::new();
    assert(fs.take(0) =~= Seq::<Seq<char>>::empty());
    assert(string_views(r@) =~= Seq::<Seq<char>>::empty());
    for i in 0..files.len()
        invariant
            fs == string_views(files@),
            views(root_components@) == components(root@),
            string_views(r@) == relative_paths(root@, fs.take(i as int)),
    {
        assert(fs.take(i + 1).drop_last() =~= fs.take(i as int));
        assert(fs.take(i + 1).last() == files@[i as int]@);
        let path = chars_of(files[i].as_str());
        let pc = components_of(&path);
        if starts_with_exec(&pc, &root_components) {
            let rel = rest_text_exec(&path, root_components.len());
            let ghost before = string_views(r@);
            r.push(string_of(&rel));
            assert(string_views(r@) =~= before.push(rel@));
        }
    }
    assert(fs.take(files@.len() as int) =~= fs);
    r
}

/// Law: a target that the guard lets through lies inside the workspace:
/// the place it denotes (the canonical path of its longest existing part,
/// then the rest walked lexically) begins with all of the canonical
/// workspace's components.
pub proof fn lemma_guard_admits_only_inside(
    workspace: Result<String, String>,
    target: Seq<char>,
    probe: TargetProbe,
)
    requires
        guard_outcome(workspace, target, probe) is Ok,
    ensures
        workspace is Ok,
        resolved_target(target, probe) is Ok,
        starts_with_components(
            resolved_target(target, probe)->Ok_0,
            components(workspace->Ok_0@),
        ),
{
}

} // verus!
