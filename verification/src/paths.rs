//! A model of `std::path` component parsing on Unix, so relative paths,
//! file names and extensions are computed from the same components `Path`
//! would see: repeated separators collapse, `.` disappears except at the
//! very start, `..` is kept, and a leading `/` is the root.

use vstd::prelude::*;
use crate::text::{lower, lower_all, push_char, push_chars, push_str, seq_eq, to_lower};

verus! {

/// One path component.
pub enum Comp {
    Root,
    Cur,
    Parent,
    Normal(Seq<char>),
}

/// The pieces of `s` between `/` separators (empty pieces included).
pub open spec fn segs(s: Seq<char>) -> Seq<Seq<char>>
    decreases s.len(),
{
    if s.len() == 0 {
        seq![Seq::<char>::empty()]
    } else {
        let p = segs(s.drop_last());
        if s.last() == '/' {
            p.push(Seq::<char>::empty())
        } else {
            p.update(p.len() - 1, p.last().push(s.last()))
        }
    }
}

/// The component a piece between separators stands for, if any.
pub open spec fn seg_comp(g: Seq<char>) -> Option<Comp> {
    if g.len() == 0 || g == seq!['.'] {
        None
    } else if g == seq!['.', '.'] {
        Some(Comp::Parent)
    } else {
        Some(Comp::Normal(g))
    }
}

/// Components of a list of pieces, in order.
pub open spec fn segs_comps(gs: Seq<Seq<char>>) -> Seq<Comp>
    decreases gs.len(),
{
    if gs.len() == 0 {
        Seq::empty()
    } else {
        let p = segs_comps(gs.drop_last());
        match seg_comp(gs.last()) {
            Some(c) => p.push(c),
            None => p,
        }
    }
}

/// Whether `s` starts with a `.` component (`.` or `./…`).
pub open spec fn starts_cur(s: Seq<char>) -> bool {
    s.len() > 0 && s[0] == '.' && (s.len() == 1 || s[1] == '/')
}

/// `Path::components` on Unix.
pub open spec fn comps(s: Seq<char>) -> Seq<Comp> {
    if s.len() > 0 && s[0] == '/' {
        seq![Comp::Root] + segs_comps(segs(s.skip(1)))
    } else if starts_cur(s) {
        seq![Comp::Cur] + segs_comps(segs(s.skip(if s.len() == 1 { 1int } else { 2int })))
    } else {
        segs_comps(segs(s))
    }
}

/// The text a component renders as.
pub open spec fn comp_str(c: Comp) -> Seq<char> {
    match c {
        Comp::Root => seq!['/'],
        Comp::Cur => seq!['.'],
        Comp::Parent => seq!['.', '.'],
        Comp::Normal(x) => x,
    }
}

/// Components rendered and joined with `/`.
pub open spec fn join_comps(cs: Seq<Comp>) -> Seq<char>
    decreases cs.len(),
{
    if cs.len() == 0 {
        Seq::empty()
    } else if cs.len() == 1 {
        comp_str(cs[0])
    } else {
        join_comps(cs.drop_last()) + seq!['/'] + comp_str(cs.last())
    }
}

/// `base` is a component-wise prefix of `path` (`Path::starts_with`).
pub open spec fn comps_prefix(base: Seq<Comp>, path: Seq<Comp>) -> bool {
    base.len() <= path.len() && path.take(base.len() as int) == base
}

/// Backslashes turned into forward slashes.
pub open spec fn slashed(s: Seq<char>) -> Seq<char> {
    s.map_values(|c: char| if c == '\\' { '/' } else { c })
}

/// Relative path from `root` to `path` joined with `/`; the whole of `path`
/// (backslashes normalized) when it is not under `root`.
pub open spec fn rel_slash_spec(root: Seq<char>, path: Seq<char>) -> Seq<char> {
    let rc = comps(root);
    let pc = comps(path);
    if comps_prefix(rc, pc) {
        join_comps(pc.skip(rc.len() as int))
    } else {
        slashed(path)
    }
}

/// Position of the last `.` in `s`, or -1.
pub open spec fn last_dot(s: Seq<char>) -> int
    decreases s.len(),
{
    if s.len() == 0 {
        -1
    } else if s.last() == '.' {
        s.len() - 1
    } else {
        last_dot(s.drop_last())
    }
}

/// `Path::file_name`: the last component when it is a normal one.
pub open spec fn file_name_spec(path: Seq<char>) -> Option<Seq<char>> {
    let pc = comps(path);
    if pc.len() > 0 && pc.last() is Normal {
        Some(pc.last()->Normal_0)
    } else {
        None
    }
}

/// Lowercased extension: what follows the last `.` of the file name, when
/// that dot is not the name's first character.
pub open spec fn extension_spec(path: Seq<char>) -> Option<Seq<char>> {
    match file_name_spec(path) {
        Some(name) => if last_dot(name) > 0 {
            Some(lower_all(name.skip(last_dot(name) + 1)))
        } else {
            None
        },
        None => None,
    }
}

/// A path component held by executable code.
pub enum PComp {
    Root,
    Cur,
    Parent,
    Normal(Vec<char>),
}

impl PComp {
    pub open spec fn view(&self) -> Comp {
        match self {
            PComp::Root => Comp::Root,
            PComp::Cur => Comp::Cur,
            PComp::Parent => Comp::Parent,
            PComp::Normal(v) => Comp::Normal(v@),
        }
    }
}

/// Views of a list of executable components.
pub open spec fn comps_view(v: Seq<PComp>) -> Seq<Comp> {
    v.map_values(|c: PComp| c.view())
}

proof fn lemma_segs_nonempty(s: Seq<char>)
    ensures
        segs(s).len() >= 1,
    decreases s.len(),
{
    if s.len() > 0 {
        lemma_segs_nonempty(s.drop_last());
    }
}

fn piece_comp(g: Vec<char>) -> (r: Option<PComp>)
    ensures
        r matches Some(c) ==> seg_comp(g@) == Some(c.view()),
        r is None ==> seg_comp(g@) is None,
{
    if g.len() == 0 || (g.len() == 1 && g[0] == '.') {
        if g.len() == 1 {
            assert(g@ =~= seq!['.']);
        }
        None
    } else if g.len() == 2 && g[0] == '.' && g[1] == '.' {
        assert(g@ =~= seq!['.', '.']);
        Some(PComp::Parent)
    } else {
        assert(g@ != seq!['.']) by {
            if g.len() == 1 {
                assert(g@[0] != seq!['.'][0]);
            }
        }
        assert(g@ != seq!['.', '.']) by {
            if g.len() == 2 {
                assert(g@[0] != '.' || g@[1] != '.');
            }
        }
        Some(PComp::Normal(g))
    }
}

/// Components of the pieces of `s[from..]`, appended to `out`.
fn push_segs_comps(s: &[char], from: usize, out: &mut Vec<PComp>)
    requires
        from <= s.len(),
    ensures
        comps_view(final(out)@) == comps_view(old(out)@) + segs_comps(segs(s@.skip(from as int))),
{
    let ghost start = comps_view(out@);
    let ghost t = s@.skip(from as int);
    let mut cur: Vec<char> = Vec::new();
    let mut i = from;
    proof {
        assert(t.take(0) == Seq::<char>::empty());
    }
    while i < s.len()
        invariant
            from <= i <= s.len(),
            t == s@.skip(from as int),
            segs(t.take(i - from)).len() >= 1,
            segs(t.take(i - from)).last() == cur@,
            comps_view(out@) == start + segs_comps(segs(t.take(i - from)).drop_last()),
        decreases s.len() - i,
    {
        let c = s[i];
        let ghost pre = t.take(i - from);
        let ghost next = t.take(i - from + 1);
        assert(next.drop_last() == pre);
        assert(next.last() == c);
        proof {
            lemma_segs_nonempty(pre);
        }
        if c == '/' {
            let ghost gs = segs(pre);
            assert(segs(next) == gs.push(Seq::<char>::empty()));
            assert(segs(next).drop_last() == gs);
            assert(gs.drop_last().push(gs.last()) == gs);
            let piece = cur;
            cur = Vec::new();
            let ghost before = comps_view(out@);
            assert(before == start + segs_comps(gs.drop_last()));
            assert(piece@ == gs.last());
            match piece_comp(piece) {
                Some(pc) => {
                    out.push(pc);
                    assert(comps_view(out@) =~= before.push(pc.view()));
                },
                None => {},
            }
            assert(segs_comps(gs) == {
                let p = segs_comps(gs.drop_last());
                match seg_comp(gs.last()) {
                    Some(c) => p.push(c),
                    None => p,
                }
            });
            assert(comps_view(out@) =~= start + segs_comps(gs));
        } else {
            cur.push(c);
            let ghost gs = segs(pre);
            assert(segs(next).drop_last() =~= gs.drop_last());
        }
        i = i + 1;
    }
    proof {
        assert(t.take(i - from) == t);
        lemma_segs_nonempty(t);
    }
    let ghost gs = segs(t);
    let piece = cur;
    let ghost before = comps_view(out@);
    assert(before == start + segs_comps(gs.drop_last()));
    match piece_comp(piece) {
        Some(pc) => {
            out.push(pc);
            assert(comps_view(out@) =~= before.push(pc.view()));
        },
        None => {},
    }
    assert(segs_comps(gs) == {
        let p = segs_comps(gs.drop_last());
        match seg_comp(gs.last()) {
            Some(c) => p.push(c),
            None => p,
        }
    });
    assert(comps_view(out@) =~= start + segs_comps(gs));
}

/// `Path::components` of `s`.
pub fn components(s: &[char]) -> (r: Vec<PComp>)
    ensures
        comps_view(r@) == comps(s@),
{
    let mut out: Vec<PComp> = Vec::new();
    if s.len() > 0 && s[0] == '/' {
        out.push(PComp::Root);
        push_segs_comps(s, 1, &mut out);
        assert(comps_view(out@) =~= seq![Comp::Root] + segs_comps(segs(s@.skip(1))));
    } else if s.len() > 0 && s[0] == '.' && (s.len() == 1 || s[1] == '/') {
        out.push(PComp::Cur);
        let k: usize = if s.len() == 1 { 1 } else { 2 };
        push_segs_comps(s, k, &mut out);
        assert(comps_view(out@) =~= seq![Comp::Cur] + segs_comps(segs(s@.skip(k as int))));
    } else {
        push_segs_comps(s, 0, &mut out);
        assert(s@.skip(0) == s@);
        assert(comps_view(out@) =~= segs_comps(segs(s@)));
    }
    out
}

/// Whether two components are the same.
pub fn comp_eq(a: &PComp, b: &PComp) -> (r: bool)
    ensures
        r == (a.view() == b.view()),
{
    match (a, b) {
        (PComp::Root, PComp::Root) => true,
        (PComp::Cur, PComp::Cur) => true,
        (PComp::Parent, PComp::Parent) => true,
        (PComp::Normal(x), PComp::Normal(y)) => seq_eq(x, y),
        _ => false,
    }
}

/// Whether `base` is a component-wise prefix of `path`.
pub fn is_comps_prefix(base: &Vec<PComp>, path: &Vec<PComp>) -> (r: bool)
    ensures
        r == comps_prefix(comps_view(base@), comps_view(path@)),
{
    if base.len() > path.len() {
        return false;
    }
    let mut i: usize = 0;
    while i < base.len()
        invariant
            base.len() <= path.len(),
            0 <= i <= base.len(),
            forall|j: int| 0 <= j < i ==> base@[j].view() == path@[j].view(),
        decreases base.len() - i,
    {
        if !comp_eq(&base[i], &path[i]) {
            assert(comps_view(path@).take(base.len() as int)[i as int] != comps_view(base@)[i as int]);
            return false;
        }
        i = i + 1;
    }
    assert(comps_view(path@).take(base.len() as int) =~= comps_view(base@));
    true
}

/// Appends the text of one component.
fn push_comp(s: &mut String, c: &PComp)
    ensures
        final(s)@ == old(s)@ + comp_str(c.view()),
{
    match c {
        PComp::Root => push_char(s, '/'),
        PComp::Cur => push_char(s, '.'),
        PComp::Parent => {
            push_char(s, '.');
            push_char(s, '.');
            assert(final(s)@ =~= old(s)@ + seq!['.', '.']);
        },
        PComp::Normal(x) => push_chars(s, x.as_slice()),
    }
}

/// Components `cs[from..]` rendered and joined with `/`.
pub fn join_from(cs: &Vec<PComp>, from: usize) -> (r: String)
    requires
        from <= cs.len(),
    ensures
        r@ == join_comps(comps_view(cs@).skip(from as int)),
{
    let mut s = String::new();
    let mut i = from;
    let ghost all = comps_view(cs@).skip(from as int);
    while i < cs.len()
        invariant
            from <= i <= cs.len(),
            all == comps_view(cs@).skip(from as int),
            s@ == join_comps(all.take(i - from)),
        decreases cs.len() - i,
    {
        let ghost pre = all.take(i - from);
        let ghost next = all.take(i - from + 1);
        assert(next.drop_last() == pre);
        assert(next.last() == cs@[i as int].view());
        if i > from {
            push_char(&mut s, '/');
        } else {
            assert(pre.len() == 0);
        }
        push_comp(&mut s, &cs[i]);
        assert(s@ =~= join_comps(next));
        i = i + 1;
    }
    assert(all.take(i - from) == all);
    s
}

/// Components `cs[from..to]` rendered and joined with `/`.
pub fn join_range(cs: &Vec<PComp>, from: usize, to: usize) -> (r: String)
    requires
        from <= to <= cs.len(),
    ensures
        r@ == join_comps(comps_view(cs@).subrange(from as int, to as int)),
{
    let mut s = String::new();
    let mut i = from;
    let ghost all = comps_view(cs@).subrange(from as int, to as int);
    while i < to
        invariant
            from <= i <= to <= cs.len(),
            all == comps_view(cs@).subrange(from as int, to as int),
            s@ == join_comps(all.take(i - from)),
        decreases to - i,
    {
        let ghost pre = all.take(i - from);
        let ghost next = all.take(i - from + 1);
        assert(next.drop_last() == pre);
        assert(next.last() == cs@[i as int].view());
        if i > from {
            push_char(&mut s, '/');
        } else {
            assert(pre.len() == 0);
        }
        push_comp(&mut s, &cs[i]);
        assert(s@ =~= join_comps(next));
        i = i + 1;
    }
    assert(all.take(i - from) == all);
    s
}

/// The path that components spell: a leading root as `/`, the rest
/// joined with `/` (how a `PathBuf` collected from them prints).
pub open spec fn path_str(cs: Seq<Comp>) -> Seq<char> {
    if cs.len() > 0 && cs[0] is Root {
        seq!['/'] + join_comps(cs.skip(1))
    } else {
        join_comps(cs)
    }
}

/// The path spelled by the first `k` components.
pub fn path_string(cs: &Vec<PComp>, k: usize) -> (r: String)
    requires
        k <= cs.len(),
    ensures
        r@ == path_str(comps_view(cs@).take(k as int)),
{
    let ghost t = comps_view(cs@).take(k as int);
    if k > 0 && matches!(cs[0], PComp::Root) {
        let mut s = String::new();
        push_char(&mut s, '/');
        let rest = join_range(cs, 1, k);
        push_str(&mut s, rest.as_str());
        assert(comps_view(cs@).subrange(1, k as int) == t.skip(1));
        s
    } else {
        let r = join_range(cs, 0, k);
        assert(comps_view(cs@).subrange(0, k as int) == t);
        r
    }
}

/// Relative path from `root` to `path`, `/`-separated; falls back to the
/// full path (backslashes normalized) when `path` is not under `root`.
pub fn rel_slash_chars(root: &[char], path: &[char]) -> (r: String)
    ensures
        r@ == rel_slash_spec(root@, path@),
{
    let rc = components(root);
    let pc = components(path);
    if is_comps_prefix(&rc, &pc) {
        join_from(&pc, rc.len())
    } else {
        let mut s = String::new();
        let mut i: usize = 0;
        while i < path.len()
            invariant
                0 <= i <= path.len(),
                s@ == slashed(path@.take(i as int)),
            decreases path.len() - i,
        {
            let c = path[i];
            push_char(&mut s, if c == '\\' { '/' } else { c });
            assert(slashed(path@.take(i + 1)) =~= slashed(path@.take(i as int)).push(
                if c == '\\' { '/' } else { c },
            ));
            i = i + 1;
        }
        assert(path@.take(path.len() as int) == path@);
        s
    }
}

/// Position of the last `.` in `s`, or `None`.
pub fn find_last_dot(s: &[char]) -> (r: Option<usize>)
    ensures
        r matches Some(i) ==> last_dot(s@) == i && i < s.len(),
        r is None ==> last_dot(s@) == -1,
{
    let mut i = s.len();
    assert(s@.take(i as int) == s@);
    while i > 0
        invariant
            i <= s.len(),
            last_dot(s@) == last_dot(s@.take(i as int)),
        decreases i,
    {
        assert(s@.take(i as int).drop_last() == s@.take(i - 1));
        if s[i - 1] == '.' {
            return Some(i - 1);
        }
        i = i - 1;
    }
    None
}

/// The file name of `path`, if its last component is a normal one.
pub fn file_name_chars(path: &[char]) -> (r: Option<Vec<char>>)
    ensures
        r matches Some(v) ==> file_name_spec(path@) == Some(v@),
        r is None ==> file_name_spec(path@) is None,
{
    let mut pc = components(path);
    let n = pc.len();
    if n == 0 {
        return None;
    }
    let ghost before = pc@;
    let last = pc.remove(n - 1);
    assert(comps_view(before).last() == last.view());
    match last {
        PComp::Normal(v) => Some(v),
        _ => None,
    }
}

/// Lowercased copy of `s[from..]`.
pub fn lower_from(s: &[char], from: usize) -> (r: Vec<char>)
    requires
        from <= s.len(),
    ensures
        r@ == lower_all(s@.skip(from as int)),
{
    let mut out: Vec<char> = Vec::new();
    let mut i = from;
    while i < s.len()
        invariant
            from <= i <= s.len(),
            out@ == lower_all(s@.skip(from as int).take(i - from)),
        decreases s.len() - i,
    {
        out.push(to_lower(s[i]));
        assert(lower_all(s@.skip(from as int).take(i - from + 1)) =~= lower_all(
            s@.skip(from as int).take(i - from),
        ).push(lower(s[i as int])));
        i = i + 1;
    }
    assert(s@.skip(from as int).take(i - from) == s@.skip(from as int));
    out
}

/// Lowercased extension of `path`, if any.
pub fn extension_chars(path: &[char]) -> (r: Option<Vec<char>>)
    ensures
        r matches Some(v) ==> extension_spec(path@) == Some(v@),
        r is None ==> extension_spec(path@) is None,
{
    match file_name_chars(path) {
        None => None,
        Some(name) => match find_last_dot(&name) {
            Some(d) => if d > 0 {
                Some(lower_from(&name, d + 1))
            } else {
                None
            },
            None => None,
        },
    }
}

} // verus!
