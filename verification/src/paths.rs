//! Unix paths held as strings: their components, component-wise equality,
//! prefix and suffix tests, and joining.
use vstd::prelude::*;
use crate::text::{first_segment, first_segment_of, split_on, str_eq};

verus! {

/// The component that stands for the root directory.
pub open spec fn root_component() -> Seq<char> {
    seq!['/']
}

/// The component that stands for a leading current directory.
pub open spec fn cur_dir_component() -> Seq<char> {
    seq!['.']
}

/// Whether a piece between separators is a normal component: it is neither
/// empty nor `"."`.
pub open spec fn is_normal_piece(g: Seq<char>) -> bool {
    g.len() != 0 && g != cur_dir_component()
}

/// The normal components among pieces between separators.
pub open spec fn normal_parts(pieces: Seq<Seq<char>>) -> Seq<Seq<char>>
    decreases pieces.len(),
{
    if pieces.len() == 0 {
        Seq::empty()
    } else {
        let prev = normal_parts(pieces.drop_last());
        if is_normal_piece(pieces.last()) {
            prev.push(pieces.last())
        } else {
            prev
        }
    }
}

pub open spec fn is_absolute(s: Seq<char>) -> bool {
    s.len() > 0 && s[0] == '/'
}

/// The components of a path, as `Path::components` yields them on Unix: the
/// root when the path starts with `'/'`, a current-directory component when a
/// relative path starts with the piece `"."`, then every piece between
/// separators that is neither empty nor `"."`.
pub open spec fn path_components(s: Seq<char>) -> Seq<Seq<char>> {
    let head = if is_absolute(s) {
        seq![root_component()]
    } else if first_segment(s, '/') == cur_dir_component() {
        seq![cur_dir_component()]
    } else {
        Seq::<Seq<char>>::empty()
    };
    head + normal_parts(split_on(s, '/'))
}

/// `Path::eq`: the same components.
pub open spec fn path_eq_spec(a: Seq<char>, b: Seq<char>) -> bool {
    path_components(a) == path_components(b)
}

/// `Path::starts_with`: the components of `base` begin the components of `p`.
pub open spec fn path_starts_with_spec(p: Seq<char>, base: Seq<char>) -> bool {
    let pc = path_components(p);
    let bc = path_components(base);
    bc.len() <= pc.len() && pc.take(bc.len() as int) == bc
}

/// `Path::ends_with`: the components of `child` end the components of `p`.
pub open spec fn path_ends_with_spec(p: Seq<char>, child: Seq<char>) -> bool {
    let pc = path_components(p);
    let cc = path_components(child);
    cc.len() <= pc.len() && pc.skip(pc.len() - cc.len()) == cc
}

/// `Path::join` on Unix: an absolute `p` replaces `base`; otherwise `p` is
/// appended, with a `'/'` between them when `base` is not empty and does not
/// already end with one.
pub open spec fn path_join_spec(base: Seq<char>, p: Seq<char>) -> Seq<char> {
    if is_absolute(p) {
        p
    } else if base.len() > 0 && base.last() != '/' {
        base + seq!['/'] + p
    } else {
        base + p
    }
}

/// The components of a path.
pub fn path_components_of(s: &str) -> (r: Vec<String>)
    ensures
        r.deep_view() == path_components(s@),
{
    let n = s.unicode_len();
    let mut parts: Vec<String> = Vec::new();
    let mut start: usize = 0;
    let mut i: usize = 0;
    proof {
        assert(s@.take(0) =~= Seq::<char>::empty());
        assert(split_on(s@.take(0), '/').drop_last() =~= Seq::<Seq<char>>::empty());
    }
    while i < n
        invariant
            n == s@.len(),
            start <= i <= n,
            split_on(s@.take(i as int), '/').len() >= 1,
            split_on(s@.take(i as int), '/').last() == s@.subrange(start as int, i as int),
            parts.deep_view() == normal_parts(split_on(s@.take(i as int), '/').drop_last()),
        decreases n - i,
    {
        let c = s.get_char(i);
        let ghost before = split_on(s@.take(i as int), '/');
        proof {
            assert(s@.take(i + 1).drop_last() =~= s@.take(i as int));
            assert(s@.take(i + 1).last() == c);
        }
        if c == '/' {
            let piece = s.substring_char(start, i);
            let ghost after = split_on(s@.take(i + 1), '/');
            proof {
                assert(after == before.push(Seq::<char>::empty()));
                assert(after.drop_last() =~= before);
                assert(before =~= before.drop_last().push(before.last()));
            }
            if piece.unicode_len() != 0 && !str_eq(piece, ".") {
                proof {
                    reveal_strlit(".");
                    assert("."@ =~= cur_dir_component());
                }
                parts.push(piece.to_owned());
                proof {
                    assert(parts.deep_view() =~= normal_parts(before.drop_last()).push(piece@));
                }
            } else {
                proof {
                    reveal_strlit(".");
                    assert("."@ =~= cur_dir_component());
                }
            }
            start = i + 1;
            proof {
                assert(after.last() =~= s@.subrange(start as int, (i + 1) as int));
            }
        } else {
            proof {
                let after = split_on(s@.take(i + 1), '/');
                assert(after == before.update(before.len() - 1, before.last().push(c)));
                assert(after.drop_last() =~= before.drop_last());
                assert(after.last() =~= s@.subrange(start as int, (i + 1) as int));
            }
        }
        i += 1;
    }
    let piece = s.substring_char(start, n);
    let ghost all = split_on(s@, '/');
    proof {
        assert(s@.take(n as int) =~= s@);
        assert(all =~= all.drop_last().push(all.last()));
        reveal_strlit(".");
        assert("."@ =~= cur_dir_component());
        reveal_strlit("/");
    }
    if piece.unicode_len() != 0 && !str_eq(piece, ".") {
        parts.push(piece.to_owned());
    }
    proof {
        assert(parts.deep_view() =~= normal_parts(all));
    }
    let absolute = n > 0 && s.get_char(0) == '/';
    let head = first_segment_of(s, '/');
    let mut r: Vec<String> = Vec::new();
    if absolute {
        r.push("/".to_owned());
        proof {
            reveal_strlit("/");
            assert(r@[0]@ =~= root_component());
            assert(r.deep_view() =~= seq![root_component()]);
        }
    } else if str_eq(head, ".") {
        r.push(".".to_owned());
        proof {
            assert(r@[0]@ =~= cur_dir_component());
            assert(r.deep_view() =~= seq![cur_dir_component()]);
        }
    }
    let ghost head_view = r.deep_view();
    let mut k: usize = 0;
    while k < parts.len()
        invariant
            r.deep_view() == head_view + parts.deep_view().take(k as int),
            k <= parts.len(),
        decreases parts.len() - k,
    {
        let p = parts[k].clone();
        let ghost old_r = r.deep_view();
        r.push(p);
        proof {
            assert(r.deep_view() =~= old_r.push(parts.deep_view()[k as int]));
            assert(parts.deep_view().take(k + 1) =~= parts.deep_view().take(k as int).push(
                parts.deep_view()[k as int],
            ));
            assert(r.deep_view() =~= head_view + parts.deep_view().take(k + 1));
        }
        k += 1;
    }
    proof {
        assert(parts.deep_view().take(parts.len() as int) =~= parts.deep_view());
        if !absolute && head@ != cur_dir_component() {
            assert(head_view =~= Seq::<Seq<char>>::empty());
        }
    }
    r
}

/// Whether `a[off..off + b.len()]` equals `b`, component by component.
fn parts_match(a: &Vec<String>, off: usize, b: &Vec<String>) -> (r: bool)
    requires
        off + b.len() <= a.len(),
    ensures
        r == (a.deep_view().subrange(off as int, off + b.len()) == b.deep_view()),
{
    let mut i: usize = 0;
    while i < b.len()
        invariant
            off + b.len() <= a.len(),
            i <= b.len(),
            forall|j: int| 0 <= j < i ==> a.deep_view()[off + j] == b.deep_view()[j],
        decreases b.len() - i,
    {
        if !str_eq(a[off + i].as_str(), b[i].as_str()) {
            assert(a.deep_view().subrange(off as int, off + b.len())[i as int] != b.deep_view()[i as int]);
            return false;
        }
        i += 1;
    }
    assert(a.deep_view().subrange(off as int, off + b.len()) =~= b.deep_view());
    true
}

/// `Path::eq` on paths held as strings.
pub fn path_eq(a: &str, b: &str) -> (r: bool)
    ensures
        r == path_eq_spec(a@, b@),
{
    let ac = path_components_of(a);
    let bc = path_components_of(b);
    if ac.len() != bc.len() {
        assert(ac.deep_view().len() != bc.deep_view().len());
        return false;
    }
    let r = parts_match(&ac, 0, &bc);
    assert(ac.deep_view().subrange(0, bc.len() as int) =~= ac.deep_view());
    r
}

/// `Path::starts_with` on paths held as strings.
pub fn path_starts_with(p: &str, base: &str) -> (r: bool)
    ensures
        r == path_starts_with_spec(p@, base@),
{
    let pc = path_components_of(p);
    let bc = path_components_of(base);
    if bc.len() > pc.len() {
        return false;
    }
    let r = parts_match(&pc, 0, &bc);
    assert(pc.deep_view().subrange(0, bc.len() as int) =~= pc.deep_view().take(bc.len() as int));
    r
}

/// `Path::ends_with` on paths held as strings.
pub fn path_ends_with(p: &str, child: &str) -> (r: bool)
    ensures
        r == path_ends_with_spec(p@, child@),
{
    let pc = path_components_of(p);
    let cc = path_components_of(child);
    if cc.len() > pc.len() {
        return false;
    }
    let off = pc.len() - cc.len();
    let r = parts_match(&pc, off, &cc);
    assert(pc.deep_view().subrange(off as int, off + cc.len()) =~= pc.deep_view().skip(
        off as int,
    ));
    r
}

/// `Path::join` on paths held as strings.
pub fn path_join(base: &str, p: &str) -> (r: String)
    ensures
        r@ == path_join_spec(base@, p@),
{
    let n = base.unicode_len();
    if p.unicode_len() > 0 && p.get_char(0) == '/' {
        p.to_owned()
    } else if n > 0 && base.get_char(n - 1) != '/' {
        let mut r = base.to_owned();
        r.append("/");
        r.append(p);
        proof {
            reveal_strlit("/");
            assert(r@ =~= base@ + seq!['/'] + p@);
        }
        r
    } else {
        let mut r = base.to_owned();
        r.append(p);
        r
    }
}

} // verus!
