//! Paths as text: the last component, a destination under a directory, and
//! a path shown relative to a root.

use vstd::prelude::*;

verus! {

/// `p` without its leading separators.
pub open spec fn strip_root(p: Seq<char>) -> Seq<char>
    decreases p.len(),
{
    if p.len() > 0 && p[0] == '/' {
        strip_root(p.drop_first())
    } else {
        p
    }
}

/// `p` without its trailing separators.
pub open spec fn trim_end(p: Seq<char>) -> Seq<char>
    decreases p.len(),
{
    if p.len() > 0 && p.last() == '/' {
        trim_end(p.drop_last())
    } else {
        p
    }
}

/// The characters of `p` after its last `/`, or all of `p` when it has none.
pub open spec fn base_name(p: Seq<char>) -> Seq<char>
    decreases p.len(),
{
    if p.len() == 0 || p.last() == '/' {
        Seq::empty()
    } else {
        base_name(p.drop_last()).push(p.last())
    }
}

/// The last component of `p`, trailing separators aside.
pub open spec fn last_component(p: Seq<char>) -> Seq<char> {
    base_name(trim_end(p))
}

/// Where a copy of `src` lands under `dest_dir`: the directory, a `/`, and
/// the last component of `src`; none when that component is empty or `..`.
pub open spec fn copy_target(src: Seq<char>, dest_dir: Seq<char>) -> Option<Seq<char>> {
    let name = last_component(src);
    if name.len() == 0 || name == seq!['.', '.'] {
        None
    } else {
        Some(dest_dir + seq!['/'] + name)
    }
}

/// `p` shown relative to `root`, trailing separators of `root` aside: when
/// `p` is `root` or lies under it, what follows it without the separators
/// around it; otherwise `p` itself.
pub open spec fn relative_text(p: Seq<char>, root: Seq<char>) -> Seq<char> {
    let r = trim_end(root);
    if p.len() >= r.len() && p.take(r.len() as int) == r && (p.len() == r.len() || p[r.len() as int]
        == '/') {
        trim_end(strip_root(p.skip(r.len() as int)))
    } else {
        p
    }
}

/// An owned copy of `s`.
pub fn literal(s: &str) -> (r: String)
    ensures
        r@ == s@,
{
    String::from_str(s)
}

/// The last component of `p`.
pub fn file_name(p: &str) -> (r: String)
    ensures
        r@ == last_component(p@),
{
    let t = trim_trailing_slashes(p);
    base_name_of(t.as_str())
}

fn base_name_of(p: &str) -> (r: String)
    ensures
        r@ == base_name(p@),
{
    let n = p.unicode_len();
    let mut start: usize = n;
    proof {
        assert(p@.take(n as int) =~= p@);
        assert(p@.skip(n as int) =~= Seq::<char>::empty());
        assert(p@ + Seq::<char>::empty() =~= p@);
    }
    while start > 0 && p.get_char(start - 1) != '/'
        invariant
            start <= n,
            n == p@.len(),
            base_name(p@) == base_name(p@.take(start as int)) + p@.skip(start as int),
        decreases start,
    {
        proof {
            let t = p@.take(start as int);
            assert(t.drop_last() =~= p@.take(start - 1));
            assert(p@.skip(start - 1) =~= seq![t.last()] + p@.skip(start as int));
            assert(base_name(t) =~= base_name(t.drop_last()).push(t.last()));
            assert(base_name(t.drop_last()).push(t.last()) + p@.skip(start as int)
                =~= base_name(t.drop_last()) + p@.skip(start - 1));
        }
        start = start - 1;
    }
    proof {
        assert(base_name(p@.take(start as int)) =~= Seq::<char>::empty());
        assert(Seq::<char>::empty() + p@.skip(start as int) =~= p@.skip(start as int));
        assert(p@.skip(start as int) =~= p@.subrange(start as int, n as int));
    }
    literal(p.substring_char(start, n))
}

/// Where a copy of `src` lands under `dest_dir`; none when `src` names no
/// last component that can be copied.
pub fn copy_destination(src: &str, dest_dir: &str) -> (r: Option<String>)
    ensures
        r is None <==> copy_target(src@, dest_dir@) is None,
        r is Some ==> copy_target(src@, dest_dir@) == Some(r->Some_0@),
{
    let name = file_name(src);
    proof {
        reveal_strlit("..");
        reveal_strlit("/");
    }
    let dots = literal("..");
    assert(dots@ =~= seq!['.', '.']);
    if name.unicode_len() == 0 || name == dots {
        return None;
    }
    let mut out = literal(dest_dir);
    out.append("/");
    out.append(name.as_str());
    Some(out)
}

/// `p` without its leading separators.
pub fn strip_leading_slashes(p: &str) -> (r: String)
    ensures
        r@ == strip_root(p@),
{
    let n = p.unicode_len();
    let mut i: usize = 0;
    assert(p@.skip(0) =~= p@);
    while i < n && p.get_char(i) == '/'
        invariant
            i <= n,
            n == p@.len(),
            strip_root(p@) == strip_root(p@.skip(i as int)),
        decreases n - i,
    {
        assert(p@.skip(i as int).drop_first() =~= p@.skip(i + 1));
        i = i + 1;
    }
    assert(p@.skip(i as int) =~= p@.subrange(i as int, n as int));
    String::from_str(p.substring_char(i, n))
}

/// `p` without its trailing separators.
pub fn trim_trailing_slashes(p: &str) -> (r: String)
    ensures
        r@ == trim_end(p@),
{
    let n = p.unicode_len();
    let mut i: usize = n;
    assert(p@.take(n as int) =~= p@);
    while i > 0 && p.get_char(i - 1) == '/'
        invariant
            i <= n,
            n == p@.len(),
            trim_end(p@) == trim_end(p@.take(i as int)),
        decreases i,
    {
        assert(p@.take(i as int).drop_last() =~= p@.take(i - 1));
        i = i - 1;
    }
    assert(p@.take(i as int) =~= p@.subrange(0, i as int));
    literal(p.substring_char(0, i))
}

/// `p` shown relative to `root`.
pub fn relative_display(p: &str, root: &str) -> (r: String)
    ensures
        r@ == relative_text(p@, root@),
{
    let rt = trim_trailing_slashes(root);
    let base = rt.as_str();
    let lp = p.unicode_len();
    let lr = base.unicode_len();
    if lp < lr {
        return literal(p);
    }
    let mut i: usize = 0;
    while i < lr
        invariant
            lp == p@.len(),
            lr == base@.len(),
            base@ == trim_end(root@),
            lr <= lp,
            i <= lr,
            p@.take(i as int) == base@.take(i as int),
        decreases lr - i,
    {
        if p.get_char(i) != base.get_char(i) {
            proof {
                assert(p@[i as int] != base@[i as int]);
                assert(p@.take(lr as int)[i as int] == p@[i as int]);
                assert(p@.take(lr as int) != base@);
            }
            return literal(p);
        }
        proof {
            assert(p@.take(i + 1) =~= p@.take(i as int).push(p@[i as int]));
            assert(base@.take(i + 1) =~= base@.take(i as int).push(base@[i as int]));
        }
        i = i + 1;
    }
    proof {
        assert(base@.take(lr as int) =~= base@);
    }
    if lp == lr || p.get_char(lr) == '/' {
        proof {
            assert(p@.skip(lr as int) =~= p@.subrange(lr as int, lp as int));
        }
        let rest = strip_leading_slashes(p.substring_char(lr, lp));
        trim_trailing_slashes(rest.as_str())
    } else {
        literal(p)
    }
}

} // verus!
