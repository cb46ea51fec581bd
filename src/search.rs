//! Matching entry names against a query, ignoring case.

use vstd::prelude::*;

verus! {

/// The lower-case form of `s`, as std's `str::to_lowercase` gives it.
pub uninterp spec fn lower_of(s: Seq<char>) -> Seq<char>;

/// Relies on `str::to_lowercase`: its result depends on the characters of
/// `s` alone.
#[verifier::external_body]
fn lowercase(s: &str) -> (r: String)
    ensures
        r@ == lower_of(s@),
{
    s.to_lowercase()
}

/// `needle` occurs in `hay` as a run of consecutive characters.
pub open spec fn occurs_in(needle: Seq<char>, hay: Seq<char>) -> bool {
    exists|i: int| 0 <= i && i + needle.len() <= hay.len() && #[trigger] hay.subrange(
        i,
        i + needle.len(),
    ) == needle
}

/// The paths among `paths` whose name in `names`, at the same position,
/// holds `query` ignoring case; in their order.
pub open spec fn matching(
    paths: Seq<Seq<char>>,
    names: Seq<Seq<char>>,
    query: Seq<char>,
) -> Seq<Seq<char>>
    decreases paths.len(),
{
    if paths.len() == 0 {
        paths
    } else {
        let rest = matching(paths.drop_last(), names.drop_last(), query);
        if occurs_in(lower_of(query), lower_of(names[paths.len() - 1])) {
            rest.push(paths.last())
        } else {
            rest
        }
    }
}

/// Whether `needle` occurs in `hay`; both are taken as they are.
pub fn contains_folded(hay: &str, needle: &str) -> (r: bool)
    ensures
        r == occurs_in(needle@, hay@),
{
    let lh = hay.unicode_len();
    let ln = needle.unicode_len();
    if ln > lh {
        return false;
    }
    let mut i: usize = 0;
    while i <= lh - ln
        invariant
            lh == hay@.len(),
            ln == needle@.len(),
            ln <= lh,
            forall|k: int| 0 <= k < i ==> #[trigger] hay@.subrange(k, k + ln) != needle@,
        decreases lh - ln + 1 - i,
    {
        let mut j: usize = 0;
        let mut same = true;
        while j < ln
            invariant
                lh == hay@.len(),
                ln == needle@.len(),
                i + ln <= lh,
                j <= ln,
                same == forall|m: int| 0 <= m < j ==> hay@[i + m] == needle@[m],
            decreases ln - j,
        {
            if hay.get_char(i + j) != needle.get_char(j) {
                same = false;
            }
            j = j + 1;
        }
        if same {
            assert(hay@.subrange(i as int, i + ln) =~= needle@);
            return true;
        }
        proof {
            if hay@.subrange(i as int, i + ln) == needle@ {
                assert forall|m: int| 0 <= m < ln implies hay@[i + m] == needle@[m] by {
                    assert(hay@.subrange(i as int, i + ln)[m] == hay@[i + m]);
                }
            }
        }
        i = i + 1;
    }
    false
}

/// Whether `name` holds `query`, ignoring case.
pub fn name_matches(name: &str, query: &str) -> (r: bool)
    ensures
        r == occurs_in(lower_of(query@), lower_of(name@)),
{
    let n = lowercase(name);
    let q = lowercase(query);
    contains_folded(n.as_str(), q.as_str())
}

/// The paths whose name, at the same position of `names`, holds `query`
/// ignoring case, in the order given.
pub fn filter_matches(paths: &Vec<String>, names: &Vec<String>, query: &str) -> (r: Vec<String>)
    requires
        names@.len() == paths@.len(),
    ensures
        r@.map_values(|s: String| s@) == matching(
            paths@.map_values(|s: String| s@),
            names@.map_values(|s: String| s@),
            query@,
        ),
{
    let mut out: Vec<String> = Vec::new();
    let mut i: usize = 0;
    while i < paths.len()
        invariant
            i <= paths@.len(),
            names@.len() == paths@.len(),
            out@.map_values(|s: String| s@) == matching(
                paths@.take(i as int).map_values(|s: String| s@),
                names@.take(i as int).map_values(|s: String| s@),
                query@,
            ),
        decreases paths@.len() - i,
    {
        let ghost before = out@;
        let hit = name_matches(names[i].as_str(), query);
        if hit {
            out.push(paths[i].clone());
        }
        proof {
            let pv = paths@.take(i + 1).map_values(|s: String| s@);
            let nv = names@.take(i + 1).map_values(|s: String| s@);
            assert(pv.drop_last() =~= paths@.take(i as int).map_values(|s: String| s@));
            assert(nv.drop_last() =~= names@.take(i as int).map_values(|s: String| s@));
            assert(nv[pv.len() - 1] == names@[i as int]@);
            assert(pv.last() == paths@[i as int]@);
            if hit {
                assert(out@.map_values(|s: String| s@) =~= before.map_values(|s: String| s@).push(
                    paths@[i as int]@,
                ));
            }
        }
        i = i + 1;
    }
    proof {
        assert(paths@.take(i as int) =~= paths@);
        assert(names@.take(i as int) =~= names@);
    }
    out
}

} // verus!
