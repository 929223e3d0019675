//! A model of filesystem paths as character sequences, and the shorthand
//! addressing scheme: a short lowercase key derived from the trailing
//! components of a path.
//!
//! A path is split on `/`. Empty segments and current-directory (`.`)
//! segments are skipped; a leading slash counts as one root component `/`.
//! Components are gathered from the end of the path, so the list produced
//! here holds the deepest component first.

use vstd::prelude::*;
use vstd::string::StrSliceExecFns;
use vstd::string::StringExecFns;
use crate::text::lower_of;
use crate::text::lowercase;
use crate::text::str_eq;

verus! {

/// The views of a list of strings.
pub open spec fn strs_view(v: Seq<String>) -> Seq<Seq<char>> {
    v.map_values(|s: String| s@)
}

/// The components of `p[0..e]`, deepest first, while the slash-free
/// characters of `cur` have already been gathered for the component
/// currently being scanned.
pub open spec fn comps_back(p: Seq<char>, e: int, cur: Seq<char>) -> Seq<Seq<char>>
    decreases e,
{
    if e <= 0 {
        if cur.len() > 0 && cur != seq!['.'] {
            seq![cur]
        } else {
            Seq::empty()
        }
    } else if p[e - 1] == '/' {
        let rest: Seq<Seq<char>> = if e == 1 {
            seq![seq!['/']]
        } else {
            comps_back(p, e - 1, Seq::empty())
        };
        if cur.len() > 0 && cur != seq!['.'] {
            seq![cur] + rest
        } else {
            rest
        }
    } else {
        comps_back(p, e - 1, seq![p[e - 1]] + cur)
    }
}

/// The components of a path, deepest first.
pub open spec fn path_components_rev(p: Seq<char>) -> Seq<Seq<char>> {
    comps_back(p, p.len() as int, Seq::empty())
}

/// Walks `p[0..e]` backwards; `p[e..seg_end]` is the slash-free part
/// already seen of the component currently being scanned.
fn comps_back_exec(p: &str, e: usize, seg_end: usize) -> (r: Vec<String>)
    requires
        e <= seg_end <= p@.len(),
        forall|k: int| e <= k < seg_end ==> p@[k] != '/',
    ensures
        strs_view(r@) == comps_back(p@, e as int, p@.subrange(e as int, seg_end as int)),
    decreases e,
{
    let ghost cur = p@.subrange(e as int, seg_end as int);
    if e == 0 {
        if seg_end > 0 && !(seg_end == 1 && p.get_char(0) == '.') {
            let comp = p.substring_char(0, seg_end);
            let mut out: Vec<String> = Vec::new();
            out.push(String::from_str(comp));
            proof {
                assert(cur != seq!['.']) by {
                    if cur == seq!['.'] {
                        assert(cur.len() == 1 && cur[0] == '.');
                    }
                }
                assert(strs_view(out@) =~= seq![cur]);
            }
            out
        } else {
            let out: Vec<String> = Vec::new();
            proof {
                if seg_end == 1 && p@[0] == '.' {
                    assert(cur =~= seq!['.']);
                }
                assert(strs_view(out@) =~= Seq::<Seq<char>>::empty());
            }
            out
        }
    } else {
        let c = p.get_char(e - 1);
        if c == '/' {
            let mut rest: Vec<String> = if e == 1 {
                let mut root: Vec<String> = Vec::new();
                root.push(String::from_str(p.substring_char(0, 1)));
                proof {
                    assert(p@.subrange(0, 1) =~= seq!['/']);
                    assert(strs_view(root@) =~= seq![seq!['/']]);
                }
                root
            } else {
                let r = comps_back_exec(p, e - 1, e - 1);
                proof {
                    assert(p@.subrange(e - 1, e - 1) =~= Seq::<char>::empty());
                }
                r
            };
            if seg_end > e && !(seg_end == e + 1 && p.get_char(e) == '.') {
                let comp = p.substring_char(e, seg_end);
                rest.insert(0, String::from_str(comp));
                proof {
                    assert(cur != seq!['.']) by {
                        if cur == seq!['.'] {
                            assert(cur.len() == 1 && cur[0] == '.');
                        }
                    }
                    assert(strs_view(rest@) =~= comps_back(p@, e as int, cur));
                }
                rest
            } else {
                proof {
                    if seg_end == e + 1 && p@[e as int] == '.' {
                        assert(cur =~= seq!['.']);
                    }
                    if !(seg_end > e) {
                        assert(cur.len() == 0);
                    }
                }
                rest
            }
        } else {
            let r = comps_back_exec(p, e - 1, seg_end);
            proof {
                assert(p@.subrange(e - 1, seg_end as int) =~= seq![p@[e - 1]] + cur);
            }
            r
        }
    }
}

/// The components of a path, deepest first.
pub fn path_components_of(p: &str) -> (r: Vec<String>)
    ensures
        strs_view(r@) == path_components_rev(p@),
{
    let len = p.unicode_len();
    let r = comps_back_exec(p, len, len);
    proof {
        assert(p@.subrange(len as int, len as int) =~= Seq::<char>::empty());
    }
    r
}

/// The fragment a component contributes to a shorthand identifier: its
/// first two characters, lower-cased; a shorter component contributes all
/// of its lower-cased text.
pub open spec fn frag_of(c: Seq<char>) -> Seq<char> {
    let l = lower_of(c);
    if l.len() <= 2 {
        l
    } else {
        l.take(2)
    }
}

/// The identifier built of the first `n` entries of a reversed component
/// list: their fragments concatenated in path order, deepest last.
pub open spec fn id_from_rev(comps: Seq<Seq<char>>, n: int) -> Seq<char>
    decreases n,
{
    if n <= 0 || comps.len() == 0 {
        Seq::empty()
    } else {
        id_from_rev(comps.drop_first(), n - 1) + frag_of(comps[0])
    }
}

/// The shorthand identifier of a path: the fragments of its last `depth`
/// components, concatenated in path order.
pub open spec fn spec_shorthand_id(p: Seq<char>, depth: int) -> Seq<char> {
    id_from_rev(path_components_rev(p), depth)
}

/// Computes the fragment of one component.
fn frag_exec(comp: &str) -> (r: String)
    ensures
        r@ == frag_of(comp@),
{
    let low = lowercase(comp);
    if low.as_str().unicode_len() <= 2 {
        low
    } else {
        String::from_str(low.as_str().substring_char(0, 2))
    }
}

/// Concatenates the fragments of `comps[i..]`, at most `n` of them, in
/// path order.
fn id_from_rev_exec(comps: &Vec<String>, i: usize, n: usize) -> (r: String)
    requires
        i <= comps@.len(),
    ensures
        r@ == id_from_rev(strs_view(comps@).skip(i as int), n as int),
    decreases comps@.len() - i,
{
    if n == 0 || i == comps.len() {
        let r = String::new();
        assert(r@ =~= id_from_rev(strs_view(comps@).skip(i as int), n as int));
        r
    } else {
        let rest = id_from_rev_exec(comps, i + 1, n - 1);
        let frag = frag_exec((&comps[i]).as_str());
        let r = rest.concat(frag.as_str());
        proof {
            let cs = strs_view(comps@).skip(i as int);
            assert(cs.drop_first() =~= strs_view(comps@).skip(i + 1));
            assert(cs[0] == comps@[i as int]@);
        }
        r
    }
}

/// Produces the shorthand identifier of a path: for each of the last
/// `dirs_backwards` components, its first two characters lower-cased,
/// concatenated in path order with no separator.
pub fn make_short_id_from_two_first_letters_of_path_parts(
    file_path: &str,
    dirs_backwards: usize,
) -> (r: String)
    ensures
        r@ == spec_shorthand_id(file_path@, dirs_backwards as int),
{
    let comps = path_components_of(file_path);
    let r = id_from_rev_exec(&comps, 0, dirs_backwards);
    proof {
        assert(strs_view(comps@).skip(0) =~= strs_view(comps@));
    }
    r
}

/// The base name of a path: its deepest component, or the empty name where
/// the path has none, or ends at the root, or ends in a parent-directory
/// component.
pub open spec fn spec_base_name(p: Seq<char>) -> Seq<char> {
    let comps = path_components_rev(p);
    if comps.len() == 0 || comps[0] == seq!['/'] || comps[0] == seq!['.', '.'] {
        Seq::empty()
    } else {
        comps[0]
    }
}

/// Computes the base name of a path.
pub fn base_name(p: &str) -> (r: String)
    ensures
        r@ == spec_base_name(p@),
{
    let comps = path_components_of(p);
    if comps.len() == 0 {
        return String::new();
    }
    let first = &comps[0];
    proof {
        reveal_strlit("/");
        reveal_strlit("..");
        assert("/"@ =~= seq!['/']);
        assert(".."@ =~= seq!['.', '.']);
    }
    if str_eq(first.as_str(), "/") || str_eq(first.as_str(), "..") {
        String::new()
    } else {
        first.clone()
    }
}

/// A shorthand identifier never reads more than its depth: two paths whose
/// trailing components agree up to the depth get the same identifier.
proof fn lemma_id_from_rev_take(c1: Seq<Seq<char>>, c2: Seq<Seq<char>>, n: int)
    requires
        c1.take(if n <= c1.len() { n } else { c1.len() as int }) == c2.take(
            if n <= c2.len() { n } else { c2.len() as int },
        ),
    ensures
        id_from_rev(c1, n) == id_from_rev(c2, n),
    decreases n,
{
    let m1 = if n <= c1.len() { n } else { c1.len() as int };
    let m2 = if n <= c2.len() { n } else { c2.len() as int };
    if n <= 0 {
    } else if c1.len() == 0 {
        assert(c1.take(m1).len() == 0);
        assert(c2.take(m2).len() == 0);
        assert(c2.len() == 0);
    } else if c2.len() == 0 {
        assert(c2.take(m2).len() == 0);
        assert(c1.take(m1).len() == 0);
        assert(c1.len() == 0);
    } else {
        assert(c1.take(m1)[0] == c1[0]);
        assert(c2.take(m2)[0] == c2[0]);
        let d1 = c1.drop_first();
        let d2 = c2.drop_first();
        let k1 = if n - 1 <= d1.len() { n - 1 } else { d1.len() as int };
        let k2 = if n - 1 <= d2.len() { n - 1 } else { d2.len() as int };
        assert(c1.take(m1).len() == m1);
        assert(c2.take(m2).len() == m2);
        assert(m1 == m2);
        assert(k1 == m1 - 1 && k2 == m2 - 1);
        assert(d1.take(k1).len() == d2.take(k2).len());
        assert forall|j: int| 0 <= j < k1 implies #[trigger] d1.take(k1)[j] == d2.take(k2)[j] by {
            assert(d1.take(k1)[j] == d1[j]);
            assert(d1[j] == c1[j + 1]);
            assert(c1[j + 1] == c1.take(m1)[j + 1]);
            assert(d2.take(k2)[j] == d2[j]);
            assert(d2[j] == c2[j + 1]);
            assert(c2[j + 1] == c2.take(m2)[j + 1]);
        }
        assert(d1.take(k1) =~= d2.take(k2));
        lemma_id_from_rev_take(d1, d2, n - 1);
    }
}

/// The shorthand identifier uses at most `depth` trailing components: two
/// paths whose last `depth` components agree get the same identifier.
pub proof fn lemma_shorthand_id_uses_last_components(p1: Seq<char>, p2: Seq<char>, depth: int)
    requires
        ({
            let c1 = path_components_rev(p1);
            let c2 = path_components_rev(p2);
            c1.take(if depth <= c1.len() { depth } else { c1.len() as int }) == c2.take(
                if depth <= c2.len() { depth } else { c2.len() as int },
            )
        }),
    ensures
        spec_shorthand_id(p1, depth) == spec_shorthand_id(p2, depth),
{
    lemma_id_from_rev_take(path_components_rev(p1), path_components_rev(p2), depth);
}

} // verus!

