//! Character-sequence utilities: lexicographic ordering of names, string
//! equality and suffix tests, and lower-casing.

use vstd::prelude::*;
use vstd::string::StrSliceExecFns;
use vstd::string::StringExecFns;

verus! {

/// Lexicographic "less than or equal" on character sequences, ordered by
/// code point: the order in which names are listed in the tree.
pub open spec fn lex_le(a: Seq<char>, b: Seq<char>) -> bool
    decreases a.len(),
{
    if a.len() == 0 {
        true
    } else if b.len() == 0 {
        false
    } else if (a[0] as u32) == (b[0] as u32) {
        lex_le(a.drop_first(), b.drop_first())
    } else {
        (a[0] as u32) < (b[0] as u32)
    }
}

/// The order is total: any two sequences compare one way or the other.
pub proof fn lemma_lex_le_total(a: Seq<char>, b: Seq<char>)
    ensures
        lex_le(a, b) || lex_le(b, a),
    decreases a.len(),
{
    if a.len() == 0 || b.len() == 0 {
    } else if (a[0] as u32) == (b[0] as u32) {
        lemma_lex_le_total(a.drop_first(), b.drop_first());
    }
}

/// The order is transitive.
pub proof fn lemma_lex_le_trans(a: Seq<char>, b: Seq<char>, c: Seq<char>)
    requires
        lex_le(a, b),
        lex_le(b, c),
    ensures
        lex_le(a, c),
    decreases a.len(),
{
    if a.len() == 0 || b.len() == 0 || c.len() == 0 {
    } else if (a[0] as u32) == (b[0] as u32) && (b[0] as u32) == (c[0] as u32) {
        lemma_lex_le_trans(a.drop_first(), b.drop_first(), c.drop_first());
    }
}

/// Compares the suffixes of `a` and `b` that start at character `i`;
/// the entry point below starts at zero.
fn str_le_from(a: &str, b: &str, i: usize) -> (r: bool)
    requires
        i <= a@.len(),
        i <= b@.len(),
    ensures
        r == lex_le(a@.skip(i as int), b@.skip(i as int)),
    decreases a@.len() - i,
{
    let alen = a.unicode_len();
    let blen = b.unicode_len();
    if i == alen {
        assert(a@.skip(i as int).len() == 0);
        true
    } else if i == blen {
        assert(b@.skip(i as int).len() == 0);
        assert(a@.skip(i as int).len() > 0);
        false
    } else {
        let ca = a.get_char(i);
        let cb = b.get_char(i);
        assert(a@.skip(i as int)[0] == ca);
        assert(b@.skip(i as int)[0] == cb);
        if (ca as u32) == (cb as u32) {
            let r = str_le_from(a, b, i + 1);
            assert(a@.skip(i as int).drop_first() =~= a@.skip(i + 1));
            assert(b@.skip(i as int).drop_first() =~= b@.skip(i + 1));
            r
        } else {
            (ca as u32) < (cb as u32)
        }
    }
}

/// Decides the lexicographic order on two strings.
pub fn str_le(a: &str, b: &str) -> (r: bool)
    ensures
        r == lex_le(a@, b@),
{
    let r = str_le_from(a, b, 0);
    assert(a@.skip(0) =~= a@);
    assert(b@.skip(0) =~= b@);
    r
}

/// Compares the suffixes of two equally long strings that start at
/// character `i`; the entry point below starts at zero.
fn str_eq_from(a: &str, b: &str, i: usize) -> (r: bool)
    requires
        a@.len() == b@.len(),
        i <= a@.len(),
    ensures
        r == (a@.skip(i as int) == b@.skip(i as int)),
    decreases a@.len() - i,
{
    let alen = a.unicode_len();
    if i == alen {
        assert(a@.skip(i as int) =~= b@.skip(i as int));
        true
    } else {
        let ca = a.get_char(i);
        let cb = b.get_char(i);
        if ca == cb {
            let r = str_eq_from(a, b, i + 1);
            proof {
                if a@.skip(i + 1) == b@.skip(i + 1) {
                    assert forall|k: int| 0 <= k < a@.skip(i as int).len() implies #[trigger] a@.skip(
                        i as int,
                    )[k] == b@.skip(i as int)[k] by {
                        if k >= 1 {
                            assert(a@.skip(i as int)[k] == a@.skip(i + 1)[k - 1]);
                            assert(b@.skip(i as int)[k] == b@.skip(i + 1)[k - 1]);
                        }
                    }
                    assert(a@.skip(i as int) =~= b@.skip(i as int));
                } else {
                    if a@.skip(i as int) == b@.skip(i as int) {
                        assert forall|k: int| 0 <= k < a@.skip(i + 1).len() implies #[trigger] a@.skip(
                            i + 1,
                        )[k] == b@.skip(i + 1)[k] by {
                            assert(a@.skip(i + 1)[k] == a@.skip(i as int)[k + 1]);
                            assert(b@.skip(i + 1)[k] == b@.skip(i as int)[k + 1]);
                        }
                        assert(a@.skip(i + 1) =~= b@.skip(i + 1));
                    }
                }
            }
            r
        } else {
            assert(a@.skip(i as int)[0] != b@.skip(i as int)[0]);
            false
        }
    }
}

/// Decides whether two strings hold the same characters.
pub fn str_eq(a: &str, b: &str) -> (r: bool)
    ensures
        r == (a@ == b@),
{
    let alen = a.unicode_len();
    let blen = b.unicode_len();
    if alen != blen {
        return false;
    }
    let r = str_eq_from(a, b, 0);
    assert(a@.skip(0) =~= a@);
    assert(b@.skip(0) =~= b@);
    r
}

/// The markdown file suffix, as characters.
pub open spec fn md_suffix() -> Seq<char> {
    seq!['.', 'm', 'd']
}

/// Whether a file name ends in the markdown extension.
pub open spec fn is_md_name(s: Seq<char>) -> bool {
    s.len() >= 3 && s.subrange(s.len() - 3, s.len() as int) == md_suffix()
}

/// Decides whether a file name ends in the markdown extension.
pub fn name_is_markdown(name: &str) -> (r: bool)
    ensures
        r == is_md_name(name@),
{
    let len = name.unicode_len();
    if len < 3 {
        return false;
    }
    let c0 = name.get_char(len - 3);
    let c1 = name.get_char(len - 2);
    let c2 = name.get_char(len - 1);
    let r = c0 == '.' && c1 == 'm' && c2 == 'd';
    proof {
        let suf = name@.subrange(name@.len() - 3, name@.len() as int);
        assert(suf.len() == 3);
        assert(suf[0] == c0 && suf[1] == c1 && suf[2] == c2);
        if r {
            assert(suf =~= md_suffix());
        } else {
            assert(suf != md_suffix()) by {
                if suf == md_suffix() {
                    assert(suf[0] == '.' && suf[1] == 'm' && suf[2] == 'd');
                }
            }
        }
    }
    r
}

/// Whether a name starts with a dot, which hides a directory from the index.
pub open spec fn starts_with_dot(s: Seq<char>) -> bool {
    s.len() > 0 && s[0] == '.'
}

/// Decides whether a name starts with a dot.
pub fn name_starts_with_dot(name: &str) -> (r: bool)
    ensures
        r == starts_with_dot(name@),
{
    if name.unicode_len() == 0 {
        return false;
    }
    name.get_char(0) == '.'
}

/// The characters that lower-casing a sequence of characters yields.
pub uninterp spec fn lower_of(s: Seq<char>) -> Seq<char>;

/// Relies on str::to_lowercase: the result depends on the input characters
/// alone, and lower-casing an empty string yields an empty string.
#[verifier::external_body]
pub(crate) fn lowercase(s: &str) -> (r: String)
    ensures
        r@ == lower_of(s@),
        s@.len() == 0 ==> r@.len() == 0,
{
    s.to_lowercase()
}

/// The characters of a name with every occurrence of the markdown suffix
/// removed, scanning left to right over non-overlapping occurrences.
pub open spec fn remove_md(s: Seq<char>) -> Seq<char>
    decreases s.len(),
{
    if s.len() < 3 {
        s
    } else if s.take(3) == md_suffix() {
        remove_md(s.skip(3))
    } else {
        seq![s[0]] + remove_md(s.drop_first())
    }
}

/// Removes the suffix occurrences of `s` from character `i` on; the entry
/// point below starts at zero.
fn remove_md_from(s: &str, i: usize) -> (r: String)
    requires
        i <= s@.len(),
    ensures
        r@ == remove_md(s@.skip(i as int)),
    decreases s@.len() - i,
{
    let len = s.unicode_len();
    let ghost t = s@.skip(i as int);
    if len - i < 3 {
        let rest = s.substring_char(i, len);
        let r = String::from_str(rest);
        proof {
            assert(r@ =~= t);
        }
        r
    } else {
        let c0 = s.get_char(i);
        let c1 = s.get_char(i + 1);
        let c2 = s.get_char(i + 2);
        proof {
            assert(t[0] == s@[i as int]);
            assert(t[1] == s@[i + 1]);
            assert(t[2] == s@[i + 2]);
            assert(t.take(3)[0] == t[0] && t.take(3)[1] == t[1] && t.take(3)[2] == t[2]);
        }
        if c0 == '.' && c1 == 'm' && c2 == 'd' {
            let r = remove_md_from(s, i + 3);
            proof {
                assert(t.take(3) =~= md_suffix());
                assert(t.skip(3) =~= s@.skip(i + 3));
            }
            r
        } else {
            proof {
                assert(t.take(3) != md_suffix()) by {
                    if t.take(3) == md_suffix() {
                        assert(t.take(3)[0] == '.' && t.take(3)[1] == 'm' && t.take(3)[2] == 'd');
                    }
                }
            }
            let head = s.substring_char(i, i + 1);
            let rest = remove_md_from(s, i + 1);
            let mut out = String::from_str(head);
            out.append(rest.as_str());
            proof {
                assert(t.drop_first() =~= s@.skip(i + 1));
                assert(head@ =~= seq![t[0]]);
                assert(out@ =~= seq![t[0]] + remove_md(t.drop_first()));
            }
            out
        }
    }
}

/// Removes every occurrence of the markdown suffix from a name: the clean
/// display key of a cheatsheet file.
pub fn strip_markdown_extension(name: &str) -> (r: String)
    ensures
        r@ == remove_md(name@),
{
    let r = remove_md_from(name, 0);
    proof {
        assert(name@.skip(0) =~= name@);
    }
    r
}

} // verus!
