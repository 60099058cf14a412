//! Wallpaper file recognition and listing: which directory entries
//! count as wallpapers, and their deterministic order.

use crate::text::{
    chars_eq, chars_of, digits_val, last_index_of, lex_lt, lex_lt_exec,
    parse_u32, parses_as_u32, rfind_char, subvec,
};
use vstd::prelude::*;

verus! {

/// The final component of a path: everything after the last `/`, or
/// the whole path when it has none.
pub open spec fn file_name_of(p: Seq<char>) -> Seq<char> {
    p.subrange(last_index_of(p, '/') + 1, p.len() as int)
}

/// Whether a file name has an extension: a `.` that is neither its
/// first character nor absent.
pub open spec fn has_extension(name: Seq<char>) -> bool {
    last_index_of(name, '.') >= 1
}

/// The extension of a file name: everything after its last `.`.
pub open spec fn extension_of(name: Seq<char>) -> Seq<char> {
    name.subrange(last_index_of(name, '.') + 1, name.len() as int)
}

/// The base of a file name: everything before its last `.`.
pub open spec fn stem_of(name: Seq<char>) -> Seq<char> {
    name.subrange(0, last_index_of(name, '.'))
}

/// The accepted image extensions, exactly lowercase.
pub open spec fn is_image_ext(e: Seq<char>) -> bool {
    e == "jpg"@ || e == "jpeg"@ || e == "png"@
}

/// Whether a path points at an image file by its name: the extension
/// of its final component is an accepted image extension.
pub open spec fn is_image_path(p: Seq<char>) -> bool {
    has_extension(file_name_of(p)) && is_image_ext(extension_of(file_name_of(p)))
}

/// Whether a file name names a wallpaper: an image extension and a
/// base name that parses as an unsigned decimal integer.
pub open spec fn is_wallpaper_name(name: Seq<char>) -> bool {
    has_extension(name) && is_image_ext(extension_of(name)) && parses_as_u32(stem_of(name))
}

/// The number a wallpaper file name carries.
pub open spec fn wallpaper_num(name: Seq<char>) -> int {
    digits_val(stem_of(name))
}

/// The listing order: ascending by carried number, ties broken by
/// lexicographic order of the full file name.
pub open spec fn name_key_lt(a: Seq<char>, b: Seq<char>) -> bool {
    ||| wallpaper_num(a) < wallpaper_num(b)
    ||| (wallpaper_num(a) == wallpaper_num(b) && lex_lt(a, b))
}

fn is_image_ext_exec(e: &Vec<char>) -> (r: bool)
    ensures
        r == is_image_ext(e@),
{
    let jpg = chars_of("jpg");
    let jpeg = chars_of("jpeg");
    let png = chars_of("png");
    chars_eq(e, &jpg) || chars_eq(e, &jpeg) || chars_eq(e, &png)
}

/// The wallpaper number of a file name, or nothing when the name is
/// not a wallpaper name.
fn wallpaper_parts(v: &Vec<char>) -> (r: Option<u32>)
    ensures
        match r {
            Some(x) => is_wallpaper_name(v@) && x == wallpaper_num(v@),
            None => !is_wallpaper_name(v@),
        },
{
    let n = v.len();
    match rfind_char(v, '.') {
        None => None,
        Some(li) => {
            if li == 0 {
                return None;
            }
            let ext = subvec(v, li + 1, n);
            if !is_image_ext_exec(&ext) {
                return None;
            }
            let stem = subvec(v, 0, li);
            parse_u32(&stem)
        },
    }
}

/// Check if the file name matches the criteria for a numbered
/// wallpaper: an accepted image extension and a base name that is an
/// unsigned decimal integer.
pub fn matches_criteria(name: &str) -> (r: bool)
    ensures
        r == is_wallpaper_name(name@),
{
    let v = chars_of(name);
    wallpaper_parts(&v).is_some()
}

/// Check if the path names an image file (`jpg`, `jpeg`, `png`).
/// Whether the path exists as a regular file is for the caller to
/// establish; this checks the name.
pub fn is_image_file(path: &str) -> (r: bool)
    ensures
        r == is_image_path(path@),
{
    let v = chars_of(path);
    let n = v.len();
    let name = match rfind_char(&v, '/') {
        Some(i) => subvec(&v, i + 1, n),
        None => {
            proof {
                assert(v@.subrange(0, v@.len() as int) =~= v@);
            }
            subvec(&v, 0, n)
        },
    };
    match rfind_char(&name, '.') {
        None => false,
        Some(li) => {
            if li == 0 {
                return false;
            }
            let nn = name.len();
            let ext = subvec(&name, li + 1, nn);
            is_image_ext_exec(&ext)
        },
    }
}

/// Two distinct names are ordered by the listing order one way or the
/// other, and never both.
pub proof fn lemma_name_key_total(a: Seq<char>, b: Seq<char>)
    ensures
        a == b || name_key_lt(a, b) || name_key_lt(b, a),
        !(name_key_lt(a, b) && name_key_lt(b, a)),
{
    crate::text::lemma_lex_lt_total(a, b);
}

/// The listing order is transitive.
pub proof fn lemma_name_key_trans(a: Seq<char>, b: Seq<char>, c: Seq<char>)
    requires
        name_key_lt(a, b),
        name_key_lt(b, c),
    ensures
        name_key_lt(a, c),
{
    if wallpaper_num(a) == wallpaper_num(b) && wallpaper_num(b) == wallpaper_num(c) {
        crate::text::lemma_lex_lt_trans(a, b, c);
    }
}

/// Compare two wallpaper file names in listing order.
fn name_key_lt_exec(a: &String, b: &String) -> (r: bool)
    requires
        is_wallpaper_name(a@),
        is_wallpaper_name(b@),
    ensures
        r == name_key_lt(a@, b@),
{
    let va = chars_of(a.as_str());
    let vb = chars_of(b.as_str());
    let na = match wallpaper_parts(&va) {
        Some(x) => x,
        None => {
            return false;
        },
    };
    let nb = match wallpaper_parts(&vb) {
        Some(x) => x,
        None => {
            return false;
        },
    };
    if na < nb {
        true
    } else if nb < na {
        false
    } else {
        lex_lt_exec(&va, &vb)
    }
}

/// Whether some element of `ss` has the view `v`.
pub open spec fn contains_view(ss: Seq<String>, v: Seq<char>) -> bool {
    exists|i: int| 0 <= i < ss.len() && (#[trigger] ss[i]@) == v
}

proof fn lemma_contains_view_push(ss: Seq<String>, x: String, v: Seq<char>)
    ensures
        contains_view(ss.push(x), v) == (contains_view(ss, v) || x@ == v),
{
    if contains_view(ss, v) {
        let i = choose|i: int| 0 <= i < ss.len() && (#[trigger] ss[i]@) == v;
        assert(ss.push(x)[i]@ == v);
    }
    if x@ == v {
        assert(ss.push(x)[ss.len() as int]@ == v);
    }
    if contains_view(ss.push(x), v) {
        let i = choose|i: int| 0 <= i < ss.push(x).len() && (#[trigger] ss.push(x)[i]@) == v;
        if i < ss.len() {
            assert(ss[i]@ == v);
        }
    }
}

proof fn lemma_contains_view_remove(ss: Seq<String>, m: int, v: Seq<char>)
    requires
        0 <= m < ss.len(),
    ensures
        contains_view(ss.remove(m), v) ==> contains_view(ss, v),
        contains_view(ss, v) && ss[m]@ != v ==> contains_view(ss.remove(m), v),
{
    ss.remove_ensures(m);
    let t = ss.remove(m);
    if contains_view(t, v) {
        let i = choose|i: int| 0 <= i < t.len() && (#[trigger] t[i]@) == v;
        if i < m {
            assert(ss[i]@ == v);
        } else {
            assert(ss[i + 1]@ == v);
        }
    }
    if contains_view(ss, v) && ss[m]@ != v {
        let i = choose|i: int| 0 <= i < ss.len() && (#[trigger] ss[i]@) == v;
        if i < m {
            assert(t[i]@ == v);
        } else {
            assert(t[i - 1]@ == v);
        }
    }
}

/// Retrieve the wallpapers among the file names of a directory
/// listing: keep the names that match the criteria, in ascending
/// order of their carried number, ties broken lexicographically.
///
/// The names must be pairwise distinct, as the entries of one
/// directory are.
pub fn get_wallpapers(names: Vec<String>) -> (r: Vec<String>)
    requires
        forall|i: int, j: int| 0 <= i < j < names@.len() ==> (#[trigger] names@[i]@) != (
        #[trigger] names@[j]@),
    ensures
        forall|i: int, j: int| 0 <= i < j < r@.len() ==> name_key_lt(
            (#[trigger] r@[i])@,
            (#[trigger] r@[j])@,
        ),
        forall|i: int| 0 <= i < r@.len() ==> is_wallpaper_name((#[trigger] r@[i])@)
            && contains_view(names@, r@[i]@),
        forall|k: int| 0 <= k < names@.len() && is_wallpaper_name((#[trigger] names@[k])@)
            ==> contains_view(r@, names@[k]@),
{
    // Keep the names that match the criteria.
    let mut kept: Vec<String> = Vec::new();
    let ghost mut src: Seq<int> = Seq::empty();
    let n = names.len();
    let mut i: usize = 0;
    while i < n
        invariant
            n == names@.len(),
            i <= n,
            forall|i1: int, j1: int| 0 <= i1 < j1 < names@.len() ==> (#[trigger] names@[i1]@) != (
            #[trigger] names@[j1]@),
            src.len() == kept@.len(),
            forall|j: int| 0 <= j < kept@.len() ==> 0 <= #[trigger] src[j] < i,
            forall|j1: int, j2: int| 0 <= j1 < j2 < kept@.len() ==> src[j1] < src[j2],
            forall|j: int| 0 <= j < kept@.len() ==> (#[trigger] kept@[j])@ == names@[src[j]]@,
            forall|j: int| 0 <= j < kept@.len() ==> is_wallpaper_name((#[trigger] kept@[j])@),
            forall|k: int| 0 <= k < i && is_wallpaper_name((#[trigger] names@[k])@)
                ==> contains_view(kept@, names@[k]@),
        decreases n - i,
    {
        let ghost kept0 = kept@;
        if matches_criteria(names[i].as_str()) {
            let s = names[i].clone();
            kept.push(s);
            proof {
                src = src.push(i as int);
                assert(kept@[kept@.len() - 1]@ == names@[i as int]@);
                assert forall|k: int|
                    0 <= k < i + 1 && is_wallpaper_name((#[trigger] names@[k])@) implies contains_view(
                    kept@,
                    names@[k]@,
                ) by {
                    lemma_contains_view_push(kept0, kept@.last(), names@[k]@);
                }
            }
        }
        i = i + 1;
    }
    // The kept names are pairwise distinct: they came from distinct
    // positions of a duplicate-free listing.
    proof {
        assert forall|q1: int, q2: int| 0 <= q1 < q2 < kept@.len() implies (#[trigger] kept@[q1]@)
            != (#[trigger] kept@[q2]@) by {
            assert(names@[src[q1]]@ != names@[src[q2]]@);
        }
    }
    // Move the minimum of what is left to the output, repeatedly.
    let ghost kept_vs = kept@;
    let mut work = kept;
    let mut out: Vec<String> = Vec::new();
    while work.len() > 0
        invariant
            forall|p: int, q: int| 0 <= p < q < out@.len() ==> name_key_lt(
                (#[trigger] out@[p])@,
                (#[trigger] out@[q])@,
            ),
            forall|p: int, q: int| 0 <= p < out@.len() && 0 <= q < work@.len() ==> name_key_lt(
                (#[trigger] out@[p])@,
                (#[trigger] work@[q])@,
            ),
            forall|p: int| 0 <= p < out@.len() ==> is_wallpaper_name((#[trigger] out@[p])@),
            forall|q: int| 0 <= q < work@.len() ==> is_wallpaper_name((#[trigger] work@[q])@),
            forall|p: int| 0 <= p < out@.len() ==> contains_view(kept_vs, (#[trigger] out@[p])@),
            forall|q: int| 0 <= q < work@.len() ==> contains_view(kept_vs, (#[trigger] work@[q])@),
            forall|v: Seq<char>| #[trigger] contains_view(kept_vs, v) ==> contains_view(out@, v)
                || contains_view(work@, v),
            forall|q1: int, q2: int| 0 <= q1 < q2 < work@.len() ==> (#[trigger] work@[q1]@) != (
            #[trigger] work@[q2]@),
        decreases work@.len(),
    {
        let mut m: usize = 0;
        let mut j: usize = 1;
        proof {
            lemma_name_key_total(work@[0]@, work@[0]@);
        }
        while j < work.len()
            invariant
                0 < work@.len(),
                m < j <= work@.len(),
                forall|q: int| 0 <= q < work@.len() ==> is_wallpaper_name((#[trigger] work@[q])@),
                forall|j2: int| 0 <= j2 < j ==> !name_key_lt(
                    (#[trigger] work@[j2])@,
                    work@[m as int]@,
                ),
            decreases work@.len() - j,
        {
            if name_key_lt_exec(&work[j], &work[m]) {
                proof {
                    assert forall|j2: int| 0 <= j2 < j implies !name_key_lt(
                        (#[trigger] work@[j2])@,
                        work@[j as int]@,
                    ) by {
                        if name_key_lt(work@[j2]@, work@[j as int]@) {
                            lemma_name_key_trans(work@[j2]@, work@[j as int]@, work@[m as int]@);
                        }
                    }
                    lemma_name_key_total(work@[j as int]@, work@[j as int]@);
                }
                m = j;
            }
            j = j + 1;
        }
        proof {
            assert forall|q: int| 0 <= q < work@.len() && q != m implies name_key_lt(
                work@[m as int]@,
                (#[trigger] work@[q])@,
            ) by {
                lemma_name_key_total(work@[m as int]@, work@[q]@);
            }
        }
        let ghost work0 = work@;
        let ghost out0 = out@;
        let x = work.remove(m);
        out.push(x);
        proof {
            work0.remove_ensures(m as int);
            assert(out@[out@.len() - 1] == out0.push(out@.last())[out0.len() as int]);
            assert forall|v: Seq<char>| #[trigger] contains_view(kept_vs, v) implies contains_view(
                out@,
                v,
            ) || contains_view(work@, v) by {
                lemma_contains_view_push(out0, out@.last(), v);
                lemma_contains_view_remove(work0, m as int, v);
            }
            assert forall|p: int| 0 <= p < out@.len() implies contains_view(
                kept_vs,
                (#[trigger] out@[p])@,
            ) by {
                lemma_contains_view_push(out0, out@.last(), out@[p]@);
                if p < out0.len() {
                    assert(out@[p] == out0[p]);
                }
            }
        }
    }
    proof {
        assert forall|p: int| 0 <= p < out@.len() implies contains_view(names@, out@[p]@) by {
            let jx = choose|jx: int| 0 <= jx < kept_vs.len() && (#[trigger] kept_vs[jx]@)
                == out@[p]@;
            assert(names@[src[jx]]@ == out@[p]@);
        }
    }
    out
}

} // verus!
