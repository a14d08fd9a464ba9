//! Unix path names: the final component, its extension, and the sidecar
//! signature path, `join` and `parent` (`std::path::Path` semantics on
//! `/`-separated text).
use vstd::prelude::*;

use crate::cli::opt_text;
use crate::text::{chars_of, range_is, same_text, string_of_range};

verus! {

/// Where the final component ends: trailing separators and trailing `.`
/// components do not count.
pub open spec fn name_end(s: Seq<char>) -> int
    decreases s.len(),
{
    if s.len() > 0 && s.last() == '/' {
        name_end(s.drop_last())
    } else if s.len() >= 2 && s.last() == '.' && s[s.len() - 2] == '/' {
        name_end(s.drop_last())
    } else {
        s.len() as int
    }
}

/// Where the component ending at `end` starts: just after the last
/// separator before `end`.
pub open spec fn name_start(s: Seq<char>, end: int) -> int
    decreases end,
{
    if end <= 0 {
        0
    } else if s[end - 1] == '/' {
        end
    } else {
        name_start(s, end - 1)
    }
}

/// The final component, if it is a name (`Path::file_name`): not empty,
/// not `.` and not `..`.
pub open spec fn file_name_of(s: Seq<char>) -> Option<Seq<char>> {
    let e = name_end(s);
    let seg = s.subrange(name_start(s, e), e);
    if seg.len() == 0 || seg == "."@ || seg == ".."@ {
        None
    } else {
        Some(seg)
    }
}

/// Whether `Path::extension` finds an extension in the file name `name`:
/// a `.` after its first character.
pub open spec fn has_extension(name: Seq<char>) -> bool {
    exists|i: int| 0 < i < name.len() && name[i] == '.'
}

/// `Path::extension` of a file name: what follows its last `.`, unless
/// that `.` is its first character.
pub open spec fn extension_of(name: Seq<char>) -> Option<Seq<char>> {
    if has_extension(name) {
        let p = choose|p: int|
            0 < p < name.len() && name[p] == '.' && forall|q: int| p < q < name.len() ==> name[q] != '.';
        Some(name.skip(p + 1))
    } else {
        None
    }
}

proof fn lemma_name_end_bounds(s: Seq<char>)
    ensures
        0 <= name_end(s) <= s.len(),
    decreases s.len(),
{
    if s.len() > 0 && s.last() == '/' {
        lemma_name_end_bounds(s.drop_last());
    } else if s.len() >= 2 && s.last() == '.' && s[s.len() - 2] == '/' {
        lemma_name_end_bounds(s.drop_last());
    }
}

/// The bounds `[start, end)` of the final component of `cs`.
fn final_component(cs: &Vec<char>) -> (r: (usize, usize))
    ensures
        r.1 as int == name_end(cs@),
        r.0 as int == name_start(cs@, r.1 as int),
        r.0 <= r.1 <= cs.len(),
{
    let ghost s = cs@;
    let mut e: usize = cs.len();
    assert(s.take(e as int) =~= s);
    while (e > 0 && cs[e - 1] == '/') || (e >= 2 && cs[e - 1] == '.' && cs[e - 2] == '/')
        invariant
            s == cs@,
            e <= cs.len(),
            name_end(s) == name_end(s.take(e as int)),
        decreases e,
    {
        assert(s.take(e as int).drop_last() =~= s.take(e - 1));
        e = e - 1;
    }
    assert(e > 0 ==> s.take(e as int).last() == s[e - 1]);
    assert(e >= 2 ==> s.take(e as int)[e - 2] == s[e - 2]);
    assert(name_end(s.take(e as int)) == e);
    let mut b: usize = e;
    while b > 0 && cs[b - 1] != '/'
        invariant
            s == cs@,
            b <= e <= cs.len(),
            name_start(s, e as int) == name_start(s, b as int),
        decreases b,
    {
        b = b - 1;
    }
    (b, e)
}

/// The final component of `path`, if it is a name.
pub fn file_name(path: &str) -> (r: Option<String>)
    ensures
        match r {
            Some(n) => file_name_of(path@) == Some(n@),
            None => file_name_of(path@) is None,
        },
{
    let cs = chars_of(path);
    let (b, e) = final_component(&cs);
    let seg = string_of_range(&cs, b, e);
    if b == e || same_text(seg.as_str(), ".") || same_text(seg.as_str(), "..") {
        None
    } else {
        Some(seg)
    }
}

/// The position of the last `.` of `cs`, if there is one after the first
/// character.
fn last_dot(cs: &Vec<char>) -> (r: Option<usize>)
    ensures
        r is Some == has_extension(cs@),
        r matches Some(p) ==> 0 < p < cs.len() && cs@[p as int] == '.' && forall|q: int|
            p < q < cs.len() ==> cs@[q] != '.',
{
    let mut p: usize = cs.len();
    while p > 1 && cs[p - 1] != '.'
        invariant
            p <= cs.len(),
            forall|q: int| p <= q < cs.len() ==> cs@[q] != '.',
        decreases p,
    {
        p = p - 1;
    }
    if p > 1 {
        Some(p - 1)
    } else {
        proof {
            if has_extension(cs@) {
                let w = choose|i: int| 0 < i < cs@.len() && cs@[i] == '.';
                assert(w >= p);
            }
        }
        None
    }
}

/// `Path::extension` of the file name `name`.
pub fn extension(name: &str) -> (r: Option<String>)
    ensures
        match r {
            Some(x) => extension_of(name@) == Some(x@) && x@.len() + 2 <= name@.len() && name@.skip(
                name@.len() - x@.len(),
            ) == x@ && name@[name@.len() - x@.len() - 1] == '.',
            None => extension_of(name@) is None,
        },
{
    let cs = chars_of(name);
    match last_dot(&cs) {
        Some(p) => {
            let ghost c = choose|q: int|
                0 < q < cs@.len() && cs@[q] == '.' && forall|k: int| q < k < cs@.len() ==> cs@[k]
                    != '.';
            assert(c == p as int) by {
                if c < p {
                } else if c > p {
                }
            }
            let x = string_of_range(&cs, p + 1, cs.len());
            assert(name@.skip(name@.len() - x@.len()) =~= x@);
            Some(x)
        },
        None => None,
    }
}

/// The sidecar signature path: the artifact's file name with `.sig`
/// appended (`lib.so` → `lib.so.sig`, `artifact` → `artifact.sig`). A path
/// without a file name is left as it is.
pub open spec fn signature_path_of(path: Seq<char>) -> Seq<char> {
    match file_name_of(path) {
        Some(name) => path.take(name_end(path)) + ".sig"@,
        None => path,
    }
}

/// Where the detached signature of the artifact at `path` is written.
pub fn signature_path_for(path: &str) -> (r: String)
    ensures
        r@ == signature_path_of(path@),
{
    let cs = chars_of(path);
    let (_b, e) = final_component(&cs);
    match file_name(path) {
        None => String::from_str(path),
        Some(_) => {
            let mut s = string_of_range(&cs, 0, e);
            s.append(".sig");
            s
        },
    }
}

/// `Path::join`: a name that starts with `/` replaces the base; otherwise
/// it is appended, with a `/` between unless the base is empty or already
/// ends with one.
pub open spec fn path_join_of(base: Seq<char>, name: Seq<char>) -> Seq<char> {
    if name.len() > 0 && name[0] == '/' {
        name
    } else if base.len() == 0 || base.last() == '/' {
        base + name
    } else {
        base + "/"@ + name
    }
}

/// `base.join(name)` on `/`-separated text.
pub fn path_join(base: &str, name: &str) -> (r: String)
    ensures
        r@ == path_join_of(base@, name@),
{
    let b = chars_of(base);
    let n = chars_of(name);
    if n.len() > 0 && n[0] == '/' {
        return String::from_str(name);
    }
    let mut s = String::from_str(base);
    if b.len() > 0 && b[b.len() - 1] != '/' {
        s.append("/");
    }
    s.append(name);
    s
}

/// How much of the front of a path its parent never loses: the root `/`,
/// or a leading `.` component of a relative path.
pub open spec fn body_floor(s: Seq<char>) -> int {
    if s.len() > 0 && s[0] == '/' {
        1
    } else if s.len() > 0 && s[0] == '.' && (s.len() == 1 || s[1] == '/') {
        1
    } else {
        0
    }
}

/// `s` without its trailing separators and trailing `.` components, never
/// cutting into the first `floor` characters.
pub open spec fn trim_back(s: Seq<char>, floor: int) -> Seq<char>
    decreases s.len(),
{
    if s.len() > floor && s.len() > 0 && s.last() == '/' {
        trim_back(s.drop_last(), floor)
    } else if s.len() > floor && s.len() >= 2 && s.last() == '.' && s[s.len() - 2] == '/' {
        trim_back(s.drop_last(), floor)
    } else {
        s
    }
}

/// `Path::parent`: `None` for the root and the empty path; the empty path
/// for a lone `.`; otherwise the path before its final component, without
/// the separators (and `.` components) that end it.
pub open spec fn parent_of(p: Seq<char>) -> Option<Seq<char>> {
    let e = name_end(p);
    let b = name_start(p, e);
    let seg = p.subrange(b, e);
    if seg.len() == 0 {
        None
    } else if seg == "."@ {
        Some(Seq::empty())
    } else {
        Some(trim_back(p.take(b), body_floor(p)))
    }
}

/// The parent directory of `path`, if it has one.
pub fn parent(path: &str) -> (r: Option<String>)
    ensures
        opt_text(r) == parent_of(path@),
{
    let cs = chars_of(path);
    let ghost s = cs@;
    let (b, e) = final_component(&cs);
    if b == e {
        return None;
    }
    proof {
        reveal_strlit(".");
    }
    if range_is(&cs, b, e, ".") {
        return Some(String::new());
    }
    let floor: usize = if cs[0] == '/' {
        1
    } else if cs[0] == '.' && (cs.len() == 1 || cs[1] == '/') {
        1
    } else {
        0
    };
    assert(floor as int == body_floor(s));
    let mut k: usize = b;
    assert(s.take(b as int).take(k as int) =~= s.take(k as int));
    while k > floor && (cs[k - 1] == '/' || (k >= 2 && cs[k - 1] == '.' && cs[k - 2] == '/'))
        invariant
            s == cs@,
            k <= b <= cs.len(),
            trim_back(s.take(b as int), floor as int) == trim_back(s.take(k as int), floor as int),
        decreases k,
    {
        assert(s.take(k as int).drop_last() =~= s.take(k - 1));
        assert(s.take(k as int).last() == s[k - 1]);
        assert(k >= 2 ==> s.take(k as int)[k - 2] == s[k - 2]);
        k = k - 1;
    }
    assert(k > 0 ==> s.take(k as int).last() == s[k - 1]);
    assert(k >= 2 ==> s.take(k as int)[k - 2] == s[k - 2]);
    assert(trim_back(s.take(k as int), floor as int) == s.take(k as int));
    let r = string_of_range(&cs, 0, k);
    assert(r@ =~= s.take(k as int));
    Some(r)
}

} // verus!
