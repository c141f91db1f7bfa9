//! The checks on a package upload and on a role grant, made on plain
//! values: the paths of the uploaded files, and the two possible targets
//! of a grant.
use vstd::prelude::*;
use crate::registry_core::PackagingError;
use crate::text::{chars_of, str_eq, string_of};

verus! {

/// A part of a path that names something: not empty, and not `.`.
pub open spec fn named_part(x: Seq<char>) -> bool {
    x.len() > 0 && x != seq!['.']
}

/// Walking a path left to right: the part being read, and the last part
/// read before it that names something.
pub open spec fn parts_walk(p: Seq<char>) -> (Seq<char>, Option<Seq<char>>)
    decreases p.len(),
{
    if p.len() == 0 {
        (Seq::empty(), None)
    } else {
        let prev = parts_walk(p.drop_last());
        if p.last() == '/' {
            (Seq::empty(), if named_part(prev.0) { Some(prev.0) } else { prev.1 })
        } else {
            (prev.0.push(p.last()), prev.1)
        }
    }
}

/// The name of the file a path leads to: its last part that names
/// something, unless that part is `..`.
pub open spec fn file_name(p: Seq<char>) -> Option<Seq<char>> {
    let w = parts_walk(p);
    let last = if named_part(w.0) { Some(w.0) } else { w.1 };
    match last {
        Some(x) => if x == seq!['.', '.'] { None } else { Some(x) },
        None => None,
    }
}

/// The position of the last `.` in `name`, or -1.
pub open spec fn last_dot(name: Seq<char>) -> int
    decreases name.len(),
{
    if name.len() == 0 {
        -1
    } else if name.last() == '.' {
        name.len() - 1
    } else {
        last_dot(name.drop_last())
    }
}

/// The extension of a file name: what follows its last `.`, unless that
/// `.` begins the name or there is none.
pub open spec fn extension(name: Seq<char>) -> Option<Seq<char>> {
    if last_dot(name) > 0 {
        Some(name.subrange(last_dot(name) + 1, name.len() as int))
    } else {
        None
    }
}

/// Whether an extension may be uploaded.
pub open spec fn allowed_extension(ext: Seq<char>) -> bool {
    ext == "ks"@ || ext == "toml"@ || ext == "md"@ || ext == "txt"@
}

/// What is refused of the file at `p`, as its path and the reason: a file
/// with a name and an extension that is neither the manifest nor `lib.ks`
/// and whose extension may not be uploaded.
pub open spec fn file_refusal(p: Seq<char>, manifest: Seq<char>) -> Option<(Seq<char>, Seq<char>)> {
    match file_name(p) {
        Some(name) => match extension(name) {
            Some(ext) => if name == manifest || name == "lib.ks"@ || allowed_extension(ext) {
                None
            } else {
                Some((p, "Invalid file extension: "@ + ext))
            },
            None => None,
        },
        None => None,
    }
}

/// What is refused of the files, in order.
pub open spec fn refusals(files: Seq<String>, manifest: Seq<char>) -> Seq<(Seq<char>, Seq<char>)>
    decreases files.len(),
{
    if files.len() == 0 {
        Seq::empty()
    } else {
        let rest = refusals(files.drop_last(), manifest);
        match file_refusal(files.last()@, manifest) {
            Some(x) => rest.push(x),
            None => rest,
        }
    }
}

/// A refusal of a file, as values.
pub open spec fn refusal_view(e: PackagingError) -> Option<(Seq<char>, Seq<char>)> {
    match e {
        PackagingError::InvalidFile { path, reason } => Some((path@, reason@)),
        PackagingError::EmptyPackageData => None,
    }
}

/// The name of the file the path `p` leads to, if any.
fn file_name_of(p: &Vec<char>) -> (r: Option<Vec<char>>)
    ensures
        match file_name(p@) {
            Some(x) => r matches Some(v) && v@ == x,
            None => r is None,
        },
{
    let mut cur: Vec<char> = Vec::new();
    let mut last: Option<Vec<char>> = None;
    let mut i: usize = 0;
    while i < p.len()
        invariant
            i <= p@.len(),
            parts_walk(p@.subrange(0, i as int)).0 == cur@,
            match parts_walk(p@.subrange(0, i as int)).1 {
                Some(x) => last matches Some(v) && v@ == x,
                None => last is None,
            },
        decreases p@.len() - i,
    {
        proof {
            assert(p@.subrange(0, i + 1).drop_last() =~= p@.subrange(0, i as int));
            assert(p@.subrange(0, i + 1).last() == p@[i as int]);
        }
        if p[i] == '/' {
            let named = cur.len() > 0 && !(cur.len() == 1 && cur[0] == '.');
            proof {
                assert(named == named_part(cur@)) by {
                    if cur@.len() == 1 {
                        assert(cur@ == seq![cur@[0]]);
                    }
                }
            }
            if named {
                last = Some(cur);
            }
            cur = Vec::new();
            proof { assert(cur@ =~= Seq::<char>::empty()); }
        } else {
            cur.push(p[i]);
        }
        i += 1;
    }
    proof { assert(p@.subrange(0, p@.len() as int) =~= p@); }
    let named = cur.len() > 0 && !(cur.len() == 1 && cur[0] == '.');
    proof {
        assert(named == named_part(cur@)) by {
            if cur@.len() == 1 {
                assert(cur@ == seq![cur@[0]]);
            }
        }
    }
    let chosen = if named { Some(cur) } else { last };
    match chosen {
        Some(x) => {
            let dotdot = x.len() == 2 && x[0] == '.' && x[1] == '.';
            proof {
                assert(dotdot == (x@ == seq!['.', '.'])) by {
                    if x@.len() == 2 {
                        assert(x@ == seq![x@[0], x@[1]]);
                    }
                }
            }
            if dotdot { None } else { Some(x) }
        },
        None => None,
    }
}

/// The position of the last `.` in `name`, or none.
fn last_dot_of(name: &Vec<char>) -> (r: Option<usize>)
    ensures
        match r {
            Some(i) => i as int == last_dot(name@) && i < name@.len(),
            None => last_dot(name@) == -1,
        },
{
    let mut i: usize = name.len();
    assert(name@.subrange(0, name@.len() as int) =~= name@);
    while i > 0
        invariant
            i <= name@.len(),
            last_dot(name@) == last_dot(name@.subrange(0, i as int)),
        decreases i,
    {
        proof {
            assert(name@.subrange(0, i as int).drop_last() =~= name@.subrange(0, i - 1));
        }
        if name[i - 1] == '.' {
            return Some(i - 1);
        }
        i -= 1;
    }
    assert(name@.subrange(0, 0) =~= Seq::<char>::empty());
    None
}

/// Whether the characters `v` are those of `s`.
fn chars_are(v: &Vec<char>, s: &str) -> (r: bool)
    ensures
        r == (v@ == s@),
{
    let t = string_of(v.as_slice());
    let u = String::from_str(s);
    str_eq(&t, &u)
}

/// What is refused of the file at `path`, if anything.
fn check_file(path: &String, manifest: &String) -> (r: Option<PackagingError>)
    ensures
        match file_refusal(path@, manifest@) {
            Some(x) => r matches Some(e) && refusal_view(e) == Some(x),
            None => r is None,
        },
{
    let p = chars_of(path.as_str());
    let name = match file_name_of(&p) {
        Some(n) => n,
        None => return None,
    };
    let dot = match last_dot_of(&name) {
        Some(d) => d,
        None => return None,
    };
    if dot == 0 {
        return None;
    }
    let n = name.len();
    assert(dot < n);
    let ext = crate::text::string_of_range(&name, dot + 1, n);
    let name_text = string_of(name.as_slice());
    if str_eq(&name_text, manifest) || chars_are(&name, "lib.ks") {
        return None;
    }
    if str_eq(&ext, &String::from_str("ks")) || str_eq(&ext, &String::from_str("toml"))
        || str_eq(&ext, &String::from_str("md")) || str_eq(&ext, &String::from_str("txt")) {
        return None;
    }
    let mut reason = String::from_str("Invalid file extension: ");
    crate::text::append_string(&mut reason, &ext);
    Some(PackagingError::InvalidFile { path: path.clone(), reason })
}

/// Checks the files of a package upload, by their paths: an upload with no
/// file is refused; else every file whose name has an extension, is not
/// the manifest (named `manifest`) nor `lib.ks`, and whose extension is
/// not `ks`, `toml`, `md` or `txt` is refused, all of them, in order.
pub fn validate_publishing_package_data(files: &Vec<String>, manifest: &String) -> (r: Result<(), Vec<PackagingError>>)
    ensures
        files@.len() == 0 ==> (r matches Err(v) && v@.len() == 1 && v@[0] is EmptyPackageData),
        files@.len() > 0 ==> match r {
            Ok(()) => refusals(files@, manifest@).len() == 0,
            Err(v) => refusals(files@, manifest@).len() > 0
                && v@.len() == refusals(files@, manifest@).len()
                && forall|i: int| 0 <= i < v@.len() ==> refusal_view(#[trigger] v@[i]) == Some(refusals(files@, manifest@)[i]),
        },
{
    if files.len() == 0 {
        let mut v: Vec<PackagingError> = Vec::new();
        v.push(PackagingError::EmptyPackageData);
        return Err(v);
    }
    let mut invalid: Vec<PackagingError> = Vec::new();
    let mut k: usize = 0;
    while k < files.len()
        invariant
            k <= files@.len(),
            invalid@.len() == refusals(files@.subrange(0, k as int), manifest@).len(),
            forall|i: int| 0 <= i < invalid@.len() ==> refusal_view(#[trigger] invalid@[i]) == Some(refusals(files@.subrange(0, k as int), manifest@)[i]),
        decreases files@.len() - k,
    {
        proof {
            assert(files@.subrange(0, k + 1).drop_last() =~= files@.subrange(0, k as int));
        }
        match check_file(&files[k], manifest) {
            Some(e) => {
                invalid.push(e);
            },
            None => {},
        }
        k += 1;
    }
    assert(files@.subrange(0, files@.len() as int) =~= files@);
    if invalid.len() > 0 {
        Err(invalid)
    } else {
        Ok(())
    }
}

/// Why a role grant is refused: a code and a message.
#[derive(Debug)]
pub struct GrantTargetError {
    pub code: String,
    pub message: String,
}

/// Checks the targets of a role grant: exactly one of a user and an
/// organisation.
pub fn validate_grant_schema_role(user_id: Option<i64>, org_id: Option<i64>) -> (r: Result<(), GrantTargetError>)
    ensures
        (user_id is Some && org_id is Some) ==> (r matches Err(e) && e.code@ == "exclusive_target"@
            && e.message@ == "Cannot specify both user_id and org_id"@),
        (user_id is None && org_id is None) ==> (r matches Err(e) && e.code@ == "missing_target"@
            && e.message@ == "Must specify either user_id or org_id"@),
        (user_id is Some) != (org_id is Some) ==> r is Ok,
{
    match (user_id, org_id) {
        (Some(_), Some(_)) => Err(GrantTargetError {
            code: String::from_str("exclusive_target"),
            message: String::from_str("Cannot specify both user_id and org_id"),
        }),
        (None, None) => Err(GrantTargetError {
            code: String::from_str("missing_target"),
            message: String::from_str("Must specify either user_id or org_id"),
        }),
        _ => Ok(()),
    }
}

/// A file whose extension is `ks`, `toml`, `md` or `txt` is never refused.
pub proof fn law_listed_extensions_are_accepted(p: Seq<char>, manifest: Seq<char>)
    requires
        file_name(p) matches Some(name) && extension(name) matches Some(ext)
            && (ext == "ks"@ || ext == "toml"@ || ext == "md"@ || ext == "txt"@),
    ensures
        file_refusal(p, manifest) is None,
{
}

/// A file is refused only for its extension, named in the reason, when it
/// is neither the manifest nor `lib.ks` and its extension is none of `ks`,
/// `toml`, `md` and `txt`.
pub proof fn law_refusal_names_the_extension(p: Seq<char>, manifest: Seq<char>)
    requires
        file_refusal(p, manifest) is Some,
    ensures
        file_name(p) matches Some(name) && extension(name) matches Some(ext) && {
            &&& name != manifest
            &&& name != "lib.ks"@
            &&& ext != "ks"@ && ext != "toml"@ && ext != "md"@ && ext != "txt"@
            &&& file_refusal(p, manifest) == Some((p, "Invalid file extension: "@ + ext))
        },
{
}

/// The manifest and `lib.ks` are never refused, whatever their extension.
pub proof fn law_manifest_and_root_file_are_accepted(p: Seq<char>, manifest: Seq<char>)
    requires
        file_name(p) == Some(manifest) || file_name(p) == Some("lib.ks"@),
    ensures
        file_refusal(p, manifest) is None,
{
}

} // verus!
