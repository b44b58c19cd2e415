//! Unix paths as text: the final component (`Path::file_name`), the final
//! component of the parent (`Path::parent` then `Path::file_name`) and joining
//! (`Path::join`).

use crate::text::chars_of;
use vstd::prelude::*;

verus! {

/// Where the last `/`-separated segment of `p` starts: just after the last
/// `/`, or at 0 where `p` holds none.
pub open spec fn segment_start(p: Seq<char>) -> nat
    decreases p.len(),
{
    if p.len() == 0 {
        0
    } else if p.last() == '/' {
        p.len()
    } else {
        segment_start(p.drop_last())
    }
}

/// The final component of the path `p`, as `Path::file_name` gives it on
/// Unix. Separators at the end and `.` segments that follow a separator are
/// skipped; a path that then ends in `..`, is empty, is the root or is just
/// `.` has none.
pub open spec fn file_name_of(p: Seq<char>) -> Option<Seq<char>>
    decreases p.len(),
{
    if p.len() == 0 {
        None
    } else if p.last() == '/' {
        file_name_of(p.drop_last())
    } else {
        let k = segment_start(p) as int;
        let seg = p.subrange(k, p.len() as int);
        if seg == seq!['.'] {
            if k == 0 {
                None
            } else {
                file_name_of(p.drop_last())
            }
        } else if seg == seq!['.', '.'] {
            None
        } else {
            Some(seg)
        }
    }
}

/// The final component of the parent of `p`, as `Path::parent` followed by
/// `Path::file_name` gives it on Unix: the final component is dropped, and
/// the file name of what stands before it is taken.
pub open spec fn parent_file_name_of(p: Seq<char>) -> Option<Seq<char>>
    decreases p.len(),
{
    if p.len() == 0 {
        None
    } else if p.last() == '/' {
        parent_file_name_of(p.drop_last())
    } else {
        let k = segment_start(p) as int;
        if p.subrange(k, p.len() as int) == seq!['.'] && k > 0 {
            parent_file_name_of(p.drop_last())
        } else {
            file_name_of(p.take(k))
        }
    }
}

/// `base` joined with `name`, as `Path::join` gives it on Unix: an absolute
/// `name` replaces `base`; otherwise a `/` is put between them unless `base`
/// is empty or already ends in one.
pub open spec fn join_spec(base: Seq<char>, name: Seq<char>) -> Seq<char> {
    if name.len() > 0 && name[0] == '/' {
        name
    } else if base.len() == 0 || base.last() == '/' {
        base + name
    } else {
        base + seq!['/'] + name
    }
}

/// Whether `n` is a plain path component: not empty, without `/`, and
/// neither `.` nor `..`.
pub open spec fn is_normal_component(n: Seq<char>) -> bool {
    &&& n.len() > 0
    &&& forall|i: int| 0 <= i < n.len() ==> #[trigger] n[i] != '/'
    &&& n != seq!['.']
    &&& n != seq!['.', '.']
}

/// The start of the last segment of `v[..end]`.
fn last_segment_start(v: &Vec<char>, end: usize) -> (k: usize)
    requires
        end <= v@.len(),
    ensures
        k == segment_start(v@.take(end as int)),
        k <= end,
        forall|i: int| k <= i < end ==> v@[i] != '/',
{
    let mut k = end;
    while k > 0 && v[k - 1] != '/'
        invariant
            k <= end <= v@.len(),
            segment_start(v@.take(end as int)) == segment_start(v@.take(k as int)),
            forall|i: int| k <= i < end ==> v@[i] != '/',
        decreases k,
    {
        assert(v@.take(k as int).drop_last() =~= v@.take(k - 1));
        k = k - 1;
    }
    k
}

/// The final component of `path`, as `Path::file_name` gives it.
pub fn file_name(path: &str) -> (r: Option<String>)
    ensures
        match r {
            Some(s) => file_name_of(path@) == Some(s@),
            None => file_name_of(path@) is None,
        },
{
    let v = chars_of(path);
    let mut end = v.len();
    assert(v@.take(end as int) =~= v@);
    loop
        invariant
            end <= v@.len(),
            v@ == path@,
            file_name_of(path@) == file_name_of(v@.take(end as int)),
        decreases end,
    {
        if end == 0 {
            return None;
        }
        if v[end - 1] == '/' {
            assert(v@.take(end as int).drop_last() =~= v@.take(end - 1));
            end = end - 1;
        } else {
            let k = last_segment_start(&v, end);
            let ghost p = v@.take(end as int);
            let ghost seg = p.subrange(k as int, end as int);
            assert(seg =~= v@.subrange(k as int, end as int));
            if end - k == 1 && v[k] == '.' {
                assert(seg =~= seq!['.']);
                if k == 0 {
                    return None;
                }
                assert(p.drop_last() =~= v@.take(end - 1));
                end = end - 1;
            } else if end - k == 2 && v[k] == '.' && v[k + 1] == '.' {
                assert(seg =~= seq!['.', '.']);
                return None;
            } else {
                assert(seg != seq!['.']) by {
                    if seg == seq!['.'] {
                        assert(seg.len() == seq!['.'].len());
                        assert(seg[0] == seq!['.'][0]);
                    }
                }
                assert(seg != seq!['.', '.']) by {
                    if seg == seq!['.', '.'] {
                        assert(seg.len() == seq!['.', '.'].len());
                        assert(seg[0] == seq!['.', '.'][0]);
                        assert(seg[1] == seq!['.', '.'][1]);
                    }
                }
                let name = path.substring_char(k, end).to_owned();
                return Some(name);
            }
        }
    }
}

/// The final component of the parent of `path`, as `Path::parent` followed by
/// `Path::file_name` gives it.
pub fn parent_file_name(path: &str) -> (r: Option<String>)
    ensures
        match r {
            Some(s) => parent_file_name_of(path@) == Some(s@),
            None => parent_file_name_of(path@) is None,
        },
{
    let v = chars_of(path);
    let mut end = v.len();
    assert(v@.take(end as int) =~= v@);
    loop
        invariant
            end <= v@.len(),
            v@ == path@,
            parent_file_name_of(path@) == parent_file_name_of(v@.take(end as int)),
        decreases end,
    {
        if end == 0 {
            return None;
        }
        if v[end - 1] == '/' {
            assert(v@.take(end as int).drop_last() =~= v@.take(end - 1));
            end = end - 1;
        } else {
            let k = last_segment_start(&v, end);
            let ghost p = v@.take(end as int);
            let ghost seg = p.subrange(k as int, end as int);
            assert(seg =~= v@.subrange(k as int, end as int));
            if end - k == 1 && v[k] == '.' && k > 0 {
                assert(seg =~= seq!['.']);
                assert(p.drop_last() =~= v@.take(end - 1));
                end = end - 1;
            } else {
                assert(!(seg == seq!['.'] && k > 0)) by {
                    if seg == seq!['.'] {
                        assert(seg.len() == seq!['.'].len());
                        assert(seg[0] == seq!['.'][0]);
                    }
                }
                let before = path.substring_char(0, k);
                assert(before@ =~= p.take(k as int));
                return file_name(before);
            }
        }
    }
}

/// `base` joined with `name`, as `Path::join` gives it.
pub fn join_path(base: &str, name: &str) -> (r: String)
    ensures
        r@ == join_spec(base@, name@),
{
    let name_chars = chars_of(name);
    if name_chars.len() > 0 && name_chars[0] == '/' {
        return name.to_owned();
    }
    let base_chars = chars_of(base);
    let n = base_chars.len();
    if n == 0 || base_chars[n - 1] == '/' {
        base.to_owned().concat(name)
    } else {
        proof {
            reveal_strlit("/");
        }
        let r = base.to_owned().concat("/").concat(name);
        assert(r@ =~= join_spec(base@, name@));
        r
    }
}

/// The directory that describes the block device `device_name` in sysfs.
pub open spec fn sysfs_block_path_of(device_name: Seq<char>) -> Seq<char> {
    join_spec("/sys/class/block"@, device_name)
}

/// The directory that describes the block device `device_name` in sysfs:
/// `/sys/class/block` joined with the name.
pub fn sysfs_block_path(device_name: &str) -> (r: String)
    ensures
        r@ == sysfs_block_path_of(device_name@),
{
    join_path("/sys/class/block", device_name)
}

/// The sysfs directory of the disk that holds the partition whose resolved
/// sysfs path is `canonical_sysfs_path`: the file name of that path's parent,
/// joined onto `/sys/class/block`. Nothing where the parent has no file name.
pub fn parent_sysfs_block_path(canonical_sysfs_path: &str) -> (r: Option<String>)
    ensures
        match r {
            Some(s) => parent_file_name_of(canonical_sysfs_path@) matches Some(n) && s@
                == sysfs_block_path_of(n),
            None => parent_file_name_of(canonical_sysfs_path@) is None,
        },
{
    match parent_file_name(canonical_sysfs_path) {
        Some(parent) => Some(sysfs_block_path(parent.as_str())),
        None => None,
    }
}

proof fn lemma_segment_start_after_separator(prefix: Seq<char>, n: Seq<char>)
    requires
        prefix.len() == 0 || prefix.last() == '/',
        forall|i: int| 0 <= i < n.len() ==> #[trigger] n[i] != '/',
    ensures
        segment_start(prefix + n) == prefix.len(),
    decreases n.len(),
{
    if n.len() > 0 {
        assert((prefix + n).drop_last() =~= prefix + n.drop_last());
        assert((prefix + n).last() == n[n.len() - 1]);
        lemma_segment_start_after_separator(prefix, n.drop_last());
    } else {
        assert(prefix + n =~= prefix);
    }
}

/// Joining a plain component onto any path and taking the file name gives
/// the component back.
pub proof fn lemma_file_name_of_join(base: Seq<char>, name: Seq<char>)
    requires
        is_normal_component(name),
    ensures
        file_name_of(join_spec(base, name)) == Some(name),
{
    let prefix = if base.len() == 0 || base.last() == '/' {
        base
    } else {
        base + seq!['/']
    };
    assert(name[0] != '/');
    assert(join_spec(base, name) =~= prefix + name);
    if base.len() > 0 && base.last() != '/' {
        assert(prefix.last() == '/');
    }
    lemma_segment_start_after_separator(prefix, name);
    let j = prefix + name;
    assert(j.last() == name[name.len() - 1]);
    assert(j.subrange(prefix.len() as int, j.len() as int) =~= name);
}

} // verus!
